use md_export::{
    collect_headings, fallback_title_from, parse_toc_depth, render, render_parsed, render_toc,
    slugify, toc_entries, toc_headings, DocEvent, Heading, NodeKind, RenderOptions, SlugRegistry,
    Theme,
};

fn heading(level: u8, text: &str, slug: &str) -> Heading {
    Heading {
        level,
        text: text.to_string(),
        slug: slug.to_string(),
    }
}

fn text(s: &str) -> NodeKind {
    NodeKind::Text(s.to_string())
}

fn fragment() -> RenderOptions {
    RenderOptions {
        standalone: false,
        ..RenderOptions::default()
    }
}

// ----- slugs -----------------------------------------------------------------

#[test]
fn slug_of_concatenation_is_concatenation_of_slugs() {
    let whole = slugify("Tabs\tand Spaces!");
    let parts = format!("{}{}", slugify("Tabs\tand"), slugify(" Spaces!"));
    assert_eq!(whole, parts);
    assert_eq!(whole, "tabsand-spaces");
}

#[test]
fn slug_lowercases_through_unicode_mapping() {
    assert_eq!(slugify("ABC"), "abc");
    assert_eq!(slugify("ÀÉÎ"), "àéî");
    // A lowercase mapping may be longer than one character.
    assert_eq!(slugify("İ"), "i\u{307}");
}

#[test]
fn slug_space_and_hyphen_alike_and_uncollapsed() {
    assert_eq!(slugify("a b"), slugify("a-b"));
    assert_eq!(slugify("  a  "), "--a--");
    assert_eq!(slugify(""), "");
    assert_eq!(slugify("!?."), "");
}

#[test]
fn registry_disambiguates_by_count_of_earlier_bases() {
    let mut reg = SlugRegistry::new();
    assert_eq!(reg.dedup_slug("a"), "a");
    assert_eq!(reg.dedup_slug("b"), "b");
    assert_eq!(reg.dedup_slug("a"), "a-1");
    assert_eq!(reg.dedup_slug("a"), "a-2");
    assert_eq!(reg.dedup_slug("b"), "b-1");
    // Every anchor handed out stays taken, suffixed ones included.
    assert_eq!(reg.dedup_slug("a-1"), "a-1-1");
    assert_eq!(reg.dedup_slug("a-1"), "a-1-2");
    assert_eq!(reg.dedup_slug("b-1"), "b-1-1");
}

#[test]
fn registry_skips_anchors_already_in_use() {
    let mut reg = SlugRegistry::new();
    assert_eq!(reg.dedup_slug("x-1"), "x-1");
    assert_eq!(reg.dedup_slug("x"), "x");
    assert_eq!(reg.dedup_slug("x"), "x-2");
    assert_eq!(reg.dedup_slug(""), "");
    assert_eq!(reg.dedup_slug(""), "-1");
}

#[test]
fn toc_links_match_comrak_ids_for_suffix_collisions() {
    let opts = RenderOptions {
        toc: true,
        ..fragment()
    };
    let html = render("## Dup\n\n## Dup\n\n## Dup-1\n", &opts);
    for id in ["dup", "dup-1", "dup-1-1"] {
        assert!(html.contains(&format!("href=\"#{id}\"")), "no link {id}: {html}");
        assert!(html.contains(&format!("id=\"{id}\"")), "no id {id}: {html}");
    }
}

#[test]
fn registry_counts_past_nine() {
    let mut reg = SlugRegistry::new();
    let mut last = String::new();
    for _ in 0..12 {
        last = reg.dedup_slug("x");
    }
    assert_eq!(last, "x-11");
}

// ----- outline ---------------------------------------------------------------

#[test]
fn outline_collects_visible_text_and_first_h1() {
    let events = vec![
        DocEvent::Enter(NodeKind::Other),
        DocEvent::Enter(NodeKind::Heading(2)),
        DocEvent::Enter(text("  Intro ")),
        DocEvent::Leave(text("  Intro ")),
        DocEvent::Enter(NodeKind::Code("x".to_string())),
        DocEvent::Leave(NodeKind::Code("x".to_string())),
        DocEvent::Enter(NodeKind::LineBreak),
        DocEvent::Leave(NodeKind::LineBreak),
        DocEvent::Enter(NodeKind::Other),
        DocEvent::Enter(text("more ")),
        DocEvent::Leave(text("more ")),
        DocEvent::Leave(NodeKind::Other),
        DocEvent::Leave(NodeKind::Heading(2)),
        DocEvent::Enter(text("outside")),
        DocEvent::Leave(text("outside")),
        DocEvent::Enter(NodeKind::Heading(1)),
        DocEvent::Enter(text("   ")),
        DocEvent::Leave(text("   ")),
        DocEvent::Leave(NodeKind::Heading(1)),
        DocEvent::Enter(NodeKind::Heading(1)),
        DocEvent::Enter(text("Intro x more")),
        DocEvent::Leave(text("Intro x more")),
        DocEvent::Leave(NodeKind::Heading(1)),
        DocEvent::Leave(NodeKind::Other),
    ];
    let (headings, first) = collect_headings(&events);
    assert_eq!(
        headings,
        vec![
            heading(2, "Intro x more", "--intro-x-more-"),
            heading(1, "", "---"),
            heading(1, "Intro x more", "intro-x-more"),
        ]
    );
    assert_eq!(first, Some("Intro x more".to_string()));
}

#[test]
fn outline_of_parsed_markdown_flattens_inline_formatting() {
    let opts = RenderOptions::default();
    let entries = toc_entries("# Hello `code` *em*\n\nFoo\nbar\n===\n", &opts);
    assert_eq!(
        entries,
        vec![
            heading(1, "Hello code em", "hello-code-em"),
            heading(1, "Foo bar", "foo-bar"),
        ]
    );
}

// ----- table of contents -----------------------------------------------------

#[test]
fn toc_markup_is_exact() {
    let hs = vec![heading(2, "A&B", "a<b"), heading(3, "C", "c")];
    let expected = "<nav class=\"toc\" aria-label=\"Table of contents\">\n\
<p class=\"toc-title\">Contents</p>\n<ul>\n\x20 \
<li class=\"toc-l2\"><a href=\"#a&lt;b\">A&amp;B</a></li>\n\x20   \
<li class=\"toc-l3\"><a href=\"#c\">C</a></li>\n\
</ul>\n</nav>\n";
    assert_eq!(render_toc(&hs), expected);
    assert_eq!(render_toc(&[]), "");
}

#[test]
fn toc_depth_keeps_only_shallow_headings() {
    let hs = vec![
        heading(1, "a", "a"),
        heading(3, "b", "b"),
        heading(2, "c", "c"),
        heading(4, "d", "d"),
    ];
    let kept = toc_headings(&hs, Some(2));
    assert_eq!(kept, vec![heading(1, "a", "a"), heading(2, "c", "c")]);
    assert_eq!(toc_headings(&hs, None), hs);
    assert_eq!(toc_headings(&hs, Some(1)), vec![heading(1, "a", "a")]);
}

#[test]
fn toc_depth_parser_accepts_one_to_six() {
    assert_eq!(parse_toc_depth("1"), Ok(1));
    assert_eq!(parse_toc_depth("6"), Ok(6));
    assert_eq!(parse_toc_depth("02"), Ok(2));
    assert_eq!(parse_toc_depth("0000000000000000000000003"), Ok(3));
    for bad in ["0", "7", "", "a", "+2", " 2", "2 ", "99999999999999999999999"] {
        let err = parse_toc_depth(bad).unwrap_err();
        assert_eq!(
            err,
            format!("invalid toc-depth '{bad}' (expected a number from 1 to 6)")
        );
    }
}

// ----- titles and pages ------------------------------------------------------

#[test]
fn fallback_title_from_path_stem() {
    assert_eq!(fallback_title_from(&None), "Document");
    assert_eq!(fallback_title_from(&Some("-".to_string())), "Document");
    assert_eq!(
        fallback_title_from(&Some("notes/report.final.md".to_string())),
        "report.final"
    );
    assert_eq!(fallback_title_from(&Some("/x/y.md".to_string())), "y");
    assert_eq!(fallback_title_from(&Some(".bashrc".to_string())), ".bashrc");
    assert_eq!(fallback_title_from(&Some("/".to_string())), "Document");
}

#[test]
fn title_escapes_quotes() {
    let opts = RenderOptions {
        title: Some("a\"b'c".to_string()),
        ..RenderOptions::default()
    };
    let html = render("x\n", &opts);
    assert!(html.contains("<title>a&quot;b&#39;c</title>"), "{html}");
}

#[test]
fn empty_first_h1_is_skipped_for_the_title() {
    let html = render("#\n\n# Real\n", &RenderOptions::default());
    assert!(html.contains("<title>Real</title>"), "{html}");
}

#[test]
fn standalone_page_wraps_the_fragment_exactly() {
    let md = "# Hi\n\nSome *text*.\n";
    let body = render(md, &fragment());
    assert!(body.contains("<h1") && !body.contains("# Hi"), "{body}");
    let page = render(
        md,
        &RenderOptions {
            style: false,
            ..RenderOptions::default()
        },
    );
    let expected = format!(
        "<!doctype html>\n<html lang=\"en\">\n<head>\n<meta charset=\"utf-8\">\n\
<meta name=\"viewport\" content=\"width=device-width, initial-scale=1\">\n\
<title>Hi</title>\n</head>\n<body>\n<main class=\"markdown-body\">\n{body}</main>\n</body>\n</html>\n"
    );
    assert_eq!(page, expected);
}

#[test]
fn style_block_embeds_the_theme_css() {
    let opts = RenderOptions {
        theme: Theme::Dark,
        ..RenderOptions::default()
    };
    let page = render("x\n", &opts);
    let css = md_export::theme_css(Theme::Dark);
    assert!(page.contains(&format!("<style>\n{css}\n</style>\n")));
}

#[test]
fn parsed_render_puts_toc_before_body() {
    let events = vec![
        DocEvent::Enter(NodeKind::Heading(1)),
        DocEvent::Enter(text("T & U")),
        DocEvent::Leave(text("T & U")),
        DocEvent::Leave(NodeKind::Heading(1)),
    ];
    let opts = RenderOptions {
        toc: true,
        ..fragment()
    };
    let out = render_parsed("<p>x</p>\n", &events, &opts);
    let expected = "<nav class=\"toc\" aria-label=\"Table of contents\">\n\
<p class=\"toc-title\">Contents</p>\n<ul>\n\x20 \
<li class=\"toc-l1\"><a href=\"#t--u\">T &amp; U</a></li>\n\
</ul>\n</nav>\n<p>x</p>\n";
    assert_eq!(out, expected);
    let no_toc = render_parsed("<p>x</p>\n", &events, &fragment());
    assert_eq!(no_toc, "<p>x</p>\n");
}

#[test]
fn theme_parse_trims_unicode_whitespace() {
    assert_eq!(Theme::parse("\tLight\n"), Some(Theme::Light));
    assert_eq!(Theme::parse("\u{a0}AuTo\u{3000}"), Some(Theme::Auto));
    assert_eq!(Theme::parse("li ght"), None);
    assert_eq!(Theme::default(), Theme::Auto);
    for (name, theme) in [("Light", Theme::Light), ("Dark", Theme::Dark), ("Auto", Theme::Auto)] {
        assert_eq!(Theme::parse(name), Some(theme));
        assert_eq!(Theme::parse(&name.to_uppercase()), Some(theme));
        assert_eq!(Theme::parse(&format!(" {}\t", name.to_lowercase())), Some(theme));
    }
}

#[test]
fn escaping_distinguishes_texts() {
    let a = render_toc(&[heading(1, "&lt;", "x")]);
    let b = render_toc(&[heading(1, "<", "x")]);
    assert_ne!(a, b);
    assert!(a.contains(">&amp;lt;</a>"), "{a}");
    assert!(b.contains(">&lt;</a>"), "{b}");
}

#[test]
fn ascii_slugs_are_stable() {
    for t in ["Hello, World -- Test", "A_b C-d 09", "  !x!  "] {
        let s = slugify(t);
        assert_eq!(slugify(&s), s);
    }
}

#[test]
fn title_from_stem_falls_back() {
    assert_eq!(md_export::title_from_stem(&Some("notes".to_string())), "notes");
    assert_eq!(md_export::title_from_stem(&None), "Document");
}

#[test]
fn theme_css_shares_the_base() {
    let light = md_export::theme_css(Theme::Light);
    let dark = md_export::theme_css(Theme::Dark);
    let auto = md_export::theme_css(Theme::Auto);
    let base = md_export::theme::BASE_CSS;
    assert!(light.ends_with(base) && dark.ends_with(base) && auto.ends_with(base));
    assert!(!light.contains("#0d1117"));
    assert!(!dark.contains("#ffffff"));
    assert!(auto.contains("@media (prefers-color-scheme: dark) {\n"));
}

#[test]
fn toc_links_match_comrak_ids_where_slugify_differs() {
    let md = "## e\u{301}t\u{e9}\n\n## \u{39f}\u{394}\u{39f}\u{3a3}\n\n## <b></b> Foo\n\n## snake_case\n";
    let opts = RenderOptions {
        toc: true,
        ..fragment()
    };
    let entries = toc_entries(md, &opts);
    let slugs: Vec<&str> = entries.iter().map(|h| h.slug.as_str()).collect();
    assert_eq!(
        slugs,
        vec!["e\u{301}t\u{e9}", "\u{3bf}\u{3b4}\u{3bf}\u{3c2}", "-foo", "snake_case"]
    );
    let out = render(md, &opts);
    for h in &entries {
        assert!(out.contains(&format!("<a href=\"#{}\">", h.slug)), "{out}");
        assert!(out.contains(&format!("id=\"{}\"", h.slug)), "{out}");
    }
}

fn unescape(s: &str) -> String {
    let mut out = String::new();
    let mut rest = s;
    while let Some(c) = rest.chars().next() {
        let mut matched = false;
        for (entity, ch) in [("&amp;", '&'), ("&lt;", '<'), ("&gt;", '>'), ("&quot;", '"'), ("&#39;", '\'')] {
            if rest.starts_with(entity) {
                out.push(ch);
                rest = &rest[entity.len()..];
                matched = true;
                break;
            }
        }
        if !matched {
            out.push(c);
            rest = &rest[c.len_utf8()..];
        }
    }
    out
}

#[test]
fn unescaping_the_escape_gives_the_text_back() {
    for t in ["plain", "a & b", "&amp;", "<tag attr='x'>\"q\"</tag>", "&lt;&#39;", "é&"] {
        let page = render_toc(&[heading(1, t, "x")]);
        let start = page.find("<a href=\"#x\">").unwrap() + "<a href=\"#x\">".len();
        let end = page[start..].find("</a>").unwrap() + start;
        assert_eq!(unescape(&page[start..end]), t);
    }
}

#[test]
fn plain_file_name_is_its_own_title() {
    assert_eq!(fallback_title_from(&Some("notes".to_string())), "notes");
    assert_eq!(fallback_title_from(&Some("My Notes".to_string())), "My Notes");
}
