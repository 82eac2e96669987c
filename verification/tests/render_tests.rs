use md_export::{render, slugify, theme_css, RenderOptions, Theme};

fn light_standalone() -> RenderOptions {
    RenderOptions {
        theme: Theme::Light,
        ..RenderOptions::default()
    }
}

#[test]
fn slugify_matches_comrak_basic() {
    assert_eq!(slugify("Foo Bar"), "foo-bar");
    assert_eq!(slugify("Mixed CASE Title"), "mixed-case-title");
}

#[test]
fn slugify_matches_comrak_punctuation() {
    assert_eq!(slugify("Foo & Bar (baz)!"), "foo--bar-baz");
    assert_eq!(slugify("Hello, World -- Test"), "hello-world----test");
    assert_eq!(slugify("100% Done"), "100-done");
    assert_eq!(slugify("a.b.c"), "abc");
    assert_eq!(slugify("+ plus start"), "-plus-start");
    assert_eq!(
        slugify("under_score and dash-dash"),
        "under_score-and-dash-dash"
    );
}

#[test]
fn slugify_keeps_unicode_letters() {
    assert_eq!(slugify("café déjà vu"), "café-déjà-vu");
}

#[test]
fn slugify_drops_tabs() {
    assert_eq!(slugify("Tabs\there"), "tabshere");
}

#[test]
fn headings_render_with_slug_ids() {
    let html = render("# Hello World\n\n## Sub Section\n", &light_standalone());
    assert!(html.contains("id=\"hello-world\""), "missing h1 id: {html}");
    assert!(html.contains("id=\"sub-section\""), "missing h2 id: {html}");
    assert!(
        html.contains("<h1>") || html.contains("<h1 "),
        "no <h1>: {html}"
    );
    assert!(
        html.contains("<h2>") || html.contains("<h2 "),
        "no <h2>: {html}"
    );
}

#[test]
fn duplicate_headings_get_unique_ids() {
    let html = render("## Dup\n\n## Dup\n", &light_standalone());
    assert!(html.contains("id=\"dup\""), "missing first dup id: {html}");
    assert!(html.contains("id=\"dup-1\""), "missing deduped id: {html}");
}

#[test]
fn gfm_table_renders() {
    let md = "| a | b |\n|---|---|\n| 1 | 2 |\n";
    let html = render(md, &light_standalone());
    assert!(html.contains("<table>"), "no table: {html}");
    assert!(html.contains("<th>a</th>"), "no header cell: {html}");
    assert!(html.contains("<td>1</td>"), "no data cell: {html}");
}

#[test]
fn fenced_rust_block_gets_language_class() {
    let md = "```rust\nfn main() {}\n```\n";
    let html = render(md, &light_standalone());
    assert!(
        html.contains("<code class=\"language-rust\">"),
        "no language-rust class: {html}"
    );
}

#[test]
fn task_list_renders_checkboxes() {
    let md = "- [x] done\n- [ ] todo\n";
    let html = render(md, &light_standalone());
    assert!(html.contains("type=\"checkbox\""), "no checkbox: {html}");
    assert!(html.contains("checked"), "no checked box: {html}");
    assert!(html.contains("disabled"), "checkbox not disabled: {html}");
}

#[test]
fn strikethrough_renders() {
    let html = render("~~gone~~\n", &light_standalone());
    assert!(html.contains("<del>gone</del>"), "no strikethrough: {html}");
}

#[test]
fn autolink_renders() {
    let html = render("Visit https://example.com today\n", &light_standalone());
    assert!(
        html.contains("<a href=\"https://example.com\">"),
        "no autolink: {html}"
    );
}

#[test]
fn toc_produces_anchor_links_matching_ids() {
    let opts = RenderOptions {
        toc: true,
        ..light_standalone()
    };
    let html = render("# Title\n\n## Alpha\n\n## Beta\n", &opts);
    assert!(html.contains("class=\"toc\""), "no toc nav: {html}");
    assert!(
        html.contains("href=\"#alpha\""),
        "no toc link to alpha: {html}"
    );
    assert!(
        html.contains("href=\"#beta\""),
        "no toc link to beta: {html}"
    );
    assert!(html.contains("id=\"alpha\""), "no heading id alpha: {html}");
    assert!(html.contains("id=\"beta\""), "no heading id beta: {html}");
}

#[test]
fn toc_links_match_deduped_ids() {
    let opts = RenderOptions {
        toc: true,
        ..light_standalone()
    };
    let html = render("## Dup\n\n## Dup\n", &opts);
    assert!(html.contains("href=\"#dup\""), "no link to dup: {html}");
    assert!(html.contains("href=\"#dup-1\""), "no link to dup-1: {html}");
}

#[test]
fn standalone_has_doctype_and_style() {
    let html = render("# Hi\n", &light_standalone());
    assert!(html.contains("<!doctype html>"), "no doctype: {html}");
    assert!(html.contains("<style>"), "no style block: {html}");
    assert!(html.contains("<title>Hi</title>"), "no/wrong title: {html}");
    assert!(html.contains("</html>"), "no closing html: {html}");
}

#[test]
fn no_style_omits_style_block() {
    let opts = RenderOptions {
        style: false,
        ..light_standalone()
    };
    let html = render("# Hi\n", &opts);
    assert!(html.contains("<!doctype html>"), "no doctype: {html}");
    assert!(
        !html.contains("<style>"),
        "style block present but shouldn't be: {html}"
    );
}

#[test]
fn fragment_mode_has_no_wrapper() {
    let opts = RenderOptions {
        standalone: false,
        ..light_standalone()
    };
    let html = render("# Hi\n", &opts);
    assert!(
        !html.contains("<!doctype html>"),
        "fragment has doctype: {html}"
    );
    assert!(!html.contains("<style>"), "fragment has style: {html}");
    assert!(!html.contains("<html"), "fragment has <html>: {html}");
    assert!(
        html.contains("<h1") && html.contains("Hi"),
        "fragment missing content: {html}"
    );
}

#[test]
fn title_inferred_from_first_h1() {
    let html = render("# My Great Doc\n\nbody\n", &light_standalone());
    assert!(
        html.contains("<title>My Great Doc</title>"),
        "title not inferred: {html}"
    );
}

#[test]
fn explicit_title_overrides_h1() {
    let opts = RenderOptions {
        title: Some("Override".to_string()),
        ..light_standalone()
    };
    let html = render("# Heading\n", &opts);
    assert!(
        html.contains("<title>Override</title>"),
        "explicit title ignored: {html}"
    );
}

#[test]
fn fallback_title_when_no_h1() {
    let opts = RenderOptions {
        fallback_title: "fallback-name".to_string(),
        ..light_standalone()
    };
    let html = render("just a paragraph\n", &opts);
    assert!(
        html.contains("<title>fallback-name</title>"),
        "fallback title missing: {html}"
    );
}

#[test]
fn title_is_html_escaped() {
    let opts = RenderOptions {
        title: Some("A & B <x>".to_string()),
        ..light_standalone()
    };
    let html = render("body\n", &opts);
    assert!(
        html.contains("<title>A &amp; B &lt;x&gt;</title>"),
        "title not escaped: {html}"
    );
}

#[test]
fn dark_theme_css_differs_from_light() {
    let light = theme_css(Theme::Light);
    let dark = theme_css(Theme::Dark);
    assert!(light.contains("#ffffff"), "light missing bg");
    assert!(dark.contains("#0d1117"), "dark missing bg");
    assert_ne!(light, dark);
}

#[test]
fn auto_theme_has_media_query() {
    let css = theme_css(Theme::Auto);
    assert!(
        css.contains("prefers-color-scheme: dark"),
        "auto missing media query"
    );
}

#[test]
fn theme_parse_roundtrip() {
    assert_eq!(Theme::parse("light"), Some(Theme::Light));
    assert_eq!(Theme::parse("DARK"), Some(Theme::Dark));
    assert_eq!(Theme::parse(" auto "), Some(Theme::Auto));
    assert_eq!(Theme::parse("nope"), None);
}

#[test]
fn standalone_output_is_self_contained() {
    let opts = RenderOptions {
        toc: true,
        ..light_standalone()
    };
    let html = render("# T\n\n## S\n\n![alt](pic.png)\n", &opts);
    assert!(!html.contains("<link "), "has <link> external ref: {html}");
    assert!(!html.contains("<script"), "has <script>: {html}");
    assert!(!html.contains("@import"), "css has @import: {html}");
    assert!(
        !html.contains("fonts.googleapis"),
        "pulls google fonts: {html}"
    );
    assert!(!html.contains("cdn."), "pulls a cdn: {html}");
}
