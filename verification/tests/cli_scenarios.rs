//! The command-line scenarios, driven through the library calls the command
//! makes: value parsers, fallback title, table-of-contents selection and
//! rendering.

use md_export::{
    fallback_title_from, parse_theme, parse_toc_depth, render, toc_entries, RenderOptions, Theme,
};

const SAMPLE: &str = "# Sample Title\n\n\
Intro paragraph with ~~strike~~ and a link https://example.com\n\n\
## Features\n\n\
- [x] tables\n- [ ] more\n\n\
| col | val |\n|-----|-----|\n| a   | 1   |\n\n\
```rust\nfn main() { println!(\"hi\"); }\n```\n";

/// The options the command builds from its flags.
fn cli_options(
    input: Option<&str>,
    title: Option<&str>,
    theme: &str,
    toc: bool,
    toc_depth: Option<&str>,
    no_style: bool,
) -> RenderOptions {
    RenderOptions {
        title: title.map(|t| t.to_string()),
        fallback_title: fallback_title_from(&input.map(|p| p.to_string())),
        theme: parse_theme(theme).unwrap(),
        toc,
        toc_depth: toc_depth.map(|d| parse_toc_depth(d).unwrap()),
        standalone: !no_style,
        style: !no_style,
    }
}

#[test]
fn stdin_to_stdout_standalone() {
    let html = render(SAMPLE, &cli_options(None, None, "auto", false, None, false));
    assert!(html.contains("<!doctype html>"));
    assert!(html.contains("<style>"));
    assert!(html.contains("<title>Sample Title</title>"));
    assert!(html.contains("id=\"features\""));
    assert!(html.contains("<code class=\"language-rust\">"));
    assert!(html.contains("<table>"));
    assert!(html.contains("type=\"checkbox\""));
    assert!(html.contains("<del>strike</del>"));
}

#[test]
fn file_to_file_writes_standalone_html() {
    let html = render(
        SAMPLE,
        &cli_options(Some("/tmp/dir/in.md"), None, "auto", false, None, false),
    );
    assert!(
        html.contains("<!doctype html>"),
        "no doctype in file output"
    );
    assert!(html.contains("<style>"), "no embedded style in file output");
    assert!(
        html.contains("Sample Title"),
        "content missing in file output"
    );
    assert!(!html.contains("<link "), "external <link> present");
    assert!(!html.contains("<script"), "external <script> present");
}

#[test]
fn title_inferred_from_filename_when_no_h1() {
    let opts = cli_options(Some("/tmp/dir/my-notes.md"), None, "auto", false, None, false);
    let html = render("just a paragraph, no heading\n", &opts);
    assert!(html.contains("<title>my-notes</title>"));
}

#[test]
fn explicit_title_flag_wins() {
    let opts = cli_options(None, Some("Custom"), "auto", false, None, false);
    let html = render("# Heading In Doc\n", &opts);
    assert!(html.contains("<title>Custom</title>"));
}

#[test]
fn toc_flag_emits_nav_with_matching_anchors() {
    let opts = cli_options(None, None, "auto", true, None, false);
    let html = render("# Top\n\n## One\n\n## Two\n", &opts);
    assert!(html.contains("class=\"toc\""));
    assert!(html.contains("href=\"#one\""));
    assert!(html.contains("href=\"#two\""));
    assert!(html.contains("id=\"one\""));
    assert!(html.contains("id=\"two\""));
}

#[test]
fn toc_depth_limits_headings_in_nav() {
    let opts = cli_options(None, None, "auto", true, Some("2"), false);
    let html = render("# Top\n\n## Kept\n\n### Dropped\n", &opts);
    assert!(html.contains("<li class=\"toc-l1\">"));
    assert!(html.contains("<li class=\"toc-l2\">"));
    assert!(!html.contains("<li class=\"toc-l3\">"));
    assert!(html.contains("id=\"dropped\""));
}

#[test]
fn invalid_toc_depth_is_rejected() {
    let err = parse_toc_depth("9").unwrap_err();
    assert!(err.contains("invalid toc-depth"));
}

#[test]
fn toc_with_no_headings_warns_on_stderr() {
    let opts = cli_options(None, None, "auto", true, None, false);
    let md = "just a paragraph, no headings\n";
    let html = render(md, &opts);
    assert!(!html.contains("class=\"toc\""));
    // The command warns exactly when the table of contents lists nothing.
    assert!(toc_entries(md, &opts).is_empty());
}

#[test]
fn no_style_emits_bare_fragment() {
    let opts = cli_options(None, None, "auto", false, None, true);
    let html = render("# Hi\n\nbody\n", &opts);
    assert!(html.contains("<h1") && html.contains("Hi"));
    assert!(!html.contains("<!doctype html>"));
    assert!(!html.contains("<style>"));
    assert!(!html.contains("<html"));
}

#[test]
fn dark_theme_embeds_dark_palette() {
    let html = render("# Hi\n", &cli_options(None, None, "dark", false, None, false));
    assert!(html.contains("#0d1117"));
}

#[test]
fn light_theme_embeds_light_palette() {
    let html = render("# Hi\n", &cli_options(None, None, "light", false, None, false));
    assert!(html.contains("#ffffff"));
}

#[test]
fn invalid_theme_is_rejected() {
    let err = parse_theme("rainbow").unwrap_err();
    assert!(err.contains("invalid theme"));
    assert_eq!(err, "invalid theme 'rainbow' (expected light, dark, or auto)");
    assert_eq!(parse_theme("Dark"), Ok(Theme::Dark));
}
