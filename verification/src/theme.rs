//! Color themes and the embedded stylesheet.

use vstd::prelude::*;

use crate::text::{ascii_lower, to_ascii_lowercase, trim, trimmed};

verus! {

/// Color theme for the embedded stylesheet.
#[derive(Debug, Clone, Copy, PartialEq, Eq, Structural)]
pub enum Theme {
    /// Light background, dark text.
    Light,
    /// Dark background, light text.
    Dark,
    /// Light by default, switches to dark via `prefers-color-scheme: dark`.
    Auto,
}

/// The theme a name denotes: after trimming whitespace and lowering ASCII
/// letters it must read `light`, `dark` or `auto`.
pub open spec fn theme_named(s: Seq<char>) -> Option<Theme> {
    let key = ascii_lower(trimmed(s));
    if key == "light"@ {
        Some(Theme::Light)
    } else if key == "dark"@ {
        Some(Theme::Dark)
    } else if key == "auto"@ {
        Some(Theme::Auto)
    } else {
        None
    }
}

impl Theme {
    /// Parse a theme name (`light`, `dark`, `auto`), case-insensitively and
    /// ignoring surrounding whitespace.
    pub fn parse(s: &str) -> (res: Option<Theme>)
        ensures
            res == theme_named(s@),
    {
        let t = trim(s);
        let key = to_ascii_lowercase(t.as_str());
        if key == String::from_str("light") {
            Some(Theme::Light)
        } else if key == String::from_str("dark") {
            Some(Theme::Dark)
        } else if key == String::from_str("auto") {
            Some(Theme::Auto)
        } else {
            None
        }
    }
}

impl Default for Theme {
    /// The default theme follows the reader's color-scheme preference.
    fn default() -> (t: Theme)
        ensures
            t == Theme::Auto,
    {
        Theme::Auto
    }
}

/// The message given for a name that denotes no theme.
pub open spec fn invalid_theme_message(s: Seq<char>) -> Seq<char> {
    "invalid theme '"@ + s + "' (expected light, dark, or auto)"@
}

/// Command-line value parser for a theme: the theme, or an error message
/// naming the rejected value.
pub fn parse_theme(s: &str) -> (res: Result<Theme, String>)
    ensures
        theme_named(s@) matches Some(t) ==> res == Ok::<Theme, String>(t),
        theme_named(s@) is None ==> (res matches Err(msg) && msg@ == invalid_theme_message(s@)),
{
    match Theme::parse(s) {
        Some(t) => Ok(t),
        None => {
            let mut msg = String::from_str("invalid theme '");
            msg.append(s);
            msg.append("' (expected light, dark, or auto)");
            Err(msg)
        },
    }
}

/// Structural CSS shared by every theme: no external fonts, no `@import`,
/// no asset URLs.
pub const BASE_CSS: &'static str = r#":root {
  --maxw: 820px;
}
* { box-sizing: border-box; }
html { -webkit-text-size-adjust: 100%; }
body {
  margin: 0;
  font-family: -apple-system, BlinkMacSystemFont, "Segoe UI", Roboto, Helvetica, Arial, sans-serif;
  font-size: 16px;
  line-height: 1.6;
  background: var(--bg);
  color: var(--fg);
}
.markdown-body {
  max-width: var(--maxw);
  margin: 0 auto;
  padding: 2.5rem 1.25rem 4rem;
}
.markdown-body h1, .markdown-body h2, .markdown-body h3,
.markdown-body h4, .markdown-body h5, .markdown-body h6 {
  line-height: 1.25;
  margin: 1.6em 0 0.6em;
  font-weight: 600;
}
.markdown-body h1 { font-size: 2rem; border-bottom: 1px solid var(--border); padding-bottom: .3em; }
.markdown-body h2 { font-size: 1.5rem; border-bottom: 1px solid var(--border); padding-bottom: .3em; }
.markdown-body h3 { font-size: 1.25rem; }
.markdown-body h4 { font-size: 1rem; }
.markdown-body p, .markdown-body ul, .markdown-body ol, .markdown-body blockquote, .markdown-body table {
  margin: 0 0 1rem;
}
.markdown-body a { color: var(--link); text-decoration: none; }
.markdown-body a:hover { text-decoration: underline; }
.markdown-body a.anchor { float: left; margin-left: -1em; padding-right: .25em; }
.markdown-body code {
  font-family: ui-monospace, SFMono-Regular, "SF Mono", Menlo, Consolas, "Liberation Mono", monospace;
  font-size: 0.9em;
  background: var(--code-bg);
  padding: 0.2em 0.4em;
  border-radius: 4px;
}
.markdown-body pre {
  background: var(--code-bg);
  padding: 1rem;
  border-radius: 8px;
  overflow: auto;
  border: 1px solid var(--border);
}
.markdown-body pre code { background: none; padding: 0; font-size: 0.875em; }
.markdown-body blockquote {
  margin-left: 0;
  padding: 0.25rem 1rem;
  border-left: 4px solid var(--border);
  color: var(--muted);
}
.markdown-body table { border-collapse: collapse; width: 100%; display: block; overflow-x: auto; }
.markdown-body th, .markdown-body td { border: 1px solid var(--border); padding: 0.5rem 0.75rem; }
.markdown-body th { background: var(--code-bg); font-weight: 600; }
.markdown-body tr:nth-child(2n) td { background: var(--stripe); }
.markdown-body img { max-width: 100%; }
.markdown-body hr { border: none; border-top: 1px solid var(--border); margin: 2rem 0; }
.markdown-body ul.contains-task-list { list-style: none; padding-left: 1.2em; }
.markdown-body input[type="checkbox"] { margin-right: 0.4em; }
.markdown-body del { color: var(--muted); }
nav.toc {
  background: var(--code-bg);
  border: 1px solid var(--border);
  border-radius: 8px;
  padding: 0.5rem 1.25rem 1rem;
  margin: 0 0 2rem;
}
nav.toc .toc-title { font-weight: 600; margin: 0.75rem 0 0.25rem; }
nav.toc ul { list-style: none; padding-left: 0; margin: 0; }
nav.toc li { margin: 0.15rem 0; }
nav.toc li.toc-l2 { padding-left: 1rem; }
nav.toc li.toc-l3 { padding-left: 2rem; }
nav.toc li.toc-l4 { padding-left: 3rem; }
nav.toc li.toc-l5 { padding-left: 4rem; }
nav.toc li.toc-l6 { padding-left: 5rem; }
"#;

/// The light palette.
pub const LIGHT_VARS: &'static str = r#":root {
  --bg: #ffffff;
  --fg: #1f2328;
  --muted: #59636e;
  --border: #d1d9e0;
  --link: #0969da;
  --code-bg: #f6f8fa;
  --stripe: #f6f8fa;
}
"#;

/// The dark palette.
pub const DARK_VARS: &'static str = r#":root {
  --bg: #0d1117;
  --fg: #e6edf3;
  --muted: #9198a1;
  --border: #30363d;
  --link: #4493f8;
  --code-bg: #161b22;
  --stripe: #161b22;
}
"#;

/// Opens the dark-preference media query of the automatic theme.
pub const DARK_MEDIA_OPEN: &'static str = "@media (prefers-color-scheme: dark) {\n";

/// Closes the dark-preference media query of the automatic theme.
pub const DARK_MEDIA_CLOSE: &'static str = "}\n";

/// The embedded stylesheet of a theme: its palette followed by the shared
/// structural CSS; the automatic theme carries the light palette and the
/// dark one inside a `prefers-color-scheme: dark` media query.
pub open spec fn theme_css_text(theme: Theme) -> Seq<char> {
    match theme {
        Theme::Light => LIGHT_VARS@ + BASE_CSS@,
        Theme::Dark => DARK_VARS@ + BASE_CSS@,
        Theme::Auto => LIGHT_VARS@ + DARK_MEDIA_OPEN@ + DARK_VARS@ + DARK_MEDIA_CLOSE@ + BASE_CSS@,
    }
}

/// Return the embedded CSS for a theme. Self-contained: no external fonts,
/// no `@import`, no asset URLs.
pub fn theme_css(theme: Theme) -> (css: String)
    ensures
        css@ == theme_css_text(theme),
{
    match theme {
        Theme::Light => {
            let mut css = String::from_str(LIGHT_VARS);
            css.append(BASE_CSS);
            css
        },
        Theme::Dark => {
            let mut css = String::from_str(DARK_VARS);
            css.append(BASE_CSS);
            css
        },
        Theme::Auto => {
            let mut css = String::from_str(LIGHT_VARS);
            css.append(DARK_MEDIA_OPEN);
            css.append(DARK_VARS);
            css.append(DARK_MEDIA_CLOSE);
            css.append(BASE_CSS);
            css
        },
    }
}

} // verus!
