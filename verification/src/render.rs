//! Rendering: Markdown to an HTML fragment or a standalone HTML document.
//!
//! The Markdown itself is parsed and formatted by comrak, with the
//! GitHub-flavored features of [`gfm_config`]. What comrak returns is named
//! (its HTML and its traversal edges, each a function of the Markdown and the
//! features alone), together with the heading ids comrak's formatter writes;
//! the table of contents, the title and the document around the body are this
//! library's and are stated exactly over those names.

use vstd::prelude::*;

use comrak::arena_tree::NodeEdge;
use comrak::nodes::NodeValue;

use crate::laws::law_toc_links_target_heading_ids;
use crate::outline::{
    anchors_free, base_slug, base_slugs, collect_headings, comrak_anchor, first_h1, heading_anchors, outline,
    raw_headings, DocEvent, DocEventView, Heading, NodeKind,
};
use crate::slug::{fresh_slug, lemma_fresh_slug_markup_free, lemma_unique_slugs_prefix};
use crate::text::{contains_run, escape_html, escaped, markup_free};
use crate::theme::{theme_css, theme_css_text, Theme};
use crate::toc::{lemma_selection_member, render_toc, toc_headings, toc_html, toc_selection};

verus! {

// ---------------------------------------------------------------------------
// Options.
// ---------------------------------------------------------------------------

/// Options controlling a single [`render`] call.
#[derive(Debug, Clone)]
pub struct RenderOptions {
    /// Explicit document title. If `None`, the title is inferred from the first
    /// level-1 heading, falling back to [`RenderOptions::fallback_title`].
    pub title: Option<String>,
    /// Title used when no explicit title is given and no H1 is present
    /// (typically the input file's stem, or `"Document"` for stdin).
    pub fallback_title: String,
    /// Color theme for the embedded CSS (ignored when `style` is `false`).
    pub theme: Theme,
    /// Emit a table of contents built from the document headings.
    pub toc: bool,
    /// Deepest heading level listed in the table of contents; `None` lists
    /// every heading. Heading anchors in the body are not affected.
    pub toc_depth: Option<u8>,
    /// Wrap the rendered body in a full `<!doctype html>` document.
    /// When `false`, only the HTML fragment (body) is returned.
    pub standalone: bool,
    /// Embed a `<style>` block (only meaningful with `standalone == true`).
    /// When `false`, no CSS is emitted (`--no-style`).
    pub style: bool,
}

impl Default for RenderOptions {
    /// A standalone, styled document with the automatic theme, no table of
    /// contents and the fallback title `Document`.
    fn default() -> (res: RenderOptions)
        ensures
            res.title is None,
            res.fallback_title@ == "Document"@,
            res.theme == Theme::Auto,
            !res.toc,
            res.toc_depth is None,
            res.standalone,
            res.style,
    {
        RenderOptions {
            title: None,
            fallback_title: String::from_str("Document"),
            theme: Theme::Auto,
            toc: false,
            toc_depth: None,
            standalone: true,
            style: true,
        }
    }
}

// ---------------------------------------------------------------------------
// comrak.
// ---------------------------------------------------------------------------

#[verifier::external_type_specification]
#[verifier::external_body]
pub struct ExComrakOptions<'c>(comrak::Options<'c>);

/// The Markdown features handed to comrak.
pub struct GfmConfig {
    /// GitHub tables.
    pub table: bool,
    /// `~~strikethrough~~`.
    pub strikethrough: bool,
    /// `- [x]` task list items.
    pub tasklist: bool,
    /// Bare URLs become links.
    pub autolink: bool,
    /// Filters the HTML tags GitHub disallows.
    pub tagfilter: bool,
    /// Footnotes.
    pub footnotes: bool,
    /// When present, headings get an `id` attribute: this prefix followed by
    /// the heading's anchor.
    pub header_id_prefix: Option<String>,
}

/// The mathematical value of a [`GfmConfig`].
pub struct GfmConfigView {
    pub table: bool,
    pub strikethrough: bool,
    pub tasklist: bool,
    pub autolink: bool,
    pub tagfilter: bool,
    pub footnotes: bool,
    pub header_id_prefix: Option<Seq<char>>,
}

impl DeepView for GfmConfig {
    type V = GfmConfigView;

    open spec fn deep_view(&self) -> GfmConfigView {
        GfmConfigView {
            table: self.table,
            strikethrough: self.strikethrough,
            tasklist: self.tasklist,
            autolink: self.autolink,
            tagfilter: self.tagfilter,
            footnotes: self.footnotes,
            header_id_prefix: self.header_id_prefix.deep_view(),
        }
    }
}

/// The GitHub-flavored feature set of this converter: every extension on,
/// and heading ids with no prefix.
pub open spec fn gfm_config_spec() -> GfmConfigView {
    GfmConfigView {
        table: true,
        strikethrough: true,
        tasklist: true,
        autolink: true,
        tagfilter: true,
        footnotes: true,
        header_id_prefix: Some(Seq::empty()),
    }
}

/// The GitHub-flavored feature set of this converter.
pub fn gfm_config() -> (c: GfmConfig)
    ensures
        c.deep_view() == gfm_config_spec(),
{
    GfmConfig {
        table: true,
        strikethrough: true,
        tasklist: true,
        autolink: true,
        tagfilter: true,
        footnotes: true,
        header_id_prefix: Some(String::new()),
    }
}

/// A feature set together with the comrak `Options` it converts to. The
/// only way to obtain one is [`comrak_setup`], so the options always carry
/// exactly the features of the configuration.
pub struct ComrakSetup {
    config: GfmConfig,
    options: comrak::Options<'static>,
}

impl ComrakSetup {
    /// The features of this setup. Its comrak `Options` are determined by
    /// them: `Options::default()` with these features set (and nothing
    /// else, so raw HTML is not passed through).
    pub closed spec fn config(&self) -> GfmConfigView {
        self.config.deep_view()
    }
}

/// The HTML that comrak renders for `markdown` under the features `config`.
pub uninterp spec fn gfm_html(markdown: Seq<char>, config: GfmConfigView) -> Seq<char>;

/// The tree-order traversal edges of the document that comrak parses from
/// `markdown` under the features `config`.
pub uninterp spec fn gfm_events(markdown: Seq<char>, config: GfmConfigView) -> Seq<DocEventView>;

/// Converts a feature set to comrak's `Options`, starting from
/// `Options::default()` and setting each extension field from the field of
/// the same name. The contract claims that the setup records `config`.
/// comrak's render option that lets raw HTML through is left at its default
/// (off), so raw HTML in the Markdown comes out as comrak's omission comment.
#[verifier::external_body]
fn comrak_setup(config: GfmConfig) -> (s: ComrakSetup)
    ensures
        s.config() == config.deep_view(),
{
    let mut o = comrak::Options::default();
    o.extension.table = config.table;
    o.extension.strikethrough = config.strikethrough;
    o.extension.tasklist = config.tasklist;
    o.extension.autolink = config.autolink;
    o.extension.tagfilter = config.tagfilter;
    o.extension.footnotes = config.footnotes;
    o.extension.header_id_prefix = config.header_id_prefix.clone();
    ComrakSetup { config, options: o }
}

/// Calls `comrak::markdown_to_html`. The contract claims that the HTML is a
/// function of the Markdown and the features alone (comrak's parser and
/// formatter are deterministic), and, from comrak's heading formatter, that
/// when heading ids are on, each heading of the document gets
/// `id="<prefix><id>"`, its id being its `Anchorizer` anchor disambiguated
/// against the ids of the headings before it. What else the HTML is, is not
/// stated.
#[verifier::external_body]
fn markdown_to_html(markdown: &str, setup: &ComrakSetup) -> (html: String)
    ensures
        html@ == gfm_html(markdown@, setup.config()),
        setup.config().header_id_prefix matches Some(p) ==> forall|i: int|
            #![trigger raw_headings(gfm_events(markdown@, setup.config()))[i]]
            0 <= i < raw_headings(gfm_events(markdown@, setup.config())).len() ==> contains_run(
                html@,
                "id=\""@ + p + fresh_slug(
                    comrak_anchor(raw_headings(gfm_events(markdown@, setup.config()))[i].1),
                    heading_anchors(raw_headings(gfm_events(markdown@, setup.config()))).take(i),
                ) + "\""@,
            ),
{
    comrak::markdown_to_html(markdown, &setup.options)
}

/// Calls `comrak::parse_document` and converts the traversal of the parsed
/// tree (`Node::traverse`, tree order) into one event per edge, keeping of
/// each node its heading level, text or code literal, or line-break kind.
/// The contract claims that the events are a function of the Markdown and
/// the features alone; what they are, is not stated.
#[verifier::external_body]
fn markdown_events(markdown: &str, setup: &ComrakSetup) -> (events: Vec<DocEvent>)
    ensures
        events.deep_view() == gfm_events(markdown@, setup.config()),
{
    let arena = comrak::Arena::new();
    let mut events = Vec::new();
    for edge in comrak::parse_document(&arena, markdown, &setup.options).traverse() {
        let (NodeEdge::Start(node) | NodeEdge::End(node)) = &edge;
        let kind = match &node.data.borrow().value {
            NodeValue::Heading(h) => NodeKind::Heading(h.level),
            NodeValue::Text(t) => NodeKind::Text(t.to_string()),
            NodeValue::Code(c) => NodeKind::Code(c.literal.clone()),
            NodeValue::SoftBreak => NodeKind::LineBreak,
            NodeValue::LineBreak => NodeKind::LineBreak,
            _ => NodeKind::Other,
        };
        events.push(match edge { NodeEdge::Start(_) => DocEvent::Enter(kind), _ => DocEvent::Leave(kind) });
    }
    events
}

// ---------------------------------------------------------------------------
// The page around the body.
// ---------------------------------------------------------------------------

/// Everything of a standalone document up to the title text.
pub const DOC_HEAD: &'static str =
    "<!doctype html>\n<html lang=\"en\">\n<head>\n<meta charset=\"utf-8\">\n<meta name=\"viewport\" content=\"width=device-width, initial-scale=1\">\n<title>";

/// Closes the title element.
pub const DOC_TITLE_END: &'static str = "</title>\n";

/// Closes the head and opens the body.
pub const DOC_BODY_OPEN: &'static str = "</head>\n<body>\n<main class=\"markdown-body\">\n";

/// Closes the document.
pub const DOC_TAIL: &'static str = "</main>\n</body>\n</html>\n";

/// The document title: the explicit title, else the first level-1 heading,
/// else the fallback title.
pub open spec fn title_text(o: RenderOptions, h1: Option<Seq<char>>) -> Seq<char> {
    match o.title {
        Some(t) => t@,
        None => match h1 {
            Some(h) => h,
            None => o.fallback_title@,
        },
    }
}

/// The embedded `<style>` block, or nothing when styling is off.
pub open spec fn style_block(o: RenderOptions) -> Seq<char> {
    if o.style {
        "<style>\n"@ + theme_css_text(o.theme) + "\n</style>\n"@
    } else {
        Seq::empty()
    }
}

/// A standalone document with the given (unescaped) title, style block and
/// body.
pub open spec fn document(title: Seq<char>, style: Seq<char>, body: Seq<char>) -> Seq<char> {
    DOC_HEAD@ + escaped(title) + DOC_TITLE_END@ + style + DOC_BODY_OPEN@ + body + DOC_TAIL@
}

/// The headings the table of contents of a document lists.
pub open spec fn toc_listing(events: Seq<DocEventView>, o: RenderOptions) -> Seq<crate::outline::HeadingView> {
    toc_selection(outline(raw_headings(events)), o.toc_depth)
}

/// The rendered body: the table of contents (when asked for) followed by the
/// HTML of the Markdown.
pub open spec fn body_text(html: Seq<char>, events: Seq<DocEventView>, o: RenderOptions) -> Seq<char> {
    if o.toc {
        toc_html(toc_listing(events, o)) + html
    } else {
        html
    }
}

/// The output for a document whose Markdown rendered to `html` and parsed
/// to `events`: the body alone, or the standalone document around it.
pub open spec fn page(html: Seq<char>, events: Seq<DocEventView>, o: RenderOptions) -> Seq<char> {
    let body = body_text(html, events, o);
    if o.standalone {
        document(title_text(o, first_h1(raw_headings(events))), style_block(o), body)
    } else {
        body
    }
}

/// Resolve the document title: explicit option, else first H1, else fallback.
pub(crate) fn resolve_title(options: &RenderOptions, first_h1: &Option<String>) -> (res: String)
    ensures
        res@ == title_text(*options, first_h1.deep_view()),
{
    if let Some(t) = &options.title {
        return t.clone();
    }
    if let Some(h1) = first_h1 {
        return h1.clone();
    }
    options.fallback_title.clone()
}

/// The body for already parsed Markdown: the table of contents of the
/// selected headings (when asked for) followed by the Markdown's HTML.
fn compose_body(html: &str, headings: &Vec<Heading>, options: &RenderOptions) -> (res: String)
    ensures
        res@ == (if options.toc {
            toc_html(toc_selection(headings.deep_view(), options.toc_depth)) + html@
        } else {
            html@
        }),
{
    if options.toc {
        let listed = toc_headings(headings.as_slice(), options.toc_depth);
        let mut body = render_toc(listed.as_slice());
        body.append(html);
        body
    } else {
        String::from_str(html)
    }
}

/// Render already parsed Markdown according to `options`: `html` is the
/// Markdown's HTML and `events` the traversal edges of its document tree.
///
/// - When `options.standalone` is `true`, returns a complete
///   `<!doctype html>` document, with an embedded `<style>` block unless
///   `options.style` is `false`.
/// - When `options.standalone` is `false`, returns just the HTML fragment
///   (body), with no wrapper and no CSS.
pub fn render_parsed(html: &str, events: &Vec<DocEvent>, options: &RenderOptions) -> (res: String)
    ensures
        res@ == page(html@, events.deep_view(), *options),
        anchors_free(raw_headings(events.deep_view())),
{
    let (headings, first) = collect_headings(events);
    let body = compose_body(html, &headings, options);
    if !options.standalone {
        return body;
    }
    let title = resolve_title(options, &first);
    let mut out = String::from_str(DOC_HEAD);
    let escaped_title = escape_html(title.as_str());
    out.append(escaped_title.as_str());
    out.append(DOC_TITLE_END);
    if options.style {
        out.append("<style>\n");
        let css = theme_css(options.theme);
        out.append(css.as_str());
        out.append("\n</style>\n");
    }
    out.append(DOC_BODY_OPEN);
    out.append(body.as_str());
    out.append(DOC_TAIL);
    out
}

/// `html` gives each heading of the document parsed to `events` the `id`
/// comrak derives for it (with no prefix): the heading's comrak anchor,
/// disambiguated against the ids of the headings before it.
pub open spec fn has_heading_ids(html: Seq<char>, events: Seq<DocEventView>) -> bool {
    forall|i: int|
        #![trigger raw_headings(events)[i]]
        0 <= i < raw_headings(events).len() ==> contains_run(
            html,
            "id=\""@ + fresh_slug(
                comrak_anchor(raw_headings(events)[i].1),
                heading_anchors(raw_headings(events)).take(i),
            ) + "\""@,
        )
}

/// The headings a table of contents lists have the ids comrak gives them,
/// and their slugs hold no character that HTML escaping replaces.
pub proof fn lemma_toc_slugs_are_heading_ids(
    html: Seq<char>,
    events: Seq<DocEventView>,
    o: RenderOptions,
)
    requires
        has_heading_ids(html, events),
        anchors_free(raw_headings(events)),
    ensures
        forall|i: int|
            0 <= i < toc_listing(events, o).len() ==> contains_run(
                html,
                "id=\""@ + #[trigger] toc_listing(events, o)[i].slug + "\""@,
            ),
        forall|i: int|
            0 <= i < toc_listing(events, o).len() ==> markup_free(
                #[trigger] toc_listing(events, o)[i].slug,
            ),
{
    let raw = raw_headings(events);
    let hs = outline(raw);
    assert forall|i: int| 0 <= i < toc_listing(events, o).len() implies contains_run(
        html,
        "id=\""@ + #[trigger] toc_listing(events, o)[i].slug + "\""@,
    ) && markup_free(toc_listing(events, o)[i].slug) by {
        lemma_selection_member(hs, o.toc_depth, i);
        let j = choose|j: int| 0 <= j < hs.len() && toc_selection(hs, o.toc_depth)[i] == hs[j];
        lemma_unique_slugs_prefix(base_slugs(raw), j);
        assert(base_slugs(raw)[j] == comrak_anchor(raw_headings(events)[j].1));
        assert(hs[j].slug == heading_anchors(raw)[j]);
        assert(markup_free(base_slug(raw_headings(events)[j])));
        lemma_fresh_slug_markup_free(base_slugs(raw)[j], heading_anchors(raw).take(j));
    }
}

/// Render Markdown to HTML according to `options`.
///
/// - When `options.standalone` is `true`, returns a complete
///   `<!doctype html>` document, with an embedded `<style>` block unless
///   `options.style` is `false`.
/// - When `options.standalone` is `false`, returns just the HTML fragment
///   (body), with no wrapper and no CSS.
///
/// Every heading the table of contents lists has `id="<its slug>"` in
/// comrak's HTML; with `options.toc`, the result holds, for each of them,
/// the link to `#<its slug>` and that `id`.
pub fn render(markdown: &str, options: &RenderOptions) -> (res: String)
    ensures
        res@ == page(
            gfm_html(markdown@, gfm_config_spec()),
            gfm_events(markdown@, gfm_config_spec()),
            *options,
        ),
        forall|i: int|
            0 <= i < toc_listing(gfm_events(markdown@, gfm_config_spec()), *options).len()
                ==> contains_run(
                gfm_html(markdown@, gfm_config_spec()),
                "id=\""@ + #[trigger] toc_listing(
                    gfm_events(markdown@, gfm_config_spec()),
                    *options,
                )[i].slug + "\""@,
            ),
        options.toc ==> forall|i: int|
            0 <= i < toc_listing(gfm_events(markdown@, gfm_config_spec()), *options).len()
                ==> contains_run(
                res@,
                "\"><a href=\"#"@ + #[trigger] toc_listing(
                    gfm_events(markdown@, gfm_config_spec()),
                    *options,
                )[i].slug + "\">"@,
            ) && contains_run(
                res@,
                "id=\""@ + toc_listing(gfm_events(markdown@, gfm_config_spec()), *options)[i].slug
                    + "\""@,
            ),
{
    let setup = comrak_setup(gfm_config());
    let html = markdown_to_html(markdown, &setup);
    let events = markdown_events(markdown, &setup);
    let res = render_parsed(html.as_str(), &events, options);
    proof {
        assert(setup.config() == gfm_config_spec());
        let ev = gfm_events(markdown@, gfm_config_spec());
        assert forall|i: int|
            #![trigger raw_headings(ev)[i]]
            0 <= i < raw_headings(ev).len() implies contains_run(
                html@,
                "id=\""@ + fresh_slug(
                    comrak_anchor(raw_headings(ev)[i].1),
                    heading_anchors(raw_headings(ev)).take(i),
                ) + "\""@,
            ) by {
            assert(raw_headings(gfm_events(markdown@, setup.config()))[i] == raw_headings(ev)[i]);
            let id = fresh_slug(
                comrak_anchor(raw_headings(ev)[i].1),
                heading_anchors(raw_headings(ev)).take(i),
            );
            assert("id=\""@ + Seq::<char>::empty() + id =~= "id=\""@ + id);
        }
        assert(has_heading_ids(html@, ev));
        lemma_toc_slugs_are_heading_ids(html@, ev, *options);
        if options.toc {
            assert forall|i: int|
                0 <= i < toc_listing(ev, *options).len() implies contains_run(
                res@,
                "\"><a href=\"#"@ + #[trigger] toc_listing(ev, *options)[i].slug + "\">"@,
            ) && contains_run(res@, "id=\""@ + toc_listing(ev, *options)[i].slug + "\""@) by {
                law_toc_links_target_heading_ids(html@, ev, *options, i);
            }
        }
    }
    res
}

/// The headings that the table of contents of `markdown` lists under
/// `options` (its depth limit), in document order.
pub fn toc_entries(markdown: &str, options: &RenderOptions) -> (res: Vec<Heading>)
    ensures
        res.deep_view() == toc_listing(gfm_events(markdown@, gfm_config_spec()), *options),
{
    let setup = comrak_setup(gfm_config());
    let events = markdown_events(markdown, &setup);
    let (headings, _first) = collect_headings(&events);
    toc_headings(headings.as_slice(), options.toc_depth)
}

// ---------------------------------------------------------------------------
// The fallback title of a named input.
// ---------------------------------------------------------------------------

/// A character with a meaning in path syntax on some platform (a separator,
/// a drive or prefix mark, or the extension dot).
pub open spec fn is_path_syntax_char(c: char) -> bool {
    c == '/' || c == '\\' || c == ':' || c == '.'
}

/// A non-empty text without path syntax: on every platform, a path of a
/// single file name without extension.
pub open spec fn is_plain_name(s: Seq<char>) -> bool {
    s.len() > 0 && forall|k: int| 0 <= k < s.len() ==> !is_path_syntax_char(#[trigger] s[k])
}

/// A path that is one file name on every platform: not empty, without `/`,
/// `\` or `:`, and neither `.` nor `..`.
pub open spec fn is_single_name(s: Seq<char>) -> bool {
    &&& s.len() > 0
    &&& forall|k: int| 0 <= k < s.len() ==> #[trigger] s[k] != '/' && s[k] != '\\' && s[k] != ':'
    &&& s != seq!['.']
    &&& s != seq!['.', '.']
}

/// `k` is the position of the last `.` of the name `s`, and not its first
/// character.
pub open spec fn is_last_inner_dot(s: Seq<char>, k: int) -> bool {
    &&& 0 < k < s.len()
    &&& s[k] == '.'
    &&& forall|j: int| k < j < s.len() ==> #[trigger] s[j] != '.'
}

/// The name `s` has no `.` after its first character.
pub open spec fn has_no_inner_dot(s: Seq<char>) -> bool {
    forall|k: int| 0 < k < s.len() ==> #[trigger] s[k] != '.'
}

/// Calls `std::path::Path::file_stem` on `path`. What the stem is depends on
/// the platform's path syntax, so the contract claims only what holds
/// everywhere: a stem, when there is one, is a non-empty part of the path
/// (the part of its file name before the final `.`); and a path that is a
/// single file name with no `.` (no `/`, `\`, `:` or `.` at all) is its own
/// file name and so its own stem. For a path that is one file name on every
/// platform (no `/`, `\` or `:`, not `.` or `..`), the stem is, as the
/// documentation of `file_stem` gives it, the whole name when it has no `.`
/// after its first character, and otherwise the part before its last `.`.
#[verifier::external_body]
fn file_stem(path: &str) -> (stem: Option<String>)
    ensures
        stem matches Some(s) ==> s@.len() > 0 && contains_run(path@, s@),
        is_plain_name(path@) ==> (stem is Some && stem->0@ == path@),
        (is_single_name(path@) && has_no_inner_dot(path@)) ==> (stem is Some && stem->0@ == path@),
        forall|k: int|
            is_single_name(path@) && is_last_inner_dot(path@, k) ==> (stem is Some && stem->0@
                == path@.take(k)),
{
    std::path::Path::new(path).file_stem().and_then(|s| s.to_str()).map(|s| s.to_string())
}

/// The title for a named input whose file stem is `stem`: the stem, or
/// `Document` when the path has none.
pub fn title_from_stem(stem: &Option<String>) -> (res: String)
    ensures
        stem is Some ==> res@ == stem->0@,
        stem is None ==> res@ == "Document"@,
{
    match stem {
        Some(s) => s.clone(),
        None => String::from_str("Document"),
    }
}

/// Derive the fallback title from the input path's file stem, or
/// `Document` when reading standard input (no path, or `-`) or when the
/// path has no file stem. A path that is one file name is its own title
/// when it has no `.` after its first character, and otherwise the part
/// before its last `.`.
pub fn fallback_title_from(input: &Option<String>) -> (res: String)
    ensures
        (input is None || input->0@ == "-"@) ==> res@ == "Document"@,
        (input is Some && input->0@ != "-"@) ==> (res@ == "Document"@ || (res@.len() > 0
            && contains_run(input->0@, res@))),
        (input is Some && input->0@ != "-"@ && is_plain_name(input->0@)) ==> res@ == input->0@,
        (input is Some && input->0@ != "-"@ && is_single_name(input->0@) && has_no_inner_dot(
            input->0@,
        )) ==> res@ == input->0@,
        forall|k: int|
            (input is Some && input->0@ != "-"@ && is_single_name(input->0@) && is_last_inner_dot(
                input->0@,
                k,
            )) ==> res@ == input->0@.take(k),
{
    match input {
        Some(p) => {
            if *p == String::from_str("-") {
                String::from_str("Document")
            } else {
                title_from_stem(&file_stem(p.as_str()))
            }
        },
        None => String::from_str("Document"),
    }
}

} // verus!
