//! The document outline: the headings of a parsed Markdown document, with
//! their visible text and their anchor slugs.
//!
//! A parsed document is seen as the sequence of its tree-order traversal
//! edges (`Enter` before a node's descendants, `Leave` after them), each
//! carrying what the outline reads of the node.

use vstd::prelude::*;

use crate::slug::{fresh_slug, lemma_unique_slugs_len, unique_slugs, SlugRegistry};
use crate::text::{markup_free, push_char, trim, trimmed};

verus! {

/// A single heading discovered in the document, used to build the TOC.
#[derive(Debug, Clone, PartialEq, Eq)]
pub struct Heading {
    /// Heading level (1–6).
    pub level: u8,
    /// Visible heading text (Markdown inline formatting stripped).
    pub text: String,
    /// Anchor id, matching the `id` attribute comrak emits on the heading.
    pub slug: String,
}

/// The mathematical value of a [`Heading`].
pub struct HeadingView {
    pub level: u8,
    pub text: Seq<char>,
    pub slug: Seq<char>,
}

impl DeepView for Heading {
    type V = HeadingView;

    open spec fn deep_view(&self) -> HeadingView {
        HeadingView { level: self.level, text: self.text@, slug: self.slug@ }
    }
}

/// What the outline reads of one node of the Markdown tree.
pub enum NodeKind {
    /// A heading of the given level.
    Heading(u8),
    /// Literal text.
    Text(String),
    /// An inline code span, with its literal contents.
    Code(String),
    /// A soft or hard line break.
    LineBreak,
    /// Any other node.
    Other,
}

/// One edge of a tree-order traversal of the document.
pub enum DocEvent {
    /// Start of a node, before its descendants.
    Enter(NodeKind),
    /// End of a node, after its descendants.
    Leave(NodeKind),
}

/// The mathematical value of a [`NodeKind`].
pub enum NodeKindView {
    Heading(u8),
    Text(Seq<char>),
    Code(Seq<char>),
    LineBreak,
    Other,
}

/// The mathematical value of a [`DocEvent`].
pub enum DocEventView {
    Enter(NodeKindView),
    Leave(NodeKindView),
}

impl DeepView for NodeKind {
    type V = NodeKindView;

    open spec fn deep_view(&self) -> NodeKindView {
        match self {
            NodeKind::Heading(l) => NodeKindView::Heading(*l),
            NodeKind::Text(t) => NodeKindView::Text(t@),
            NodeKind::Code(t) => NodeKindView::Code(t@),
            NodeKind::LineBreak => NodeKindView::LineBreak,
            NodeKind::Other => NodeKindView::Other,
        }
    }
}

impl DeepView for DocEvent {
    type V = DocEventView;

    open spec fn deep_view(&self) -> DocEventView {
        match self {
            DocEvent::Enter(k) => DocEventView::Enter(k.deep_view()),
            DocEvent::Leave(k) => DocEventView::Leave(k.deep_view()),
        }
    }
}

/// The state of a left-to-right pass over traversal edges: the heading
/// being read, if any (its level and the text collected so far), and the
/// headings finished so far (level and raw text).
pub struct OutlineScan {
    pub open: Option<(u8, Seq<char>)>,
    pub done: Seq<(u8, Seq<char>)>,
}

/// One edge of the pass. Entering a heading opens it; inside an open
/// heading, text and code spans contribute their literal contents and a line
/// break contributes one space (the heading's visible text, in document
/// order); leaving a heading finishes it. Everything else is skipped.
pub open spec fn scan_step(st: OutlineScan, e: DocEventView) -> OutlineScan {
    match e {
        DocEventView::Enter(NodeKindView::Heading(l)) => {
            if st.open is None {
                OutlineScan { open: Some((l, Seq::empty())), done: st.done }
            } else {
                st
            }
        },
        DocEventView::Enter(NodeKindView::Text(t)) => match st.open {
            Some(h) => OutlineScan { open: Some((h.0, h.1 + t)), done: st.done },
            None => st,
        },
        DocEventView::Enter(NodeKindView::Code(t)) => match st.open {
            Some(h) => OutlineScan { open: Some((h.0, h.1 + t)), done: st.done },
            None => st,
        },
        DocEventView::Enter(NodeKindView::LineBreak) => match st.open {
            Some(h) => OutlineScan { open: Some((h.0, h.1.push(' '))), done: st.done },
            None => st,
        },
        DocEventView::Leave(NodeKindView::Heading(_)) => match st.open {
            Some(h) => OutlineScan { open: None, done: st.done.push(h) },
            None => st,
        },
        _ => st,
    }
}

/// The pass over a whole sequence of edges.
pub open spec fn scan_events(events: Seq<DocEventView>) -> OutlineScan
    decreases events.len(),
{
    if events.len() == 0 {
        OutlineScan { open: None, done: Seq::empty() }
    } else {
        scan_step(scan_events(events.drop_last()), events.last())
    }
}

/// The headings of a document in document order: level and untrimmed text.
pub open spec fn raw_headings(events: Seq<DocEventView>) -> Seq<(u8, Seq<char>)> {
    scan_events(events).done
}

/// The anchor that comrak's `Anchorizer` derives from a heading's text
/// before disambiguation.
pub uninterp spec fn comrak_anchor(text: Seq<char>) -> Seq<char>;

/// Calls `Anchorizer::anchorize` on a new `comrak::Anchorizer`. A new
/// anchorizer has handed out no anchor yet, so it returns the anchor of
/// `text` without a disambiguating suffix. The contract names that anchor
/// and claims, from the anchorizer's filter (it keeps only spaces, turned
/// into `-`, `-`, letters, marks, numbers and connector punctuation), that
/// it holds none of `&`, `<`, `>`, `"`, `'`.
#[verifier::external_body]
fn anchorize(text: &str) -> (a: String)
    ensures
        a@ == comrak_anchor(text@),
        markup_free(a@),
{
    comrak::Anchorizer::new().anchorize(text)
}

/// The base slug of a raw heading: comrak's anchor of its collected
/// (untrimmed) text, the text comrak's HTML formatter derives the heading's
/// id from.
pub open spec fn base_slug(r: (u8, Seq<char>)) -> Seq<char> {
    comrak_anchor(r.1)
}

/// The base slugs of raw headings, in order.
pub open spec fn base_slugs(raw: Seq<(u8, Seq<char>)>) -> Seq<Seq<char>> {
    raw.map_values(|r: (u8, Seq<char>)| base_slug(r))
}

/// The anchors of raw headings, in order: each base slug disambiguated
/// against the anchors of the headings before it.
pub open spec fn heading_anchors(raw: Seq<(u8, Seq<char>)>) -> Seq<Seq<char>> {
    unique_slugs(base_slugs(raw))
}

/// The `i`-th heading of the outline: its level, its trimmed text, and its
/// anchor.
pub open spec fn outline_heading(raw: Seq<(u8, Seq<char>)>, i: int) -> HeadingView {
    HeadingView { level: raw[i].0, text: trimmed(raw[i].1), slug: heading_anchors(raw)[i] }
}

/// The outline of raw headings.
pub open spec fn outline(raw: Seq<(u8, Seq<char>)>) -> Seq<HeadingView> {
    Seq::new(raw.len(), |i: int| outline_heading(raw, i))
}

/// The trimmed text of the first level-1 heading whose trimmed text is not
/// empty, if there is one.
pub open spec fn first_h1(raw: Seq<(u8, Seq<char>)>) -> Option<Seq<char>>
    decreases raw.len(),
{
    if raw.len() == 0 {
        None
    } else {
        match first_h1(raw.drop_last()) {
            Some(t) => Some(t),
            None => if raw.last().0 == 1 && trimmed(raw.last().1).len() > 0 {
                Some(trimmed(raw.last().1))
            } else {
                None
            },
        }
    }
}

/// Appending a heading leaves the earlier outline entries unchanged, and
/// the new entry gets the first candidate of its base slug that no earlier
/// anchor took.
pub proof fn lemma_outline_push(raw: Seq<(u8, Seq<char>)>, r: (u8, Seq<char>))
    ensures
        base_slugs(raw.push(r)) == base_slugs(raw).push(base_slug(r)),
        heading_anchors(raw.push(r)) == heading_anchors(raw).push(
            fresh_slug(base_slug(r), heading_anchors(raw)),
        ),
        outline(raw.push(r)) == outline(raw).push(
            HeadingView {
                level: r.0,
                text: trimmed(r.1),
                slug: fresh_slug(base_slug(r), heading_anchors(raw)),
            },
        ),
{
    let raw2 = raw.push(r);
    assert(base_slugs(raw2) =~= base_slugs(raw).push(base_slug(r)));
    assert(base_slugs(raw2).drop_last() =~= base_slugs(raw));
    let anchors2 = heading_anchors(raw2);
    lemma_unique_slugs_len(base_slugs(raw));
    lemma_unique_slugs_len(base_slugs(raw2));
    assert(anchors2 == heading_anchors(raw).push(fresh_slug(base_slug(r), heading_anchors(raw))));
    assert forall|j: int| 0 <= j < raw.len() implies outline_heading(raw2, j) == outline_heading(
        raw,
        j,
    ) by {
        assert(raw2[j] == raw[j]);
        assert(anchors2[j] == heading_anchors(raw)[j]);
    }
    assert(raw2[raw.len() as int] == r);
    assert(outline(raw2) =~= outline(raw).push(outline_heading(raw2, raw.len() as int)));
}

/// The comrak anchor of each raw heading holds no character that HTML
/// escaping replaces.
pub open spec fn anchors_free(raw: Seq<(u8, Seq<char>)>) -> bool {
    forall|j: int| 0 <= j < raw.len() ==> markup_free(#[trigger] base_slug(raw[j]))
}

/// Extract the headings of a document (for the TOC), in document order, and
/// the inferred title: the text of the first level-1 heading, if any.
///
/// Each heading's text is its visible text with leading and trailing
/// whitespace removed; its slug is comrak's anchor of its visible text,
/// disambiguated against the headings before it as comrak does, so it is
/// the `id` comrak's HTML gives the heading.
pub fn collect_headings(events: &Vec<DocEvent>) -> (res: (Vec<Heading>, Option<String>))
    ensures
        res.0.deep_view() == outline(raw_headings(events.deep_view())),
        res.1.deep_view() == first_h1(raw_headings(events.deep_view())),
        anchors_free(raw_headings(events.deep_view())),
{
    let ghost ev = events.deep_view();
    let mut headings: Vec<Heading> = Vec::new();
    let mut first: Option<String> = None;
    let mut registry = SlugRegistry::new();
    let mut open: Option<u8> = None;
    let mut text = String::new();
    let n = events.len();
    for i in 0..n
        invariant
            n == events.len(),
            ev == events.deep_view(),
            scan_events(ev.take(i as int)).open == match open {
                Some(l) => Some((l, text@)),
                None => None,
            },
            headings.deep_view() == outline(scan_events(ev.take(i as int)).done),
            registry.ids() == heading_anchors(scan_events(ev.take(i as int)).done),
            first.deep_view() == first_h1(scan_events(ev.take(i as int)).done),
            anchors_free(scan_events(ev.take(i as int)).done),
    {
        let ghost st = scan_events(ev.take(i as int));
        assert(ev.take(i + 1).drop_last() =~= ev.take(i as int));
        assert(ev.take(i + 1).last() == events@[i as int].deep_view());
        match &events[i] {
            DocEvent::Enter(NodeKind::Heading(l)) => {
                if open.is_none() {
                    open = Some(*l);
                    text = String::new();
                }
            },
            DocEvent::Enter(NodeKind::Text(t)) => {
                if open.is_some() {
                    text.append(t.as_str());
                }
            },
            DocEvent::Enter(NodeKind::Code(t)) => {
                if open.is_some() {
                    text.append(t.as_str());
                }
            },
            DocEvent::Enter(NodeKind::LineBreak) => {
                if open.is_some() {
                    push_char(&mut text, ' ');
                }
            },
            DocEvent::Leave(NodeKind::Heading(_)) => {
                if let Some(level) = open {
                    let heading_text = trim(text.as_str());
                    proof {
                        lemma_outline_push(st.done, (level, text@));
                        assert(st.done.push((level, text@)).drop_last() =~= st.done);
                    }
                    if level == 1 && first.is_none() && !heading_text.as_str().is_empty() {
                        first = Some(heading_text.clone());
                    }
                    let base = anchorize(text.as_str());
                    let slug = registry.dedup_slug(base.as_str());
                    let ghost before = headings.deep_view();
                    headings.push(Heading { level, text: heading_text, slug });
                    assert(headings.deep_view() =~= before.push(headings@.last().deep_view()));
                    open = None;
                }
            },
            _ => {},
        }
        proof {
            let st2 = scan_events(ev.take(i + 1));
            assert forall|j: int| 0 <= j < st2.done.len() implies markup_free(
                #[trigger] base_slug(st2.done[j]),
            ) by {
                if j < st.done.len() {
                    assert(st2.done[j] == st.done[j]);
                }
            }
        }
    }
    assert(ev.take(n as int) =~= ev);
    (headings, first)
}

} // verus!
