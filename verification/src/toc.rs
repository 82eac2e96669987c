//! The table of contents: which headings it lists and its `<nav>` markup.

use vstd::prelude::*;

use crate::outline::{Heading, HeadingView};
use crate::text::{chars_of, decimal, escape_html, escaped, push_decimal};

verus! {

/// Opening markup of the table of contents.
pub const TOC_OPEN: &'static str =
    "<nav class=\"toc\" aria-label=\"Table of contents\">\n<p class=\"toc-title\">Contents</p>\n<ul>\n";

/// Closing markup of the table of contents.
pub const TOC_CLOSE: &'static str = "</ul>\n</nav>\n";

/// The shallowest level among `hs` (1 when `hs` is empty).
pub open spec fn min_level(hs: Seq<HeadingView>) -> u8
    decreases hs.len(),
{
    if hs.len() == 0 {
        1
    } else if hs.len() == 1 {
        hs[0].level
    } else {
        let m = min_level(hs.drop_last());
        if hs.last().level < m {
            hs.last().level
        } else {
            m
        }
    }
}

/// `n` times two spaces.
pub open spec fn indent(n: nat) -> Seq<char>
    decreases n,
{
    if n == 0 {
        Seq::empty()
    } else {
        indent((n - 1) as nat) + "  "@
    }
}

/// One list item of the table of contents: indented by nesting depth below
/// the shallowest heading, tagged with the heading level, linking to the
/// heading's anchor and showing its text, both HTML-escaped.
pub open spec fn toc_entry(h: HeadingView, min: u8) -> Seq<char> {
    indent((h.level - min + 1) as nat) + "<li class=\"toc-l"@ + decimal(h.level as nat)
        + "\"><a href=\"#"@ + escaped(h.slug) + "\">"@ + escaped(h.text) + "</a></li>\n"@
}

/// The list items for `hs`, in order.
pub open spec fn toc_entries(hs: Seq<HeadingView>, min: u8) -> Seq<char>
    decreases hs.len(),
{
    if hs.len() == 0 {
        Seq::empty()
    } else {
        toc_entries(hs.drop_last(), min) + toc_entry(hs.last(), min)
    }
}

/// The table of contents for `hs`: empty when there are no headings.
pub open spec fn toc_html(hs: Seq<HeadingView>) -> Seq<char> {
    if hs.len() == 0 {
        Seq::empty()
    } else {
        TOC_OPEN@ + toc_entries(hs, min_level(hs)) + TOC_CLOSE@
    }
}

/// The headings whose level is at most `depth`, in order.
pub open spec fn up_to_level(hs: Seq<HeadingView>, depth: u8) -> Seq<HeadingView>
    decreases hs.len(),
{
    if hs.len() == 0 {
        Seq::empty()
    } else if hs.last().level <= depth {
        up_to_level(hs.drop_last(), depth).push(hs.last())
    } else {
        up_to_level(hs.drop_last(), depth)
    }
}

/// The headings a table of contents limited to `depth` lists: all of them
/// when there is no limit.
pub open spec fn toc_selection(hs: Seq<HeadingView>, depth: Option<u8>) -> Seq<HeadingView> {
    match depth {
        Some(d) => up_to_level(hs, d),
        None => hs,
    }
}

/// Every heading a selection lists is one of the headings.
pub proof fn lemma_selection_member(hs: Seq<HeadingView>, depth: Option<u8>, i: int)
    requires
        0 <= i < toc_selection(hs, depth).len(),
    ensures
        exists|j: int| 0 <= j < hs.len() && toc_selection(hs, depth)[i] == hs[j],
    decreases hs.len(),
{
    match depth {
        None => {
            assert(toc_selection(hs, depth)[i] == hs[i]);
        },
        Some(d) => {
            let prev = up_to_level(hs.drop_last(), d);
            if hs.last().level <= d && i == prev.len() {
                assert(up_to_level(hs, d)[i] == hs[hs.len() - 1]);
            } else {
                assert(up_to_level(hs, d)[i] == prev[i]);
                lemma_selection_member(hs.drop_last(), depth, i);
                let j = choose|j: int|
                    0 <= j < hs.drop_last().len() && toc_selection(hs.drop_last(), depth)[i]
                        == hs.drop_last()[j];
                assert(hs.drop_last()[j] == hs[j]);
            }
        },
    }
}

/// A copy of a heading.
pub(crate) fn copy_heading(h: &Heading) -> (res: Heading)
    ensures
        res.deep_view() == h.deep_view(),
{
    Heading { level: h.level, text: h.text.clone(), slug: h.slug.clone() }
}

/// The headings listed by a table of contents limited to `depth` levels
/// (`None`: no limit), in document order.
pub fn toc_headings(headings: &[Heading], depth: Option<u8>) -> (res: Vec<Heading>)
    ensures
        res.deep_view() == toc_selection(headings.deep_view(), depth),
{
    let ghost hs = headings.deep_view();
    let mut out: Vec<Heading> = Vec::new();
    for i in 0..headings.len()
        invariant
            hs == headings.deep_view(),
            out.deep_view() == toc_selection(hs.take(i as int), depth),
    {
        assert(hs.take(i + 1).drop_last() =~= hs.take(i as int));
        let ghost before = out.deep_view();
        let keep = match depth {
            Some(d) => headings[i].level <= d,
            None => true,
        };
        if keep {
            out.push(copy_heading(&headings[i]));
            assert(out.deep_view() =~= before.push(hs[i as int]));
        }
        proof {
            if depth is None {
                assert(hs.take(i + 1) =~= hs.take(i as int).push(hs[i as int]));
            }
        }
    }
    assert(hs.take(headings.len() as int) =~= hs);
    out
}

/// The shallowest heading level present.
fn shallowest_level(headings: &[Heading]) -> (res: u8)
    requires
        headings.len() > 0,
    ensures
        res == min_level(headings.deep_view()),
{
    let ghost hs = headings.deep_view();
    let mut m = headings[0].level;
    let mut i: usize = 1;
    assert(hs.take(1).drop_last().len() == 0);
    while i < headings.len()
        invariant
            1 <= i <= headings.len(),
            hs == headings.deep_view(),
            m == min_level(hs.take(i as int)),
        decreases headings.len() - i,
    {
        assert(hs.take(i + 1).drop_last() =~= hs.take(i as int));
        if headings[i].level < m {
            m = headings[i].level;
        }
        i = i + 1;
    }
    assert(hs.take(headings.len() as int) =~= hs);
    m
}

/// Render a table-of-contents `<nav>` fragment from the collected headings.
///
/// Headings are rendered as a flat list, indented by nesting depth; each
/// entry links to the matching heading anchor. Returns an empty string if
/// there are no headings.
pub fn render_toc(headings: &[Heading]) -> (res: String)
    ensures
        res@ == toc_html(headings.deep_view()),
{
    let ghost hs = headings.deep_view();
    if headings.len() == 0 {
        return String::new();
    }
    let min = shallowest_level(headings);
    let mut out = String::from_str(TOC_OPEN);
    let ghost start = out@;
    for i in 0..headings.len()
        invariant
            hs == headings.deep_view(),
            start == TOC_OPEN@,
            min == min_level(hs),
            out@ == start + toc_entries(hs.take(i as int), min),
    {
        let h = &headings[i];
        assert(hs.take(i + 1).drop_last() =~= hs.take(i as int));
        assert(hs.take(i + 1).last() == h.deep_view());
        proof {
            lemma_min_level_is_lowest(hs, i as int);
        }
        let ghost before = out@;
        let depth: usize = (h.level - min) as usize;
        let mut k: usize = 0;
        while k <= depth
            invariant
                k <= depth + 1,
                depth < 256,
                out@ == before + indent(k as nat),
            decreases depth + 1 - k,
        {
            out.append("  ");
            k = k + 1;
        }
        out.append("<li class=\"toc-l");
        push_decimal(&mut out, h.level as usize);
        out.append("\"><a href=\"#");
        let slug = escape_html(h.slug.as_str());
        out.append(slug.as_str());
        out.append("\">");
        let text = escape_html(h.text.as_str());
        out.append(text.as_str());
        out.append("</a></li>\n");
        assert(out@ =~= before + toc_entry(h.deep_view(), min));
    }
    assert(hs.take(headings.len() as int) =~= hs);
    out.append(TOC_CLOSE);
    out
}

/// `min_level` is at most the level of every heading.
pub proof fn lemma_min_level_is_lowest(hs: Seq<HeadingView>, i: int)
    requires
        0 <= i < hs.len(),
    ensures
        min_level(hs) <= hs[i].level,
    decreases hs.len(),
{
    if hs.len() > 1 && i < hs.len() - 1 {
        lemma_min_level_is_lowest(hs.drop_last(), i);
    }
}

// ---------------------------------------------------------------------------
// The depth limit given on the command line.
// ---------------------------------------------------------------------------

/// Whether `c` is an ASCII decimal digit.
pub open spec fn is_ascii_digit(c: char) -> bool {
    '0' <= c && c <= '9'
}

/// The number that a string of decimal digits denotes.
pub open spec fn digits_value(s: Seq<char>) -> nat
    decreases s.len(),
{
    if s.len() == 0 {
        0
    } else {
        digits_value(s.drop_last()) * 10 + ((s.last() as nat) - 48) as nat
    }
}

/// The depth limit a string denotes: a non-empty string of decimal digits
/// whose value lies between 1 and 6.
pub open spec fn toc_depth_of(s: Seq<char>) -> Option<u8> {
    if s.len() > 0 && (forall|i: int| 0 <= i < s.len() ==> is_ascii_digit(#[trigger] s[i])) && 1
        <= digits_value(s) <= 6 {
        Some(digits_value(s) as u8)
    } else {
        None
    }
}

/// The message given for a string that denotes no depth limit.
pub open spec fn invalid_toc_depth_message(s: Seq<char>) -> Seq<char> {
    "invalid toc-depth '"@ + s + "' (expected a number from 1 to 6)"@
}

/// Command-line value parser for the table-of-contents depth limit: the
/// limit, or an error message naming the rejected value.
pub fn parse_toc_depth(s: &str) -> (res: Result<u8, String>)
    ensures
        toc_depth_of(s@) matches Some(d) ==> res == Ok::<u8, String>(d),
        toc_depth_of(s@) is None ==> (res matches Err(msg) && msg@ == invalid_toc_depth_message(
            s@,
        )),
{
    let chars = chars_of(s);
    let n = chars.len();
    let mut all_digits = n > 0;
    let mut value: u8 = 0;
    let mut i: usize = 0;
    while i < n && all_digits
        invariant
            n == chars@.len(),
            chars@ == s@,
            i <= n,
            all_digits ==> n > 0,
            all_digits ==> forall|j: int| 0 <= j < i ==> is_ascii_digit(#[trigger] chars@[j]),
            !all_digits ==> toc_depth_of(s@) is None,
            all_digits ==> value == if digits_value(chars@.take(i as int)) < 7 {
                digits_value(chars@.take(i as int))
            } else {
                7
            },
        decreases n - i,
    {
        let c = chars[i];
        assert(chars@.take(i + 1).drop_last() =~= chars@.take(i as int));
        if '0' <= c && c <= '9' {
            let d: u8 = (c as u32 - 48) as u8;
            if value < 7 {
                let v: u8 = value * 10 + d;
                value = if v < 7 {
                    v
                } else {
                    7
                };
            }
        } else {
            all_digits = false;
        }
        i = i + 1;
    }
    if all_digits {
        assert(chars@.take(n as int) =~= chars@);
    }
    if all_digits && 1 <= value && value <= 6 {
        Ok(value)
    } else {
        let mut msg = String::from_str("invalid toc-depth '");
        msg.append(s);
        msg.append("' (expected a number from 1 to 6)");
        Err(msg)
    }
}

} // verus!
