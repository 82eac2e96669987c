//! Properties of the library that span its functions or all of its inputs.

use vstd::prelude::*;

use crate::outline::{
    anchors_free, base_slug, base_slugs, heading_anchors, outline, raw_headings, DocEventView, HeadingView,
};
use crate::outline::first_h1;
use crate::render::{
    body_text, has_heading_ids, lemma_toc_slugs_are_heading_ids, page,
    style_block, title_text, toc_listing, RenderOptions, DOC_BODY_OPEN, DOC_HEAD, DOC_TAIL,
    DOC_TITLE_END,
};
use crate::slug::{
    fresh_slug, is_first_free, lemma_first_free_unique, lemma_fresh_slug, lemma_unique_slugs_prefix,
    slug_candidate, slug_of, slug_piece, unique_slugs,
};
use crate::text::{
    ascii_lower, ascii_lower_char, contains_run, is_ascii_char, is_unicode_whitespace, trim_end,
    trim_start, escape_char, escaped, is_alphanumeric, lemma_map_concat_append,
    lemma_map_concat_single, map_concat, trimmed, lowercase, markup_free, lemma_escaped_markup_free,
};
use crate::theme::{theme_css_text, theme_named, Theme, BASE_CSS, DARK_VARS, LIGHT_VARS};
use crate::toc::{toc_entries, toc_entry, toc_html, toc_selection, up_to_level, TOC_OPEN};

verus! {

// ---------------------------------------------------------------------------
// Runs of characters.
// ---------------------------------------------------------------------------

proof fn lemma_run_in_middle(a: Seq<char>, p: Seq<char>, b: Seq<char>)
    ensures
        contains_run(a + p + b, p),
{
    let s = a + p + b;
    assert(s.skip(a.len() as int).take(p.len() as int) =~= p);
}

proof fn lemma_run_trans(s: Seq<char>, p: Seq<char>, q: Seq<char>)
    requires
        contains_run(s, p),
        contains_run(p, q),
    ensures
        contains_run(s, q),
{
    let i = choose|i: int|
        0 <= i && i + p.len() <= s.len() && #[trigger] s.skip(i).take(p.len() as int) == p;
    let j = choose|j: int|
        0 <= j && j + q.len() <= p.len() && #[trigger] p.skip(j).take(q.len() as int) == q;
    assert forall|k: int| 0 <= k < q.len() implies s.skip(i + j).take(q.len() as int)[k] == q[k] by {
        assert(q[k] == p.skip(j).take(q.len() as int)[k]);
        assert(p[j + k] == s.skip(i).take(p.len() as int)[j + k]);
    }
    assert(s.skip(i + j).take(q.len() as int) =~= q);
}

// ---------------------------------------------------------------------------
// Slugs.
// ---------------------------------------------------------------------------

/// Slugs are made character by character: the slug of a concatenation is
/// the concatenation of the slugs.
pub proof fn law_slug_of_concatenation(a: Seq<char>, b: Seq<char>)
    ensures
        slug_of(a + b) == slug_of(a) + slug_of(b),
{
    lemma_map_concat_append(a, b, |c: char| slug_piece(c));
}

/// A space or a hyphen contributes exactly one `-` to a slug: nothing is
/// collapsed or trimmed.
pub proof fn law_separator_becomes_hyphen(a: Seq<char>, c: char, b: Seq<char>)
    requires
        c == ' ' || c == '-',
    ensures
        slug_of(a + seq![c] + b) == slug_of(a) + seq!['-'] + slug_of(b),
{
    law_slug_of_concatenation(a + seq![c], b);
    law_slug_of_concatenation(a, seq![c]);
    lemma_map_concat_single(c, |c: char| slug_piece(c));
}

/// Every alphanumeric character (of any script) and `_` contributes its
/// lowercase mapping to a slug, in place.
pub proof fn law_alphanumeric_kept_lowercased(a: Seq<char>, c: char, b: Seq<char>)
    requires
        is_alphanumeric(c) || c == '_',
    ensures
        slug_of(a + seq![c] + b) == slug_of(a) + lowercase(c) + slug_of(b),
{
    law_slug_of_concatenation(a + seq![c], b);
    law_slug_of_concatenation(a, seq![c]);
    lemma_map_concat_single(c, |c: char| slug_piece(c));
}

/// A character that is neither alphanumeric nor `_`, a space or `-` (a tab,
/// a punctuation mark) leaves no trace in the slug.
pub proof fn law_other_characters_dropped(a: Seq<char>, c: char, b: Seq<char>)
    requires
        !is_alphanumeric(c),
        c != '_',
        c != ' ',
        c != '-',
    ensures
        slug_of(a + seq![c] + b) == slug_of(a + b),
{
    law_slug_of_concatenation(a + seq![c], b);
    law_slug_of_concatenation(a, seq![c]);
    law_slug_of_concatenation(a, b);
    lemma_map_concat_single(c, |c: char| slug_piece(c));
    assert(slug_of(a) + Seq::<char>::empty() =~= slug_of(a));
}

/// A slug character: `-`, `_`, an ASCII lowercase letter or an ASCII digit.
pub open spec fn is_ascii_slug_char(c: char) -> bool {
    c == '-' || c == '_' || ('a' <= c && c <= 'z') || ('0' <= c && c <= '9')
}

proof fn lemma_ascii_piece(c: char)
    requires
        is_ascii_char(c),
    ensures
        forall|k: int| 0 <= k < slug_piece(c).len() ==> is_ascii_slug_char(#[trigger] slug_piece(c)[k]),
        slug_piece(c).len() <= 1,
{
    if 'A' <= c && c <= 'Z' {
        assert(ascii_lower_char(c) as u32 == c as u32 + 32);
    }
}

proof fn lemma_slug_char_is_fixed(c: char)
    requires
        is_ascii_slug_char(c),
    ensures
        slug_piece(c) == seq![c],
{
}

/// The slug of an ASCII text is made of `-`, `_`, lowercase letters and
/// digits, and slugifying it again changes nothing.
pub proof fn law_ascii_slug_is_stable(t: Seq<char>)
    requires
        forall|k: int| 0 <= k < t.len() ==> is_ascii_char(#[trigger] t[k]),
    ensures
        forall|k: int| 0 <= k < slug_of(t).len() ==> is_ascii_slug_char(#[trigger] slug_of(t)[k]),
        slug_of(slug_of(t)) == slug_of(t),
    decreases t.len(),
{
    if t.len() > 0 {
        let init = t.drop_last();
        let c = t.last();
        law_ascii_slug_is_stable(init);
        lemma_ascii_piece(c);
        let piece = slug_piece(c);
        assert(slug_of(t) == slug_of(init) + piece);
        assert forall|k: int| 0 <= k < slug_of(t).len() implies is_ascii_slug_char(
            #[trigger] slug_of(t)[k],
        ) by {
            if k < slug_of(init).len() {
                assert(slug_of(t)[k] == slug_of(init)[k]);
            } else {
                assert(slug_of(t)[k] == piece[k - slug_of(init).len()]);
            }
        }
        law_slug_of_concatenation(slug_of(init), piece);
        if piece.len() == 1 {
            lemma_slug_char_is_fixed(piece[0]);
            assert(piece =~= seq![piece[0]]);
            lemma_map_concat_single(piece[0], |c: char| slug_piece(c));
        } else {
            assert(piece.len() == 0);
            assert(slug_of(piece) == Seq::<char>::empty());
            assert(piece =~= Seq::<char>::empty());
        }
        assert(slug_of(slug_of(t)) =~= slug_of(t));
    }
}

/// The anchors handed out for any sequence of base slugs are pairwise
/// distinct.
pub proof fn law_anchors_pairwise_distinct(bases: Seq<Seq<char>>, i: int, j: int)
    requires
        0 <= i < j < bases.len(),
    ensures
        unique_slugs(bases).len() == bases.len(),
        unique_slugs(bases)[i] != unique_slugs(bases)[j],
{
    lemma_unique_slugs_prefix(bases, j);
    let prev = unique_slugs(bases).take(j);
    lemma_fresh_slug(bases[j], prev);
    assert(prev[i] == unique_slugs(bases)[i]);
    assert(prev.contains(unique_slugs(bases)[i]));
}

/// Disambiguation of heading anchors: each heading gets the first of its base
/// slug (comrak's anchor of its text), base`-1`, base`-2`, … that no earlier
/// heading's anchor took; in particular it keeps its base slug when no
/// earlier anchor equals it.
pub proof fn law_heading_anchor_disambiguation(raw: Seq<(u8, Seq<char>)>, i: int)
    requires
        0 <= i < raw.len(),
    ensures
        outline(raw)[i].slug == fresh_slug(base_slug(raw[i]), heading_anchors(raw).take(i)),
        !heading_anchors(raw).take(i).contains(base_slug(raw[i])) ==> outline(raw)[i].slug
            == base_slug(raw[i]),
        outline(raw)[i].text == trimmed(raw[i].1),
        outline(raw)[i].level == raw[i].0,
{
    lemma_unique_slugs_prefix(base_slugs(raw), i);
    let prev = heading_anchors(raw).take(i);
    let b = base_slug(raw[i]);
    if !prev.contains(b) {
        assert(is_first_free(b, prev, 0));
        lemma_fresh_slug(b, prev);
        let k = choose|k: nat| is_first_free(b, prev, k) && fresh_slug(b, prev) == slug_candidate(b, k);
        lemma_first_free_unique(b, prev, 0, k);
    }
}

// ---------------------------------------------------------------------------
// HTML escaping.
// ---------------------------------------------------------------------------

proof fn lemma_escape_char_clean(c: char)
    ensures
        forall|k: int|
            0 <= k < escape_char(c).len() ==> {
                let e = #[trigger] escape_char(c)[k];
                e != '<' && e != '>' && e != '"' && e != '\''
            },
{
    reveal_strlit("&amp;");
    reveal_strlit("&lt;");
    reveal_strlit("&gt;");
    reveal_strlit("&quot;");
    reveal_strlit("&#39;");
}

/// Escaped text holds no `<`, `>`, `"` or `'`: it cannot open or close a tag
/// or an attribute value.
pub proof fn law_escaped_text_has_no_markup(s: Seq<char>)
    ensures
        forall|k: int|
            0 <= k < escaped(s).len() ==> {
                let e = #[trigger] escaped(s)[k];
                e != '<' && e != '>' && e != '"' && e != '\''
            },
    decreases s.len(),
{
    if s.len() > 0 {
        law_escaped_text_has_no_markup(s.drop_last());
        lemma_escape_char_clean(s.last());
        let head = escaped(s.drop_last());
        let tail = escape_char(s.last());
        assert(escaped(s) == head + tail);
        assert forall|k: int| 0 <= k < escaped(s).len() implies {
            let e = #[trigger] escaped(s)[k];
            e != '<' && e != '>' && e != '"' && e != '\''
        } by {
            if k < head.len() {
                assert(escaped(s)[k] == head[k]);
            } else {
                assert(escaped(s)[k] == tail[k - head.len()]);
            }
        }
    }
}

/// The escape of a text starting with `c` starts with the escape of `c`.
proof fn lemma_escaped_front(s: Seq<char>)
    requires
        s.len() > 0,
    ensures
        escaped(s) == escape_char(s[0]) + escaped(s.drop_first()),
{
    assert(seq![s[0]] + s.drop_first() =~= s);
    lemma_map_concat_append(seq![s[0]], s.drop_first(), |c: char| escape_char(c));
    lemma_map_concat_single(s[0], |c: char| escape_char(c));
}

proof fn lemma_escaped_len(s: Seq<char>)
    ensures
        escaped(s).len() >= s.len(),
    decreases s.len(),
{
    reveal_strlit("&amp;");
    reveal_strlit("&lt;");
    reveal_strlit("&gt;");
    reveal_strlit("&quot;");
    reveal_strlit("&#39;");
    if s.len() > 0 {
        lemma_escaped_len(s.drop_last());
        assert(escape_char(s.last()).len() >= 1);
    }
}

/// HTML escaping loses nothing: different texts have different escapes.
pub proof fn law_escaping_is_injective(a: Seq<char>, b: Seq<char>)
    requires
        escaped(a) == escaped(b),
    ensures
        a == b,
    decreases a.len() + b.len(),
{
    reveal_strlit("&amp;");
    reveal_strlit("&lt;");
    reveal_strlit("&gt;");
    reveal_strlit("&quot;");
    reveal_strlit("&#39;");
    lemma_escaped_len(a);
    lemma_escaped_len(b);
    if a.len() == 0 || b.len() == 0 {
        if a.len() > 0 {
            lemma_escaped_front(a);
        }
        if b.len() > 0 {
            lemma_escaped_front(b);
        }
        assert(a =~= b);
    } else {
        lemma_escaped_front(a);
        lemma_escaped_front(b);
        let ea = escape_char(a[0]);
        let eb = escape_char(b[0]);
        let e = escaped(a);
        assert(e[0] == ea[0]);
        assert(e[0] == eb[0]);
        if ea.len() > 1 && eb.len() > 1 {
            assert(e[1] == ea[1]);
            assert(e[1] == eb[1]);
        }
        assert(a[0] == b[0]);
        assert(escaped(a.drop_first()) =~= e.skip(ea.len() as int));
        assert(escaped(b.drop_first()) =~= e.skip(ea.len() as int));
        law_escaping_is_injective(a.drop_first(), b.drop_first());
        assert(a =~= seq![a[0]] + a.drop_first());
        assert(b =~= seq![b[0]] + b.drop_first());
    }
}

/// Whether `s` starts with the characters of `p`.
pub open spec fn starts_with(s: Seq<char>, p: Seq<char>) -> bool {
    p.len() <= s.len() && forall|k: int| 0 <= k < p.len() ==> #[trigger] s[k] == p[k]
}

/// Undoes HTML escaping in one left-to-right pass: each of `&amp;`, `&lt;`,
/// `&gt;`, `&quot;` and `&#39;` becomes the character it stands for, every
/// other character stands for itself.
pub open spec fn unescaped(s: Seq<char>) -> Seq<char>
    decreases s.len(),
{
    if s.len() == 0 {
        Seq::empty()
    } else if starts_with(s, seq!['&', 'a', 'm', 'p', ';']) {
        seq!['&'] + unescaped(s.skip(5))
    } else if starts_with(s, seq!['&', 'l', 't', ';']) {
        seq!['<'] + unescaped(s.skip(4))
    } else if starts_with(s, seq!['&', 'g', 't', ';']) {
        seq!['>'] + unescaped(s.skip(4))
    } else if starts_with(s, seq!['&', 'q', 'u', 'o', 't', ';']) {
        seq!['"'] + unescaped(s.skip(6))
    } else if starts_with(s, seq!['&', '#', '3', '9', ';']) {
        seq!['\''] + unescaped(s.skip(5))
    } else {
        seq![s[0]] + unescaped(s.skip(1))
    }
}

/// HTML escaping is undone by unescaping: one left-to-right pass that
/// replaces each entity by its character gives back the original text.
pub proof fn law_unescaping_undoes_escaping(s: Seq<char>)
    ensures
        unescaped(escaped(s)) == s,
    decreases s.len(),
{
    reveal_strlit("&amp;");
    reveal_strlit("&lt;");
    reveal_strlit("&gt;");
    reveal_strlit("&quot;");
    reveal_strlit("&#39;");
    if s.len() == 0 {
        assert(escaped(s) =~= Seq::<char>::empty());
    } else {
        lemma_escaped_front(s);
        let c = s[0];
        let r = s.drop_first();
        law_unescaping_undoes_escaping(r);
        let ec = escape_char(c);
        let e = escaped(s);
        assert(e == ec + escaped(r));
        assert(forall|k: int| 0 <= k < ec.len() ==> e[k] == #[trigger] ec[k]);
        assert(e.skip(ec.len() as int) =~= escaped(r));
        assert(e[0] == ec[0]);
        if ec.len() > 1 {
            assert(e[1] == ec[1]);
        }
        assert(unescaped(e) == seq![c] + unescaped(e.skip(ec.len() as int)));
        assert(seq![c] + r =~= s);
    }
}

// ---------------------------------------------------------------------------
// Table of contents.
// ---------------------------------------------------------------------------

proof fn lemma_entries_contain(hs: Seq<HeadingView>, m: u8, i: int)
    requires
        0 <= i < hs.len(),
    ensures
        contains_run(toc_entries(hs, m), toc_entry(hs[i], m)),
    decreases hs.len(),
{
    let prefix = toc_entries(hs.drop_last(), m);
    if i == hs.len() - 1 {
        lemma_run_in_middle(prefix, toc_entry(hs[i], m), Seq::empty());
        assert(prefix + toc_entry(hs[i], m) + Seq::<char>::empty() =~= toc_entries(hs, m));
    } else {
        lemma_entries_contain(hs.drop_last(), m, i);
        lemma_run_in_middle(Seq::empty(), prefix, toc_entry(hs.last(), m));
        assert(Seq::<char>::empty() + prefix + toc_entry(hs.last(), m) =~= toc_entries(hs, m));
        lemma_run_trans(toc_entries(hs, m), prefix, toc_entry(hs[i], m));
    }
}

/// Every heading listed in a table of contents has a link to its anchor:
/// the `i`-th entry links to `#` followed by the (escaped) slug of the
/// `i`-th heading.
pub proof fn law_toc_links_to_every_slug(hs: Seq<HeadingView>, i: int)
    requires
        0 <= i < hs.len(),
    ensures
        contains_run(toc_html(hs), "\"><a href=\"#"@ + escaped(hs[i].slug) + "\">"@),
{
    let m = crate::toc::min_level(hs);
    let h = hs[i];
    let link = "\"><a href=\"#"@ + escaped(h.slug) + "\">"@;
    lemma_entries_contain(hs, m, i);
    let before = crate::toc::indent((h.level - m + 1) as nat) + "<li class=\"toc-l"@
        + crate::text::decimal(h.level as nat);
    let after = escaped(h.text) + "</a></li>\n"@;
    assert(toc_entry(h, m) =~= before + link + after);
    lemma_run_in_middle(before, link, after);
    lemma_run_trans(toc_entries(hs, m), toc_entry(h, m), link);
    lemma_run_in_middle(TOC_OPEN@, toc_entries(hs, m), crate::toc::TOC_CLOSE@);
    lemma_run_trans(toc_html(hs), toc_entries(hs, m), link);
}

/// A table of contents is empty exactly when there are no headings.
pub proof fn law_toc_empty_iff_no_headings(hs: Seq<HeadingView>)
    ensures
        (toc_html(hs).len() == 0) <==> (hs.len() == 0),
{
    reveal_strlit(
        "<nav class=\"toc\" aria-label=\"Table of contents\">\n<p class=\"toc-title\">Contents</p>\n<ul>\n",
    );
}

/// A depth limit lists only headings at most that deep, and lists all of
/// them when none is deeper.
pub proof fn law_toc_depth_limit(hs: Seq<HeadingView>, depth: u8)
    ensures
        forall|k: int|
            0 <= k < up_to_level(hs, depth).len() ==> #[trigger] up_to_level(hs, depth)[k].level
                <= depth,
        (forall|k: int| 0 <= k < hs.len() ==> #[trigger] hs[k].level <= depth) ==> up_to_level(
            hs,
            depth,
        ) == hs,
    decreases hs.len(),
{
    if hs.len() > 0 {
        law_toc_depth_limit(hs.drop_last(), depth);
        let prev = up_to_level(hs.drop_last(), depth);
        if hs.last().level <= depth {
            assert forall|k: int| 0 <= k < up_to_level(hs, depth).len() implies #[trigger] up_to_level(
                hs,
                depth,
            )[k].level <= depth by {
                if k < prev.len() {
                    assert(up_to_level(hs, depth)[k] == prev[k]);
                }
            }
        }
        if forall|k: int| 0 <= k < hs.len() ==> #[trigger] hs[k].level <= depth {
            assert(forall|k: int|
                0 <= k < hs.drop_last().len() ==> #[trigger] hs.drop_last()[k].level <= depth) by {
                assert forall|k: int| 0 <= k < hs.drop_last().len() implies #[trigger] hs.drop_last()[k].level
                    <= depth by {
                    assert(hs.drop_last()[k] == hs[k]);
                }
            }
            assert(hs.last().level <= depth);
            assert(hs.drop_last().push(hs.last()) =~= hs);
        }
    }
}

/// Every entry of a table of contents is tagged with its heading's own
/// level: the list item of the `i`-th heading has class `toc-l<level>`,
/// links to the heading's (escaped) slug and shows its (escaped) text.
pub proof fn law_toc_entry_carries_level(hs: Seq<HeadingView>, i: int)
    requires
        0 <= i < hs.len(),
    ensures
        contains_run(
            toc_html(hs),
            "<li class=\"toc-l"@ + crate::text::decimal(hs[i].level as nat) + "\"><a href=\"#"@
                + escaped(hs[i].slug) + "\">"@ + escaped(hs[i].text) + "</a></li>\n"@,
        ),
{
    let m = crate::toc::min_level(hs);
    let h = hs[i];
    let item = "<li class=\"toc-l"@ + crate::text::decimal(h.level as nat) + "\"><a href=\"#"@
        + escaped(h.slug) + "\">"@ + escaped(h.text) + "</a></li>\n"@;
    lemma_entries_contain(hs, m, i);
    let before = crate::toc::indent((h.level - m + 1) as nat);
    let after = Seq::<char>::empty();
    assert(toc_entry(h, m) =~= before + item + after);
    lemma_run_in_middle(before, item, after);
    lemma_run_trans(toc_entries(hs, m), toc_entry(h, m), item);
    lemma_run_in_middle(TOC_OPEN@, toc_entries(hs, m), crate::toc::TOC_CLOSE@);
    lemma_run_trans(toc_html(hs), toc_entries(hs, m), item);
}

/// A depth limit `d` lists exactly the headings of level at most `d`, in
/// document order; without a limit every heading is listed.
pub proof fn law_toc_selection_by_depth(hs: Seq<HeadingView>, d: u8)
    ensures
        toc_selection(hs, Some(d)) == hs.filter(|h: HeadingView| h.level <= d),
        forall|k: int|
            0 <= k < toc_selection(hs, Some(d)).len() ==> #[trigger] toc_selection(
                hs,
                Some(d),
            )[k].level <= d,
        toc_selection(hs, None) == hs,
    decreases hs.len(),
{
    reveal(Seq::<HeadingView>::filter);
    if hs.len() > 0 {
        law_toc_selection_by_depth(hs.drop_last(), d);
        assert(hs.filter(|h: HeadingView| h.level <= d) == if hs.last().level <= d {
            hs.drop_last().filter(|h: HeadingView| h.level <= d).push(hs.last())
        } else {
            hs.drop_last().filter(|h: HeadingView| h.level <= d)
        });
    } else {
        assert(hs.filter(|h: HeadingView| h.level <= d) =~= hs);
    }
    law_toc_depth_limit(hs, d);
}

/// With a table of contents asked for, the body opens with the `<nav>` when
/// some heading is listed, and is the Markdown's HTML alone when none is.
pub proof fn law_toc_nav_only_with_entries(
    html: Seq<char>,
    events: Seq<DocEventView>,
    o: RenderOptions,
)
    requires
        o.toc,
    ensures
        toc_listing(events, o).len() == 0 ==> body_text(html, events, o) == html,
        toc_listing(events, o).len() > 0 ==> body_text(html, events, o).take(TOC_OPEN@.len() as int)
            == TOC_OPEN@,
{
    if toc_listing(events, o).len() == 0 {
        assert(Seq::<char>::empty() + html =~= html);
    } else {
        let hs = toc_listing(events, o);
        let rest = toc_entries(hs, crate::toc::min_level(hs)) + crate::toc::TOC_CLOSE@ + html;
        assert(body_text(html, events, o) =~= TOC_OPEN@ + rest);
        assert((TOC_OPEN@ + rest).take(TOC_OPEN@.len() as int) =~= TOC_OPEN@);
    }
}

// ---------------------------------------------------------------------------
// Pages.
// ---------------------------------------------------------------------------

/// A standalone page starts with the doctype and head of the document and
/// holds the body whole, and the theme's style block exactly when styling is
/// on; a fragment is the body alone.
pub proof fn law_page_shape(html: Seq<char>, events: Seq<DocEventView>, o: RenderOptions)
    ensures
        o.standalone ==> page(html, events, o).take(DOC_HEAD@.len() as int) == DOC_HEAD@,
        o.standalone ==> contains_run(page(html, events, o), body_text(html, events, o)),
        o.standalone && o.style ==> contains_run(
            page(html, events, o),
            "<style>\n"@ + theme_css_text(o.theme) + "\n</style>\n"@,
        ),
        !o.style ==> style_block(o).len() == 0,
        !o.standalone ==> page(html, events, o) == body_text(html, events, o),
{
    if o.standalone {
        let p = page(html, events, o);
        let title = escaped(title_text(o, first_h1(raw_headings(events))));
        let body = body_text(html, events, o);
        let style = style_block(o);
        assert(p.take(DOC_HEAD@.len() as int) =~= DOC_HEAD@);
        let before_body = DOC_HEAD@ + title + DOC_TITLE_END@ + style + DOC_BODY_OPEN@;
        assert(p =~= before_body + body + DOC_TAIL@);
        lemma_run_in_middle(before_body, body, DOC_TAIL@);
        let before_style = DOC_HEAD@ + title + DOC_TITLE_END@;
        let after_style = DOC_BODY_OPEN@ + body + DOC_TAIL@;
        assert(p =~= before_style + style + after_style);
        lemma_run_in_middle(before_style, style, after_style);
    }
}

/// Table-of-contents links point at heading ids: when the HTML gives each
/// heading the id comrak derives for it and the headings' comrak anchors
/// hold no character HTML escaping replaces (both of which `render` has from
/// comrak, for every Markdown), the page holds, for every heading the table
/// of contents lists, both the link to `#` + its slug and an element with
/// `id=` + that same slug.
pub proof fn law_toc_links_target_heading_ids(
    html: Seq<char>,
    events: Seq<DocEventView>,
    o: RenderOptions,
    i: int,
)
    requires
        o.toc,
        has_heading_ids(html, events),
        anchors_free(raw_headings(events)),
        0 <= i < toc_listing(events, o).len(),
    ensures
        contains_run(
            page(html, events, o),
            "\"><a href=\"#"@ + toc_listing(events, o)[i].slug + "\">"@,
        ),
        contains_run(page(html, events, o), "id=\""@ + toc_listing(events, o)[i].slug + "\""@),
{
    let listing = toc_listing(events, o);
    let slug = listing[i].slug;
    let p = page(html, events, o);
    let body = body_text(html, events, o);
    lemma_toc_slugs_are_heading_ids(html, events, o);
    assert(contains_run(html, "id=\""@ + listing[i].slug + "\""@));
    assert(markup_free(listing[i].slug));
    lemma_escaped_markup_free(slug);
    law_toc_links_to_every_slug(listing, i);
    assert(body == toc_html(listing) + html);
    lemma_run_in_middle(Seq::empty(), toc_html(listing), html);
    assert(Seq::<char>::empty() + toc_html(listing) + html =~= body);
    lemma_run_in_middle(toc_html(listing), html, Seq::empty());
    assert(toc_html(listing) + html + Seq::<char>::empty() =~= body);
    law_page_shape(html, events, o);
    if o.standalone {
        lemma_run_trans(p, body, toc_html(listing));
        lemma_run_trans(p, body, html);
    }
    lemma_run_trans(p, toc_html(listing), "\"><a href=\"#"@ + slug + "\">"@);
    lemma_run_trans(p, html, "id=\""@ + slug + "\""@);
}

// ---------------------------------------------------------------------------
// The stylesheet.
// ---------------------------------------------------------------------------

/// The stylesheets share one structural base: each theme's is its palette
/// followed by that base, the automatic one carrying the dark palette inside
/// a `prefers-color-scheme: dark` media query. The light palette sets the
/// background `#ffffff` and never mentions `#0d1117`; the dark palette sets
/// `#0d1117` and never mentions `#ffffff`.
pub proof fn law_theme_css_structure()
    ensures
        theme_css_text(Theme::Light) == LIGHT_VARS@ + BASE_CSS@,
        theme_css_text(Theme::Dark) == DARK_VARS@ + BASE_CSS@,
        theme_css_text(Theme::Auto) == LIGHT_VARS@ + "@media (prefers-color-scheme: dark) {\n"@
            + DARK_VARS@ + "}\n"@ + BASE_CSS@,
        contains_run(LIGHT_VARS@, "--bg: #ffffff;"@),
        contains_run(DARK_VARS@, "--bg: #0d1117;"@),
        !contains_run(LIGHT_VARS@, "#0d1117"@),
        !contains_run(DARK_VARS@, "#ffffff"@),
{
    reveal_strlit(r#":root {
  --bg: #ffffff;
  --fg: #1f2328;
  --muted: #59636e;
  --border: #d1d9e0;
  --link: #0969da;
  --code-bg: #f6f8fa;
  --stripe: #f6f8fa;
}
"#);
    reveal_strlit(r#":root {
  --bg: #0d1117;
  --fg: #e6edf3;
  --muted: #9198a1;
  --border: #30363d;
  --link: #4493f8;
  --code-bg: #161b22;
  --stripe: #161b22;
}
"#);
    reveal_strlit("--bg: #ffffff;");
    reveal_strlit("--bg: #0d1117;");
    reveal_strlit("#0d1117");
    reveal_strlit("#ffffff");
    let l = LIGHT_VARS@;
    let d = DARK_VARS@;
    assert(l.skip(10).take(14) =~= "--bg: #ffffff;"@);
    assert(d.skip(10).take(14) =~= "--bg: #0d1117;"@);
    assert forall|k: int| 0 <= k < l.len() implies l[k] != '7' by {}
    assert forall|i: int| 0 <= i && i + 7 <= l.len() implies #[trigger] l.skip(i).take(7) != "#0d1117"@ by {
        assert(l.skip(i).take(7)[6] == l[i + 6]);
    }
    assert forall|k: int| 0 <= k < d.len() - 1 implies !(#[trigger] d[k] == 'f' && d[k + 1] == 'f') by {}
    assert forall|i: int| 0 <= i && i + 7 <= d.len() implies #[trigger] d.skip(i).take(7) != "#ffffff"@ by {
        assert(d.skip(i).take(7)[1] == d[i + 1]);
        assert(d.skip(i).take(7)[2] == d[i + 2]);
    }
}

/// A standalone page is the fragment, for the same table-of-contents
/// settings, wrapped in the document: head, escaped title, style block, the
/// fragment, tail.
pub proof fn law_standalone_wraps_fragment(
    html: Seq<char>,
    events: Seq<DocEventView>,
    o: RenderOptions,
    f: RenderOptions,
)
    requires
        o.standalone,
        !f.standalone,
        f.toc == o.toc,
        f.toc_depth == o.toc_depth,
    ensures
        page(html, events, o) == DOC_HEAD@ + escaped(title_text(o, first_h1(raw_headings(events))))
            + DOC_TITLE_END@ + style_block(o) + DOC_BODY_OPEN@ + page(html, events, f) + DOC_TAIL@,
{
    assert(toc_listing(events, o) == toc_listing(events, f));
    assert(body_text(html, events, o) == body_text(html, events, f));
}

// ---------------------------------------------------------------------------
// Themes.
// ---------------------------------------------------------------------------

proof fn lemma_trim_start_prefix(pre: Seq<char>, x: Seq<char>)
    requires
        forall|k: int| 0 <= k < pre.len() ==> is_unicode_whitespace(#[trigger] pre[k]),
        x.len() > 0,
        !is_unicode_whitespace(x[0]),
    ensures
        trim_start(pre + x) == x,
    decreases pre.len(),
{
    if pre.len() == 0 {
        assert(pre + x =~= x);
    } else {
        assert((pre + x).drop_first() =~= pre.drop_first() + x);
        lemma_trim_start_prefix(pre.drop_first(), x);
    }
}

proof fn lemma_trim_end_suffix(x: Seq<char>, post: Seq<char>)
    requires
        forall|k: int| 0 <= k < post.len() ==> is_unicode_whitespace(#[trigger] post[k]),
        x.len() > 0,
        !is_unicode_whitespace(x.last()),
    ensures
        trim_end(x + post) == x,
    decreases post.len(),
{
    if post.len() == 0 {
        assert(x + post =~= x);
    } else {
        assert((x + post).drop_last() =~= x + post.drop_last());
        lemma_trim_end_suffix(x, post.drop_last());
    }
}

/// The lowercase name of a theme.
pub open spec fn theme_key(t: Theme) -> Seq<char> {
    match t {
        Theme::Light => "light"@,
        Theme::Dark => "dark"@,
        Theme::Auto => "auto"@,
    }
}

/// Theme names round-trip: a theme's name, in any mix of ASCII cases and
/// padded with whitespace on either side, parses back to that theme.
pub proof fn law_theme_name_round_trip(t: Theme, pre: Seq<char>, name: Seq<char>, post: Seq<char>)
    requires
        forall|k: int| 0 <= k < pre.len() ==> is_unicode_whitespace(#[trigger] pre[k]),
        forall|k: int| 0 <= k < post.len() ==> is_unicode_whitespace(#[trigger] post[k]),
        ascii_lower(name) == theme_key(t),
    ensures
        theme_named(pre + name + post) == Some(t),
{
    reveal_strlit("light");
    reveal_strlit("dark");
    reveal_strlit("auto");
    let key = theme_key(t);
    assert(name.len() == key.len());
    assert(ascii_lower(name)[0] == ascii_lower_char(name[0]));
    assert(ascii_lower(name)[name.len() - 1] == ascii_lower_char(name.last()));
    assert(!is_unicode_whitespace(name[0])) by {
        if 'A' <= name[0] && name[0] <= 'Z' {
        }
    }
    assert(!is_unicode_whitespace(name.last())) by {
        if 'A' <= name.last() && name.last() <= 'Z' {
        }
    }
    lemma_trim_start_prefix(pre, name + post);
    assert(pre + name + post =~= pre + (name + post));
    assert((name + post)[0] == name[0]);
    lemma_trim_end_suffix(name, post);
    assert(trimmed(pre + name + post) == name);
}

/// Theme names are read case-insensitively (for ASCII letters) and without
/// regard to surrounding whitespace.
pub proof fn law_theme_names_ignore_case(s: Seq<char>, t: Seq<char>)
    requires
        ascii_lower(trimmed(s)) == ascii_lower(trimmed(t)),
    ensures
        theme_named(s) == theme_named(t),
{
}

// ---------------------------------------------------------------------------
// The inferred title.
// ---------------------------------------------------------------------------

/// A level-1 heading whose trimmed text is not empty: one that can give the
/// document its title.
pub open spec fn is_title_heading(r: (u8, Seq<char>)) -> bool {
    r.0 == 1 && trimmed(r.1).len() > 0
}

/// The inferred title is the earliest level-1 heading with non-empty text:
/// when there is one, the title is its trimmed text and no heading before it
/// qualifies; when there is none, there is no inferred title.
pub proof fn law_title_is_first_h1(raw: Seq<(u8, Seq<char>)>)
    ensures
        first_h1(raw) is None <==> forall|j: int|
            0 <= j < raw.len() ==> !is_title_heading(#[trigger] raw[j]),
        first_h1(raw) is Some ==> exists|i: int|
            0 <= i < raw.len() && is_title_heading(#[trigger] raw[i]) && first_h1(raw)
                == Some(trimmed(raw[i].1)) && forall|j: int|
                0 <= j < i ==> !is_title_heading(#[trigger] raw[j]),
    decreases raw.len(),
{
    if raw.len() > 0 {
        let prev = raw.drop_last();
        law_title_is_first_h1(prev);
        assert(forall|j: int| 0 <= j < prev.len() ==> prev[j] == raw[j]);
        if first_h1(prev) is Some {
            let i = choose|i: int|
                0 <= i < prev.len() && is_title_heading(#[trigger] prev[i]) && first_h1(prev)
                    == Some(trimmed(prev[i].1)) && forall|j: int|
                    0 <= j < i ==> !is_title_heading(#[trigger] prev[j]);
            assert(raw[i] == prev[i]);
            assert forall|j: int| 0 <= j < i implies !is_title_heading(#[trigger] raw[j]) by {
                assert(raw[j] == prev[j]);
            }
        } else {
            let n = raw.len() - 1;
            assert(raw.last() == raw[n]);
            if is_title_heading(raw[n]) {
                assert forall|j: int| 0 <= j < n implies !is_title_heading(#[trigger] raw[j]) by {
                    assert(raw[j] == prev[j]);
                }
            } else {
                assert forall|j: int| 0 <= j < raw.len() implies !is_title_heading(
                    #[trigger] raw[j],
                ) by {
                    if j < n {
                        assert(raw[j] == prev[j]);
                    }
                }
            }
        }
    }
}

/// A later heading never changes an inferred title.
pub proof fn law_title_is_kept(raw: Seq<(u8, Seq<char>)>, r: (u8, Seq<char>))
    requires
        first_h1(raw) is Some,
    ensures
        first_h1(raw.push(r)) == first_h1(raw),
{
    assert(raw.push(r).drop_last() =~= raw);
}

} // verus!
