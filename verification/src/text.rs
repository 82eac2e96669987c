//! Character and string helpers, each stated over the `Seq<char>` view of
//! its strings.

use vstd::prelude::*;

verus! {

// ---------------------------------------------------------------------------
// Unicode character classes, as std computes them.
// ---------------------------------------------------------------------------

/// Whether `c` has the Unicode `White_Space` property, as
/// `char::is_whitespace` answers: the 25 code points U+0009..U+000D, U+0020,
/// U+0085, U+00A0, U+1680, U+2000..U+200A, U+2028, U+2029, U+202F, U+205F and
/// U+3000.
pub open spec fn is_unicode_whitespace(c: char) -> bool {
    ||| '\t' <= c && c <= '\r'
    ||| c == ' '
    ||| c == '\u{85}'
    ||| c == '\u{a0}'
    ||| c == '\u{1680}'
    ||| '\u{2000}' <= c && c <= '\u{200a}'
    ||| c == '\u{2028}'
    ||| c == '\u{2029}'
    ||| c == '\u{202f}'
    ||| c == '\u{205f}'
    ||| c == '\u{3000}'
}

/// Whether `c` has the Unicode `White_Space` property.
pub(crate) fn char_is_whitespace(c: char) -> (b: bool)
    ensures
        b == is_unicode_whitespace(c),
{
    ('\t' <= c && c <= '\r') || c == ' ' || c == '\u{85}' || c == '\u{a0}' || c == '\u{1680}'
        || ('\u{2000}' <= c && c <= '\u{200a}') || c == '\u{2028}' || c == '\u{2029}' || c
        == '\u{202f}' || c == '\u{205f}' || c == '\u{3000}'
}

/// Whether `c` is an ASCII character.
pub open spec fn is_ascii_char(c: char) -> bool {
    (c as u32) < 128
}

/// Whether `c` is an ASCII letter or digit.
pub open spec fn is_ascii_alphanumeric(c: char) -> bool {
    ('a' <= c && c <= 'z') || ('A' <= c && c <= 'Z') || ('0' <= c && c <= '9')
}

/// Whether a non-ASCII `c` is alphabetic or numeric in Unicode
/// (`char::is_alphanumeric`).
pub uninterp spec fn is_unicode_alphanumeric(c: char) -> bool;

/// The full Unicode lowercase mapping of a non-ASCII `c` (`char::to_lowercase`).
pub uninterp spec fn unicode_lowercase(c: char) -> Seq<char>;

/// Whether `c` is alphabetic or numeric (`char::is_alphanumeric`): among
/// ASCII characters exactly the letters and digits.
pub open spec fn is_alphanumeric(c: char) -> bool {
    if is_ascii_char(c) {
        is_ascii_alphanumeric(c)
    } else {
        is_unicode_alphanumeric(c)
    }
}

/// The lowercase mapping of `c` (`char::to_lowercase`): an ASCII character
/// maps to its ASCII lowercase form.
pub open spec fn lowercase(c: char) -> Seq<char> {
    if is_ascii_char(c) {
        seq![ascii_lower_char(c)]
    } else {
        unicode_lowercase(c)
    }
}

/// Calls `char::is_alphanumeric` on a non-ASCII character. The contract
/// claims only that the answer is a function of `c` alone.
#[verifier::external_body]
fn non_ascii_is_alphanumeric(c: char) -> (b: bool)
    requires
        !is_ascii_char(c),
    ensures
        b == is_unicode_alphanumeric(c),
{
    c.is_alphanumeric()
}

/// Appends the characters yielded by `char::to_lowercase(c)`, for a
/// non-ASCII `c`, to `out`. The contract claims that exactly the lowercase
/// mapping of `c`, a function of `c` alone, is appended and that the old
/// contents are kept.
#[verifier::external_body]
fn push_non_ascii_lowercase(out: &mut String, c: char)
    requires
        !is_ascii_char(c),
    ensures
        final(out)@ == old(out)@ + unicode_lowercase(c),
{
    out.extend(c.to_lowercase());
}

/// Whether `c` is alphabetic or numeric.
pub(crate) fn char_is_alphanumeric(c: char) -> (b: bool)
    ensures
        b == is_alphanumeric(c),
{
    if (c as u32) < 128 {
        ('a' <= c && c <= 'z') || ('A' <= c && c <= 'Z') || ('0' <= c && c <= '9')
    } else {
        non_ascii_is_alphanumeric(c)
    }
}

/// Appends the lowercase mapping of `c` to `out`.
pub(crate) fn push_lowercase(out: &mut String, c: char)
    ensures
        final(out)@ == old(out)@ + lowercase(c),
{
    if (c as u32) < 128 {
        push_char(out, to_ascii_lower_char(c));
        assert(out@ =~= old(out)@ + seq![ascii_lower_char(c)]);
    } else {
        push_non_ascii_lowercase(out, c);
    }
}

/// Appends one character to a string (`String::push`): the contract claims
/// that the new contents are the old ones followed by `c`.
#[verifier::external_body]
pub(crate) fn push_char(s: &mut String, c: char)
    ensures
        final(s)@ == old(s)@.push(c),
{
    s.push(c);
}

// ---------------------------------------------------------------------------
// Character-wise rewriting.
// ---------------------------------------------------------------------------

/// Replace each character `c` of `s` by `f(c)` and concatenate the pieces.
pub open spec fn map_concat(s: Seq<char>, f: spec_fn(char) -> Seq<char>) -> Seq<char>
    decreases s.len(),
{
    if s.len() == 0 {
        Seq::empty()
    } else {
        map_concat(s.drop_last(), f) + f(s.last())
    }
}

/// `map_concat` distributes over concatenation.
pub proof fn lemma_map_concat_append(a: Seq<char>, b: Seq<char>, f: spec_fn(char) -> Seq<char>)
    ensures
        map_concat(a + b, f) == map_concat(a, f) + map_concat(b, f),
    decreases b.len(),
{
    if b.len() == 0 {
        assert(a + b =~= a);
        assert(map_concat(b, f) =~= Seq::<char>::empty());
        assert(map_concat(a, f) + Seq::<char>::empty() =~= map_concat(a, f));
    } else {
        assert((a + b).drop_last() =~= a + b.drop_last());
        assert((a + b).last() == b.last());
        lemma_map_concat_append(a, b.drop_last(), f);
        assert(map_concat(a, f) + map_concat(b.drop_last(), f) + f(b.last()) =~= map_concat(a, f)
            + (map_concat(b.drop_last(), f) + f(b.last())));
    }
}

/// The image of a single character.
pub proof fn lemma_map_concat_single(c: char, f: spec_fn(char) -> Seq<char>)
    ensures
        map_concat(seq![c], f) == f(c),
{
    assert(seq![c].drop_last() =~= Seq::<char>::empty());
    assert(map_concat(Seq::<char>::empty(), f) == Seq::<char>::empty());
    assert(Seq::<char>::empty() + f(c) =~= f(c));
}

/// One step of a left-to-right pass: the image of a one-longer prefix.
pub proof fn lemma_map_concat_step(s: Seq<char>, i: int, f: spec_fn(char) -> Seq<char>)
    requires
        0 <= i < s.len(),
    ensures
        map_concat(s.take(i + 1), f) == map_concat(s.take(i), f) + f(s[i]),
{
    assert(s.take(i + 1).drop_last() =~= s.take(i));
}

/// Whether `part` occurs in `s` as a contiguous run of characters.
pub open spec fn contains_run(s: Seq<char>, part: Seq<char>) -> bool {
    exists|i: int|
        0 <= i && i + part.len() <= s.len() && #[trigger] s.skip(i).take(part.len() as int) == part
}

// ---------------------------------------------------------------------------
// The characters of a string.
// ---------------------------------------------------------------------------

/// The characters of a string slice, in order.
pub(crate) fn chars_of(s: &str) -> (res: Vec<char>)
    ensures
        res@ == s@,
{
    let mut out: Vec<char> = Vec::new();
    for c in it: s.chars()
        invariant
            out@ == it.seq().take(it.index()),
    {
        out.push(c);
    }
    out
}

/// A string holding the characters `chars[from..to]`.
pub(crate) fn string_of(chars: &Vec<char>, from: usize, to: usize) -> (res: String)
    requires
        from <= to <= chars.len(),
    ensures
        res@ == chars@.subrange(from as int, to as int),
{
    let mut out = String::new();
    let mut i = from;
    while i < to
        invariant
            from <= i <= to <= chars.len(),
            out@ == chars@.subrange(from as int, i as int),
        decreases to - i,
    {
        push_char(&mut out, chars[i]);
        assert(chars@.subrange(from as int, i + 1) =~= chars@.subrange(from as int, i as int).push(
            chars@[i as int],
        ));
        i = i + 1;
    }
    out
}

// ---------------------------------------------------------------------------
// Trimming Unicode whitespace (`str::trim`).
// ---------------------------------------------------------------------------

/// `s` without its leading whitespace.
pub open spec fn trim_start(s: Seq<char>) -> Seq<char>
    decreases s.len(),
{
    if s.len() > 0 && is_unicode_whitespace(s[0]) {
        trim_start(s.drop_first())
    } else {
        s
    }
}

/// `s` without its trailing whitespace.
pub open spec fn trim_end(s: Seq<char>) -> Seq<char>
    decreases s.len(),
{
    if s.len() > 0 && is_unicode_whitespace(s.last()) {
        trim_end(s.drop_last())
    } else {
        s
    }
}

/// `s` without leading and trailing Unicode whitespace.
pub open spec fn trimmed(s: Seq<char>) -> Seq<char> {
    trim_end(trim_start(s))
}

/// The characters of `s` with leading and trailing whitespace removed,
/// as `str::trim` removes them.
pub(crate) fn trim_chars(s: &Vec<char>) -> (res: String)
    ensures
        res@ == trimmed(s@),
{
    let len = s.len();
    let mut start: usize = 0;
    assert(s@.skip(0) =~= s@);
    while start < len && char_is_whitespace(s[start])
        invariant
            start <= len == s@.len(),
            trim_start(s@) == trim_start(s@.skip(start as int)),
        decreases len - start,
    {
        assert(s@.skip(start as int).drop_first() =~= s@.skip(start + 1));
        start = start + 1;
    }
    assert(trim_start(s@) == s@.skip(start as int));
    assert(s@.skip(start as int) =~= s@.subrange(start as int, len as int));
    let mut end: usize = len;
    while end > start && char_is_whitespace(s[end - 1])
        invariant
            start <= end <= len == s@.len(),
            trim_end(s@.subrange(start as int, len as int)) == trim_end(
                s@.subrange(start as int, end as int),
            ),
        decreases end,
    {
        assert(s@.subrange(start as int, end as int).drop_last() =~= s@.subrange(
            start as int,
            end - 1,
        ));
        end = end - 1;
    }
    string_of(s, start, end)
}

/// A string with leading and trailing Unicode whitespace removed.
pub(crate) fn trim(s: &str) -> (res: String)
    ensures
        res@ == trimmed(s@),
{
    let chars = chars_of(s);
    trim_chars(&chars)
}

// ---------------------------------------------------------------------------
// ASCII case folding (`str::to_ascii_lowercase`).
// ---------------------------------------------------------------------------

/// `c` with an ASCII uppercase letter mapped to its lowercase letter.
pub open spec fn ascii_lower_char(c: char) -> char {
    if 'A' <= c && c <= 'Z' {
        ((c as u32) + 32) as char
    } else {
        c
    }
}

/// `s` with every ASCII uppercase letter lowered; other characters kept.
pub open spec fn ascii_lower(s: Seq<char>) -> Seq<char> {
    s.map_values(|c: char| ascii_lower_char(c))
}

/// The lowercase form of an ASCII letter, or `c` itself.
pub(crate) fn to_ascii_lower_char(c: char) -> (res: char)
    ensures
        res == ascii_lower_char(c),
{
    if 'A' <= c && c <= 'Z' {
        let b: u8 = c as u8;
        assert(b == c as u32);
        let r: u8 = b + 32;
        r as char
    } else {
        c
    }
}

/// A string with its ASCII uppercase letters lowered.
pub(crate) fn to_ascii_lowercase(s: &str) -> (res: String)
    ensures
        res@ == ascii_lower(s@),
{
    let mut out = String::new();
    for c in it: s.chars()
        invariant
            out@ == ascii_lower(it.seq().take(it.index())),
    {
        let ghost before = it.seq().take(it.index());
        push_char(&mut out, to_ascii_lower_char(c));
        assert(ascii_lower(it.seq().take(it.index() + 1)) =~= ascii_lower(before).push(
            ascii_lower_char(c),
        ));
    }
    out
}

// ---------------------------------------------------------------------------
// HTML escaping.
// ---------------------------------------------------------------------------

/// The HTML escape of one character: the five markup characters become
/// entities, every other character stands for itself.
pub open spec fn escape_char(c: char) -> Seq<char> {
    if c == '&' {
        "&amp;"@
    } else if c == '<' {
        "&lt;"@
    } else if c == '>' {
        "&gt;"@
    } else if c == '"' {
        "&quot;"@
    } else if c == '\'' {
        "&#39;"@
    } else {
        seq![c]
    }
}

/// The HTML escape of a whole text.
pub open spec fn escaped(s: Seq<char>) -> Seq<char> {
    map_concat(s, |c: char| escape_char(c))
}

/// One of the characters HTML escaping replaces.
pub open spec fn is_markup_char(c: char) -> bool {
    c == '&' || c == '<' || c == '>' || c == '"' || c == '\''
}

/// A text without any character HTML escaping replaces.
pub open spec fn markup_free(s: Seq<char>) -> bool {
    forall|k: int| 0 <= k < s.len() ==> !is_markup_char(#[trigger] s[k])
}

/// Escaping leaves a text without markup characters as it is.
pub proof fn lemma_escaped_markup_free(s: Seq<char>)
    requires
        markup_free(s),
    ensures
        escaped(s) == s,
    decreases s.len(),
{
    if s.len() > 0 {
        assert(s.drop_last().len() < s.len());
        assert(markup_free(s.drop_last())) by {
            assert forall|k: int| 0 <= k < s.drop_last().len() implies !is_markup_char(
                #[trigger] s.drop_last()[k],
            ) by {
                assert(s.drop_last()[k] == s[k]);
            }
        }
        lemma_escaped_markup_free(s.drop_last());
        assert(!is_markup_char(s[s.len() - 1]));
        assert(escape_char(s.last()) == seq![s.last()]);
        assert(s.drop_last().push(s.last()) =~= s);
    }
}

/// Escape text for inclusion in HTML element content or attribute values.
pub(crate) fn escape_html(s: &str) -> (res: String)
    ensures
        res@ == escaped(s@),
{
    let chars = chars_of(s);
    let mut out = String::new();
    for i in 0..chars.len()
        invariant
            out@ == escaped(chars@.take(i as int)),
    {
        let c = chars[i];
        proof {
            lemma_map_concat_step(chars@, i as int, |c: char| escape_char(c));
        }
        if c == '&' {
            out.append("&amp;");
        } else if c == '<' {
            out.append("&lt;");
        } else if c == '>' {
            out.append("&gt;");
        } else if c == '"' {
            out.append("&quot;");
        } else if c == '\'' {
            out.append("&#39;");
        } else {
            push_char(&mut out, c);
        }
    }
    assert(chars@.take(chars@.len() as int) =~= chars@);
    out
}

// ---------------------------------------------------------------------------
// Decimal numerals.
// ---------------------------------------------------------------------------

/// The ASCII digit for `d < 10`.
pub open spec fn digit_char(d: nat) -> char {
    (48 + d) as char
}

/// The decimal numeral of `n`, without sign or leading zeros.
pub open spec fn decimal(n: nat) -> Seq<char>
    decreases n,
{
    if n < 10 {
        seq![digit_char(n)]
    } else {
        decimal(n / 10).push(digit_char(n % 10))
    }
}

/// Appends the decimal numeral of `n` to `out`.
pub(crate) fn push_decimal(out: &mut String, n: usize)
    ensures
        final(out)@ == old(out)@ + decimal(n as nat),
    decreases n,
{
    if n >= 10 {
        push_decimal(out, n / 10);
    }
    let d: u8 = (n % 10) as u8;
    let c: char = (48u8 + d) as char;
    assert(c == digit_char((n % 10) as nat));
    push_char(out, c);
    proof {
        if n >= 10 {
            assert(decimal(n as nat) == decimal((n / 10) as nat).push(digit_char((n % 10) as nat)));
        } else {
            assert(decimal(n as nat) == seq![digit_char(n as nat)]);
        }
    }
    assert(out@ =~= old(out)@ + decimal(n as nat));
}

} // verus!
