//! Heading anchors: GitHub-style slugs and their disambiguation.

use vstd::prelude::*;

use crate::text::{
    chars_of, decimal, digit_char, is_alphanumeric, lemma_map_concat_step, lowercase, map_concat,
    push_char, push_decimal, push_lowercase, char_is_alphanumeric, is_markup_char, markup_free,
};

verus! {

/// What one character of a heading contributes to its slug: Unicode
/// alphanumerics and `_` are lowercased, a space or `-` becomes `-`, and every
/// other character (tabs and punctuation among them) is dropped.
pub open spec fn slug_piece(c: char) -> Seq<char> {
    if is_alphanumeric(c) || c == '_' {
        lowercase(c)
    } else if c == ' ' || c == '-' {
        seq!['-']
    } else {
        Seq::empty()
    }
}

/// The slug of a heading text: its characters rewritten one by one, with no
/// collapsing of dashes and no trimming.
pub open spec fn slug_of(text: Seq<char>) -> Seq<char> {
    map_concat(text, |c: char| slug_piece(c))
}

/// Slugify a single heading's text, GitHub style.
///
/// For each character: Unicode alphanumerics and `_` are kept, lowercased;
/// a space or `-` becomes `-`; everything else (tabs, punctuation) is
/// dropped. Consecutive dashes are not collapsed and nothing is trimmed.
pub fn slugify(text: &str) -> (res: String)
    ensures
        res@ == slug_of(text@),
{
    let chars = chars_of(text);
    let mut out = String::new();
    for i in 0..chars.len()
        invariant
            out@ == slug_of(chars@.take(i as int)),
    {
        let ch = chars[i];
        proof {
            lemma_map_concat_step(chars@, i as int, |c: char| slug_piece(c));
        }
        if char_is_alphanumeric(ch) || ch == '_' {
            push_lowercase(&mut out, ch);
        } else if ch == ' ' || ch == '-' {
            push_char(&mut out, '-');
        }
    }
    assert(chars@.take(chars@.len() as int) =~= chars@);
    out
}

/// The `k`-th candidate anchor for a base slug: the base itself, then the
/// base followed by `-1`, `-2`, ….
pub open spec fn slug_candidate(base: Seq<char>, k: nat) -> Seq<char> {
    if k == 0 {
        base
    } else {
        base + seq!['-'] + decimal(k)
    }
}

/// `k` is the index of the first candidate for `base` that is not among
/// `taken`.
pub open spec fn is_first_free(base: Seq<char>, taken: Seq<Seq<char>>, k: nat) -> bool {
    &&& !taken.contains(slug_candidate(base, k))
    &&& forall|j: nat| j < k ==> taken.contains(#[trigger] slug_candidate(base, j))
}

/// The anchor handed out for `base` when the anchors `taken` are already in
/// use: the first of `base`, `base-1`, `base-2`, … that is not taken.
pub open spec fn fresh_slug(base: Seq<char>, taken: Seq<Seq<char>>) -> Seq<char> {
    slug_candidate(base, choose|k: nat| is_first_free(base, taken, k))
}

/// The anchors handed out, in order, for a sequence of base slugs: each is
/// the first candidate of its base that no earlier anchor took.
pub open spec fn unique_slugs(bases: Seq<Seq<char>>) -> Seq<Seq<char>>
    decreases bases.len(),
{
    if bases.len() == 0 {
        Seq::empty()
    } else {
        let prev = unique_slugs(bases.drop_last());
        prev.push(fresh_slug(bases.last(), prev))
    }
}

/// One anchor per base slug.
pub proof fn lemma_unique_slugs_len(bases: Seq<Seq<char>>)
    ensures
        unique_slugs(bases).len() == bases.len(),
    decreases bases.len(),
{
    if bases.len() > 0 {
        lemma_unique_slugs_len(bases.drop_last());
    }
}

/// The anchors handed out for a prefix of the bases are a prefix of the
/// anchors; the `i`-th anchor is the first free candidate of the `i`-th base
/// given the anchors before it.
pub proof fn lemma_unique_slugs_prefix(bases: Seq<Seq<char>>, i: int)
    requires
        0 <= i < bases.len(),
    ensures
        unique_slugs(bases).len() == bases.len(),
        unique_slugs(bases).take(i) == unique_slugs(bases.take(i)),
        unique_slugs(bases)[i] == fresh_slug(bases[i], unique_slugs(bases).take(i)),
    decreases bases.len(),
{
    let n = bases.len() - 1;
    let prev = unique_slugs(bases.drop_last());
    if i < n {
        lemma_unique_slugs_prefix(bases.drop_last(), i);
        assert(bases.drop_last().take(i) =~= bases.take(i));
        assert(unique_slugs(bases).take(i) =~= prev.take(i));
    } else {
        if n > 0 {
            lemma_unique_slugs_prefix(bases.drop_last(), n - 1);
        }
        assert(bases.take(i) =~= bases.drop_last());
        assert(unique_slugs(bases).take(i) =~= prev);
    }
}

// ---------------------------------------------------------------------------
// Why a free candidate always exists, and is unique.
// ---------------------------------------------------------------------------

proof fn lemma_decimal_len(n: nat)
    ensures
        decimal(n).len() >= 1,
        n < 10 ==> decimal(n).len() == 1,
        n >= 10 ==> decimal(n).len() >= 2,
    decreases n,
{
    if n >= 10 {
        lemma_decimal_len(n / 10);
    }
}

/// Distinct numbers have distinct numerals.
pub proof fn lemma_decimal_injective(a: nat, b: nat)
    requires
        decimal(a) == decimal(b),
    ensures
        a == b,
    decreases a,
{
    lemma_decimal_len(a);
    lemma_decimal_len(b);
    if a < 10 {
        assert(decimal(a)[0] == digit_char(a));
        assert(decimal(b)[0] == digit_char(b));
        assert(digit_char(a) as u32 == 48 + a);
        assert(digit_char(b) as u32 == 48 + b);
    } else {
        assert(decimal(a).last() == digit_char(a % 10));
        assert(decimal(b).last() == digit_char(b % 10));
        assert(digit_char(a % 10) as u32 == 48 + a % 10);
        assert(digit_char(b % 10) as u32 == 48 + b % 10);
        assert(decimal(a).drop_last() =~= decimal(a / 10));
        assert(decimal(b).drop_last() =~= decimal(b / 10));
        lemma_decimal_injective(a / 10, b / 10);
    }
}

/// Distinct indices give distinct candidates.
pub proof fn lemma_candidate_injective(base: Seq<char>, j: nat, k: nat)
    requires
        slug_candidate(base, j) == slug_candidate(base, k),
    ensures
        j == k,
{
    lemma_decimal_len(j);
    lemma_decimal_len(k);
    if j != 0 && k != 0 {
        let n: int = base.len() as int + 1;
        assert(slug_candidate(base, j).skip(n) =~= decimal(j));
        assert(slug_candidate(base, k).skip(n) =~= decimal(k));
        lemma_decimal_injective(j, k);
    }
}

/// The first `m` candidates for `base`, as a set.
spec fn candidate_set(base: Seq<char>, m: nat) -> Set<Seq<char>>
    decreases m,
{
    if m == 0 {
        Set::empty()
    } else {
        candidate_set(base, (m - 1) as nat).insert(slug_candidate(base, (m - 1) as nat))
    }
}

proof fn lemma_candidate_set(base: Seq<char>, m: nat)
    ensures
        candidate_set(base, m).finite(),
        candidate_set(base, m).len() == m,
        forall|x: Seq<char>|
            #[trigger] candidate_set(base, m).contains(x) ==> exists|j: nat|
                j < m && x == slug_candidate(base, j),
    decreases m,
{
    broadcast use vstd::set::group_set_axioms;

    if m > 0 {
        let m1 = (m - 1) as nat;
        lemma_candidate_set(base, m1);
        if candidate_set(base, m1).contains(slug_candidate(base, m1)) {
            let j = choose|j: nat| j < m1 && slug_candidate(base, m1) == slug_candidate(base, j);
            lemma_candidate_injective(base, m1, j);
        }
    }
}

/// If the first `m` candidates for `base` are all taken, there are at least
/// `m` anchors taken.
pub proof fn lemma_taken_prefix_bound(base: Seq<char>, taken: Seq<Seq<char>>, m: nat)
    requires
        forall|j: nat| j < m ==> taken.contains(#[trigger] slug_candidate(base, j)),
    ensures
        m <= taken.len(),
{
    broadcast use vstd::seq_lib::seq_to_set_is_finite;

    lemma_candidate_set(base, m);
    assert forall|x: Seq<char>| #[trigger] candidate_set(base, m).contains(x) implies taken.to_set().contains(x) by {
        let j = choose|j: nat| j < m && x == slug_candidate(base, j);
        assert(taken.contains(slug_candidate(base, j)));
    }
    taken.lemma_cardinality_of_set();
    vstd::set_lib::lemma_len_subset(candidate_set(base, m), taken.to_set());
}

proof fn lemma_first_free_below(base: Seq<char>, taken: Seq<Seq<char>>, k: nat)
    requires
        !taken.contains(slug_candidate(base, k)),
    ensures
        exists|i: nat| i <= k && is_first_free(base, taken, i),
    decreases k,
{
    if forall|j: nat| j < k ==> taken.contains(#[trigger] slug_candidate(base, j)) {
        assert(is_first_free(base, taken, k));
    } else {
        let j = choose|j: nat| j < k && !taken.contains(#[trigger] slug_candidate(base, j));
        lemma_first_free_below(base, taken, j);
    }
}

/// The first free candidate exists and is the one `fresh_slug` names; it is
/// not among the anchors already taken.
pub proof fn lemma_fresh_slug(base: Seq<char>, taken: Seq<Seq<char>>)
    ensures
        exists|k: nat| is_first_free(base, taken, k) && fresh_slug(base, taken) == slug_candidate(base, k),
        !taken.contains(fresh_slug(base, taken)),
{
    let n = taken.len();
    if forall|j: nat| j < n + 1 ==> taken.contains(#[trigger] slug_candidate(base, j)) {
        lemma_taken_prefix_bound(base, taken, n + 1);
    }
    let j = choose|j: nat| j < n + 1 && !taken.contains(#[trigger] slug_candidate(base, j));
    lemma_first_free_below(base, taken, j);
}

/// The digits of a decimal numeral are ASCII digits.
proof fn lemma_decimal_digits(n: nat)
    ensures
        forall|k: int|
            0 <= k < decimal(n).len() ==> 48 <= (#[trigger] decimal(n)[k]) as u32 <= 57,
    decreases n,
{
    if n >= 10 {
        lemma_decimal_digits(n / 10);
        let d = decimal(n / 10);
        assert forall|k: int| 0 <= k < decimal(n).len() implies 48 <= (
        #[trigger] decimal(n)[k]) as u32 <= 57 by {
            if k < d.len() {
                assert(decimal(n)[k] == d[k]);
            } else {
                assert(decimal(n)[k] == digit_char(n % 10));
            }
        }
    }
}

/// Every candidate of a base without markup characters is without markup
/// characters, and so is the anchor handed out for it.
pub proof fn lemma_fresh_slug_markup_free(base: Seq<char>, taken: Seq<Seq<char>>)
    requires
        markup_free(base),
    ensures
        markup_free(fresh_slug(base, taken)),
{
    lemma_fresh_slug(base, taken);
    let k = choose|k: nat| is_first_free(base, taken, k) && fresh_slug(base, taken) == slug_candidate(base, k);
    if k > 0 {
        lemma_decimal_digits(k);
        let c = slug_candidate(base, k);
        let d = decimal(k);
        assert forall|i: int| 0 <= i < c.len() implies !is_markup_char(#[trigger] c[i]) by {
            if i < base.len() {
                assert(c[i] == base[i]);
            } else if i == base.len() {
                assert(c[i] == '-');
            } else {
                assert(c[i] == d[i - base.len() - 1]);
                assert(48 <= d[i - base.len() - 1] as u32 <= 57);
            }
        }
    }
}

/// There is only one first free candidate.
pub proof fn lemma_first_free_unique(base: Seq<char>, taken: Seq<Seq<char>>, a: nat, b: nat)
    requires
        is_first_free(base, taken, a),
        is_first_free(base, taken, b),
    ensures
        a == b,
{
    if a < b {
        assert(taken.contains(slug_candidate(base, a)));
    } else if b < a {
        assert(taken.contains(slug_candidate(base, b)));
    }
}

// ---------------------------------------------------------------------------
// The registry of anchors handed out.
// ---------------------------------------------------------------------------

/// The anchors handed out so far, in order; plays the part of the set of
/// anchors in use.
pub struct SlugRegistry {
    seen: Vec<String>,
}

/// Whether some string of `v` has the characters of `s`.
fn contains_string(v: &Vec<String>, s: &String) -> (res: bool)
    ensures
        res == v@.map_values(|t: String| t@).contains(s@),
{
    let ghost vs = v@.map_values(|t: String| t@);
    let mut i: usize = 0;
    while i < v.len()
        invariant
            i <= v.len(),
            vs == v@.map_values(|t: String| t@),
            forall|j: int| 0 <= j < i ==> vs[j] != s@,
        decreases v.len() - i,
    {
        if v[i] == *s {
            assert(vs[i as int] == s@);
            return true;
        }
        i = i + 1;
    }
    false
}

/// The `k`-th candidate anchor for `base`.
fn candidate(base: &String, k: usize) -> (res: String)
    ensures
        res@ == slug_candidate(base@, k as nat),
{
    let mut out = base.clone();
    if k > 0 {
        push_char(&mut out, '-');
        push_decimal(&mut out, k);
        assert(out@ =~= base@ + seq!['-'] + decimal(k as nat));
    }
    out
}

impl SlugRegistry {
    /// The anchors handed out so far, oldest first.
    pub closed spec fn ids(&self) -> Seq<Seq<char>> {
        self.seen@.map_values(|s: String| s@)
    }

    /// A registry that has handed out no anchor.
    pub fn new() -> (res: SlugRegistry)
        ensures
            res.ids() == Seq::<Seq<char>>::empty(),
    {
        let res = SlugRegistry { seen: Vec::new() };
        assert(res.ids() =~= Seq::<Seq<char>>::empty());
        res
    }

    /// Disambiguate `base` against the anchors handed out so far, as heading
    /// ids are disambiguated: the first of `base`, `base-1`, `base-2`, … that
    /// is not yet in use. The anchor returned is recorded, so no two anchors
    /// handed out by one registry are equal.
    pub fn dedup_slug(&mut self, base: &str) -> (res: String)
        ensures
            res@ == fresh_slug(base@, old(self).ids()),
            !old(self).ids().contains(res@),
            final(self).ids() == old(self).ids().push(res@),
    {
        let key = String::from_str(base);
        let ghost taken = self.ids();
        let mut k: usize = 0;
        let mut cand = candidate(&key, 0);
        while contains_string(&self.seen, &cand)
            invariant
                taken == self.ids(),
                taken.len() == self.seen.len(),
                key@ == base@,
                cand@ == slug_candidate(base@, k as nat),
                k <= taken.len(),
                forall|j: nat| j < k ==> taken.contains(#[trigger] slug_candidate(base@, j)),
            decreases taken.len() - k,
        {
            assert forall|j: nat| j < k + 1 implies taken.contains(
                #[trigger] slug_candidate(base@, j),
            ) by {
                if j == k {
                    assert(taken.contains(cand@));
                }
            }
            proof {
                lemma_taken_prefix_bound(base@, taken, (k + 1) as nat);
            }
            k = k + 1;
            cand = candidate(&key, k);
        }
        proof {
            assert(is_first_free(base@, taken, k as nat));
            lemma_fresh_slug(base@, taken);
            let k2 = choose|k2: nat| is_first_free(base@, taken, k2) && fresh_slug(base@, taken)
                == slug_candidate(base@, k2);
            lemma_first_free_unique(base@, taken, k as nat, k2);
        }
        self.seen.push(cand.clone());
        assert(self.ids() =~= taken.push(cand@));
        cand
    }
}

} // verus!
