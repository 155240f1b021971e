//! Two-tier query matching: a literal substring tier, then a token-wise
//! fuzzy tier, both scored by `nucleo_matcher`.

use vstd::prelude::*;
use nucleo_matcher::pattern::{Atom, AtomKind, CaseMatching, Normalization, Pattern};
use nucleo_matcher::Matcher;

verus! {

broadcast use vstd::seq_lib::group_to_multiset_ensures;

/// Running state of `contiguity_score` after reading `s`: the sum of
/// `2 * run - 1` over every position (where `run` is the length of the run
/// of consecutive values ending there), and the length of the last run.
pub open spec fn run_fold(s: Seq<u32>) -> (int, int)
    decreases s.len(),
{
    if s.len() == 0 {
        (0, 0)
    } else {
        let (total, run) = run_fold(s.drop_last());
        let r = if s.len() >= 2 && s.last() as int == s[s.len() - 2] as int + 1 {
            run + 1
        } else {
            1
        };
        (total + 2 * r - 1, r)
    }
}

/// `sum(run_len^2) - total_len` over the runs of consecutive positions: a
/// run of length `n` adds `n^2` because extending a run from `n - 1` to `n`
/// adds `2n - 1`.
pub open spec fn contiguity(s: Seq<u32>) -> int {
    run_fold(s).0 - s.len()
}

/// Rewards matches whose characters land in few, long, contiguous runs.
///
/// `sum(run_len^2) - total_len` over the runs of consecutive positions.
/// Fully scattered matches score 0, so this only ever lifts a row; a run of
/// length `n` contributes `n^2 - n`. `positions` must be sorted ascending.
/// The value saturates at `u32::MAX`.
///
/// For query `seo2`: `seo|2` scores `3^2 + 1^2 - 4 = 6`, while `s|e|o|2`
/// scores `1+1+1+1 - 4 = 0`.
pub fn contiguity_score(positions: &[u32]) -> (r: u32)
    ensures
        contiguity(positions@) >= 0,
        r as int == if contiguity(positions@) > u32::MAX {
            u32::MAX as int
        } else {
            contiguity(positions@)
        },
{
    let n = positions.len();
    let mut total: u128 = 0;
    let mut run: u128 = 0;
    let mut i: usize = 0;
    while i < n
        invariant
            n == positions@.len(),
            i <= n,
            total as int == run_fold(positions@.subrange(0, i as int)).0,
            run as int == run_fold(positions@.subrange(0, i as int)).1,
            run <= i,
            i <= total <= (i as int) * (i as int),
        decreases n - i,
    {
        let p = positions[i];
        let ghost pre = positions@.subrange(0, i as int);
        let ghost cur = positions@.subrange(0, i + 1);
        assert(cur.drop_last() =~= pre);
        assert(cur.last() == p);
        if i > 0 {
            assert(cur[cur.len() - 2] == positions@[i - 1]);
        }
        if i > 0 && positions[i - 1] < u32::MAX && p == positions[i - 1] + 1 {
            run = run + 1;
        } else {
            run = 1;
        }
        proof {
            let ii = i as int;
            assert((ii + 1) * (ii + 1) == ii * ii + 2 * ii + 1) by (nonlinear_arith);
            assert((ii + 1) * (ii + 1) <= 0xffff_ffff_ffff_ffff * 0xffff_ffff_ffff_ffff) by (nonlinear_arith)
                requires
                    0 <= ii + 1 <= 0xffff_ffff_ffff_ffff,
            ;
            assert(0xffff_ffff_ffff_ffffint * 0xffff_ffff_ffff_ffffint < 0x1_0000_0000_0000_0000_0000_0000_0000_0000int) by (nonlinear_arith);
        }
        total = total + 2 * run - 1;
        i += 1;
    }
    assert(positions@.subrange(0, n as int) =~= positions@);
    let c = total - n as u128;
    if c > u32::MAX as u128 {
        u32::MAX
    } else {
        c as u32
    }
}

/// One row that matched the query.
#[derive(Clone, Copy, PartialEq, Eq, Debug, Structural)]
pub struct FuzzyMatch {
    /// Index into the `items` slice passed to `filter`.
    pub idx: usize,
    /// Raw match quality.
    pub score: u32,
    /// True when the query occurs as a literal substring.
    pub is_substring: bool,
    /// `contiguity_score` of the matched positions. Always 0 for substring
    /// matches: those are a single run by definition.
    pub contiguity: u32,
}

#[verifier::external_type_specification]
#[verifier::external_body]
pub struct ExMatcher(Matcher);

/// A reusable matcher (its scratch memory is large, so it is kept between
/// queries).
pub struct FuzzyMatcher {
    matcher: Matcher,
}

/// Score of the literal-substring atom for `query` against `item`
/// (smart case, smart normalization), `None` when it does not occur.
pub uninterp spec fn substring_atom_score(query: Seq<char>, item: Seq<char>) -> Option<u16>;

/// Positions the literal-substring atom for `query` matched in `item`.
pub uninterp spec fn substring_atom_indices(query: Seq<char>, item: Seq<char>) -> Option<Seq<u32>>;

/// Score and matched positions of the whitespace-tokenised fuzzy pattern
/// for `query` against `item`: every token must match, in any order.
pub uninterp spec fn token_pattern_indices(query: Seq<char>, item: Seq<char>) -> Option<(u32, Seq<u32>)>;

/// The longest query, in characters, that is handed to nucleo. nucleo
/// adds up a match's score in a `u16`: with the path-matching configuration
/// (no prefix bonus, no character bonus above 9) the first matched
/// character adds at most `16 + 2 * 9 = 34` and every further one at most
/// `16 + 9 = 25`, and an atom matches exactly as many characters as its
/// needle has, which is never more than the query has. A query of this
/// length scores at most `34 + 25 * 2620 = 65534`.
pub const MAX_QUERY_CHARS: usize = 2621;

/// `nucleo_matcher::Matcher::new` with the path-matching configuration.
#[verifier::external_body]
fn new_path_matcher() -> Matcher {
    Matcher::new(nucleo_matcher::Config::DEFAULT.match_paths())
}

/// `Atom::score` for a literal substring atom built by `Atom::new(query,
/// Smart, Smart, Substring, false)`. The score depends only on the query
/// and the item: every `FuzzyMatcher` holds a matcher with the same
/// configuration, and `score` resets the case and normalization settings it
/// reads. nucleo asserts that the item has at most `u32::MAX` characters,
/// and a query longer than `MAX_QUERY_CHARS` could overflow its score.
#[verifier::external_body]
fn atom_substring_score(fm: &mut FuzzyMatcher, query: &str, item: &str) -> (r: Option<u16>)
    requires
        item@.len() <= u32::MAX,
        query@.len() <= MAX_QUERY_CHARS,
    ensures
        r == substring_atom_score(query@, item@),
{
    let atom = Atom::new(query, CaseMatching::Smart, Normalization::Smart, AtomKind::Substring, false);
    let mut buf: Vec<char> = Vec::new();
    atom.score(nucleo_matcher::Utf32Str::new(item, &mut buf), &mut fm.matcher)
}

/// `Atom::indices` for the same literal substring atom, into a fresh
/// vector; the score is dropped. On a miss nucleo pushes nothing. The
/// bounds are those of `atom_substring_score`.
#[verifier::external_body]
fn atom_substring_indices(fm: &mut FuzzyMatcher, query: &str, item: &str) -> (r: Option<Vec<u32>>)
    requires
        item@.len() <= u32::MAX,
        query@.len() <= MAX_QUERY_CHARS,
    ensures
        match r {
            Some(v) => substring_atom_indices(query@, item@) == Some(v@),
            None => substring_atom_indices(query@, item@) is None,
        },
{
    let atom = Atom::new(query, CaseMatching::Smart, Normalization::Smart, AtomKind::Substring, false);
    let mut buf: Vec<char> = Vec::new();
    let mut indices: Vec<u32> = Vec::new();
    atom.indices(nucleo_matcher::Utf32Str::new(item, &mut buf), &mut fm.matcher, &mut indices)?;
    Some(indices)
}

/// `Pattern::indices` for `Pattern::new(query, Smart, Smart, Fuzzy)`, into
/// a fresh vector: the summed score of every token and the positions each
/// token matched (unsorted, possibly repeated). Each token is a part of the
/// query, so `MAX_QUERY_CHARS` keeps its `u16` score from overflowing, and
/// the tokens' sum then fits the `u32` nucleo adds them into.
#[verifier::external_body]
fn pattern_indices(fm: &mut FuzzyMatcher, query: &str, item: &str) -> (r: Option<(u32, Vec<u32>)>)
    requires
        item@.len() <= u32::MAX,
        query@.len() <= MAX_QUERY_CHARS,
    ensures
        match r {
            Some(p) => token_pattern_indices(query@, item@) == Some((p.0, p.1@)),
            None => token_pattern_indices(query@, item@) is None,
        },
{
    let pattern = Pattern::new(query, CaseMatching::Smart, Normalization::Smart, AtomKind::Fuzzy);
    let mut buf: Vec<char> = Vec::new();
    let mut indices: Vec<u32> = Vec::new();
    let score = pattern.indices(nucleo_matcher::Utf32Str::new(item, &mut buf), &mut fm.matcher, &mut indices)?;
    Some((score, indices))
}

/// Strictly increasing.
pub open spec fn strictly_increasing(s: Seq<u32>) -> bool {
    forall|i: int, j: int| 0 <= i < j < s.len() ==> s[i] < s[j]
}

/// `a` and `b` hold the same values.
pub open spec fn same_values(a: Seq<u32>, b: Seq<u32>) -> bool {
    forall|x: u32| a.contains(x) <==> b.contains(x)
}

/// The distinct values of `s` in ascending order (what `sort_unstable`
/// followed by `dedup` leaves).
pub open spec fn sorted_unique(s: Seq<u32>) -> Seq<u32> {
    choose|r: Seq<u32>| strictly_increasing(r) && same_values(r, s)
}

proof fn lemma_sorted_unique_unique(a: Seq<u32>, b: Seq<u32>)
    requires
        strictly_increasing(a),
        strictly_increasing(b),
        same_values(a, b),
    ensures
        a == b,
    decreases a.len(),
{
    if a.len() == 0 {
        if b.len() > 0 {
            assert(b.contains(b[0]));
        }
    } else if b.len() == 0 {
        assert(a.contains(a[0]));
    } else {
        assert(a.contains(a[0]));
        assert(b.contains(b[0]));
        let ja = choose|j: int| 0 <= j < b.len() && b[j] == a[0];
        let jb = choose|j: int| 0 <= j < a.len() && a[j] == b[0];
        assert(a[0] == b[0]) by {
            if ja > 0 {
                assert(b[0] < b[ja]);
            }
            if jb > 0 {
                assert(a[0] < a[jb]);
            }
        }
        let ta = a.drop_first();
        let tb = b.drop_first();
        assert forall|x: u32| ta.contains(x) <==> tb.contains(x) by {
            if ta.contains(x) {
                let k = choose|k: int| 0 <= k < ta.len() && ta[k] == x;
                assert(a[k + 1] == x);
                assert(a.contains(x));
                let m = choose|m: int| 0 <= m < b.len() && b[m] == x;
                assert(m != 0);
                assert(tb[m - 1] == x);
            }
            if tb.contains(x) {
                let k = choose|k: int| 0 <= k < tb.len() && tb[k] == x;
                assert(b[k + 1] == x);
                assert(b.contains(x));
                let m = choose|m: int| 0 <= m < a.len() && a[m] == x;
                assert(m != 0);
                assert(ta[m - 1] == x);
            }
        }
        lemma_sorted_unique_unique(ta, tb);
        assert(a =~= seq![a[0]] + ta);
        assert(b =~= seq![b[0]] + tb);
    }
}

/// The distinct values of `v`, ascending.
fn sort_dedup(v: &Vec<u32>) -> (r: Vec<u32>)
    ensures
        r@ == sorted_unique(v@),
{
    let mut r: Vec<u32> = Vec::new();
    let mut i: usize = 0;
    while i < v.len()
        invariant
            i <= v.len(),
            strictly_increasing(r@),
            same_values(r@, v@.subrange(0, i as int)),
        decreases v.len() - i,
    {
        let x = v[i];
        let mut j: usize = 0;
        while j < r.len() && r[j] < x
            invariant
                j <= r.len(),
                forall|m: int| 0 <= m < j ==> r@[m] < x,
            decreases r.len() - j,
        {
            j += 1;
        }
        let ghost old_r = r@;
        let ghost pre = v@.subrange(0, i as int);
        assert(v@.subrange(0, i + 1) =~= pre.push(x));
        if j < r.len() && r[j] == x {
            assert forall|y: u32| r@.contains(y) <==> pre.push(x).contains(y) by {
                if pre.push(x).contains(y) && y != x {
                    let k = choose|k: int| 0 <= k < pre.push(x).len() && pre.push(x)[k] == y;
                    assert(pre.contains(y));
                }
                if r@.contains(y) {
                    assert(pre.contains(y));
                    let k = choose|k: int| 0 <= k < pre.len() && pre[k] == y;
                    assert(pre.push(x)[k] == y);
                }
            }
        } else {
            r.insert(j, x);
            assert(r@ == old_r.insert(j as int, x));
            assert forall|a: int, b: int| 0 <= a < b < r@.len() implies r@[a] < r@[b] by {
                if b < j {
                } else if b == j {
                } else if a < j {
                    assert(r@[b] == old_r[b - 1]);
                    assert(old_r[j as int] >= x);
                    assert(old_r[j as int] != x);
                    if b - 1 > j {
                        assert(old_r[j as int] < old_r[b - 1]);
                    }
                } else if a == j {
                    assert(r@[b] == old_r[b - 1]);
                    assert(old_r[j as int] > x);
                    if b - 1 > j {
                        assert(old_r[j as int] < old_r[b - 1]);
                    }
                } else {
                    assert(r@[a] == old_r[a - 1]);
                    assert(r@[b] == old_r[b - 1]);
                }
            }
            assert forall|y: u32| r@.contains(y) <==> pre.push(x).contains(y) by {
                if r@.contains(y) {
                    let k = choose|k: int| 0 <= k < r@.len() && r@[k] == y;
                    if k == j {
                        assert(pre.push(x)[i as int] == y);
                    } else {
                        if k < j {
                            assert(old_r[k] == y);
                        } else {
                            assert(old_r[k - 1] == y);
                        }
                        assert(old_r.contains(y));
                        assert(pre.contains(y));
                        let m = choose|m: int| 0 <= m < pre.len() && pre[m] == y;
                        assert(pre.push(x)[m] == y);
                    }
                }
                if pre.push(x).contains(y) {
                    let k = choose|k: int| 0 <= k < pre.push(x).len() && pre.push(x)[k] == y;
                    if k == i {
                        assert(r@[j as int] == y);
                    } else {
                        assert(pre[k] == y);
                        assert(pre.contains(y));
                        assert(old_r.contains(y));
                        let m = choose|m: int| 0 <= m < old_r.len() && old_r[m] == y;
                        if m < j {
                            assert(r@[m] == y);
                        } else {
                            assert(r@[m + 1] == y);
                        }
                    }
                }
            }
        }
        i += 1;
    }
    assert(v@.subrange(0, v@.len() as int) =~= v@);
    proof {
        let c = sorted_unique(v@);
        assert(exists|s: Seq<u32>| strictly_increasing(s) && same_values(s, v@));
        lemma_sorted_unique_unique(r@, c);
    }
    r
}

/// What `filter` makes of one item: a substring-tier match, else a
/// fuzzy-tier match with the contiguity of its distinct positions, else no
/// match.
pub open spec fn tier_match(query: Seq<char>, item: Seq<char>, idx: int) -> Option<FuzzyMatch> {
    match substring_atom_score(query, item) {
        Some(s) => Some(
            FuzzyMatch { idx: idx as usize, score: s as u32, is_substring: true, contiguity: 0 },
        ),
        None => match token_pattern_indices(query, item) {
            Some(p) => Some(
                FuzzyMatch {
                    idx: idx as usize,
                    score: p.0,
                    is_substring: false,
                    contiguity: if contiguity(sorted_unique(p.1)) > u32::MAX {
                        u32::MAX
                    } else {
                        contiguity(sorted_unique(p.1)) as u32
                    },
                },
            ),
            None => None,
        },
    }
}

/// The matches of `items` in item order.
pub open spec fn tier_matches(query: Seq<char>, items: Seq<Seq<char>>) -> Seq<FuzzyMatch>
    decreases items.len(),
{
    if items.len() == 0 {
        seq![]
    } else {
        let prev = tier_matches(query, items.drop_last());
        match tier_match(query, items.last(), items.len() - 1) {
            Some(m) => prev.push(m),
            None => prev,
        }
    }
}

/// The matches come in item order, each carrying its own item's index.
pub(crate) proof fn lemma_tier_matches_in_order(query: Seq<char>, items: Seq<Seq<char>>)
    requires
        items.len() <= usize::MAX,
    ensures
        forall|i: int|
            0 <= i < tier_matches(query, items).len() ==> (#[trigger] tier_matches(query, items)[i]).idx < items.len(),
        forall|i: int, j: int|
            0 <= i < j < tier_matches(query, items).len() ==> (#[trigger] tier_matches(query, items)[i]).idx
                < (#[trigger] tier_matches(query, items)[j]).idx,
    decreases items.len(),
{
    if items.len() > 0 {
        let prev = tier_matches(query, items.drop_last());
        let r = tier_matches(query, items);
        lemma_tier_matches_in_order(query, items.drop_last());
        match tier_match(query, items.last(), items.len() - 1) {
            Some(m) => {
                assert(m.idx == items.len() - 1);
                assert(r == prev.push(m));
                assert forall|i: int| 0 <= i < r.len() implies (#[trigger] r[i]).idx < items.len() by {
                    if i < prev.len() {
                        assert(r[i] == prev[i]);
                    }
                }
                assert forall|i: int, j: int| 0 <= i < j < r.len() implies (#[trigger] r[i]).idx < (#[trigger] r[j]).idx by {
                    assert(r[i] == prev[i]);
                    if j < prev.len() {
                        assert(r[j] == prev[j]);
                    }
                }
            },
            None => {
                assert(r == prev);
            },
        }
    }
}

/// Higher score first; equal scores keep item order.
pub open spec fn match_ordered(a: FuzzyMatch, b: FuzzyMatch) -> bool {
    a.score > b.score || (a.score == b.score && a.idx < b.idx)
}

/// `s` is sorted by score, descending, equal scores in item order.
pub open spec fn sorted_by_score(s: Seq<FuzzyMatch>) -> bool {
    forall|i: int, j: int| 0 <= i < j < s.len() ==> match_ordered(#[trigger] s[i], #[trigger] s[j])
}

/// The views of a slice of strings.
pub open spec fn texts(items: Seq<String>) -> Seq<Seq<char>> {
    items.map_values(|s: String| s@)
}

/// Every item fits the matcher's `u32` character positions.
pub open spec fn items_fit(items: Seq<String>) -> bool {
    forall|i: int| 0 <= i < items.len() ==> (#[trigger] items[i])@.len() <= u32::MAX
}

/// Insert `m` into `r`, keeping `sorted_by_score`; `m` comes after every
/// element of equal score already present.
fn insert_by_score(r: &mut Vec<FuzzyMatch>, m: FuzzyMatch)
    requires
        sorted_by_score(old(r)@),
        forall|k: int| 0 <= k < old(r)@.len() ==> (#[trigger] old(r)@[k]).idx < m.idx,
    ensures
        sorted_by_score(final(r)@),
        final(r)@.to_multiset() == old(r)@.to_multiset().insert(m),
        final(r)@.len() == old(r)@.len() + 1,
        forall|k: int|
            0 <= k < final(r)@.len() ==> (#[trigger] final(r)@[k]) == m || old(r)@.contains(
                final(r)@[k],
            ),
{
    let mut j: usize = 0;
    while j < r.len() && r[j].score >= m.score
        invariant
            j <= r.len(),
            forall|k: int| 0 <= k < j ==> match_ordered(#[trigger] r@[k], m),
            forall|k: int| 0 <= k < r@.len() ==> (#[trigger] r@[k]).idx < m.idx,
        decreases r.len() - j,
    {
        j += 1;
    }
    let ghost old_r = r@;
    r.insert(j, m);
    proof {
        assert(r@ == old_r.insert(j as int, m));
        assert forall|a: int, b: int| 0 <= a < b < r@.len() implies match_ordered(
            #[trigger] r@[a],
            #[trigger] r@[b],
        ) by {
            if b < j {
            } else if b == j {
            } else if a < j {
                assert(r@[b] == old_r[b - 1]);
                if b - 1 > j {
                    assert(match_ordered(old_r[j as int], old_r[b - 1]));
                }
            } else if a == j {
                assert(r@[b] == old_r[b - 1]);
                assert(old_r[j as int].score < m.score);
                if b - 1 > j {
                    assert(match_ordered(old_r[j as int], old_r[b - 1]));
                }
            } else {
                assert(r@[a] == old_r[a - 1]);
                assert(r@[b] == old_r[b - 1]);
            }
        }
        assert forall|k: int| 0 <= k < r@.len() implies (#[trigger] r@[k]) == m || old_r.contains(
            r@[k],
        ) by {
            if k < j {
                assert(r@[k] == old_r[k]);
            } else if k > j {
                assert(r@[k] == old_r[k - 1]);
            }
        }
    }
}

/// The positions a query matched in an item: those of the substring tier
/// where the query occurs literally, else those of the token tier, else
/// none.
pub open spec fn matched_positions(query: Seq<char>, item: Seq<char>) -> Seq<u32> {
    match substring_atom_indices(query, item) {
        Some(v) => v,
        None => match token_pattern_indices(query, item) {
            Some(p) => p.1,
            None => seq![],
        },
    }
}

impl FuzzyMatcher {
    /// A matcher with nucleo's path-matching configuration. Its only state
    /// is nucleo's opaque matcher (configuration and scratch memory); the
    /// results of `filter` and `match_positions` do not depend on which
    /// `FuzzyMatcher` computes them, so there is nothing about the value
    /// to state.
    pub fn new() -> Self {
        FuzzyMatcher { matcher: new_path_matcher() }
    }

    /// One item's match against a non-empty query.
    fn match_one(&mut self, query: &str, item: &str, idx: usize) -> (r: Option<FuzzyMatch>)
        requires
            item@.len() <= u32::MAX,
            query@.len() <= MAX_QUERY_CHARS,
        ensures
            r == tier_match(query@, item@, idx as int),
    {
        match atom_substring_score(self, query, item) {
            Some(score) => Some(
                FuzzyMatch { idx, score: score as u32, is_substring: true, contiguity: 0 },
            ),
            None => match pattern_indices(self, query, item) {
                Some(p) => {
                    let d = sort_dedup(&p.1);
                    Some(
                        FuzzyMatch {
                            idx,
                            score: p.0,
                            is_substring: false,
                            contiguity: contiguity_score(d.as_slice()),
                        },
                    )
                },
                None => None,
            },
        }
    }

    /// Returns items that match the query, sorted by match quality
    /// (descending, ties in item order). If the query is empty, returns every
    /// index in order with score 0.
    ///
    /// Two tiers: an item in which the query occurs literally (spaces
    /// included) is a substring match; otherwise every whitespace-separated
    /// token must match fuzzily, in any order.
    pub fn filter(&mut self, query: &str, items: &[String]) -> (r: Vec<FuzzyMatch>)
        requires
            items_fit(items@),
            query@.len() <= MAX_QUERY_CHARS,
        ensures
            query@.len() == 0 ==> r@ == Seq::new(
                items@.len(),
                |i: int| FuzzyMatch { idx: i as usize, score: 0, is_substring: false, contiguity: 0 },
            ),
            query@.len() > 0 ==> r@.to_multiset() == tier_matches(query@, texts(items@)).to_multiset()
                && sorted_by_score(r@),
    {
            let mut r: Vec<FuzzyMatch> = Vec::new();
        if query.is_empty() {
            let mut i: usize = 0;
            while i < items.len()
                invariant
                    i <= items@.len(),
                    r@ == Seq::new(
                        i as nat,
                        |k: int| FuzzyMatch { idx: k as usize, score: 0, is_substring: false, contiguity: 0 },
                    ),
                decreases items@.len() - i,
            {
                r.push(FuzzyMatch { idx: i, score: 0, is_substring: false, contiguity: 0 });
                i += 1;
            }
            return r;
        }
        let ghost all = texts(items@);
        let mut i: usize = 0;
        while i < items.len()
            invariant
                i <= items@.len(),
                all == texts(items@),
                items_fit(items@),
                query@.len() <= MAX_QUERY_CHARS,
                sorted_by_score(r@),
                r@.to_multiset() == tier_matches(query@, all.subrange(0, i as int)).to_multiset(),
                forall|k: int| 0 <= k < r@.len() ==> (#[trigger] r@[k]).idx < i,
            decreases items@.len() - i,
        {
            let item = items[i].as_str();
            assert(item@ == all[i as int]);
            assert(all.subrange(0, i + 1).drop_last() =~= all.subrange(0, i as int));
            assert(all.subrange(0, i + 1).last() == all[i as int]);
            let m = self.match_one(query, item, i);
            assert(tier_matches(query@, all.subrange(0, i + 1)) == (match tier_match(query@, all[i as int], i as int) {
                Some(x) => tier_matches(query@, all.subrange(0, i as int)).push(x),
                None => tier_matches(query@, all.subrange(0, i as int)),
            }));
            match m {
                Some(fm) => {
                    let ghost old_r = r@;
                    insert_by_score(&mut r, fm);
                    assert forall|k: int| 0 <= k < r@.len() implies (#[trigger] r@[k]).idx < i + 1 by {
                        if r@[k] != fm {
                            let q = choose|q: int| 0 <= q < old_r.len() && old_r[q] == r@[k];
                        }
                    }
                },
                None => {},
            }
            i += 1;
        }
        assert(all.subrange(0, items@.len() as int) =~= all);
        r
    }

    /// The matched character positions of `item` for `query`, ascending,
    /// from the tier that matched it (the substring tier first); empty for an
    /// empty query or no match.
    pub fn match_positions(&mut self, query: &str, item: &str) -> (r: Vec<u32>)
        requires
            item@.len() <= u32::MAX,
            query@.len() <= MAX_QUERY_CHARS,
        ensures
            query@.len() == 0 ==> r@.len() == 0,
            query@.len() > 0 ==> r@.to_multiset() == matched_positions(query@, item@).to_multiset(),
            query@.len() > 0 ==> forall|a: int, b: int| 0 <= a < b < r@.len() ==> r@[a] <= r@[b],
    {
        if query.is_empty() {
            return Vec::new();
        }
        let raw = match atom_substring_indices(self, query, item) {
            Some(v) => v,
            None => match pattern_indices(self, query, item) {
                Some(p) => p.1,
                None => Vec::new(),
            },
        };
        sort_u32(&raw)
    }
}

/// `v` sorted ascending.
fn sort_u32(v: &Vec<u32>) -> (r: Vec<u32>)
    ensures
        r@.to_multiset() == v@.to_multiset(),
        forall|a: int, b: int| 0 <= a < b < r@.len() ==> r@[a] <= r@[b],
{
    let mut r: Vec<u32> = Vec::new();
    let mut i: usize = 0;
    while i < v.len()
        invariant
            i <= v.len(),
            r@.to_multiset() == v@.subrange(0, i as int).to_multiset(),
            forall|a: int, b: int| 0 <= a < b < r@.len() ==> r@[a] <= r@[b],
        decreases v.len() - i,
    {
        let x = v[i];
        let mut j: usize = 0;
        while j < r.len() && r[j] <= x
            invariant
                j <= r.len(),
                forall|m: int| 0 <= m < j ==> r@[m] <= x,
            decreases r.len() - j,
        {
            j += 1;
        }
        let ghost old_r = r@;
        r.insert(j, x);
        proof {
            assert(v@.subrange(0, i + 1) =~= v@.subrange(0, i as int).push(x));
            assert(r@ == old_r.insert(j as int, x));
            assert forall|a: int, b: int| 0 <= a < b < r@.len() implies r@[a] <= r@[b] by {
                if b < j {
                } else if b == j {
                } else if a < j {
                    assert(r@[b] == old_r[b - 1]);
                    assert(old_r[j as int] <= old_r[b - 1]);
                } else if a == j {
                    assert(r@[b] == old_r[b - 1]);
                    assert(old_r[j as int] <= old_r[b - 1]);
                } else {
                    assert(r@[a] == old_r[a - 1]);
                    assert(r@[b] == old_r[b - 1]);
                }
            }
        }
        i += 1;
    }
    assert(v@.subrange(0, v@.len() as int) =~= v@);
    r
}


/// Positions that form one run of consecutive values.
pub open spec fn one_run(s: Seq<u32>) -> bool {
    forall|i: int| 0 <= i < s.len() - 1 ==> #[trigger] s[i + 1] as int == s[i] as int + 1
}

/// Positions no two of which are adjacent in order.
pub open spec fn scattered(s: Seq<u32>) -> bool {
    forall|i: int| 0 <= i < s.len() - 1 ==> #[trigger] s[i + 1] as int != s[i] as int + 1
}

proof fn lemma_one_run_fold(s: Seq<u32>)
    requires
        one_run(s),
    ensures
        run_fold(s).0 == s.len() * s.len(),
        s.len() > 0 ==> run_fold(s).1 == s.len(),
    decreases s.len(),
{
    if s.len() > 0 {
        let t = s.drop_last();
        assert forall|i: int| 0 <= i < t.len() - 1 implies #[trigger] t[i + 1] as int == t[i] as int + 1 by {
            assert(s[i + 1] as int == s[i] as int + 1);
        }
        lemma_one_run_fold(t);
        let m = t.len() as int;
        if s.len() >= 2 {
            let i = s.len() - 2;
            assert(s[i + 1] as int == s[i] as int + 1);
        }
        assert(m * m + 2 * (m + 1) - 1 == (m + 1) * (m + 1)) by (nonlinear_arith);
    }
}

proof fn lemma_scattered_fold(s: Seq<u32>)
    requires
        scattered(s),
    ensures
        run_fold(s).0 == s.len(),
        s.len() > 0 ==> run_fold(s).1 == 1,
    decreases s.len(),
{
    if s.len() > 0 {
        let t = s.drop_last();
        assert forall|i: int| 0 <= i < t.len() - 1 implies #[trigger] t[i + 1] as int != t[i] as int + 1 by {
            assert(s[i + 1] as int != s[i] as int + 1);
        }
        lemma_scattered_fold(t);
        if s.len() >= 2 {
            let i = s.len() - 2;
            assert(s[i + 1] as int != s[i] as int + 1);
        }
    }
}

/// A match whose positions form one run of `n` consecutive characters
/// scores `n^2 - n`; a fully scattered match scores 0.
pub proof fn law_contiguity_of_runs(s: Seq<u32>)
    ensures
        one_run(s) ==> contiguity(s) == s.len() * s.len() - s.len(),
        scattered(s) ==> contiguity(s) == 0,
{
    if one_run(s) {
        lemma_one_run_fold(s);
    }
    if scattered(s) {
        lemma_scattered_fold(s);
    }
}

} // verus!
