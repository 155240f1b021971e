//! The ranking formula and the type-diversity merge of the unified list.

use vstd::prelude::*;
use vstd::seq_lib::*;
use crate::config::ScoreWeights;
use crate::text::chars_of;
use crate::tui::app::PickerMode;

verus! {

broadcast use vstd::seq_lib::group_to_multiset_ensures;

/// Seconds in a day.
pub const DAY_SECS: i64 = 86400;

/// Seconds in a week.
pub const WEEK_SECS: i64 = 604800;

/// How the query matched a row. `NoQuery` means no query is active.
#[derive(Clone, Copy, PartialEq, Eq, Debug, Structural)]
pub enum MatchKind {
    NoQuery,
    /// Display text starts with the query. Implies Substring: both bonuses apply.
    Prefix,
    /// Query occurs as a contiguous substring.
    Substring,
    /// Query characters occur in order but not contiguously.
    Fuzzy,
}

/// Everything the scorer needs about one row.
///
/// `frecency` and `transition_score` are the frecency and transition terms
/// of the formula: the decayed database scores already multiplied by their
/// configured weights and capped.
pub struct RankInput<'a> {
    pub kind: PickerMode,
    pub display: &'a str,
    /// Frecency term: decayed score times `frecency_weight`, at most `frecency_cap`.
    pub frecency: i32,
    /// Unix timestamp of last use/visit.
    pub last_time: i64,
    pub is_favorite: bool,
    /// True only for Commands rows whose recorded cwd equals the current directory.
    pub cwd_match: bool,
    /// Transition term: decayed transition score from the current directory
    /// times `transition_weight`, at most `transition_cap`. Always 0 for Commands rows.
    pub transition_score: i32,
    pub match_kind: MatchKind,
    /// Raw match quality, 0 when no query is active.
    pub fuzzy_score: u32,
    /// Contiguity of a fuzzy match (see `fuzzy::contiguity_score`).
    pub contiguity: u32,
}

/// The match-quality tier: prefix and substring bonuses stack, the fuzzy
/// penalty stands alone.
pub open spec fn match_term(k: MatchKind, w: ScoreWeights) -> int {
    match k {
        MatchKind::NoQuery => 0,
        MatchKind::Prefix => w.prefix_bonus + w.substring_bonus,
        MatchKind::Substring => w.substring_bonus as int,
        MatchKind::Fuzzy => w.fuzzy_penalty as int,
    }
}

/// Bonus for fuzzy matches whose characters stay together: contiguity
/// times its weight, at most `contiguity_cap`, and (as a float-to-`i32`
/// conversion saturates) never below `i32::MIN`.
pub open spec fn contiguity_term(k: MatchKind, contiguity: int, w: ScoreWeights) -> int {
    if k == MatchKind::Fuzzy && contiguity > 0 {
        let v = contiguity * w.contiguity_weight;
        if v >= w.contiguity_cap {
            w.contiguity_cap as int
        } else if v < i32::MIN {
            i32::MIN as int
        } else {
            v
        }
    } else {
        0
    }
}

/// Recency tiers: mutually exclusive steps by age; a timestamp in the
/// future counts as "just now".
pub open spec fn recency_term(last_time: int, now: int, w: ScoreWeights) -> int {
    let age = if now - last_time > 0 {
        now - last_time
    } else {
        0
    };
    if age < DAY_SECS {
        w.recency_24h_bonus as int
    } else if age < WEEK_SECS {
        w.recency_7d_bonus as int
    } else {
        0
    }
}

/// Brevity bonus: `brevity_bonus_max - 15 * chars`, never below zero.
pub open spec fn brevity_term(chars: int, w: ScoreWeights) -> int {
    let b = w.brevity_bonus_max - 15 * chars;
    if b > 0 {
        b
    } else {
        0
    }
}

/// The base score of a row: every term of the formula except the
/// position-dependent type bonus.
pub open spec fn base_spec(
    kind: MatchKind,
    fuzzy_score: int,
    contiguity: int,
    frecency: int,
    last_time: int,
    now: int,
    cwd_match: bool,
    transition: int,
    chars: int,
    is_favorite: bool,
    w: ScoreWeights,
) -> int {
    match_term(kind, w) + fuzzy_score + contiguity_term(kind, contiguity, w) + frecency
        + recency_term(last_time, now, w) + (if cwd_match {
        w.cwd_bonus as int
    } else {
        0
    }) + transition + brevity_term(chars, w) + (if is_favorite {
        w.favorite_bonus as int
    } else {
        0
    })
}

/// `base_spec` applied to a `RankInput`.
pub open spec fn input_base(input: RankInput, w: ScoreWeights, now: int) -> int {
    base_spec(
        input.match_kind,
        input.fuzzy_score as int,
        input.contiguity as int,
        input.frecency as int,
        input.last_time as int,
        now,
        input.cwd_match,
        input.transition_score as int,
        input.display@.len() as int,
        input.is_favorite,
        w,
    )
}

fn match_points(kind: MatchKind, cfg: &ScoreWeights) -> (r: i64)
    ensures
        r == match_term(kind, *cfg),
        -4294967296 <= r <= 4294967296,
{
    match kind {
        MatchKind::NoQuery => 0,
        MatchKind::Prefix => cfg.prefix_bonus as i64 + cfg.substring_bonus as i64,
        MatchKind::Substring => cfg.substring_bonus as i64,
        MatchKind::Fuzzy => cfg.fuzzy_penalty as i64,
    }
}

fn contiguity_points(kind: MatchKind, contiguity: u32, cfg: &ScoreWeights) -> (r: i64)
    ensures
        r == contiguity_term(kind, contiguity as int, *cfg),
        i32::MIN <= r <= i32::MAX,
{
    if kind == MatchKind::Fuzzy && contiguity > 0 {
        let c = contiguity as i128;
        let wgt = cfg.contiguity_weight as i128;
        assert(-10000000000000000000 <= c * wgt <= 10000000000000000000) by (nonlinear_arith)
            requires
                0 <= c <= 4294967295,
                -2147483648 <= wgt <= 2147483647,
        ;
        let v = c * wgt;
        if v >= cfg.contiguity_cap as i128 {
            cfg.contiguity_cap as i64
        } else if v < i32::MIN as i128 {
            i32::MIN as i64
        } else {
            v as i64
        }
    } else {
        0
    }
}

fn recency_points(last_time: i64, now: i64, cfg: &ScoreWeights) -> (r: i64)
    ensures
        r == recency_term(last_time as int, now as int, *cfg),
        i32::MIN <= r <= i32::MAX,
{
    let age: i128 = if now as i128 - last_time as i128 > 0 {
        now as i128 - last_time as i128
    } else {
        0
    };
    if age < DAY_SECS as i128 {
        cfg.recency_24h_bonus as i64
    } else if age < WEEK_SECS as i128 {
        cfg.recency_7d_bonus as i64
    } else {
        0
    }
}

fn brevity_points(chars: usize, cfg: &ScoreWeights) -> (r: i64)
    ensures
        r == brevity_term(chars as int, *cfg),
        0 <= r <= i32::MAX,
{
    if chars > 1_000_000_000 {
        return 0;
    }
    let b = cfg.brevity_bonus_max as i64 - (chars as i64) * 15;
    if b > 0 {
        b
    } else {
        0
    }
}

/// Score a row on every axis except the position-dependent type bonus,
/// which `interleave` applies afterwards. The sum is computed exactly.
pub fn base_score(input: &RankInput, cfg: &ScoreWeights, now: i64) -> (r: i64)
    ensures
        r == input_base(*input, *cfg, now as int),
        -0x100_0000_0000 <= r <= 0x100_0000_0000,
{
    let m = match_points(input.match_kind, cfg);
    let c = contiguity_points(input.match_kind, input.contiguity, cfg);
    let rec = recency_points(input.last_time, now, cfg);
    let cwd: i64 = if input.cwd_match {
        cfg.cwd_bonus as i64
    } else {
        0
    };
    let len = chars_of(input.display).len();
    let b = brevity_points(len, cfg);
    let fav: i64 = if input.is_favorite {
        cfg.favorite_bonus as i64
    } else {
        0
    };
    m + input.fuzzy_score as i64 + c + input.frecency as i64 + rec + cwd
        + input.transition_score as i64 + b + fav
}

/// A row placed in the ranked list: its index into `rows`, its kind, its
/// base score, and its final score (base plus type bonus).
#[derive(Clone, Copy, PartialEq, Eq, Debug, Structural)]
pub struct Scored {
    pub row_idx: usize,
    pub kind: PickerMode,
    pub base: i64,
    pub score: i64,
}

/// `(sa, ia)` ranks strictly before `(sb, ib)`: higher score first, ties
/// broken by lower row index.
pub open spec fn ranks_before(sa: int, ia: int, sb: int, ib: int) -> bool {
    sa > sb || (sa == sb && ia < ib)
}

/// `a` may precede `b` when ordering by base score.
pub open spec fn base_ordered(a: Scored, b: Scored) -> bool {
    !ranks_before(b.base as int, b.row_idx as int, a.base as int, a.row_idx as int)
}

/// `s` is in base-score order: descending base, ties by ascending row index.
pub open spec fn sorted_by_base(s: Seq<Scored>) -> bool {
    forall|i: int, j: int| 0 <= i < j < s.len() ==> base_ordered(#[trigger] s[i], #[trigger] s[j])
}

/// Every row's final score equals its base score.
pub open spec fn unadjusted(s: Seq<Scored>) -> bool {
    forall|i: int| 0 <= i < s.len() ==> (#[trigger] s[i]).score == s[i].base
}

fn ranks_before_exec(sa: i64, ia: usize, sb: i64, ib: usize) -> (r: bool)
    ensures
        r == ranks_before(sa as int, ia as int, sb as int, ib as int),
{
    sa > sb || (sa == sb && ia < ib)
}

/// Sort rows by base score, descending, ties by ascending row index.
pub fn sort_by_base(v: &Vec<Scored>) -> (r: Vec<Scored>)
    ensures
        r@.to_multiset() == v@.to_multiset(),
        sorted_by_base(r@),
        unadjusted(v@) ==> unadjusted(r@),
        forall|m: int| 0 <= m < r@.len() ==> v@.contains(#[trigger] r@[m]),
{
    let mut r: Vec<Scored> = Vec::new();
    let mut i: usize = 0;
    while i < v.len()
        invariant
            i <= v.len(),
            r@.to_multiset() == v@.subrange(0, i as int).to_multiset(),
            sorted_by_base(r@),
            unadjusted(v@) ==> unadjusted(r@),
            forall|m: int| 0 <= m < r@.len() ==> v@.contains(#[trigger] r@[m]),
        decreases v.len() - i,
    {
        let x = v[i];
        let mut j: usize = 0;
        while j < r.len() && !ranks_before_exec(x.base, x.row_idx, r[j].base, r[j].row_idx)
            invariant
                j <= r.len(),
                forall|m: int| 0 <= m < j ==> base_ordered(r@[m], x),
            decreases r.len() - j,
        {
            j += 1;
        }
        let ghost old_r = r@;
        r.insert(j, x);
        proof {
            assert(v@.subrange(0, i + 1) =~= v@.subrange(0, i as int).push(x));
            assert(r@ == old_r.insert(j as int, x));
            assert(v@[i as int] == x);
            assert forall|m: int| 0 <= m < r@.len() implies v@.contains(#[trigger] r@[m]) by {
                if m < j {
                    assert(r@[m] == old_r[m]);
                } else if m > j {
                    assert(r@[m] == old_r[m - 1]);
                }
            }
            assert forall|a: int, b: int| 0 <= a < b < r@.len() implies base_ordered(
                #[trigger] r@[a],
                #[trigger] r@[b],
            ) by {
                if b < j {
                } else if a < j && b == j {
                } else if a < j && b > j {
                    assert(r@[b] == old_r[b - 1]);
                    if j < old_r.len() {
                    }
                } else if a == j {
                    assert(r@[b] == old_r[b - 1]);
                    assert(j < old_r.len());
                    assert(ranks_before(
                        x.base as int,
                        x.row_idx as int,
                        old_r[j as int].base as int,
                        old_r[j as int].row_idx as int,
                    ));
                    if b - 1 > j {
                        assert(base_ordered(old_r[j as int], old_r[b - 1]));
                    }
                } else {
                    assert(r@[a] == old_r[a - 1]);
                    assert(r@[b] == old_r[b - 1]);
                }
            }
        }
        i += 1;
    }
    assert(v@.subrange(0, v@.len() as int) =~= v@);
    r
}

/// The subsequence of rows of kind `k`, in order.
pub open spec fn of_kind(s: Seq<Scored>, k: PickerMode) -> Seq<Scored>
    decreases s.len(),
{
    if s.len() == 0 {
        seq![]
    } else if s.last().kind == k {
        of_kind(s.drop_last(), k).push(s.last())
    } else {
        of_kind(s.drop_last(), k)
    }
}

/// The type bonus of the `n`-th row of kind `kind` (counting from 0):
/// `schedule[n]`, or its last element for `n` past the end. Commands rows,
/// and every row under an empty schedule, get no bonus.
pub open spec fn type_bonus(schedule: Seq<i32>, kind: PickerMode, n: int) -> int {
    if kind == PickerMode::Commands || schedule.len() == 0 {
        0
    } else if n < schedule.len() {
        schedule[n] as int
    } else {
        schedule.last() as int
    }
}

/// Every element of `s` is in the subsequence of its own kind.
pub(crate) proof fn lemma_of_kind_has(s: Seq<Scored>, p: int)
    requires
        0 <= p < s.len(),
    ensures
        of_kind(s, s[p].kind).contains(s[p]),
    decreases s.len(),
{
    if p == s.len() - 1 {
        assert(of_kind(s, s[p].kind).last() == s[p]);
    } else {
        lemma_of_kind_has(s.drop_last(), p);
        let o = of_kind(s.drop_last(), s[p].kind);
        let i = choose|i: int| 0 <= i < o.len() && o[i] == s[p];
        if s.last().kind == s[p].kind {
            assert(of_kind(s, s[p].kind)[i] == s[p]);
        }
    }
}

/// The row with its final score reset to its base score.
pub open spec fn strip(s: Scored) -> Scored {
    Scored { row_idx: s.row_idx, kind: s.kind, base: s.base, score: s.base }
}

/// The views of `s` with type bonuses removed.
pub open spec fn stripped(s: Seq<Scored>) -> Seq<Scored> {
    s.map_values(|x: Scored| strip(x))
}

/// Each row's score is its base plus the type bonus for the number of rows
/// of its own kind placed above it.
pub open spec fn bonus_applied(out: Seq<Scored>, schedule: Seq<i32>) -> bool {
    forall|p: int|
        0 <= p < out.len() ==> (#[trigger] out[p]).score == out[p].base + type_bonus(
            schedule,
            out[p].kind,
            of_kind(out.subrange(0, p), out[p].kind).len() as int,
        )
}

/// At every position, no row of any kind that was still waiting (the next
/// one of its kind, with the bonus it would have had there) ranks strictly
/// before the row that was placed.
pub open spec fn greedy(out: Seq<Scored>, schedule: Seq<i32>) -> bool {
    forall|p: int, k: PickerMode|
        #![trigger out[p], of_kind(out, k)]
        0 <= p < out.len() ==> {
            let c = of_kind(out.subrange(0, p), k).len() as int;
            c < of_kind(out, k).len() ==> !ranks_before(
                of_kind(out, k)[c].base + type_bonus(schedule, k, c),
                of_kind(out, k)[c].row_idx as int,
                out[p].score as int,
                out[p].row_idx as int,
            )
        }
}

/// What `interleave` returns for `v`: for each kind, the rows of that kind
/// in base-score order and (bonuses removed) a permutation of the input's;
/// bonuses applied by position; greedy choice at every step.
pub open spec fn interleaved(v: Seq<Scored>, out: Seq<Scored>, schedule: Seq<i32>) -> bool {
    &&& out.len() == v.len()
    &&& forall|k: PickerMode|
        #![trigger of_kind(out, k)]
        stripped(of_kind(out, k)).to_multiset() == of_kind(v, k).to_multiset() && sorted_by_base(
            stripped(of_kind(out, k)),
        )
    &&& bonus_applied(out, schedule)
    &&& greedy(out, schedule)
}


/// Position of a kind among the three per-kind queues.
pub open spec fn kind_slot(k: PickerMode) -> int {
    match k {
        PickerMode::Directories => 0,
        PickerMode::Commands => 1,
        PickerMode::SshHosts => 2,
    }
}

/// The kind whose queue sits at `t`.
pub open spec fn slot_kind(t: int) -> PickerMode {
    if t == 0 {
        PickerMode::Directories
    } else if t == 1 {
        PickerMode::Commands
    } else {
        PickerMode::SshHosts
    }
}

fn slot_kind_exec(t: usize) -> (k: PickerMode)
    ensures
        k == slot_kind(t as int),
{
    if t == 0 {
        PickerMode::Directories
    } else if t == 1 {
        PickerMode::Commands
    } else {
        PickerMode::SshHosts
    }
}

proof fn lemma_of_kind_push(s: Seq<Scored>, e: Scored, k: PickerMode)
    ensures
        of_kind(s.push(e), k) == (if e.kind == k {
            of_kind(s, k).push(e)
        } else {
            of_kind(s, k)
        }),
{
    assert(s.push(e).drop_last() =~= s);
}

proof fn lemma_of_kind_kinds(s: Seq<Scored>, k: PickerMode)
    ensures
        forall|i: int| 0 <= i < of_kind(s, k).len() ==> (#[trigger] of_kind(s, k)[i]).kind == k,
    decreases s.len(),
{
    if s.len() > 0 {
        lemma_of_kind_kinds(s.drop_last(), k);
    }
}

proof fn lemma_of_kind_lens(s: Seq<Scored>)
    ensures
        of_kind(s, PickerMode::Directories).len() + of_kind(s, PickerMode::Commands).len()
            + of_kind(s, PickerMode::SshHosts).len() == s.len(),
    decreases s.len(),
{
    if s.len() > 0 {
        lemma_of_kind_lens(s.drop_last());
    }
}

/// The rows of `v` of kind `k`, in order.
fn rows_of_kind(v: &Vec<Scored>, k: PickerMode) -> (r: Vec<Scored>)
    ensures
        r@ == of_kind(v@, k),
{
    let mut r: Vec<Scored> = Vec::new();
    let mut i: usize = 0;
    while i < v.len()
        invariant
            i <= v.len(),
            r@ == of_kind(v@.subrange(0, i as int), k),
        decreases v.len() - i,
    {
        proof {
            assert(v@.subrange(0, i + 1) =~= v@.subrange(0, i as int).push(v@[i as int]));
            lemma_of_kind_push(v@.subrange(0, i as int), v@[i as int], k);
        }
        if v[i].kind == k {
            r.push(v[i]);
        }
        i += 1;
    }
    assert(v@.subrange(0, v@.len() as int) =~= v@);
    r
}

/// `type_bonus` for the `n`-th row of `kind`.
fn bonus_at(schedule: &Vec<i32>, kind: PickerMode, n: usize) -> (r: i64)
    ensures
        r == type_bonus(schedule@, kind, n as int),
{
    if kind == PickerMode::Commands || schedule.len() == 0 {
        0
    } else if n < schedule.len() {
        schedule[n] as i64
    } else {
        schedule[schedule.len() - 1] as i64
    }
}

/// Base scores are bounded, so adding a type bonus cannot overflow.
pub open spec fn bases_bounded(v: Seq<Scored>) -> bool {
    forall|i: int| 0 <= i < v.len() ==> -0x100_0000_0000 <= (#[trigger] v[i]).base <= 0x100_0000_0000
}

/// The per-kind queues of a merge: queue `u` holds the rows of kind
/// `slot_kind(u)` of `v`, sorted by base score.
#[verifier::opaque]
spec fn queues_ok(v: Seq<Scored>, qv: Seq<Seq<Scored>>) -> bool {
    &&& qv.len() == 3
    &&& forall|u: int|
        #![trigger qv[u]]
        0 <= u < 3 ==> {
            &&& qv[u].to_multiset() == of_kind(v, slot_kind(u)).to_multiset()
            &&& qv[u].len() == of_kind(v, slot_kind(u)).len()
            &&& sorted_by_base(qv[u])
            &&& unadjusted(qv[u])
            &&& bases_bounded(qv[u])
            &&& forall|m: int| 0 <= m < qv[u].len() ==> (#[trigger] qv[u][m]).kind == slot_kind(u)
        }
}

/// Score the head of queue `u` would get if placed now.
spec fn head_adj(qv: Seq<Seq<Scored>>, pos: Seq<usize>, sched: Seq<i32>, u: int) -> int {
    qv[u][pos[u] as int].base + type_bonus(sched, slot_kind(u), pos[u] as int)
}

/// No waiting head ranked before any placed row, relative to the queues.
#[verifier::opaque]
spec fn greedy_q(qv: Seq<Seq<Scored>>, out: Seq<Scored>, sched: Seq<i32>) -> bool {
    forall|p: int, u: int|
        #![trigger out[p], qv[u]]
        0 <= p < out.len() && 0 <= u < 3 ==> {
            let c = of_kind(out.subrange(0, p), slot_kind(u)).len() as int;
            c < qv[u].len() ==> !ranks_before(
                qv[u][c].base + type_bonus(sched, slot_kind(u), c),
                qv[u][c].row_idx as int,
                out[p].score as int,
                out[p].row_idx as int,
            )
        }
}

/// State of the merge after placing `out`, with `pos[u]` rows taken from
/// queue `u`.
#[verifier::opaque]
spec fn merge_state(qv: Seq<Seq<Scored>>, pos: Seq<usize>, out: Seq<Scored>, sched: Seq<i32>) -> bool {
    &&& pos.len() == 3
    &&& forall|u: int|
        #![trigger qv[u]]
        0 <= u < 3 ==> pos[u] <= qv[u].len() && stripped(of_kind(out, slot_kind(u))) == qv[u].subrange(
            0,
            pos[u] as int,
        )
    &&& out.len() == pos[0] + pos[1] + pos[2]
    &&& bonus_applied(out, sched)
    &&& greedy_q(qv, out, sched)
}

/// The queue whose head, with its bonus, ranks first.
fn pick_queue(qs: &Vec<Vec<Scored>>, pos: &Vec<usize>, schedule: &Vec<i32>) -> (r: (
    usize,
    i64,
    usize,
))
    requires
        qs@.len() == 3,
        pos@.len() == 3,
        forall|w: int| #![trigger qs@[w]] 0 <= w < 3 ==> pos@[w] <= qs@[w]@.len() && bases_bounded(qs@[w]@),
        exists|w: int| 0 <= w < 3 && pos@[w] < #[trigger] qs@[w]@.len(),
    ensures
        r.0 < 3,
        pos@[r.0 as int] < qs@[r.0 as int]@.len(),
        r.1 == head_adj(Seq::new(3, |w: int| qs@[w]@), pos@, schedule@, r.0 as int),
        r.2 == qs@[r.0 as int]@[pos@[r.0 as int] as int].row_idx,
        forall|w: int|
            #![trigger qs@[w]]
            0 <= w < 3 && pos@[w] < qs@[w]@.len() ==> !ranks_before(
                head_adj(Seq::new(3, |x: int| qs@[x]@), pos@, schedule@, w),
                qs@[w]@[pos@[w] as int].row_idx as int,
                r.1 as int,
                r.2 as int,
            ),
{
    let ghost qv = Seq::new(3, |w: int| qs@[w]@);
    let mut best_t: usize = 3;
    let mut best_score: i64 = 0;
    let mut best_idx: usize = 0;
    let mut u: usize = 0;
    while u < 3
        invariant
            u <= 3,
            qs@.len() == 3,
            pos@.len() == 3,
            qv == Seq::new(3, |w: int| qs@[w]@),
            forall|w: int| #![trigger qs@[w]] 0 <= w < 3 ==> pos@[w] <= qs@[w]@.len() && bases_bounded(qs@[w]@),
            best_t <= 3,
            best_t == 3 <==> forall|w: int| 0 <= w < u ==> pos@[w] >= #[trigger] qs@[w]@.len(),
            best_t < 3 ==> best_t < u && pos@[best_t as int] < qs@[best_t as int]@.len()
                && best_score == head_adj(qv, pos@, schedule@, best_t as int)
                && best_idx == qs@[best_t as int]@[pos@[best_t as int] as int].row_idx,
            forall|w: int|
                #![trigger qs@[w]]
                0 <= w < u && pos@[w] < qs@[w]@.len() ==> !ranks_before(
                    head_adj(qv, pos@, schedule@, w),
                    qs@[w]@[pos@[w] as int].row_idx as int,
                    best_score as int,
                    best_idx as int,
                ),
        decreases 3 - u,
    {
        if pos[u] < qs[u].len() {
            let e = qs[u][pos[u]];
            let b = bonus_at(schedule, slot_kind_exec(u), pos[u]);
            assert(qs@[u as int]@[pos@[u as int] as int] == e);
            let adj = e.base + b;
            if best_t == 3 || ranks_before_exec(adj, e.row_idx, best_score, best_idx) {
                best_t = u;
                best_score = adj;
                best_idx = e.row_idx;
            }
        }
        u += 1;
    }
    if best_t == 3 {
        proof {
            let w = choose|w: int| 0 <= w < 3 && pos@[w] < #[trigger] qs@[w]@.len();
            assert(pos@[w] >= qs@[w]@.len());
        }
    }
    (best_t, best_score, best_idx)
}

/// Facts shared by the three parts of a merge step.
#[verifier::opaque]
spec fn step_pre(
    v: Seq<Scored>,
    qv: Seq<Seq<Scored>>,
    pos: Seq<usize>,
    out: Seq<Scored>,
    sched: Seq<i32>,
    bt: int,
    placed: Scored,
) -> bool {
    &&& queues_ok(v, qv)
    &&& merge_state(qv, pos, out, sched)
    &&& 0 <= bt < 3
    &&& pos[bt] < qv[bt].len()
    &&& pos[bt] + 1 <= usize::MAX
    &&& placed.row_idx == qv[bt][pos[bt] as int].row_idx
    &&& placed.kind == qv[bt][pos[bt] as int].kind
    &&& placed.base == qv[bt][pos[bt] as int].base
    &&& placed.score == head_adj(qv, pos, sched, bt)
}

proof fn lemma_step_counts(
    v: Seq<Scored>,
    qv: Seq<Seq<Scored>>,
    pos: Seq<usize>,
    out: Seq<Scored>,
    sched: Seq<i32>,
    bt: int,
    placed: Scored,
)
    requires
        step_pre(v, qv, pos, out, sched, bt, placed),
    ensures
        forall|u2: int|
            0 <= u2 < 3 ==> #[trigger] of_kind(out, slot_kind(u2)).len() == pos[u2],
        placed.kind == slot_kind(bt),
{
    reveal(step_pre);
    reveal(queues_ok);
    reveal(merge_state);
    assert(qv[bt][pos[bt] as int].kind == slot_kind(bt));
    assert forall|u2: int| 0 <= u2 < 3 implies #[trigger] of_kind(out, slot_kind(u2)).len()
        == pos[u2] by {
        assert(stripped(of_kind(out, slot_kind(u2))).len() == of_kind(out, slot_kind(u2)).len());
        assert(qv[u2] == qv[u2]);
    }
}

proof fn lemma_queue_elem(v: Seq<Scored>, qv: Seq<Seq<Scored>>, u: int, m: int)
    requires
        queues_ok(v, qv),
        0 <= u < 3,
        0 <= m < qv[u].len(),
    ensures
        qv[u][m].score == qv[u][m].base,
        qv[u][m].kind == slot_kind(u),
{
    reveal(queues_ok);
    assert(unadjusted(qv[u]));
}

proof fn lemma_step_queue_one(
    v: Seq<Scored>,
    qv: Seq<Seq<Scored>>,
    pos: Seq<usize>,
    out: Seq<Scored>,
    sched: Seq<i32>,
    bt: int,
    placed: Scored,
    u2: int,
)
    requires
        step_pre(v, qv, pos, out, sched, bt, placed),
        0 <= u2 < 3,
    ensures
        pos.update(bt, (pos[bt] + 1) as usize)[u2] <= qv[u2].len() && stripped(
            of_kind(out.push(placed), slot_kind(u2)),
        ) == qv[u2].subrange(0, pos.update(bt, (pos[bt] + 1) as usize)[u2] as int),
{
    reveal(step_pre);
    assert(pos.len() == 3) by {
        reveal(merge_state);
    }
    let npos = pos.update(bt, (pos[bt] + 1) as usize);
    let nout = out.push(placed);
    lemma_queue_elem(v, qv, bt, pos[bt] as int);
    assert(strip(placed) == qv[bt][pos[bt] as int]);
    lemma_of_kind_push(out, placed, slot_kind(u2));
    assert(pos[u2] <= qv[u2].len() && stripped(of_kind(out, slot_kind(u2))) == qv[u2].subrange(
        0,
        pos[u2] as int,
    )) by {
        reveal(merge_state);
    }
    if u2 == bt {
        assert(npos[u2] == pos[u2] + 1);
        assert(stripped(of_kind(nout, slot_kind(u2))) =~= stripped(of_kind(out, slot_kind(u2))).push(
            strip(placed),
        ));
        assert(qv[u2].subrange(0, npos[u2] as int) =~= qv[u2].subrange(0, pos[u2] as int).push(
            qv[u2][pos[u2] as int],
        ));
    } else {
        assert(npos[u2] == pos[u2]);
        assert(slot_kind(u2) != slot_kind(bt));
    }
}

proof fn lemma_step_queues(
    v: Seq<Scored>,
    qv: Seq<Seq<Scored>>,
    pos: Seq<usize>,
    out: Seq<Scored>,
    sched: Seq<i32>,
    bt: int,
    placed: Scored,
)
    requires
        step_pre(v, qv, pos, out, sched, bt, placed),
    ensures
        forall|u2: int|
            #![trigger qv[u2]]
            0 <= u2 < 3 ==> pos.update(bt, (pos[bt] + 1) as usize)[u2] <= qv[u2].len() && stripped(
                of_kind(out.push(placed), slot_kind(u2)),
            ) == qv[u2].subrange(0, pos.update(bt, (pos[bt] + 1) as usize)[u2] as int),
{
    lemma_step_queue_one(v, qv, pos, out, sched, bt, placed, 0);
    lemma_step_queue_one(v, qv, pos, out, sched, bt, placed, 1);
    lemma_step_queue_one(v, qv, pos, out, sched, bt, placed, 2);
    assert forall|u2: int| #![trigger qv[u2]] 0 <= u2 < 3 implies pos.update(bt, (pos[bt] + 1) as usize)[u2]
        <= qv[u2].len() && stripped(of_kind(out.push(placed), slot_kind(u2))) == qv[u2].subrange(
        0,
        pos.update(bt, (pos[bt] + 1) as usize)[u2] as int,
    ) by {
        if u2 == 0 {
        } else if u2 == 1 {
        } else {
        }
    }
}

proof fn lemma_step_bonus(
    v: Seq<Scored>,
    qv: Seq<Seq<Scored>>,
    pos: Seq<usize>,
    out: Seq<Scored>,
    sched: Seq<i32>,
    bt: int,
    placed: Scored,
)
    requires
        step_pre(v, qv, pos, out, sched, bt, placed),
    ensures
        bonus_applied(out.push(placed), sched),
{
    reveal(step_pre);
    reveal(merge_state);
    let nout = out.push(placed);
    lemma_step_counts(v, qv, pos, out, sched, bt, placed);
    assert(nout.subrange(0, out.len() as int) =~= out);
    assert forall|p: int| 0 <= p < nout.len() implies (#[trigger] nout[p]).score == nout[p].base
        + type_bonus(sched, nout[p].kind, of_kind(nout.subrange(0, p), nout[p].kind).len() as int) by {
        if p < out.len() {
            assert(nout.subrange(0, p) =~= out.subrange(0, p));
            assert(nout[p] == out[p]);
        } else {
            assert(of_kind(out, slot_kind(bt)).len() == pos[bt]);
        }
    }
}

proof fn lemma_step_greedy(
    v: Seq<Scored>,
    qv: Seq<Seq<Scored>>,
    pos: Seq<usize>,
    out: Seq<Scored>,
    sched: Seq<i32>,
    bt: int,
    placed: Scored,
)
    requires
        step_pre(v, qv, pos, out, sched, bt, placed),
        forall|w: int|
            #![trigger qv[w]]
            0 <= w < 3 && pos[w] < qv[w].len() ==> !ranks_before(
                head_adj(qv, pos, sched, w),
                qv[w][pos[w] as int].row_idx as int,
                placed.score as int,
                placed.row_idx as int,
            ),
    ensures
        greedy_q(qv, out.push(placed), sched),
{
    reveal(step_pre);
    reveal(merge_state);
    reveal(greedy_q);
    let nout = out.push(placed);
    lemma_step_counts(v, qv, pos, out, sched, bt, placed);
    assert(nout.subrange(0, out.len() as int) =~= out);
    assert forall|p: int, u2: int|
        #![trigger nout[p], qv[u2]]
        0 <= p < nout.len() && 0 <= u2 < 3 implies {
        let c = of_kind(nout.subrange(0, p), slot_kind(u2)).len() as int;
        c < qv[u2].len() ==> !ranks_before(
            qv[u2][c].base + type_bonus(sched, slot_kind(u2), c),
            qv[u2][c].row_idx as int,
            nout[p].score as int,
            nout[p].row_idx as int,
        )
    } by {
        if p < out.len() {
            assert(nout.subrange(0, p) =~= out.subrange(0, p));
            assert(nout[p] == out[p]);
            assert(out[p] == out[p]);
        } else {
            assert(of_kind(out, slot_kind(u2)).len() == pos[u2]);
        }
    }
}

proof fn lemma_merge_step(
    v: Seq<Scored>,
    qv: Seq<Seq<Scored>>,
    pos: Seq<usize>,
    out: Seq<Scored>,
    sched: Seq<i32>,
    bt: int,
    placed: Scored,
)
    requires
        queues_ok(v, qv),
        merge_state(qv, pos, out, sched),
        0 <= bt < 3,
        pos[bt] < qv[bt].len(),
        pos[bt] + 1 <= usize::MAX,
        placed.row_idx == qv[bt][pos[bt] as int].row_idx,
        placed.kind == qv[bt][pos[bt] as int].kind,
        placed.base == qv[bt][pos[bt] as int].base,
        placed.score == head_adj(qv, pos, sched, bt),
        forall|w: int|
            #![trigger qv[w]]
            0 <= w < 3 && pos[w] < qv[w].len() ==> !ranks_before(
                head_adj(qv, pos, sched, w),
                qv[w][pos[w] as int].row_idx as int,
                placed.score as int,
                placed.row_idx as int,
            ),
    ensures
        merge_state(qv, pos.update(bt, (pos[bt] + 1) as usize), out.push(placed), sched),
{
    assert(step_pre(v, qv, pos, out, sched, bt, placed)) by {
        reveal(step_pre);
    }
    lemma_step_queues(v, qv, pos, out, sched, bt, placed);
    lemma_step_bonus(v, qv, pos, out, sched, bt, placed);
    lemma_step_greedy(v, qv, pos, out, sched, bt, placed);
    assert(pos[bt] + 1 <= usize::MAX) by {
        reveal(step_pre);
    }
    lemma_merge_assemble(qv, pos, out, sched, bt, placed);
}

proof fn lemma_merge_assemble(
    qv: Seq<Seq<Scored>>,
    pos: Seq<usize>,
    out: Seq<Scored>,
    sched: Seq<i32>,
    bt: int,
    placed: Scored,
)
    requires
        merge_state(qv, pos, out, sched),
        0 <= bt < 3,
        pos[bt] + 1 <= usize::MAX,
        forall|u2: int|
            #![trigger qv[u2]]
            0 <= u2 < 3 ==> pos.update(bt, (pos[bt] + 1) as usize)[u2] <= qv[u2].len() && stripped(
                of_kind(out.push(placed), slot_kind(u2)),
            ) == qv[u2].subrange(0, pos.update(bt, (pos[bt] + 1) as usize)[u2] as int),
        bonus_applied(out.push(placed), sched),
        greedy_q(qv, out.push(placed), sched),
    ensures
        merge_state(qv, pos.update(bt, (pos[bt] + 1) as usize), out.push(placed), sched),
{
    let npos = pos.update(bt, (pos[bt] + 1) as usize);
    assert(out.len() == pos[0] + pos[1] + pos[2] && pos.len() == 3) by {
        reveal(merge_state);
    }
    assert(npos[0] + npos[1] + npos[2] == pos[0] + pos[1] + pos[2] + 1);
    reveal(merge_state);
}

proof fn lemma_pick_pre(v: Seq<Scored>, qv: Seq<Seq<Scored>>, pos: Seq<usize>, out: Seq<Scored>, sched: Seq<i32>)
    requires
        queues_ok(v, qv),
        merge_state(qv, pos, out, sched),
    ensures
        pos.len() == 3,
        qv.len() == 3,
        forall|w: int| #![trigger qv[w]] 0 <= w < 3 ==> pos[w] <= qv[w].len() && bases_bounded(qv[w]),
{
    reveal(queues_ok);
    reveal(merge_state);
}

#[verifier::rlimit(50)]
#[verifier::spinoff_prover]
proof fn lemma_merge_done(v: Seq<Scored>, qv: Seq<Seq<Scored>>, pos: Seq<usize>, out: Seq<Scored>, sched: Seq<i32>)
    requires
        queues_ok(v, qv),
        merge_state(qv, pos, out, sched),
        forall|u: int| 0 <= u < 3 ==> pos[u] >= #[trigger] qv[u].len(),
    ensures
        interleaved(v, out, sched),
{
    reveal(queues_ok);
    reveal(merge_state);
    reveal(greedy_q);
    lemma_of_kind_lens(v);
    assert forall|k: PickerMode| #![trigger of_kind(out, k)]
        stripped(of_kind(out, k)).to_multiset() == of_kind(v, k).to_multiset()
            && sorted_by_base(stripped(of_kind(out, k))) by {
        let u = kind_slot(k);
        assert(slot_kind(u) == k);
        assert(qv[u].subrange(0, pos[u] as int) =~= qv[u]);
    }
    assert(qv[0].len() + qv[1].len() + qv[2].len() == v.len());
    assert forall|p: int, k: PickerMode|
        #![trigger out[p], of_kind(out, k)]
        0 <= p < out.len() implies {
        let c = of_kind(out.subrange(0, p), k).len() as int;
        c < of_kind(out, k).len() ==> !ranks_before(
            of_kind(out, k)[c].base + type_bonus(sched, k, c),
            of_kind(out, k)[c].row_idx as int,
            out[p].score as int,
            out[p].row_idx as int,
        )
    } by {
        let u = kind_slot(k);
        assert(slot_kind(u) == k);
        assert(qv[u].subrange(0, pos[u] as int) =~= qv[u]);
        let c = of_kind(out.subrange(0, p), k).len() as int;
        if c < of_kind(out, k).len() {
            assert(stripped(of_kind(out, k))[c] == strip(of_kind(out, k)[c]));
            assert(qv[u][c] == stripped(of_kind(out, k))[c]);
        }
    }
}

/// Three-way merge of the `cd`, `run` and `ssh` rows: each kind's rows in
/// base-score order; at each step the kind whose next row has the highest
/// `base + schedule[count of that kind already placed]` is placed, and that
/// kind's count advances. `run` rows never receive a type bonus.
pub fn interleave(v: Vec<Scored>, tb: &crate::config::TypeBonusConfig) -> (out: Vec<Scored>)
    requires
        unadjusted(v@),
        bases_bounded(v@),
    ensures
        interleaved(v@, out@, tb.schedule@),
{
    let mut qs: Vec<Vec<Scored>> = Vec::new();
    let mut t: usize = 0;
    while t < 3
        invariant
            t <= 3,
            qs@.len() == t,
            unadjusted(v@),
            bases_bounded(v@),
            forall|u: int|
                #![trigger qs@[u]]
                0 <= u < t ==> {
                    let q = qs@[u]@;
                    &&& q.to_multiset() == of_kind(v@, slot_kind(u)).to_multiset()
                    &&& sorted_by_base(q)
                    &&& unadjusted(q)
                    &&& bases_bounded(q)
                    &&& forall|m: int| 0 <= m < q.len() ==> (#[trigger] q[m]).kind == slot_kind(u)
                },
        decreases 3 - t,
    {
        let k = slot_kind_exec(t);
        let part = rows_of_kind(&v, k);
        proof {
            lemma_of_kind_kinds(v@, k);
            assert forall|i: int| 0 <= i < part@.len() implies (#[trigger] part@[i]).score
                == part@[i].base && -0x100_0000_0000 <= part@[i].base <= 0x100_0000_0000 by {
                lemma_of_kind_sub(v@, k, i);
                let j = choose|j: int| 0 <= j < v@.len() && v@[j] == part@[i];
                assert(v@[j] == part@[i]);
            }
        }
        let q = sort_by_base(&part);
        proof {
            assert forall|m: int| 0 <= m < q@.len() implies (#[trigger] q@[m]).kind == k
                && -0x100_0000_0000 <= q@[m].base <= 0x100_0000_0000 by {
                assert(part@.contains(q@[m]));
                let j = choose|j: int| 0 <= j < part@.len() && part@[j] == q@[m];
                assert(part@[j] == q@[m]);
            }
        }
        qs.push(q);
        t += 1;
    }
    let ghost qv: Seq<Seq<Scored>> = Seq::new(3, |u: int| qs@[u]@);
    let mut pos: Vec<usize> = vec![0, 0, 0];
    let mut out: Vec<Scored> = Vec::new();
    proof {
        assert forall|u: int| #![trigger qv[u]] 0 <= u < 3 implies qv[u].len() == of_kind(
            v@,
            slot_kind(u),
        ).len() by {
            assert(qs@[u]@ == qv[u]);
            assert(qv[u].to_multiset().len() == qv[u].len());
            assert(of_kind(v@, slot_kind(u)).to_multiset().len() == of_kind(v@, slot_kind(u)).len());
        }
        reveal(queues_ok);
        assert(queues_ok(v@, qv));
        assert forall|u: int| #![trigger qv[u]] 0 <= u < 3 implies pos@[u] <= qv[u].len()
            && stripped(of_kind(out@, slot_kind(u))) == qv[u].subrange(0, pos@[u] as int) by {
            assert(stripped(of_kind(out@, slot_kind(u))) =~= qv[u].subrange(0, 0));
        }
        reveal(greedy_q);
        reveal(merge_state);
        assert(merge_state(qv, pos@, out@, tb.schedule@));
    }
    while pos[0] < qs[0].len() || pos[1] < qs[1].len() || pos[2] < qs[2].len()
        invariant
            qs@.len() == 3,
            qv == Seq::new(3, |u: int| qs@[u]@),
            queues_ok(v@, qv),
            merge_state(qv, pos@, out@, tb.schedule@),
            pos@.len() == 3,
        decreases (qv[0].len() - pos@[0]) + (qv[1].len() - pos@[1]) + (qv[2].len() - pos@[2]),
    {
        proof {
            lemma_pick_pre(v@, qv, pos@, out@, tb.schedule@);
            assert(qs@[0]@ == qv[0] && qs@[1]@ == qv[1] && qs@[2]@ == qv[2]);
            assert(pos@[0] < qs@[0]@.len() || pos@[1] < qs@[1]@.len() || pos@[2] < qs@[2]@.len());
        }
        let (bt, score, idx) = pick_queue(&qs, &pos, &tb.schedule);
        let e = qs[bt][pos[bt]];
        let placed = Scored { row_idx: e.row_idx, kind: e.kind, base: e.base, score };
        proof {
            lemma_merge_step(v@, qv, pos@, out@, tb.schedule@, bt as int, placed);
        }
        out.push(placed);
        let cur = pos[bt];
        pos.set(bt, cur + 1);
    }
    proof {
        lemma_merge_done(v@, qv, pos@, out@, tb.schedule@);
    }
    out
}

pub(crate) proof fn lemma_of_kind_sub(s: Seq<Scored>, k: PickerMode, i: int)
    requires
        0 <= i < of_kind(s, k).len(),
    ensures
        s.contains(of_kind(s, k)[i]),
    decreases s.len(),
{
    if s.len() > 0 {
        if s.last().kind == k && i == of_kind(s, k).len() - 1 {
            assert(s[s.len() - 1] == s.last());
        } else {
            lemma_of_kind_sub(s.drop_last(), k, i);
            let x = of_kind(s.drop_last(), k)[i];
            let j = choose|j: int| 0 <= j < s.drop_last().len() && s.drop_last()[j] == x;
            assert(s[j] == x);
        }
    }
}


/// No row appears twice in `s`.
pub open spec fn rows_distinct(s: Seq<Scored>) -> bool {
    forall|i: int, j: int| 0 <= i < j < s.len() ==> (#[trigger] s[i]).row_idx != (#[trigger] s[j]).row_idx
}

/// A permutation of a list without repeated rows has none either.
pub(crate) proof fn lemma_perm_rows_distinct(a: Seq<Scored>, b: Seq<Scored>)
    requires
        a.to_multiset() == b.to_multiset(),
        rows_distinct(b),
    ensures
        rows_distinct(a),
{
    assert(b.no_duplicates()) by {
        assert forall|i: int, j: int| 0 <= i < b.len() && 0 <= j < b.len() && i != j implies b[i] != b[j] by {
            if i < j {
                assert(b[i].row_idx != b[j].row_idx);
            } else {
                assert(b[j].row_idx != b[i].row_idx);
            }
        }
    }
    b.lemma_multiset_has_no_duplicates();
    a.lemma_multiset_has_no_duplicates_conv();
    assert forall|i: int, j: int| 0 <= i < j < a.len() implies (#[trigger] a[i]).row_idx != (#[trigger] a[j]).row_idx by {
        if a[i].row_idx == a[j].row_idx {
            assert(a.contains(a[i]));
            assert(a.contains(a[j]));
            assert(a.to_multiset().count(a[i]) > 0);
            assert(a.to_multiset().count(a[j]) > 0);
            assert(b.to_multiset().count(a[i]) > 0);
            assert(b.to_multiset().count(a[j]) > 0);
            assert(b.contains(a[i]));
            assert(b.contains(a[j]));
            let p = choose|p: int| 0 <= p < b.len() && b[p] == a[i];
            let q = choose|q: int| 0 <= q < b.len() && b[q] == a[j];
            if p < q {
                assert(b[p].row_idx != b[q].row_idx);
            } else if q < p {
                assert(b[q].row_idx != b[p].row_idx);
            }
            assert(a[i] == a[j]);
        }
    }
}

/// The rows of one kind, taken from a list without repeated rows, repeat
/// none either.
proof fn lemma_of_kind_rows_distinct(s: Seq<Scored>, k: PickerMode)
    requires
        rows_distinct(s),
    ensures
        rows_distinct(of_kind(s, k)),
    decreases s.len(),
{
    if s.len() > 0 {
        let t = s.drop_last();
        assert(rows_distinct(t)) by {
            assert forall|i: int, j: int| 0 <= i < j < t.len() implies (#[trigger] t[i]).row_idx != (#[trigger] t[j]).row_idx by {
                assert(s[i] == t[i] && s[j] == t[j]);
            }
        }
        lemma_of_kind_rows_distinct(t, k);
        if s.last().kind == k {
            let o = of_kind(s, k);
            assert forall|i: int, j: int| 0 <= i < j < o.len() implies (#[trigger] o[i]).row_idx != (#[trigger] o[j]).row_idx by {
                if j == o.len() - 1 {
                    lemma_of_kind_sub(t, k, i);
                    let p = choose|p: int| 0 <= p < t.len() && t[p] == of_kind(t, k)[i];
                    assert(s[p] == o[i]);
                    assert(s[s.len() - 1] == o[j]);
                } else {
                    assert(o[i] == of_kind(t, k)[i] && o[j] == of_kind(t, k)[j]);
                }
            }
        }
    }
}

/// Two rows of kind `k`, in order in `s`, stand in the same order in
/// `of_kind(s, k)`.
proof fn lemma_of_kind_two(s: Seq<Scored>, k: PickerMode, i: int, j: int)
    requires
        0 <= i < j < s.len(),
        s[i].kind == k,
        s[j].kind == k,
    ensures
        exists|a: int, b: int| 0 <= a < b < of_kind(s, k).len() && of_kind(s, k)[a] == s[i] && of_kind(s, k)[b] == s[j],
    decreases s.len(),
{
    let t = s.drop_last();
    if j == s.len() - 1 {
        lemma_of_kind_has(t, i);
        let o = of_kind(t, k);
        let a = choose|a: int| 0 <= a < o.len() && o[a] == t[i];
        assert(of_kind(s, k)[a] == s[i]);
        assert(of_kind(s, k)[o.len() as int] == s[j]);
    } else {
        lemma_of_kind_two(t, k, i, j);
        let o = of_kind(t, k);
        let (a, b) = choose|a: int, b: int| 0 <= a < b < o.len() && o[a] == t[i] && o[b] == t[j];
        assert(of_kind(s, k)[a] == s[i]);
        assert(of_kind(s, k)[b] == s[j]);
    }
}

/// The merge places every row once: when no row repeats in the input, none
/// repeats in the merged list.
pub proof fn law_merge_keeps_rows_distinct(v: Seq<Scored>, out: Seq<Scored>, schedule: Seq<i32>)
    requires
        interleaved(v, out, schedule),
        rows_distinct(v),
    ensures
        rows_distinct(out),
{
    assert forall|i: int, j: int| 0 <= i < j < out.len() implies (#[trigger] out[i]).row_idx != (#[trigger] out[j]).row_idx by {
        if out[i].row_idx == out[j].row_idx {
            let ki = out[i].kind;
            let kj = out[j].kind;
            lemma_of_kind_has(out, i);
            lemma_of_kind_has(out, j);
            let oi = of_kind(out, ki);
            let oj = of_kind(out, kj);
            let a = choose|a: int| 0 <= a < oi.len() && oi[a] == out[i];
            let b = choose|b: int| 0 <= b < oj.len() && oj[b] == out[j];
            assert(stripped(oi)[a] == strip(out[i]));
            assert(stripped(oj)[b] == strip(out[j]));
            assert(stripped(oi).contains(strip(out[i])));
            assert(stripped(oj).contains(strip(out[j])));
            assert(stripped(oi).to_multiset().count(strip(out[i])) > 0);
            assert(stripped(oj).to_multiset().count(strip(out[j])) > 0);
            assert(stripped(oi).to_multiset() == of_kind(v, ki).to_multiset());
            assert(stripped(oj).to_multiset() == of_kind(v, kj).to_multiset());
            assert(of_kind(v, ki).to_multiset().count(strip(out[i])) > 0);
            assert(of_kind(v, kj).to_multiset().count(strip(out[j])) > 0);
            assert(of_kind(v, ki).contains(strip(out[i])));
            assert(of_kind(v, kj).contains(strip(out[j])));
            let p = choose|p: int| 0 <= p < of_kind(v, ki).len() && of_kind(v, ki)[p] == strip(out[i]);
            let q = choose|q: int| 0 <= q < of_kind(v, kj).len() && of_kind(v, kj)[q] == strip(out[j]);
            lemma_of_kind_sub(v, ki, p);
            lemma_of_kind_sub(v, kj, q);
            let pv = choose|pv: int| 0 <= pv < v.len() && v[pv] == strip(out[i]);
            let qv = choose|qv: int| 0 <= qv < v.len() && v[qv] == strip(out[j]);
            if pv < qv {
                assert(v[pv].row_idx != v[qv].row_idx);
            } else if qv < pv {
                assert(v[qv].row_idx != v[pv].row_idx);
            }
            assert(ki == kj);
            lemma_of_kind_two(out, ki, i, j);
            let (x, y) = choose|x: int, y: int| 0 <= x < y < oi.len() && oi[x] == out[i] && oi[y] == out[j];
            lemma_of_kind_rows_distinct(v, ki);
            assert(stripped(oi).to_multiset() == of_kind(v, ki).to_multiset());
            lemma_perm_rows_distinct(stripped(oi), of_kind(v, ki));
            assert(stripped(oi)[x].row_idx != stripped(oi)[y].row_idx);
        }
    }
}


/// In the merged list, a `run` row's final score is its base score: only
/// `cd` and `ssh` rows receive a type bonus.
pub proof fn law_run_rows_get_no_type_bonus(v: Seq<Scored>, out: Seq<Scored>, schedule: Seq<i32>, p: int)
    requires
        interleaved(v, out, schedule),
        0 <= p < out.len(),
        out[p].kind == PickerMode::Commands,
    ensures
        out[p].score == out[p].base,
{
}

/// The type bonus of the `n`-th row of a kind is the schedule's `n`-th
/// entry, and its last entry for every later row (the floor).
pub proof fn law_type_bonus_floor(schedule: Seq<i32>, kind: PickerMode, n: int)
    requires
        kind != PickerMode::Commands,
        schedule.len() > 0,
        n >= schedule.len(),
    ensures
        type_bonus(schedule, kind, n) == schedule.last(),
        type_bonus(schedule, kind, n) == type_bonus(schedule, kind, schedule.len() - 1),
{
}

/// Within one kind, the merged list keeps base-score order, and it holds
/// the same rows as the input (type bonuses aside).
pub proof fn law_merge_keeps_kind_order(v: Seq<Scored>, out: Seq<Scored>, schedule: Seq<i32>, k: PickerMode)
    requires
        interleaved(v, out, schedule),
    ensures
        sorted_by_base(stripped(of_kind(out, k))),
        stripped(of_kind(out, k)).to_multiset() == of_kind(v, k).to_multiset(),
        out.len() == v.len(),
{
}

/// A prefix match earns both the prefix and the substring bonus.
pub proof fn law_prefix_and_substring_stack(w: ScoreWeights)
    ensures
        match_term(MatchKind::Prefix, w) == match_term(MatchKind::Substring, w) + w.prefix_bonus,
{
}

/// The recency tiers do not stack: a row gets the 24-hour bonus, the
/// 7-day bonus, or nothing, and a timestamp in the future counts as now.
pub proof fn law_recency_tiers_exclusive(last_time: int, now: int, w: ScoreWeights)
    ensures
        recency_term(last_time, now, w) == w.recency_24h_bonus || recency_term(last_time, now, w)
            == w.recency_7d_bonus || recency_term(last_time, now, w) == 0,
        last_time >= now ==> recency_term(last_time, now, w) == w.recency_24h_bonus,
        now - last_time >= WEEK_SECS ==> recency_term(last_time, now, w) == 0,
{
}

/// The brevity bonus never goes negative and never exceeds its maximum.
pub proof fn law_brevity_bounded(chars: int, w: ScoreWeights)
    requires
        chars >= 0,
    ensures
        0 <= brevity_term(chars, w),
        w.brevity_bonus_max >= 0 ==> brevity_term(chars, w) <= w.brevity_bonus_max,
{
}

/// With the default weights, a literal substring match outranks a fuzzy
/// match that agrees with it on every other input, however well the fuzzy
/// match's characters cluster: the 12,000-point gap between the tiers
/// exceeds the contiguity cap.
pub proof fn law_substring_beats_fuzzy_of_equal_merit(
    w: ScoreWeights,
    fuzzy_score: int,
    contiguity: int,
    frecency: int,
    last_time: int,
    now: int,
    cwd_match: bool,
    transition: int,
    chars: int,
    is_favorite: bool,
)
    requires
        w.substring_bonus == 8000,
        w.fuzzy_penalty == -4000,
        w.contiguity_cap == 6000,
        contiguity >= 0,
    ensures
        base_spec(MatchKind::Substring, fuzzy_score, 0, frecency, last_time, now, cwd_match, transition, chars, is_favorite, w)
            > base_spec(MatchKind::Fuzzy, fuzzy_score, contiguity, frecency, last_time, now, cwd_match, transition, chars, is_favorite, w),
{
}

/// Adding a fuzzy match's contiguity never lowers its score, and the lift
/// is at most the contiguity cap.
pub proof fn law_contiguity_only_lifts(k: MatchKind, contiguity: int, w: ScoreWeights)
    requires
        contiguity >= 0,
        w.contiguity_weight >= 0,
        w.contiguity_cap >= 0,
    ensures
        0 <= contiguity_term(k, contiguity, w) <= w.contiguity_cap,
{
    if k == MatchKind::Fuzzy && contiguity > 0 {
        assert(contiguity * w.contiguity_weight >= 0) by (nonlinear_arith)
            requires
                contiguity >= 0,
                w.contiguity_weight >= 0,
        ;
    }
}

} // verus!
