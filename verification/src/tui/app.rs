//! Picker state: row kinds, the type filter, and the unified list.

use vstd::prelude::*;
use crate::config::ScoreWeights;
use crate::text::{lowercase, starts_with, chars_of, unicode_lowercase, occurs_at};
use crate::tui::fuzzy::{
    FuzzyMatch, FuzzyMatcher, tier_matches, texts, items_fit, lemma_tier_matches_in_order, MAX_QUERY_CHARS,
};
use crate::tui::ranking::{
    base_score, base_spec, interleave, interleaved, of_kind, sort_by_base, sorted_by_base, unadjusted,
    bases_bounded, MatchKind, RankInput, Scored, strip, stripped, lemma_of_kind_has, lemma_of_kind_sub,
    rows_distinct, lemma_perm_rows_distinct, law_merge_keeps_rows_distinct,
};

verus! {

broadcast use vstd::seq_lib::group_to_multiset_ensures;

/// What the event loop does after a key press.
#[derive(Clone, Copy, PartialEq, Eq, Debug, Structural)]
pub enum Action {
    Continue,
    Select,
    SelectEdit,
    CopyToClipboard,
    Quit,
    ToggleFavorite,
    Delete,
    ConfirmDelete,
    CancelDelete,
    CycleFilter,
    CycleFilterBack,
    ToggleCwdFilter,
    ToggleHelp,
    ToggleConfig,
    SaveConfig,
    EditCommand,
    ExecuteEdit,
}

/// What the picker returns when the user selects something.
pub struct PickResult {
    pub kind: PickerMode,
    /// Text written to stdout after the `cd:`/`run:`/`ssh:` prefix.
    pub output: String,
    /// The row's database key, used to record a transition. Differs from `output`
    /// for SSH rows, where `output` is the full connection args.
    pub key: String,
    pub edit: bool,
}

/// The three kinds of row in the unified list.
#[derive(Clone, Copy, PartialEq, Eq, Debug, Structural)]
pub enum PickerMode {
    Directories,
    Commands,
    SshHosts,
}

/// The label of a kind, as shown in the status line.
pub open spec fn mode_label(m: PickerMode) -> Seq<char> {
    match m {
        PickerMode::Directories => "cd"@,
        PickerMode::Commands => "run"@,
        PickerMode::SshHosts => "ssh"@,
    }
}

/// The one-character type marker shown at the left of each row.
pub open spec fn mode_sigil(m: PickerMode) -> Seq<char> {
    match m {
        PickerMode::Directories => "/"@,
        PickerMode::Commands => "$"@,
        PickerMode::SshHosts => "@"@,
    }
}

impl PickerMode {
    pub fn label(self) -> (r: &'static str)
        ensures
            r@ == mode_label(self),
    {
        match self {
            PickerMode::Directories => "cd",
            PickerMode::Commands => "run",
            PickerMode::SshHosts => "ssh",
        }
    }

    /// Stable identifier used as the `kind` column in the transitions table.
    pub fn db_kind(self) -> (r: &'static str)
        ensures
            r@ == mode_label(self),
    {
        match self {
            PickerMode::Directories => "cd",
            PickerMode::Commands => "run",
            PickerMode::SshHosts => "ssh",
        }
    }

    /// Single-character type marker shown at the left of each row.
    pub fn sigil(self) -> (r: &'static str)
        ensures
            r@ == mode_sigil(self),
    {
        match self {
            PickerMode::Directories => "/",
            PickerMode::Commands => "$",
            PickerMode::SshHosts => "@",
        }
    }
}

/// Which types the unified list is currently showing.
#[derive(Clone, Copy, PartialEq, Eq, Debug, Structural)]
pub enum TypeFilter {
    All,
    Cd,
    Run,
    Ssh,
}

/// `TypeFilter::next`: All, cd, run, ssh, and round again.
pub open spec fn filter_next(f: TypeFilter) -> TypeFilter {
    match f {
        TypeFilter::All => TypeFilter::Cd,
        TypeFilter::Cd => TypeFilter::Run,
        TypeFilter::Run => TypeFilter::Ssh,
        TypeFilter::Ssh => TypeFilter::All,
    }
}

/// `TypeFilter::prev`: the reverse cycle.
pub open spec fn filter_prev(f: TypeFilter) -> TypeFilter {
    match f {
        TypeFilter::All => TypeFilter::Ssh,
        TypeFilter::Cd => TypeFilter::All,
        TypeFilter::Run => TypeFilter::Cd,
        TypeFilter::Ssh => TypeFilter::Run,
    }
}

/// Whether rows of `kind` pass filter `f`.
pub open spec fn filter_accepts(f: TypeFilter, kind: PickerMode) -> bool {
    match f {
        TypeFilter::All => true,
        TypeFilter::Cd => kind == PickerMode::Directories,
        TypeFilter::Run => kind == PickerMode::Commands,
        TypeFilter::Ssh => kind == PickerMode::SshHosts,
    }
}

impl TypeFilter {
    pub fn next(self) -> (r: Self)
        ensures
            r == filter_next(self),
    {
        match self {
            TypeFilter::All => TypeFilter::Cd,
            TypeFilter::Cd => TypeFilter::Run,
            TypeFilter::Run => TypeFilter::Ssh,
            TypeFilter::Ssh => TypeFilter::All,
        }
    }

    pub fn prev(self) -> (r: Self)
        ensures
            r == filter_prev(self),
    {
        match self {
            TypeFilter::All => TypeFilter::Ssh,
            TypeFilter::Cd => TypeFilter::All,
            TypeFilter::Run => TypeFilter::Cd,
            TypeFilter::Ssh => TypeFilter::Run,
        }
    }

    pub fn label(self) -> (r: &'static str)
        ensures
            r@ == (match self {
                TypeFilter::All => "All"@,
                TypeFilter::Cd => "cd"@,
                TypeFilter::Run => "run"@,
                TypeFilter::Ssh => "ssh"@,
            }),
    {
        match self {
            TypeFilter::All => "All",
            TypeFilter::Cd => "cd",
            TypeFilter::Run => "run",
            TypeFilter::Ssh => "ssh",
        }
    }

    pub fn accepts(self, kind: PickerMode) -> (r: bool)
        ensures
            r == filter_accepts(self, kind),
    {
        match self {
            TypeFilter::All => true,
            TypeFilter::Cd => kind == PickerMode::Directories,
            TypeFilter::Run => kind == PickerMode::Commands,
            TypeFilter::Ssh => kind == PickerMode::SshHosts,
        }
    }
}

/// The cycle through the four filters has length four.
pub proof fn law_filter_cycle(f: TypeFilter)
    ensures
        filter_next(filter_next(filter_next(filter_next(f)))) == f,
        filter_prev(filter_next(f)) == f,
        filter_next(filter_prev(f)) == f,
{
}


/// One selectable entry, as loaded from the store.
///
/// `score` is the frecency term of the ranking formula: the decayed
/// database score already multiplied by `frecency_weight` and capped at
/// `frecency_cap`.
#[derive(Clone, Debug)]
pub struct PickerEntry {
    pub display: String,
    pub value: String,
    /// For SSH hosts: full connection args (e.g. "root@host" or "-p 2222 admin@host").
    /// Used for output instead of `value` (which is the DB key).
    pub connect_value: Option<String>,
    pub score: i32,
    pub is_favorite: bool,
    pub last_time: i64,
    pub use_count: i64,
    pub exists: Option<bool>,
    pub duration_ms: Option<i64>,
    pub cwd: Option<String>,
}

/// One entry in the unified list, tagged with which source it came from.
#[derive(Clone, Debug)]
pub struct Row {
    pub kind: PickerMode,
    pub entry: PickerEntry,
}

impl Row {
    /// The text the row stands for outside the list: an SSH row's full
    /// connection arguments, otherwise its value.
    pub open spec fn out_text(self) -> Seq<char> {
        match self.entry.connect_value {
            Some(c) => c@,
            None => self.entry.value@,
        }
    }

    /// The text copied, edited or written out for this row.
    pub fn connect_text(&self) -> (r: String)
        ensures
            r@ == self.out_text(),
    {
        match &self.entry.connect_value {
            Some(c) => c.clone(),
            None => self.entry.value.clone(),
        }
    }
}

impl PickResult {
    /// Choosing `row`: its text is written out and its value, the database
    /// key, is recorded.
    pub fn for_row(row: &Row, edit: bool) -> (r: PickResult)
        ensures
            r.kind == row.kind,
            r.output@ == row.out_text(),
            r.key@ == row.entry.value@,
            r.edit == edit,
    {
        PickResult { kind: row.kind, output: row.connect_text(), key: row.entry.value.clone(), edit }
    }

    /// Running `text`, the edited command line of `row`: the edited text is
    /// written out to run as it is, and the row's own key is recorded.
    pub fn for_edited(row: &Row, text: String) -> (r: PickResult)
        ensures
            r.kind == row.kind,
            r.output@ == text@,
            r.key@ == row.entry.value@,
            !r.edit,
    {
        PickResult { kind: row.kind, output: text, key: row.entry.value.clone(), edit: false }
    }
}

/// A transition recorded from the current directory to `target`:
/// `points` is the transition term of the formula (decayed score times
/// `transition_weight`, capped at `transition_cap`), `positive` whether the
/// decayed score is above zero.
#[derive(Clone, Debug)]
pub struct TransitionPoints {
    pub kind: PickerMode,
    pub target: String,
    pub points: i32,
    pub positive: bool,
}

impl TransitionPoints {
    /// A stored transition of kind `kind` (`"cd"` or `"ssh"`, the kinds'
    /// database names) as ranking input; any other kind is not one the
    /// list ranks.
    pub fn from_kind(kind: &str, target: String, points: i32, positive: bool) -> (r: Option<TransitionPoints>)
        ensures
            match r {
                Some(t) => (kind@ == "cd"@ && t.kind == PickerMode::Directories || kind@ == "ssh"@ && t.kind
                    == PickerMode::SshHosts) && t.target@ == target@ && t.points == points && t.positive == positive,
                None => kind@ != "cd"@ && kind@ != "ssh"@,
            },
    {
        let k = chars_of(kind);
        if crate::text::eq_str(&k, "cd") {
            Some(TransitionPoints { kind: PickerMode::Directories, target, points, positive })
        } else if crate::text::eq_str(&k, "ssh") {
            Some(TransitionPoints { kind: PickerMode::SshHosts, target, points, positive })
        } else {
            None
        }
    }
}

/// The transition recorded for `(kind, target)`; of two entries for the
/// same pair the later one counts, as in a map filled in order.
pub open spec fn transition_of(ts: Seq<TransitionPoints>, kind: PickerMode, target: Seq<char>) -> Option<
    TransitionPoints,
>
    decreases ts.len(),
{
    if ts.len() == 0 {
        None
    } else if ts.last().kind == kind && ts.last().target@ == target {
        Some(ts.last())
    } else {
        transition_of(ts.drop_last(), kind, target)
    }
}

/// The transition term of `row`: zero for commands, and looked up by the
/// row's value (its database key), not its display text.
pub open spec fn row_transition(ts: Seq<TransitionPoints>, row: Row) -> int {
    if row.kind == PickerMode::Commands {
        0
    } else {
        match transition_of(ts, row.kind, row.entry.value@) {
            Some(t) => t.points as int,
            None => 0,
        }
    }
}

/// The row is tied to the current directory: a command recorded here, or
/// a directory or host reached from here.
pub open spec fn row_is_local(cwd: Option<String>, ts: Seq<TransitionPoints>, row: Row) -> bool {
    if row.kind == PickerMode::Commands {
        match (cwd, row.entry.cwd) {
            (Some(cur), Some(rc)) => cur@ == rc@,
            _ => false,
        }
    } else {
        match transition_of(ts, row.kind, row.entry.value@) {
            Some(t) => t.positive,
            None => false,
        }
    }
}

/// How a row matched: no query; the lowercased display starts with the
/// lowercased query; the query occurs literally; or fuzzily.
pub open spec fn match_kind_of(query: Seq<char>, display: Seq<char>, m: FuzzyMatch) -> MatchKind {
    if query.len() == 0 {
        MatchKind::NoQuery
    } else if occurs_at(unicode_lowercase(display), unicode_lowercase(query), 0) {
        MatchKind::Prefix
    } else if m.is_substring {
        MatchKind::Substring
    } else {
        MatchKind::Fuzzy
    }
}

/// Filter-and-map over a sequence, keeping order.
pub open spec fn fmap<A, B>(s: Seq<A>, f: spec_fn(A) -> Option<B>) -> Seq<B>
    decreases s.len(),
{
    if s.len() == 0 {
        seq![]
    } else {
        match f(s.last()) {
            Some(b) => fmap(s.drop_last(), f).push(b),
            None => fmap(s.drop_last(), f),
        }
    }
}

proof fn lemma_fmap_remove<A, B>(s: Seq<A>, f: spec_fn(A) -> Option<B>, j: int)
    requires
        0 <= j < s.len(),
    ensures
        fmap(s, f).to_multiset() == (match f(s[j]) {
            Some(b) => fmap(s.remove(j), f).to_multiset().insert(b),
            None => fmap(s.remove(j), f).to_multiset(),
        }),
    decreases s.len(),
{
    if j == s.len() - 1 {
        assert(s.remove(j) =~= s.drop_last());
    } else {
        lemma_fmap_remove(s.drop_last(), f, j);
        assert(s.remove(j).drop_last() =~= s.drop_last().remove(j));
        assert(s.remove(j).last() == s.last());
        assert(s.remove(j).len() > 0);
        assert(s[j] == s.drop_last()[j]);
    }
}

proof fn lemma_fmap_perm<A, B>(a: Seq<A>, b: Seq<A>, f: spec_fn(A) -> Option<B>)
    requires
        a.to_multiset() == b.to_multiset(),
    ensures
        fmap(a, f).to_multiset() == fmap(b, f).to_multiset(),
    decreases a.len(),
{
    if a.len() == 0 {
        assert(a.to_multiset().len() == 0);
        assert(b.to_multiset().len() == b.len());
        assert(b =~= seq![]);
    } else {
        let x = a.last();
        assert(a.drop_last().push(x) =~= a);
        assert(a.to_multiset() == a.drop_last().to_multiset().insert(x));
        assert(b.to_multiset().count(x) > 0);
        assert(b.contains(x));
        let j = choose|j: int| 0 <= j < b.len() && b[j] == x;
        assert(b.remove(j).to_multiset() == b.to_multiset().remove(x));
        assert(a.drop_last().to_multiset() =~= b.remove(j).to_multiset());
        lemma_fmap_perm(a.drop_last(), b.remove(j), f);
        lemma_fmap_remove(b, f, j);
    }
}

/// Selects the rows of kind `k`.
pub open spec fn kind_sel(k: PickerMode) -> spec_fn(Scored) -> Option<Scored> {
    |x: Scored| if x.kind == k { Some(x) } else { None }
}

proof fn lemma_of_kind_is_fmap(s: Seq<Scored>, k: PickerMode)
    ensures
        of_kind(s, k) == fmap(s, kind_sel(k)),
    decreases s.len(),
{
    if s.len() > 0 {
        lemma_of_kind_is_fmap(s.drop_last(), k);
    }
}

proof fn lemma_of_kind_perm(a: Seq<Scored>, b: Seq<Scored>)
    requires
        a.to_multiset() == b.to_multiset(),
    ensures
        forall|k: PickerMode| #[trigger] of_kind(a, k).to_multiset() == of_kind(b, k).to_multiset(),
{
    assert forall|k: PickerMode| #[trigger] of_kind(a, k).to_multiset() == of_kind(
        b,
        k,
    ).to_multiset() by {
        lemma_of_kind_is_fmap(a, k);
        lemma_of_kind_is_fmap(b, k);
        lemma_fmap_perm(a, b, kind_sel(k));
    }
}

proof fn lemma_fmap_member(s: Seq<FuzzyMatch>, f: spec_fn(FuzzyMatch) -> Option<Scored>, q: int)
    requires
        0 <= q < fmap(s, f).len(),
    ensures
        exists|j: int| 0 <= j < s.len() && f(s[j]) == Some(fmap(s, f)[q]),
    decreases s.len(),
{
    if s.len() > 0 {
        match f(s.last()) {
            Some(b) => {
                if q == fmap(s, f).len() - 1 {
                    assert(f(s[s.len() - 1]) == Some(fmap(s, f)[q]));
                } else {
                    lemma_fmap_member(s.drop_last(), f, q);
                    let j = choose|j: int| 0 <= j < s.drop_last().len() && f(s.drop_last()[j]) == Some(fmap(s.drop_last(), f)[q]);
                    assert(s[j] == s.drop_last()[j]);
                }
            },
            None => {
                lemma_fmap_member(s.drop_last(), f, q);
                let j = choose|j: int| 0 <= j < s.drop_last().len() && f(s.drop_last()[j]) == Some(fmap(s.drop_last(), f)[q]);
                assert(s[j] == s.drop_last()[j]);
            },
        }
    }
}

/// The entries `s` becomes in `l` for `query` at `now`.
spec fn candidates_from(l: UnifiedList, query: Seq<char>, now: int, s: Seq<FuzzyMatch>) -> Seq<Scored> {
    fmap(s, |m: FuzzyMatch| l.candidate(query, now, m))
}

/// Candidates keep the order of the matches they come from, each at its
/// match's row.
proof fn lemma_candidates_in_order(l: UnifiedList, query: Seq<char>, now: int, s: Seq<FuzzyMatch>)
    requires
        forall|i: int, j: int| 0 <= i < j < s.len() ==> (#[trigger] s[i]).idx < (#[trigger] s[j]).idx,
    ensures
        forall|i: int, j: int|
            0 <= i < j < candidates_from(l, query, now, s).len() ==> (#[trigger] candidates_from(l, query, now, s)[i]).row_idx
                < (#[trigger] candidates_from(l, query, now, s)[j]).row_idx,
        s.len() > 0 ==> forall|i: int|
            0 <= i < candidates_from(l, query, now, s).len() ==> (#[trigger] candidates_from(l, query, now, s)[i]).row_idx
                <= s.last().idx,
    decreases s.len(),
{
    if s.len() > 0 {
        let t = s.drop_last();
        lemma_candidates_in_order(l, query, now, t);
        let prev = candidates_from(l, query, now, t);
        let r = candidates_from(l, query, now, s);
        if t.len() > 0 {
            assert(t.last().idx < s.last().idx);
        }
        match l.candidate(query, now, s.last()) {
            Some(x) => {
                assert(r == prev.push(x));
                assert(x.row_idx == s.last().idx);
                assert forall|i: int| 0 <= i < r.len() implies (#[trigger] r[i]).row_idx <= s.last().idx by {
                    if i < prev.len() {
                        assert(r[i] == prev[i]);
                    }
                }
                assert forall|i: int, j: int| 0 <= i < j < r.len() implies (#[trigger] r[i]).row_idx < (#[trigger] r[j]).row_idx by {
                    assert(r[i] == prev[i]);
                    if j < prev.len() {
                        assert(r[j] == prev[j]);
                    }
                }
            },
            None => {
                assert(r == prev);
                assert forall|i: int| 0 <= i < r.len() implies (#[trigger] r[i]).row_idx <= s.last().idx by {
                    assert(r[i] == prev[i]);
                }
            },
        }
    }
}

/// Whatever the query, the time and the filters, no row appears twice in
/// the ranked view.
pub proof fn law_ranked_rows_distinct(l: UnifiedList, query: Seq<char>, now: int, ranked: Seq<Scored>)
    requires
        l.ranked_view(l.candidates(query, now), ranked),
    ensures
        rows_distinct(ranked),
{
    assert(l.rows@.len() == l.rows.len());
    let ms = l.matches_of(query);
    if query.len() == 0 {
        assert forall|i: int, j: int| 0 <= i < j < ms.len() implies (#[trigger] ms[i]).idx < (#[trigger] ms[j]).idx by {}
    } else {
        lemma_tier_matches_in_order(query, l.rows@.map_values(|r: Row| r.entry.display@));
    }
    lemma_candidates_in_order(l, query, now, ms);
    let c = l.candidates(query, now);
    assert(c == candidates_from(l, query, now, ms));
    assert(rows_distinct(c));
    if l.filter == TypeFilter::All {
        law_merge_keeps_rows_distinct(c, ranked, l.weights().type_bonus.schedule@);
    } else {
        lemma_perm_rows_distinct(ranked, c);
    }
}

proof fn lemma_same_candidates(a: UnifiedList, b: UnifiedList, q: Seq<char>, now: int)
    requires
        a.rows@ == b.rows@,
        a.filter == b.filter,
        a.cwd_filter == b.cwd_filter,
        a.cwd == b.cwd,
        a.transitions@ == b.transitions@,
        a.scoring == b.scoring,
    ensures
        a.candidates(q, now) == b.candidates(q, now),
        forall|r: Seq<Scored>| a.ranked_view(a.candidates(q, now), r) == b.ranked_view(b.candidates(q, now), r),
{
    assert forall|m: FuzzyMatch| #[trigger] a.candidate(q, now, m) == b.candidate(q, now, m) by {}
    assert((|m: FuzzyMatch| a.candidate(q, now, m)) =~= (|m: FuzzyMatch| b.candidate(q, now, m)));
}

/// `a - b`, or zero.
pub open spec fn sat_sub(a: int, b: int) -> int {
    if a > b {
        a - b
    } else {
        0
    }
}

/// The smaller of `a` and `b`.
pub open spec fn min_int(a: int, b: int) -> int {
    if a < b {
        a
    } else {
        b
    }
}

/// Lines moved by a page: the visible height less one, at least one.
pub open spec fn page_step(visible_height: int) -> int {
    if visible_height > 1 {
        visible_height - 1
    } else {
        1
    }
}

/// The scroll offset that keeps `selected` on screen, starting from `offset`.
pub open spec fn visible_scroll(selected: int, offset: int, height: int) -> int {
    if selected < offset {
        selected
    } else if selected >= offset + height {
        selected - height + 1
    } else {
        offset
    }
}

/// The current time as a Unix timestamp.
#[verifier::external_body]
pub(crate) fn now_unix() -> i64 {
    chrono::Utc::now().timestamp()
}

/// The rows, their ranked view and the browsing state of the picker.
pub struct UnifiedList {
    pub rows: Vec<Row>,
    /// Ranked, filtered view into `rows`. Rebuilt by `update_filter`.
    pub ranked: Vec<Scored>,
    pub filter: TypeFilter,
    pub selected: usize,
    pub scroll_offset: usize,
    pub visible_height: usize,
    pub cwd_filter: bool,
    pub cwd: Option<String>,
    /// Transitions originating at `cwd`.
    pub transitions: Vec<TransitionPoints>,
    pub scoring: ScoreWeights,
    pub fuzzy: FuzzyMatcher,
    /// The rows' display texts, the haystacks of the matcher.
    pub display_texts: Vec<String>,
    /// The query last applied.
    pub last_query: String,
}

/// Every match of the empty query: each index, score 0.
pub open spec fn all_rows(n: nat) -> Seq<FuzzyMatch> {
    Seq::new(n, |i: int| FuzzyMatch { idx: i as usize, score: 0, is_substring: false, contiguity: 0 })
}

impl UnifiedList {
    /// The display texts mirror the rows, fit the matcher, and every ranked
    /// entry points at a row.
    pub open spec fn wf(&self) -> bool {
        &&& self.display_texts@.len() == self.rows@.len()
        &&& forall|i: int|
            0 <= i < self.rows@.len() ==> (#[trigger] self.display_texts@[i])@
                == self.rows@[i].entry.display@
        &&& items_fit(self.display_texts@)
        &&& self.last_query@.len() <= MAX_QUERY_CHARS
        &&& forall|i: int| 0 <= i < self.ranked@.len() ==> (#[trigger] self.ranked@[i]).row_idx < self.rows@.len()
    }

    /// The query last applied.
    pub open spec fn query(&self) -> Seq<char> {
        self.last_query@
    }

    /// The transitions the list was built with.
    pub open spec fn transitions(&self) -> Seq<TransitionPoints> {
        self.transitions@
    }

    /// The weights the list ranks with.
    pub open spec fn weights(&self) -> ScoreWeights {
        self.scoring
    }

    /// The rows passed by the type filter and, when it is on, the cwd filter.
    pub open spec fn admits(&self, row: Row) -> bool {
        filter_accepts(self.filter, row.kind) && (self.cwd_filter ==> row_is_local(
            self.cwd,
            self.transitions(),
            row,
        ))
    }

    /// The ranked entry a match becomes, if its row is admitted: every term
    /// of the formula but the type bonus.
    pub open spec fn candidate(&self, query: Seq<char>, now: int, m: FuzzyMatch) -> Option<Scored> {
        let row = self.rows@[m.idx as int];
        if self.admits(row) {
            let b = base_spec(
                match_kind_of(query, row.entry.display@, m),
                m.score as int,
                m.contiguity as int,
                row.entry.score as int,
                row.entry.last_time as int,
                now,
                row.kind == PickerMode::Commands && row_is_local(self.cwd, self.transitions(), row),
                row_transition(self.transitions(), row),
                row.entry.display@.len() as int,
                row.entry.is_favorite,
                self.weights(),
            );
            Some(Scored { row_idx: m.idx, kind: row.kind, base: b as i64, score: b as i64 })
        } else {
            None
        }
    }

    /// The matches of `query` against the display texts: every row for the
    /// empty query, the two-tier matches otherwise.
    pub open spec fn matches_of(&self, query: Seq<char>) -> Seq<FuzzyMatch> {
        if query.len() == 0 {
            all_rows(self.rows@.len())
        } else {
            tier_matches(query, self.rows@.map_values(|r: Row| r.entry.display@))
        }
    }

    /// The unranked entries the list shows for `query` at time `now`.
    pub open spec fn candidates(&self, query: Seq<char>, now: int) -> Seq<Scored> {
        fmap(self.matches_of(query), |m: FuzzyMatch| self.candidate(query, now, m))
    }

    /// `ranked` is the view of `cands`: in the All view, the type-diversity
    /// merge; in a filtered view, plain base-score order with no type bonus.
    pub open spec fn ranked_view(&self, cands: Seq<Scored>, ranked: Seq<Scored>) -> bool {
        if self.filter == TypeFilter::All {
            interleaved(cands, ranked, self.weights().type_bonus.schedule@)
        } else {
            ranked.to_multiset() == cands.to_multiset() && sorted_by_base(ranked) && unadjusted(ranked)
        }
    }

    /// Build the list and rank it for the empty query.
    pub fn new(rows: Vec<Row>, cwd: Option<String>, transitions: Vec<TransitionPoints>, scoring: ScoreWeights) -> (r: Self)
        requires
            forall|i: int| 0 <= i < rows@.len() ==> (#[trigger] rows@[i]).entry.display@.len() <= u32::MAX,
        ensures
            r.wf(),
            r.rows@ == rows@,
            r.cwd == cwd,
            r.transitions() == transitions@,
            r.weights() == scoring,
            r.filter == TypeFilter::All,
            r.selected == 0,
            r.scroll_offset == 0,
            r.visible_height == 0,
            !r.cwd_filter,
            r.query().len() == 0,
            exists|now: int| r.ranked_view(r.candidates(r.query(), now), r.ranked@),
    {
        let mut display_texts: Vec<String> = Vec::new();
        let mut i: usize = 0;
        while i < rows.len()
            invariant
                i <= rows@.len(),
                display_texts@.len() == i,
                forall|k: int| 0 <= k < i ==> (#[trigger] display_texts@[k])@ == rows@[k].entry.display@,
            decreases rows@.len() - i,
        {
            display_texts.push(rows[i].entry.display.clone());
            i += 1;
        }
        let mut list = UnifiedList {
            rows,
            ranked: Vec::new(),
            filter: TypeFilter::All,
            selected: 0,
            scroll_offset: 0,
            visible_height: 0,
            cwd_filter: false,
            cwd,
            transitions,
            scoring,
            fuzzy: FuzzyMatcher::new(),
            display_texts,
            last_query: String::new(),
        };
        proof {
            reveal_strlit("");
        }
        let ghost before = list;
        list.update_filter("");
        proof {
            let q = list.query();
            let now = choose|now: int| before.ranked_view(before.candidates(q, now), list.ranked@);
            assert forall|m: FuzzyMatch| #[trigger] list.candidate(q, now, m) == before.candidate(q, now, m) by {}
            assert((|m: FuzzyMatch| list.candidate(q, now, m)) =~= (|m: FuzzyMatch| before.candidate(q, now, m)));
            assert(list.candidates(q, now) == before.candidates(q, now));
            assert(list.ranked_view(list.candidates(q, now), list.ranked@));
        }
        list
    }

    /// The row index of the selected entry, if any.
    pub fn selected_row_index(&self) -> (r: Option<usize>)
        ensures
            r == (if self.selected < self.ranked@.len() {
                Some(self.ranked@[self.selected as int].row_idx)
            } else {
                None
            }),
    {
        if self.selected < self.ranked.len() {
            Some(self.ranked[self.selected].row_idx)
        } else {
            None
        }
    }

    /// The selected row, if any.
    pub fn selected_row(&self) -> (r: Option<&Row>)
        requires
            self.wf(),
        ensures
            match r {
                Some(row) => self.selected < self.ranked@.len() && *row == self.rows@[self.ranked@[self.selected as int].row_idx as int],
                None => self.selected >= self.ranked@.len(),
            },
    {
        match self.selected_row_index() {
            Some(i) => Some(&self.rows[i]),
            None => None,
        }
    }

    /// Re-rank for `query` at time `now`: match every display text, keep
    /// the rows the type and cwd filters admit, score them, and order them
    /// (the type-diversity merge in the All view, plain base-score order in
    /// a filtered view). The selection is clamped into the new list.
    #[verifier::rlimit(50)]
    pub fn update_filter_at(&mut self, query: &str, now: i64)
        requires
            old(self).wf(),
            query@.len() <= MAX_QUERY_CHARS,
        ensures
            final(self).wf(),
            final(self).rows@ == old(self).rows@,
            final(self).filter == old(self).filter,
            final(self).cwd_filter == old(self).cwd_filter,
            final(self).cwd == old(self).cwd,
            final(self).scroll_offset == old(self).scroll_offset,
            final(self).visible_height == old(self).visible_height,
            final(self).transitions() == old(self).transitions(),
            final(self).weights() == old(self).weights(),
            final(self).display_texts@ == old(self).display_texts@,
            final(self).query() == query@,
            old(self).ranked_view(old(self).candidates(query@, now as int), final(self).ranked@),
            rows_distinct(final(self).ranked@),
            forall|k: int| 0 <= k < final(self).ranked@.len() ==> final(self).admits(
                #[trigger] final(self).rows@[final(self).ranked@[k].row_idx as int],
            ),
            final(self).selected == (if final(self).ranked@.len() == 0 {
                0
            } else if old(self).selected >= final(self).ranked@.len() {
                (final(self).ranked@.len() - 1) as usize
            } else {
                old(self).selected
            }),
    {
        let qv = chars_of(query);
        let query_lower = lowercase(&qv);
        let matches = self.fuzzy.filter(query, self.display_texts.as_slice());
        let ghost pre = *self;
        let ghost f = |m: FuzzyMatch| pre.candidate(query@, now as int, m);
        assert forall|m: FuzzyMatch| #[trigger] pre.candidate(query@, now as int, m) == old(self).candidate(query@, now as int, m) by {}
        assert((|m: FuzzyMatch| pre.candidate(query@, now as int, m)) =~= (|m: FuzzyMatch| old(self).candidate(query@, now as int, m)));
        assert(pre.candidates(query@, now as int) == old(self).candidates(query@, now as int));
        assert(pre.ranked_view(pre.candidates(query@, now as int), self.ranked@) == old(self).ranked_view(old(self).candidates(query@, now as int), self.ranked@));
        proof {
            let disp = self.rows@.map_values(|r: Row| r.entry.display@);
            assert(texts(self.display_texts@) =~= disp);
            assert(disp.len() == self.rows.len());
            lemma_tier_matches_in_order(query@, disp);
            assert(matches@.to_multiset() == pre.matches_of(query@).to_multiset());
            assert forall|k: int| 0 <= k < matches@.len() implies (#[trigger] matches@[k]).idx < self.rows@.len() by {
                assert(matches@.to_multiset().count(matches@[k]) > 0);
                assert(pre.matches_of(query@).contains(matches@[k]));
            }
        }
        let mut scored: Vec<Scored> = Vec::new();
        let mut k: usize = 0;
        while k < matches.len()
            invariant
                k <= matches@.len(),
                *self == pre,
                pre.wf(),
                f == (|m: FuzzyMatch| pre.candidate(query@, now as int, m)),
                qv@ == query@,
                query_lower@ == unicode_lowercase(query@),
                forall|j: int| 0 <= j < matches@.len() ==> (#[trigger] matches@[j]).idx < self.rows@.len(),
                scored@ == fmap(matches@.subrange(0, k as int), f),
                unadjusted(scored@),
                bases_bounded(scored@),
            decreases matches@.len() - k,
        {
            let m = matches[k];
            let ghost sub = matches@.subrange(0, k + 1);
            assert(sub.drop_last() =~= matches@.subrange(0, k as int));
            assert(sub.last() == m);
            let row = &self.rows[m.idx];
            let idx = m.idx;
            if self.filter.accepts(row.kind) && (!self.cwd_filter || self.is_local(row)) {
                let text = self.display_texts[idx].as_str();
                assert(text@ == row.entry.display@);
                let match_kind = if query.is_empty() {
                    MatchKind::NoQuery
                } else if starts_with(&lowercase(&chars_of(text)), &query_lower) {
                    MatchKind::Prefix
                } else if m.is_substring {
                    MatchKind::Substring
                } else {
                    MatchKind::Fuzzy
                };
                let input = RankInput {
                    kind: row.kind,
                    display: text,
                    frecency: row.entry.score,
                    last_time: row.entry.last_time,
                    is_favorite: row.entry.is_favorite,
                    cwd_match: row.kind == PickerMode::Commands && self.is_local(row),
                    transition_score: self.transition_score(row),
                    match_kind,
                    fuzzy_score: m.score,
                    contiguity: m.contiguity,
                };
                let base = base_score(&input, &self.scoring, now);
                let ghost old_scored = scored@;
                scored.push(Scored { row_idx: idx, kind: row.kind, base, score: base });
                assert(f(m) == Some(scored@.last()));
                assert(scored@ =~= old_scored.push(scored@.last()));
            } else {
                assert(f(m) is None);
            }
            k += 1;
        }
        proof {
            assert(matches@.subrange(0, matches@.len() as int) =~= matches@);
            lemma_fmap_perm(matches@, pre.matches_of(query@), f);
            assert(pre.candidates(query@, now as int) == fmap(pre.matches_of(query@), f));
        }
        let ghost cands = pre.candidates(query@, now as int);
        let ranked = if self.filter == TypeFilter::All {
            let out = interleave(scored, &self.scoring.type_bonus);
            proof {
                lemma_of_kind_perm(scored@, cands);
                assert(scored@.len() == scored@.to_multiset().len());
                assert(cands.len() == cands.to_multiset().len());
            }
            out
        } else {
            sort_by_base(&scored)
        };
        proof {
            assert forall|i: int| 0 <= i < ranked@.len() implies (#[trigger] ranked@[i]).row_idx < self.rows@.len() by {
                let x = ranked@[i];
                let y = if self.filter == TypeFilter::All {
                    lemma_of_kind_has(ranked@, i);
                    let o = of_kind(ranked@, x.kind);
                    let j = choose|j: int| 0 <= j < o.len() && o[j] == x;
                    assert(stripped(o)[j] == strip(x));
                    assert(stripped(o).to_multiset().count(strip(x)) > 0);
                    assert(of_kind(cands, x.kind).to_multiset().count(strip(x)) > 0);
                    assert(of_kind(cands, x.kind).contains(strip(x)));
                    let j2 = choose|j2: int| 0 <= j2 < of_kind(cands, x.kind).len() && of_kind(cands, x.kind)[j2] == strip(x);
                    lemma_of_kind_sub(cands, x.kind, j2);
                    strip(x)
                } else {
                    assert(ranked@.to_multiset().count(x) > 0);
                    x
                };
                assert(cands.contains(y));
                assert(cands.to_multiset().count(y) > 0);
                assert(scored@.to_multiset().count(y) > 0);
                assert(scored@.contains(y));
                let q = choose|q: int| 0 <= q < scored@.len() && scored@[q] == y;
                lemma_fmap_member(matches@, f, q);
            }
            law_ranked_rows_distinct(pre, query@, now as int, ranked@);
            assert forall|k: int| 0 <= k < ranked@.len() implies pre.admits(
                #[trigger] pre.rows@[ranked@[k].row_idx as int],
            ) by {
                law_ranked_rows_admitted(pre, query@, now as int, ranked@, k);
            }
        }
        self.ranked = ranked;
        self.last_query = query.to_owned();
        if self.ranked.len() == 0 {
            self.selected = 0;
        } else if self.selected >= self.ranked.len() {
            self.selected = self.ranked.len() - 1;
        }
    }

    /// Re-rank for `query` at the current time.
    pub fn update_filter(&mut self, query: &str)
        requires
            old(self).wf(),
            query@.len() <= MAX_QUERY_CHARS,
        ensures
            final(self).wf(),
            final(self).rows@ == old(self).rows@,
            final(self).filter == old(self).filter,
            final(self).cwd_filter == old(self).cwd_filter,
            final(self).cwd == old(self).cwd,
            final(self).scroll_offset == old(self).scroll_offset,
            final(self).visible_height == old(self).visible_height,
            final(self).transitions() == old(self).transitions(),
            final(self).weights() == old(self).weights(),
            final(self).display_texts@ == old(self).display_texts@,
            final(self).query() == query@,
            exists|now: int| old(self).ranked_view(old(self).candidates(query@, now), final(self).ranked@),
            rows_distinct(final(self).ranked@),
            forall|k: int| 0 <= k < final(self).ranked@.len() ==> final(self).admits(
                #[trigger] final(self).rows@[final(self).ranked@[k].row_idx as int],
            ),
            final(self).selected == (if final(self).ranked@.len() == 0 {
                0
            } else if old(self).selected >= final(self).ranked@.len() {
                (final(self).ranked@.len() - 1) as usize
            } else {
                old(self).selected
            }),
    {
        let now = now_unix();
        self.update_filter_at(query, now);
    }

    /// Show the next type filter, from the top, re-ranked for the last query.
    pub fn cycle_filter(&mut self)
        requires
            old(self).wf(),
        ensures
            final(self).wf(),
            final(self).filter == filter_next(old(self).filter),
            final(self).selected == 0,
            final(self).scroll_offset == 0,
            final(self).rows@ == old(self).rows@,
            final(self).cwd_filter == old(self).cwd_filter,
            final(self).cwd == old(self).cwd,
            final(self).visible_height == old(self).visible_height,
            final(self).transitions() == old(self).transitions(),
            final(self).weights() == old(self).weights(),
            final(self).display_texts@ == old(self).display_texts@,
            final(self).query() == old(self).query(),
            exists|now: int| final(self).ranked_view(final(self).candidates(final(self).query(), now), final(self).ranked@),
    {
        self.filter = self.filter.next();
        self.selected = 0;
        self.scroll_offset = 0;
        self.refresh();
    }

    /// Show the previous type filter, from the top, re-ranked for the last query.
    pub fn cycle_filter_back(&mut self)
        requires
            old(self).wf(),
        ensures
            final(self).wf(),
            final(self).filter == filter_prev(old(self).filter),
            final(self).selected == 0,
            final(self).scroll_offset == 0,
            final(self).rows@ == old(self).rows@,
            final(self).cwd_filter == old(self).cwd_filter,
            final(self).cwd == old(self).cwd,
            final(self).visible_height == old(self).visible_height,
            final(self).transitions() == old(self).transitions(),
            final(self).weights() == old(self).weights(),
            final(self).display_texts@ == old(self).display_texts@,
            final(self).query() == old(self).query(),
            exists|now: int| final(self).ranked_view(final(self).candidates(final(self).query(), now), final(self).ranked@),
    {
        self.filter = self.filter.prev();
        self.selected = 0;
        self.scroll_offset = 0;
        self.refresh();
    }

    /// Turn the cwd filter on or off, from the top, re-ranked for the last query.
    pub fn set_cwd_filter(&mut self, on: bool)
        requires
            old(self).wf(),
        ensures
            final(self).wf(),
            final(self).cwd_filter == on,
            final(self).filter == old(self).filter,
            final(self).selected == 0,
            final(self).scroll_offset == 0,
            final(self).rows@ == old(self).rows@,
            final(self).cwd == old(self).cwd,
            final(self).visible_height == old(self).visible_height,
            final(self).transitions() == old(self).transitions(),
            final(self).weights() == old(self).weights(),
            final(self).display_texts@ == old(self).display_texts@,
            final(self).query() == old(self).query(),
            exists|now: int| final(self).ranked_view(final(self).candidates(final(self).query(), now), final(self).ranked@),
    {
        self.cwd_filter = on;
        self.selected = 0;
        self.scroll_offset = 0;
        self.refresh();
    }

    /// Re-rank for the last query, keeping everything but the ranked view
    /// and the (clamped) selection.
    fn refresh(&mut self)
        requires
            old(self).wf(),
        ensures
            final(self).wf(),
            final(self).rows@ == old(self).rows@,
            final(self).filter == old(self).filter,
            final(self).cwd_filter == old(self).cwd_filter,
            final(self).cwd == old(self).cwd,
            final(self).scroll_offset == old(self).scroll_offset,
            final(self).visible_height == old(self).visible_height,
            final(self).transitions@ == old(self).transitions@,
            final(self).scoring == old(self).scoring,
            final(self).display_texts@ == old(self).display_texts@,
            final(self).query() == old(self).query(),
            exists|now: int| final(self).ranked_view(final(self).candidates(final(self).query(), now), final(self).ranked@),
            final(self).selected == (if final(self).ranked@.len() == 0 {
                0
            } else if old(self).selected >= final(self).ranked@.len() {
                (final(self).ranked@.len() - 1) as usize
            } else {
                old(self).selected
            }),
    {
        let q = self.last_query.clone();
        let ghost before = *self;
        self.update_filter(q.as_str());
        proof {
            let qq = self.query();
            let now = choose|now: int| before.ranked_view(before.candidates(qq, now), self.ranked@);
            lemma_same_candidates(*self, before, qq, now);
        }
    }

    /// Drop a row from the backing store and rebuild the ranked view. An
    /// index past the end changes nothing.
    pub fn remove_row(&mut self, row_idx: usize)
        requires
            old(self).wf(),
        ensures
            final(self).wf(),
            row_idx >= old(self).rows@.len() ==> *final(self) == *old(self),
            row_idx < old(self).rows@.len() ==> {
                &&& final(self).rows@ == old(self).rows@.remove(row_idx as int)
                &&& final(self).filter == old(self).filter
                &&& final(self).cwd_filter == old(self).cwd_filter
                &&& final(self).cwd == old(self).cwd
                &&& final(self).scroll_offset == old(self).scroll_offset
                &&& final(self).visible_height == old(self).visible_height
                &&& final(self).transitions() == old(self).transitions()
                &&& final(self).weights() == old(self).weights()
                &&& final(self).display_texts@ == old(self).display_texts@.remove(row_idx as int)
                &&& final(self).selected == (if final(self).ranked@.len() == 0 {
                    0
                } else if old(self).selected >= final(self).ranked@.len() {
                    (final(self).ranked@.len() - 1) as usize
                } else {
                    old(self).selected
                })
                &&& final(self).query() == old(self).query()
                &&& exists|now: int| final(self).ranked_view(final(self).candidates(final(self).query(), now), final(self).ranked@)
            },
    {
        if row_idx >= self.rows.len() {
            return;
        }
        let ghost old_rows = self.rows@;
        let ghost old_texts = self.display_texts@;
        self.rows.remove(row_idx);
        self.display_texts.remove(row_idx);
        proof {
            assert forall|i: int| 0 <= i < self.rows@.len() implies (#[trigger] self.display_texts@[i])@
                == self.rows@[i].entry.display@ by {
                if i < row_idx {
                    assert(self.display_texts@[i] == old_texts[i]);
                } else {
                    assert(self.display_texts@[i] == old_texts[i + 1]);
                }
            }
            assert forall|i: int| 0 <= i < self.display_texts@.len() implies (#[trigger] self.display_texts@[i])@.len() <= u32::MAX by {
                if i < row_idx {
                    assert(self.display_texts@[i] == old_texts[i]);
                } else {
                    assert(self.display_texts@[i] == old_texts[i + 1]);
                }
            }
        }
        self.ranked = Vec::new();
        self.refresh();
    }

    /// Move the selection one entry up, stopping at the top.
    pub fn move_up(&mut self)
        ensures
            *final(self) == (UnifiedList {
                selected: if old(self).selected > 0 { (old(self).selected - 1) as usize } else { 0 },
                ..*old(self)
            }),
    {
        if self.selected > 0 {
            self.selected -= 1;
        }
    }

    /// Move the selection one entry down, stopping at the last entry.
    pub fn move_down(&mut self)
        ensures
            *final(self) == (UnifiedList {
                selected: if old(self).ranked@.len() > 0 && old(self).selected < old(self).ranked@.len() - 1 {
                    (old(self).selected + 1) as usize
                } else {
                    old(self).selected
                },
                ..*old(self)
            }),
    {
        if self.ranked.len() > 0 && self.selected < self.ranked.len() - 1 {
            self.selected += 1;
        }
    }

    /// Move selection and scroll up by a page (the visible height less one
    /// line, at least one line), stopping at the top.
    pub fn page_up(&mut self)
        ensures
            *final(self) == (UnifiedList {
                selected: sat_sub(old(self).selected as int, page_step(old(self).visible_height as int)) as usize,
                scroll_offset: sat_sub(old(self).scroll_offset as int, page_step(old(self).visible_height as int)) as usize,
                ..*old(self)
            }),
    {
        let ps = if self.visible_height > 1 { self.visible_height - 1 } else { 1 };
        self.selected = if self.selected >= ps { self.selected - ps } else { 0 };
        self.scroll_offset = if self.scroll_offset >= ps { self.scroll_offset - ps } else { 0 };
    }

    /// Move selection and scroll down by a page, the selection stopping at
    /// the last entry and the scroll where the last page starts.
    pub fn page_down(&mut self)
        ensures
            old(self).ranked@.len() == 0 ==> *final(self) == *old(self),
            old(self).ranked@.len() > 0 ==> *final(self) == (UnifiedList {
                selected: min_int(old(self).selected + page_step(old(self).visible_height as int), old(self).ranked@.len() - 1) as usize,
                scroll_offset: min_int(
                    old(self).scroll_offset + page_step(old(self).visible_height as int),
                    sat_sub(old(self).ranked@.len() as int, old(self).visible_height as int),
                ) as usize,
                ..*old(self)
            }),
    {
        if self.ranked.len() == 0 {
            return;
        }
        let ps = if self.visible_height > 1 { self.visible_height - 1 } else { 1 };
        let last = self.ranked.len() - 1;
        self.selected = if self.selected >= last || last - self.selected <= ps { last } else { self.selected + ps };
        let max_offset = if self.ranked.len() >= self.visible_height { self.ranked.len() - self.visible_height } else { 0 };
        self.scroll_offset = if self.scroll_offset >= max_offset || max_offset - self.scroll_offset <= ps { max_offset } else { self.scroll_offset + ps };
    }

    /// Record the visible height and scroll so the selection is on screen.
    /// A height of zero changes nothing.
    pub fn ensure_visible(&mut self, visible_height: usize)
        ensures
            visible_height == 0 ==> *final(self) == *old(self),
            visible_height > 0 ==> *final(self) == (UnifiedList {
                visible_height,
                scroll_offset: visible_scroll(
                    old(self).selected as int,
                    min_int(old(self).scroll_offset as int, sat_sub(old(self).ranked@.len() as int, visible_height as int)),
                    visible_height as int,
                ) as usize,
                ..*old(self)
            }),
            visible_height > 0 && old(self).ranked@.len() > 0 && old(self).selected < old(self).ranked@.len() ==> final(self).scroll_offset <= final(self).selected < final(self).scroll_offset + visible_height,
    {
        if visible_height == 0 {
            return;
        }
        self.visible_height = visible_height;
        let max_offset = if self.ranked.len() >= visible_height { self.ranked.len() - visible_height } else { 0 };
        if self.scroll_offset > max_offset {
            self.scroll_offset = max_offset;
        }
        if self.selected < self.scroll_offset {
            self.scroll_offset = self.selected;
        } else if self.selected - self.scroll_offset >= visible_height {
            self.scroll_offset = self.selected - visible_height + 1;
        }
    }

    /// Matched character positions of `text` for highlighting, from a
    /// matcher built on the spot.
    pub fn fuzzy_positions(&self, query: &str, text: &str) -> (r: Vec<u32>)
        requires
            text@.len() <= u32::MAX,
            query@.len() <= MAX_QUERY_CHARS,
        ensures
            query@.len() == 0 ==> r@.len() == 0,
            query@.len() > 0 ==> r@.to_multiset() == crate::tui::fuzzy::matched_positions(query@, text@).to_multiset(),
            query@.len() > 0 ==> forall|a: int, b: int| 0 <= a < b < r@.len() ==> r@[a] <= r@[b],
    {
        let mut m = FuzzyMatcher::new();
        m.match_positions(query, text)
    }

    /// The transition entry for `(kind, target)`, if any.
    fn find_transition(&self, kind: PickerMode, target: &String) -> (r: Option<usize>)
        ensures
            match r {
                Some(i) => i < self.transitions@.len() && transition_of(self.transitions@, kind, target@) == Some(self.transitions@[i as int]),
                None => transition_of(self.transitions@, kind, target@) is None,
            },
    {
        let mut i: usize = self.transitions.len();
        assert(self.transitions@.subrange(0, self.transitions@.len() as int) =~= self.transitions@);
        while i > 0
            invariant
                i <= self.transitions@.len(),
                transition_of(self.transitions@, kind, target@) == transition_of(
                    self.transitions@.subrange(0, i as int),
                    kind,
                    target@,
                ),
            decreases i,
        {
            let ghost rest = self.transitions@.subrange(0, i as int);
            assert(rest.last() == self.transitions@[i - 1]);
            if self.transitions[i - 1].kind == kind && self.transitions[i - 1].target == *target {
                return Some(i - 1);
            }
            assert(rest.drop_last() =~= self.transitions@.subrange(0, i - 1));
            i -= 1;
        }
        None
    }

    fn transition_score(&self, row: &Row) -> (r: i32)
        ensures
            r == row_transition(self.transitions(), *row),
    {
        if row.kind == PickerMode::Commands {
            return 0;
        }
        match self.find_transition(row.kind, &row.entry.value) {
            Some(i) => self.transitions[i].points,
            None => 0,
        }
    }

    /// True when this row is tied to the current directory.
    fn is_local(&self, row: &Row) -> (r: bool)
        ensures
            r == row_is_local(self.cwd, self.transitions(), *row),
    {
        if row.kind == PickerMode::Commands {
            match (&self.cwd, &row.entry.cwd) {
                (Some(cur), Some(rc)) => *cur == *rc,
                _ => false,
            }
        } else {
            match self.find_transition(row.kind, &row.entry.value) {
                Some(i) => self.transitions[i].positive,
                None => false,
            }
        }
    }
}

/// The filters only narrow the list: an entry shown with the cwd filter on
/// is shown, with the same score, with it off, and is tied to the current
/// directory; and every entry shown is of the type the type filter selects.
pub proof fn law_filters_only_narrow(l: UnifiedList, query: Seq<char>, now: int, m: FuzzyMatch)
    requires
        0 <= m.idx < l.rows@.len(),
    ensures
        l.candidate(query, now, m) is Some ==> filter_accepts(l.filter, l.rows@[m.idx as int].kind),
        l.cwd_filter && l.candidate(query, now, m) is Some ==> {
            &&& (UnifiedList { cwd_filter: false, ..l }).candidate(query, now, m) == l.candidate(query, now, m)
            &&& row_is_local(l.cwd, l.transitions(), l.rows@[m.idx as int])
        },
{
}

/// Every entry of the ranked view is a row of the list that the type
/// filter and, when it is on, the cwd filter admit, whatever the query and
/// the time.
pub proof fn law_ranked_rows_admitted(l: UnifiedList, query: Seq<char>, now: int, ranked: Seq<Scored>, k: int)
    requires
        l.ranked_view(l.candidates(query, now), ranked),
        0 <= k < ranked.len(),
    ensures
        ranked[k].row_idx < l.rows@.len(),
        l.admits(l.rows@[ranked[k].row_idx as int]),
{
    let c = l.candidates(query, now);
    let x = ranked[k];
    let y = if l.filter == TypeFilter::All {
        lemma_of_kind_has(ranked, k);
        let o = of_kind(ranked, x.kind);
        let j = choose|j: int| 0 <= j < o.len() && o[j] == x;
        assert(stripped(o)[j] == strip(x));
        assert(stripped(o).to_multiset().count(strip(x)) > 0);
        assert(of_kind(c, x.kind).to_multiset().count(strip(x)) > 0);
        assert(of_kind(c, x.kind).contains(strip(x)));
        let j2 = choose|j2: int| 0 <= j2 < of_kind(c, x.kind).len() && of_kind(c, x.kind)[j2] == strip(x);
        lemma_of_kind_sub(c, x.kind, j2);
        strip(x)
    } else {
        assert(ranked.to_multiset().count(x) > 0);
        x
    };
    assert(c.to_multiset().count(y) > 0);
    assert(c.contains(y));
    let q = choose|q: int| 0 <= q < c.len() && c[q] == y;
    let ms = l.matches_of(query);
    lemma_fmap_member(ms, |m: FuzzyMatch| l.candidate(query, now, m), q);
    let j = choose|j: int| 0 <= j < ms.len() && l.candidate(query, now, ms[j]) == Some(c[q]);
    assert(l.rows@.len() == l.rows.len());
    if query.len() > 0 {
        lemma_tier_matches_in_order(query, l.rows@.map_values(|r: Row| r.entry.display@));
    }
    assert(ms[j].idx < l.rows@.len());
}

/// Prefix matching ignores case: a row whose lowercased display starts with
/// the lowercased (non-empty) query is a prefix match, whatever the fuzzy
/// matcher reported, and only such a row is.
pub proof fn law_prefix_match_ignores_case(query: Seq<char>, display: Seq<char>, m: FuzzyMatch)
    requires
        query.len() > 0,
    ensures
        ({
            let q = unicode_lowercase(query);
            let d = unicode_lowercase(display);
            (q.len() <= d.len() && d.subrange(0, q.len() as int) == q) <==> match_kind_of(query, display, m)
                == MatchKind::Prefix
        }),
{
    let q = unicode_lowercase(query);
    let d = unicode_lowercase(display);
    if q.len() <= d.len() && d.subrange(0, q.len() as int) == q {
        assert forall|k: int| 0 <= k < q.len() implies d[k] == q[k] by {
            assert(d.subrange(0, q.len() as int)[k] == d[k]);
        }
    }
    if occurs_at(d, q, 0) {
        assert(d.subrange(0, q.len() as int) =~= q);
    }
}

/// The match kind depends on the query and the display only through their
/// lowercase forms: two rows whose displays lowercase alike, matched by
/// queries that lowercase alike, get the same kind.
pub proof fn law_match_kind_case_blind(q1: Seq<char>, q2: Seq<char>, d1: Seq<char>, d2: Seq<char>, m: FuzzyMatch)
    requires
        q1.len() > 0,
        q2.len() > 0,
        unicode_lowercase(q1) == unicode_lowercase(q2),
        unicode_lowercase(d1) == unicode_lowercase(d2),
    ensures
        match_kind_of(q1, d1, m) == match_kind_of(q2, d2, m),
{
}

} // verus!
