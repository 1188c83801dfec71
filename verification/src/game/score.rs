//! Scoring of an attempt: each hit raises the combo and scores 100 times the
//! combo reached; a miss breaks the combo.

use vstd::prelude::*;

verus! {

/// The scoring part of an attempt.
pub struct ScoreState {
    pub score: i64,
    /// Current combo, broken by a miss.
    pub combo: u32,
    /// Best combo of the attempt.
    pub best_combo: u32,
    pub hits: u32,
    pub misses: u32,
}

pub struct ScoreView {
    pub score: int,
    pub combo: int,
    pub best_combo: int,
    pub hits: int,
    pub misses: int,
}

impl View for ScoreState {
    type V = ScoreView;

    open spec fn view(&self) -> ScoreView {
        ScoreView {
            score: self.score as int,
            combo: self.combo as int,
            best_combo: self.best_combo as int,
            hits: self.hits as int,
            misses: self.misses as int,
        }
    }
}

/// The state after one judgment: a hit or a miss.
pub open spec fn judge(s: ScoreView, hit: bool) -> ScoreView {
    if hit {
        ScoreView {
            score: s.score + 100 * (s.combo + 1),
            combo: s.combo + 1,
            best_combo: if s.combo + 1 > s.best_combo {
                s.combo + 1
            } else {
                s.best_combo
            },
            hits: s.hits + 1,
            misses: s.misses,
        }
    } else {
        ScoreView { combo: 0, misses: s.misses + 1, ..s }
    }
}

/// The state of a fresh attempt.
pub open spec fn fresh() -> ScoreView {
    ScoreView { score: 0, combo: 0, best_combo: 0, hits: 0, misses: 0 }
}

/// The state after the judgments `js` (true for a hit), in order, from `s`.
pub open spec fn judge_all(s: ScoreView, js: Seq<bool>) -> ScoreView
    decreases js.len(),
{
    if js.len() == 0 {
        s
    } else {
        judge(judge_all(s, js.drop_last()), js.last())
    }
}

/// The states an attempt can reach: the combo never exceeds the best combo nor
/// the number of hits, and nothing is negative.
pub open spec fn consistent(s: ScoreView) -> bool {
    &&& 0 <= s.combo <= s.best_combo <= s.hits
    &&& 0 <= s.misses
    &&& 0 <= s.score
}

impl ScoreState {
    pub fn new() -> (r: Self)
        ensures
            r@ == fresh(),
    {
        ScoreState { score: 0, combo: 0, best_combo: 0, hits: 0, misses: 0 }
    }

    /// A note was hit.
    pub fn register_hit(&mut self)
        requires
            old(self).combo < u32::MAX,
            old(self).hits < u32::MAX,
            old(self).score + 100 * (old(self).combo + 1) <= i64::MAX,
        ensures
            final(self)@ == judge(old(self)@, true),
    {
        self.combo = self.combo + 1;
        if self.combo > self.best_combo {
            self.best_combo = self.combo;
        }
        self.hits = self.hits + 1;
        self.score = self.score + 100 * (self.combo as i64);
    }

    /// A note was missed.
    pub fn register_miss(&mut self)
        requires
            old(self).misses < u32::MAX,
        ensures
            final(self)@ == judge(old(self)@, false),
    {
        self.combo = 0;
        self.misses = self.misses + 1;
    }
}

/// Every judgment keeps an attempt consistent.
pub proof fn lemma_judge_keeps_consistent(s: ScoreView, hit: bool)
    requires
        consistent(s),
    ensures
        consistent(judge(s, hit)),
{
}

/// Each judgment counts once: hits and misses add up to the judgments made.
pub proof fn lemma_judgments_counted(js: Seq<bool>)
    ensures
        judge_all(fresh(), js).hits + judge_all(fresh(), js).misses == js.len(),
        consistent(judge_all(fresh(), js)),
    decreases js.len(),
{
    if js.len() > 0 {
        lemma_judgments_counted(js.drop_last());
    }
}

/// The score never goes down.
pub proof fn lemma_score_never_decreases(s: ScoreView, hit: bool)
    requires
        consistent(s),
    ensures
        judge(s, hit).score >= s.score,
{
}

/// After a miss the combo restarts: the next hit scores 100.
pub proof fn lemma_miss_restarts_combo(s: ScoreView)
    ensures
        judge(judge(s, false), true).score == s.score + 100,
        judge(judge(s, false), true).combo == 1,
{
}

/// `n` hits in a row.
pub open spec fn all_hits(n: nat) -> Seq<bool> {
    Seq::new(n, |i: int| true)
}

/// `n` hits in a row from a fresh attempt score `100 * (1 + 2 + ... + n)`, that is
/// `50 * n * (n + 1)`, with a combo and best combo of `n`.
pub proof fn lemma_full_combo(n: nat)
    ensures
        judge_all(fresh(), all_hits(n)).score == 50 * n * (n + 1),
        judge_all(fresh(), all_hits(n)).combo == n,
        judge_all(fresh(), all_hits(n)).best_combo == n,
    decreases n,
{
    if n > 0 {
        let js = all_hits(n);
        let prev = all_hits((n - 1) as nat);
        assert(js.drop_last() =~= prev);
        lemma_full_combo((n - 1) as nat);
        let m = (n - 1) as nat;
        assert(js.last());
        assert(judge_all(fresh(), js) == judge(judge_all(fresh(), prev), true));
        assert(50 * m * (m + 1) + 100 * (m + 1) == 50 * n * (n + 1)) by (nonlinear_arith)
            requires
                m + 1 == n,
        ;
    } else {
        assert(judge_all(fresh(), all_hits(n)) == fresh());
        assert(50 * n * (n + 1) == 0) by (nonlinear_arith)
            requires
                n == 0,
        ;
    }
}

/// Every hit scores 100 times the combo it reaches, the combo one more than
/// before, whatever came earlier; a miss scores nothing and sets the combo to 0.
pub proof fn lemma_each_judgment(s: ScoreView)
    ensures
        judge(s, true).combo == s.combo + 1,
        judge(s, true).score == s.score + 100 * judge(s, true).combo,
        judge(s, true).hits == s.hits + 1,
        judge(s, true).misses == s.misses,
        judge(s, false).combo == 0,
        judge(s, false).score == s.score,
        judge(s, false).misses == s.misses + 1,
        judge(s, false).hits == s.hits,
        judge(s, false).best_combo == s.best_combo,
{
}

/// `k` hits in a row from any state raise the combo by `k` and add
/// `100 * ((c + 1) + ... + (c + k))`, that is `100 * k * c + 50 * k * (k + 1)`,
/// where `c` is the combo before them.
pub proof fn lemma_hits_in_a_row(s: ScoreView, k: nat)
    ensures
        judge_all(s, all_hits(k)).combo == s.combo + k,
        judge_all(s, all_hits(k)).score == s.score + 100 * k * s.combo + 50 * k * (k + 1),
    decreases k,
{
    if k > 0 {
        let m = (k - 1) as nat;
        let js = all_hits(k);
        assert(js.drop_last() =~= all_hits(m));
        assert(js.last());
        lemma_hits_in_a_row(s, m);
        let prev = judge_all(s, all_hits(m));
        assert(judge_all(s, js) == judge(prev, true));
        let c = s.combo;
        assert(s.score + 100 * m * c + 50 * m * (m + 1) + 100 * (c + m + 1) == s.score + 100 * k * c + 50
            * k * (k + 1)) by (nonlinear_arith)
            requires
                m + 1 == k,
        ;
    } else {
        assert(judge_all(s, all_hits(k)) == s);
        assert(100 * k * s.combo + 50 * k * (k + 1) == 0) by (nonlinear_arith)
            requires
                k == 0,
        ;
    }
}

/// After a miss, `k` hits in a row add `50 * k * (k + 1)`, from any state: the
/// combo starts again from 0.
pub proof fn lemma_miss_then_hits(s: ScoreView, k: nat)
    ensures
        judge_all(judge(s, false), all_hits(k)).score == s.score + 50 * k * (k + 1),
        judge_all(judge(s, false), all_hits(k)).combo == k,
{
    lemma_hits_in_a_row(judge(s, false), k);
}

} // verus!
