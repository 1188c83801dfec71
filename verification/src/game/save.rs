//! The record book: the best score, best combo and accuracy kept for each map.

use vstd::prelude::*;

verus! {

/// The best result kept for a map.
pub struct MapRecord {
    pub best_score: i64,
    pub best_combo: u32,
    /// The accuracy of the best score, in percent, as the bits of an `f64`.
    pub best_accuracy_bits: u64,
    /// Modifiers active for the best score (e.g. "NF"), empty when none.
    pub best_score_mods: String,
}

pub struct RecordView {
    pub best_score: i64,
    pub best_combo: u32,
    pub best_accuracy_bits: u64,
    pub best_score_mods: Seq<char>,
}

impl View for MapRecord {
    type V = RecordView;

    open spec fn view(&self) -> RecordView {
        RecordView {
            best_score: self.best_score,
            best_combo: self.best_combo,
            best_accuracy_bits: self.best_accuracy_bits,
            best_score_mods: self.best_score_mods@,
        }
    }
}

/// The record of a map never played: all zero, no modifiers.
pub open spec fn empty_record() -> RecordView {
    RecordView { best_score: 0, best_combo: 0, best_accuracy_bits: 0, best_score_mods: Seq::empty() }
}

/// The record after a result: the score, its accuracy and its modifiers replace
/// the best ones when the score beats the best score; the combo replaces the best
/// combo when it beats it.
pub open spec fn improved(r: RecordView, score: i64, combo: u32, accuracy_bits: u64, mods: Seq<char>) -> RecordView {
    let s = if score > r.best_score {
        RecordView { best_score: score, best_accuracy_bits: accuracy_bits, best_score_mods: mods, ..r }
    } else {
        r
    };
    if combo > s.best_combo {
        RecordView { best_combo: combo, ..s }
    } else {
        s
    }
}

/// The record a map has in `m`, or the empty record when it has none.
pub open spec fn record_of(m: Map<Seq<char>, RecordView>, map_id: Seq<char>) -> RecordView {
    if m.contains_key(map_id) {
        m[map_id]
    } else {
        empty_record()
    }
}

/// The records after a result is kept: the map's record improved by it.
pub open spec fn submitted(
    m: Map<Seq<char>, RecordView>,
    map_id: Seq<char>,
    score: i64,
    combo: u32,
    accuracy_bits: u64,
    mods: Seq<char>,
) -> Map<Seq<char>, RecordView> {
    m.insert(map_id, improved(record_of(m, map_id), score, combo, accuracy_bits, mods))
}

/// One result handed to the record book.
pub struct Submission {
    pub map_id: Seq<char>,
    pub score: i64,
    pub combo: u32,
    pub accuracy_bits: u64,
    pub mods: Seq<char>,
}

/// The records after the results `subs` are kept, in order.
pub open spec fn submit_all(m: Map<Seq<char>, RecordView>, subs: Seq<Submission>) -> Map<Seq<char>, RecordView>
    decreases subs.len(),
{
    if subs.len() == 0 {
        m
    } else {
        let s = subs.last();
        submitted(submit_all(m, subs.drop_last()), s.map_id, s.score, s.combo, s.accuracy_bits, s.mods)
    }
}

impl MapRecord {
    pub fn new() -> (r: Self)
        ensures
            r@ == empty_record(),
    {
        MapRecord { best_score: 0, best_combo: 0, best_accuracy_bits: 0, best_score_mods: String::new() }
    }

    /// A copy of the record.
    pub fn copy(&self) -> (r: Self)
        ensures
            r@ == self@,
    {
        MapRecord {
            best_score: self.best_score,
            best_combo: self.best_combo,
            best_accuracy_bits: self.best_accuracy_bits,
            best_score_mods: self.best_score_mods.clone(),
        }
    }
}

/// The map from keys to records that a list of distinct keys gives.
pub open spec fn to_map(s: Seq<(Seq<char>, RecordView)>) -> Map<Seq<char>, RecordView>
    decreases s.len(),
{
    if s.len() == 0 {
        Map::empty()
    } else {
        to_map(s.drop_last()).insert(s.last().0, s.last().1)
    }
}

pub open spec fn distinct_keys(s: Seq<(Seq<char>, RecordView)>) -> bool {
    forall|i: int, j: int| 0 <= i < j < s.len() ==> #[trigger] s[i].0 != #[trigger] s[j].0
}

proof fn lemma_to_map_absent(s: Seq<(Seq<char>, RecordView)>, k: Seq<char>)
    requires
        forall|i: int| 0 <= i < s.len() ==> #[trigger] s[i].0 != k,
    ensures
        !to_map(s).contains_key(k),
    decreases s.len(),
{
    if s.len() > 0 {
        lemma_to_map_absent(s.drop_last(), k);
    }
}

proof fn lemma_to_map_lookup(s: Seq<(Seq<char>, RecordView)>, i: int)
    requires
        distinct_keys(s),
        0 <= i < s.len(),
    ensures
        to_map(s).contains_key(s[i].0),
        to_map(s)[s[i].0] == s[i].1,
    decreases s.len(),
{
    if i < s.len() - 1 {
        let t = s.drop_last();
        assert(t[i] == s[i]);
        lemma_to_map_lookup(t, i);
        assert(s[i].0 != s[s.len() - 1].0);
    }
}

proof fn lemma_to_map_update(s: Seq<(Seq<char>, RecordView)>, i: int, v: RecordView)
    requires
        distinct_keys(s),
        0 <= i < s.len(),
    ensures
        to_map(s.update(i, (s[i].0, v))) == to_map(s).insert(s[i].0, v),
        distinct_keys(s.update(i, (s[i].0, v))),
    decreases s.len(),
{
    let u = s.update(i, (s[i].0, v));
    if i == s.len() - 1 {
        assert(u.drop_last() =~= s.drop_last());
        assert(to_map(u) =~= to_map(s).insert(s[i].0, v));
    } else {
        let t = s.drop_last();
        assert(u.drop_last() =~= t.update(i, (t[i].0, v)));
        lemma_to_map_update(t, i, v);
        assert(s[i].0 != s.last().0);
        assert(to_map(u) =~= to_map(s).insert(s[i].0, v));
    }
}

proof fn lemma_to_map_dom(s: Seq<(Seq<char>, RecordView)>)
    ensures
        to_map(s).dom().finite(),
        forall|k: Seq<char>| #[trigger] to_map(s).contains_key(k) ==> exists|i: int| 0 <= i < s.len() && s[i].0 == k,
        distinct_keys(s) ==> to_map(s).dom().len() == s.len(),
    decreases s.len(),
{
    if s.len() > 0 {
        let t = s.drop_last();
        lemma_to_map_dom(t);
        assert forall|k: Seq<char>| #[trigger] to_map(s).contains_key(k) implies exists|i: int|
            0 <= i < s.len() && s[i].0 == k by {
            if k == s.last().0 {
                assert(s[s.len() - 1].0 == k);
            } else {
                assert(to_map(t).contains_key(k));
                let i = choose|i: int| 0 <= i < t.len() && t[i].0 == k;
                assert(s[i] == t[i]);
            }
        }
        if distinct_keys(s) {
            assert(distinct_keys(t)) by {
                assert forall|i: int, j: int| 0 <= i < j < t.len() implies #[trigger] t[i].0 != #[trigger] t[j].0 by {
                    assert(t[i] == s[i] && t[j] == s[j]);
                }
            }
            assert forall|i: int| 0 <= i < t.len() implies #[trigger] t[i].0 != s.last().0 by {
                assert(t[i] == s[i]);
                assert(s[i].0 != s[s.len() - 1].0);
            }
            lemma_to_map_absent(t, s.last().0);
            assert(to_map(s).dom() =~= to_map(t).dom().insert(s.last().0));
        }
    } else {
        assert(to_map(s).dom() =~= Set::<Seq<char>>::empty());
    }
}

/// The records of all maps played, one per map id.
pub struct SaveData {
    entries: Vec<(String, MapRecord)>,
}

impl SaveData {
    pub closed spec fn pairs(&self) -> Seq<(Seq<char>, RecordView)> {
        self.entries@.map_values(|e: (String, MapRecord)| (e.0@, e.1@))
    }

    /// The map ids are distinct.
    pub closed spec fn wf(&self) -> bool {
        distinct_keys(self.pairs())
    }

    /// The records, by map id.
    pub closed spec fn records(&self) -> Map<Seq<char>, RecordView> {
        to_map(self.pairs())
    }

    /// The number of maps with a record.
    pub closed spec fn count(&self) -> nat {
        self.entries@.len()
    }

    /// The map id at position `i` of the listing.
    pub closed spec fn key_at(&self, i: int) -> Seq<char> {
        self.pairs()[i].0
    }

    pub fn new() -> (r: Self)
        ensures
            r.wf(),
            r.records() == Map::<Seq<char>, RecordView>::empty(),
            r.count() == 0,
    {
        let r = SaveData { entries: Vec::new() };
        assert(r.pairs() =~= Seq::<(Seq<char>, RecordView)>::empty());
        r
    }

    /// The position of a map id.
    fn find(&self, key: &String) -> (r: Option<usize>)
        requires
            self.wf(),
        ensures
            match r {
                Some(i) => i < self.count() && self.pairs()[i as int].0 == key@,
                None => forall|i: int| 0 <= i < self.pairs().len() ==> #[trigger] self.pairs()[i].0 != key@,
            },
    {
        let mut i: usize = 0;
        while i < self.entries.len()
            invariant
                i <= self.entries@.len(),
                forall|j: int| 0 <= j < i ==> #[trigger] self.pairs()[j].0 != key@,
            decreases self.entries@.len() - i,
        {
            assert(self.pairs()[i as int].0 == self.entries@[i as int].0@);
            if self.entries[i].0 == *key {
                return Some(i);
            }
            i = i + 1;
        }
        None
    }

    /// The record of a map, if it has one.
    pub fn get(&self, map_id: &str) -> (r: Option<MapRecord>)
        requires
            self.wf(),
        ensures
            match r {
                Some(rec) => self.records().contains_key(map_id@) && rec@ == self.records()[map_id@],
                None => !self.records().contains_key(map_id@),
            },
    {
        let key = String::from_str(map_id);
        match self.find(&key) {
            Some(i) => {
                proof {
                    lemma_to_map_lookup(self.pairs(), i as int);
                }
                assert(self.pairs()[i as int].1 == self.entries@[i as int].1@);
                Some(self.entries[i].1.copy())
            },
            None => {
                proof {
                    lemma_to_map_absent(self.pairs(), key@);
                }
                None
            },
        }
    }

    /// Set the record of a map, replacing the one it had.
    pub fn set(&mut self, map_id: String, record: MapRecord)
        requires
            old(self).wf(),
        ensures
            final(self).wf(),
            final(self).records() == old(self).records().insert(map_id@, record@),
    {
        match self.find(&map_id) {
            Some(i) => {
                let ghost old_pairs = self.pairs();
                let ghost rv = record@;
                self.entries.set(i, (map_id, record));
                proof {
                    lemma_to_map_update(old_pairs, i as int, rv);
                    assert(self.pairs() =~= old_pairs.update(i as int, (old_pairs[i as int].0, rv)));
                }
            },
            None => {
                let ghost old_pairs = self.pairs();
                let ghost kv = (map_id@, record@);
                self.entries.push((map_id, record));
                proof {
                    assert(self.pairs() =~= old_pairs.push(kv));
                    assert(self.pairs().drop_last() =~= old_pairs);
                }
            },
        }
    }

    /// The map id and record at position `i`, for listing them all.
    pub fn entry(&self, i: usize) -> (r: (&String, &MapRecord))
        requires
            self.wf(),
            i < self.count(),
        ensures
            r.0@ == self.key_at(i as int),
            self.records().contains_key(r.0@),
            self.records()[r.0@] == r.1@,
    {
        proof {
            lemma_to_map_lookup(self.pairs(), i as int);
        }
        (&self.entries[i].0, &self.entries[i].1)
    }

    /// The number of maps with a record.
    pub fn len(&self) -> (r: usize)
        ensures
            r == self.count(),
    {
        self.entries.len()
    }
}

/// The positions `0 .. count()` list the map ids of the records once each: two
/// positions hold different ids, each id listed has a record, each record is
/// listed, and there are as many positions as records.
pub proof fn lemma_positions_list_records(data: SaveData)
    requires
        data.wf(),
    ensures
        forall|i: int, j: int| 0 <= i < j < data.count() ==> #[trigger] data.key_at(i) != #[trigger] data.key_at(j),
        forall|i: int| 0 <= i < data.count() ==> data.records().contains_key(#[trigger] data.key_at(i)),
        forall|k: Seq<char>| #[trigger] data.records().contains_key(k) ==> exists|i: int|
            0 <= i < data.count() && data.key_at(i) == k,
        data.records().dom().finite(),
        data.records().dom().len() == data.count(),
{
    lemma_to_map_dom(data.pairs());
    assert(data.pairs().len() == data.count());
    assert forall|i: int| 0 <= i < data.count() implies data.records().contains_key(#[trigger] data.key_at(i)) by {
        lemma_to_map_lookup(data.pairs(), i);
    }
    assert forall|k: Seq<char>| #[trigger] data.records().contains_key(k) implies exists|i: int|
        0 <= i < data.count() && data.key_at(i) == k by {
        let i = choose|i: int| 0 <= i < data.pairs().len() && data.pairs()[i].0 == k;
        assert(data.key_at(i) == k);
    }
}

/// The record book of the game.
pub struct SaveManager {
    pub data: SaveData,
}

impl SaveManager {
    /// Keep a result: the map gets a record (an empty one first, when it had none),
    /// improved by the result. Returns whether the score or the combo beat the
    /// record, that is, whether the record book must be written back.
    pub fn submit_result(
        &mut self,
        map_id: &str,
        score: i64,
        combo: u32,
        accuracy_bits: u64,
        mods_label: &str,
    ) -> (updated: bool)
        requires
            old(self).data.wf(),
        ensures
            final(self).data.wf(),
            final(self).data.records() == submitted(
                old(self).data.records(),
                map_id@,
                score,
                combo,
                accuracy_bits,
                mods_label@,
            ),
            updated == (score > record_of(old(self).data.records(), map_id@).best_score || combo
                > record_of(old(self).data.records(), map_id@).best_combo),
    {
        let mut rec = match self.data.get(map_id) {
            Some(r) => r,
            None => MapRecord::new(),
        };
        let mut updated = false;
        if score > rec.best_score {
            rec.best_score = score;
            rec.best_accuracy_bits = accuracy_bits;
            rec.best_score_mods = String::from_str(mods_label);
            updated = true;
        }
        if combo > rec.best_combo {
            rec.best_combo = combo;
            updated = true;
        }
        self.data.set(String::from_str(map_id), rec);
        updated
    }

    /// The record of a map, if it has one.
    pub fn get_record(&self, map_id: &str) -> (r: Option<MapRecord>)
        requires
            self.data.wf(),
        ensures
            match r {
                Some(rec) => self.data.records().contains_key(map_id@) && rec@
                    == self.data.records()[map_id@],
                None => !self.data.records().contains_key(map_id@),
            },
    {
        self.data.get(map_id)
    }
}


/// A record never gets worse: its best score and best combo only grow.
pub proof fn lemma_record_never_worse(r: RecordView, score: i64, combo: u32, accuracy_bits: u64, mods: Seq<char>)
    ensures
        improved(r, score, combo, accuracy_bits, mods).best_score >= r.best_score,
        improved(r, score, combo, accuracy_bits, mods).best_combo >= r.best_combo,
{
}

/// The record kept after a result is at least that result: its best score is the
/// larger of the two scores and its best combo the larger of the two combos. The
/// accuracy and the modifiers kept are those of the best score: they change with
/// the score and only with it, whatever the combo.
pub proof fn lemma_record_keeps_best(r: RecordView, score: i64, combo: u32, accuracy_bits: u64, mods: Seq<char>)
    ensures
        improved(r, score, combo, accuracy_bits, mods).best_score == if score > r.best_score {
            score
        } else {
            r.best_score
        },
        improved(r, score, combo, accuracy_bits, mods).best_combo == if combo > r.best_combo {
            combo
        } else {
            r.best_combo
        },
        improved(r, score, combo, accuracy_bits, mods).best_accuracy_bits == if score > r.best_score {
            accuracy_bits
        } else {
            r.best_accuracy_bits
        },
        improved(r, score, combo, accuracy_bits, mods).best_score_mods == if score > r.best_score {
            mods
        } else {
            r.best_score_mods
        },
{
}

/// Submitting the same result again changes nothing.
pub proof fn lemma_resubmit_changes_nothing(r: RecordView, score: i64, combo: u32, accuracy_bits: u64, mods: Seq<char>)
    ensures
        improved(improved(r, score, combo, accuracy_bits, mods), score, combo, accuracy_bits, mods)
            == improved(r, score, combo, accuracy_bits, mods),
{
}

/// What is read back after a result is kept: the map then has a record, at least
/// as good as the result, and the records of the other maps are as they were.
pub proof fn lemma_read_after_submit(
    before: Map<Seq<char>, RecordView>,
    map_id: Seq<char>,
    score: i64,
    combo: u32,
    accuracy_bits: u64,
    mods: Seq<char>,
    other: Seq<char>,
)
    requires
        other != map_id,
    ensures
        ({
            let old_rec = if before.contains_key(map_id) {
                before[map_id]
            } else {
                empty_record()
            };
            let after = before.insert(map_id, improved(old_rec, score, combo, accuracy_bits, mods));
            &&& after.contains_key(map_id)
            &&& after[map_id].best_score >= score
            &&& after[map_id].best_combo >= combo
            &&& after.contains_key(other) == before.contains_key(other)
            &&& before.contains_key(other) ==> after[other] == before[other]
        }),
{
}

/// Once a result is kept, the map has a record at least as good as it, whatever
/// results are kept after it, for this map or for others.
pub proof fn lemma_record_survives_later_results(
    m: Map<Seq<char>, RecordView>,
    map_id: Seq<char>,
    score: i64,
    combo: u32,
    accuracy_bits: u64,
    mods: Seq<char>,
    later: Seq<Submission>,
)
    ensures
        submit_all(submitted(m, map_id, score, combo, accuracy_bits, mods), later).contains_key(map_id),
        submit_all(submitted(m, map_id, score, combo, accuracy_bits, mods), later)[map_id].best_score
            >= score,
        submit_all(submitted(m, map_id, score, combo, accuracy_bits, mods), later)[map_id].best_combo
            >= combo,
    decreases later.len(),
{
    if later.len() > 0 {
        lemma_record_survives_later_results(m, map_id, score, combo, accuracy_bits, mods, later.drop_last());
        let prev = submit_all(submitted(m, map_id, score, combo, accuracy_bits, mods), later.drop_last());
        let s = later.last();
        lemma_record_never_worse(record_of(prev, s.map_id), s.score, s.combo, s.accuracy_bits, s.mods);
    }
}

} // verus!
