//! Putting decoded notes in time order.

use vstd::prelude::*;
use crate::map::types::{NoteData, NoteView, notes_view};

verus! {

/// Note `i` of `raw` comes before note `j`: it is earlier, or as early and read before it.
pub open spec fn note_before(raw: Seq<NoteView>, i: int, j: int) -> bool {
    ||| raw[i].millisecond < raw[j].millisecond
    ||| (raw[i].millisecond == raw[j].millisecond && i < j)
}

/// Position `j` occurs in `p`.
pub open spec fn occurs(p: Seq<int>, j: int) -> bool {
    exists|k: int| 0 <= k < p.len() && p[k] == j
}

/// `p` lists the positions of `raw` in time order, notes of equal time in the
/// order they were read. Each position of `raw` occurs exactly once (the order is
/// strict).
pub open spec fn is_time_order(raw: Seq<NoteView>, p: Seq<int>) -> bool {
    &&& p.len() == raw.len()
    &&& forall|j: int| 0 <= j < raw.len() ==> #[trigger] occurs(p, j)
    &&& forall|k: int| 0 <= k < p.len() ==> 0 <= #[trigger] p[k] < raw.len()
    &&& forall|k: int, l: int|
        0 <= k < l < p.len() ==> #[trigger] note_before(raw, p[k], p[l])
}

/// The note `n` given the position `k`.
pub open spec fn with_index(n: NoteView, k: int) -> NoteView {
    NoteView { index: k, millisecond: n.millisecond, x: n.x, y: n.y }
}

/// `out` is `raw` in time order (a stable sort by time), each note's index set to
/// its position in `out`.
pub open spec fn sorted_by_time(raw: Seq<NoteView>, out: Seq<NoteView>) -> bool {
    exists|p: Seq<int>|
        #![trigger is_time_order(raw, p)]
        is_time_order(raw, p) && out.len() == raw.len() && forall|k: int|
            0 <= k < out.len() ==> #[trigger] out[k] == with_index(raw[p[k]], k)
}

/// Sort notes by time, keeping notes of equal time in the order given, and number
/// them by their new position.
pub fn sort_by_time(raw: Vec<NoteData>) -> (out: Vec<NoteData>)
    ensures
        sorted_by_time(notes_view(raw@), notes_view(out@)),
{
    let ghost orig = notes_view(raw@);
    let ghost n = raw@.len() as int;
    let mut pending = raw;
    // Notes from the last to the first, inserted into `desc`, latest first.
    let mut desc: Vec<NoteData> = Vec::new();
    let ghost mut p: Seq<int> = Seq::empty();
    while pending.len() > 0
        invariant
            orig == notes_view(pending@) + orig.subrange(pending@.len() as int, n),
            orig.len() == n,
            pending@.len() <= n,
            desc@.len() == n - pending@.len(),
            p.len() == desc@.len(),
            forall|j: int| 0 <= j < p.len() ==> pending@.len() <= #[trigger] p[j] < n,
            forall|j: int| pending@.len() <= j < n ==> #[trigger] occurs(p, j),
            forall|j: int| 0 <= j < p.len() ==> #[trigger] desc@[j]@ == orig[p[j]],
            forall|a: int, b: int| 0 <= a < b < p.len() ==> note_before(orig, #[trigger] p[b], #[trigger] p[a]),
        decreases pending@.len(),
    {
        let ghost k = pending@.len() - 1;
        let ghost before_pop = pending@;
        let note = pending.pop().unwrap();
        proof {
            assert(notes_view(before_pop)[k] == orig[k]);
            assert(note@ == orig[k]);
            assert(orig == notes_view(pending@) + orig.subrange(pending@.len() as int, n)) by {
                assert(notes_view(before_pop) =~= notes_view(pending@).push(note@));
                assert(orig.subrange(k, n) =~= seq![orig[k]] + orig.subrange(k + 1, n));
                assert(orig =~= notes_view(pending@) + orig.subrange(pending@.len() as int, n));
            }
        }
        let ms = note.millisecond;
        let mut q = desc.len();
        while q > 0 && desc[q - 1].millisecond < ms
            invariant
                q <= desc@.len(),
                forall|j: int| q <= j < desc@.len() ==> (#[trigger] desc@[j]).millisecond < ms,
            decreases q,
        {
            q = q - 1;
        }
        proof {
            // Every note kept before the new one is at least as late; every note after it is earlier.
            assert forall|j: int| 0 <= j < q implies (#[trigger] desc@[j]).millisecond >= ms by {
                if j < q - 1 {
                    assert(note_before(orig, p[q - 1], p[j]));
                    assert(desc@[q - 1]@ == orig[p[q - 1]]);
                    assert(desc@[j]@ == orig[p[j]]);
                }
            }
        }
        let ghost old_desc = desc@;
        let ghost old_p = p;
        desc.insert(q, note);
        proof {
            p = old_p.insert(q as int, k);
            assert forall|j: int| 0 <= j < p.len() implies pending@.len() <= #[trigger] p[j] < n by {
                if j < q {
                    assert(p[j] == old_p[j]);
                } else if j > q {
                    assert(p[j] == old_p[j - 1]);
                }
            }
            assert(p[q as int] == k);
            assert forall|j: int| pending@.len() <= j < n implies #[trigger] occurs(p, j) by {
                if j == k {
                    assert(p[q as int] == j);
                } else {
                    assert(occurs(old_p, j));
                    let a = choose|a: int| 0 <= a < old_p.len() && old_p[a] == j;
                    if a < q {
                        assert(p[a] == j);
                    } else {
                        assert(p[a + 1] == j);
                    }
                }
            }
            assert forall|j: int| 0 <= j < p.len() implies #[trigger] desc@[j]@ == orig[p[j]] by {
                if j < q {
                    assert(desc@[j] == old_desc[j]);
                } else if j > q {
                    assert(desc@[j] == old_desc[j - 1]);
                }
            }
            assert forall|a: int, b: int| 0 <= a < b < p.len() implies note_before(
                orig,
                #[trigger] p[b],
                #[trigger] p[a],
            ) by {
                if a == q {
                    assert(p[b] == old_p[b - 1]);
                    assert(desc@[b] == old_desc[b - 1]);
                    assert(old_desc[b - 1]@ == orig[old_p[b - 1]]);
                    assert(old_desc[b - 1].millisecond < ms);
                } else if b == q {
                    assert(p[a] == old_p[a]);
                    assert(old_desc[a]@ == orig[old_p[a]]);
                    assert(old_desc[a].millisecond >= ms);
                } else {
                    let oa = if a < q { a } else { a - 1 };
                    let ob = if b < q { b } else { b - 1 };
                    assert(p[a] == old_p[oa]);
                    assert(p[b] == old_p[ob]);
                    assert(note_before(orig, old_p[ob], old_p[oa]));
                }
            }
        }
    }
    // Take the notes back out, earliest first, numbering them.
    let ghost total = desc@.len() as int;
    let ghost pf = p;
    let mut out: Vec<NoteData> = Vec::new();
    while desc.len() > 0
        invariant
            total == n,
            orig.len() == n,
            pf.len() == n,
            forall|j: int| 0 <= j < n ==> 0 <= #[trigger] pf[j] < n,
            forall|j: int| 0 <= j < n ==> #[trigger] occurs(pf, j),
            forall|a: int, b: int| 0 <= a < b < n ==> note_before(orig, #[trigger] pf[b], #[trigger] pf[a]),
            desc@.len() + out@.len() == n,
            forall|j: int| 0 <= j < desc@.len() ==> #[trigger] desc@[j]@ == orig[pf[j]],
            forall|k: int| 0 <= k < out@.len() ==> #[trigger] out@[k]@ == with_index(orig[pf[n - 1 - k]], k),
        decreases desc@.len(),
    {
        let ghost last = desc@.len() - 1;
        let ghost before = desc@;
        let note = desc.pop().unwrap();
        assert(note@ == before[last]@);
        let k = out.len();
        let numbered = NoteData { index: k, millisecond: note.millisecond, x: note.x, y: note.y };
        out.push(numbered);
        proof {
            assert forall|j: int| 0 <= j < desc@.len() implies #[trigger] desc@[j]@ == orig[pf[j]] by {
                assert(desc@[j] == before[j]);
            }
        }
    }
    proof {
        let pa = Seq::new(n as nat, |k: int| pf[n - 1 - k]);
        assert(is_time_order(orig, pa)) by {
            assert forall|j: int| 0 <= j < n implies #[trigger] occurs(pa, j) by {
                assert(occurs(pf, j));
                let a = choose|a: int| 0 <= a < pf.len() && pf[a] == j;
                assert(pa[n - 1 - a] == j);
            }
            assert forall|k: int, l: int| 0 <= k < l < pa.len() implies #[trigger] note_before(
                orig,
                pa[k],
                pa[l],
) by {
                assert(note_before(orig, pf[n - 1 - k], pf[n - 1 - l]));
            }
        }
        let ov = notes_view(out@);
        assert forall|k: int| 0 <= k < ov.len() implies #[trigger] ov[k] == with_index(orig[pa[k]], k) by {
            assert(ov[k] == out@[k]@);
        }
    }
    out
}


/// Sorted notes come in time order, each numbered by its position.
pub proof fn lemma_sorted_notes_in_time_order(raw: Seq<NoteView>, out: Seq<NoteView>)
    requires
        sorted_by_time(raw, out),
    ensures
        forall|k: int, l: int|
            0 <= k < l < out.len() ==> #[trigger] out[k].millisecond <= #[trigger] out[l].millisecond,
        forall|k: int| 0 <= k < out.len() ==> #[trigger] out[k].index == k,
{
    let p = choose|p: Seq<int>|
        #![trigger is_time_order(raw, p)]
        is_time_order(raw, p) && out.len() == raw.len() && forall|k: int|
            0 <= k < out.len() ==> #[trigger] out[k] == with_index(raw[p[k]], k);
    assert forall|k: int, l: int| 0 <= k < l < out.len() implies #[trigger] out[k].millisecond
        <= #[trigger] out[l].millisecond by {
        assert(note_before(raw, p[k], p[l]));
        assert(out[k] == with_index(raw[p[k]], k));
        assert(out[l] == with_index(raw[p[l]], l));
    }
    assert forall|k: int| 0 <= k < out.len() implies #[trigger] out[k].index == k by {
        assert(out[k] == with_index(raw[p[k]], k));
    }
}

/// Sorting loses no note: each note read is in the output once, renumbered, and
/// the output holds nothing else.
pub proof fn lemma_sorted_notes_keep_every_note(raw: Seq<NoteView>, out: Seq<NoteView>, j: int)
    requires
        sorted_by_time(raw, out),
        0 <= j < raw.len(),
    ensures
        out.len() == raw.len(),
        exists|k: int| 0 <= k < out.len() && #[trigger] out[k] == with_index(raw[j], k),
{
    let p = choose|p: Seq<int>|
        #![trigger is_time_order(raw, p)]
        is_time_order(raw, p) && out.len() == raw.len() && forall|k: int|
            0 <= k < out.len() ==> #[trigger] out[k] == with_index(raw[p[k]], k);
    assert(occurs(p, j));
    let k = choose|k: int| 0 <= k < p.len() && p[k] == j;
    assert(out[k] == with_index(raw[j], k));
}

/// Sorting is stable: of two notes at the same time, the one read first comes first.
pub proof fn lemma_sorted_notes_stable(raw: Seq<NoteView>, out: Seq<NoteView>, p: Seq<int>, a: int, b: int)
    requires
        is_time_order(raw, p),
        out.len() == raw.len(),
        forall|k: int| 0 <= k < out.len() ==> #[trigger] out[k] == with_index(raw[p[k]], k),
        0 <= a < out.len(),
        0 <= b < out.len(),
        raw[p[a]].millisecond == raw[p[b]].millisecond,
        p[a] < p[b],
    ensures
        a < b,
{
    if b < a {
        assert(note_before(raw, p[b], p[a]));
    }
    if a == b {
    }
}

} // verus!
