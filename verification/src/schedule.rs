//! The availability map of one date: each court's advertised free
//! intervals, listed by ascending court number.

use vstd::prelude::*;
use crate::times::TimeInterval;

verus! {

/// One court's advertised free intervals.
#[derive(Clone, Debug)]
pub struct CourtSlots {
    pub court: u32,
    pub slots: Vec<TimeInterval>,
}

impl View for CourtSlots {
    type V = (u32, Seq<TimeInterval>);

    open spec fn view(&self) -> (u32, Seq<TimeInterval>) {
        (self.court, self.slots@)
    }
}

/// A mapping from court number to that court's free intervals, kept in
/// ascending court order. A court with nothing free is absent rather
/// than present with an empty list.
#[derive(Clone, Debug)]
pub struct AvailabilityMap {
    pub entries: Vec<CourtSlots>,
}

impl View for AvailabilityMap {
    type V = Seq<(u32, Seq<TimeInterval>)>;

    open spec fn view(&self) -> Seq<(u32, Seq<TimeInterval>)> {
        Seq::new(self.entries@.len(), |i: int| (self.entries@[i].court, self.entries@[i].slots@))
    }
}

/// Well-formedness of an availability map: courts strictly ascending,
/// no court without intervals, every interval well formed.
pub open spec fn map_wf(m: Seq<(u32, Seq<TimeInterval>)>) -> bool {
    &&& forall|i: int, j: int| #![trigger m[i], m[j]] 0 <= i < j < m.len() ==> m[i].0 < m[j].0
    &&& forall|i: int| 0 <= i < m.len() ==> (#[trigger] m[i]).1.len() > 0
    &&& forall|i: int, j: int|
        0 <= i < m.len() && 0 <= j < m[i].1.len() ==> (#[trigger] m[i].1[j]).wf()
}

/// Insertion into the ordered map: a new court takes its place in
/// ascending order; a court already present has its intervals replaced.
pub open spec fn spec_insert(
    m: Seq<(u32, Seq<TimeInterval>)>,
    c: u32,
    s: Seq<TimeInterval>,
) -> Seq<(u32, Seq<TimeInterval>)>
    decreases m.len(),
{
    if m.len() == 0 {
        seq![(c, s)]
    } else if m[0].0 < c {
        seq![m[0]] + spec_insert(m.skip(1), c, s)
    } else if m[0].0 == c {
        seq![(c, s)] + m.skip(1)
    } else {
        seq![(c, s)] + m
    }
}

/// `spec_insert` splices the new entry at the first position whose
/// court is not below `c`.
proof fn lemma_insert_splice(
    m: Seq<(u32, Seq<TimeInterval>)>,
    c: u32,
    s: Seq<TimeInterval>,
    idx: int,
)
    requires
        0 <= idx <= m.len(),
        forall|k: int| 0 <= k < idx ==> (#[trigger] m[k]).0 < c,
        idx < m.len() ==> m[idx].0 >= c,
    ensures
        idx < m.len() && m[idx].0 == c ==> spec_insert(m, c, s) == m.subrange(0, idx) + seq![
            (c, s),
        ] + m.skip(idx + 1),
        !(idx < m.len() && m[idx].0 == c) ==> spec_insert(m, c, s) == m.subrange(0, idx) + seq![
            (c, s),
        ] + m.skip(idx),
    decreases idx,
{
    if idx == 0 {
        if m.len() == 0 {
            assert(spec_insert(m, c, s) =~= m.subrange(0, 0) + seq![(c, s)] + m.skip(0));
        } else if m[0].0 == c {
            assert(spec_insert(m, c, s) =~= m.subrange(0, 0) + seq![(c, s)] + m.skip(1));
        } else {
            assert(m[0].0 > c);
            assert(spec_insert(m, c, s) =~= m.subrange(0, 0) + seq![(c, s)] + m.skip(0));
        }
    } else {
        assert(m[0].0 < c);
        let tail = m.skip(1);
        assert(forall|k: int| 0 <= k < idx - 1 ==> (#[trigger] tail[k]).0 < c);
        lemma_insert_splice(tail, c, s, idx - 1);
        if idx < m.len() && m[idx].0 == c {
            assert(tail[idx - 1].0 == c);
            assert(seq![m[0]] + (tail.subrange(0, idx - 1) + seq![(c, s)] + tail.skip(idx)) =~= m
                .subrange(0, idx) + seq![(c, s)] + m.skip(idx + 1));
        } else {
            assert(seq![m[0]] + (tail.subrange(0, idx - 1) + seq![(c, s)] + tail.skip(idx - 1))
                =~= m.subrange(0, idx) + seq![(c, s)] + m.skip(idx));
        }
    }
}

impl AvailabilityMap {
    /// The empty map.
    pub fn new() -> (r: AvailabilityMap)
        ensures
            r@ == Seq::<(u32, Seq<TimeInterval>)>::empty(),
            map_wf(r@),
    {
        let r = AvailabilityMap { entries: Vec::new() };
        proof {
            assert(r@ =~= Seq::<(u32, Seq<TimeInterval>)>::empty());
        }
        r
    }

    /// Number of courts present.
    pub fn len(&self) -> (n: usize)
        ensures
            n == self@.len(),
    {
        self.entries.len()
    }

    pub fn is_empty(&self) -> (b: bool)
        ensures
            b <==> self@.len() == 0,
    {
        self.entries.len() == 0
    }

    /// The court number at position `i`.
    pub fn court_at(&self, i: usize) -> (c: u32)
        requires
            i < self@.len(),
        ensures
            c == self@[i as int].0,
    {
        self.entries[i].court
    }

    /// The intervals of the court at position `i`.
    pub fn slots_at(&self, i: usize) -> (v: &Vec<TimeInterval>)
        requires
            i < self@.len(),
        ensures
            v@ == self@[i as int].1,
    {
        &self.entries[i].slots
    }

    /// Puts one court's intervals into the map, keeping ascending court
    /// order; a court already present has its intervals replaced.
    pub fn insert(&mut self, court: u32, slots: Vec<TimeInterval>)
        requires
            map_wf(old(self)@),
            slots@.len() > 0,
            forall|j: int| 0 <= j < slots@.len() ==> (#[trigger] slots@[j]).wf(),
        ensures
            final(self)@ == spec_insert(old(self)@, court, slots@),
            map_wf(final(self)@),
    {
        let ghost m = self@;
        let mut idx: usize = 0;
        while idx < self.entries.len() && self.entries[idx].court < court
            invariant
                0 <= idx <= self@.len(),
                *self == *old(self),
                forall|k: int| 0 <= k < idx ==> (#[trigger] self@[k]).0 < court,
            decreases self@.len() - idx,
        {
            idx = idx + 1;
        }
        proof {
            lemma_insert_splice(m, court, slots@, idx as int);
        }
        if idx < self.entries.len() && self.entries[idx].court == court {
            self.entries.set(idx, CourtSlots { court, slots });
            proof {
                assert(self@ =~= m.subrange(0, idx as int) + seq![(court, slots@)] + m.skip(
                    idx as int + 1,
                ));
            }
        } else {
            self.entries.insert(idx, CourtSlots { court, slots });
            proof {
                assert(self@ =~= m.subrange(0, idx as int) + seq![(court, slots@)] + m.skip(
                    idx as int,
                ));
            }
        }
    }
}

} // verus!
