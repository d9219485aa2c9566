//! Filtering an availability map against the desired search window,
//! and the laws that filtering obeys.

use vstd::prelude::*;
use crate::schedule::{map_wf, AvailabilityMap, CourtSlots};
use crate::times::{Time, TimeInterval};

verus! {

/// An interval matches the window when its start lies strictly after
/// `after` and strictly before `before`.
pub open spec fn spec_matches(iv: TimeInterval, after: Time, before: Time) -> bool {
    after.minutes < iv.start.minutes < before.minutes
}

/// The intervals of one court that match the window, in their original
/// order.
pub open spec fn spec_filter_slots(s: Seq<TimeInterval>, after: Time, before: Time) -> Seq<
    TimeInterval,
>
    decreases s.len(),
{
    if s.len() == 0 {
        Seq::empty()
    } else {
        spec_filter_slots(s.drop_last(), after, before) + (if spec_matches(
            s.last(),
            after,
            before,
        ) {
            seq![s.last()]
        } else {
            Seq::empty()
        })
    }
}

/// The filtered map: each court keeps its matching intervals; a court
/// with none left is dropped.
pub open spec fn spec_filter_map(
    m: Seq<(u32, Seq<TimeInterval>)>,
    after: Time,
    before: Time,
) -> Seq<(u32, Seq<TimeInterval>)>
    decreases m.len(),
{
    if m.len() == 0 {
        Seq::empty()
    } else {
        spec_filter_map(m.drop_last(), after, before) + (if spec_filter_slots(
            m.last().1,
            after,
            before,
        ).len() > 0 {
            seq![(m.last().0, spec_filter_slots(m.last().1, after, before))]
        } else {
            Seq::empty()
        })
    }
}

/// Filtering distributes over appending one interval.
proof fn lemma_filter_slots_snoc(s: Seq<TimeInterval>, e: TimeInterval, after: Time, before: Time)
    ensures
        spec_filter_slots(s + seq![e], after, before) == spec_filter_slots(s, after, before) + (
        if spec_matches(e, after, before) {
            seq![e]
        } else {
            Seq::<TimeInterval>::empty()
        }),
{
    assert((s + seq![e]).drop_last() =~= s);
    assert((s + seq![e]).last() == e);
}

/// Filtering distributes over appending one court.
proof fn lemma_filter_map_snoc(
    m: Seq<(u32, Seq<TimeInterval>)>,
    e: (u32, Seq<TimeInterval>),
    after: Time,
    before: Time,
)
    ensures
        spec_filter_map(m + seq![e], after, before) == spec_filter_map(m, after, before) + (
        if spec_filter_slots(e.1, after, before).len() > 0 {
            seq![(e.0, spec_filter_slots(e.1, after, before))]
        } else {
            Seq::<(u32, Seq<TimeInterval>)>::empty()
        }),
{
    assert((m + seq![e]).drop_last() =~= m);
    assert((m + seq![e]).last() == e);
}

/// Every interval the slot filter keeps matches the window and stems
/// from the input.
proof fn lemma_filter_slots_elements(s: Seq<TimeInterval>, after: Time, before: Time)
    ensures
        forall|k: int|
            0 <= k < spec_filter_slots(s, after, before).len() ==> spec_matches(
                #[trigger] spec_filter_slots(s, after, before)[k],
                after,
                before,
            ) && s.contains(spec_filter_slots(s, after, before)[k]),
    decreases s.len(),
{
    if s.len() > 0 {
        lemma_filter_slots_elements(s.drop_last(), after, before);
        let f = spec_filter_slots(s, after, before);
        let fd = spec_filter_slots(s.drop_last(), after, before);
        assert forall|k: int| 0 <= k < f.len() implies spec_matches(
            #[trigger] f[k],
            after,
            before,
        ) && s.contains(f[k]) by {
            if k < fd.len() {
                assert(f[k] == fd[k]);
                let i = choose|i: int| 0 <= i < s.drop_last().len() && s.drop_last()[i] == fd[k];
                assert(s[i] == fd[k]);
            } else {
                assert(f[k] == s.last());
                assert(s[s.len() - 1] == s.last());
            }
        }
    }
}

/// Every court of the filtered map stems from the input map, under the
/// same number, and carries exactly the window filtering of that
/// court's input intervals. No court is invented.
pub proof fn lemma_filter_courts_from_input(
    m: Seq<(u32, Seq<TimeInterval>)>,
    after: Time,
    before: Time,
)
    ensures
        forall|k: int|
            0 <= k < spec_filter_map(m, after, before).len() ==> exists|i: int|
                0 <= i < m.len() && (#[trigger] spec_filter_map(m, after, before)[k]).0 == m[i].0
                    && spec_filter_map(m, after, before)[k].1 == spec_filter_slots(
                    m[i].1,
                    after,
                    before,
                ),
    decreases m.len(),
{
    if m.len() > 0 {
        lemma_filter_courts_from_input(m.drop_last(), after, before);
        let f = spec_filter_map(m, after, before);
        let fd = spec_filter_map(m.drop_last(), after, before);
        assert forall|k: int| 0 <= k < f.len() implies exists|i: int|
            0 <= i < m.len() && (#[trigger] f[k]).0 == m[i].0 && f[k].1 == spec_filter_slots(
                m[i].1,
                after,
                before,
            ) by {
            if k < fd.len() {
                assert(f[k] == fd[k]);
                let i = choose|i: int|
                    0 <= i < m.drop_last().len() && (#[trigger] fd[k]).0 == m.drop_last()[i].0
                        && fd[k].1 == spec_filter_slots(m.drop_last()[i].1, after, before);
                assert(m[i] == m.drop_last()[i]);
                assert(f[k].0 == m[i].0 && f[k].1 == spec_filter_slots(m[i].1, after, before));
            } else {
                let i = m.len() - 1;
                assert(f[k].0 == m[i].0 && f[k].1 == spec_filter_slots(m[i].1, after, before));
            }
        }
    }
}

/// A well-formed map filters to a well-formed map.
proof fn lemma_filter_map_wf(m: Seq<(u32, Seq<TimeInterval>)>, after: Time, before: Time)
    requires
        map_wf(m),
    ensures
        map_wf(spec_filter_map(m, after, before)),
    decreases m.len(),
{
    if m.len() > 0 {
        assert(map_wf(m.drop_last()));
        lemma_filter_map_wf(m.drop_last(), after, before);
        lemma_filter_courts_from_input(m.drop_last(), after, before);
        lemma_filter_slots_elements(m.last().1, after, before);
        let f = spec_filter_map(m, after, before);
        let fd = spec_filter_map(m.drop_last(), after, before);
        assert forall|i: int, j: int| #![trigger f[i], f[j]] 0 <= i < j < f.len() implies f[i].0
            < f[j].0 by {
            if j < fd.len() {
                assert(f[i] == fd[i] && f[j] == fd[j]);
            } else {
                assert(f[j].0 == m.last().0);
                let i0 = choose|i0: int|
                    0 <= i0 < m.drop_last().len() && (#[trigger] fd[i]).0 == m.drop_last()[i0].0
                        && fd[i].1 == spec_filter_slots(m.drop_last()[i0].1, after, before);
                assert(m[i0] == m.drop_last()[i0]);
                assert(m[i0].0 < m[m.len() - 1].0);
            }
        }
        assert forall|i: int, j: int|
            0 <= i < f.len() && 0 <= j < f[i].1.len() implies (#[trigger] f[i].1[j]).wf() by {
            if i < fd.len() {
                assert(f[i] == fd[i]);
            } else {
                assert(f[i].1 == spec_filter_slots(m.last().1, after, before));
                assert(m.last().1.contains(f[i].1[j]));
                let k = choose|k: int| 0 <= k < m.last().1.len() && m.last().1[k] == f[i].1[j];
                assert(m[m.len() - 1].1[k].wf());
            }
        }
    }
}

/// The matching intervals of one court, as a fresh vector.
fn filter_slots(slots: &Vec<TimeInterval>, after: Time, before: Time) -> (r: Vec<TimeInterval>)
    ensures
        r@ == spec_filter_slots(slots@, after, before),
{
    let mut r: Vec<TimeInterval> = Vec::new();
    let mut i: usize = 0;
    proof {
        assert(r@ =~= spec_filter_slots(slots@.subrange(0, 0), after, before));
    }
    while i < slots.len()
        invariant
            i <= slots@.len(),
            r@ == spec_filter_slots(slots@.subrange(0, i as int), after, before),
        decreases slots@.len() - i,
    {
        let iv = slots[i];
        proof {
            assert(slots@.subrange(0, i as int + 1).drop_last() =~= slots@.subrange(0, i as int));
            assert(slots@.subrange(0, i as int + 1).last() == slots@[i as int]);
        }
        if after.minutes < iv.start.minutes && iv.start.minutes < before.minutes {
            r.push(iv);
        }
        i = i + 1;
    }
    proof {
        assert(slots@.subrange(0, slots@.len() as int) =~= slots@);
    }
    r
}

/// Returns the availability map reduced to the intervals whose start
/// lies strictly inside the (after, before) window; courts with no
/// matching interval are omitted, and the order of the remaining
/// intervals within each court is kept.
pub fn filter_courts(
    available_times: AvailabilityMap,
    desired_after_time: Time,
    desired_before_time: Time,
) -> (r: AvailabilityMap)
    requires
        map_wf(available_times@),
    ensures
        r@ == spec_filter_map(available_times@, desired_after_time, desired_before_time),
        map_wf(r@),
{
    let ghost m = available_times@;
    let mut r = AvailabilityMap::new();
    let mut i: usize = 0;
    proof {
        assert(r@ =~= spec_filter_map(m.subrange(0, 0), desired_after_time, desired_before_time));
    }
    while i < available_times.len()
        invariant
            i <= m.len(),
            m == available_times@,
            r@ == spec_filter_map(m.subrange(0, i as int), desired_after_time, desired_before_time),
        decreases m.len() - i,
    {
        let f = filter_slots(available_times.slots_at(i), desired_after_time, desired_before_time);
        proof {
            assert(m.subrange(0, i as int + 1).drop_last() =~= m.subrange(0, i as int));
            assert(m.subrange(0, i as int + 1).last() == m[i as int]);
        }
        if f.len() > 0 {
            let court = available_times.court_at(i);
            let ghost r0 = r@;
            r.entries.push(CourtSlots { court, slots: f });
            proof {
                assert(r@ =~= r0 + seq![(court, f@)]);
            }
        }
        i = i + 1;
    }
    proof {
        assert(m.subrange(0, m.len() as int) =~= m);
        lemma_filter_map_wf(m, desired_after_time, desired_before_time);
    }
    r
}

/// With a valid window, filtering never returns an interval whose
/// start is at or before `after`, or at or after `before`.
pub proof fn lemma_filter_within_window(
    m: Seq<(u32, Seq<TimeInterval>)>,
    after: Time,
    before: Time,
)
    requires
        after.minutes < before.minutes,
    ensures
        forall|i: int, j: int|
            0 <= i < spec_filter_map(m, after, before).len() && 0 <= j < spec_filter_map(
                m,
                after,
                before,
            )[i].1.len() ==> after.minutes < (#[trigger] spec_filter_map(m, after, before)[i].1[j])
                .start.minutes < before.minutes,
{
    lemma_filter_courts_from_input(m, after, before);
    let f = spec_filter_map(m, after, before);
    assert forall|i: int, j: int|
        0 <= i < f.len() && 0 <= j < f[i].1.len() implies after.minutes < (#[trigger] f[i].1[j])
        .start.minutes < before.minutes by {
        let i0 = choose|i0: int|
            0 <= i0 < m.len() && (#[trigger] f[i]).0 == m[i0].0 && f[i].1 == spec_filter_slots(
                m[i0].1,
                after,
                before,
            );
        lemma_filter_slots_elements(m[i0].1, after, before);
    }
}

/// Filtering a court's intervals twice with one window is the same as
/// filtering them once.
proof fn lemma_filter_slots_idempotent(s: Seq<TimeInterval>, after: Time, before: Time)
    ensures
        spec_filter_slots(spec_filter_slots(s, after, before), after, before)
            == spec_filter_slots(s, after, before),
    decreases s.len(),
{
    if s.len() == 0 {
        assert(spec_filter_slots(s, after, before) =~= Seq::<TimeInterval>::empty());
    } else {
        lemma_filter_slots_idempotent(s.drop_last(), after, before);
        let fd = spec_filter_slots(s.drop_last(), after, before);
        if spec_matches(s.last(), after, before) {
            lemma_filter_slots_snoc(fd, s.last(), after, before);
            assert(spec_filter_slots(s, after, before) =~= fd + seq![s.last()]);
        } else {
            assert(spec_filter_slots(s, after, before) =~= fd);
        }
    }
}

/// Filtering is idempotent: filtering an already-filtered map with the
/// same window returns the same map.
pub proof fn lemma_filter_idempotent(m: Seq<(u32, Seq<TimeInterval>)>, after: Time, before: Time)
    ensures
        spec_filter_map(spec_filter_map(m, after, before), after, before) == spec_filter_map(
            m,
            after,
            before,
        ),
    decreases m.len(),
{
    if m.len() == 0 {
        assert(spec_filter_map(m, after, before) =~= Seq::<(u32, Seq<TimeInterval>)>::empty());
    } else {
        lemma_filter_idempotent(m.drop_last(), after, before);
        let fd = spec_filter_map(m.drop_last(), after, before);
        let fs = spec_filter_slots(m.last().1, after, before);
        if fs.len() > 0 {
            lemma_filter_slots_idempotent(m.last().1, after, before);
            lemma_filter_map_snoc(fd, (m.last().0, fs), after, before);
            assert(spec_filter_map(m, after, before) =~= fd + seq![(m.last().0, fs)]);
        } else {
            assert(spec_filter_map(m, after, before) =~= fd);
        }
    }
}

/// `sub` appears inside `sup`, in order and without repetition of
/// positions.
pub open spec fn subsequence_of(sub: Seq<TimeInterval>, sup: Seq<TimeInterval>) -> bool
    decreases sup.len(),
{
    if sub.len() == 0 {
        true
    } else if sup.len() == 0 {
        false
    } else if sub.last() == sup.last() {
        subsequence_of(sub.drop_last(), sup.drop_last())
    } else {
        subsequence_of(sub, sup.drop_last())
    }
}

/// A subsequence stays one when its last element is dropped.
proof fn lemma_subsequence_drop_sub(sub: Seq<TimeInterval>, sup: Seq<TimeInterval>)
    requires
        subsequence_of(sub, sup),
        sub.len() > 0,
    ensures
        subsequence_of(sub.drop_last(), sup),
    decreases sup.len(), 0int,
{
    if sub.last() == sup.last() {
        lemma_subsequence_extend_sup(sub.drop_last(), sup.drop_last(), sup.last());
        assert(sup.drop_last() + seq![sup.last()] =~= sup);
    } else {
        lemma_subsequence_drop_sub(sub, sup.drop_last());
        lemma_subsequence_extend_sup(sub.drop_last(), sup.drop_last(), sup.last());
        assert(sup.drop_last() + seq![sup.last()] =~= sup);
    }
}

/// A subsequence stays one when the larger sequence grows at the end.
proof fn lemma_subsequence_extend_sup(sub: Seq<TimeInterval>, sup: Seq<TimeInterval>, e: TimeInterval)
    requires
        subsequence_of(sub, sup),
    ensures
        subsequence_of(sub, sup + seq![e]),
    decreases sup.len(), 1int,
{
    if sub.len() == 0 {
    } else {
        assert((sup + seq![e]).drop_last() =~= sup);
        assert((sup + seq![e]).last() == e);
        if sub.last() == e {
            lemma_subsequence_drop_sub(sub, sup);
        }
    }
}

/// Filtering never introduces courts absent from the input, and never
/// reorders intervals within a court: every court of the filtered map
/// appears in the input under the same number, and its intervals form
/// a subsequence of that court's input intervals.
pub proof fn lemma_filter_no_new_courts_no_reorder(
    m: Seq<(u32, Seq<TimeInterval>)>,
    after: Time,
    before: Time,
)
    ensures
        forall|k: int|
            0 <= k < spec_filter_map(m, after, before).len() ==> exists|i: int|
                0 <= i < m.len() && (#[trigger] spec_filter_map(m, after, before)[k]).0 == m[i].0
                    && subsequence_of(spec_filter_map(m, after, before)[k].1, m[i].1),
{
    lemma_filter_courts_from_input(m, after, before);
    let f = spec_filter_map(m, after, before);
    assert forall|k: int| 0 <= k < f.len() implies exists|i: int|
        0 <= i < m.len() && (#[trigger] f[k]).0 == m[i].0 && subsequence_of(f[k].1, m[i].1) by {
        let i0 = choose|i0: int|
            0 <= i0 < m.len() && (#[trigger] f[k]).0 == m[i0].0 && f[k].1 == spec_filter_slots(
                m[i0].1,
                after,
                before,
            );
        lemma_filter_slots_subsequence(m[i0].1, after, before);
        assert(0 <= i0 < m.len() && f[k].0 == m[i0].0 && subsequence_of(f[k].1, m[i0].1));
    }
}

/// Filtering never reorders: the matching intervals of a court appear
/// in the filtered result in their input order.
pub proof fn lemma_filter_slots_subsequence(s: Seq<TimeInterval>, after: Time, before: Time)
    ensures
        subsequence_of(spec_filter_slots(s, after, before), s),
    decreases s.len(),
{
    if s.len() > 0 {
        lemma_filter_slots_subsequence(s.drop_last(), after, before);
        let f = spec_filter_slots(s, after, before);
        let fd = spec_filter_slots(s.drop_last(), after, before);
        if spec_matches(s.last(), after, before) {
            assert(f =~= fd + seq![s.last()]);
            assert(f.len() > 0 && f.last() == s.last());
            assert(f.drop_last() =~= fd);
        } else {
            assert(f =~= fd);
            lemma_subsequence_extend_sup(fd, s.drop_last(), s.last());
            assert(s.drop_last() + seq![s.last()] =~= s);
        }
    }
}

} // verus!
