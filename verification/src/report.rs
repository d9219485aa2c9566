//! Turning a filtered availability map into the notification text, and
//! deciding what one polling tick does with it.

use vstd::prelude::*;
use crate::digits::{dec_str, push_dec_u32};
use crate::filter::{filter_courts, spec_filter_map};
use crate::schedule::{map_wf, AvailabilityMap};
use crate::times::{spec_render_interval, Time, TimeInterval};

verus! {

/// One court's intervals, one "HH:MM - HH:MM" line each.
pub open spec fn spec_render_slots(s: Seq<TimeInterval>) -> Seq<char>
    decreases s.len(),
{
    if s.len() == 0 {
        Seq::empty()
    } else {
        spec_render_slots(s.drop_last()) + spec_render_interval(s.last()) + seq!['\n']
    }
}

/// One court's block: a "Court <id>:" header line, then its interval
/// lines.
pub open spec fn spec_render_entry(e: (u32, Seq<TimeInterval>)) -> Seq<char> {
    "Court "@ + dec_str(e.0 as nat) + ":\n"@ + spec_render_slots(e.1)
}

/// The blocks of every court in map order.
pub open spec fn spec_render_map(m: Seq<(u32, Seq<TimeInterval>)>) -> Seq<char>
    decreases m.len(),
{
    if m.len() == 0 {
        Seq::empty()
    } else {
        spec_render_map(m.drop_last()) + spec_render_entry(m.last())
    }
}

/// The notification body: the courts' blocks, or the fallback line
/// when nothing is available.
pub open spec fn spec_result_text(m: Seq<(u32, Seq<TimeInterval>)>) -> Seq<char> {
    if m.len() == 0 {
        "Sorry, nothing available"@
    } else {
        spec_render_map(m)
    }
}

/// Renders the filtered map as the notification body, one "Court
/// <id>:" header per court followed by one line per interval; an empty
/// map yields the fallback line.
pub fn build_result_string(filtered_available: &AvailabilityMap) -> (r: String)
    requires
        map_wf(filtered_available@),
    ensures
        r@ == spec_result_text(filtered_available@),
{
    let ghost m = filtered_available@;
    let mut r = String::new();
    if filtered_available.is_empty() {
        r.append("Sorry, nothing available");
        proof {
            assert(r@ =~= "Sorry, nothing available"@);
        }
        return r;
    }
    let mut i: usize = 0;
    proof {
        assert(r@ =~= spec_render_map(m.subrange(0, 0)));
    }
    while i < filtered_available.len()
        invariant
            i <= m.len(),
            m == filtered_available@,
            map_wf(m),
            r@ == spec_render_map(m.subrange(0, i as int)),
        decreases m.len() - i,
    {
        r.append("Court ");
        push_dec_u32(&mut r, filtered_available.court_at(i));
        r.append(":\n");
        let slots = filtered_available.slots_at(i);
        let ghost base = r@;
        proof {
            assert(base =~= base + spec_render_slots(slots@.subrange(0, 0)));
        }
        let mut j: usize = 0;
        while j < slots.len()
            invariant
                j <= slots@.len(),
                i < m.len(),
                m == filtered_available@,
                map_wf(m),
                slots@ == m[i as int].1,
                r@ == base + spec_render_slots(slots@.subrange(0, j as int)),
            decreases slots@.len() - j,
        {
            let iv = slots[j];
            proof {
                assert(iv.wf());
            }
            iv.push_render(&mut r);
            proof { reveal_strlit("\n"); }
            r.append("\n");
            proof {
                assert(slots@.subrange(0, j as int + 1).drop_last() =~= slots@.subrange(
                    0,
                    j as int,
                ));
                assert(slots@.subrange(0, j as int + 1).last() == slots@[j as int]);
                assert(r@ =~= base + spec_render_slots(slots@.subrange(0, j as int + 1)));
            }
            j = j + 1;
        }
        proof {
            assert(slots@.subrange(0, slots@.len() as int) =~= slots@);
            assert(m.subrange(0, i as int + 1).drop_last() =~= m.subrange(0, i as int));
            assert(m.subrange(0, i as int + 1).last() == m[i as int]);
            assert(r@ =~= spec_render_map(m.subrange(0, i as int + 1)));
        }
        i = i + 1;
    }
    proof {
        assert(m.subrange(0, m.len() as int) =~= m);
    }
    r
}

/// What one polling tick decides once the date's full map is in hand.
pub enum TickOutcome {
    /// Slots match the window: the filtered map, and the message to
    /// push. The tick that sees this notifies and ends the run.
    Found { courts: AvailabilityMap, message: String },
    /// Nothing matched the window; the caller waits and polls again.
    NothingYet,
}

/// Applies the search window to a freshly accumulated map and decides
/// the tick: notify with the filtered courts, or wait.
pub fn evaluate_tick(
    available_times: AvailabilityMap,
    desired_after_time: Time,
    desired_before_time: Time,
) -> (r: TickOutcome)
    requires
        map_wf(available_times@),
    ensures
        spec_filter_map(available_times@, desired_after_time, desired_before_time).len() == 0
            ==> r is NothingYet,
        spec_filter_map(available_times@, desired_after_time, desired_before_time).len() > 0 ==> (
        r matches TickOutcome::Found { courts, message } && courts@ == spec_filter_map(
            available_times@,
            desired_after_time,
            desired_before_time,
        ) && map_wf(courts@) && message@ == spec_result_text(
            spec_filter_map(available_times@, desired_after_time, desired_before_time),
        )),
{
    let filtered = filter_courts(available_times, desired_after_time, desired_before_time);
    if filtered.is_empty() {
        return TickOutcome::NothingYet;
    }
    let message = build_result_string(&filtered);
    TickOutcome::Found { courts: filtered, message }
}

} // verus!
