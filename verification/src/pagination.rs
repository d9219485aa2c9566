//! The pagination walk over one date's schedule pages: which page to
//! ask for next, and how each fetched page grows the availability map.

use vstd::prelude::*;
use crate::activity::Activity;
use crate::schedule::{map_wf, spec_insert, AvailabilityMap};
use crate::scrape::{
    col_views, columns_of, extract_columns, spec_parse_column, CourtColumn, ParseError,
};
use crate::times::TimeInterval;

verus! {

/// Where a pagination walk stands: the activity queried, the map
/// accumulated so far, and the page to ask for next.
pub struct PaginationState {
    pub activity: Activity,
    pub map: AvailabilityMap,
    pub next_page: u8,
}

/// What one page means for the walk.
pub enum PageOutcome {
    /// The page had no court columns: the walk is over, whatever came
    /// before, and the accumulated map is complete.
    Finished(AvailabilityMap),
    /// The page had court columns: they were merged in and the next
    /// page index is armed.
    Continue(PaginationState),
}

impl PaginationState {
    pub open spec fn wf(self) -> bool {
        map_wf(self.map@)
    }

    /// The walk starts on the activity's first page with nothing
    /// accumulated; for tennis that first page is 2, for the other
    /// activities it is 1.
    pub fn start(activity: Activity) -> (r: PaginationState)
        ensures
            r.activity == activity,
            r.map@ == Seq::<(u32, Seq<TimeInterval>)>::empty(),
            r.next_page as int == activity.spec_first_page(),
            r.wf(),
    {
        PaginationState { activity, map: AvailabilityMap::new(), next_page: activity.first_page() }
    }
}

/// The map after merging one page's columns in document order, or the
/// first column that fails to parse.
pub open spec fn spec_merge_columns(
    m: Seq<(u32, Seq<TimeInterval>)>,
    cols: Seq<(Seq<char>, Seq<Seq<char>>)>,
    activity: Activity,
) -> Result<Seq<(u32, Seq<TimeInterval>)>, ParseError>
    decreases cols.len(),
{
    if cols.len() == 0 {
        Ok(m)
    } else {
        match spec_parse_column(cols[0], activity) {
            Err(e) => Err(e),
            Ok(None) => spec_merge_columns(m, cols.skip(1), activity),
            Ok(Some(p)) => spec_merge_columns(spec_insert(m, p.0, p.1), cols.skip(1), activity),
        }
    }
}

impl PaginationState {
    /// Feeds one page's columns into the walk. A page with no court
    /// columns ends the walk at once, however many pages before it had
    /// data; otherwise the page's courts are merged and the walk moves
    /// to the following page index.
    pub fn step(self, columns: &Vec<CourtColumn>) -> (r: Result<PageOutcome, ParseError>)
        requires
            self.wf(),
            self.next_page < 255,
        ensures
            columns@.len() == 0 ==> (r matches Ok(PageOutcome::Finished(m)) && m@ == self.map@
                && map_wf(m@)),
            columns@.len() > 0 ==> match spec_merge_columns(
                self.map@,
                col_views(columns@),
                self.activity,
            ) {
                Ok(m2) => r matches Ok(PageOutcome::Continue(st)) && st.activity == self.activity
                    && st.map@ == m2 && st.next_page == self.next_page + 1 && st.wf(),
                Err(e) => r == Err::<PageOutcome, ParseError>(e),
            },
    {
        let PaginationState { activity, map, next_page } = self;
        if columns.len() == 0 {
            return Ok(PageOutcome::Finished(map));
        }
        let ghost m0 = map@;
        let ghost cv = col_views(columns@);
        let mut map = map;
        let mut i: usize = 0;
        proof {
            assert(cv.skip(0) =~= cv);
        }
        while i < columns.len()
            invariant
                i <= columns@.len(),
                cv == col_views(columns@),
                m0 == self.map@,
                activity == self.activity,
                columns@.len() > 0,
                map_wf(map@),
                spec_merge_columns(map@, cv.skip(i as int), activity) == spec_merge_columns(
                    m0,
                    cv,
                    activity,
                ),
            decreases columns@.len() - i,
        {
            proof {
                assert(cv.skip(i as int).len() > 0);
                assert(cv.skip(i as int)[0] == columns@[i as int]@);
                assert(cv.skip(i as int).skip(1) =~= cv.skip(i as int + 1));
            }
            match crate::scrape::parse_column(&columns[i], &activity) {
                Err(e) => {
                    return Err(e);
                },
                Ok(None) => {},
                Ok(Some(p)) => {
                    let (court, slots) = p;
                    map.insert(court, slots);
                },
            }
            i = i + 1;
        }
        proof {
            assert(cv.skip(columns@.len() as int) =~= Seq::<(Seq<char>, Seq<Seq<char>>)>::empty());
        }
        Ok(PageOutcome::Continue(PaginationState { activity, map, next_page: next_page + 1 }))
    }
}

/// Parses one fetched page and feeds it into the walk: the whole
/// schedule-reading half of one pagination round. The fetched page
/// text decides whether the walk ends here (no court columns) or goes
/// on with the page's courts merged in.
pub fn process_page(state: PaginationState, html: &str) -> (r: Result<PageOutcome, ParseError>)
    requires
        state.wf(),
        state.next_page < 255,
    ensures
        columns_of(html@).len() == 0 ==> (r matches Ok(PageOutcome::Finished(m)) && m@
            == state.map@ && map_wf(m@)),
        columns_of(html@).len() > 0 ==> match spec_merge_columns(
            state.map@,
            columns_of(html@),
            state.activity,
        ) {
            Ok(m2) => r matches Ok(PageOutcome::Continue(st)) && st.activity == state.activity
                && st.map@ == m2 && st.next_page == state.next_page + 1 && st.wf(),
            Err(e) => r == Err::<PageOutcome, ParseError>(e),
        },
{
    let columns = extract_columns(html);
    state.step(&columns)
}

} // verus!
