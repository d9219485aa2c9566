//! The facility types the booking site knows, and the URL of one
//! schedule page.

use vstd::prelude::*;
use crate::digits::dec_str;

verus! {

/// A facility type. Each one maps to a numeric code in the query URL
/// and to the length of the text prefix in its court labels.
#[derive(Clone, Copy, Debug, PartialEq, Eq, Structural)]
pub enum Activity {
    Beach,
    Tennis,
    Pickle,
}

impl Activity {
    /// Numeric code used in the site's query URL.
    pub open spec fn spec_code(self) -> int {
        match self {
            Activity::Tennis => 1,
            Activity::Beach => 2,
            Activity::Pickle => 3,
        }
    }

    pub fn code(&self) -> (c: u8)
        ensures
            c as int == self.spec_code(),
    {
        match self {
            Activity::Tennis => 1,
            Activity::Beach => 2,
            Activity::Pickle => 3,
        }
    }

    /// The first page index the site serves for this activity. The site
    /// starts tennis pagination at 2; every other activity starts at 1.
    pub open spec fn spec_first_page(self) -> int {
        match self {
            Activity::Tennis => 2,
            Activity::Beach => 1,
            Activity::Pickle => 1,
        }
    }

    pub fn first_page(&self) -> (p: u8)
        ensures
            p as int == self.spec_first_page(),
    {
        match self {
            Activity::Tennis => 2,
            Activity::Beach => 1,
            Activity::Pickle => 1,
        }
    }

    /// How many characters of a court label precede the court number.
    /// No prefix length is fixed for pickleball, so its labels are
    /// rejected rather than guessed at.
    pub open spec fn spec_prefix_len(self) -> Option<usize> {
        match self {
            Activity::Beach => Some(5usize),
            Activity::Tennis => Some(6usize),
            Activity::Pickle => None,
        }
    }

    pub fn prefix_len(&self) -> (r: Option<usize>)
        ensures
            r == self.spec_prefix_len(),
    {
        match self {
            Activity::Beach => Some(5),
            Activity::Tennis => Some(6),
            Activity::Pickle => None,
        }
    }
}

pub struct UrlBuilder;

impl UrlBuilder {
    /// The full query URL for one (activity, date, page) triple.
    pub open spec fn spec_request_url(activity: Activity, date: Seq<char>, page_num: int) -> Seq<
        char,
    > {
        "https://zhs-courtbuchung.de/reservations.php?action=showReservations&type_id="@ + dec_str(
            activity.spec_code() as nat,
        ) + "&date="@ + date + "&page="@ + dec_str(page_num as nat)
    }

    pub fn build_request_url(&self, activity: &Activity, date: &String, page_num: u8) -> (r:
        String)
        ensures
            r@ == Self::spec_request_url(*activity, date@, page_num as int),
    {
        let mut r = String::new();
        r.append("https://zhs-courtbuchung.de/reservations.php?action=showReservations&type_id=");
        crate::digits::push_dec_u32(&mut r, activity.code() as u32);
        r.append("&date=");
        r.append(date.as_str());
        r.append("&page=");
        crate::digits::push_dec_u32(&mut r, page_num as u32);
        proof {
            assert(r@ =~= Self::spec_request_url(*activity, date@, page_num as int));
        }
        r
    }
}

} // verus!
