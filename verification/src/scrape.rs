//! Reading one schedule page: the court columns that the site's markup
//! holds, and what each column says about a court.

use vstd::prelude::*;
use crate::activity::Activity;
use crate::digits::{all_dec_digits, dec_val, parse_u32_from};
use crate::times::{spec_interval_of, spec_interval_valid, TimeInterval};

verus! {

/// Why one page's schedule could not be read.
#[derive(Clone, Copy, Debug, PartialEq, Eq, Structural)]
pub enum ParseError {
    /// A court header did not carry the activity's prefix and a
    /// positive court number, or the activity has no fixed prefix.
    CourtLabel,
    /// An availability cell did not read as a valid "HH:MM - HH:MM".
    TimeLabel,
}

/// What one table column of a schedule page holds: the header text
/// naming the court, and the text of each cell flagged available.
#[derive(Clone, Debug)]
pub struct CourtColumn {
    pub label: String,
    pub slots: Vec<String>,
}

/// The views of a column's cell texts, in order.
pub open spec fn slot_views(v: Seq<String>) -> Seq<Seq<char>> {
    Seq::new(v.len(), |i: int| v[i]@)
}

impl View for CourtColumn {
    type V = (Seq<char>, Seq<Seq<char>>);

    open spec fn view(&self) -> (Seq<char>, Seq<Seq<char>>) {
        (self.label@, slot_views(self.slots@))
    }
}

/// The views of a run of columns, in order.
pub open spec fn col_views(cols: Seq<CourtColumn>) -> Seq<(Seq<char>, Seq<Seq<char>>)> {
    Seq::new(cols.len(), |i: int| cols[i]@)
}

/// The court columns that one schedule page's markup holds: for each
/// column in document order, its header text and the text of each cell
/// flagged available. The markup determines them; nothing else does.
pub uninterp spec fn columns_of(html: Seq<char>) -> Seq<(Seq<char>, Seq<Seq<char>>)>;

/// Relies on scraper's Html::parse_document and selector matching to
/// pull from one page each court column ("div.content > table > tbody
/// > tr > td"), its header text ("th"), and the text of its available
/// cells ("td.avaliable", in the site's own spelling). The result is a
/// function of the document text alone.
#[verifier::external_body]
pub(crate) fn extract_columns(html: &str) -> (r: Vec<CourtColumn>)
    ensures
        col_views(r@) == columns_of(html@),
{
    let doc = scraper::Html::parse_document(html);
    let col_sel = scraper::Selector::parse("div.content > table > tbody > tr > td").unwrap();
    let head_sel = scraper::Selector::parse("th").unwrap();
    let cell_sel = scraper::Selector::parse("td.avaliable").unwrap();
    doc.select(&col_sel)
        .map(|col| CourtColumn {
            label: col.select(&head_sel).next().map_or(String::new(), |h| h.text().collect()),
            slots: col.select(&cell_sel).map(|c| c.text().collect()).collect(),
        })
        .collect()
}

/// True when `s` is a valid court header for the activity: the
/// activity has a fixed prefix length, and what follows the prefix is
/// a positive court number that fits in a `u32`.
pub open spec fn spec_label_valid(s: Seq<char>, activity: Activity) -> bool {
    match activity.spec_prefix_len() {
        Some(p) => s.len() > p && all_dec_digits(s.skip(p as int)) && 1 <= dec_val(
            s.skip(p as int),
        ) <= u32::MAX,
        None => false,
    }
}

/// The court number a valid header names.
pub open spec fn spec_label_court(s: Seq<char>, activity: Activity) -> int {
    dec_val(s.skip(activity.spec_prefix_len()->Some_0 as int)) as int
}

/// Parses a court header. Returns the court number exactly when the
/// label is valid for the activity.
pub fn parse_court_label(label: &str, activity: &Activity) -> (r: Option<u32>)
    ensures
        r is Some <==> spec_label_valid(label@, *activity),
        spec_label_valid(label@, *activity) ==> r == Some(
            spec_label_court(label@, *activity) as u32,
        ),
{
    let plen = match activity.prefix_len() {
        Some(p) => p,
        None => { return None; },
    };
    let num = match parse_u32_from(label, plen) {
        Some(n) => n,
        None => { return None; },
    };
    if num == 0 {
        return None;
    }
    Some(num)
}

/// What one column contributes to the availability map: nothing when
/// the court is fully booked, its court number and intervals when not,
/// and a failure when the header or a cell does not parse.
pub open spec fn spec_parse_column(cv: (Seq<char>, Seq<Seq<char>>), activity: Activity) -> Result<
    Option<(u32, Seq<TimeInterval>)>,
    ParseError,
> {
    if !spec_label_valid(cv.0, activity) {
        Err(ParseError::CourtLabel)
    } else if cv.1.len() == 0 {
        Ok(None)
    } else if exists|j: int| 0 <= j < cv.1.len() && !spec_interval_valid(#[trigger] cv.1[j]) {
        Err(ParseError::TimeLabel)
    } else {
        Ok(
            Some(
                (
                    spec_label_court(cv.0, activity) as u32,
                    Seq::new(cv.1.len(), |j: int| spec_interval_of(cv.1[j])),
                ),
            ),
        )
    }
}

/// How an executable column result realises the specified one.
pub open spec fn column_result_matches(
    r: Result<Option<(u32, Vec<TimeInterval>)>, ParseError>,
    s: Result<Option<(u32, Seq<TimeInterval>)>, ParseError>,
) -> bool {
    match r {
        Err(e) => s == Err::<Option<(u32, Seq<TimeInterval>)>, ParseError>(e),
        Ok(None) => s == Ok::<Option<(u32, Seq<TimeInterval>)>, ParseError>(None),
        Ok(Some(p)) => s == Ok::<Option<(u32, Seq<TimeInterval>)>, ParseError>(
            Some((p.0, p.1@)),
        ),
    }
}

/// Parses one court column: the header into a court number, each
/// available cell into an interval. A fully booked court (no cells)
/// yields nothing rather than an empty list.
pub fn parse_column(col: &CourtColumn, activity: &Activity) -> (r: Result<
    Option<(u32, Vec<TimeInterval>)>,
    ParseError,
>)
    ensures
        column_result_matches(r, spec_parse_column(col@, *activity)),
        r matches Ok(Some(p)) ==> p.1@.len() > 0 && (forall|j: int|
            0 <= j < p.1@.len() ==> (#[trigger] p.1@[j]).wf()),
{
    let court = match parse_court_label(col.label.as_str(), activity) {
        Some(c) => c,
        None => { return Err(ParseError::CourtLabel); },
    };
    if col.slots.len() == 0 {
        return Ok(None);
    }
    let mut ivs: Vec<TimeInterval> = Vec::new();
    let mut j: usize = 0;
    while j < col.slots.len()
        invariant
            j <= col.slots@.len(),
            spec_label_valid(col@.0, *activity),
            court == spec_label_court(col@.0, *activity) as u32,
            col@.1.len() == col.slots@.len() > 0,
            ivs@.len() == j,
            forall|k: int| 0 <= k < j ==> spec_interval_valid(#[trigger] col@.1[k]),
            forall|k: int|
                0 <= k < j ==> ivs@[k] == spec_interval_of(#[trigger] col@.1[k]) && ivs@[k].wf(),
        decreases col.slots@.len() - j,
    {
        proof {
            assert(col@.1[j as int] == col.slots@[j as int]@);
        }
        let iv = match TimeInterval::parse(col.slots[j].as_str()) {
            Some(iv) => iv,
            None => {
                proof {
                    assert(!spec_interval_valid(col@.1[j as int]));
                }
                return Err(ParseError::TimeLabel);
            },
        };
        ivs.push(iv);
        j = j + 1;
    }
    proof {
        assert(ivs@ =~= Seq::new(col@.1.len(), |j: int| spec_interval_of(col@.1[j])));
    }
    Ok(Some((court, ivs)))
}

} // verus!
