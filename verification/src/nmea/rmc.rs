//! The position/velocity/time sentence: only the time-of-day and calendar
//! date fields are decoded; the seven fields between them are skipped.

use vstd::prelude::*;

use crate::datetime::{Date, Time};
use crate::nmea::parser::{
    skip_fields, spec_date, spec_time, date_dmy, time_hms_nano, find_comma,
};

verus! {

/// Decoded fields of a position/velocity/time sentence. Empty fields parse
/// as `None` rather than as an error.
#[derive(Clone, Copy, Debug, PartialEq)]
pub struct RmcData {
    pub time: Option<Time>,
    pub date: Option<Date>,
}

/// The body of a position/velocity/time sentence, read from `i`: an
/// optional time field, a comma, seven skipped comma-terminated fields, an
/// optional date field, and a final comma. The next position is just past
/// that comma; the rest of the body is left alone.
pub open spec fn spec_rmc(s: Seq<u8>, i: int) -> Option<(RmcData, int)> {
    let tj = match spec_time(s, i) {
        Some(p) => (Some(p.0), p.1),
        None => (None::<Time>, i),
    };
    let time = tj.0;
    let j = tj.1;
    if j >= s.len() || s[j] != 44 {
        None
    } else {
        match skip_fields(s, j + 1, 7) {
            None => None,
            Some(j7) => {
                let dj = match spec_date(s, j7) {
                    Some(p) => (Some(p.0), p.1),
                    None => (None::<Date>, j7),
                };
                let date = dj.0;
                let j8 = dj.1;
                if j8 >= s.len() || s[j8] != 44 {
                    None
                } else {
                    Some((RmcData { time, date }, j8 + 1))
                }
            },
        }
    }
}

/// Parses the body of a position/velocity/time sentence at `i`.
#[verifier::loop_isolation(false)]
pub fn rmc(s: &[u8], i: usize) -> (r: Option<(RmcData, usize)>)
    requires
        i <= s@.len(),
    ensures
        match r {
            Some(p) => spec_rmc(s@, i as int) == Some((p.0, p.1 as int)),
            None => spec_rmc(s@, i as int) is None,
        },
{
    let (time, j0) = match time_hms_nano(s, i) {
        Some(p) => (Some(p.0), p.1),
        None => (None, i),
    };
    if j0 >= s.len() {
        return None;
    }
    if s[j0] != 44 {
        return None;
    }
    let mut j: usize = j0 + 1;
    let mut count: usize = 0;
    while count < 7
        invariant
            count <= 7,
            j <= s@.len(),
            skip_fields(s@, j0 + 1, 7) == skip_fields(s@, j as int, (7 - count) as nat),
        decreases 7 - count,
    {
        match find_comma(s, j) {
            None => {
                return None;
            },
            Some(k) => {
                j = k + 1;
            },
        }
        count = count + 1;
    }
    let (date, j8) = match date_dmy(s, j) {
        Some(p) => (Some(p.0), p.1),
        None => (None, j),
    };
    if j8 >= s.len() {
        return None;
    }
    if s[j8] != 44 {
        return None;
    }
    Some((RmcData { time, date }, j8 + 1))
}

} // verus!
