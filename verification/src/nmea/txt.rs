//! The free-text diagnostic sentence: three small counters followed by the
//! rest of the line as text.

use vstd::prelude::*;

use crate::nmea::parser::{number, spec_number};

verus! {

/// Decoded fields of a free-text diagnostic sentence.
#[derive(Debug, PartialEq)]
pub struct TxtData {
    /// Total number of messages in the group.
    pub num_msg: u8,
    /// Message number within the group.
    pub num: u8,
    /// Text identifier.
    pub id: u8,
    /// Text: everything after the third comma, to the end of the body.
    pub text: Vec<u8>,
}

/// The body of a free-text sentence, read from `i`: three comma-terminated
/// small integers, then free text running to the end of the body.
pub open spec fn spec_txt(s: Seq<u8>, i: int) -> Option<(u8, u8, u8, Seq<u8>)> {
    match spec_number(s, i) {
        None => None,
        Some(first) => if first.1 >= s.len() || s[first.1] != 44 {
            None
        } else {
            match spec_number(s, first.1 + 1) {
                None => None,
                Some(second) => if second.1 >= s.len() || s[second.1] != 44 {
                    None
                } else {
                    match spec_number(s, second.1 + 1) {
                        None => None,
                        Some(third) => if third.1 >= s.len() || s[third.1] != 44 {
                            None
                        } else {
                            Some((first.0, second.0, third.0, s.subrange(third.1 + 1, s.len() as int)))
                        },
                    }
                },
            }
        },
    }
}

/// Parses the body of a free-text sentence at `i`. The whole body is
/// consumed: the next position is its end.
#[verifier::loop_isolation(false)]
pub fn txt(s: &[u8], i: usize) -> (r: Option<(TxtData, usize)>)
    requires
        i <= s@.len(),
    ensures
        match r {
            Some(p) => {
                &&& spec_txt(s@, i as int) matches Some(q)
                &&& p.0.num_msg == q.0
                &&& p.0.num == q.1
                &&& p.0.id == q.2
                &&& p.0.text@ == q.3
                &&& p.1 == s@.len()
            },
            None => spec_txt(s@, i as int) is None,
        },
{
    let (num_msg, e1) = match number(s, i) {
        Some(p) => p,
        None => {
            return None;
        },
    };
    if e1 >= s.len() {
        return None;
    }
    if s[e1] != 44 {
        return None;
    }
    let (num, e2) = match number(s, e1 + 1) {
        Some(p) => p,
        None => {
            return None;
        },
    };
    if e2 >= s.len() {
        return None;
    }
    if s[e2] != 44 {
        return None;
    }
    let (id, e3) = match number(s, e2 + 1) {
        Some(p) => p,
        None => {
            return None;
        },
    };
    if e3 >= s.len() {
        return None;
    }
    if s[e3] != 44 {
        return None;
    }
    let mut text: Vec<u8> = Vec::new();
    let mut t: usize = e3 + 1;
    while t < s.len()
        invariant
            e3 + 1 <= t <= s@.len(),
            text@.len() == t - (e3 + 1),
            forall|q: int| 0 <= q < text@.len() ==> text@[q] == s@[e3 + 1 + q],
        decreases s@.len() - t,
    {
        let c = s[t];
        text.push(c);
        t = t + 1;
    }
    proof {
        assert(text@ =~= s@.subrange(e3 + 1, s@.len() as int));
    }
    Some((TxtData { num_msg, num, id, text }, s.len()))
}

} // verus!
