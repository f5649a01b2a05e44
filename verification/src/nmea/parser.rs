//! The sentence parser: envelope, checksum, dispatch and field scanners.
//!
//! A sentence arrives as `$` + talker (2) + type (3) + `,` + fields +
//! optional `*HH` checksum suffix + `\r\n`. The parser is pure: it reads a
//! complete line and produces a typed message or an error; it never panics
//! and never consumes anything but its argument.

use vstd::prelude::*;

use crate::datetime::{valid_hms_nano, valid_ymd, Date, Time};
use crate::nmea::error::Error;
use crate::nmea::rmc::{rmc, spec_rmc, RmcData};
use crate::nmea::txt::{spec_txt, txt, TxtData};

verus! {

/// The body of one sentence, decoded: only the supported types are
/// interpreted; any other type keeps its tag and nothing more.
#[derive(Debug, PartialEq)]
pub enum MessageType {
    Rmc(RmcData),
    Txt(TxtData),
    Unsupported((char, char, char)),
}

/// One decoded sentence: a two-character talker id and the typed body.
#[derive(Debug, PartialEq)]
pub struct Message {
    pub talker: (char, char),
    pub data: MessageType,
}

/// ASCII decimal digit.
pub open spec fn is_digit(c: u8) -> bool {
    48 <= c <= 57
}

/// Numeric value of a digit byte.
pub open spec fn digit(c: u8) -> int {
    c - 48
}

/// Value of a run of decimal digit bytes, most significant first.
pub open spec fn digits_val(s: Seq<u8>) -> int
    decreases s.len(),
{
    if s.len() == 0 {
        0
    } else {
        digits_val(s.drop_last()) * 10 + digit(s.last())
    }
}

/// Where the run of digit bytes starting at `i` ends.
pub open spec fn digit_run_end(s: Seq<u8>, i: int) -> int
    decreases s.len() - i,
{
    if i < 0 || i >= s.len() {
        s.len() as int
    } else if !is_digit(s[i]) {
        i
    } else {
        digit_run_end(s, i + 1)
    }
}

/// The digit run is bounded, all digits, and ends at a non-digit.
pub proof fn lemma_digit_run_end(s: Seq<u8>, i: int)
    requires
        0 <= i <= s.len(),
    ensures
        i <= digit_run_end(s, i) <= s.len(),
        forall|k: int| i <= k < digit_run_end(s, i) ==> is_digit(s[k]),
        digit_run_end(s, i) < s.len() ==> !is_digit(s[digit_run_end(s, i)]),
    decreases s.len() - i,
{
    if i >= s.len() {
    } else if !is_digit(s[i]) {
    } else {
        lemma_digit_run_end(s, i + 1);
    }
}

/// A digit run is non-negative and below ten to the power of its length.
pub proof fn lemma_digits_val_bound(s: Seq<u8>)
    requires
        forall|k: int| 0 <= k < s.len() ==> is_digit(s[k]),
    ensures
        0 <= digits_val(s) < pow10(s.len()),
    decreases s.len(),
{
    if s.len() == 0 {
    } else {
        lemma_digits_val_bound(s.drop_last());
    }
}

/// Ten to the power `e`.
pub open spec fn pow10(e: nat) -> int
    decreases e,
{
    if e == 0 {
        1
    } else {
        10 * pow10((e - 1) as nat)
    }
}

pub proof fn lemma_pow10_monotonic(a: nat, b: nat)
    requires
        a <= b,
    ensures
        0 < pow10(a) <= pow10(b),
    decreases b,
{
    if b == 0 {
    } else if a == b {
        lemma_pow10_monotonic((a - 1) as nat, (b - 1) as nat);
    } else {
        lemma_pow10_monotonic(a, (b - 1) as nat);
    }
}

/// Splitting an exponent splits the power.
pub proof fn lemma_pow10_adds(a: nat, b: nat)
    ensures
        pow10(a + b) == pow10(a) * pow10(b),
    decreases a,
{
    if a == 0 {
    } else {
        lemma_pow10_adds((a - 1) as nat, b);
        assert(pow10(((a - 1) + b) as nat) == pow10((a - 1) as nat) * pow10(b));
        assert(pow10(a + b) == 10 * pow10(((a - 1) + b) as nat));
        assert(10 * (pow10((a - 1) as nat) * pow10(b)) == (10 * pow10((a - 1) as nat)) * pow10(
            b,
        )) by (nonlinear_arith);
    }
}

/// Index of the first comma at or after `i`, if any.
pub open spec fn next_comma(s: Seq<u8>, i: int) -> Option<int>
    decreases s.len() - i,
{
    if i < 0 || i >= s.len() {
        None
    } else if s[i] == 44 {
        Some(i)
    } else {
        next_comma(s, i + 1)
    }
}

/// Position after skipping `n` comma-terminated fields from `i`, if each
/// field is in fact terminated by a comma.
pub open spec fn skip_fields(s: Seq<u8>, i: int, n: nat) -> Option<int>
    decreases n,
{
    if n == 0 {
        Some(i)
    } else {
        match next_comma(s, i) {
            Some(k) => skip_fields(s, k + 1, (n - 1) as nat),
            None => None,
        }
    }
}

/// Value of a hex digit byte; any other byte counts as zero.
pub open spec fn hex_val(c: u8) -> int {
    if 48 <= c <= 57 {
        c - 48
    } else if 65 <= c <= 70 {
        10 + c - 65
    } else if 97 <= c <= 102 {
        10 + c - 97
    } else {
        0
    }
}

/// ASCII hexadecimal digit.
pub open spec fn is_hex_digit(c: u8) -> bool {
    (48 <= c <= 57) || (65 <= c <= 70) || (97 <= c <= 102)
}

/// XOR fold of a byte sequence, seeded at zero.
pub open spec fn xor_fold(s: Seq<u8>) -> u8
    decreases s.len(),
{
    if s.len() == 0 {
        0
    } else {
        xor_fold(s.drop_last()) ^ s.last()
    }
}

/// Every byte is plain ASCII.
pub open spec fn is_ascii_seq(s: Seq<u8>) -> bool {
    forall|k: int| 0 <= k < s.len() ==> s[k] < 128
}

/// Value of a hex digit character, `0` on anything else.
pub fn hex(c: u8) -> (r: u8)
    ensures
        r == hex_val(c),
        r < 16,
{
    if 48 <= c && c <= 57 {
        c - 48
    } else if 65 <= c && c <= 70 {
        10 + c - 65
    } else if 97 <= c && c <= 102 {
        10 + c - 97
    } else {
        0
    }
}

/// Scans the digit run starting at `from` and accumulates its value:
/// returns where the run ends and its value, or `None` for the value when
/// the run does not fit a `u32`.
fn parse_digits_u32(s: &[u8], from: usize) -> (r: (usize, Option<u32>))
    requires
        from <= s@.len(),
    ensures
        r.0 == digit_run_end(s@, from as int),
        match r.1 {
            Some(v) => v == digits_val(s@.subrange(from as int, r.0 as int)),
            None => digits_val(s@.subrange(from as int, r.0 as int)) > u32::MAX,
        },
{
    let ghost f = from as int;
    let mut j: usize = from;
    let mut acc: u32 = 0;
    let mut overflow = false;
    proof {
        assert(s@.subrange(f, f) =~= Seq::<u8>::empty());
    }
    while j < s.len() && s[j] >= 48 && s[j] <= 57
        invariant
            f == from as int,
            from <= j <= s@.len(),
            digit_run_end(s@, f) == digit_run_end(s@, j as int),
            forall|k: int| f <= k < j ==> is_digit(s@[k]),
            !overflow ==> acc == digits_val(s@.subrange(f, j as int)),
            overflow ==> digits_val(s@.subrange(f, j as int)) > u32::MAX,
        decreases s@.len() - j,
    {
        let d = s[j] - 48;
        proof {
            let p = s@.subrange(f, j as int);
            let q = s@.subrange(f, j + 1);
            assert(q.drop_last() =~= p);
            assert(q.last() == s@[j as int]);
        }
        if overflow {
        } else if acc >= 429496730 || (acc == 429496729 && d > 5) {
            overflow = true;
            proof {
                let p = s@.subrange(f, j as int);
                lemma_digits_val_bound(p);
            }
        } else {
            acc = acc * 10 + d as u32;
        }
        j = j + 1;
    }
    proof {
        assert(digit_run_end(s@, j as int) == j);
    }
    if overflow {
        (j, None)
    } else {
        (j, Some(acc))
    }
}

/// Ten to the power `e`, as a machine word.
fn pow10_u32(e: usize) -> (r: u32)
    requires
        e <= 9,
    ensures
        r == pow10(e as nat),
{
    proof {
        reveal_with_fuel(pow10, 11);
    }
    if e == 0 {
        1
    } else if e == 1 {
        10
    } else if e == 2 {
        100
    } else if e == 3 {
        1000
    } else if e == 4 {
        10000
    } else if e == 5 {
        100000
    } else if e == 6 {
        1000000
    } else if e == 7 {
        10000000
    } else if e == 8 {
        100000000
    } else {
        1000000000
    }
}

/// A small integer field: the digit run starting at `i`, required to be
/// non-empty and to fit the field's width.
pub open spec fn spec_number(s: Seq<u8>, i: int) -> Option<(u8, int)> {
    let e = digit_run_end(s, i);
    if e == i {
        None
    } else {
        let v = digits_val(s.subrange(i, e));
        if v > 255 {
            None
        } else {
            Some((v as u8, e))
        }
    }
}

/// Parses a small integer field at `i`.
pub fn number(s: &[u8], i: usize) -> (r: Option<(u8, usize)>)
    requires
        i <= s@.len(),
    ensures
        match r {
            Some(p) => spec_number(s@, i as int) == Some((p.0, p.1 as int)),
            None => spec_number(s@, i as int) is None,
        },
{
    let (e, vopt) = parse_digits_u32(s, i);
    if e == i {
        return None;
    }
    match vopt {
        None => None,
        Some(v) => if v > 255 {
            None
        } else {
            Some((v as u8, e))
        },
    }
}

/// The fractional part scaled or truncated to nanoseconds: `v` was written
/// with `len` digits after the decimal point.
pub open spec fn nanos_of_frac(v: int, len: int) -> int {
    if len > 9 {
        v / pow10((len - 9) as nat)
    } else {
        v * pow10((9 - len) as nat)
    }
}

/// A time-of-day field at `i`: six digits `HHMMSS`, optionally followed by
/// `.` and a non-empty run of fraction digits whose value must fit a
/// machine word. The next position is just past what was read.
pub open spec fn spec_time(s: Seq<u8>, i: int) -> Option<(Time, int)> {
    if i + 6 > s.len() {
        None
    } else if !(is_digit(s[i]) && is_digit(s[i + 1]) && is_digit(s[i + 2]) && is_digit(s[i + 3])
        && is_digit(s[i + 4]) && is_digit(s[i + 5])) {
        None
    } else {
        let h = 10 * digit(s[i]) + digit(s[i + 1]);
        let m = 10 * digit(s[i + 2]) + digit(s[i + 3]);
        let sec = 10 * digit(s[i + 4]) + digit(s[i + 5]);
        if i + 6 < s.len() && s[i + 6] == 46 && i + 7 < s.len() && is_digit(s[i + 7]) {
            let e = digit_run_end(s, i + 7);
            let v = digits_val(s.subrange(i + 7, e));
            if v > u32::MAX {
                None
            } else {
                let nano = nanos_of_frac(v, e - (i + 7));
                if valid_hms_nano(h, m, sec, nano) {
                    Some(
                        (
                            Time {
                                hour: h as u8,
                                minute: m as u8,
                                second: sec as u8,
                                nanosecond: nano as u32,
                            },
                            e,
                        ),
                    )
                } else {
                    None
                }
            }
        } else {
            if valid_hms_nano(h, m, sec, 0) {
                Some(
                    (
                        Time { hour: h as u8, minute: m as u8, second: sec as u8, nanosecond: 0 },
                        i + 6,
                    ),
                )
            } else {
                None
            }
        }
    }
}

/// Parses a time-of-day field at `i`. Fraction digits beyond the ninth are
/// truncated away; fewer than nine are scaled up.
pub fn time_hms_nano(s: &[u8], i: usize) -> (r: Option<(Time, usize)>)
    requires
        i <= s@.len(),
    ensures
        match r {
            Some(p) => spec_time(s@, i as int) == Some((p.0, p.1 as int)),
            None => spec_time(s@, i as int) is None,
        },
{
    if s.len() - i < 6 {
        return None;
    }
    let c0 = s[i];
    let c1 = s[i + 1];
    let c2 = s[i + 2];
    let c3 = s[i + 3];
    let c4 = s[i + 4];
    let c5 = s[i + 5];
    if !(c0 >= 48 && c0 <= 57 && c1 >= 48 && c1 <= 57 && c2 >= 48 && c2 <= 57 && c3 >= 48 && c3
        <= 57 && c4 >= 48 && c4 <= 57 && c5 >= 48 && c5 <= 57) {
        return None;
    }
    let h = (c0 - 48) * 10 + (c1 - 48);
    let m = (c2 - 48) * 10 + (c3 - 48);
    let sec = (c4 - 48) * 10 + (c5 - 48);
    let has_frac = i + 6 < s.len() && s[i + 6] == 46 && i + 7 < s.len() && s[i + 7] >= 48 && s[i
        + 7] <= 57;
    if has_frac {
        let (e, vopt) = parse_digits_u32(s, i + 7);
        match vopt {
            None => None,
            Some(v) => {
                proof {
                    lemma_digit_run_end(s@, i + 7);
                    lemma_digits_val_bound(s@.subrange(i + 7, e as int));
                }
                let run_len = e - (i + 7);
                let nano: u32 = if run_len > 9 {
                    let ex = run_len - 9;
                    if ex >= 10 {
                        proof {
                            lemma_pow10_monotonic(10, ex as nat);
                            assert(pow10(10) == 10_000_000_000) by {
                                reveal_with_fuel(pow10, 11);
                            }
                            vstd::arithmetic::div_mod::lemma_basic_div(
                                v as int,
                                pow10(ex as nat),
                            );
                        }
                        0
                    } else {
                        proof {
                            lemma_pow10_monotonic(0, ex as nat);
                        }
                        v / pow10_u32(ex)
                    }
                } else {
                    let p = pow10_u32(9 - run_len);
                    proof {
                        lemma_pow10_adds(run_len as nat, (9 - run_len) as nat);
                        assert(pow10(9) == 1_000_000_000) by {
                            reveal_with_fuel(pow10, 10);
                        }
                        assert(v * p < 1_000_000_000) by (nonlinear_arith)
                            requires
                                0 <= v < pow10(run_len as nat),
                                p == pow10((9 - run_len) as nat),
                                p > 0,
                                pow10(run_len as nat) * pow10((9 - run_len) as nat)
                                    == 1_000_000_000,
                        ;
                    }
                    v * p
                };
                match Time::from_hms_nano(h, m, sec, nano) {
                    Some(t) => Some((t, e)),
                    None => None,
                }
            },
        }
    } else {
        match Time::from_hms_nano(h, m, sec, 0) {
            Some(t) => Some((t, i + 6)),
            None => None,
        }
    }
}

/// A calendar-date field at `i`: six digits `DDMMYY`, the year taken to be
/// in the 2000s.
pub open spec fn spec_date(s: Seq<u8>, i: int) -> Option<(Date, int)> {
    if i + 6 > s.len() {
        None
    } else if !(is_digit(s[i]) && is_digit(s[i + 1]) && is_digit(s[i + 2]) && is_digit(s[i + 3])
        && is_digit(s[i + 4]) && is_digit(s[i + 5])) {
        None
    } else {
        let d = 10 * digit(s[i]) + digit(s[i + 1]);
        let m = 10 * digit(s[i + 2]) + digit(s[i + 3]);
        let y = 2000 + 10 * digit(s[i + 4]) + digit(s[i + 5]);
        if valid_ymd(y, m, d) {
            Some((Date { year: y as u16, month: m as u8, day: d as u8 }, i + 6))
        } else {
            None
        }
    }
}

/// Parses a calendar-date field at `i`.
pub fn date_dmy(s: &[u8], i: usize) -> (r: Option<(Date, usize)>)
    requires
        i <= s@.len(),
    ensures
        match r {
            Some(p) => spec_date(s@, i as int) == Some((p.0, p.1 as int)),
            None => spec_date(s@, i as int) is None,
        },
{
    if s.len() - i < 6 {
        return None;
    }
    let c0 = s[i];
    let c1 = s[i + 1];
    let c2 = s[i + 2];
    let c3 = s[i + 3];
    let c4 = s[i + 4];
    let c5 = s[i + 5];
    if !(c0 >= 48 && c0 <= 57 && c1 >= 48 && c1 <= 57 && c2 >= 48 && c2 <= 57 && c3 >= 48 && c3
        <= 57 && c4 >= 48 && c4 <= 57 && c5 >= 48 && c5 <= 57) {
        return None;
    }
    let d = (c0 - 48) * 10 + (c1 - 48);
    let m = (c2 - 48) * 10 + (c3 - 48);
    let y: u16 = 2000 + (c4 as u16 - 48) * 10 + (c5 as u16 - 48);
    match Date::from_ymd(y, m, d) {
        Some(date) => Some((date, i + 6)),
        None => None,
    }
}

/// The sentence tag names the position/velocity/time sentence.
pub open spec fn is_rmc_tag(s: Seq<u8>) -> bool {
    s[2] == 82 && s[3] == 77 && s[4] == 67
}

/// The sentence tag names the free-text sentence.
pub open spec fn is_txt_tag(s: Seq<u8>) -> bool {
    s[2] == 84 && s[3] == 88 && s[4] == 84
}

/// The body `s` decodes to a message: it opens with two talker characters,
/// a three-character tag and a comma, and a supported tag's fields parse.
pub open spec fn message_parses(s: Seq<u8>) -> bool {
    &&& s.len() >= 6
    &&& s[5] == 44
    &&& (is_rmc_tag(s) ==> spec_rmc(s, 6) is Some)
    &&& (is_txt_tag(s) ==> spec_txt(s, 6) is Some)
}

/// What the message decoded from body `s` must be, and how far it read:
/// `rest` is the position of the first byte the decoder left alone.
pub open spec fn message_value_ok(s: Seq<u8>, m: Message, rest: int) -> bool {
    &&& m.talker == (s[0] as char, s[1] as char)
    &&& if is_rmc_tag(s) {
        match spec_rmc(s, 6) {
            Some(p) => m.data matches MessageType::Rmc(d) && d == p.0 && rest == p.1,
            None => false,
        }
    } else if is_txt_tag(s) {
        match spec_txt(s, 6) {
            Some(q) => {
                &&& m.data matches MessageType::Txt(td)
                &&& td.num_msg == q.0
                &&& td.num == q.1
                &&& td.id == q.2
                &&& td.text@ == q.3
                &&& rest == s.len()
            },
            None => false,
        }
    } else {
        &&& m.data == MessageType::Unsupported((s[2] as char, s[3] as char, s[4] as char))
        &&& rest == 6
    }
}

/// How far the decoder reads into body `s`, when it parses.
pub open spec fn message_rest(s: Seq<u8>) -> int {
    if is_rmc_tag(s) {
        match spec_rmc(s, 6) {
            Some(p) => p.1,
            None => 6,
        }
    } else if is_txt_tag(s) {
        s.len() as int
    } else {
        6
    }
}

/// Decodes one sentence body: talker, tag, then the tag's fields. Returns
/// the message and the position of the first byte left unread.
pub fn message(s: &[u8]) -> (r: Option<(Message, usize)>)
    ensures
        match r {
            Some(p) => message_parses(s@) && message_value_ok(s@, p.0, p.1 as int),
            None => !message_parses(s@),
        },
{
    if s.len() < 6 {
        return None;
    }
    if s[5] != 44 {
        return None;
    }
    let talker = (s[0] as char, s[1] as char);
    let t2 = s[2];
    let t3 = s[3];
    let t4 = s[4];
    if t2 == 82 && t3 == 77 && t4 == 67 {
        match rmc(s, 6) {
            Some(p) => Some((Message { talker, data: MessageType::Rmc(p.0) }, p.1)),
            None => None,
        }
    } else if t2 == 84 && t3 == 88 && t4 == 84 {
        match txt(s, 6) {
            Some(p) => Some((Message { talker, data: MessageType::Txt(p.0) }, p.1)),
            None => None,
        }
    } else {
        Some(
            (
                Message {
                    talker,
                    data: MessageType::Unsupported((t2 as char, t3 as char, t4 as char)),
                },
                6,
            ),
        )
    }
}

/// What `parse` must return on body `body` once the envelope and checksum
/// are dealt with: non-ASCII bytes are rejected, then the body must decode.
pub open spec fn body_result_ok(body: Seq<u8>, r: Result<Message, Error>) -> bool {
    if !is_ascii_seq(body) {
        r == Err::<Message, Error>(Error::Utf8Error)
    } else if !message_parses(body) {
        r == Err::<Message, Error>(Error::ParseError)
    } else {
        r matches Ok(m) && message_value_ok(body, m, message_rest(body))
    }
}

/// What `parse` must return on raw line `s`: an envelope check, then the
/// checksum when one is carried, then the body.
pub open spec fn parse_result_ok(s: Seq<u8>, r: Result<Message, Error>) -> bool {
    let n = s.len() as int;
    if n >= 6 && s[0] == 36 && s[n - 5] == 42 && is_hex_digit(s[n - 4]) && is_hex_digit(s[n - 3])
        && s[n - 2] == 13 && s[n - 1] == 10 {
        let body = s.subrange(1, n - 5);
        let expected = 16 * hex_val(s[n - 4]) + hex_val(s[n - 3]);
        let actual = xor_fold(body);
        if expected != actual {
            r == Err::<Message, Error>(
                Error::ChecksumMismatch { expected: expected as u8, actual },
            )
        } else {
            body_result_ok(body, r)
        }
    } else if n >= 3 && s[0] == 36 && s[n - 2] == 13 && s[n - 1] == 10 {
        body_result_ok(s.subrange(1, n - 2), r)
    } else {
        r == Err::<Message, Error>(Error::InvalidFrame)
    }
}

/// Checks body bytes and decodes the sentence inside the envelope.
fn parse_body(body: &[u8]) -> (r: Result<Message, Error>)
    ensures
        body_result_ok(body@, r),
{
    let mut j: usize = 0;
    while j < body.len()
        invariant
            j <= body@.len(),
            forall|k: int| 0 <= k < j ==> body@[k] < 128,
        decreases body@.len() - j,
    {
        if body[j] >= 128 {
            return Err(Error::Utf8Error);
        }
        j = j + 1;
    }
    match message(body) {
        Some(p) => Ok(p.0),
        None => Err(Error::ParseError),
    }
}

/// Parses one raw telemetry line: `$` + body + optional `*HH` + `\r\n`.
/// A carried checksum must match the XOR fold of the body; the body must
/// be plain ASCII and decode as a sentence.
pub fn parse(s: &[u8]) -> (r: Result<Message, Error>)
    ensures
        parse_result_ok(s@, r),
{
    let n = s.len();
    if n >= 6 && s[0] == 36 && s[n - 5] == 42 && is_hex_byte(s[n - 4]) && is_hex_byte(s[n - 3])
        && s[n - 2] == 13 && s[n - 1] == 10 {
        let expected = hex(s[n - 4]) * 16 + hex(s[n - 3]);
        let mut actual: u8 = 0;
        let mut j: usize = 1;
        proof {
            assert(s@.subrange(1, 1) =~= Seq::<u8>::empty());
        }
        while j < n - 5
            invariant
                n == s@.len(),
                n >= 6,
                1 <= j <= n - 5,
                actual == xor_fold(s@.subrange(1, j as int)),
            decreases n - 5 - j,
        {
            proof {
                let p = s@.subrange(1, j as int);
                let q = s@.subrange(1, j + 1);
                assert(q.drop_last() =~= p);
                assert(q.last() == s@[j as int]);
            }
            actual = actual ^ s[j];
            j = j + 1;
        }
        if expected != actual {
            return Err(Error::ChecksumMismatch { expected, actual });
        }
        let body = vstd::slice::slice_subrange(s, 1, n - 5);
        parse_body(body)
    } else if n >= 3 && s[0] == 36 && s[n - 2] == 13 && s[n - 1] == 10 {
        let body = vstd::slice::slice_subrange(s, 1, n - 2);
        parse_body(body)
    } else {
        Err(Error::InvalidFrame)
    }
}

/// ASCII hexadecimal digit test.
fn is_hex_byte(c: u8) -> (r: bool)
    ensures
        r == is_hex_digit(c),
{
    (c >= 48 && c <= 57) || (c >= 65 && c <= 70) || (c >= 97 && c <= 102)
}

/// Index of the first comma at or after `from`, if any.
pub(crate) fn find_comma(s: &[u8], from: usize) -> (r: Option<usize>)
    requires
        from <= s@.len(),
    ensures
        match r {
            Some(k) => next_comma(s@, from as int) == Some(k as int) && from <= k < s@.len(),
            None => next_comma(s@, from as int) is None,
        },
{
    let mut j: usize = from;
    while j < s.len()
        invariant
            from <= j <= s@.len(),
            next_comma(s@, from as int) == next_comma(s@, j as int),
        decreases s@.len() - j,
    {
        if s[j] == 44 {
            return Some(j);
        }
        j = j + 1;
    }
    None
}

} // verus!
