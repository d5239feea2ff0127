//! Text and clock helpers used around a worldtime lookup.
//!
//! A firmware that asks a time service for the current time needs a little
//! pure logic on both sides of the socket: turning a dotted-quad address
//! string into the four octets the network stack wants, digging the Unix
//! timestamp out of the response body, and turning that timestamp into a
//! clock reading and a weekday. The socket work stays with the caller;
//! everything here is a function from plain values to plain values.

use vstd::prelude::*;
use vstd::string::StrSliceExecFns;

verus! {

/// Whether `c` is a decimal digit.
pub open spec fn ip_digit(c: char) -> bool {
    48 <= c as u32 <= 57
}

/// The numeric value of a decimal digit character.
pub open spec fn ip_digit_value(c: char) -> int {
    c as u32 - 48
}

/// The address text with every trailing dot removed, the way the parser
/// sees it.
pub open spec fn trim_trailing_dots(s: Seq<char>) -> Seq<char>
    decreases s.len(),
{
    if s.len() > 0 && s.last() == '.' {
        trim_trailing_dots(s.drop_last())
    } else {
        s
    }
}

/// How the address parser classifies its input.
pub enum IpOutcome {
    /// Four fields were read; their octet values in order.
    Parsed(Seq<u8>),
    /// A fifth dot-separated field began.
    TooManyParts,
    /// A field grew beyond 255.
    PartTooBig,
    /// A character that is neither a digit nor a dot appeared.
    BadChar,
    /// The text ended before its fourth field.
    BadFormat,
}

/// One left-to-right scan of the trimmed address text, resumed at position
/// `i` with `part` fields closed (their values in `parts`, one octet each)
/// and `value` accumulated for the open field. A dot closes the open field,
/// a digit extends it, anything else rejects the text; fields beyond the
/// fourth and values beyond 255 reject it too, and at the end exactly the
/// fourth field must be open. An empty field counts as zero.
pub open spec fn ip_scan(s: Seq<char>, i: int, part: int, value: int, parts: Seq<u8>) -> IpOutcome
    decreases s.len() - i,
{
    if i < 0 || i >= s.len() {
        if part != 3 || value > 255 {
            IpOutcome::BadFormat
        } else {
            IpOutcome::Parsed(parts.push(value as u8))
        }
    } else if s[i] == '.' {
        if part == 4 {
            IpOutcome::TooManyParts
        } else if value > 255 {
            IpOutcome::PartTooBig
        } else {
            ip_scan(s, i + 1, part + 1, 0, parts.push(value as u8))
        }
    } else if ip_digit(s[i]) {
        if value * 10 + ip_digit_value(s[i]) > 255 {
            IpOutcome::PartTooBig
        } else {
            ip_scan(s, i + 1, part, value * 10 + ip_digit_value(s[i]), parts)
        }
    } else {
        IpOutcome::BadChar
    }
}

/// What the address parser yields for the given text.
pub open spec fn parse_ip(s: Seq<char>) -> IpOutcome {
    ip_scan(trim_trailing_dots(s), 0, 0, 0, Seq::empty())
}

/// Reads a dotted-quad network address into its four octets. Trailing dots
/// are ignored and an empty field counts as zero; beyond that the text must
/// hold exactly four dot-separated decimal fields, each at or below 255.
/// The error text names the first rule broken, scanning left to right.
pub fn ip_string_to_parts(ip: &str) -> (r: Result<[u8; 4], &'static str>)
    ensures
        (match parse_ip(ip@) {
            IpOutcome::Parsed(octets) => r matches Ok(a) && a@ == octets,
            IpOutcome::TooManyParts => r matches Err(m) && m@ == "Too many parts"@,
            IpOutcome::PartTooBig => r matches Err(m) && m@
                == "Each part must be between 0 and 255"@,
            IpOutcome::BadChar => r matches Err(m) && m@ == "Invalid character in IP address"@,
            IpOutcome::BadFormat => r matches Err(m) && m@ == "Invalid IP address format"@,
        }),
{
    let n = ip.unicode_len();
    let mut end = n;
    proof {
        assert(ip@.subrange(0, n as int) =~= ip@);
    }
    while end > 0 && ip.get_char(end - 1) == '.'
        invariant
            end <= n,
            n == ip@.len(),
            trim_trailing_dots(ip@) == trim_trailing_dots(ip@.subrange(0, end as int)),
        decreases end,
    {
        proof {
            assert(ip@.subrange(0, end as int).drop_last() =~= ip@.subrange(0, end as int - 1));
        }
        end = end - 1;
    }
    let ghost t = ip@.subrange(0, end as int);
    proof {
        assert(trim_trailing_dots(t) == t);
    }
    let mut i: usize = 0;
    let mut cur: usize = 0;
    let mut value: u16 = 0;
    let mut parts: Vec<u8> = Vec::new();
    while i < end
        invariant
            i <= end,
            end <= n,
            n == ip@.len(),
            t == ip@.subrange(0, end as int),
            t.len() == end,
            parse_ip(ip@) == ip_scan(t, i as int, cur as int, value as int, parts@),
            cur == parts@.len(),
            cur <= 4,
            value <= 255,
        decreases end - i,
    {
        let c = ip.get_char(i);
        assert(c == t[i as int]);
        if c == '.' {
            if cur == 4 {
                return Err("Too many parts");
            }
            if value > 255 {
                return Err("Each part must be between 0 and 255");
            }
            parts.push(value as u8);
            cur = cur + 1;
            value = 0;
        } else {
            let u = c as u32;
            if 48 <= u && u <= 57 {
                let d = (u - 48) as u16;
                let v2 = value * 10 + d;
                if v2 > 255 {
                    return Err("Each part must be between 0 and 255");
                }
                value = v2;
            } else {
                return Err("Invalid character in IP address");
            }
        }
        i = i + 1;
    }
    if cur != 3 || value > 255 {
        return Err("Invalid IP address format");
    }
    let p0 = parts[0];
    let p1 = parts[1];
    let p2 = parts[2];
    let out: [u8; 4] = [p0, p1, p2, value as u8];
    proof {
        assert(out@ =~= parts@.push(value as u8));
    }
    Ok(out)
}

/// The byte pattern that prefixes the timestamp value in a worldtime
/// response body: a quoted `unixtime` field name and its colon.
pub open spec fn unixtime_key() -> Seq<u8> {
    seq![34u8, 117u8, 110u8, 105u8, 120u8, 116u8, 105u8, 109u8, 101u8, 34u8, 58u8]
}

/// Whether the key starts at position `i` of `s`.
pub open spec fn key_at(s: Seq<u8>, i: int) -> bool {
    0 <= i && i + 11 <= s.len() && s.subrange(i, i + 11) == unixtime_key()
}

/// The first position at or after `i` where the key starts, or -1 when it
/// starts nowhere at or after `i`.
pub open spec fn first_key_at(s: Seq<u8>, i: int) -> int
    decreases s.len() - i,
{
    if i < 0 || i + 11 > s.len() {
        -1
    } else if key_at(s, i) {
        i
    } else {
        first_key_at(s, i + 1)
    }
}

/// Whether `b` is the code of a decimal digit.
pub open spec fn digit_byte(b: u8) -> bool {
    48 <= b <= 57
}

/// Whether a byte can still belong to the value run after the key: a
/// decimal digit or a space.
pub open spec fn value_byte(b: u8) -> bool {
    digit_byte(b) || b == 32
}

/// The position ending the run of digit-or-space bytes that starts at `i`:
/// the first position at or after `i` holding any other byte, or the
/// length of `s` when the run reaches its end.
pub open spec fn run_end(s: Seq<u8>, i: int) -> int
    decreases s.len() - i,
{
    if i < 0 || i >= s.len() {
        s.len() as int
    } else if value_byte(s[i]) {
        run_end(s, i + 1)
    } else {
        i
    }
}

/// The number the decimal digits of `s` spell.
pub open spec fn digits_value(s: Seq<u8>) -> int
    decreases s.len(),
{
    if s.len() == 0 {
        0
    } else {
        digits_value(s.drop_last()) * 10 + (s.last() - 48)
    }
}

/// Whether every byte of `s` is a digit.
pub open spec fn all_digits(s: Seq<u8>) -> bool {
    forall|i: int| 0 <= i < s.len() ==> digit_byte(s[i])
}

/// What parsing the value run as a decimal number yields: the run must be
/// nonempty, all digits — a space inside it defeats the parse — and fit
/// in 64 bits.
pub open spec fn parse_u64(s: Seq<u8>) -> Option<u64> {
    if s.len() > 0 && all_digits(s) && digits_value(s) <= u64::MAX {
        Some(digits_value(s) as u64)
    } else {
        None
    }
}

/// What the timestamp extractor yields on a response that decoded as
/// text: the digit-or-space run after the first `"unixtime":` key,
/// parsed as a decimal number.
pub open spec fn unixtime_of(s: Seq<u8>) -> Option<u64> {
    if first_key_at(s, 0) == -1 {
        None
    } else {
        parse_u64(s.subrange(first_key_at(s, 0) + 11, run_end(s, first_key_at(s, 0) + 11)))
    }
}

/// What the timestamp extractor yields on any response body: a body that
/// does not decode as text is never searched.
pub open spec fn found_unixtime(s: Seq<u8>) -> Option<u64> {
    if vstd::utf8::valid_utf8(s) {
        unixtime_of(s)
    } else {
        None
    }
}

/// `first_key_at` names exactly the first position where the key starts.
proof fn lemma_first_key_found(s: Seq<u8>, lo: int, i: int)
    requires
        0 <= lo <= i,
        key_at(s, i),
        forall|k: int| lo <= k < i ==> !key_at(s, k),
    ensures
        first_key_at(s, lo) == i,
    decreases i - lo,
{
    if lo < i {
        lemma_first_key_found(s, lo + 1, i);
    }
}

/// When the key starts nowhere at or after `lo`, `first_key_at` reports
/// so.
proof fn lemma_first_key_none(s: Seq<u8>, lo: int)
    requires
        0 <= lo,
        forall|k: int| lo <= k ==> !key_at(s, k),
    ensures
        first_key_at(s, lo) == -1,
    decreases s.len() + 12 - lo,
{
    if lo + 11 <= s.len() {
        lemma_first_key_none(s, lo + 1);
    }
}

/// `run_end` names exactly the position where the digit-or-space run
/// starting at `lo` stops.
proof fn lemma_run_end_found(s: Seq<u8>, lo: int, j: int)
    requires
        0 <= lo <= j <= s.len(),
        forall|k: int| lo <= k < j ==> value_byte(s[k]),
        j == s.len() || !value_byte(s[j]),
    ensures
        run_end(s, lo) == j,
    decreases j - lo,
{
    if lo < j {
        lemma_run_end_found(s, lo + 1, j);
    }
}

/// A digit string spells a number that is not negative.
proof fn lemma_digits_value_nonneg(s: Seq<u8>)
    requires
        all_digits(s),
    ensures
        digits_value(s) >= 0,
    decreases s.len(),
{
    if s.len() > 0 {
        assert(forall|i: int| 0 <= i < s.drop_last().len() ==> s.drop_last()[i] == s[i]);
        lemma_digits_value_nonneg(s.drop_last());
    }
}

/// Extending a digit string to the right cannot shrink its value.
proof fn lemma_digits_value_prefix(s: Seq<u8>, i: int)
    requires
        all_digits(s),
        0 <= i <= s.len(),
    ensures
        digits_value(s.subrange(0, i)) <= digits_value(s),
    decreases s.len() - i,
{
    if i < s.len() {
        assert(s.subrange(0, i + 1).drop_last() =~= s.subrange(0, i));
        assert(s.subrange(0, i + 1).last() == s[i]);
        assert(forall|k: int| 0 <= k < i ==> s.subrange(0, i)[k] == s[k]);
        lemma_digits_value_nonneg(s.subrange(0, i));
        lemma_digits_value_prefix(s, i + 1);
    } else {
        assert(s.subrange(0, i) =~= s);
    }
}

/// Relies on core::str::from_utf8: it accepts exactly the byte sequences
/// that satisfy vstd's `valid_utf8`.
#[verifier::external_body]
fn utf8_ok(bytes: &[u8]) -> (r: bool)
    ensures
        r == vstd::utf8::valid_utf8(bytes@),
{
    core::str::from_utf8(bytes).is_ok()
}

/// Whether a byte can still belong to the value run after the key.
fn is_value_byte(b: u8) -> (r: bool)
    ensures
        r == value_byte(b),
{
    (48 <= b && b <= 57) || b == 32
}

/// Pulls the Unix timestamp out of a worldtime response body: the decimal
/// number following the first `"unixtime":` key. The body must be valid
/// text. The digits may run to the end of the body; a space between the
/// colon and the digits, or a number too big for 64 bits, yields nothing,
/// exactly as parsing the raw run would.
pub fn find_unixtime(response: &[u8]) -> (r: Option<u64>)
    ensures
        r == found_unixtime(response@),
{
    if !utf8_ok(response) {
        return None;
    }
    let n = response.len();
    if n < 11 {
        proof {
            lemma_first_key_none(response@, 0);
        }
        return None;
    }
    let key: [u8; 11] = [34u8, 117u8, 110u8, 105u8, 120u8, 116u8, 105u8, 109u8, 101u8, 34u8, 58u8];
    proof {
        assert(key@ =~= unixtime_key());
    }
    let mut i: usize = 0;
    while i <= n - 11
        invariant
            11 <= n,
            n == response@.len(),
            i <= n - 10,
            vstd::utf8::valid_utf8(response@),
            key@ == unixtime_key(),
            forall|k: int| 0 <= k < i ==> !key_at(response@, k),
        decreases n - i,
    {
        let mut j: usize = 0;
        let mut matched = true;
        while matched && j < 11
            invariant
                j <= 11,
                i + 11 <= n,
                n == response@.len(),
                key@ == unixtime_key(),
                matched ==> forall|m: int| 0 <= m < j ==> response@[i + m] == unixtime_key()[m],
                !matched ==> !key_at(response@, i as int),
            decreases 11 - j + (if matched { 1int } else { 0int }),
        {
            if response[i + j] == key[j] {
                j = j + 1;
            } else {
                proof {
                    if key_at(response@, i as int) {
                        assert(response@.subrange(i as int, i as int + 11)[j as int]
                            == response@[i + j]);
                    }
                }
                matched = false;
            }
        }
        if matched {
            proof {
                assert(response@.subrange(i as int, i as int + 11) =~= unixtime_key());
                lemma_first_key_found(response@, 0, i as int);
            }
            let start = i + 11;
            let mut e = start;
            while e < n && is_value_byte(response[e])
                invariant
                    start <= e <= n,
                    n == response@.len(),
                    forall|k: int| start <= k < e ==> value_byte(response@[k]),
                decreases n - e,
            {
                e = e + 1;
            }
            proof {
                lemma_run_end_found(response@, start as int, e as int);
            }
            let ghost run = response@.subrange(start as int, e as int);
            if start == e {
                return None;
            }
            let mut v: u64 = 0;
            let mut k = start;
            while k < e
                invariant
                    start <= k <= e <= n,
                    n == response@.len(),
                    vstd::utf8::valid_utf8(response@),
                    first_key_at(response@, 0) == i as int,
                    start == i + 11,
                    run_end(response@, start as int) == e as int,
                    run == response@.subrange(start as int, e as int),
                    run.len() == e - start,
                    0 < run.len(),
                    all_digits(run.subrange(0, k - start)),
                    v == digits_value(run.subrange(0, k - start)),
                decreases e - k,
            {
                let b = response[k];
                assert(run[k - start] == response@[k as int]);
                if b < 48 || 57 < b {
                    assert(!all_digits(run));
                    return None;
                }
                let d = (b - 48) as u64;
                proof {
                    assert(run.subrange(0, k - start + 1).drop_last() =~= run.subrange(
                        0,
                        k - start,
                    ));
                    assert(run.subrange(0, k - start + 1).last() == run[k - start]);
                    assert(forall|m: int|
                        0 <= m < k - start + 1 ==> run.subrange(0, k - start + 1)[m] == run[m]);
                }
                let v10 = match v.checked_mul(10) {
                    Some(x) => x,
                    None => {
                        proof {
                            if all_digits(run) {
                                lemma_digits_value_prefix(run, k - start + 1);
                            }
                        }
                        return None;
                    },
                };
                let v2 = match v10.checked_add(d) {
                    Some(x) => x,
                    None => {
                        proof {
                            if all_digits(run) {
                                lemma_digits_value_prefix(run, k - start + 1);
                            }
                        }
                        return None;
                    },
                };
                v = v2;
                k = k + 1;
            }
            proof {
                assert(run.subrange(0, e - start) =~= run);
            }
            return Some(v);
        }
        i = i + 1;
    }
    proof {
        assert forall|k: int| 0 <= k implies !key_at(response@, k) by {
            if k >= i {
                assert(k + 11 > n);
            }
        }
        lemma_first_key_none(response@, 0);
    }
    None
}

/// The compute half of asking the worldtime service for a timestamp: digs
/// the Unix timestamp out of the response the caller read from its socket
/// and applies the fixed one-hour zone offset the lookup uses. A body
/// without a readable timestamp reports failure, as does the one absurd
/// body whose timestamp sits too close to the 64-bit limit for the offset.
pub fn get_timestamp(response: &[u8]) -> (r: Result<u64, ()>)
    ensures
        (match found_unixtime(response@) {
            Some(t) => if t + 3600 <= u64::MAX {
                r == Ok::<u64, ()>((t + 3600) as u64)
            } else {
                r == Err::<u64, ()>(())
            },
            None => r == Err::<u64, ()>(()),
        }),
{
    match find_unixtime(response) {
        Some(t) => match t.checked_add(3600) {
            Some(shifted) => Ok(shifted),
            None => Err(()),
        },
        None => Err(()),
    }
}

/// The compute half of asking the worldtime service for the time of day:
/// the shifted timestamp of `get_timestamp`, read as hours, minutes and
/// seconds on a 24-hour clock.
pub fn get_time(response: &[u8]) -> (r: Result<(u8, u8, u8), ()>)
    ensures
        (match found_unixtime(response@) {
            Some(t) => if t + 3600 <= u64::MAX {
                r == Ok::<(u8, u8, u8), ()>(
                    (
                        ((((t + 3600) as u64) % 86400) / 3600) as u8,
                        ((((t + 3600) as u64) % 3600) / 60) as u8,
                        (((t + 3600) as u64) % 60) as u8,
                    ),
                )
            } else {
                r == Err::<(u8, u8, u8), ()>(())
            },
            None => r == Err::<(u8, u8, u8), ()>(()),
        }),
{
    match get_timestamp(response) {
        Ok(t) => Ok(timestamp_to_hms(t)),
        Err(e) => Err(e),
    }
}

/// The English name of weekday number `day`, with 0 for Sunday through 6
/// for Saturday.
pub open spec fn weekday_name(day: int) -> Seq<char> {
    if day == 0 {
        "Sunday"@
    } else if day == 1 {
        "Monday"@
    } else if day == 2 {
        "Tuesday"@
    } else if day == 3 {
        "Wednesday"@
    } else if day == 4 {
        "Thursday"@
    } else if day == 5 {
        "Friday"@
    } else if day == 6 {
        "Saturday"@
    } else {
        "Error"@
    }
}

/// Splits a Unix timestamp into the hours, minutes and seconds a 24-hour
/// clock would show at that moment.
pub fn timestamp_to_hms(timestamp: u64) -> (r: (u8, u8, u8))
    ensures
        r.0 == (timestamp % 86400) / 3600,
        r.1 == (timestamp % 3600) / 60,
        r.2 == timestamp % 60,
{
    let hours = (timestamp % 86400) / 3600;
    let minutes = (timestamp % 3600) / 60;
    let seconds = timestamp % 60;
    assert(hours < 24 && minutes < 60 && seconds < 60);
    (hours as u8, minutes as u8, seconds as u8)
}

/// The weekday a Unix timestamp falls on, as its English name. Day zero of
/// the epoch was a Thursday, so the day count is shifted by four before
/// taking it modulo seven; the result of that is always below seven, which
/// keeps the fallback name out of reach.
pub fn weekday_from_timestamp(timestamp: &u64) -> (r: &'static str)
    ensures
        r@ == weekday_name(((*timestamp / 86400 + 4) % 7) as int),
{
    let days_since_1970 = *timestamp / 86400;
    let day_of_week = (days_since_1970 + 4) % 7;
    match day_of_week {
        0 => "Sunday",
        1 => "Monday",
        2 => "Tuesday",
        3 => "Wednesday",
        4 => "Thursday",
        5 => "Friday",
        6 => "Saturday",
        _ => "Error",
    }
}

} // verus!
