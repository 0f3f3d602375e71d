//! Startup uptime gate: parsing the system uptime from the well-known OS
//! path's content, and how long the daemon must still wait before it may
//! start acting.
//!
//! The uptime is carried in milliseconds. Readings are capped at
//! [`UPTIME_MS_CAP`] (several centuries), which leaves every startup
//! decision untouched and keeps every computation in range.

use vstd::prelude::*;

verus! {

/// Minimum system uptime, in milliseconds, before the daemon may start
/// touching hardware.
pub const MIN_SYSTEM_UPTIME_MS: u64 = 15000;

/// Upper cap on a parsed uptime, in milliseconds.
pub const UPTIME_MS_CAP: u64 = 10_000_000_000_000;

/// ASCII whitespace, as it occurs around the uptime value.
pub open spec fn is_ascii_ws(b: u8) -> bool {
    b == 32 || b == 9 || b == 10 || b == 13
}

/// An ASCII decimal digit.
pub open spec fn is_ascii_digit(b: u8) -> bool {
    48 <= b <= 57
}

/// The numeric value of an ASCII digit.
pub open spec fn digit_val(b: u8) -> int {
    b - 48
}

/// The value of a string of ASCII digits, most significant first.
pub open spec fn dec_value(ds: Seq<u8>) -> int
    decreases ds.len(),
{
    if ds.len() == 0 {
        0
    } else {
        dec_value(ds.drop_last()) * 10 + digit_val(ds.last())
    }
}

/// How many leading bytes of `s` are whitespace.
pub open spec fn ws_prefix_len(s: Seq<u8>) -> int
    decreases s.len(),
{
    if s.len() == 0 || !is_ascii_ws(s[0]) {
        0
    } else {
        1 + ws_prefix_len(s.skip(1))
    }
}

/// How many leading bytes of `s` are not whitespace.
pub open spec fn nonws_prefix_len(s: Seq<u8>) -> int
    decreases s.len(),
{
    if s.len() == 0 || is_ascii_ws(s[0]) {
        0
    } else {
        1 + nonws_prefix_len(s.skip(1))
    }
}

/// The index of the first `.` in `t`, or its length when there is none.
pub open spec fn dot_pos(t: Seq<u8>) -> int
    decreases t.len(),
{
    if t.len() == 0 || t[0] == 46 {
        0
    } else {
        1 + dot_pos(t.skip(1))
    }
}

/// The token is a decimal number: digits, optionally followed by a dot and
/// more digits, with at least one digit somewhere.
pub open spec fn valid_uptime_token(t: Seq<u8>) -> bool {
    let d = dot_pos(t);
    &&& t.len() > 0
    &&& (d > 0 || t.len() > 1)
    &&& forall|i: int| 0 <= i < d ==> is_ascii_digit(#[trigger] t[i])
    &&& forall|i: int| d < i < t.len() ==> is_ascii_digit(#[trigger] t[i])
}

/// The fractional digits of the token, scaled to milliseconds: the first
/// three digits after the dot, padded with zeros on the right.
pub open spec fn frac_ms(f: Seq<u8>) -> int {
    if f.len() == 0 {
        0
    } else if f.len() == 1 {
        dec_value(f) * 100
    } else if f.len() == 2 {
        dec_value(f) * 10
    } else {
        dec_value(f.take(3))
    }
}

/// The token's value in milliseconds, truncated beyond millisecond
/// precision.
pub open spec fn token_value_ms(t: Seq<u8>) -> int {
    let d = dot_pos(t);
    let frac = if d < t.len() {
        t.subrange(d + 1, t.len() as int)
    } else {
        Seq::<u8>::empty()
    };
    dec_value(t.take(d)) * 1000 + frac_ms(frac)
}

/// What parsing an uptime file's content yields: the first
/// whitespace-delimited token, read as a decimal number of seconds, in
/// milliseconds and capped at [`UPTIME_MS_CAP`]; `None` when the token is
/// not such a number.
pub open spec fn spec_parse_uptime_ms(s: Seq<u8>) -> Option<u64> {
    let start = ws_prefix_len(s);
    let rest = s.skip(start);
    let t = rest.take(nonws_prefix_len(rest));
    if valid_uptime_token(t) {
        if token_value_ms(t) > UPTIME_MS_CAP {
            Some(UPTIME_MS_CAP)
        } else {
            Some(token_value_ms(t) as u64)
        }
    } else {
        None
    }
}

/// An index with only whitespace before it and a non-whitespace byte (or
/// the end) at it pins `ws_prefix_len` down.
proof fn lemma_ws_prefix_characterizes(s: Seq<u8>, i: int)
    requires
        0 <= i <= s.len(),
        forall|j: int| 0 <= j < i ==> is_ascii_ws(#[trigger] s[j]),
        i < s.len() ==> !is_ascii_ws(s[i]),
    ensures
        ws_prefix_len(s) == i,
    decreases s.len(),
{
    if s.len() > 0 && i > 0 {
        let tail = s.skip(1);
        assert(forall|j: int| 0 <= j < tail.len() ==> tail[j] == s[j + 1]);
        lemma_ws_prefix_characterizes(tail, i - 1);
    }
}

/// The matching characterization for `nonws_prefix_len`.
proof fn lemma_nonws_prefix_characterizes(s: Seq<u8>, i: int)
    requires
        0 <= i <= s.len(),
        forall|j: int| 0 <= j < i ==> !is_ascii_ws(#[trigger] s[j]),
        i < s.len() ==> is_ascii_ws(s[i]),
    ensures
        nonws_prefix_len(s) == i,
    decreases s.len(),
{
    if s.len() > 0 && i > 0 {
        let tail = s.skip(1);
        assert(forall|j: int| 0 <= j < tail.len() ==> tail[j] == s[j + 1]);
        lemma_nonws_prefix_characterizes(tail, i - 1);
    }
}

/// An index with no dot before it, and a dot (or the end) at it, pins
/// `dot_pos` down.
proof fn lemma_dot_pos_characterizes(t: Seq<u8>, i: int)
    requires
        0 <= i <= t.len(),
        forall|j: int| 0 <= j < i ==> (#[trigger] t[j]) != 46,
        i < t.len() ==> t[i] == 46,
    ensures
        dot_pos(t) == i,
    decreases t.len(),
{
    if t.len() > 0 && i > 0 {
        let tail = t.skip(1);
        assert(forall|j: int| 0 <= j < tail.len() ==> tail[j] == t[j + 1]);
        lemma_dot_pos_characterizes(tail, i - 1);
    }
}

/// `dot_pos` itself splits the token: no dot before it, a dot at it when
/// it is not the length.
proof fn lemma_dot_pos_inverse(t: Seq<u8>)
    ensures
        0 <= dot_pos(t) <= t.len(),
        forall|j: int| 0 <= j < dot_pos(t) ==> (#[trigger] t[j]) != 46,
        dot_pos(t) < t.len() ==> t[dot_pos(t)] == 46,
    decreases t.len(),
{
    if t.len() > 0 && t[0] != 46 {
        let tail = t.skip(1);
        assert(forall|j: int| 0 <= j < tail.len() ==> tail[j] == t[j + 1]);
        lemma_dot_pos_inverse(tail);
        assert forall|j: int| 0 <= j < dot_pos(t) implies (#[trigger] t[j]) != 46 by {
            if j > 0 {
                assert(tail[j - 1] != 46);
            }
        }
    }
}

/// Parses a system uptime reading. The input is the raw content of the
/// uptime file; the result is the first whitespace-delimited token read as
/// a decimal number of seconds, in milliseconds (truncated beyond
/// millisecond precision, capped at [`UPTIME_MS_CAP`]), or `None` when the
/// content is malformed.
#[verifier::loop_isolation(false)]
#[verifier::rlimit(60)]
pub fn parse_uptime_ms(content: &[u8]) -> (r: Option<u64>)
    ensures
        r == spec_parse_uptime_ms(content@),
{
    let s = content;
    let n = s.len();

    // Skip leading whitespace.
    let mut start: usize = 0;
    while start < n && (s[start] == 32 || s[start] == 9 || s[start] == 10 || s[start] == 13)
        invariant
            0 <= start <= n,
            n == s@.len(),
            forall|j: int| 0 <= j < start ==> is_ascii_ws(#[trigger] s@[j]),
        decreases n - start,
    {
        start += 1;
    }
    proof {
        lemma_ws_prefix_characterizes(s@, start as int);
    }

    // Find the end of the token.
    let mut end: usize = start;
    while end < n && !(s[end] == 32 || s[end] == 9 || s[end] == 10 || s[end] == 13)
        invariant
            start <= end <= n,
            n == s@.len(),
            forall|j: int| start <= j < end ==> !is_ascii_ws(#[trigger] s@[j]),
        decreases n - end,
    {
        end += 1;
    }
    let ghost rest = s@.skip(start as int);
    let ghost t = rest.take(nonws_prefix_len(rest));
    proof {
        assert(forall|j: int| 0 <= j < rest.len() ==> rest[j] == s@[j + start]);
        lemma_nonws_prefix_characterizes(rest, end - start);
        assert(t =~= s@.subrange(start as int, end as int));
    }

    if end == start {
        // Empty token: the content holds no value at all.
        proof {
            assert(!valid_uptime_token(t));
        }
        return None;
    }

    // Scan the integer part (the digits before the dot), accumulating its
    // value and saturating above the cap.
    let mut k: usize = start;
    let mut int_ms: u64 = 0;
    let mut int_over: bool = false;
    while k < end && s[k] != 46
        invariant
            start <= k <= end <= n,
            n == s@.len(),
            t == s@.subrange(start as int, end as int),
            t.len() == end - start,
            forall|j: int| 0 <= j < t.len() ==> t[j] == s@[j + start],
            forall|j: int| start <= j < k ==> (#[trigger] s@[j]) != 46,
            forall|j: int| start <= j < k ==> is_ascii_digit(#[trigger] s@[j]),
            !int_over ==> int_ms == dec_value(t.take(k - start)) && int_ms <= UPTIME_MS_CAP,
            int_over ==> dec_value(t.take(k - start)) > UPTIME_MS_CAP,
        decreases end - k,
    {
        let b = s[k];
        if !(48 <= b && b <= 57) {
            // A stray byte that is neither digit nor dot: malformed.
            proof {
                lemma_dot_pos_inverse(t);
                assert(t[k - start] == s@[k as int] && s@[k as int] != 46);
                // The first dot cannot sit at or before this byte, so the
                // byte belongs to the integer part and is no digit there.
                assert forall|j: int| 0 <= j < k - start implies (#[trigger] t[j]) != 46 by {
                    assert(t[j] == s@[j + start]);
                }
                assert(dot_pos(t) > k - start);
                assert(!is_ascii_digit(t[k - start]));
                assert(!valid_uptime_token(t));
            }
            return None;
        }
        proof {
            let prefix = t.take(k - start);
            let next = t.take(k - start + 1);
            assert(next.drop_last() =~= prefix);
            assert(next.last() == s@[k as int]);
            assert(dec_value(next) == dec_value(prefix) * 10 + digit_val(s@[k as int]));
            assert(digit_val(s@[k as int]) >= 0);
        }
        if !int_over {
            let d64: u64 = (b - 48) as u64;
            let grown: u64 = int_ms * 10 + d64;
            if grown > UPTIME_MS_CAP {
                int_over = true;
            } else {
                int_ms = grown;
            }
        }
        k += 1;
    }

    // The dot, if any, then the fractional digits; the first three carry
    // millisecond weight.
    let ghost d = dot_pos(t);
    proof {
        assert forall|j: int| 0 <= j < k - start implies (#[trigger] t[j]) != 46 by {
            assert(t[j] == s@[j + start]);
        }
        if k < end {
            assert(t[k - start] == s@[k as int]);
        }
        lemma_dot_pos_characterizes(t, k - start);
        assert(d == k - start);
        assert forall|j: int| 0 <= j < d implies is_ascii_digit(#[trigger] t[j]) by {
            assert(t[j] == s@[j + start]);
        }
    }
    let int_digits: usize = k - start;
    if int_digits == 0 && end - start == 1 {
        // A lone dot has no digits at all.
        proof {
            assert(!valid_uptime_token(t));
        }
        return None;
    }

    let mut frac: u64 = 0;
    let mut frac_seen: usize = 0;
    if k < end {
        // Skip the dot itself.
        let mut m: usize = k + 1;
        while m < end
            invariant
                k + 1 <= m <= end <= n,
                n == s@.len(),
                t == s@.subrange(start as int, end as int),
                forall|j: int| 0 <= j < t.len() ==> t[j] == s@[j + start],
                forall|j: int| k < j < m ==> is_ascii_digit(#[trigger] s@[j]),
                frac_seen == if m - (k + 1) < 3 {
                    (m - (k + 1)) as int
                } else {
                    3int
                },
                frac == dec_value(t.subrange(k - start + 1, end - start).take(frac_seen as int)),
                frac_seen == 0 ==> frac == 0,
                frac_seen == 1 ==> frac <= 9,
                frac_seen == 2 ==> frac <= 99,
                frac_seen == 3 ==> frac <= 999,
            decreases end - m,
        {
            let b = s[m];
            if !(48 <= b && b <= 57) {
                proof {
                    assert(!is_ascii_digit(t[m - start]));
                    assert(d < m - start < t.len());
                    assert(!valid_uptime_token(t));
                }
                return None;
            }
            proof {
                let f = t.subrange(k - start + 1, end - start);
                assert(forall|j: int| 0 <= j < f.len() ==> f[j] == s@[j + k + 1]);
                if frac_seen < 3 {
                    let prefix = f.take(frac_seen as int);
                    let next = f.take(frac_seen as int + 1);
                    assert(next.drop_last() =~= prefix);
                    assert(next.last() == s@[m as int]);
                    assert(dec_value(next) == dec_value(prefix) * 10 + digit_val(s@[m as int]));
                }
            }
            if frac_seen < 3 {
                frac = frac * 10 + ((b - 48) as u64);
                frac_seen += 1;
            }
            m += 1;
        }
    }

    // Scale a short fraction up to millisecond weight.
    let frac_ms_val: u64 = if frac_seen == 0 {
        0
    } else if frac_seen == 1 {
        frac * 100
    } else if frac_seen == 2 {
        frac * 10
    } else {
        frac
    };
    proof {
        let f = if d < t.len() {
            t.subrange(d + 1, t.len() as int)
        } else {
            Seq::<u8>::empty()
        };
        if d < t.len() {
            assert(f == t.subrange(k - start + 1, end - start));
            if f.len() >= 3 {
                assert(f.take(frac_seen as int) =~= f.take(3));
            } else {
                assert(f.take(frac_seen as int) =~= f);
            }
        } else {
            assert(frac_seen == 0);
            assert(frac_ms_val == frac_ms(f));
        }
        assert(frac_ms_val == frac_ms(f));
        assert forall|i: int| d < i < t.len() implies is_ascii_digit(#[trigger] t[i]) by {
            assert(t[i] == s@[i + start]);
        }
        assert(valid_uptime_token(t));
        assert(t.take(d) =~= t.take(k - start));
        assert(token_value_ms(t) == dec_value(t.take(d)) * 1000 + frac_ms(f));
    }

    if int_over {
        proof {
            assert(dec_value(t.take(d)) > UPTIME_MS_CAP);
            assert(token_value_ms(t) > UPTIME_MS_CAP);
        }
        return Some(UPTIME_MS_CAP);
    }
    let total: u64 = int_ms * 1000 + frac_ms_val;
    if total > UPTIME_MS_CAP {
        Some(UPTIME_MS_CAP)
    } else {
        Some(total)
    }
}

/// How many milliseconds the daemon must still sleep before it may proceed.
///
/// `uptime_ms` is the current system uptime in milliseconds, or `None` when
/// the uptime could not be read; this check is advisory, so an unreadable
/// uptime means no delay (fail-open).
pub fn startup_delay_ms(uptime_ms: Option<u64>) -> (delay: u64)
    ensures
        match uptime_ms {
            Some(up) => delay == if up < MIN_SYSTEM_UPTIME_MS {
                (MIN_SYSTEM_UPTIME_MS - up) as int
            } else {
                0int
            },
            None => delay == 0,
        },
{
    match uptime_ms {
        Some(up) => {
            if up < MIN_SYSTEM_UPTIME_MS {
                MIN_SYSTEM_UPTIME_MS - up
            } else {
                0
            }
        },
        None => 0,
    }
}

} // verus!
