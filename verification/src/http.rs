//! Decisions the HTTP clients make about responses: which failures are
//! worth retrying, and how long a rate-limited request waits.
use vstd::prelude::*;
use crate::text::{chars_of, decimal, digit_char};

verus! {

/// How long a rate-limited request waits when the response does not say.
pub const RATE_LIMIT_DEFAULT_WAIT_SECS: u64 = 60;

/// The status code that reports a rate limit (`429 Too Many Requests`).
pub const TOO_MANY_REQUESTS: u16 = 429;

/// Whether every character is an ASCII digit.
pub open spec fn all_digits(s: Seq<char>) -> bool {
    forall|i: int| 0 <= i < s.len() ==> '0' <= #[trigger] s[i] <= '9'
}

/// The number the ASCII digits `s` write in base ten.
pub open spec fn digits_value(s: Seq<char>) -> nat
    decreases s.len(),
{
    if s.len() == 0 {
        0
    } else {
        digits_value(s.drop_last()) * 10 + (s.last() as nat - '0' as nat) as nat
    }
}

/// What `str::parse::<u64>` gives: an optional `+` followed by at least one
/// ASCII digit, when the number fits in 64 bits.
pub open spec fn parsed_u64(s: Seq<char>) -> Option<u64> {
    let d = if s.len() > 0 && s[0] == '+' {
        s.drop_first()
    } else {
        s
    };
    if d.len() > 0 && all_digits(d) && digits_value(d) <= u64::MAX {
        Some(digits_value(d) as u64)
    } else {
        None
    }
}

/// `text` as an unsigned 64-bit number, as `str::parse::<u64>` reads it.
pub fn parse_u64(text: &str) -> (r: Option<u64>)
    ensures
        r == parsed_u64(text@),
{
    let chars = chars_of(text);
    let ghost s = text@;
    let n = chars.len();
    let start: usize = if n > 0 && chars[0] == '+' {
        1
    } else {
        0
    };
    let ghost d = if s.len() > 0 && s[0] == '+' {
        s.drop_first()
    } else {
        s
    };
    assert(d =~= s.subrange(start as int, n as int));
    if start == n {
        return None;
    }
    let mut value: u64 = 0;
    let mut i: usize = start;
    while i < n
        invariant
            start <= i <= n == s.len(),
            chars@ == s,
            s == text@,
            d == s.subrange(start as int, n as int),
            d == (if s.len() > 0 && s[0] == '+' {
                s.drop_first()
            } else {
                s
            }),
            all_digits(s.subrange(start as int, i as int)),
            value == digits_value(s.subrange(start as int, i as int)),
        decreases n - i,
    {
        let c = chars[i];
        assert(s.subrange(start as int, i + 1).drop_last() =~= s.subrange(start as int, i as int));
        if c < '0' || c > '9' {
            assert(d[i - start] == c);
            assert(!all_digits(d));
            return None;
        }
        let digit = (c as u32 - '0' as u32) as u64;
        assert(digits_value(s.subrange(start as int, i + 1)) == value * 10 + digit);
        if value > (u64::MAX - digit) / 10 {
            proof {
                lemma_digits_value_grows(d, (i - start + 1) as int);
                assert(d.subrange(0, i - start + 1) =~= s.subrange(start as int, i + 1));
            }
            assert(digits_value(s.subrange(start as int, i + 1)) > u64::MAX) by (nonlinear_arith)
                requires
                    digits_value(s.subrange(start as int, i + 1)) == value * 10 + digit,
                    value > (u64::MAX - digit) / 10,
                    digit <= 9,
            ;
            assert(digits_value(d) > u64::MAX);
            return None;
        }
        assert(value * 10 + digit <= u64::MAX) by (nonlinear_arith)
            requires
                value <= (u64::MAX - digit) / 10,
                digit <= 9,
        ;
        value = value * 10 + digit;
        i = i + 1;
    }
    Some(value)
}

proof fn lemma_decimal_digits(n: nat)
    ensures
        decimal(n).len() > 0,
        all_digits(decimal(n)),
        digits_value(decimal(n)) == n,
    decreases n,
{
    let c = digit_char((n % 10) as int);
    assert(c as nat - '0' as nat == n % 10);
    if n < 10 {
        assert(decimal(n) == seq![c]);
        assert(seq![c].drop_last() =~= Seq::<char>::empty());
        assert(seq![c].last() == c);
        assert(digits_value(seq![c]) == digits_value(Seq::<char>::empty()) * 10 + (c as nat - '0' as nat) as nat);
    } else {
        lemma_decimal_digits(n / 10);
        let s = decimal(n / 10);
        assert(decimal(n) == s.push(c));
        assert(s.push(c).drop_last() =~= s);
        assert(s.push(c).last() == c);
        assert((n / 10) * 10 + n % 10 == n) by (nonlinear_arith);
        assert(digits_value(s.push(c)) == digits_value(s) * 10 + (c as nat - '0' as nat) as nat);
        assert(all_digits(s.push(c))) by {
            assert forall|i: int| 0 <= i < s.push(c).len() implies '0' <= #[trigger] s.push(c)[i]
                <= '9' by {
                if i < s.len() {
                    assert(s.push(c)[i] == s[i]);
                }
            }
        }
    }
}

/// Reading back the decimal digits of a number gives the number: what
/// `u64_to_decimal` writes, `parse_u64` reads as the same value.
pub proof fn parse_reads_back_decimal(n: u64)
    ensures
        parsed_u64(decimal(n as nat)) == Some(n),
{
    lemma_decimal_digits(n as nat);
    let s = decimal(n as nat);
    assert('0' <= s[0] <= '9');
}

/// The value of a longer run of digits is at least that of its prefix.
proof fn lemma_digits_value_grows(d: Seq<char>, k: int)
    requires
        0 <= k <= d.len(),
    ensures
        digits_value(d.subrange(0, k)) <= digits_value(d),
    decreases d.len() - k,
{
    if k < d.len() {
        lemma_digits_value_grows(d, k + 1);
        assert(d.subrange(0, k + 1).drop_last() =~= d.subrange(0, k));
    } else {
        assert(d.subrange(0, k) =~= d);
    }
}

/// The seconds a `Retry-After` header asks to wait, or the default wait when
/// the header is missing or holds no number of seconds.
pub fn parse_retry_after_seconds(header: Option<&str>) -> (secs: u64)
    ensures
        secs == match header {
            Some(v) => match parsed_u64(v@) {
                Some(n) => n,
                None => RATE_LIMIT_DEFAULT_WAIT_SECS,
            },
            None => RATE_LIMIT_DEFAULT_WAIT_SECS,
        },
{
    match header {
        Some(v) => match parse_u64(v) {
            Some(n) => n,
            None => RATE_LIMIT_DEFAULT_WAIT_SECS,
        },
        None => RATE_LIMIT_DEFAULT_WAIT_SECS,
    }
}

/// How a response is handled: passed on, retried, or failed for good.
#[derive(Clone, Copy, Debug, PartialEq, Eq)]
pub enum ResponseOutcome {
    /// The request went through.
    Success,
    /// A server error (5xx), worth sending again.
    Retryable,
    /// A client error (4xx); sending it again would fail the same way.
    Fatal,
}

/// Server errors are retried, client errors fail, everything else passes.
pub fn classify_status(status: u16) -> (r: ResponseOutcome)
    ensures
        r == (if 500 <= status <= 599 {
            ResponseOutcome::Retryable
        } else if 400 <= status <= 499 {
            ResponseOutcome::Fatal
        } else {
            ResponseOutcome::Success
        }),
{
    if 500 <= status && status <= 599 {
        ResponseOutcome::Retryable
    } else if 400 <= status && status <= 499 {
        ResponseOutcome::Fatal
    } else {
        ResponseOutcome::Success
    }
}

/// What to do with a response while rate limits are retried.
#[derive(Clone, Copy, Debug, PartialEq, Eq)]
pub enum RateLimitStep {
    /// Not rate limited: hand the response on.
    Deliver,
    /// Rate limited: wait this many seconds, then send again.
    Wait(u64),
    /// Rate limited on the last attempt: fail, reporting the wait asked for.
    GiveUp(u64),
}

/// The step after attempt `attempt` of `total_attempts` got `status`, with
/// the response's `Retry-After` header.
pub fn rate_limit_step(status: u16, attempt: u32, total_attempts: u32, retry_after: Option<&str>) -> (r:
    RateLimitStep)
    ensures
        status != TOO_MANY_REQUESTS ==> r == RateLimitStep::Deliver,
        status == TOO_MANY_REQUESTS && attempt >= total_attempts ==> r == RateLimitStep::GiveUp(
            parse_retry_after_spec(retry_after),
        ),
        status == TOO_MANY_REQUESTS && attempt < total_attempts ==> r == RateLimitStep::Wait(
            parse_retry_after_spec(retry_after),
        ),
{
    if status != TOO_MANY_REQUESTS {
        return RateLimitStep::Deliver;
    }
    let secs = parse_retry_after_seconds(retry_after);
    if attempt >= total_attempts {
        RateLimitStep::GiveUp(secs)
    } else {
        RateLimitStep::Wait(secs)
    }
}

/// The wait `parse_retry_after_seconds` gives.
pub open spec fn parse_retry_after_spec(header: Option<&str>) -> u64 {
    match header {
        Some(v) => match parsed_u64(v@) {
            Some(n) => n,
            None => RATE_LIMIT_DEFAULT_WAIT_SECS,
        },
        None => RATE_LIMIT_DEFAULT_WAIT_SECS,
    }
}

} // verus!
