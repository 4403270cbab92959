//! The settings of the connection pool, as the process is given them in
//! its variables: decimal numbers, with a default for each that is
//! missing or is no number.

use vstd::prelude::*;
use vstd::string::StringSliceAdditionalSpecFns;
use crate::bootstrap::RetryPolicy;

verus! {

/// The connections that the pool may hold where nothing else is set.
pub const DEFAULT_POOL_SIZE: usize = 8;

/// The retries of the bootstrap where nothing else is set.
pub const DEFAULT_MAX_CONN_RETRIES: u32 = 5;

/// The delay before the first retry, in milliseconds.
pub const BACKOFF_BASE_MS: u64 = 100;

/// The longest delay before a retry, in milliseconds.
pub const BACKOFF_CAP_MS: u64 = 5000;

/// Whether a byte is one of the ten decimal digits.
pub open spec fn is_digit(b: u8) -> bool {
    48 <= b <= 57
}

/// What a byte counts for as a digit.
pub open spec fn digit_value(b: u8) -> nat {
    if is_digit(b) {
        (b - 48) as nat
    } else {
        0
    }
}

/// The number that a run of digits writes in base ten.
pub open spec fn decimal_value(digits: Seq<u8>) -> nat
    decreases digits.len(),
{
    if digits.len() == 0 {
        0
    } else {
        decimal_value(digits.drop_last()) * 10 + digit_value(digits.last())
    }
}

/// Whether every byte is a digit.
pub open spec fn all_digits(digits: Seq<u8>) -> bool {
    forall|i: int| 0 <= i < digits.len() ==> is_digit(#[trigger] digits[i])
}

/// A text without the plus sign that may stand in front of it.
pub open spec fn without_sign(text: Seq<u8>) -> Seq<u8> {
    if text.len() > 0 && text[0] == 43 {
        text.skip(1)
    } else {
        text
    }
}

/// The number that a text writes, if it writes one that is at most `max`:
/// one or more decimal digits, with at most a plus sign before them and
/// nothing after them.
pub open spec fn parsed_unsigned(text: Seq<u8>, max: nat) -> Option<nat> {
    let digits = without_sign(text);
    if digits.len() > 0 && all_digits(digits) && decimal_value(digits) <= max {
        Some(decimal_value(digits))
    } else {
        None
    }
}

/// The first digits of a number write no more than all of them.
pub proof fn lemma_prefix_value(digits: Seq<u8>, k: int)
    requires
        0 <= k <= digits.len(),
    ensures
        decimal_value(digits.take(k)) <= decimal_value(digits),
    decreases digits.len(),
{
    if k == digits.len() {
        assert(digits.take(k) =~= digits);
    } else {
        lemma_prefix_value(digits.drop_last(), k);
        assert(digits.drop_last().take(k) =~= digits.take(k));
    }
}

/// Reads a number of at most `max` from a text.
pub fn parse_unsigned(text: &[u8], max: u64) -> (parsed: Option<u64>)
    ensures
        match parsed {
            Some(n) => parsed_unsigned(text@, max as nat) == Some(n as nat),
            None => parsed_unsigned(text@, max as nat) is None,
        },
{
    let n: usize = text.len();
    let start: usize = if n > 0 && text[0] == 43 {
        1
    } else {
        0
    };
    let ghost digits = without_sign(text@);
    assert(digits =~= text@.subrange(start as int, n as int));
    if start == n {
        return None;
    }
    let mut value: u64 = 0;
    let mut i: usize = start;
    assert(digits.take(0) =~= Seq::<u8>::empty());
    while i < n
        invariant
            start <= i <= n,
            n == text@.len(),
            digits == text@.subrange(start as int, n as int),
            digits == without_sign(text@),
            all_digits(digits.take(i - start)),
            value == decimal_value(digits.take(i - start)),
            value <= max,
        decreases n - i,
    {
        let b: u8 = text[i];
        assert(digits[i - start] == b);
        if b < 48 || b > 57 {
            return None;
        }
        let d: u64 = (b - 48) as u64;
        proof {
            assert(digits.take(i - start + 1).drop_last() =~= digits.take(i - start));
            assert(digits.take(i - start + 1).last() == b);
            lemma_prefix_value(digits, i - start + 1);
        }
        if d > max || value > (max - d) / 10 {
            return None;
        }
        value = value * 10 + d;
        i = i + 1;
        assert(all_digits(digits.take(i - start))) by {
            assert forall|j: int| 0 <= j < i - start implies is_digit(
                #[trigger] digits.take(i - start)[j],
            ) by {
                if j < i - start - 1 {
                    assert(digits.take(i - start - 1)[j] == digits[j]);
                }
            }
        }
    }
    assert(digits.take(n - start) =~= digits);
    Some(value)
}

/// The number that a setting stands for: what its text writes, or the
/// default where the setting is missing or its text writes no number of
/// at most `max`.
pub open spec fn setting_value(setting: Option<&str>, max: nat, default: nat) -> nat {
    match setting {
        Some(text) => match parsed_unsigned(text.spec_bytes(), max) {
            Some(n) => n,
            None => default,
        },
        None => default,
    }
}

/// Reads a setting, falling back to the default.
pub fn read_setting(setting: Option<&str>, max: u64, default: u64) -> (value: u64)
    requires
        default <= max,
    ensures
        value == setting_value(setting, max as nat, default as nat),
        value <= max,
{
    match setting {
        Some(text) => match parse_unsigned(text.as_bytes(), max) {
            Some(n) => n,
            None => default,
        },
        None => default,
    }
}

/// The settings of the connection pool.
#[derive(Debug, Clone, Copy, PartialEq, Eq)]
pub struct PoolSettings {
    /// The connections that the pool may hold at once.
    pub max_pool_size: usize,
    /// The retries allowed while the pool is brought up.
    pub max_conn_retries: u32,
}

impl PoolSettings {
    /// Reads the settings from the values of the two variables: the pool
    /// size, eight by default, and the retries, five by default.
    pub fn from_values(pool_size: Option<&str>, max_conn_retries: Option<&str>) -> (settings:
        PoolSettings)
        ensures
            settings.max_pool_size == setting_value(
                pool_size,
                usize::MAX as nat,
                DEFAULT_POOL_SIZE as nat,
            ),
            settings.max_conn_retries == setting_value(
                max_conn_retries,
                u32::MAX as nat,
                DEFAULT_MAX_CONN_RETRIES as nat,
            ),
    {
        let size: u64 = read_setting(pool_size, usize::MAX as u64, DEFAULT_POOL_SIZE as u64);
        let retries: u64 = read_setting(
            max_conn_retries,
            u32::MAX as u64,
            DEFAULT_MAX_CONN_RETRIES as u64,
        );
        PoolSettings { max_pool_size: size as usize, max_conn_retries: retries as u32 }
    }

    /// The policy of the bootstrap under these settings: the retries that
    /// they allow, with delays that double from a tenth of a second up to
    /// five seconds.
    pub fn retry_policy(&self) -> (policy: RetryPolicy)
        ensures
            policy == (RetryPolicy {
                max_retries: self.max_conn_retries,
                base_delay_ms: BACKOFF_BASE_MS,
                max_delay_ms: BACKOFF_CAP_MS,
            }),
    {
        RetryPolicy {
            max_retries: self.max_conn_retries,
            base_delay_ms: BACKOFF_BASE_MS,
            max_delay_ms: BACKOFF_CAP_MS,
        }
    }
}

} // verus!
