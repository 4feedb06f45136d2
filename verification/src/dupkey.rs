//! Shared duplicate-key logic for `markdup`, `dedup` and `compare`.
//!
//! Two profiles are duplicates when they share a key built from the profile
//! timestamp (formatted with a strftime string, the date only by default) and
//! the longitude and latitude scaled by `10^decimals` and rounded to integers.
//! `platform_code` is not part of the key, so duplicates are found across
//! platforms. The rounding of the coordinates is floating-point work done by
//! the caller; this module takes the rounded integers.
//!
//! Keys are compared through an injective text encoding, so that they can be
//! held in a string-keyed map.

use std::fmt::Write;

use vstd::prelude::*;

use crate::error::CtdError;
use crate::text::{decimal, digit_char, lemma_decimal_no_comma, lemma_digit_char, push_char, push_str, u64_to_decimal};

verus! {

/// How a coordinate is reduced to its rounded integer key component.
#[derive(Clone, Copy, Debug, PartialEq, Eq, Structural)]
pub enum RoundMode {
    /// Round to nearest (ties away from zero).
    Round,
    /// Round toward negative infinity.
    Floor,
    /// Round toward positive infinity.
    Ceil,
    /// Round toward zero.
    Trunc,
}

/// Options controlling how the duplicate key is derived.
#[derive(Clone, Debug)]
pub struct KeyOpts {
    pub time_format: String,
    pub decimals: u32,
    pub round_mode: RoundMode,
}

impl Default for KeyOpts {
    /// Date-only timestamp (`%Y-%m-%d`), 3-decimal rounding, round to nearest.
    fn default() -> (r: Self)
        ensures
            r.time_format@ == "%Y-%m-%d"@,
            r.decimals == 3,
            r.round_mode == RoundMode::Round,
    {
        KeyOpts { time_format: String::from_str("%Y-%m-%d"), decimals: 3, round_mode: RoundMode::Round }
    }
}

/// A profile's duplicate key: formatted timestamp, rounded longitude,
/// rounded latitude.
pub type DupKey = (String, i64, i64);

/// The view of a duplicate key.
pub open spec fn key_view(k: DupKey) -> (Seq<char>, i64, i64) {
    (k.0@, k.1, k.2)
}

/// The view of an optional duplicate key.
pub open spec fn opt_key_view(k: Option<DupKey>) -> Option<(Seq<char>, i64, i64)> {
    match k {
        Some(k) => Some(key_view(k)),
        None => None,
    }
}

/// Whether chrono's `StrftimeItems` parses `fmt` without an error item.
pub uninterp spec fn strftime_valid(fmt: Seq<char>) -> bool;

/// What formatting the UTC instant `ms` milliseconds after the Unix epoch
/// with the strftime string `fmt` gives: `None` when chrono has no datetime
/// for `ms` or cannot render `fmt` for it.
pub uninterp spec fn utc_millis_format(ms: i64, fmt: Seq<char>) -> Option<Seq<char>>;

/// Trusted: the body runs `chrono::format::StrftimeItems` over `fmt` and
/// reports whether no item is `Item::Error`, which depends on `fmt` alone.
#[verifier::external_body]
fn strftime_ok(fmt: &str) -> (r: bool)
    ensures
        r == strftime_valid(fmt@),
{
    !chrono::format::StrftimeItems::new(fmt).any(|i| matches!(i, chrono::format::Item::Error))
}

/// Trusted: the body is `chrono::DateTime::from_timestamp_millis`, then
/// `naive_utc().format(fmt)` written into a `String`; a render error gives
/// `None` instead of a panic. The result depends on `ms` and `fmt` alone.
#[verifier::external_body]
pub(crate) fn format_utc_millis(ms: i64, fmt: &str) -> (r: Option<String>)
    ensures
        r matches Some(s) ==> utc_millis_format(ms, fmt@) == Some(s@),
        r is None ==> utc_millis_format(ms, fmt@) is None,
{
    let dt = chrono::DateTime::from_timestamp_millis(ms)?;
    let mut out = String::new();
    match write!(out, "{}", dt.naive_utc().format(fmt)) {
        Ok(()) => Some(out),
        Err(_) => None,
    }
}

/// The key of a profile whose first row has timestamp `ts` (Unix
/// milliseconds) and rounded coordinates `lon` and `lat`; `None` for a
/// missing component (a null timestamp or a NaN coordinate, which rounds to
/// nothing) or a timestamp chrono cannot format.
pub open spec fn dup_key(fmt: Seq<char>, ts: Option<i64>, lon: Option<i64>, lat: Option<i64>) -> Option<(Seq<char>, i64, i64)> {
    match (ts, lon, lat) {
        (Some(t), Some(x), Some(y)) => match utc_millis_format(t, fmt) {
            Some(s) => Some((s, x, y)),
            None => None,
        },
        _ => None,
    }
}

impl KeyOpts {
    /// Check the strftime format once, up front, so that a bad format is a
    /// clean error.
    pub fn validate(&self) -> (r: Result<(), CtdError>)
        ensures
            r is Ok <==> strftime_valid(self.time_format@),
            r matches Err(e) ==> (e matches CtdError::InvalidTimeFormat { format } && format@
                == self.time_format@),
    {
        if strftime_ok(self.time_format.as_str()) {
            Ok(())
        } else {
            Err(CtdError::InvalidTimeFormat { format: self.time_format.clone() })
        }
    }

    /// The key of a profile from its timestamp and its rounded coordinates.
    pub fn key(&self, ts_ms: Option<i64>, lon: Option<i64>, lat: Option<i64>) -> (r: Option<DupKey>)
        ensures
            opt_key_view(r) == dup_key(self.time_format@, ts_ms, lon, lat),
    {
        let t = match ts_ms {
            Some(t) => t,
            None => return None,
        };
        let (x, y) = match (lon, lat) {
            (Some(x), Some(y)) => (x, y),
            _ => return None,
        };
        match format_utc_millis(t, self.time_format.as_str()) {
            Some(s) => Some((s, x, y)),
            None => None,
        }
    }
}

/// Decimal representation of an integer, with a leading `-` when negative.
pub open spec fn int_decimal(n: int) -> Seq<char> {
    if n < 0 {
        seq!['-'] + decimal((-n) as nat)
    } else {
        decimal(n as nat)
    }
}

/// Different naturals have different decimals.
proof fn lemma_decimal_injective(a: nat, b: nat)
    requires
        decimal(a) == decimal(b),
    ensures
        a == b,
    decreases a,
{
    lemma_decimal_no_comma(a);
    lemma_decimal_no_comma(b);
    if a >= 10 && b >= 10 {
        lemma_decimal_no_comma(a / 10);
        lemma_decimal_no_comma(b / 10);
        assert(decimal(a).drop_last() =~= decimal(a / 10));
        assert(decimal(b).drop_last() =~= decimal(b / 10));
        lemma_decimal_injective(a / 10, b / 10);
        assert(decimal(a) == decimal(a / 10).push(digit_char(a % 10)));
        assert(decimal(b) == decimal(b / 10).push(digit_char(b % 10)));
        assert(decimal(a).last() == digit_char(a % 10));
        assert(decimal(b).last() == digit_char(b % 10));
        lemma_digit_char(a % 10);
        lemma_digit_char(b % 10);
        assert(a % 10 == b % 10);
        assert(a == 10 * (a / 10) + a % 10);
        assert(b == 10 * (b / 10) + b % 10);
    } else if a >= 10 {
        lemma_decimal_no_comma(a / 10);
        assert(decimal(a).len() >= 2);
    } else if b >= 10 {
        lemma_decimal_no_comma(b / 10);
        assert(decimal(b).len() >= 2);
    } else {
        assert(decimal(a)[0] == digit_char(a));
        assert(decimal(b)[0] == digit_char(b));
        lemma_digit_char(a);
        lemma_digit_char(b);
    }
}

/// Integer decimals hold no comma and determine the integer.
pub proof fn lemma_int_decimal(a: int, b: int)
    ensures
        !int_decimal(a).contains(','),
        int_decimal(a) == int_decimal(b) ==> a == b,
{
    lemma_decimal_no_comma((if a < 0 { -a } else { a }) as nat);
    lemma_decimal_no_comma((if b < 0 { -b } else { b }) as nat);
    if a < 0 {
        let d = decimal((-a) as nat);
        assert forall|i: int| 0 <= i < int_decimal(a).len() implies int_decimal(a)[i] != ',' by {
            if i > 0 {
                assert(int_decimal(a)[i] == d[i - 1]);
            }
        }
    }
    if int_decimal(a) == int_decimal(b) {
        if a < 0 && b < 0 {
            assert(int_decimal(a).drop_first() =~= decimal((-a) as nat));
            assert(int_decimal(b).drop_first() =~= decimal((-b) as nat));
            lemma_decimal_injective((-a) as nat, (-b) as nat);
        } else if a < 0 {
            assert(int_decimal(a)[0] == '-');
            assert('0' <= int_decimal(b)[0] <= '9');
        } else if b < 0 {
            assert(int_decimal(b)[0] == '-');
            assert('0' <= int_decimal(a)[0] <= '9');
        } else {
            lemma_decimal_injective(a as nat, b as nat);
        }
    }
}

/// Two strings that start with a comma-free part followed by a comma agree
/// on that part and on the rest.
pub proof fn lemma_split_at_comma(a1: Seq<char>, r1: Seq<char>, a2: Seq<char>, r2: Seq<char>)
    requires
        !a1.contains(','),
        !a2.contains(','),
        a1 + seq![','] + r1 == a2 + seq![','] + r2,
    ensures
        a1 == a2,
        r1 == r2,
{
    let s1 = a1 + seq![','] + r1;
    let s2 = a2 + seq![','] + r2;
    if a1.len() < a2.len() {
        assert(s1[a1.len() as int] == ',');
        assert(s2[a1.len() as int] == a2[a1.len() as int]);
        assert(a2.contains(','));
    } else if a2.len() < a1.len() {
        assert(s2[a2.len() as int] == ',');
        assert(s1[a2.len() as int] == a1[a2.len() as int]);
        assert(a1.contains(','));
    } else {
        assert(a1 =~= s1.subrange(0, a1.len() as int));
        assert(a2 =~= s2.subrange(0, a2.len() as int));
        assert(r1 =~= s1.subrange(a1.len() as int + 1, s1.len() as int));
        assert(r2 =~= s2.subrange(a2.len() as int + 1, s2.len() as int));
    }
}

/// The text a duplicate key is held under: longitude, latitude and the
/// formatted time, the numbers in decimal and separated by commas.
pub open spec fn key_text(k: (Seq<char>, i64, i64)) -> Seq<char> {
    int_decimal(k.1 as int) + seq![','] + int_decimal(k.2 as int) + seq![','] + k.0
}

/// Different keys are held under different texts.
pub proof fn lemma_key_text_injective(a: (Seq<char>, i64, i64), b: (Seq<char>, i64, i64))
    ensures
        key_text(a) == key_text(b) <==> a == b,
{
    if key_text(a) == key_text(b) {
        lemma_int_decimal(a.1 as int, b.1 as int);
        lemma_int_decimal(b.1 as int, a.1 as int);
        lemma_int_decimal(a.2 as int, b.2 as int);
        lemma_int_decimal(b.2 as int, a.2 as int);
        let ra = int_decimal(a.2 as int) + seq![','] + a.0;
        let rb = int_decimal(b.2 as int) + seq![','] + b.0;
        assert(key_text(a) =~= int_decimal(a.1 as int) + seq![','] + ra);
        assert(key_text(b) =~= int_decimal(b.1 as int) + seq![','] + rb);
        lemma_split_at_comma(int_decimal(a.1 as int), ra, int_decimal(b.1 as int), rb);
        lemma_split_at_comma(int_decimal(a.2 as int), a.0, int_decimal(b.2 as int), b.0);
    }
}

/// Decimal text of `n`.
pub fn i64_to_decimal(n: i64) -> (r: String)
    ensures
        r@ == int_decimal(n as int),
{
    if n < 0 {
        let m: u64 = ((-(n + 1)) as u64) + 1;
        let mut r = String::new();
        push_char(&mut r, '-');
        let d = u64_to_decimal(m);
        push_str(&mut r, d.as_str());
        r
    } else {
        u64_to_decimal(n as u64)
    }
}

/// The text a duplicate key is held under.
pub fn key_text_of(k: &DupKey) -> (r: String)
    ensures
        r@ == key_text(key_view(*k)),
{
    let mut r = i64_to_decimal(k.1);
    push_char(&mut r, ',');
    let y = i64_to_decimal(k.2);
    push_str(&mut r, y.as_str());
    push_char(&mut r, ',');
    push_str(&mut r, k.0.as_str());
    proof {
        assert(r@ =~= key_text(key_view(*k)));
    }
    r
}

} // verus!
