//! Identifiers and clock readings, which come from outside the library.

use vstd::prelude::*;
use crate::json_text::hex_digit;

verus! {

/// A fresh random identifier: `uuid::Uuid::new_v4`, as its 128-bit value.
/// Nothing is claimed of the value, which is random.
#[verifier::external_body]
pub(crate) fn new_id() -> (id: u128) {
    uuid::Uuid::new_v4().as_u128()
}

/// The low `count` hex digits of `v`, lower-case, most significant first.
pub open spec fn hex_digits(v: nat, count: nat) -> Seq<char>
    decreases count,
{
    if count == 0 {
        Seq::empty()
    } else {
        hex_digits(v / 16, (count - 1) as nat).push(hex_digit(v % 16))
    }
}

/// The hyphenated lower-case text of an identifier, as
/// `uuid::Uuid::from_u128(id).to_string()` renders it: the 32 hex digits of
/// the 128-bit value, most significant first, in groups of 8, 4, 4, 4 and
/// 12 joined by hyphens.
pub open spec fn uuid_text(id: u128) -> Seq<char> {
    let d = hex_digits(id as nat, 32);
    d.subrange(0, 8) + seq!['-'] + d.subrange(8, 12) + seq!['-'] + d.subrange(12, 16) + seq!['-'] + d.subrange(
        16,
        20,
    ) + seq!['-'] + d.subrange(20, 32)
}

/// Renders an identifier: `uuid::Uuid::from_u128(id).to_string()`, the
/// hyphenated lower-case form [`uuid_text`].
#[verifier::external_body]
pub(crate) fn id_text(id: u128) -> (s: String)
    ensures
        s@ == uuid_text(id),
{
    uuid::Uuid::from_u128(id).to_string()
}

/// Nanoseconds in a day.
pub const DAY_NANOS: i128 = 86_400_000_000_000;

/// The time `secs` whole seconds and `nanos` nanoseconds after the Unix
/// epoch, in nanoseconds.
pub open spec fn instant(secs: i64, nanos: u32) -> i128 {
    (secs * 1_000_000_000 + nanos) as i128
}

/// The time of `secs` and `nanos` in nanoseconds since the Unix epoch.
pub fn instant_of(secs: i64, nanos: u32) -> (t: i128)
    ensures
        t == instant(secs, nanos),
{
    assert(-0x8000_0000_0000_0000 * 1_000_000_000 <= secs * 1_000_000_000 <= 0x7fff_ffff_ffff_ffff
        * 1_000_000_000) by (nonlinear_arith)
        requires
            -0x8000_0000_0000_0000 <= secs <= 0x7fff_ffff_ffff_ffff,
    ;
    (secs as i128) * 1_000_000_000 + (nanos as i128)
}

/// The whole milliseconds since the Unix epoch of a time in nanoseconds,
/// rounded down, as chrono's `timestamp_millis` counts them.
pub open spec fn millis(t: i128) -> int {
    t / 1_000_000
}

/// The whole milliseconds of a time.
pub fn millis_of(t: i128) -> (r: i128)
    ensures
        r == millis(t),
{
    if t >= 0 {
        t / 1_000_000
    } else {
        let a: i128 = -(t + 1);
        let q: i128 = a / 1_000_000;
        proof {
            assert(a == q * 1_000_000 + a % 1_000_000);
            assert(t == (-q - 1) * 1_000_000 + (1_000_000 - 1 - a % 1_000_000));
        }
        -q - 1
    }
}

/// The current wall-clock time as `chrono::Utc::now()` gives it: its
/// `timestamp()` seconds and its `timestamp_subsec_nanos()`. Nothing is
/// claimed of it.
#[verifier::external_body]
fn clock_reading() -> (t: (i64, u32)) {
    let now = chrono::Utc::now();
    (now.timestamp(), now.timestamp_subsec_nanos())
}

/// The current wall-clock time in nanoseconds since the Unix epoch.
pub(crate) fn now_nanos() -> (t: i128) {
    let (secs, nanos) = clock_reading();
    instant_of(secs, nanos)
}

} // verus!
