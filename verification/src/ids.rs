//! Fresh identifiers and the current time.

use vstd::prelude::*;

verus! {

/// A point in time: whole seconds since the Unix epoch (UTC) and the
/// nanoseconds past that second.
#[derive(Debug, Clone, Copy, PartialEq, Eq, Structural)]
pub struct Timestamp {
    pub secs: i64,
    pub nanos: u32,
}

/// The 128-bit value of a freshly generated random (version 4) UUID, from
/// `uuid::Uuid::new_v4`. The value is random; what holds of every outcome
/// is that `new_v4` sets the version nibble to 4 and the variant bits to
/// `10` (it masks the random value and ors in `0x40008000000000000000`).
#[verifier::external_body]
pub(crate) fn fresh_id() -> (id: u128)
    ensures
        (id >> 76u128) & 0xfu128 == 4,
        (id >> 62u128) & 0x3u128 == 2,
{
    uuid::Uuid::new_v4().as_u128()
}

/// The time stamp is an ordinary (non-leap) second: its nanoseconds are
/// below one billion.
pub open spec fn clock_reading(t: Timestamp) -> bool {
    t.nanos < 1_000_000_000
}

/// The current UTC time, from `chrono::Utc::now`, as seconds and
/// sub-second nanoseconds. The value depends on the clock; what holds of
/// every outcome is that `Utc::now` builds it with `from_timestamp` from a
/// `Duration`'s `subsec_nanos`, which is below one billion, and
/// `timestamp_subsec_nanos` gives that value back.
#[verifier::external_body]
pub(crate) fn now() -> (t: Timestamp)
    ensures
        clock_reading(t),
{
    let t = chrono::Utc::now();
    Timestamp { secs: t.timestamp(), nanos: t.timestamp_subsec_nanos() }
}

/// Lower-case hexadecimal digit `d`.
pub open spec fn lower_hex(d: int) -> char {
    seq!['0', '1', '2', '3', '4', '5', '6', '7', '8', '9', 'a', 'b', 'c', 'd', 'e', 'f'][d]
}

/// The 32 lower-case hexadecimal digits of `id`, most significant first.
pub open spec fn hex32(id: u128) -> Seq<char> {
    Seq::new(32, |i: int| lower_hex(((id >> ((31 - i) * 4) as u128) & 0xfu128) as int))
}

/// The hyphenated form of a UUID: its 32 hexadecimal digits in groups of
/// 8, 4, 4, 4 and 12 joined by hyphens.
pub open spec fn uuid_text_spec(id: u128) -> Seq<char> {
    let h = hex32(id);
    h.subrange(0, 8) + seq!['-'] + h.subrange(8, 12) + seq!['-'] + h.subrange(12, 16) + seq!['-']
        + h.subrange(16, 20) + seq!['-'] + h.subrange(20, 32)
}

/// `uuid::Uuid::from_u128(id)` shown as text. `from_u128` takes the
/// value's big-endian bytes, and `Display` writes the hyphenated form in
/// lower case; the contract states that form.
#[verifier::external_body]
pub(crate) fn uuid_text(id: u128) -> (s: String)
    ensures
        s@ == uuid_text_spec(id),
{
    uuid::Uuid::from_u128(id).to_string()
}

} // verus!
