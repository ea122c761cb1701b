//! The payload generator: a 128-bit value whose high 48 bits hold a
//! millisecond timestamp and whose low 80 bits hold cryptographically
//! strong randomness.  Placing time in the high bits makes the byte order
//! of the encoded form track creation order; the random tail keeps values
//! minted within one tick from colliding.

use vstd::prelude::*;

verus! {

/// The number of milliseconds that fit the 48 timestamp bits.
pub open spec fn timestamp_limit() -> u64 {
    0x1_0000_0000_0000
}

/// A payload assembled from a millisecond timestamp and a random tail:
/// the low 48 bits of the timestamp shifted into the high bits, the low
/// 80 bits of the tail below them.
pub open spec fn payload_of(ts_millis: u64, random: u128) -> u128 {
    (((ts_millis & 0xFFFF_FFFF_FFFF) as u128) << 80) | (random & 0xFFFF_FFFF_FFFF_FFFF_FFFF)
}

/// The millisecond timestamp held in the high 48 bits of a payload.
pub open spec fn timestamp_of(p: u128) -> u64 {
    (p >> 80) as u64
}

/// Relies on std::time's SystemTime::now, SystemTime::duration_since
/// against the Unix epoch, and Duration::as_millis: the wall clock as
/// milliseconds since the epoch, saturating at u64::MAX.  A clock reading
/// before the epoch is an unrecoverable environment fault and aborts.
#[verifier::external_body]
fn now_unix_millis() -> (r: u64)
{
    let ms = std::time::SystemTime::now()
        .duration_since(std::time::UNIX_EPOCH)
        .expect("system clock reads before the Unix epoch")
        .as_millis();
    u64::try_from(ms).unwrap_or(u64::MAX)
}

/// Relies on getrandom::fill: fills the buffer from the operating
/// system's entropy source.  Exhaustion of that source is an
/// unrecoverable environment fault and aborts.
#[verifier::external_body]
fn random_u128() -> (r: u128)
{
    let mut buf = [0u8; 16];
    getrandom::fill(&mut buf).expect("the entropy source failed");
    u128::from_le_bytes(buf)
}

/// Packs a timestamp and a random tail into a payload.  Deterministic, so
/// a caller with a fixed clock and fixed bytes gets a fixed payload.
pub fn assemble(ts_millis: u64, random: u128) -> (p: u128)
    ensures
        p == payload_of(ts_millis, random),
{
    (((ts_millis & 0xFFFF_FFFF_FFFF) as u128) << 80) | (random & 0xFFFF_FFFF_FFFF_FFFF_FFFF)
}

/// Reads the millisecond timestamp back out of a payload.
pub fn timestamp(p: u128) -> (t: u64)
    ensures
        t == timestamp_of(p),
{
    (p >> 80) as u64
}

/// Mints a fresh payload from the clock and the entropy source.  The
/// result depends on both, so nothing more is promised of it than its
/// shape; two calls in the same process may only be told apart by their
/// random tails.
pub fn generate() -> (p: u128)
    ensures
        exists|t: u64, r: u128| p == payload_of(t, r),
{
    let t = now_unix_millis();
    let r = random_u128();
    let p = assemble(t, r);
    proof {
        assert(p == payload_of(t, r));
    }
    p
}

/// An assembled payload hands its timestamp back unchanged, as long as
/// the timestamp fits the 48 bits.
pub proof fn lemma_timestamp_round_trip(t: u64, r: u128)
    requires
        t < timestamp_limit(),
    ensures
        timestamp_of(payload_of(t, r)) == t,
{
    assert(((((t & 0xFFFF_FFFF_FFFF) as u128) << 80) | (r & 0xFFFF_FFFF_FFFF_FFFF_FFFF)) >> 80
        == t as u128) by (bit_vector)
        requires
            t < 0x1_0000_0000_0000u64,
    ;
}

/// Payload order follows timestamp order: whatever the random tails, the
/// payload of the earlier millisecond is the smaller value.
pub proof fn lemma_payload_time_order(t1: u64, r1: u128, t2: u64, r2: u128)
    requires
        t1 < t2,
        t2 < timestamp_limit(),
    ensures
        payload_of(t1, r1) < payload_of(t2, r2),
{
    assert(((((t1 & 0xFFFF_FFFF_FFFF) as u128) << 80) | (r1 & 0xFFFF_FFFF_FFFF_FFFF_FFFF)) < ((((
    t2 & 0xFFFF_FFFF_FFFF) as u128) << 80) | (r2 & 0xFFFF_FFFF_FFFF_FFFF_FFFF))) by (bit_vector)
        requires
            t1 < t2,
            t2 < 0x1_0000_0000_0000u64,
    ;
}

} // verus!
