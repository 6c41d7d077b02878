//! The calls into other crates and into std that the library's logic makes. The contract of
//! each says what the called function does; it is taken as given, not proved here.
use vstd::prelude::*;
use vstd::arithmetic::power2::pow2;

verus! {

/// The ASCII character of a lower case hexadecimal digit `d` (0 to 15).
pub open spec fn hex_digit(d: int) -> char {
    if d < 10 {
        (48 + d) as char
    } else {
        (87 + d) as char
    }
}

/// The `k`-th hexadecimal digit of `u`, most significant first, of 32.
pub open spec fn hex_nibble(u: u128, k: int) -> int {
    (u as int / pow2((4 * (31 - k)) as nat) as int) % 16
}

/// The 32 lower case hexadecimal digits of `u`, most significant first.
pub open spec fn hex32(u: u128) -> Seq<char> {
    Seq::new(32, |k: int| hex_digit(hex_nibble(u, k)))
}

/// The hyphenated form of a UUID whose 128 bits are `u`: groups of 8, 4, 4, 4 and 12 digits.
pub open spec fn uuid_hyphenated(u: u128) -> Seq<char> {
    let h = hex32(u);
    h.subrange(0, 8) + seq!['-'] + h.subrange(8, 12) + seq!['-'] + h.subrange(12, 16) + seq!['-']
        + h.subrange(16, 20) + seq!['-'] + h.subrange(20, 32)
}

/// The decimal digits of `n`, without leading zeros.
pub open spec fn decimal(n: nat) -> Seq<char>
    decreases n,
{
    if n < 10 {
        seq![(48 + n) as char]
    } else {
        decimal(n / 10).push((48 + n % 10) as char)
    }
}

/// The largest number of milliseconds that a `std::time::Duration` holds: its seconds are a `u64`.
pub open spec fn max_duration_millis() -> int {
    u64::MAX * 1000 + 999
}

/// The 128 bits `u` are those of a version 4 UUID: version bits 4, variant bits of RFC 4122.
pub open spec fn is_v4(u: u128) -> bool {
    &&& u & 0xF000_0000_0000_0000_0000 == 0x4000_0000_0000_0000_0000
    &&& u & 0xC000_0000_0000_0000 == 0x8000_0000_0000_0000
}

/// Calls `uuid::Uuid::new_v4` and takes the 128 bits of the UUID (`Uuid::as_u128`). Its bits
/// are random but for the version and variant bits, which `new_v4` sets: only those are stated.
#[verifier::external_body]
pub(crate) fn uuid_v4() -> (r: u128)
    ensures
        is_v4(r),
{
    uuid::Uuid::new_v4().as_u128()
}

/// Calls `uuid::Uuid::from_u128` and formats the UUID with its `Display` impl, which writes the
/// lower case hyphenated form of the 128 bits, most significant first.
#[verifier::external_body]
pub(crate) fn uuid_to_string(u: u128) -> (r: String)
    ensures
        r@ == uuid_hyphenated(u),
{
    uuid::Uuid::from_u128(u).to_string()
}

/// Calls `ToString::to_string` on a `u64`, whose `Display` impl writes its decimal digits.
#[verifier::external_body]
pub(crate) fn u64_to_string(n: u64) -> (r: String)
    ensures
        r@ == decimal(n as nat),
{
    n.to_string()
}

/// The time that the system clock reads; opaque to the library.
#[verifier::external_type_specification]
#[verifier::external_body]
pub struct ExSystemTime(std::time::SystemTime);

/// Calls `std::time::SystemTime::now`. Which time the clock reads is not stated.
#[verifier::external_body]
pub(crate) fn system_now() -> (r: std::time::SystemTime) {
    std::time::SystemTime::now()
}

/// Calls `SystemTime::duration_since` with `UNIX_EPOCH`: how long after the epoch `t` is; `None`
/// where `t` is before the epoch (the call's error). The length of the `Duration` is not stated:
/// `t` is opaque here.
#[verifier::external_body]
pub(crate) fn since_epoch(t: &std::time::SystemTime) -> (r: Option<std::time::Duration>) {
    match t.duration_since(std::time::UNIX_EPOCH) {
        Ok(d) => Some(d),
        Err(_) => None,
    }
}

/// Calls `Duration::as_millis`: the whole milliseconds of `d`. `d` is opaque here, so only the
/// bound that every `Duration` keeps is stated: its seconds are a `u64`.
#[verifier::external_body]
pub(crate) fn duration_millis(d: &std::time::Duration) -> (r: u128)
    ensures
        r <= max_duration_millis(),
{
    d.as_millis()
}

} // verus!
