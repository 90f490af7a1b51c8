//! Transaction identifiers: UUIDs held as 128-bit numbers, made and
//! written by the `uuid` crate.
use vstd::prelude::*;
use uuid::Uuid;
use vstd::arithmetic::power::pow;

verus! {

/// What `Uuid::new_v5` gives in the OID namespace for `name`.
pub uninterp spec fn uuid_v5_oid(name: Seq<u8>) -> u128;

/// The lower-case hexadecimal digit of `d`, from 0 to 15.
pub open spec fn hex_digit(d: int) -> char {
    if d < 10 {
        (d + 48) as char
    } else {
        (d + 87) as char
    }
}

/// The `k`-th of the 32 hexadecimal digits of `id`, most significant first.
pub open spec fn hex_nibble(id: u128, k: int) -> char {
    hex_digit((id as int / pow(16, (31 - k) as nat)) % 16)
}

/// What `Uuid`'s `Display` writes: the 32 lower-case hexadecimal digits of
/// the id, most significant first, in groups of 8, 4, 4, 4 and 12 joined
/// by hyphens.
pub open spec fn uuid_text(id: u128) -> Seq<char> {
    Seq::new(
        36,
        |i: int|
            if i == 8 || i == 13 || i == 18 || i == 23 {
                '-'
            } else if i < 8 {
                hex_nibble(id, i)
            } else if i < 13 {
                hex_nibble(id, i - 1)
            } else if i < 18 {
                hex_nibble(id, i - 2)
            } else if i < 23 {
                hex_nibble(id, i - 3)
            } else {
                hex_nibble(id, i - 4)
            },
    )
}

/// `Uuid::new_v5` in the OID namespace: a name-based UUID, the same for the
/// same name.
#[verifier::external_body]
pub(crate) fn uuid_v5_from_bytes(name: &[u8]) -> (id: u128)
    ensures
        id == uuid_v5_oid(name@),
{
    Uuid::new_v5(&Uuid::NAMESPACE_OID, name).as_u128()
}

/// `Uuid::new_v4`: a random UUID. Nothing is stated of its value.
#[verifier::external_body]
pub(crate) fn uuid_new_random() -> (id: u128) {
    Uuid::new_v4().as_u128()
}

/// `Uuid`'s `Display`.
#[verifier::external_body]
pub(crate) fn uuid_to_string(id: u128) -> (s: String)
    ensures
        s@ == uuid_text(id),
{
    Uuid::from_u128(id).to_string()
}

} // verus!
