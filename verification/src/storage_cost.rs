use vstd::prelude::*;

verus! {

/// A separator character of a NEAR account id.
pub open spec fn separator_char(c: char) -> bool {
    c == '-' || c == '_' || c == '.'
}

/// A character allowed in a NEAR account id.
pub open spec fn account_char(c: char) -> bool {
    ('a' <= c && c <= 'z') || ('0' <= c && c <= '9') || separator_char(c)
}

/// A well-formed NEAR account id: 2 to 64 characters drawn from lower-case
/// letters, digits and the separators `-`, `_`, `.`, where no separator
/// stands first, last, or next to another separator. Account ids handed to
/// the contract by the platform always have this shape.
pub open spec fn valid_account_id(s: Seq<char>) -> bool {
    &&& 2 <= s.len() <= 64
    &&& forall|i: int| 0 <= i < s.len() ==> account_char(#[trigger] s[i])
    &&& !separator_char(s[0])
    &&& !separator_char(s[s.len() - 1])
    &&& forall|i: int|
        0 <= i < s.len() - 1 ==> !(separator_char(#[trigger] s[i]) && separator_char(s[i + 1]))
}

/// What the protocol charges per byte of storage, in yoctoNEAR.
pub open spec fn yocto_per_byte() -> int {
    10_000_000_000_000_000_000
}

/// The marginal storage an approval entry for `acct` costs, in yoctoNEAR:
/// nothing when the delegate is already approved, otherwise the entry's
/// bytes priced per byte.
pub open spec fn approval_storage_cost(acct: Seq<char>, already_approved: bool) -> int {
    if already_approved {
        0
    } else {
        (acct.len() + 12) * yocto_per_byte()
    }
}

/// Relies on `near_contract_standards::non_fungible_token::bytes_for_approved_account_id`
/// for the bytes one approval entry occupies: the byte length of the account
/// id plus a 4-byte length prefix plus the 8-byte approval id. A valid
/// account id is ASCII, so its byte length is its character count.
#[verifier::external_body]
pub(crate) fn bytes_for_approved_account(account_id: &String) -> (r: u64)
    requires
        valid_account_id(account_id@),
    ensures
        r == account_id@.len() + 12,
{
    let parsed: near_sdk::AccountId = account_id.parse().unwrap();
    near_contract_standards::non_fungible_token::bytes_for_approved_account_id(&parsed)
}

/// Relies on `near_sdk::env::storage_byte_cost`, which prices storage at a
/// fixed 10^19 yoctoNEAR per byte.
#[verifier::external_body]
pub(crate) fn storage_byte_cost() -> (r: u128)
    ensures
        r == yocto_per_byte(),
{
    near_sdk::env::storage_byte_cost().as_yoctonear()
}

} // verus!
