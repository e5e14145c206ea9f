use vstd::prelude::*;
use crate::contract::Contract;
use crate::decimal::dec_str_of;
use crate::fundraiser::JsonFundraiser;

verus! {

/// A well-formed title of 1 to 1000 characters and a description of at
/// most 2000 characters are never rejected: with the paired token id
/// free, creating the fundraiser succeeds, and the id counter advances by
/// exactly one (stated by `add_fundraiser_post`).
pub proof fn lemma_valid_creation_succeeds(c: Contract, title: Seq<char>, description: Seq<char>)
    requires
        c.wf(),
        1 <= title.len() <= 1000,
        description.len() <= 2000,
        !c.has_token(dec_str_of((c.fundraiser_counter + 1) as nat)),
    ensures
        c.add_fundraiser_error(title, description) is None,
{
}

/// A fundraiser that was just created can be read back: the composite
/// view of the new id exists, and it carries that id and the decimal form
/// of it as its token id.
pub proof fn lemma_created_fundraiser_is_viewable(
    pre: Contract,
    post: Contract,
    owner_id: crate::token::AccountId,
    title: String,
    description: String,
    status: crate::fundraiser::FundraiserStatus,
    metadata: crate::metadata::TokenMetadata,
    j: JsonFundraiser,
)
    requires
        post.add_fundraiser_post(pre, owner_id, title, description, status, metadata),
        post.is_fundraiser_view((pre.fundraiser_counter + 1) as u32, j),
    ensures
        post.fundraiser_viewable((pre.fundraiser_counter + 1) as u32),
        j.fundraiser_id == pre.fundraiser_counter + 1,
        j.token_id@ == dec_str_of((pre.fundraiser_counter + 1) as nat),
        j.fundraiser.owner_id == owner_id,
        j.fundraiser.title == title,
{
}

/// The donation ledger preserves multiplicity: two donations of the same
/// amount by the same donor are two entries, not one.
pub proof fn lemma_donations_keep_multiplicity(
    c0: Contract,
    c1: Contract,
    c2: Contract,
    fid: u32,
    donor: Seq<char>,
    amount: u128,
)
    requires
        c1.donations_of(fid, donor) == c0.donations_of(fid, donor).push(amount),
        c2.donations_of(fid, donor) == c1.donations_of(fid, donor).push(amount),
    ensures
        c2.donations_of(fid, donor).len() == c0.donations_of(fid, donor).len() + 2,
        c2.donations_of(fid, donor)[c0.donations_of(fid, donor).len() as int] == amount,
        c2.donations_of(fid, donor)[c0.donations_of(fid, donor).len() as int + 1] == amount,
{
}

/// The total of a sequence of donation amounts.
pub open spec fn total_of(s: Seq<u128>) -> int
    decreases s.len(),
{
    if s.len() == 0 {
        0
    } else {
        total_of(s.drop_last()) + s.last()
    }
}

/// The ledger's total for a donor grows by exactly what the donor
/// attached: recording a donation adds its amount, and nothing else, to
/// the total ever recorded for that fundraiser and donor.
pub proof fn lemma_donation_total(c0: Contract, c1: Contract, fid: u32, donor: Seq<char>, amount: u128)
    requires
        c1.donations_of(fid, donor) == c0.donations_of(fid, donor).push(amount),
    ensures
        total_of(c1.donations_of(fid, donor)) == total_of(c0.donations_of(fid, donor)) + amount,
{
    let s = c0.donations_of(fid, donor);
    assert(s.push(amount).drop_last() =~= s);
    assert(s.push(amount).last() == amount);
}

/// Approval ids are strictly increasing across approve calls on one
/// token, re-approvals of the same delegate included: the second call
/// assigns the next id, so the previously cached id no longer matches,
/// while the delegate stays approved. On a fresh token the first id is 0
/// and the second is 1.
pub proof fn lemma_reapproval_invalidates_stale_id(
    c0: Contract,
    c1: Contract,
    c2: Contract,
    tid: Seq<char>,
    delegate: Seq<char>,
    first: u64,
    second: u64,
)
    requires
        c1.approve_post(c0, tid, delegate, first),
        c2.approve_post(c1, tid, delegate, second),
    ensures
        second == first + 1,
        c2.token_at(tid).approves(delegate),
        c2.token_at(tid).approval_id_of(delegate) == second,
        c2.token_at(tid).approval_id_of(delegate) != first,
        c0.token_at(tid).next_approval_id == 0 ==> first == 0 && second == 1,
{
}

/// A completed transfer moves the token id between the two owners' index
/// sets and leaves no approval behind: the receiver owns the id, the
/// previous owner no longer lists it, and every delegation is cleared.
pub proof fn lemma_transfer_moves_ownership(
    pre: Contract,
    post: Contract,
    tid: Seq<char>,
    receiver: crate::token::AccountId,
)
    requires
        post.transfer_post(pre, tid, receiver),
    ensures
        post.owns_token(receiver@, tid),
        pre.token_at(tid).owner_id@ != receiver@ ==> !post.owns_token(
            pre.token_at(tid).owner_id@,
            tid,
        ),
        forall|d: Seq<char>| !(#[trigger] post.token_at(tid).approves(d)),
        post.token_at(tid).owner_id == receiver,
{
}

} // verus!
