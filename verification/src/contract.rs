use vstd::prelude::*;
use crate::decimal::{dec_str_of, u32_to_decimal};
use crate::errors::ContractError;
use crate::fundraiser::{Fundraiser, FundraiserId, FundraiserStatus, JsonFundraiser};
use crate::keyed::{
    nid_push, nid_unique, nkv_get, nkv_has, nkv_index, nkv_index_at, nkv_push, nkv_unique,
    nkv_update, sid_has, sid_push, sid_unique, skv_get, skv_has, skv_index, skv_index_at, skv_push,
    skv_unique, skv_update,
};
use crate::metadata::{md_eq, NFTContractMetadata, TokenMetadata};
use crate::storage_cost::{
    approval_storage_cost, bytes_for_approved_account, storage_byte_cost, valid_account_id,
};
use crate::token::{token_eq, AccountId, JsonToken, Token, TokenId};

verus! {

/// What a successful approval hands back to the caller's environment: the
/// overpayment to refund, and the one-way notification to deliver when a
/// message was attached.
#[derive(Debug, PartialEq)]
pub struct ApprovalOutcome {
    pub refund: u128,
    pub notification: Option<ApprovalNotice>,
}

/// A one-way notification to the approved account; its delivery is
/// fire-and-forget and never affects the approval itself.
#[derive(Debug, PartialEq)]
pub struct ApprovalNotice {
    pub recipient: AccountId,
    pub token_id: TokenId,
    pub owner_id: AccountId,
    pub approval_id: u64,
    pub msg: String,
}

/// The record of one completed transfer, for observability: who gave the
/// token up, who received it, and the caller's memo.
#[derive(Debug, PartialEq)]
pub struct TransferOutcome {
    pub old_owner_id: AccountId,
    pub new_owner_id: AccountId,
    pub token_id: TokenId,
    pub memo: Option<String>,
}

/// The whole state of the contract: the entity tables, the owner indexes,
/// the donation ledger and the monotonic id counter, all of which every
/// operation keeps mutually consistent.
pub struct Contract {
    /// The account that deployed the contract.
    pub owner_id: AccountId,
    /// Metadata of the contract, fixed at initialization.
    pub metadata: NFTContractMetadata,
    /// Owner index: account to the set of fundraiser ids it owns.
    pub fundraiser_per_owner: Vec<(AccountId, Vec<FundraiserId>)>,
    /// Entity table of fundraisers, in ascending id (creation) order.
    pub fundraisers_by_id: Vec<(FundraiserId, Fundraiser)>,
    /// Donation ledger: fundraiser id to donor to the amounts donated,
    /// in order and with multiplicity.
    pub fundraisers_donations: Vec<(FundraiserId, Vec<(AccountId, Vec<u128>)>)>,
    /// The monotonic, never-reused id counter shared by fundraisers and
    /// their paired tokens.
    pub fundraiser_counter: u32,
    /// Owner index: account to the set of token ids it owns.
    pub tokens_per_owner: Vec<(AccountId, Vec<TokenId>)>,
    /// Entity table of tokens.
    pub tokens_by_id: Vec<(TokenId, Token)>,
    /// Entity table of token metadata, one row per token.
    pub token_metadata_by_id: Vec<(TokenId, TokenMetadata)>,
}

impl Contract {
    // ------------------------------------------------------------------
    // the mathematical reading of the state
    // ------------------------------------------------------------------

    /// A fundraiser row with id `id` exists.
    pub open spec fn has_fundraiser(self, id: FundraiserId) -> bool {
        nkv_has(self.fundraisers_by_id@, id)
    }

    /// The fundraiser row keyed `id`.
    pub open spec fn fundraiser_at(self, id: FundraiserId) -> Fundraiser
        recommends
            self.has_fundraiser(id),
    {
        nkv_get(self.fundraisers_by_id@, id)
    }

    /// A token row with id `tid` exists.
    pub open spec fn has_token(self, tid: Seq<char>) -> bool {
        skv_has(self.tokens_by_id@, tid)
    }

    /// The token row keyed `tid`.
    pub open spec fn token_at(self, tid: Seq<char>) -> Token
        recommends
            self.has_token(tid),
    {
        skv_get(self.tokens_by_id@, tid)
    }

    /// A metadata row for token id `tid` exists.
    pub open spec fn has_token_metadata(self, tid: Seq<char>) -> bool {
        skv_has(self.token_metadata_by_id@, tid)
    }

    /// The metadata row keyed `tid`.
    pub open spec fn token_metadata_at(self, tid: Seq<char>) -> TokenMetadata
        recommends
            self.has_token_metadata(tid),
    {
        skv_get(self.token_metadata_by_id@, tid)
    }

    /// The token owner index lists `tid` under `owner`.
    pub open spec fn owns_token(self, owner: Seq<char>, tid: Seq<char>) -> bool {
        &&& skv_has(self.tokens_per_owner@, owner)
        &&& sid_has(skv_get(self.tokens_per_owner@, owner)@, tid)
    }

    /// The fundraiser owner index lists `id` under `owner`.
    pub open spec fn owner_has_fundraiser(self, owner: Seq<char>, id: FundraiserId) -> bool {
        &&& skv_has(self.fundraiser_per_owner@, owner)
        &&& skv_get(self.fundraiser_per_owner@, owner)@.contains(id)
    }

    /// The amounts `donor` has donated to fundraiser `fid`, in order and
    /// with multiplicity; empty when no donation was recorded.
    pub open spec fn donations_of(self, fid: FundraiserId, donor: Seq<char>) -> Seq<u128> {
        if nkv_has(self.fundraisers_donations@, fid) {
            let per_donor = nkv_get(self.fundraisers_donations@, fid);
            if skv_has(per_donor@, donor) {
                skv_get(per_donor@, donor)@
            } else {
                Seq::empty()
            }
        } else {
            Seq::empty()
        }
    }

    // ------------------------------------------------------------------
    // well-formedness: the invariant every operation preserves
    // ------------------------------------------------------------------

    /// Fundraiser ids are stored in strictly ascending (creation) order.
    pub open spec fn fundraisers_ascending(self) -> bool {
        forall|i: int, j: int|
            #![trigger self.fundraisers_by_id@[i].0, self.fundraisers_by_id@[j].0]
            0 <= i < j < self.fundraisers_by_id@.len()
                ==> self.fundraisers_by_id@[i].0 < self.fundraisers_by_id@[j].0
    }

    /// Every allocated fundraiser id lies in `1 ..= fundraiser_counter`.
    pub open spec fn fundraiser_ids_bounded(self) -> bool {
        forall|i: int|
            0 <= i < self.fundraisers_by_id@.len()
                ==> 1 <= #[trigger] self.fundraisers_by_id@[i].0 <= self.fundraiser_counter
    }

    /// Token and metadata rows exist for exactly the same ids.
    pub open spec fn tokens_match_metadata(self) -> bool {
        &&& forall|i: int|
            0 <= i < self.tokens_by_id@.len()
                ==> skv_has(self.token_metadata_by_id@, #[trigger] self.tokens_by_id@[i].0@)
        &&& forall|i: int|
            0 <= i < self.token_metadata_by_id@.len()
                ==> skv_has(self.tokens_by_id@, #[trigger] self.token_metadata_by_id@[i].0@)
    }

    /// Every fundraiser's paired token row exists.
    pub open spec fn fundraisers_have_tokens(self) -> bool {
        forall|i: int|
            0 <= i < self.fundraisers_by_id@.len()
                ==> skv_has(
                    self.tokens_by_id@,
                    dec_str_of((#[trigger] self.fundraisers_by_id@[i].0) as nat),
                )
    }

    /// Every token's approval table is well-formed.
    pub open spec fn tokens_wf(self) -> bool {
        forall|i: int|
            0 <= i < self.tokens_by_id@.len() ==> (#[trigger] self.tokens_by_id@[i].1).wf()
    }

    /// The fundraiser owner index is a map to duplicate-free id sets, and
    /// every listed id has a fundraiser row.
    pub open spec fn fundraiser_index_wf(self) -> bool {
        &&& skv_unique(self.fundraiser_per_owner@)
        &&& forall|i: int|
            0 <= i < self.fundraiser_per_owner@.len()
                ==> nid_unique(#[trigger] self.fundraiser_per_owner@[i].1@)
        &&& forall|i: int, a: int|
            #![trigger self.fundraiser_per_owner@[i].1@[a]]
            0 <= i < self.fundraiser_per_owner@.len() && 0 <= a
                < self.fundraiser_per_owner@[i].1@.len() ==> nkv_has(
                self.fundraisers_by_id@,
                self.fundraiser_per_owner@[i].1@[a],
            )
    }

    /// The token owner index is a map to duplicate-free id sets, and every
    /// listed id has a token row whose owner is that very account.
    pub open spec fn token_index_wf(self) -> bool {
        &&& skv_unique(self.tokens_per_owner@)
        &&& forall|i: int|
            0 <= i < self.tokens_per_owner@.len()
                ==> sid_unique(#[trigger] self.tokens_per_owner@[i].1@)
        &&& forall|i: int, a: int|
            #![trigger self.tokens_per_owner@[i].1@[a]]
            0 <= i < self.tokens_per_owner@.len() && 0 <= a < self.tokens_per_owner@[i].1@.len()
                ==> skv_has(self.tokens_by_id@, self.tokens_per_owner@[i].1@[a]@) && skv_get(
                self.tokens_by_id@,
                self.tokens_per_owner@[i].1@[a]@,
            ).owner_id@ == self.tokens_per_owner@[i].0@
    }

    /// The donation ledger is keyed uniquely at both levels.
    pub open spec fn donations_wf(self) -> bool {
        &&& nkv_unique(self.fundraisers_donations@)
        &&& forall|i: int|
            0 <= i < self.fundraisers_donations@.len()
                ==> skv_unique(#[trigger] self.fundraisers_donations@[i].1@)
    }

    /// The well-formedness of the whole state: all tables keyed uniquely,
    /// ids within the counter, and the entity tables and indexes mutually
    /// consistent.
    pub open spec fn wf(self) -> bool {
        &&& nkv_unique(self.fundraisers_by_id@)
        &&& self.fundraisers_ascending()
        &&& self.fundraiser_ids_bounded()
        &&& skv_unique(self.tokens_by_id@)
        &&& skv_unique(self.token_metadata_by_id@)
        &&& self.tokens_match_metadata()
        &&& self.fundraisers_have_tokens()
        &&& self.tokens_wf()
        &&& self.fundraiser_index_wf()
        &&& self.token_index_wf()
        &&& self.donations_wf()
    }

    /// The composite read view of fundraiser `id` can be produced: its row,
    /// its paired token and that token's metadata all exist.
    pub open spec fn fundraiser_viewable(self, id: FundraiserId) -> bool {
        &&& self.has_fundraiser(id)
        &&& self.has_token(dec_str_of(id as nat))
        &&& self.has_token_metadata(dec_str_of(id as nat))
    }

    /// `j` is the composite read view of fundraiser `id` in this state.
    pub open spec fn is_fundraiser_view(self, id: FundraiserId, j: JsonFundraiser) -> bool {
        &&& j.fundraiser_id == id
        &&& j.token_id@ == dec_str_of(id as nat)
        &&& j.fundraiser == self.fundraiser_at(id)
        &&& token_eq(j.token, self.token_at(dec_str_of(id as nat)))
        &&& md_eq(j.token_metadata, self.token_metadata_at(dec_str_of(id as nat)))
    }

    /// The effect of a successful mint of `token_id` to `receiver_id`: the
    /// token row exists with empty approvals and a zeroed approval counter,
    /// its metadata row is stored, the receiver's owner-index set gains the
    /// id, and nothing else changes.
    pub open spec fn mint_post(
        self,
        pre: Contract,
        token_id: TokenId,
        receiver_id: AccountId,
        metadata: TokenMetadata,
    ) -> bool {
        let tid = token_id@;
        &&& self.has_token(tid)
        &&& self.token_at(tid).owner_id == receiver_id
        &&& self.token_at(tid).approved_accounts_ids@.len() == 0
        &&& self.token_at(tid).next_approval_id == 0
        &&& forall|t: Seq<char>| t != tid ==> #[trigger] self.has_token(t) == pre.has_token(t)
        &&& forall|t: Seq<char>|
            t != tid && pre.has_token(t) ==> #[trigger] self.token_at(t) == pre.token_at(t)
        &&& self.has_token_metadata(tid)
        &&& self.token_metadata_at(tid) == metadata
        &&& forall|t: Seq<char>|
            t != tid ==> #[trigger] self.has_token_metadata(t) == pre.has_token_metadata(t)
        &&& forall|t: Seq<char>|
            t != tid && pre.has_token_metadata(t) ==> #[trigger] self.token_metadata_at(t)
                == pre.token_metadata_at(t)
        &&& self.owns_token(receiver_id@, tid)
        &&& forall|o: Seq<char>, t: Seq<char>|
            !(o == receiver_id@ && t == tid) ==> #[trigger] self.owns_token(o, t)
                == pre.owns_token(o, t)
        &&& self.fundraisers_by_id == pre.fundraisers_by_id
        &&& self.fundraiser_per_owner == pre.fundraiser_per_owner
        &&& self.fundraisers_donations == pre.fundraisers_donations
        &&& self.fundraiser_counter == pre.fundraiser_counter
        &&& self.owner_id == pre.owner_id
        &&& self.metadata == pre.metadata
    }

    /// Which error, if any, a fundraiser creation is rejected with: a
    /// malformed title or description, else a squatted paired token id.
    pub open spec fn add_fundraiser_error(self, title: Seq<char>, description: Seq<char>) -> Option<
        ContractError,
    > {
        if title.len() == 0 || title.len() > 1000 || description.len() > 2000 {
            Some(ContractError::ValidationError)
        } else if self.has_token(dec_str_of((self.fundraiser_counter + 1) as nat)) {
            Some(ContractError::AlreadyExistsError)
        } else {
            None
        }
    }

    /// The effect of a successful fundraiser creation by `owner_id`: the id
    /// counter advances by one, the new row is appended under the new id,
    /// its paired token is minted to the owner with its metadata, both
    /// owner-index sets gain the new ids, and nothing else changes.
    pub open spec fn add_fundraiser_post(
        self,
        pre: Contract,
        owner_id: AccountId,
        title: String,
        description: String,
        status: FundraiserStatus,
        metadata: TokenMetadata,
    ) -> bool {
        let id = (pre.fundraiser_counter + 1) as u32;
        let tid = dec_str_of(id as nat);
        let row = Fundraiser { owner_id, title, description, status };
        &&& self.fundraiser_counter == pre.fundraiser_counter + 1
        &&& self.fundraisers_by_id@.len() == pre.fundraisers_by_id@.len() + 1
        &&& self.has_fundraiser(id)
        &&& self.fundraiser_at(id) == row
        &&& forall|k: u32| k != id ==> (#[trigger] self.has_fundraiser(k)) == pre.has_fundraiser(k)
        &&& forall|k: u32|
            k != id && pre.has_fundraiser(k) ==> (#[trigger] self.fundraiser_at(k))
                == pre.fundraiser_at(k)
        &&& self.has_token(tid)
        &&& self.token_at(tid).owner_id == owner_id
        &&& self.token_at(tid).approved_accounts_ids@.len() == 0
        &&& self.token_at(tid).next_approval_id == 0
        &&& forall|t: Seq<char>| t != tid ==> (#[trigger] self.has_token(t)) == pre.has_token(t)
        &&& forall|t: Seq<char>|
            t != tid && pre.has_token(t) ==> (#[trigger] self.token_at(t)) == pre.token_at(t)
        &&& self.has_token_metadata(tid)
        &&& self.token_metadata_at(tid) == metadata
        &&& self.owner_has_fundraiser(owner_id@, id)
        &&& self.owns_token(owner_id@, tid)
        &&& forall|o: Seq<char>, k: u32|
            !(o == owner_id@ && k == id) ==> (#[trigger] self.owner_has_fundraiser(o, k))
                == pre.owner_has_fundraiser(o, k)
        &&& forall|o: Seq<char>, t: Seq<char>|
            !(o == owner_id@ && t == tid) ==> (#[trigger] self.owns_token(o, t)) == pre.owns_token(
                o,
                t,
            )
        &&& self.fundraisers_donations == pre.fundraisers_donations
        &&& self.owner_id == pre.owner_id
        &&& self.metadata == pre.metadata
        &&& self.fundraiser_viewable(id)
    }

    // ------------------------------------------------------------------
    // initialization
    // ------------------------------------------------------------------

    /// A fresh contract: no fundraisers, no tokens, no donations, the id
    /// counter at zero.
    pub fn new(owner_id: AccountId, metadata: NFTContractMetadata) -> (r: Contract)
        ensures
            r.owner_id == owner_id,
            r.metadata == metadata,
            r.fundraiser_counter == 0,
            r.fundraisers_by_id@.len() == 0,
            r.tokens_by_id@.len() == 0,
            r.token_metadata_by_id@.len() == 0,
            r.fundraiser_per_owner@.len() == 0,
            r.tokens_per_owner@.len() == 0,
            r.fundraisers_donations@.len() == 0,
            r.wf(),
    {
        Contract {
            owner_id,
            metadata,
            fundraiser_per_owner: Vec::new(),
            fundraisers_by_id: Vec::new(),
            fundraisers_donations: Vec::new(),
            fundraiser_counter: 0,
            tokens_per_owner: Vec::new(),
            tokens_by_id: Vec::new(),
            token_metadata_by_id: Vec::new(),
        }
    }

    /// A fresh contract carrying the default contract metadata.
    pub fn new_default_meta(owner_id: AccountId) -> (r: Contract)
        ensures
            r.owner_id == owner_id,
            r.fundraiser_counter == 0,
            r.fundraisers_by_id@.len() == 0,
            r.tokens_by_id@.len() == 0,
            r.token_metadata_by_id@.len() == 0,
            r.fundraiser_per_owner@.len() == 0,
            r.tokens_per_owner@.len() == 0,
            r.fundraisers_donations@.len() == 0,
            r.wf(),
            r.metadata.spec@ == "u_fundraisers_1.0.0"@,
            r.metadata.name@ == "u_fundraisers"@,
            r.metadata.symbol@ == "Ukraine Fundraisers"@,
            r.metadata.icon is None,
            r.metadata.base_uri is None,
            r.metadata.reference is None,
            r.metadata.reference_hash is None,
    {
        Contract::new(
            owner_id,
            NFTContractMetadata {
                spec: String::from_str("u_fundraisers_1.0.0"),
                name: String::from_str("u_fundraisers"),
                symbol: String::from_str("Ukraine Fundraisers"),
                icon: Option::None,
                base_uri: Option::None,
                reference: Option::None,
                reference_hash: Option::None,
            },
        )
    }

    /// Adds `token_id` to `receiver_id`'s set in the token owner index,
    /// creating the set on first use.
    fn add_token_to_owner_index(&mut self, receiver_id: AccountId, token_id: TokenId)
        requires
            skv_unique(old(self).tokens_per_owner@),
            forall|i: int|
                0 <= i < old(self).tokens_per_owner@.len() ==> sid_unique(
                    #[trigger] old(self).tokens_per_owner@[i].1@,
                ),
            forall|i: int|
                0 <= i < old(self).tokens_per_owner@.len() ==> !sid_has(
                    #[trigger] old(self).tokens_per_owner@[i].1@,
                    token_id@,
                ),
        ensures
            final(self).owner_id == old(self).owner_id,
            final(self).metadata == old(self).metadata,
            final(self).fundraiser_per_owner == old(self).fundraiser_per_owner,
            final(self).fundraisers_by_id == old(self).fundraisers_by_id,
            final(self).fundraisers_donations == old(self).fundraisers_donations,
            final(self).fundraiser_counter == old(self).fundraiser_counter,
            final(self).tokens_by_id == old(self).tokens_by_id,
            final(self).token_metadata_by_id == old(self).token_metadata_by_id,
            skv_unique(final(self).tokens_per_owner@),
            forall|i: int|
                0 <= i < final(self).tokens_per_owner@.len() ==> sid_unique(
                    #[trigger] final(self).tokens_per_owner@[i].1@,
                ),
            final(self).owns_token(receiver_id@, token_id@),
            forall|o: Seq<char>, t: Seq<char>|
                !(o == receiver_id@ && t == token_id@) ==> #[trigger] final(self).owns_token(o, t)
                    == old(self).owns_token(o, t),
            forall|i: int, a: int|
                #![trigger final(self).tokens_per_owner@[i].1@[a]]
                0 <= i < final(self).tokens_per_owner@.len() && 0 <= a
                    < final(self).tokens_per_owner@[i].1@.len() ==> old(self).owns_token(
                    final(self).tokens_per_owner@[i].0@,
                    final(self).tokens_per_owner@[i].1@[a]@,
                ) || (final(self).tokens_per_owner@[i].0@ == receiver_id@
                    && final(self).tokens_per_owner@[i].1@[a]@ == token_id@),
    {
        let ghost pre_tpo = self.tokens_per_owner@;
        let idx = find_account_tokens(&self.tokens_per_owner, &receiver_id);
        match idx {
            Some(i) => {
                proof {
                    skv_index_at(pre_tpo, receiver_id@, i as int);
                }
                let ghost g_tid: TokenId = token_id;
                self.tokens_per_owner[i].1.push(token_id);
                proof {
                    let new_list = self.tokens_per_owner@[i as int].1;
                    assert(new_list@ == pre_tpo[i as int].1@.push(g_tid));
                    assert(self.tokens_per_owner@ == pre_tpo.update(
                        i as int,
                        (pre_tpo[i as int].0, new_list),
                    ));
                    sid_push(pre_tpo[i as int].1@, g_tid, g_tid@);
                    skv_update(pre_tpo, i as int, receiver_id@, new_list);
                    assert forall|i2: int|
                        0 <= i2 < self.tokens_per_owner@.len() implies sid_unique(
                        #[trigger] self.tokens_per_owner@[i2].1@,
                    ) by {
                        if i2 != i as int {
                            assert(self.tokens_per_owner@[i2] == pre_tpo[i2]);
                        }
                    }
                    assert(self.owns_token(receiver_id@, token_id@));
                    assert forall|o: Seq<char>, t: Seq<char>|
                        !(o == receiver_id@ && t == token_id@) implies #[trigger] self.owns_token(
                        o,
                        t,
                    ) == old(self).owns_token(o, t) by {
                        if o == receiver_id@ {
                            assert(skv_get(self.tokens_per_owner@, o) == new_list);
                            assert(skv_get(pre_tpo, o) == pre_tpo[i as int].1);
                            assert(sid_has(new_list@, t) == sid_has(pre_tpo[i as int].1@, t));
                        }
                    }
                    assert forall|i2: int, a: int|
                        #![trigger self.tokens_per_owner@[i2].1@[a]]
                        0 <= i2 < self.tokens_per_owner@.len() && 0 <= a
                            < self.tokens_per_owner@[i2].1@.len() implies old(self).owns_token(
                        self.tokens_per_owner@[i2].0@,
                        self.tokens_per_owner@[i2].1@[a]@,
                    ) || (self.tokens_per_owner@[i2].0@ == receiver_id@
                        && self.tokens_per_owner@[i2].1@[a]@ == token_id@) by {
                        if i2 != i as int {
                            assert(self.tokens_per_owner@[i2] == pre_tpo[i2]);
                            skv_index_at(pre_tpo, pre_tpo[i2].0@, i2);
                        } else {
                            let o = self.tokens_per_owner@[i2].0@;
                            assert(o == receiver_id@);
                            if a < pre_tpo[i as int].1@.len() {
                                assert(self.tokens_per_owner@[i2].1@[a] == pre_tpo[i as
                                    int].1@[a]);
                                assert(sid_has(
                                    pre_tpo[i as int].1@,
                                    pre_tpo[i as int].1@[a]@,
                                ));
                            } else {
                                assert(self.tokens_per_owner@[i2].1@[a] == g_tid);
                            }
                        }
                    }
                }
            },
            None => {
                let mut ids: Vec<TokenId> = Vec::new();
                let ghost g_tid: TokenId = token_id;
                ids.push(token_id);
                let ghost g_ids: Vec<TokenId> = ids;
                let ghost g_receiver: AccountId = receiver_id;
                self.tokens_per_owner.push((receiver_id, ids));
                proof {
                    assert(g_ids@ =~= Seq::empty().push(g_tid));
                    assert(self.tokens_per_owner@ == pre_tpo.push((g_receiver, g_ids)));
                    skv_push(pre_tpo, g_receiver, g_receiver@, g_ids);
                    assert forall|i2: int|
                        0 <= i2 < self.tokens_per_owner@.len() implies sid_unique(
                        #[trigger] self.tokens_per_owner@[i2].1@,
                    ) by {
                        if i2 < pre_tpo.len() {
                            assert(self.tokens_per_owner@[i2] == pre_tpo[i2]);
                        } else {
                            assert(self.tokens_per_owner@[i2].1 == g_ids);
                        }
                    }
                    assert(g_ids@[0] == g_tid);
                    assert(sid_has(g_ids@, g_tid@));
                    assert(self.owns_token(receiver_id@, token_id@));
                    assert forall|o: Seq<char>, t: Seq<char>|
                        !(o == g_receiver@ && t == g_tid@) implies #[trigger] self.owns_token(
                        o,
                        t,
                    ) == old(self).owns_token(o, t) by {
                        if o == g_receiver@ {
                            assert(!skv_has(pre_tpo, o));
                            assert(skv_get(self.tokens_per_owner@, o) == g_ids);
                            if sid_has(g_ids@, t) {
                                let b = crate::keyed::sid_index(g_ids@, t);
                                assert(g_ids@[b] == g_tid);
                            }
                        }
                    }
                    assert forall|i2: int, a: int|
                        #![trigger self.tokens_per_owner@[i2].1@[a]]
                        0 <= i2 < self.tokens_per_owner@.len() && 0 <= a
                            < self.tokens_per_owner@[i2].1@.len() implies old(self).owns_token(
                        self.tokens_per_owner@[i2].0@,
                        self.tokens_per_owner@[i2].1@[a]@,
                    ) || (self.tokens_per_owner@[i2].0@ == g_receiver@
                        && self.tokens_per_owner@[i2].1@[a]@ == g_tid@) by {
                        if i2 < pre_tpo.len() {
                            assert(self.tokens_per_owner@[i2] == pre_tpo[i2]);
                            skv_index_at(pre_tpo, pre_tpo[i2].0@, i2);
                        } else {
                            assert(self.tokens_per_owner@[i2].1@[a] == g_tid);
                        }
                    }
                }
            },
        }
    }

    // ------------------------------------------------------------------
    // lookups into the tables
    // ------------------------------------------------------------------

    fn find_fundraiser(&self, id: FundraiserId) -> (r: Option<usize>)
        ensures
            match r {
                Some(i) => i < self.fundraisers_by_id@.len() && self.fundraisers_by_id@[i as int].0
                    == id,
                None => !self.has_fundraiser(id),
            },
    {
        let mut i: usize = 0;
        while i < self.fundraisers_by_id.len()
            invariant
                i <= self.fundraisers_by_id@.len(),
                forall|j: int| 0 <= j < i ==> (#[trigger] self.fundraisers_by_id@[j].0) != id,
            decreases self.fundraisers_by_id@.len() - i,
        {
            if self.fundraisers_by_id[i].0 == id {
                return Some(i);
            }
            i += 1;
        }
        None
    }

    fn find_token(&self, tid: &TokenId) -> (r: Option<usize>)
        ensures
            match r {
                Some(i) => i < self.tokens_by_id@.len() && self.tokens_by_id@[i as int].0@ == tid@,
                None => !self.has_token(tid@),
            },
    {
        let mut i: usize = 0;
        while i < self.tokens_by_id.len()
            invariant
                i <= self.tokens_by_id@.len(),
                forall|j: int| 0 <= j < i ==> (#[trigger] self.tokens_by_id@[j].0)@ != tid@,
            decreases self.tokens_by_id@.len() - i,
        {
            if self.tokens_by_id[i].0 == *tid {
                return Some(i);
            }
            i += 1;
        }
        None
    }

    fn find_token_metadata(&self, tid: &TokenId) -> (r: Option<usize>)
        ensures
            match r {
                Some(i) => i < self.token_metadata_by_id@.len()
                    && self.token_metadata_by_id@[i as int].0@ == tid@,
                None => !self.has_token_metadata(tid@),
            },
    {
        let mut i: usize = 0;
        while i < self.token_metadata_by_id.len()
            invariant
                i <= self.token_metadata_by_id@.len(),
                forall|j: int| 0 <= j < i ==> (#[trigger] self.token_metadata_by_id@[j].0)@ != tid@,
            decreases self.token_metadata_by_id@.len() - i,
        {
            if self.token_metadata_by_id[i].0 == *tid {
                return Some(i);
            }
            i += 1;
        }
        None
    }

    /// Adds `id` to `owner_id`'s set in the fundraiser owner index,
    /// creating the set on first use.
    fn add_fundraiser_to_owner_index(&mut self, owner_id: AccountId, id: FundraiserId)
        requires
            skv_unique(old(self).fundraiser_per_owner@),
            forall|i: int|
                0 <= i < old(self).fundraiser_per_owner@.len() ==> nid_unique(
                    #[trigger] old(self).fundraiser_per_owner@[i].1@,
                ),
            forall|i: int|
                0 <= i < old(self).fundraiser_per_owner@.len() ==> !(
                #[trigger] old(self).fundraiser_per_owner@[i].1@).contains(id),
        ensures
            final(self).owner_id == old(self).owner_id,
            final(self).metadata == old(self).metadata,
            final(self).tokens_per_owner == old(self).tokens_per_owner,
            final(self).fundraisers_by_id == old(self).fundraisers_by_id,
            final(self).fundraisers_donations == old(self).fundraisers_donations,
            final(self).fundraiser_counter == old(self).fundraiser_counter,
            final(self).tokens_by_id == old(self).tokens_by_id,
            final(self).token_metadata_by_id == old(self).token_metadata_by_id,
            skv_unique(final(self).fundraiser_per_owner@),
            forall|i: int|
                0 <= i < final(self).fundraiser_per_owner@.len() ==> nid_unique(
                    #[trigger] final(self).fundraiser_per_owner@[i].1@,
                ),
            final(self).owner_has_fundraiser(owner_id@, id),
            forall|o: Seq<char>, k: u32|
                !(o == owner_id@ && k == id) ==> #[trigger] final(self).owner_has_fundraiser(o, k)
                    == old(self).owner_has_fundraiser(o, k),
            forall|i: int, a: int|
                #![trigger final(self).fundraiser_per_owner@[i].1@[a]]
                0 <= i < final(self).fundraiser_per_owner@.len() && 0 <= a
                    < final(self).fundraiser_per_owner@[i].1@.len() ==> old(
                    self,
                ).owner_has_fundraiser(
                    final(self).fundraiser_per_owner@[i].0@,
                    final(self).fundraiser_per_owner@[i].1@[a],
                ) || (final(self).fundraiser_per_owner@[i].0@ == owner_id@
                    && final(self).fundraiser_per_owner@[i].1@[a] == id),
    {
        let ghost pre_fpo = self.fundraiser_per_owner@;
        let idx = find_account_fundraisers(&self.fundraiser_per_owner, &owner_id);
        match idx {
            Some(i) => {
                proof {
                    skv_index_at(pre_fpo, owner_id@, i as int);
                }
                self.fundraiser_per_owner[i].1.push(id);
                proof {
                    let new_list = self.fundraiser_per_owner@[i as int].1;
                    assert(new_list@ == pre_fpo[i as int].1@.push(id));
                    assert(self.fundraiser_per_owner@ == pre_fpo.update(
                        i as int,
                        (pre_fpo[i as int].0, new_list),
                    ));
                    nid_push(pre_fpo[i as int].1@, id);
                    skv_update(pre_fpo, i as int, owner_id@, new_list);
                    assert forall|i2: int|
                        0 <= i2 < self.fundraiser_per_owner@.len() implies nid_unique(
                        #[trigger] self.fundraiser_per_owner@[i2].1@,
                    ) by {
                        if i2 != i as int {
                            assert(self.fundraiser_per_owner@[i2] == pre_fpo[i2]);
                        }
                    }
                    assert(new_list@.contains(id));
                    assert(self.owner_has_fundraiser(owner_id@, id));
                    assert forall|o: Seq<char>, k: u32|
                        !(o == owner_id@ && k == id) implies #[trigger] self.owner_has_fundraiser(
                        o,
                        k,
                    ) == old(self).owner_has_fundraiser(o, k) by {
                        if o == owner_id@ {
                            assert(skv_get(self.fundraiser_per_owner@, o) == new_list);
                            assert(skv_get(pre_fpo, o) == pre_fpo[i as int].1);
                            assert(new_list@.contains(k) == pre_fpo[i as int].1@.contains(k));
                        }
                    }
                    assert forall|i2: int, a: int|
                        #![trigger self.fundraiser_per_owner@[i2].1@[a]]
                        0 <= i2 < self.fundraiser_per_owner@.len() && 0 <= a
                            < self.fundraiser_per_owner@[i2].1@.len() implies old(
                        self,
                    ).owner_has_fundraiser(
                        self.fundraiser_per_owner@[i2].0@,
                        self.fundraiser_per_owner@[i2].1@[a],
                    ) || (self.fundraiser_per_owner@[i2].0@ == owner_id@
                        && self.fundraiser_per_owner@[i2].1@[a] == id) by {
                        if i2 != i as int {
                            assert(self.fundraiser_per_owner@[i2] == pre_fpo[i2]);
                            skv_index_at(pre_fpo, pre_fpo[i2].0@, i2);
                            assert(pre_fpo[i2].1@.contains(pre_fpo[i2].1@[a]));
                        } else {
                            if a < pre_fpo[i as int].1@.len() {
                                assert(self.fundraiser_per_owner@[i2].1@[a] == pre_fpo[i as
                                    int].1@[a]);
                                assert(pre_fpo[i as int].1@.contains(pre_fpo[i as int].1@[a]));
                            } else {
                                assert(self.fundraiser_per_owner@[i2].1@[a] == id);
                            }
                        }
                    }
                }
            },
            None => {
                let mut ids: Vec<FundraiserId> = Vec::new();
                ids.push(id);
                let ghost g_ids: Vec<FundraiserId> = ids;
                let ghost g_owner: AccountId = owner_id;
                self.fundraiser_per_owner.push((owner_id, ids));
                proof {
                    assert(g_ids@ =~= Seq::empty().push(id));
                    assert(self.fundraiser_per_owner@ == pre_fpo.push((g_owner, g_ids)));
                    skv_push(pre_fpo, g_owner, g_owner@, g_ids);
                    assert forall|i2: int|
                        0 <= i2 < self.fundraiser_per_owner@.len() implies nid_unique(
                        #[trigger] self.fundraiser_per_owner@[i2].1@,
                    ) by {
                        if i2 < pre_fpo.len() {
                            assert(self.fundraiser_per_owner@[i2] == pre_fpo[i2]);
                        } else {
                            assert(self.fundraiser_per_owner@[i2].1 == g_ids);
                        }
                    }
                    assert(g_ids@[0] == id);
                    assert(g_ids@.contains(id));
                    assert(self.owner_has_fundraiser(owner_id@, id));
                    assert forall|o: Seq<char>, k: u32|
                        !(o == g_owner@ && k == id) implies #[trigger] self.owner_has_fundraiser(
                        o,
                        k,
                    ) == old(self).owner_has_fundraiser(o, k) by {
                        if o == g_owner@ {
                            assert(!skv_has(pre_fpo, o));
                            assert(skv_get(self.fundraiser_per_owner@, o) == g_ids);
                            if g_ids@.contains(k) {
                                let b = choose|b: int| 0 <= b < g_ids@.len() && g_ids@[b] == k;
                                assert(g_ids@[b] == id);
                            }
                        }
                    }
                    assert forall|i2: int, a: int|
                        #![trigger self.fundraiser_per_owner@[i2].1@[a]]
                        0 <= i2 < self.fundraiser_per_owner@.len() && 0 <= a
                            < self.fundraiser_per_owner@[i2].1@.len() implies old(
                        self,
                    ).owner_has_fundraiser(
                        self.fundraiser_per_owner@[i2].0@,
                        self.fundraiser_per_owner@[i2].1@[a],
                    ) || (self.fundraiser_per_owner@[i2].0@ == g_owner@
                        && self.fundraiser_per_owner@[i2].1@[a] == id) by {
                        if i2 < pre_fpo.len() {
                            assert(self.fundraiser_per_owner@[i2] == pre_fpo[i2]);
                            skv_index_at(pre_fpo, pre_fpo[i2].0@, i2);
                            assert(pre_fpo[i2].1@.contains(pre_fpo[i2].1@[a]));
                        } else {
                            assert(self.fundraiser_per_owner@[i2].1@[a] == id);
                        }
                    }
                }
            },
        }
    }

    // ------------------------------------------------------------------
    // minting
    // ------------------------------------------------------------------

    /// Mints a fresh token owned by `receiver_id`, with empty approvals and
    /// its approval-id counter at zero; rejected when the id is taken.
    pub fn nft_mint(
        &mut self,
        token_id: TokenId,
        receiver_id: AccountId,
        token_metadata: TokenMetadata,
    ) -> (r: Result<Token, ContractError>)
        requires
            old(self).wf(),
        ensures
            final(self).wf(),
            match r {
                Ok(t) => !old(self).has_token(token_id@) && final(self).mint_post(
                    *old(self),
                    token_id,
                    receiver_id,
                    token_metadata,
                ) && token_eq(t, final(self).token_at(token_id@)),
                Err(e) => old(self).has_token(token_id@) && e
                    == ContractError::AlreadyExistsError && *final(self) == *old(self),
            },
            r is Err <==> old(self).has_token(token_id@),
    {
        match self.find_token(&token_id) {
            Some(i) => {
                proof {
                    assert(self.has_token(token_id@));
                }
                return Err(ContractError::AlreadyExistsError);
            },
            None => {},
        }
        let ghost pre = *self;
        let token = Token {
            owner_id: receiver_id.clone(),
            approved_accounts_ids: Vec::new(),
            next_approval_id: 0,
        };
        let minted = token.clone();
        let ghost g_token = token;
        self.tokens_by_id.push((token_id.clone(), token));
        proof {
            assert(self.tokens_by_id@ =~= pre.tokens_by_id@.push((token_id, g_token)));
            skv_push(pre.tokens_by_id@, token_id, token_id@, g_token);
        }
        let ghost g_metadata = token_metadata;
        self.token_metadata_by_id.push((token_id.clone(), token_metadata));
        proof {
            assert(self.token_metadata_by_id@ =~= pre.token_metadata_by_id@.push(
                (token_id, g_metadata),
            ));
            if skv_has(pre.token_metadata_by_id@, token_id@) {
                let j = skv_index(pre.token_metadata_by_id@, token_id@);
                assert(skv_has(pre.tokens_by_id@, pre.token_metadata_by_id@[j].0@));
            }
            skv_push(pre.token_metadata_by_id@, token_id, token_id@, g_metadata);
            // the new id is listed in no owner's set yet
            assert forall|i: int| 0 <= i < self.tokens_per_owner@.len() implies !sid_has(
                #[trigger] self.tokens_per_owner@[i].1@,
                token_id@,
            ) by {
                if sid_has(self.tokens_per_owner@[i].1@, token_id@) {
                    let a = crate::keyed::sid_index(self.tokens_per_owner@[i].1@, token_id@);
                    assert(skv_has(pre.tokens_by_id@, self.tokens_per_owner@[i].1@[a]@));
                }
            }
        }
        let ghost g_receiver: AccountId = receiver_id;
        let ghost g_tid: Seq<char> = token_id@;
        self.add_token_to_owner_index(receiver_id, token_id);
        proof {
            self.lemma_mint_shape(pre, g_tid, g_token, g_metadata, g_receiver@);
        }
        Ok(minted)
    }

    /// After the three table writes of a mint, the state is well-formed
    /// again and every table other than the three written ones reads as
    /// before.
    proof fn lemma_mint_shape(
        self,
        pre: Contract,
        tid: Seq<char>,
        token: Token,
        metadata: TokenMetadata,
        receiver: Seq<char>,
    )
        requires
            pre.wf(),
            !pre.has_token(tid),
            token.owner_id@ == receiver,
            token.approved_accounts_ids@.len() == 0,
            token.next_approval_id == 0,
            // the two entity-table writes
            self.tokens_by_id@.len() == pre.tokens_by_id@.len() + 1,
            self.tokens_by_id@ == pre.tokens_by_id@.push(
                (self.tokens_by_id@.last().0, token),
            ),
            self.tokens_by_id@.last().0@ == tid,
            self.token_metadata_by_id@.len() == pre.token_metadata_by_id@.len() + 1,
            self.token_metadata_by_id@ == pre.token_metadata_by_id@.push(
                (self.token_metadata_by_id@.last().0, metadata),
            ),
            self.token_metadata_by_id@.last().0@ == tid,
            // what the owner-index write guarantees
            skv_unique(self.tokens_per_owner@),
            forall|i: int|
                0 <= i < self.tokens_per_owner@.len() ==> sid_unique(
                    #[trigger] self.tokens_per_owner@[i].1@,
                ),
            self.owns_token(receiver, tid),
            forall|o: Seq<char>, t: Seq<char>|
                !(o == receiver && t == tid) ==> #[trigger] self.owns_token(o, t)
                    == pre.owns_token(o, t),
            forall|i: int, a: int|
                #![trigger self.tokens_per_owner@[i].1@[a]]
                0 <= i < self.tokens_per_owner@.len() && 0 <= a
                    < self.tokens_per_owner@[i].1@.len() ==> pre.owns_token(
                    self.tokens_per_owner@[i].0@,
                    self.tokens_per_owner@[i].1@[a]@,
                ) || (self.tokens_per_owner@[i].0@ == receiver
                    && self.tokens_per_owner@[i].1@[a]@ == tid),
            // the untouched tables
            self.fundraisers_by_id == pre.fundraisers_by_id,
            self.fundraiser_per_owner == pre.fundraiser_per_owner,
            self.fundraisers_donations == pre.fundraisers_donations,
            self.fundraiser_counter == pre.fundraiser_counter,
        ensures
            self.wf(),
            self.has_token(tid),
            self.token_at(tid) == token,
            forall|t: Seq<char>| t != tid ==> #[trigger] self.has_token(t) == pre.has_token(t),
            forall|t: Seq<char>|
                t != tid && pre.has_token(t) ==> #[trigger] self.token_at(t) == pre.token_at(t),
            self.has_token_metadata(tid),
            self.token_metadata_at(tid) == metadata,
            forall|t: Seq<char>|
                t != tid ==> #[trigger] self.has_token_metadata(t) == pre.has_token_metadata(t),
            forall|t: Seq<char>|
                t != tid && pre.has_token_metadata(t) ==> #[trigger] self.token_metadata_at(t)
                    == pre.token_metadata_at(t),
    {
        let key = self.tokens_by_id@.last().0;
        let mkey = self.token_metadata_by_id@.last().0;
        skv_push(pre.tokens_by_id@, key, tid, token);
        if skv_has(pre.token_metadata_by_id@, tid) {
            let j = skv_index(pre.token_metadata_by_id@, tid);
            assert(skv_has(pre.tokens_by_id@, pre.token_metadata_by_id@[j].0@));
        }
        skv_push(pre.token_metadata_by_id@, mkey, tid, metadata);
        // tokens and metadata still cover the same ids
        assert forall|i: int| 0 <= i < self.tokens_by_id@.len() implies skv_has(
            self.token_metadata_by_id@,
            #[trigger] self.tokens_by_id@[i].0@,
        ) by {
            if i < pre.tokens_by_id@.len() {
                let t = pre.tokens_by_id@[i].0@;
                assert(skv_has(pre.tokens_by_id@, t));
                assert(t != tid);
                assert(skv_has(pre.token_metadata_by_id@, t));
            }
        }
        assert forall|i: int| 0 <= i < self.token_metadata_by_id@.len() implies skv_has(
            self.tokens_by_id@,
            #[trigger] self.token_metadata_by_id@[i].0@,
        ) by {
            if i < pre.token_metadata_by_id@.len() {
                let t = pre.token_metadata_by_id@[i].0@;
                assert(skv_has(pre.token_metadata_by_id@, t));
                if t == tid {
                    assert(skv_has(pre.tokens_by_id@, pre.token_metadata_by_id@[i].0@));
                }
                assert(skv_has(pre.tokens_by_id@, t));
            }
        }
        // every fundraiser still has its paired token
        assert forall|i: int| 0 <= i < self.fundraisers_by_id@.len() implies skv_has(
            self.tokens_by_id@,
            dec_str_of((#[trigger] self.fundraisers_by_id@[i].0) as nat),
        ) by {
            let t = dec_str_of(self.fundraisers_by_id@[i].0 as nat);
            assert(skv_has(pre.tokens_by_id@, t));
            assert(t != tid);
        }
        // all approval tables are still well-formed
        assert forall|i: int| 0 <= i < self.tokens_by_id@.len() implies (
        #[trigger] self.tokens_by_id@[i].1).wf() by {
            if i < pre.tokens_by_id@.len() {
                assert(pre.tokens_by_id@[i].1.wf());
            } else {
                assert(self.tokens_by_id@[i].1 == token);
            }
        }
        // the token owner index still lists only existing tokens under
        // their actual owners
        assert forall|i: int, a: int|
            #![trigger self.tokens_per_owner@[i].1@[a]]
            0 <= i < self.tokens_per_owner@.len() && 0 <= a
                < self.tokens_per_owner@[i].1@.len() implies skv_has(
            self.tokens_by_id@,
            self.tokens_per_owner@[i].1@[a]@,
        ) && skv_get(self.tokens_by_id@, self.tokens_per_owner@[i].1@[a]@).owner_id@
            == self.tokens_per_owner@[i].0@ by {
            let o = self.tokens_per_owner@[i].0@;
            let t = self.tokens_per_owner@[i].1@[a]@;
            if o == receiver && t == tid {
                assert(skv_has(self.tokens_by_id@, tid));
                assert(skv_get(self.tokens_by_id@, tid) == token);
            } else {
                assert(pre.owns_token(o, t));
                let w = skv_index(pre.tokens_per_owner@, o);
                skv_index_at(pre.tokens_per_owner@, o, w);
                let b = crate::keyed::sid_index(pre.tokens_per_owner@[w].1@, t);
                assert(pre.tokens_per_owner@[w].1@[b]@ == t);
                assert(skv_has(pre.tokens_by_id@, t));
                assert(t != tid);
                assert(skv_get(pre.tokens_by_id@, t).owner_id@ == o);
            }
        }
    }

    // ------------------------------------------------------------------
    // creating fundraisers
    // ------------------------------------------------------------------

    /// Creates a fundraiser owned by `owner_id` together with its paired
    /// token and metadata, updating both owner indexes, all in one step.
    /// The title must be 1 to 1000 characters and the description at most
    /// 2000, else the call is rejected with a validation error before any
    /// change; the id counter advances by exactly one on success.
    pub fn add_new_fundraiser(
        &mut self,
        title: String,
        description: String,
        status: FundraiserStatus,
        token_metadata: TokenMetadata,
        owner_id: AccountId,
    ) -> (r: Result<(FundraiserId, TokenId), ContractError>)
        requires
            old(self).wf(),
            old(self).fundraiser_counter < u32::MAX,
        ensures
            final(self).wf(),
            match r {
                Ok(ids) => {
                    &&& old(self).add_fundraiser_error(title@, description@) is None
                    &&& ids.0 == old(self).fundraiser_counter + 1
                    &&& ids.1@ == dec_str_of(ids.0 as nat)
                    &&& final(self).add_fundraiser_post(
                        *old(self),
                        owner_id,
                        title,
                        description,
                        status,
                        token_metadata,
                    )
                },
                Err(e) => old(self).add_fundraiser_error(title@, description@) == Some(e)
                    && *final(self) == *old(self),
            },
            r is Err <==> old(self).add_fundraiser_error(title@, description@) is Some,
    {
        let title_len = title.as_str().unicode_len();
        if title_len == 0 || title_len > 1000 {
            return Err(ContractError::ValidationError);
        }
        let description_len = description.as_str().unicode_len();
        if description_len > 2000 {
            return Err(ContractError::ValidationError);
        }
        let ghost pre = *self;
        let id: FundraiserId = self.fundraiser_counter + 1;
        let token_id: TokenId = u32_to_decimal(id);
        let ghost g_tid: Seq<char> = token_id@;
        match self.nft_mint(token_id.clone(), owner_id.clone(), token_metadata) {
            Err(e) => {
                return Err(e);
            },
            Ok(_) => {},
        }
        let ghost mid = *self;
        self.fundraiser_counter = id;
        // the new id can be listed in no owner's set yet
        proof {
            assert forall|i: int| 0 <= i < self.fundraiser_per_owner@.len() implies !(
            #[trigger] self.fundraiser_per_owner@[i].1@).contains(id) by {
                assert(self.fundraiser_per_owner@ == pre.fundraiser_per_owner@);
                if pre.fundraiser_per_owner@[i].1@.contains(id) {
                    let a = choose|a: int|
                        0 <= a < pre.fundraiser_per_owner@[i].1@.len()
                            && pre.fundraiser_per_owner@[i].1@[a] == id;
                    assert(nkv_has(pre.fundraisers_by_id@, pre.fundraiser_per_owner@[i].1@[a]));
                    let w = nkv_index(pre.fundraisers_by_id@, id);
                    assert(pre.fundraisers_by_id@[w].0 <= pre.fundraiser_counter);
                }
            }
        }
        let ghost mid1 = *self;
        self.add_fundraiser_to_owner_index(owner_id.clone(), id);
        proof {
            // what the index write guarantees, read against the pre state
            assert forall|i: int, a: int|
                #![trigger self.fundraiser_per_owner@[i].1@[a]]
                0 <= i < self.fundraiser_per_owner@.len() && 0 <= a
                    < self.fundraiser_per_owner@[i].1@.len() implies pre.owner_has_fundraiser(
                self.fundraiser_per_owner@[i].0@,
                self.fundraiser_per_owner@[i].1@[a],
            ) || self.fundraiser_per_owner@[i].1@[a] == id by {
                let o = self.fundraiser_per_owner@[i].0@;
                let k = self.fundraiser_per_owner@[i].1@[a];
                if k != id {
                    assert(mid1.owner_has_fundraiser(o, k) || (o == owner_id@ && k == id));
                    assert(mid1.fundraiser_per_owner@ == pre.fundraiser_per_owner@);
                    assert(pre.owner_has_fundraiser(o, k) == mid1.owner_has_fundraiser(o, k));
                }
            }
        }
        let ghost mid2 = *self;
        let row = Fundraiser { owner_id, title, description, status };
        let ghost g_row: Fundraiser = row;
        proof {
            if nkv_has(pre.fundraisers_by_id@, id) {
                let w = nkv_index(pre.fundraisers_by_id@, id);
                assert(pre.fundraisers_by_id@[w].0 <= pre.fundraiser_counter);
            }
            nkv_push(pre.fundraisers_by_id@, id, g_row);
        }
        self.fundraisers_by_id.push((id, row));
        proof {
            assert(self.fundraisers_by_id@ =~= pre.fundraisers_by_id@.push((id, g_row)));
            self.lemma_add_fundraiser_shape(pre, mid, id, g_tid, g_row);
            // the pointwise readings that make up the creation's effect
            assert forall|t: Seq<char>| t != g_tid implies (#[trigger] self.has_token(t))
                == pre.has_token(t) by {
                assert(mid.has_token(t) == pre.has_token(t));
                assert(self.tokens_by_id@ == mid.tokens_by_id@);
            }
            assert forall|t: Seq<char>| t != g_tid && pre.has_token(t) implies (
            #[trigger] self.token_at(t)) == pre.token_at(t) by {
                assert(mid.token_at(t) == pre.token_at(t));
                assert(self.tokens_by_id@ == mid.tokens_by_id@);
            }
            assert forall|o: Seq<char>, t: Seq<char>| !(o == owner_id@ && t == g_tid) implies (
            #[trigger] self.owns_token(o, t)) == pre.owns_token(o, t) by {
                assert(mid.owns_token(o, t) == pre.owns_token(o, t));
                assert(self.tokens_per_owner@ == mid.tokens_per_owner@);
                assert(self.owns_token(o, t) == mid.owns_token(o, t));
            }
            assert forall|o: Seq<char>, k: u32| !(o == owner_id@ && k == id) implies (
            #[trigger] self.owner_has_fundraiser(o, k)) == pre.owner_has_fundraiser(o, k) by {
                assert(mid2.owner_has_fundraiser(o, k) == mid1.owner_has_fundraiser(o, k));
                assert(self.fundraiser_per_owner@ == mid2.fundraiser_per_owner@);
                assert(mid1.fundraiser_per_owner@ == pre.fundraiser_per_owner@);
            }
            assert(self.owns_token(owner_id@, g_tid)) by {
                assert(mid.owns_token(owner_id@, g_tid));
                assert(self.tokens_per_owner@ == mid.tokens_per_owner@);
            }
            assert(self.owner_has_fundraiser(owner_id@, id)) by {
                assert(mid2.owner_has_fundraiser(owner_id@, id));
                assert(self.fundraiser_per_owner@ == mid2.fundraiser_per_owner@);
            }
            assert(self.has_token(g_tid) && self.token_at(g_tid) == mid.token_at(g_tid)) by {
                assert(mid.has_token(g_tid));
                assert(self.tokens_by_id@ == mid.tokens_by_id@);
            }
            assert(self.has_token_metadata(g_tid) && self.token_metadata_at(g_tid)
                == mid.token_metadata_at(g_tid)) by {
                assert(mid.has_token_metadata(g_tid));
                assert(self.token_metadata_by_id@ == mid.token_metadata_by_id@);
            }
        }
        Ok((id, token_id))
    }

    /// After a mint, the counter bump, the owner-index write and the row
    /// append of a fundraiser creation, the state is well-formed again.
    proof fn lemma_add_fundraiser_shape(
        self,
        pre: Contract,
        mid: Contract,
        id: FundraiserId,
        tid: Seq<char>,
        row: Fundraiser,
    )
        requires
            pre.wf(),
            mid.wf(),
            id == pre.fundraiser_counter + 1,
            tid == dec_str_of(id as nat),
            !pre.has_token(tid),
            // the mint step changed only the token tables
            mid.has_token(tid),
            forall|t: Seq<char>| t != tid ==> #[trigger] mid.has_token(t) == pre.has_token(t),
            mid.fundraisers_by_id == pre.fundraisers_by_id,
            mid.fundraiser_per_owner == pre.fundraiser_per_owner,
            // afterwards only the counter, the fundraiser owner index and
            // the fundraiser table changed
            self.tokens_by_id == mid.tokens_by_id,
            self.token_metadata_by_id == mid.token_metadata_by_id,
            self.tokens_per_owner == mid.tokens_per_owner,
            self.fundraisers_donations == mid.fundraisers_donations,
            self.fundraiser_counter == id,
            skv_unique(self.fundraiser_per_owner@),
            forall|i: int|
                0 <= i < self.fundraiser_per_owner@.len() ==> nid_unique(
                    #[trigger] self.fundraiser_per_owner@[i].1@,
                ),
            forall|i: int, a: int|
                #![trigger self.fundraiser_per_owner@[i].1@[a]]
                0 <= i < self.fundraiser_per_owner@.len() && 0 <= a
                    < self.fundraiser_per_owner@[i].1@.len() ==> pre.owner_has_fundraiser(
                    self.fundraiser_per_owner@[i].0@,
                    self.fundraiser_per_owner@[i].1@[a],
                ) || self.fundraiser_per_owner@[i].1@[a] == id,
            // the final row append
            self.fundraisers_by_id@ == pre.fundraisers_by_id@.push((id, row)),
        ensures
            self.wf(),
    {
        if nkv_has(pre.fundraisers_by_id@, id) {
            let w = nkv_index(pre.fundraisers_by_id@, id);
            assert(pre.fundraisers_by_id@[w].0 <= pre.fundraiser_counter);
        }
        nkv_push(pre.fundraisers_by_id@, id, row);
        // the token tables are unchanged, so their clauses carry over
        assert(skv_unique(self.tokens_by_id@)) by {
            assert(self.tokens_by_id@ == mid.tokens_by_id@);
            assert(skv_unique(mid.tokens_by_id@));
        }
        assert(skv_unique(self.token_metadata_by_id@)) by {
            assert(self.token_metadata_by_id@ == mid.token_metadata_by_id@);
            assert(skv_unique(mid.token_metadata_by_id@));
        }
        assert(self.tokens_match_metadata()) by {
            assert(mid.tokens_match_metadata());
            assert(self.tokens_by_id@ == mid.tokens_by_id@);
            assert(self.token_metadata_by_id@ == mid.token_metadata_by_id@);
        }
        assert(self.tokens_wf()) by {
            assert(mid.tokens_wf());
            assert(self.tokens_by_id@ == mid.tokens_by_id@);
        }
        assert(self.token_index_wf()) by {
            assert(mid.token_index_wf());
            assert(self.tokens_by_id@ == mid.tokens_by_id@);
            assert(self.tokens_per_owner@ == mid.tokens_per_owner@);
        }
        assert(self.donations_wf()) by {
            assert(mid.donations_wf());
            assert(self.fundraisers_donations@ == mid.fundraisers_donations@);
        }
        // ascending and bounded
        assert forall|i: int, j: int|
            #![trigger self.fundraisers_by_id@[i].0, self.fundraisers_by_id@[j].0]
            0 <= i < j < self.fundraisers_by_id@.len() implies self.fundraisers_by_id@[i].0
            < self.fundraisers_by_id@[j].0 by {
            if j < pre.fundraisers_by_id@.len() {
                assert(pre.fundraisers_by_id@[i].0 < pre.fundraisers_by_id@[j].0);
            } else {
                assert(self.fundraisers_by_id@[j].0 == id);
                assert(pre.fundraisers_by_id@[i].0 <= pre.fundraiser_counter);
            }
        }
        assert forall|i: int| 0 <= i < self.fundraisers_by_id@.len() implies 1 <= (
        #[trigger] self.fundraisers_by_id@[i].0) <= self.fundraiser_counter by {
            if i < pre.fundraisers_by_id@.len() {
                assert(pre.fundraisers_by_id@[i].0 <= pre.fundraiser_counter);
            }
        }
        // every fundraiser still has its paired token
        assert forall|i: int| 0 <= i < self.fundraisers_by_id@.len() implies skv_has(
            self.tokens_by_id@,
            dec_str_of((#[trigger] self.fundraisers_by_id@[i].0) as nat),
        ) by {
            if i < pre.fundraisers_by_id@.len() {
                let t = dec_str_of(pre.fundraisers_by_id@[i].0 as nat);
                assert(skv_has(pre.tokens_by_id@, t));
                if t != tid {
                    assert(mid.has_token(t) == pre.has_token(t));
                }
                assert(skv_has(mid.tokens_by_id@, t));
            } else {
                assert(mid.has_token(tid));
            }
        }
        // the fundraiser owner index lists only existing rows
        assert forall|i: int, a: int|
            #![trigger self.fundraiser_per_owner@[i].1@[a]]
            0 <= i < self.fundraiser_per_owner@.len() && 0 <= a
                < self.fundraiser_per_owner@[i].1@.len() implies nkv_has(
            self.fundraisers_by_id@,
            self.fundraiser_per_owner@[i].1@[a],
        ) by {
            let k = self.fundraiser_per_owner@[i].1@[a];
            if k == id {
                assert(nkv_has(self.fundraisers_by_id@, id));
            } else {
                assert(pre.owner_has_fundraiser(self.fundraiser_per_owner@[i].0@, k));
                let o = self.fundraiser_per_owner@[i].0@;
                let w = skv_index(pre.fundraiser_per_owner@, o);
                skv_index_at(pre.fundraiser_per_owner@, o, w);
                let b = choose|b: int|
                    0 <= b < pre.fundraiser_per_owner@[w].1@.len()
                        && pre.fundraiser_per_owner@[w].1@[b] == k;
                assert(nkv_has(pre.fundraisers_by_id@, pre.fundraiser_per_owner@[w].1@[b]));
            }
        }
    }

    // ------------------------------------------------------------------
    // the approval state machine
    // ------------------------------------------------------------------

    /// Replacing one token's value, under its key and with its owner kept,
    /// preserves well-formedness; nothing else reads differently.
    proof fn lemma_wf_token_value_update(self, pre: Contract, i: int, tok: Token)
        requires
            pre.wf(),
            0 <= i < pre.tokens_by_id@.len(),
            self.tokens_by_id@ == pre.tokens_by_id@.update(i, (pre.tokens_by_id@[i].0, tok)),
            tok.owner_id@ == pre.tokens_by_id@[i].1.owner_id@,
            tok.wf(),
            self.fundraisers_by_id == pre.fundraisers_by_id,
            self.fundraiser_per_owner == pre.fundraiser_per_owner,
            self.fundraisers_donations == pre.fundraisers_donations,
            self.tokens_per_owner == pre.tokens_per_owner,
            self.token_metadata_by_id == pre.token_metadata_by_id,
            self.fundraiser_counter == pre.fundraiser_counter,
        ensures
            self.wf(),
            forall|t: Seq<char>| #[trigger] self.has_token(t) == pre.has_token(t),
            self.token_at(pre.tokens_by_id@[i].0@) == tok,
            forall|t: Seq<char>|
                t != pre.tokens_by_id@[i].0@ && pre.has_token(t) ==> #[trigger] self.token_at(t)
                    == pre.token_at(t),
            forall|o: Seq<char>, t: Seq<char>|
                #[trigger] self.owns_token(o, t) == pre.owns_token(o, t),
    {
        let key = pre.tokens_by_id@[i].0@;
        skv_update(pre.tokens_by_id@, i, key, tok);
        assert(self.fundraisers_by_id@ == pre.fundraisers_by_id@);
        assert(self.fundraiser_per_owner@ == pre.fundraiser_per_owner@);
        assert(self.tokens_per_owner@ == pre.tokens_per_owner@);
        assert(self.token_metadata_by_id@ == pre.token_metadata_by_id@);
        assert(self.fundraisers_donations@ == pre.fundraisers_donations@);
        assert(self.fundraisers_ascending()) by {
            assert(pre.fundraisers_ascending());
        }
        assert(self.fundraiser_ids_bounded()) by {
            assert(pre.fundraiser_ids_bounded());
        }
        assert(self.donations_wf()) by {
            assert(pre.donations_wf());
        }
        assert(self.fundraiser_index_wf()) by {
            assert(pre.fundraiser_index_wf());
        }
        assert(self.tokens_match_metadata()) by {
            assert(pre.tokens_match_metadata());
            assert forall|i2: int| 0 <= i2 < self.tokens_by_id@.len() implies skv_has(
                self.token_metadata_by_id@,
                #[trigger] self.tokens_by_id@[i2].0@,
            ) by {
                assert(self.tokens_by_id@[i2].0 == pre.tokens_by_id@[i2].0);
                assert(skv_has(pre.token_metadata_by_id@, pre.tokens_by_id@[i2].0@));
            }
            assert forall|i2: int| 0 <= i2 < self.token_metadata_by_id@.len() implies skv_has(
                self.tokens_by_id@,
                #[trigger] self.token_metadata_by_id@[i2].0@,
            ) by {
                assert(skv_has(pre.tokens_by_id@, pre.token_metadata_by_id@[i2].0@));
            }
        }
        assert(self.fundraisers_have_tokens()) by {
            assert(pre.fundraisers_have_tokens());
        }
        assert(self.tokens_wf()) by {
            assert forall|i2: int| 0 <= i2 < self.tokens_by_id@.len() implies (
            #[trigger] self.tokens_by_id@[i2].1).wf() by {
                if i2 != i {
                    assert(self.tokens_by_id@[i2] == pre.tokens_by_id@[i2]);
                    assert(pre.tokens_by_id@[i2].1.wf());
                }
            }
        }
        assert(self.token_index_wf()) by {
            assert(pre.token_index_wf());
            assert forall|i2: int, a: int|
                #![trigger self.tokens_per_owner@[i2].1@[a]]
                0 <= i2 < self.tokens_per_owner@.len() && 0 <= a
                    < self.tokens_per_owner@[i2].1@.len() implies skv_has(
                self.tokens_by_id@,
                self.tokens_per_owner@[i2].1@[a]@,
            ) && skv_get(self.tokens_by_id@, self.tokens_per_owner@[i2].1@[a]@).owner_id@
                == self.tokens_per_owner@[i2].0@ by {
                let t = pre.tokens_per_owner@[i2].1@[a]@;
                assert(self.tokens_per_owner@[i2] == pre.tokens_per_owner@[i2]);
                assert(skv_has(pre.tokens_by_id@, t) && skv_get(pre.tokens_by_id@, t).owner_id@
                    == pre.tokens_per_owner@[i2].0@);
                if t == key {
                    assert(skv_get(self.tokens_by_id@, t) == tok);
                    skv_index_at(pre.tokens_by_id@, key, i);
                } else {
                    assert(skv_get(self.tokens_by_id@, t) == skv_get(pre.tokens_by_id@, t));
                }
            }
        }
        assert forall|o: Seq<char>, t: Seq<char>| #[trigger] self.owns_token(o, t)
            == pre.owns_token(o, t) by {
            assert(self.tokens_per_owner@ == pre.tokens_per_owner@);
        }
    }

    /// Which error, if any, an approval is rejected with: a missing
    /// anti-spoofing deposit, a missing token, a caller who is not the
    /// owner, or a payment below the marginal storage cost.
    pub open spec fn approve_error(
        self,
        tid: Seq<char>,
        delegate: Seq<char>,
        caller: Seq<char>,
        payment: u128,
    ) -> Option<ContractError> {
        if payment == 0 {
            Some(ContractError::InsufficientPaymentError)
        } else if !self.has_token(tid) {
            Some(ContractError::NotFoundError)
        } else if self.token_at(tid).owner_id@ != caller {
            Some(ContractError::AuthorizationError)
        } else if (payment as int) < approval_storage_cost(
            delegate,
            self.token_at(tid).approves(delegate),
        ) {
            Some(ContractError::InsufficientPaymentError)
        } else {
            None
        }
    }

    /// The effect of a successful approval of `delegate` on token `tid`:
    /// the delegate holds the freshly assigned id `assigned`, the token's
    /// id counter advances past it, every other approval and every other
    /// table is untouched.
    pub open spec fn approve_post(
        self,
        pre: Contract,
        tid: Seq<char>,
        delegate: Seq<char>,
        assigned: u64,
    ) -> bool {
        &&& pre.has_token(tid)
        &&& assigned == pre.token_at(tid).next_approval_id
        &&& self.has_token(tid)
        &&& self.token_at(tid).owner_id == pre.token_at(tid).owner_id
        &&& self.token_at(tid).next_approval_id == assigned + 1
        &&& self.token_at(tid).approves(delegate)
        &&& self.token_at(tid).approval_id_of(delegate) == assigned
        &&& forall|d: Seq<char>|
            d != delegate ==> #[trigger] self.token_at(tid).approves(d) == pre.token_at(
                tid,
            ).approves(d)
        &&& forall|d: Seq<char>|
            d != delegate && pre.token_at(tid).approves(d) ==> #[trigger] self.token_at(
                tid,
            ).approval_id_of(d) == pre.token_at(tid).approval_id_of(d)
        &&& forall|t: Seq<char>| #[trigger] self.has_token(t) == pre.has_token(t)
        &&& forall|t: Seq<char>|
            t != tid && pre.has_token(t) ==> #[trigger] self.token_at(t) == pre.token_at(t)
        &&& forall|o: Seq<char>, t: Seq<char>|
            #[trigger] self.owns_token(o, t) == pre.owns_token(o, t)
        &&& self.fundraisers_by_id == pre.fundraisers_by_id
        &&& self.fundraiser_per_owner == pre.fundraiser_per_owner
        &&& self.fundraisers_donations == pre.fundraisers_donations
        &&& self.tokens_per_owner == pre.tokens_per_owner
        &&& self.token_metadata_by_id == pre.token_metadata_by_id
        &&& self.fundraiser_counter == pre.fundraiser_counter
        &&& self.owner_id == pre.owner_id
        &&& self.metadata == pre.metadata
    }

    /// Approves `account_id` to transfer the token on the owner's behalf,
    /// assigning a fresh approval id; a re-approval of the same delegate
    /// consumes a fresh id too, invalidating the one cached before. The
    /// caller must be the owner, attach at least one yoctoNEAR, and cover
    /// the marginal storage when the delegate is new; the overpayment is
    /// returned for refunding, and when a message is supplied, a one-way
    /// notification to the delegate is handed back for delivery.
    pub fn nft_approve(
        &mut self,
        token_id: TokenId,
        account_id: AccountId,
        msg: Option<String>,
        caller: AccountId,
        payment: u128,
    ) -> (r: Result<ApprovalOutcome, ContractError>)
        requires
            old(self).wf(),
            valid_account_id(account_id@),
            old(self).has_token(token_id@) ==> old(self).token_at(token_id@).next_approval_id
                < u64::MAX,
        ensures
            final(self).wf(),
            r is Err <==> old(self).approve_error(token_id@, account_id@, caller@, payment)
                is Some,
            match r {
                Err(e) => Some(e) == old(self).approve_error(
                    token_id@,
                    account_id@,
                    caller@,
                    payment,
                ) && *final(self) == *old(self),
                Ok(out) => {
                    &&& final(self).approve_post(
                        *old(self),
                        token_id@,
                        account_id@,
                        old(self).token_at(token_id@).next_approval_id,
                    )
                    &&& out.refund == payment - approval_storage_cost(
                        account_id@,
                        old(self).token_at(token_id@).approves(account_id@),
                    )
                    &&& match msg {
                        Option::None => out.notification is None,
                        Option::Some(m) => out.notification matches Some(n) && n.recipient
                            == account_id && n.token_id@ == token_id@ && n.owner_id@ == old(
                            self,
                        ).token_at(token_id@).owner_id@ && n.approval_id == old(self).token_at(
                            token_id@,
                        ).next_approval_id && n.msg == m,
                    }
                },
            },
    {
        if payment == 0 {
            return Err(ContractError::InsufficientPaymentError);
        }
        let ti = match self.find_token(&token_id) {
            None => {
                return Err(ContractError::NotFoundError);
            },
            Some(ti) => ti,
        };
        proof {
            skv_index_at(self.tokens_by_id@, token_id@, ti as int);
        }
        let authorized = self.tokens_by_id[ti].1.owner_id == caller;
        if !authorized {
            return Err(ContractError::AuthorizationError);
        }
        let approval_id: u64 = self.tokens_by_id[ti].1.next_approval_id;
        let existing = find_approval(&self.tokens_by_id[ti].1.approved_accounts_ids, &account_id);
        let storage_used: u64 = match existing {
            Some(_) => 0,
            None => bytes_for_approved_account(&account_id),
        };
        let byte_cost: u128 = storage_byte_cost();
        let cost: u128 = (storage_used as u128) * byte_cost;
        proof {
            assert(account_id@.len() <= 64);
            assert(cost == approval_storage_cost(
                account_id@,
                self.token_at(token_id@).approves(account_id@),
            )) by {
                match existing {
                    Some(a) => {
                        assert(self.tokens_by_id@[ti as int].1.approved_accounts_ids@[a as int].0@
                            == account_id@);
                        assert(self.token_at(token_id@).approves(account_id@));
                    },
                    None => {},
                }
            }
        }
        if payment < cost {
            return Err(ContractError::InsufficientPaymentError);
        }
        let refund = payment - cost;
        let ghost pre = *self;
        let ghost g_delegate: Seq<char> = account_id@;
        match existing {
            Some(a) => {
                proof {
                    assert(pre.tokens_by_id@[ti as int].1.wf());
                    skv_index_at(
                        pre.tokens_by_id@[ti as int].1.approved_accounts_ids@,
                        g_delegate,
                        a as int,
                    );
                }
                let tokref = &mut self.tokens_by_id[ti];
                let cell = &mut tokref.1.approved_accounts_ids[a];
                cell.1 = approval_id;
                tokref.1.next_approval_id = approval_id + 1;
                proof {
                    let pre_tok = pre.tokens_by_id@[ti as int].1;
                    let new_tok = self.tokens_by_id@[ti as int].1;
                    assert(new_tok.approved_accounts_ids@ == pre_tok.approved_accounts_ids@.update(
                        a as int,
                        (pre_tok.approved_accounts_ids@[a as int].0, approval_id),
                    ));
                    assert(self.tokens_by_id@ == pre.tokens_by_id@.update(
                        ti as int,
                        (pre.tokens_by_id@[ti as int].0, new_tok),
                    ));
                    skv_update(
                        pre_tok.approved_accounts_ids@,
                        a as int,
                        g_delegate,
                        approval_id,
                    );
                    assert(new_tok.wf()) by {
                        assert forall|i2: int|
                            0 <= i2 < new_tok.approved_accounts_ids@.len() implies #[trigger] new_tok.approved_accounts_ids@[i2].1
                            < new_tok.next_approval_id by {
                            if i2 != a as int {
                                assert(new_tok.approved_accounts_ids@[i2]
                                    == pre_tok.approved_accounts_ids@[i2]);
                                assert(pre_tok.approved_accounts_ids@[i2].1
                                    < pre_tok.next_approval_id);
                            }
                        }
                    }
                    self.lemma_wf_token_value_update(pre, ti as int, new_tok);
                    assert(pre.token_at(token_id@) == pre_tok) by {
                        skv_index_at(pre.tokens_by_id@, token_id@, ti as int);
                    }
                    assert(self.token_at(token_id@) == new_tok);
                    assert(self.token_at(token_id@).approves(g_delegate));
                    assert forall|d: Seq<char>| d != g_delegate implies #[trigger] self.token_at(
                        token_id@,
                    ).approves(d) == pre.token_at(token_id@).approves(d) by {
                        assert(skv_has(new_tok.approved_accounts_ids@, d) == skv_has(
                            pre_tok.approved_accounts_ids@,
                            d,
                        ));
                    }
                    assert forall|d: Seq<char>|
                        d != g_delegate && pre.token_at(token_id@).approves(
                            d,
                        ) implies #[trigger] self.token_at(token_id@).approval_id_of(d)
                        == pre.token_at(token_id@).approval_id_of(d) by {
                        assert(skv_get(new_tok.approved_accounts_ids@, d) == skv_get(
                            pre_tok.approved_accounts_ids@,
                            d,
                        ));
                    }
                }
            },
            None => {
                let tokref = &mut self.tokens_by_id[ti];
                tokref.1.approved_accounts_ids.push((account_id.clone(), approval_id));
                tokref.1.next_approval_id = approval_id + 1;
                proof {
                    let pre_tok = pre.tokens_by_id@[ti as int].1;
                    let new_tok = self.tokens_by_id@[ti as int].1;
                    assert(new_tok.approved_accounts_ids@[pre_tok.approved_accounts_ids@.len() as int].0@
                        == g_delegate);
                    assert(new_tok.approved_accounts_ids@ =~= pre_tok.approved_accounts_ids@.push(
                        (new_tok.approved_accounts_ids@.last().0, approval_id),
                    ));
                    assert(self.tokens_by_id@ == pre.tokens_by_id@.update(
                        ti as int,
                        (pre.tokens_by_id@[ti as int].0, new_tok),
                    ));
                    assert(pre_tok.wf());
                    skv_push(
                        pre_tok.approved_accounts_ids@,
                        new_tok.approved_accounts_ids@.last().0,
                        g_delegate,
                        approval_id,
                    );
                    assert(new_tok.wf()) by {
                        assert forall|i2: int|
                            0 <= i2 < new_tok.approved_accounts_ids@.len() implies #[trigger] new_tok.approved_accounts_ids@[i2].1
                            < new_tok.next_approval_id by {
                            if i2 < pre_tok.approved_accounts_ids@.len() {
                                assert(new_tok.approved_accounts_ids@[i2]
                                    == pre_tok.approved_accounts_ids@[i2]);
                                assert(pre_tok.approved_accounts_ids@[i2].1
                                    < pre_tok.next_approval_id);
                            }
                        }
                    }
                    self.lemma_wf_token_value_update(pre, ti as int, new_tok);
                    assert(pre.token_at(token_id@) == pre_tok) by {
                        skv_index_at(pre.tokens_by_id@, token_id@, ti as int);
                    }
                    assert(self.token_at(token_id@) == new_tok);
                    assert(self.token_at(token_id@).approves(g_delegate));
                    assert forall|d: Seq<char>| d != g_delegate implies #[trigger] self.token_at(
                        token_id@,
                    ).approves(d) == pre.token_at(token_id@).approves(d) by {
                        assert(skv_has(new_tok.approved_accounts_ids@, d) == skv_has(
                            pre_tok.approved_accounts_ids@,
                            d,
                        ));
                    }
                    assert forall|d: Seq<char>|
                        d != g_delegate && pre.token_at(token_id@).approves(
                            d,
                        ) implies #[trigger] self.token_at(token_id@).approval_id_of(d)
                        == pre.token_at(token_id@).approval_id_of(d) by {
                        assert(skv_get(new_tok.approved_accounts_ids@, d) == skv_get(
                            pre_tok.approved_accounts_ids@,
                            d,
                        ));
                    }
                }
            },
        }
        let notification = match msg {
            Option::None => Option::None,
            Option::Some(m) => Option::Some(
                ApprovalNotice {
                    recipient: account_id,
                    token_id: token_id,
                    owner_id: caller,
                    approval_id,
                    msg: m,
                },
            ),
        };
        Ok(ApprovalOutcome { refund, notification })
    }

    /// Which error, if any, an owner-only token operation is rejected
    /// with: a wrong anti-spoofing deposit, a missing token, or a caller
    /// who is not the owner.
    pub open spec fn owner_op_error(self, tid: Seq<char>, caller: Seq<char>, payment: u128) -> Option<
        ContractError,
    > {
        if payment != 1 {
            Some(ContractError::InsufficientPaymentError)
        } else if !self.has_token(tid) {
            Some(ContractError::NotFoundError)
        } else if self.token_at(tid).owner_id@ != caller {
            Some(ContractError::AuthorizationError)
        } else {
            None
        }
    }

    /// The effect of a successful revocation of `acct` on token `tid`:
    /// the account no longer holds an approval, every other approval, the
    /// owner, the id counter and every other table are untouched.
    pub open spec fn revoke_post(self, pre: Contract, tid: Seq<char>, acct: Seq<char>) -> bool {
        &&& pre.has_token(tid)
        &&& self.has_token(tid)
        &&& self.token_at(tid).owner_id == pre.token_at(tid).owner_id
        &&& self.token_at(tid).next_approval_id == pre.token_at(tid).next_approval_id
        &&& !self.token_at(tid).approves(acct)
        &&& forall|d: Seq<char>|
            d != acct ==> #[trigger] self.token_at(tid).approves(d) == pre.token_at(tid).approves(
                d,
            )
        &&& forall|d: Seq<char>|
            d != acct && pre.token_at(tid).approves(d) ==> #[trigger] self.token_at(
                tid,
            ).approval_id_of(d) == pre.token_at(tid).approval_id_of(d)
        &&& forall|t: Seq<char>| #[trigger] self.has_token(t) == pre.has_token(t)
        &&& forall|t: Seq<char>|
            t != tid && pre.has_token(t) ==> #[trigger] self.token_at(t) == pre.token_at(t)
        &&& forall|o: Seq<char>, t: Seq<char>|
            #[trigger] self.owns_token(o, t) == pre.owns_token(o, t)
        &&& self.fundraisers_by_id == pre.fundraisers_by_id
        &&& self.fundraiser_per_owner == pre.fundraiser_per_owner
        &&& self.fundraisers_donations == pre.fundraisers_donations
        &&& self.tokens_per_owner == pre.tokens_per_owner
        &&& self.token_metadata_by_id == pre.token_metadata_by_id
        &&& self.fundraiser_counter == pre.fundraiser_counter
        &&& self.owner_id == pre.owner_id
        &&& self.metadata == pre.metadata
    }

    /// Revokes `account_id`'s approval on the token, a no-op when none is
    /// held. Only the owner may revoke, with the one-yoctoNEAR
    /// anti-spoofing deposit attached.
    pub fn nft_revoke(
        &mut self,
        token_id: TokenId,
        account_id: AccountId,
        caller: AccountId,
        payment: u128,
    ) -> (r: Result<(), ContractError>)
        requires
            old(self).wf(),
        ensures
            final(self).wf(),
            r is Err <==> old(self).owner_op_error(token_id@, caller@, payment) is Some,
            match r {
                Err(e) => Some(e) == old(self).owner_op_error(token_id@, caller@, payment)
                    && *final(self) == *old(self),
                Ok(u) => final(self).revoke_post(*old(self), token_id@, account_id@),
            },
    {
        if payment != 1 {
            return Err(ContractError::InsufficientPaymentError);
        }
        let ti = match self.find_token(&token_id) {
            None => {
                return Err(ContractError::NotFoundError);
            },
            Some(ti) => ti,
        };
        proof {
            skv_index_at(self.tokens_by_id@, token_id@, ti as int);
        }
        let authorized = self.tokens_by_id[ti].1.owner_id == caller;
        if !authorized {
            return Err(ContractError::AuthorizationError);
        }
        let ghost pre = *self;
        let ghost g_acct: Seq<char> = account_id@;
        match find_approval(&self.tokens_by_id[ti].1.approved_accounts_ids, &account_id) {
            None => {
                proof {
                    assert(*self == pre);
                    assert(!self.token_at(token_id@).approves(g_acct));
                }
            },
            Some(a) => {
                proof {
                    assert(pre.tokens_by_id@[ti as int].1.wf());
                    skv_index_at(
                        pre.tokens_by_id@[ti as int].1.approved_accounts_ids@,
                        g_acct,
                        a as int,
                    );
                }
                let tokref = &mut self.tokens_by_id[ti];
                tokref.1.approved_accounts_ids.remove(a);
                proof {
                    let pre_tok = pre.tokens_by_id@[ti as int].1;
                    let new_tok = self.tokens_by_id@[ti as int].1;
                    assert(new_tok.approved_accounts_ids@ == pre_tok.approved_accounts_ids@.remove(
                        a as int,
                    ));
                    assert(self.tokens_by_id@ == pre.tokens_by_id@.update(
                        ti as int,
                        (pre.tokens_by_id@[ti as int].0, new_tok),
                    ));
                    crate::keyed::skv_remove(pre_tok.approved_accounts_ids@, a as int);
                    assert(new_tok.wf()) by {
                        pre_tok.approved_accounts_ids@.remove_ensures(a as int);
                        assert forall|i2: int|
                            0 <= i2 < new_tok.approved_accounts_ids@.len() implies #[trigger] new_tok.approved_accounts_ids@[i2].1
                            < new_tok.next_approval_id by {
                            if i2 < a as int {
                                assert(new_tok.approved_accounts_ids@[i2]
                                    == pre_tok.approved_accounts_ids@[i2]);
                                assert(pre_tok.approved_accounts_ids@[i2].1
                                    < pre_tok.next_approval_id);
                            } else {
                                assert(new_tok.approved_accounts_ids@[i2]
                                    == pre_tok.approved_accounts_ids@[i2 + 1]);
                                assert(pre_tok.approved_accounts_ids@[i2 + 1].1
                                    < pre_tok.next_approval_id);
                            }
                        }
                    }
                    self.lemma_wf_token_value_update(pre, ti as int, new_tok);
                    assert(pre.token_at(token_id@) == pre_tok) by {
                        skv_index_at(pre.tokens_by_id@, token_id@, ti as int);
                    }
                    assert(self.token_at(token_id@) == new_tok);
                    assert(!self.token_at(token_id@).approves(g_acct));
                    assert forall|d: Seq<char>| d != g_acct implies #[trigger] self.token_at(
                        token_id@,
                    ).approves(d) == pre.token_at(token_id@).approves(d) by {
                        assert(skv_has(new_tok.approved_accounts_ids@, d) == skv_has(
                            pre_tok.approved_accounts_ids@,
                            d,
                        ));
                    }
                    assert forall|d: Seq<char>|
                        d != g_acct && pre.token_at(token_id@).approves(
                            d,
                        ) implies #[trigger] self.token_at(token_id@).approval_id_of(d)
                        == pre.token_at(token_id@).approval_id_of(d) by {
                        assert(skv_get(new_tok.approved_accounts_ids@, d) == skv_get(
                            pre_tok.approved_accounts_ids@,
                            d,
                        ));
                    }
                }
            },
        }
        Ok(())
    }

    /// The effect of clearing all approvals on token `tid`: nobody holds
    /// an approval any more; the owner, the id counter and every other
    /// table are untouched.
    pub open spec fn revoke_all_post(self, pre: Contract, tid: Seq<char>) -> bool {
        &&& pre.has_token(tid)
        &&& self.has_token(tid)
        &&& self.token_at(tid).owner_id == pre.token_at(tid).owner_id
        &&& self.token_at(tid).next_approval_id == pre.token_at(tid).next_approval_id
        &&& self.token_at(tid).approved_accounts_ids@.len() == 0
        &&& forall|d: Seq<char>| !(#[trigger] self.token_at(tid).approves(d))
        &&& forall|t: Seq<char>| #[trigger] self.has_token(t) == pre.has_token(t)
        &&& forall|t: Seq<char>|
            t != tid && pre.has_token(t) ==> #[trigger] self.token_at(t) == pre.token_at(t)
        &&& forall|o: Seq<char>, t: Seq<char>|
            #[trigger] self.owns_token(o, t) == pre.owns_token(o, t)
        &&& self.fundraisers_by_id == pre.fundraisers_by_id
        &&& self.fundraiser_per_owner == pre.fundraiser_per_owner
        &&& self.fundraisers_donations == pre.fundraisers_donations
        &&& self.tokens_per_owner == pre.tokens_per_owner
        &&& self.token_metadata_by_id == pre.token_metadata_by_id
        &&& self.fundraiser_counter == pre.fundraiser_counter
        &&& self.owner_id == pre.owner_id
        &&& self.metadata == pre.metadata
    }

    /// Clears every approval on the token. Only the owner may do so, with
    /// the one-yoctoNEAR anti-spoofing deposit attached.
    pub fn nft_revoke_all(&mut self, token_id: TokenId, caller: AccountId, payment: u128) -> (r:
        Result<(), ContractError>)
        requires
            old(self).wf(),
        ensures
            final(self).wf(),
            r is Err <==> old(self).owner_op_error(token_id@, caller@, payment) is Some,
            match r {
                Err(e) => Some(e) == old(self).owner_op_error(token_id@, caller@, payment)
                    && *final(self) == *old(self),
                Ok(u) => final(self).revoke_all_post(*old(self), token_id@),
            },
    {
        if payment != 1 {
            return Err(ContractError::InsufficientPaymentError);
        }
        let ti = match self.find_token(&token_id) {
            None => {
                return Err(ContractError::NotFoundError);
            },
            Some(ti) => ti,
        };
        proof {
            skv_index_at(self.tokens_by_id@, token_id@, ti as int);
        }
        let authorized = self.tokens_by_id[ti].1.owner_id == caller;
        if !authorized {
            return Err(ContractError::AuthorizationError);
        }
        let ghost pre = *self;
        let tokref = &mut self.tokens_by_id[ti];
        tokref.1.approved_accounts_ids.clear();
        proof {
            let new_tok = self.tokens_by_id@[ti as int].1;
            assert(new_tok.approved_accounts_ids@.len() == 0);
            assert(self.tokens_by_id@ == pre.tokens_by_id@.update(
                ti as int,
                (pre.tokens_by_id@[ti as int].0, new_tok),
            ));
            assert(new_tok.wf());
            self.lemma_wf_token_value_update(pre, ti as int, new_tok);
            assert(pre.token_at(token_id@) == pre.tokens_by_id@[ti as int].1) by {
                skv_index_at(pre.tokens_by_id@, token_id@, ti as int);
            }
            assert(self.token_at(token_id@) == new_tok);
        }
        Ok(())
    }

    /// Removes `token_id` from `owner`'s set in the token owner index, a
    /// no-op when it is not listed there.
    fn remove_token_from_owner_index(&mut self, owner: &AccountId, token_id: &TokenId)
        requires
            skv_unique(old(self).tokens_per_owner@),
            forall|i: int|
                0 <= i < old(self).tokens_per_owner@.len() ==> sid_unique(
                    #[trigger] old(self).tokens_per_owner@[i].1@,
                ),
        ensures
            final(self).owner_id == old(self).owner_id,
            final(self).metadata == old(self).metadata,
            final(self).fundraiser_per_owner == old(self).fundraiser_per_owner,
            final(self).fundraisers_by_id == old(self).fundraisers_by_id,
            final(self).fundraisers_donations == old(self).fundraisers_donations,
            final(self).fundraiser_counter == old(self).fundraiser_counter,
            final(self).tokens_by_id == old(self).tokens_by_id,
            final(self).token_metadata_by_id == old(self).token_metadata_by_id,
            skv_unique(final(self).tokens_per_owner@),
            forall|i: int|
                0 <= i < final(self).tokens_per_owner@.len() ==> sid_unique(
                    #[trigger] final(self).tokens_per_owner@[i].1@,
                ),
            !final(self).owns_token(owner@, token_id@),
            forall|o: Seq<char>, t: Seq<char>|
                !(o == owner@ && t == token_id@) ==> #[trigger] final(self).owns_token(o, t)
                    == old(self).owns_token(o, t),
            forall|i: int, a: int|
                #![trigger final(self).tokens_per_owner@[i].1@[a]]
                0 <= i < final(self).tokens_per_owner@.len() && 0 <= a
                    < final(self).tokens_per_owner@[i].1@.len() ==> old(self).owns_token(
                    final(self).tokens_per_owner@[i].0@,
                    final(self).tokens_per_owner@[i].1@[a]@,
                ),
    {
        let ghost pre_tpo = self.tokens_per_owner@;
        proof {
            assert forall|i: int, a: int|
                #![trigger pre_tpo[i].1@[a]]
                0 <= i < pre_tpo.len() && 0 <= a < pre_tpo[i].1@.len() implies old(
                self,
            ).owns_token(pre_tpo[i].0@, pre_tpo[i].1@[a]@) by {
                skv_index_at(pre_tpo, pre_tpo[i].0@, i);
                assert(sid_has(pre_tpo[i].1@, pre_tpo[i].1@[a]@));
            }
        }
        let idx = match find_account_tokens(&self.tokens_per_owner, owner) {
            None => {
                return ;
            },
            Some(i) => i,
        };
        proof {
            skv_index_at(pre_tpo, owner@, idx as int);
        }
        let a = match find_token_in_list(&self.tokens_per_owner[idx].1, token_id) {
            None => {
                return ;
            },
            Some(a) => a,
        };
        self.tokens_per_owner[idx].1.remove(a);
        proof {
            let new_list = self.tokens_per_owner@[idx as int].1;
            assert(new_list@ == pre_tpo[idx as int].1@.remove(a as int));
            assert(self.tokens_per_owner@ == pre_tpo.update(
                idx as int,
                (pre_tpo[idx as int].0, new_list),
            ));
            assert(pre_tpo[idx as int].1@[a as int]@ == token_id@);
            crate::keyed::sid_remove(pre_tpo[idx as int].1@, a as int);
            skv_update(pre_tpo, idx as int, owner@, new_list);
            assert forall|i2: int|
                0 <= i2 < self.tokens_per_owner@.len() implies sid_unique(
                #[trigger] self.tokens_per_owner@[i2].1@,
            ) by {
                if i2 != idx as int {
                    assert(self.tokens_per_owner@[i2] == pre_tpo[i2]);
                }
            }
            assert(!sid_has(new_list@, token_id@));
            assert(!self.owns_token(owner@, token_id@));
            assert forall|o: Seq<char>, t: Seq<char>|
                !(o == owner@ && t == token_id@) implies #[trigger] self.owns_token(o, t) == old(
                self,
            ).owns_token(o, t) by {
                if o == owner@ {
                    assert(skv_get(self.tokens_per_owner@, o) == new_list);
                    assert(skv_get(pre_tpo, o) == pre_tpo[idx as int].1);
                    assert(sid_has(new_list@, t) == sid_has(pre_tpo[idx as int].1@, t));
                }
            }
            pre_tpo[idx as int].1@.remove_ensures(a as int);
            assert forall|i2: int, b: int|
                #![trigger self.tokens_per_owner@[i2].1@[b]]
                0 <= i2 < self.tokens_per_owner@.len() && 0 <= b
                    < self.tokens_per_owner@[i2].1@.len() implies old(self).owns_token(
                self.tokens_per_owner@[i2].0@,
                self.tokens_per_owner@[i2].1@[b]@,
            ) by {
                if i2 != idx as int {
                    assert(self.tokens_per_owner@[i2] == pre_tpo[i2]);
                    assert(old(self).owns_token(pre_tpo[i2].0@, pre_tpo[i2].1@[b]@));
                } else {
                    let ob = if b < a as int {
                        b
                    } else {
                        b + 1
                    };
                    assert(new_list@[b] == pre_tpo[idx as int].1@[ob]);
                    assert(old(self).owns_token(
                        pre_tpo[idx as int].0@,
                        pre_tpo[idx as int].1@[ob]@,
                    ));
                }
            }
        }
    }

    /// Which error, if any, a transfer is rejected with: a wrong
    /// anti-spoofing deposit, a missing token, or a caller who is neither
    /// the owner nor a delegate supplying its current approval id.
    pub open spec fn transfer_error(
        self,
        tid: Seq<char>,
        caller: Seq<char>,
        approval_id: Option<u64>,
        payment: u128,
    ) -> Option<ContractError> {
        if payment != 1 {
            Some(ContractError::InsufficientPaymentError)
        } else if !self.has_token(tid) {
            Some(ContractError::NotFoundError)
        } else if !(self.token_at(tid).owner_id@ == caller || (self.token_at(tid).approves(caller)
            && (approval_id matches Some(g) && g == self.token_at(tid).approval_id_of(caller)))) {
            Some(ContractError::AuthorizationError)
        } else {
            None
        }
    }

    /// The effect of a successful transfer of token `tid` to `receiver`:
    /// the token is owned by the receiver with every prior approval
    /// cleared, the id moved between the two owners' index sets, and
    /// nothing else changed — all in one step.
    pub open spec fn transfer_post(self, pre: Contract, tid: Seq<char>, receiver: AccountId) -> bool {
        let old_owner = pre.token_at(tid).owner_id@;
        &&& pre.has_token(tid)
        &&& self.has_token(tid)
        &&& self.token_at(tid).owner_id == receiver
        &&& self.token_at(tid).approved_accounts_ids@.len() == 0
        &&& forall|d: Seq<char>| !(#[trigger] self.token_at(tid).approves(d))
        &&& self.token_at(tid).next_approval_id == pre.token_at(tid).next_approval_id
        &&& forall|t: Seq<char>| #[trigger] self.has_token(t) == pre.has_token(t)
        &&& forall|t: Seq<char>|
            t != tid && pre.has_token(t) ==> #[trigger] self.token_at(t) == pre.token_at(t)
        &&& self.owns_token(receiver@, tid)
        &&& (old_owner != receiver@ ==> !self.owns_token(old_owner, tid))
        &&& forall|o: Seq<char>, t: Seq<char>|
            !(t == tid && (o == receiver@ || o == old_owner)) ==> #[trigger] self.owns_token(o, t)
                == pre.owns_token(o, t)
        &&& self.fundraisers_by_id == pre.fundraisers_by_id
        &&& self.fundraiser_per_owner == pre.fundraiser_per_owner
        &&& self.fundraisers_donations == pre.fundraisers_donations
        &&& self.token_metadata_by_id == pre.token_metadata_by_id
        &&& self.fundraiser_counter == pre.fundraiser_counter
        &&& self.owner_id == pre.owner_id
        &&& self.metadata == pre.metadata
    }

    /// Transfers the token to `receiver_id`: permitted for the owner, or
    /// for a delegate that supplies its current approval id, with the
    /// one-yoctoNEAR anti-spoofing deposit attached. Ownership, the
    /// clearing of all approvals and both owner-index updates commit
    /// together, and the returned record of the transfer is handed back
    /// for logging; a rejected call changes nothing.
    pub fn nft_transfer(
        &mut self,
        receiver_id: AccountId,
        token_id: TokenId,
        approval_id: Option<u64>,
        memo: Option<String>,
        caller: AccountId,
        payment: u128,
    ) -> (r: Result<TransferOutcome, ContractError>)
        requires
            old(self).wf(),
        ensures
            final(self).wf(),
            r is Err <==> old(self).transfer_error(token_id@, caller@, approval_id, payment)
                is Some,
            match r {
                Err(e) => Some(e) == old(self).transfer_error(
                    token_id@,
                    caller@,
                    approval_id,
                    payment,
                ) && *final(self) == *old(self),
                Ok(ev) => {
                    &&& final(self).transfer_post(*old(self), token_id@, receiver_id)
                    &&& ev.old_owner_id@ == old(self).token_at(token_id@).owner_id@
                    &&& ev.new_owner_id == receiver_id
                    &&& ev.token_id@ == token_id@
                    &&& ev.memo == memo
                },
            },
    {
        if payment != 1 {
            return Err(ContractError::InsufficientPaymentError);
        }
        let ti = match self.find_token(&token_id) {
            None => {
                return Err(ContractError::NotFoundError);
            },
            Some(ti) => ti,
        };
        proof {
            skv_index_at(self.tokens_by_id@, token_id@, ti as int);
        }
        let is_owner = self.tokens_by_id[ti].1.owner_id == caller;
        if !is_owner {
            let delegate_ok = match find_approval(
                &self.tokens_by_id[ti].1.approved_accounts_ids,
                &caller,
            ) {
                None => false,
                Some(a) => {
                    proof {
                        assert(self.tokens_by_id@[ti as int].1.wf());
                        skv_index_at(
                            self.tokens_by_id@[ti as int].1.approved_accounts_ids@,
                            caller@,
                            a as int,
                        );
                    }
                    match approval_id {
                        None => false,
                        Some(given) => self.tokens_by_id[ti].1.approved_accounts_ids[a].1
                            == given,
                    }
                },
            };
            if !delegate_ok {
                return Err(ContractError::AuthorizationError);
            }
        }
        let old_owner: AccountId = self.tokens_by_id[ti].1.owner_id.clone();
        let ghost pre = *self;
        let ghost g_tid: Seq<char> = token_id@;
        let ghost g_old_owner: Seq<char> = old_owner@;
        // the ownership change and approval clearing
        let tokref = &mut self.tokens_by_id[ti];
        tokref.1.owner_id = receiver_id.clone();
        tokref.1.approved_accounts_ids.clear();
        let ghost new_tok = self.tokens_by_id@[ti as int].1;
        proof {
            assert(self.tokens_by_id@ == pre.tokens_by_id@.update(
                ti as int,
                (pre.tokens_by_id@[ti as int].0, new_tok),
            ));
            skv_update(pre.tokens_by_id@, ti as int, g_tid, new_tok);
            assert(pre.token_at(g_tid) == pre.tokens_by_id@[ti as int].1) by {
                skv_index_at(pre.tokens_by_id@, g_tid, ti as int);
            }
        }
        let ghost mid = *self;
        self.remove_token_from_owner_index(&old_owner, &token_id);
        let ghost mid2 = *self;
        proof {
            // the id is now listed in no owner's set
            assert forall|i: int| 0 <= i < self.tokens_per_owner@.len() implies !sid_has(
                #[trigger] self.tokens_per_owner@[i].1@,
                g_tid,
            ) by {
                if sid_has(self.tokens_per_owner@[i].1@, g_tid) {
                    let o = self.tokens_per_owner@[i].0@;
                    skv_index_at(self.tokens_per_owner@, o, i);
                    assert(self.owns_token(o, g_tid));
                    assert(o != g_old_owner);
                    assert(mid.owns_token(o, g_tid));
                    assert(pre.owns_token(o, g_tid));
                    let w = skv_index(pre.tokens_per_owner@, o);
                    skv_index_at(pre.tokens_per_owner@, o, w);
                    let b = crate::keyed::sid_index(pre.tokens_per_owner@[w].1@, g_tid);
                    assert(skv_get(pre.tokens_by_id@, pre.tokens_per_owner@[w].1@[b]@).owner_id@
                        == o);
                }
            }
        }
        self.add_token_to_owner_index(receiver_id.clone(), token_id.clone());
        proof {
            self.lemma_transfer_shape(pre, mid, mid2, ti as int, g_tid, new_tok, receiver_id@);
            // the pointwise readings that make up the transfer's effect
            assert(self.token_at(g_tid) == new_tok);
            assert forall|t: Seq<char>| #[trigger] self.has_token(t) == pre.has_token(t) by {
                assert(mid.has_token(t) == pre.has_token(t));
                assert(self.tokens_by_id@ == mid.tokens_by_id@);
            }
            assert forall|t: Seq<char>| t != g_tid && pre.has_token(t) implies #[trigger] self.token_at(
                t,
            ) == pre.token_at(t) by {
                assert(mid.token_at(t) == pre.token_at(t));
                assert(self.tokens_by_id@ == mid.tokens_by_id@);
            }
            assert(g_old_owner != receiver_id@ ==> !self.owns_token(g_old_owner, g_tid)) by {
                if g_old_owner != receiver_id@ {
                    assert(self.owns_token(g_old_owner, g_tid) == mid2.owns_token(
                        g_old_owner,
                        g_tid,
                    ));
                    assert(!mid2.owns_token(g_old_owner, g_tid));
                }
            }
            assert forall|o: Seq<char>, t: Seq<char>|
                !(t == g_tid && (o == receiver_id@ || o == g_old_owner)) implies #[trigger] self.owns_token(
                o,
                t,
            ) == pre.owns_token(o, t) by {
                assert(self.owns_token(o, t) == mid2.owns_token(o, t));
                assert(mid2.owns_token(o, t) == mid.owns_token(o, t));
                assert(mid.owns_token(o, t) == pre.owns_token(o, t));
            }
        }
        Ok(TransferOutcome { old_owner_id: old_owner, new_owner_id: receiver_id, token_id, memo })
    }

    /// After the token row rewrite and the two owner-index writes of a
    /// transfer, the state is well-formed again.
    proof fn lemma_transfer_shape(
        self,
        pre: Contract,
        mid: Contract,
        mid2: Contract,
        ti: int,
        tid: Seq<char>,
        new_tok: Token,
        receiver: Seq<char>,
    )
        requires
            pre.wf(),
            0 <= ti < pre.tokens_by_id@.len(),
            pre.tokens_by_id@[ti].0@ == tid,
            new_tok.owner_id@ == receiver,
            new_tok.approved_accounts_ids@.len() == 0,
            // the token row rewrite
            mid.tokens_by_id@ == pre.tokens_by_id@.update(ti, (pre.tokens_by_id@[ti].0, new_tok)),
            // nothing else moved since
            self.tokens_by_id == mid.tokens_by_id,
            self.fundraisers_by_id == pre.fundraisers_by_id,
            self.fundraiser_per_owner == pre.fundraiser_per_owner,
            self.fundraisers_donations == pre.fundraisers_donations,
            self.token_metadata_by_id == pre.token_metadata_by_id,
            self.fundraiser_counter == pre.fundraiser_counter,
            // what the owner-index writes guarantee
            skv_unique(self.tokens_per_owner@),
            forall|i: int|
                0 <= i < self.tokens_per_owner@.len() ==> sid_unique(
                    #[trigger] self.tokens_per_owner@[i].1@,
                ),
            forall|i: int, a: int|
                #![trigger self.tokens_per_owner@[i].1@[a]]
                0 <= i < self.tokens_per_owner@.len() && 0 <= a
                    < self.tokens_per_owner@[i].1@.len() ==> (pre.owns_token(
                    self.tokens_per_owner@[i].0@,
                    self.tokens_per_owner@[i].1@[a]@,
                ) && self.tokens_per_owner@[i].1@[a]@ != tid) || (self.tokens_per_owner@[i].0@
                    == receiver && self.tokens_per_owner@[i].1@[a]@ == tid),
        ensures
            self.wf(),
    {
        skv_update(pre.tokens_by_id@, ti, tid, new_tok);
        assert(self.tokens_by_id@ == mid.tokens_by_id@);
        assert(skv_unique(self.tokens_by_id@));
        assert(self.fundraisers_ascending()) by {
            assert(pre.fundraisers_ascending());
        }
        assert(self.fundraiser_ids_bounded()) by {
            assert(pre.fundraiser_ids_bounded());
        }
        assert(self.donations_wf()) by {
            assert(pre.donations_wf());
        }
        assert(self.fundraiser_index_wf()) by {
            assert(pre.fundraiser_index_wf());
        }
        assert(self.tokens_match_metadata()) by {
            assert(pre.tokens_match_metadata());
            assert forall|i2: int| 0 <= i2 < self.tokens_by_id@.len() implies skv_has(
                self.token_metadata_by_id@,
                #[trigger] self.tokens_by_id@[i2].0@,
            ) by {
                assert(self.tokens_by_id@[i2].0 == pre.tokens_by_id@[i2].0);
                assert(skv_has(pre.token_metadata_by_id@, pre.tokens_by_id@[i2].0@));
            }
            assert forall|i2: int| 0 <= i2 < self.token_metadata_by_id@.len() implies skv_has(
                self.tokens_by_id@,
                #[trigger] self.token_metadata_by_id@[i2].0@,
            ) by {
                assert(skv_has(pre.tokens_by_id@, pre.token_metadata_by_id@[i2].0@));
            }
        }
        assert(self.fundraisers_have_tokens()) by {
            assert(pre.fundraisers_have_tokens());
        }
        assert(self.tokens_wf()) by {
            assert forall|i2: int| 0 <= i2 < self.tokens_by_id@.len() implies (
            #[trigger] self.tokens_by_id@[i2].1).wf() by {
                if i2 != ti {
                    assert(self.tokens_by_id@[i2] == pre.tokens_by_id@[i2]);
                    assert(pre.tokens_by_id@[i2].1.wf());
                }
            }
        }
        assert(self.token_index_wf()) by {
            assert forall|i2: int, a: int|
                #![trigger self.tokens_per_owner@[i2].1@[a]]
                0 <= i2 < self.tokens_per_owner@.len() && 0 <= a
                    < self.tokens_per_owner@[i2].1@.len() implies skv_has(
                self.tokens_by_id@,
                self.tokens_per_owner@[i2].1@[a]@,
            ) && skv_get(self.tokens_by_id@, self.tokens_per_owner@[i2].1@[a]@).owner_id@
                == self.tokens_per_owner@[i2].0@ by {
                let o = self.tokens_per_owner@[i2].0@;
                let t = self.tokens_per_owner@[i2].1@[a]@;
                if o == receiver && t == tid {
                    assert(skv_has(self.tokens_by_id@, tid));
                    assert(skv_get(self.tokens_by_id@, tid) == new_tok);
                } else {
                    assert(pre.owns_token(o, t) && t != tid);
                    let w = skv_index(pre.tokens_per_owner@, o);
                    skv_index_at(pre.tokens_per_owner@, o, w);
                    let b = crate::keyed::sid_index(pre.tokens_per_owner@[w].1@, t);
                    assert(pre.tokens_per_owner@[w].1@[b]@ == t);
                    assert(skv_has(pre.tokens_by_id@, t));
                    assert(skv_get(pre.tokens_by_id@, t).owner_id@ == o);
                    assert(skv_get(self.tokens_by_id@, t) == skv_get(pre.tokens_by_id@, t));
                }
            }
        }
    }

    // ------------------------------------------------------------------
    // the donation ledger
    // ------------------------------------------------------------------

    /// A state differing from a well-formed one only in a well-formed
    /// donation ledger is well-formed.
    proof fn lemma_wf_same_except_donations(self, pre: Contract)
        requires
            pre.wf(),
            self.fundraisers_by_id == pre.fundraisers_by_id,
            self.fundraiser_per_owner == pre.fundraiser_per_owner,
            self.tokens_by_id == pre.tokens_by_id,
            self.token_metadata_by_id == pre.token_metadata_by_id,
            self.tokens_per_owner == pre.tokens_per_owner,
            self.fundraiser_counter == pre.fundraiser_counter,
            self.donations_wf(),
        ensures
            self.wf(),
    {
        assert(self.fundraisers_by_id@ == pre.fundraisers_by_id@);
        assert(self.fundraiser_per_owner@ == pre.fundraiser_per_owner@);
        assert(self.tokens_by_id@ == pre.tokens_by_id@);
        assert(self.token_metadata_by_id@ == pre.token_metadata_by_id@);
        assert(self.tokens_per_owner@ == pre.tokens_per_owner@);
        assert(self.fundraisers_ascending()) by {
            assert(pre.fundraisers_ascending());
        }
        assert(self.fundraiser_ids_bounded()) by {
            assert(pre.fundraiser_ids_bounded());
        }
        assert(self.tokens_match_metadata()) by {
            assert(pre.tokens_match_metadata());
        }
        assert(self.fundraisers_have_tokens()) by {
            assert(pre.fundraisers_have_tokens());
        }
        assert(self.tokens_wf()) by {
            assert(pre.tokens_wf());
        }
        assert(self.fundraiser_index_wf()) by {
            assert(pre.fundraiser_index_wf());
        }
        assert(self.token_index_wf()) by {
            assert(pre.token_index_wf());
        }
    }

    /// Appends `amount` to what `donor_id` has donated to `fundraiser_id`;
    /// two equal donations stay two entries. A donation to an id without a
    /// fundraiser row is rejected; nothing else ever changes.
    pub fn donate_to_fundraiser(
        &mut self,
        fundraiser_id: FundraiserId,
        donor_id: AccountId,
        amount: u128,
    ) -> (r: Result<(), ContractError>)
        requires
            old(self).wf(),
        ensures
            final(self).wf(),
            match r {
                Ok(u) => {
                    &&& old(self).has_fundraiser(fundraiser_id)
                    &&& final(self).donations_of(fundraiser_id, donor_id@) == old(self).donations_of(fundraiser_id, donor_id@).push(amount)
                    &&& forall|f: u32, d: Seq<char>|
                        !(f == fundraiser_id && d == donor_id@) ==> #[trigger] final(self).donations_of(f, d) == old(self).donations_of(f, d)
                    &&& final(self).fundraisers_by_id == old(self).fundraisers_by_id
                    &&& final(self).fundraiser_per_owner == old(self).fundraiser_per_owner
                    &&& final(self).tokens_by_id == old(self).tokens_by_id
                    &&& final(self).token_metadata_by_id == old(self).token_metadata_by_id
                    &&& final(self).tokens_per_owner == old(self).tokens_per_owner
                    &&& final(self).fundraiser_counter == old(self).fundraiser_counter
                    &&& final(self).owner_id == old(self).owner_id
                    &&& final(self).metadata == old(self).metadata
                },
                Err(e) => !old(self).has_fundraiser(fundraiser_id) && e
                    == ContractError::NotFoundError && *final(self) == *old(self),
            },
            r is Err <==> !old(self).has_fundraiser(fundraiser_id),
    {
        match self.find_fundraiser(fundraiser_id) {
            None => {
                return Err(ContractError::NotFoundError);
            },
            Some(fi) => {
                proof {
                    nkv_index_at(self.fundraisers_by_id@, fundraiser_id, fi as int);
                }
            },
        }
        let ghost pre = *self;
        match find_donation_entry(&self.fundraisers_donations, fundraiser_id) {
            None => {
                let mut amounts: Vec<u128> = Vec::new();
                amounts.push(amount);
                let mut donors: Vec<(AccountId, Vec<u128>)> = Vec::new();
                let ghost g_donor: AccountId = donor_id;
                let ghost g_amounts: Vec<u128> = amounts;
                donors.push((donor_id, amounts));
                let ghost g_donors: Vec<(AccountId, Vec<u128>)> = donors;
                self.fundraisers_donations.push((fundraiser_id, donors));
                proof {
                    assert(self.fundraisers_donations@ == pre.fundraisers_donations@.push(
                        (fundraiser_id, g_donors),
                    ));
                    nkv_push(pre.fundraisers_donations@, fundraiser_id, g_donors);
                    assert(g_donors@ =~= Seq::empty().push((g_donor, g_amounts)));
                    assert(g_donors@[0].0@ == g_donor@);
                    assert(skv_unique(g_donors@));
                    assert forall|i2: int|
                        0 <= i2 < self.fundraisers_donations@.len() implies skv_unique(
                        #[trigger] self.fundraisers_donations@[i2].1@,
                    ) by {
                        if i2 < pre.fundraisers_donations@.len() {
                            assert(self.fundraisers_donations@[i2]
                                == pre.fundraisers_donations@[i2]);
                        } else {
                            assert(self.fundraisers_donations@[i2].1 == g_donors);
                        }
                    }
                    self.lemma_wf_same_except_donations(pre);
                    // the new ledger cell reads as the old one extended
                    skv_index_at(g_donors@, g_donor@, 0);
                    assert(g_amounts@ =~= Seq::empty().push(amount));
                    assert(!nkv_has(pre.fundraisers_donations@, fundraiser_id));
                    assert(pre.donations_of(fundraiser_id, g_donor@) =~= Seq::empty());
                    assert(self.donations_of(fundraiser_id, g_donor@) == pre.donations_of(
                        fundraiser_id,
                        g_donor@,
                    ).push(amount));
                    assert forall|f: u32, d: Seq<char>|
                        !(f == fundraiser_id && d == g_donor@) implies #[trigger] self.donations_of(
                        f,
                        d,
                    ) == pre.donations_of(f, d) by {
                        if f == fundraiser_id {
                            assert(nkv_get(self.fundraisers_donations@, f) == g_donors);
                            if skv_has(g_donors@, d) {
                                let b = skv_index(g_donors@, d);
                                assert(g_donors@[b].0@ == d);
                            }
                        }
                    }
                }
            },
            Some(i) => {
                proof {
                    nkv_index_at(self.fundraisers_donations@, fundraiser_id, i as int);
                }
                match find_donor(&self.fundraisers_donations[i].1, &donor_id) {
                    None => {
                        let mut amounts: Vec<u128> = Vec::new();
                        amounts.push(amount);
                        let ghost g_donor: AccountId = donor_id;
                        let ghost g_amounts: Vec<u128> = amounts;
                        self.fundraisers_donations[i].1.push((donor_id, amounts));
                        proof {
                            let pre_outer = pre.fundraisers_donations@;
                            let pre_inner = pre_outer[i as int].1@;
                            let new_inner = self.fundraisers_donations@[i as int].1;
                            assert(new_inner@ == pre_inner.push((g_donor, g_amounts)));
                            assert(self.fundraisers_donations@ == pre_outer.update(
                                i as int,
                                (pre_outer[i as int].0, new_inner),
                            ));
                            assert(skv_unique(pre_inner));
                            skv_push(pre_inner, g_donor, g_donor@, g_amounts);
                            nkv_update(pre_outer, i as int, fundraiser_id, new_inner);
                            assert forall|i2: int|
                                0 <= i2 < self.fundraisers_donations@.len() implies skv_unique(
                                #[trigger] self.fundraisers_donations@[i2].1@,
                            ) by {
                                if i2 != i as int {
                                    assert(self.fundraisers_donations@[i2] == pre_outer[i2]);
                                }
                            }
                            self.lemma_wf_same_except_donations(pre);
                            assert(g_amounts@ =~= Seq::empty().push(amount));
                            assert(pre.donations_of(fundraiser_id, g_donor@) =~= Seq::empty());
                            assert(skv_get(new_inner@, g_donor@) == g_amounts);
                            assert(self.donations_of(fundraiser_id, g_donor@) == pre.donations_of(
                                fundraiser_id,
                                g_donor@,
                            ).push(amount));
                            assert forall|f: u32, d: Seq<char>|
                                !(f == fundraiser_id && d == g_donor@) implies #[trigger] self.donations_of(
                                f,
                                d,
                            ) == pre.donations_of(f, d) by {
                                if f == fundraiser_id {
                                    assert(nkv_get(self.fundraisers_donations@, f) == new_inner);
                                    assert(nkv_get(pre_outer, f) == pre_outer[i as int].1);
                                    assert(skv_has(new_inner@, d) == skv_has(pre_inner, d));
                                    if skv_has(pre_inner, d) {
                                        assert(skv_get(new_inner@, d) == skv_get(pre_inner, d));
                                    }
                                }
                            }
                        }
                    },
                    Some(j) => {
                        proof {
                            assert(skv_unique(pre.fundraisers_donations@[i as int].1@));
                            skv_index_at(
                                pre.fundraisers_donations@[i as int].1@,
                                donor_id@,
                                j as int,
                            );
                        }
                        let entry = &mut self.fundraisers_donations[i];
                        let cell = &mut entry.1[j];
                        cell.1.push(amount);
                        proof {
                            let pre_outer = pre.fundraisers_donations@;
                            let pre_inner = pre_outer[i as int].1@;
                            let new_inner = self.fundraisers_donations@[i as int].1;
                            let new_amounts = new_inner@[j as int].1;
                            assert(new_amounts@ == pre_inner[j as int].1@.push(amount));
                            assert(new_inner@ == pre_inner.update(
                                j as int,
                                (pre_inner[j as int].0, new_amounts),
                            ));
                            assert(self.fundraisers_donations@ == pre_outer.update(
                                i as int,
                                (pre_outer[i as int].0, new_inner),
                            ));
                            skv_update(pre_inner, j as int, donor_id@, new_amounts);
                            nkv_update(pre_outer, i as int, fundraiser_id, new_inner);
                            assert forall|i2: int|
                                0 <= i2 < self.fundraisers_donations@.len() implies skv_unique(
                                #[trigger] self.fundraisers_donations@[i2].1@,
                            ) by {
                                if i2 != i as int {
                                    assert(self.fundraisers_donations@[i2] == pre_outer[i2]);
                                }
                            }
                            self.lemma_wf_same_except_donations(pre);
                            assert(pre.donations_of(fundraiser_id, donor_id@) == pre_inner[j as
                                int].1@);
                            assert(skv_get(new_inner@, donor_id@) == new_amounts);
                            assert(self.donations_of(fundraiser_id, donor_id@) == pre.donations_of(
                                fundraiser_id,
                                donor_id@,
                            ).push(amount));
                            assert forall|f: u32, d: Seq<char>|
                                !(f == fundraiser_id && d == donor_id@) implies #[trigger] self.donations_of(
                                f,
                                d,
                            ) == pre.donations_of(f, d) by {
                                if f == fundraiser_id {
                                    assert(nkv_get(self.fundraisers_donations@, f) == new_inner);
                                    assert(nkv_get(pre_outer, f) == pre_outer[i as int].1);
                                    assert(skv_has(new_inner@, d) == skv_has(pre_inner, d));
                                    if skv_has(pre_inner, d) {
                                        assert(skv_get(new_inner@, d) == skv_get(pre_inner, d));
                                    }
                                }
                            }
                        }
                    },
                }
            },
        }
        Ok(())
    }

    // ------------------------------------------------------------------
    // the read surface
    // ------------------------------------------------------------------

    /// The composite view of one token, or absent when no such token exists.
    pub fn nft_token(&self, token_id: TokenId) -> (r: Option<JsonToken>)
        requires
            self.wf(),
        ensures
            r is Some <==> self.has_token(token_id@),
            r matches Some(j) ==> {
                &&& j.token_id@ == token_id@
                &&& j.owner_id == self.token_at(token_id@).owner_id
                &&& md_eq(j.metadata, self.token_metadata_at(token_id@))
            },
    {
        match self.find_token(&token_id) {
            None => None,
            Some(i) => {
                proof {
                    skv_index_at(self.tokens_by_id@, token_id@, i as int);
                }
                match self.find_token_metadata(&token_id) {
                    None => {
                        // absent metadata would be a desynchronization that
                        // no write produces; the read stays total
                        proof {
                            assert(self.has_token_metadata(self.tokens_by_id@[i as int].0@));
                            assert(false);
                        }
                        None
                    },
                    Some(m) => {
                        proof {
                            skv_index_at(self.token_metadata_by_id@, token_id@, m as int);
                        }
                        Some(
                            JsonToken {
                                owner_id: self.tokens_by_id[i].1.owner_id.clone(),
                                metadata: self.token_metadata_by_id[m].1.clone(),
                                token_id,
                            },
                        )
                    },
                }
            },
        }
    }

    /// The composite view of one fundraiser: its row joined with the paired
    /// token and that token's metadata; absent when the row, the token or
    /// the metadata is missing, never an error.
    pub fn get_fundraiser_by_id(&self, id: FundraiserId) -> (r: Option<JsonFundraiser>)
        requires
            self.wf(),
        ensures
            r is Some <==> self.fundraiser_viewable(id),
            r matches Some(j) ==> self.is_fundraiser_view(id, j),
    {
        match self.find_fundraiser(id) {
            None => None,
            Some(i) => {
                proof {
                    nkv_index_at(self.fundraisers_by_id@, id, i as int);
                }
                let token_id: TokenId = u32_to_decimal(id);
                match self.nft_token(token_id.clone()) {
                    None => None,
                    Some(json_token) => {
                        match self.find_token(&token_id) {
                            None => {
                                proof {
                                    assert(false);
                                }
                                None
                            },
                            Some(ti) => {
                                proof {
                                    skv_index_at(self.tokens_by_id@, token_id@, ti as int);
                                }
                                Some(
                                    JsonFundraiser {
                                        fundraiser: self.fundraisers_by_id[i].1.clone(),
                                        fundraiser_id: id,
                                        token: self.tokens_by_id[ti].1.clone(),
                                        token_id,
                                        token_metadata: json_token.metadata,
                                    },
                                )
                            },
                        }
                    },
                }
            },
        }
    }

    /// One page of composite fundraiser views, in ascending creation order:
    /// page `None` and page `Some(1)` are the first 25 created fundraisers,
    /// page `Some(p)` the ones from position `(p-1)*25`; page `Some(0)` is
    /// rejected.
    pub fn get_all_fundraisers(&self, page: Option<u32>) -> (r: Result<
        Vec<JsonFundraiser>,
        ContractError,
    >)
        requires
            self.wf(),
        ensures
            ({
                let from = if page is None {
                    0int
                } else {
                    (page->Some_0 - 1) * 25int
                };
                let n = self.fundraisers_by_id@.len() as int;
                let count = if from >= n {
                    0int
                } else if n - from < 25 {
                    n - from
                } else {
                    25int
                };
                match r {
                    Ok(v) => {
                        &&& (page matches Some(p) ==> p >= 1)
                        &&& v@.len() == count
                        &&& forall|k: int|
                            0 <= k < count ==> self.is_fundraiser_view(
                                self.fundraisers_by_id@[from + k].0,
                                #[trigger] v@[k],
                            )
                    },
                    Err(e) => page == Some(0u32) && e == ContractError::ValidationError,
                }
            }),
            r is Err <==> page == Some(0u32),
    {
        let w = match crate::pagination::pagination(page) {
            Err(e) => {
                return Err(e);
            },
            Ok(w) => w,
        };
        let from_index: u64 = w.0;
        let n: usize = self.fundraisers_by_id.len();
        let start: usize = if from_index >= n as u64 {
            n
        } else {
            from_index as usize
        };
        let remaining: usize = n - start;
        let cnt: usize = if remaining < 25 {
            remaining
        } else {
            25
        };
        let mut out: Vec<JsonFundraiser> = Vec::new();
        let mut k: usize = 0;
        while k < cnt
            invariant
                self.wf(),
                k <= cnt,
                n == self.fundraisers_by_id@.len(),
                start + cnt <= n,
                out@.len() == k,
                forall|m: int|
                    0 <= m < k ==> self.is_fundraiser_view(
                        self.fundraisers_by_id@[start + m].0,
                        #[trigger] out@[m],
                    ),
            decreases cnt - k,
        {
            let id = self.fundraisers_by_id[start + k].0;
            match self.get_fundraiser_by_id(id) {
                Some(j) => {
                    out.push(j);
                },
                None => {
                    // an id whose join fails is silently dropped from the
                    // page; under a well-formed state no join ever fails
                    proof {
                        let w_i = start + k;
                        assert(self.fundraisers_by_id@[w_i as int].0 == id);
                        assert(self.has_fundraiser(id));
                        assert(skv_has(self.tokens_by_id@, dec_str_of(id as nat)));
                        let ti = skv_index(self.tokens_by_id@, dec_str_of(id as nat));
                        assert(self.tokens_by_id@[ti].0@ == dec_str_of(id as nat));
                        assert(skv_has(self.token_metadata_by_id@, self.tokens_by_id@[ti].0@));
                        assert(self.fundraiser_viewable(id));
                        assert(false);
                    }
                },
            }
            k += 1;
        }
        Ok(out)
    }

    /// Whether `approved_account_id` holds an approval on the token, and,
    /// when an approval id is supplied, whether it is the one stored.
    pub fn nft_is_approved(
        &self,
        token_id: TokenId,
        approved_account_id: AccountId,
        approval_id: Option<u64>,
    ) -> (r: bool)
        requires
            self.wf(),
        ensures
            r == {
                &&& self.has_token(token_id@)
                &&& self.token_at(token_id@).approves(approved_account_id@)
                &&& (approval_id matches Some(given) ==> self.token_at(token_id@).approval_id_of(
                    approved_account_id@,
                ) == given)
            },
    {
        match self.find_token(&token_id) {
            None => false,
            Some(i) => {
                proof {
                    skv_index_at(self.tokens_by_id@, token_id@, i as int);
                }
                let token = &self.tokens_by_id[i].1;
                match find_approval(&token.approved_accounts_ids, &approved_account_id) {
                    None => false,
                    Some(a) => {
                        proof {
                            assert(self.tokens_by_id@[i as int].1.wf());
                            skv_index_at(
                                token.approved_accounts_ids@,
                                approved_account_id@,
                                a as int,
                            );
                        }
                        match approval_id {
                            None => true,
                            Some(given) => token.approved_accounts_ids[a].1 == given,
                        }
                    },
                }
            },
        }
    }

    /// The amounts `donor_id` has donated to `fundraiser_id`, in order and
    /// with multiplicity; empty when nothing was recorded, never an error.
    pub fn get_donations(&self, fundraiser_id: FundraiserId, donor_id: AccountId) -> (r: Vec<u128>)
        requires
            self.wf(),
        ensures
            r@ == self.donations_of(fundraiser_id, donor_id@),
    {
        let mut i: usize = 0;
        while i < self.fundraisers_donations.len()
            invariant
                self.wf(),
                i <= self.fundraisers_donations@.len(),
                forall|j: int| 0 <= j < i ==> (#[trigger] self.fundraisers_donations@[j].0)
                    != fundraiser_id,
            decreases self.fundraisers_donations@.len() - i,
        {
            if self.fundraisers_donations[i].0 == fundraiser_id {
                proof {
                    nkv_index_at(self.fundraisers_donations@, fundraiser_id, i as int);
                }
                let per_donor = &self.fundraisers_donations[i].1;
                match find_donor(per_donor, &donor_id) {
                    None => {
                        return Vec::new();
                    },
                    Some(d) => {
                        proof {
                            assert(skv_unique(self.fundraisers_donations@[i as int].1@));
                            skv_index_at(per_donor@, donor_id@, d as int);
                        }
                        return clone_amounts(&per_donor[d].1);
                    },
                }
            }
            i += 1;
        }
        Vec::new()
    }
}

fn find_approval(v: &Vec<(AccountId, u64)>, acct: &AccountId) -> (r: Option<usize>)
    ensures
        match r {
            Some(i) => i < v@.len() && v@[i as int].0@ == acct@,
            None => !skv_has(v@, acct@),
        },
{
    let mut i: usize = 0;
    while i < v.len()
        invariant
            i <= v@.len(),
            forall|j: int| 0 <= j < i ==> (#[trigger] v@[j].0)@ != acct@,
        decreases v@.len() - i,
    {
        if v[i].0 == *acct {
            return Some(i);
        }
        i += 1;
    }
    None
}

fn find_account_fundraisers(v: &Vec<(AccountId, Vec<FundraiserId>)>, acct: &AccountId) -> (r:
    Option<usize>)
    ensures
        match r {
            Some(i) => i < v@.len() && v@[i as int].0@ == acct@,
            None => !skv_has(v@, acct@),
        },
{
    let mut i: usize = 0;
    while i < v.len()
        invariant
            i <= v@.len(),
            forall|j: int| 0 <= j < i ==> (#[trigger] v@[j].0)@ != acct@,
        decreases v@.len() - i,
    {
        if v[i].0 == *acct {
            return Some(i);
        }
        i += 1;
    }
    None
}

fn find_account_tokens(v: &Vec<(AccountId, Vec<TokenId>)>, acct: &AccountId) -> (r: Option<usize>)
    ensures
        match r {
            Some(i) => i < v@.len() && v@[i as int].0@ == acct@,
            None => !skv_has(v@, acct@),
        },
{
    let mut i: usize = 0;
    while i < v.len()
        invariant
            i <= v@.len(),
            forall|j: int| 0 <= j < i ==> (#[trigger] v@[j].0)@ != acct@,
        decreases v@.len() - i,
    {
        if v[i].0 == *acct {
            return Some(i);
        }
        i += 1;
    }
    None
}

fn find_donation_entry(
    v: &Vec<(FundraiserId, Vec<(AccountId, Vec<u128>)>)>,
    fid: FundraiserId,
) -> (r: Option<usize>)
    ensures
        match r {
            Some(i) => i < v@.len() && v@[i as int].0 == fid,
            None => !nkv_has(v@, fid),
        },
{
    let mut i: usize = 0;
    while i < v.len()
        invariant
            i <= v@.len(),
            forall|j: int| 0 <= j < i ==> (#[trigger] v@[j].0) != fid,
        decreases v@.len() - i,
    {
        if v[i].0 == fid {
            return Some(i);
        }
        i += 1;
    }
    None
}

fn find_donor(v: &Vec<(AccountId, Vec<u128>)>, donor: &AccountId) -> (r: Option<usize>)
    ensures
        match r {
            Some(i) => i < v@.len() && v@[i as int].0@ == donor@,
            None => !skv_has(v@, donor@),
        },
{
    let mut i: usize = 0;
    while i < v.len()
        invariant
            i <= v@.len(),
            forall|j: int| 0 <= j < i ==> (#[trigger] v@[j].0)@ != donor@,
        decreases v@.len() - i,
    {
        if v[i].0 == *donor {
            return Some(i);
        }
        i += 1;
    }
    None
}

fn find_token_in_list(v: &Vec<TokenId>, tid: &TokenId) -> (r: Option<usize>)
    ensures
        match r {
            Some(i) => i < v@.len() && v@[i as int]@ == tid@,
            None => !sid_has(v@, tid@),
        },
{
    let mut i: usize = 0;
    while i < v.len()
        invariant
            i <= v@.len(),
            forall|j: int| 0 <= j < i ==> (#[trigger] v@[j])@ != tid@,
        decreases v@.len() - i,
    {
        if v[i] == *tid {
            return Some(i);
        }
        i += 1;
    }
    None
}

fn clone_amounts(v: &Vec<u128>) -> (r: Vec<u128>)
    ensures
        r@ == v@,
{
    let mut r: Vec<u128> = Vec::new();
    let mut i: usize = 0;
    while i < v.len()
        invariant
            i <= v@.len(),
            r@ =~= v@.subrange(0, i as int),
        decreases v@.len() - i,
    {
        r.push(v[i]);
        i += 1;
    }
    proof {
        assert(r@ =~= v@);
    }
    r
}

} // verus!
