use vstd::prelude::*;
use crate::keyed::{skv_get, skv_has, skv_unique};
use crate::metadata::TokenMetadata;

verus! {

/// A token id: the decimal string form of the paired fundraiser id.
pub type TokenId = String;

/// An account, identified by its name.
pub type AccountId = String;

/// A transferable ownership certificate: its owner, the accounts currently
/// approved to transfer it (each with the approval id it was issued), and the
/// monotonic counter from which approval ids are drawn.
#[derive(Debug, PartialEq)]
pub struct Token {
    pub owner_id: AccountId,
    pub approved_accounts_ids: Vec<(AccountId, u64)>,
    pub next_approval_id: u64,
}

impl Token {
    /// The approval table has pairwise-distinct delegates, and every issued
    /// approval id lies below the counter that the next one is drawn from.
    pub open spec fn wf(self) -> bool {
        &&& skv_unique(self.approved_accounts_ids@)
        &&& forall|i: int|
            0 <= i < self.approved_accounts_ids@.len()
                ==> #[trigger] self.approved_accounts_ids@[i].1 < self.next_approval_id
    }

    /// `acct` currently holds an approval on this token.
    pub open spec fn approves(self, acct: Seq<char>) -> bool {
        skv_has(self.approved_accounts_ids@, acct)
    }

    /// The approval id `acct` was issued.
    pub open spec fn approval_id_of(self, acct: Seq<char>) -> u64
        recommends
            self.approves(acct),
    {
        skv_get(self.approved_accounts_ids@, acct)
    }
}

/// Two tokens carry the same content: same owner, approval table and counter.
pub open spec fn token_eq(a: Token, b: Token) -> bool {
    &&& a.owner_id == b.owner_id
    &&& a.approved_accounts_ids@ == b.approved_accounts_ids@
    &&& a.next_approval_id == b.next_approval_id
}

pub(crate) fn clone_approvals(v: &Vec<(AccountId, u64)>) -> (r: Vec<(AccountId, u64)>)
    ensures
        r@ == v@,
{
    let mut r: Vec<(AccountId, u64)> = Vec::new();
    let mut i: usize = 0;
    while i < v.len()
        invariant
            i <= v@.len(),
            r@ =~= v@.subrange(0, i as int),
        decreases v@.len() - i,
    {
        let entry = &v[i];
        let pushed = (entry.0.clone(), entry.1);
        proof {
            assert(pushed == v@[i as int]);
        }
        r.push(pushed);
        i += 1;
    }
    proof {
        assert(r@ =~= v@);
    }
    r
}

impl Clone for Token {
    /// A copy with the same content.
    fn clone(&self) -> (res: Self)
        ensures
            token_eq(res, *self),
    {
        Token {
            owner_id: self.owner_id.clone(),
            approved_accounts_ids: clone_approvals(&self.approved_accounts_ids),
            next_approval_id: self.next_approval_id,
        }
    }
}

/// The composite view of a token that reads return: its id joined with the
/// stored owner and metadata.
#[derive(Debug, PartialEq)]
pub struct JsonToken {
    pub token_id: TokenId,
    pub owner_id: AccountId,
    pub metadata: TokenMetadata,
}

} // verus!
