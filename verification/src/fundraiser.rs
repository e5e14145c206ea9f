use vstd::prelude::*;
use crate::metadata::TokenMetadata;
use crate::token::{AccountId, Token, TokenId};

verus! {

/// A fundraiser id, drawn from the contract's monotonic counter.
pub type FundraiserId = u32;

/// The lifecycle stage of a fundraiser.
#[derive(Debug, Clone, Copy, PartialEq, Eq, Structural)]
pub enum FundraiserStatus {
    ACTIVE,
    DRAFT,
    COMPLETED,
}

/// A campaign record: owned by one account, immutable once created.
#[derive(Debug, PartialEq)]
pub struct Fundraiser {
    pub owner_id: AccountId,
    pub title: String,
    pub description: String,
    pub status: FundraiserStatus,
}

impl Clone for Fundraiser {
    /// A copy equal to the value cloned.
    fn clone(&self) -> (res: Self)
        ensures
            res == *self,
    {
        Fundraiser {
            owner_id: self.owner_id.clone(),
            title: self.title.clone(),
            description: self.description.clone(),
            status: self.status,
        }
    }
}

/// The composite view of a fundraiser that reads return: the record joined
/// with its paired token and that token's metadata.
#[derive(Debug, PartialEq)]
pub struct JsonFundraiser {
    pub fundraiser: Fundraiser,
    pub fundraiser_id: FundraiserId,
    pub token_id: TokenId,
    pub token: Token,
    pub token_metadata: TokenMetadata,
}

} // verus!
