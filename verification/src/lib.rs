pub mod config;
pub mod contract;
pub mod decimal;
pub mod errors;
pub mod fundraiser;
pub mod keyed;
pub mod laws;
pub mod metadata;
pub mod pagination;
pub mod storage_cost;
pub mod token;

pub use config::ConfigEnv;
pub use contract::{ApprovalNotice, ApprovalOutcome, Contract, TransferOutcome};
pub use errors::ContractError;
pub use fundraiser::{Fundraiser, FundraiserId, FundraiserStatus, JsonFundraiser};
pub use metadata::{NFTContractMetadata, TokenMetadata};
pub use pagination::pagination;
pub use token::{AccountId, JsonToken, Token, TokenId};
