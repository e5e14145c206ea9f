use vstd::prelude::*;
use crate::errors::ContractError;

verus! {

/// Number of entries in one page of a listing.
pub const PER_PAGE: u64 = 25;

/// Stateless paging window over an ascending listing: `None` and `Some(1)`
/// both ask for the first page, `Some(p)` for entries `(p-1)*25 ..`, and a
/// non-positive page is rejected.
pub fn pagination(page: Option<u32>) -> (r: Result<(u64, u64), ContractError>)
    ensures
        match r {
            Ok(w) => {
                &&& page matches Some(p) ==> p >= 1
                &&& w.1 == PER_PAGE
                &&& w.0 == (if page is None {
                    0int
                } else {
                    (page->Some_0 - 1) * PER_PAGE
                })
            },
            Err(e) => page == Some(0u32) && e == ContractError::ValidationError,
        },
        r is Err <==> page == Some(0u32),
{
    match page {
        None => Ok((0, PER_PAGE)),
        Some(p) => {
            if p == 0 {
                Err(ContractError::ValidationError)
            } else {
                Ok((((p - 1) as u64) * PER_PAGE, PER_PAGE))
            }
        },
    }
}

} // verus!
