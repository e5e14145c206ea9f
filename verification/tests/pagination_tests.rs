use u_fundraisers::{pagination, ContractError};

#[test]
fn pagination_defaults_to_the_first_page() {
    assert_eq!(pagination(None), Ok((0, 25)));
}

#[test]
fn pagination_first_page_starts_at_zero() {
    assert_eq!(pagination(Some(1)), Ok((0, 25)));
}

#[test]
fn pagination_windows_advance_by_page_size() {
    assert_eq!(pagination(Some(2)), Ok((25, 25)));
    assert_eq!(pagination(Some(3)), Ok((50, 25)));
    assert_eq!(pagination(Some(41)), Ok((1000, 25)));
}

#[test]
fn pagination_rejects_page_zero() {
    assert_eq!(pagination(Some(0)), Err(ContractError::ValidationError));
}

#[test]
fn pagination_handles_the_largest_page() {
    assert_eq!(
        pagination(Some(u32::MAX)),
        Ok(((u32::MAX as u64 - 1) * 25, 25))
    );
}
