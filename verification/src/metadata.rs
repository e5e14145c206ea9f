use vstd::prelude::*;

verus! {

/// Descriptive fields attached to a token at mint time; immutable thereafter.
#[derive(Debug, PartialEq)]
pub struct TokenMetadata {
    pub title: Option<String>,
    pub description: Option<String>,
    pub media: Option<String>,
    pub media_hash: Option<Vec<u8>>,
    pub copies: Option<u64>,
    pub issued_at: Option<u64>,
    pub expires_at: Option<u64>,
    pub starts_at: Option<u64>,
    pub updated_at: Option<u64>,
    pub extra: Option<String>,
    pub reference: Option<String>,
    pub reference_hash: Option<Vec<u8>>,
}

/// Metadata of the contract itself, fixed at initialization.
#[derive(Debug, PartialEq)]
pub struct NFTContractMetadata {
    pub spec: String,
    pub name: String,
    pub symbol: String,
    pub icon: Option<String>,
    pub base_uri: Option<String>,
    pub reference: Option<String>,
    pub reference_hash: Option<Vec<u8>>,
}

/// Two optional byte strings hold the same bytes.
pub open spec fn opt_bytes_eq(a: Option<Vec<u8>>, b: Option<Vec<u8>>) -> bool {
    match (a, b) {
        (Option::None, Option::None) => true,
        (Option::Some(x), Option::Some(y)) => x@ == y@,
        _ => false,
    }
}

/// Two token metadata records carry the same content. Byte-string fields are
/// compared by their bytes; every other field by value.
pub open spec fn md_eq(a: TokenMetadata, b: TokenMetadata) -> bool {
    &&& a.title == b.title
    &&& a.description == b.description
    &&& a.media == b.media
    &&& opt_bytes_eq(a.media_hash, b.media_hash)
    &&& a.copies == b.copies
    &&& a.issued_at == b.issued_at
    &&& a.expires_at == b.expires_at
    &&& a.starts_at == b.starts_at
    &&& a.updated_at == b.updated_at
    &&& a.extra == b.extra
    &&& a.reference == b.reference
    &&& opt_bytes_eq(a.reference_hash, b.reference_hash)
}

pub(crate) fn clone_opt_string(o: &Option<String>) -> (r: Option<String>)
    ensures
        r == *o,
{
    match o {
        Option::None => Option::None,
        Option::Some(s) => Option::Some(s.clone()),
    }
}

pub(crate) fn clone_bytes(v: &Vec<u8>) -> (r: Vec<u8>)
    ensures
        r@ == v@,
{
    let mut r: Vec<u8> = Vec::new();
    let mut i: usize = 0;
    while i < v.len()
        invariant
            i <= v@.len(),
            r@ =~= v@.subrange(0, i as int),
        decreases v@.len() - i,
    {
        r.push(v[i]);
        i += 1;
    }
    proof {
        assert(r@ =~= v@);
    }
    r
}

pub(crate) fn clone_opt_bytes(o: &Option<Vec<u8>>) -> (r: Option<Vec<u8>>)
    ensures
        opt_bytes_eq(r, *o),
{
    match o {
        Option::None => Option::None,
        Option::Some(v) => Option::Some(clone_bytes(v)),
    }
}

pub(crate) fn clone_opt_u64(o: &Option<u64>) -> (r: Option<u64>)
    ensures
        r == *o,
{
    match o {
        Option::None => Option::None,
        Option::Some(v) => Option::Some(*v),
    }
}

impl Clone for TokenMetadata {
    /// A copy with the same content.
    fn clone(&self) -> (res: Self)
        ensures
            md_eq(res, *self),
    {
        TokenMetadata {
            title: clone_opt_string(&self.title),
            description: clone_opt_string(&self.description),
            media: clone_opt_string(&self.media),
            media_hash: clone_opt_bytes(&self.media_hash),
            copies: clone_opt_u64(&self.copies),
            issued_at: clone_opt_u64(&self.issued_at),
            expires_at: clone_opt_u64(&self.expires_at),
            starts_at: clone_opt_u64(&self.starts_at),
            updated_at: clone_opt_u64(&self.updated_at),
            extra: clone_opt_string(&self.extra),
            reference: clone_opt_string(&self.reference),
            reference_hash: clone_opt_bytes(&self.reference_hash),
        }
    }
}

} // verus!
