//! Descriptive data: of one token, and of the contract as a whole.

use vstd::prelude::*;
use crate::layout::{
    opt_blob_bytes, opt_blob_bytes_of, opt_blob_view, opt_text_bytes, opt_text_bytes_of,
    opt_text_view, opt_word_bytes, opt_word_bytes_of,
};

verus! {

/// Bytes of a content hash.
pub const HASH_BYTES: usize = 32;

/// The version of the metadata standard that a contract has to state.
pub open spec fn metadata_standard() -> Seq<char> {
    "nft-1.0.0"@
}

/// `near_contract_standards::non_fungible_token::metadata::NFT_METADATA_SPEC`,
/// the version text of the metadata standard, as an owned string.
#[verifier::external_body]
fn nft_metadata_spec() -> (version: String)
    ensures
        version@ == metadata_standard(),
{
    near_contract_standards::non_fungible_token::metadata::NFT_METADATA_SPEC.to_string()
}

/// `NFTContractMetadata::assert_valid` of `near_contract_standards`, on the
/// same data. The function panics unless the data states the metadata
/// standard and has a reference exactly when it has a hash of 32 bytes; the
/// contract leaves those inputs out and claims nothing of the call.
#[verifier::external_body]
fn assert_valid(metadata: &ContractMetadata)
    requires
        metadata@.valid(),
{
    near_contract_standards::non_fungible_token::metadata::NFTContractMetadata {
        spec: metadata.spec.clone(),
        name: metadata.name.clone(),
        symbol: metadata.symbol.clone(),
        icon: metadata.icon.clone(),
        base_uri: metadata.base_uri.clone(),
        reference: metadata.reference.clone(),
        reference_hash: metadata.reference_hash.clone().map(near_sdk::json_types::Base64VecU8),
    }.assert_valid()
}

/// A copy of an optional text.
pub fn copy_opt_text(text: &Option<String>) -> (copy: Option<String>)
    ensures
        copy == *text,
{
    match text {
        Some(t) => Some(t.clone()),
        None => None,
    }
}

/// A copy of a byte string.
pub fn copy_blob(blob: &Vec<u8>) -> (copy: Vec<u8>)
    ensures
        copy@ == blob@,
{
    let mut copy: Vec<u8> = Vec::new();
    let mut i: usize = 0;
    while i < blob.len()
        invariant
            i <= blob@.len(),
            copy@ == blob@.subrange(0, i as int),
        decreases blob@.len() - i,
    {
        copy.push(blob[i]);
        i += 1;
    }
    copy
}

/// A copy of an optional byte string.
pub fn copy_opt_blob(blob: &Option<Vec<u8>>) -> (copy: Option<Vec<u8>>)
    ensures
        opt_blob_view(copy) == opt_blob_view(*blob),
{
    match blob {
        Some(b) => Some(copy_blob(b)),
        None => None,
    }
}

/// Descriptive data of one token. Every field is optional.
#[derive(Clone, Debug, PartialEq, Eq)]
pub struct TokenMetadata {
    pub title: Option<String>,
    pub description: Option<String>,
    /// Where the token's media is found.
    pub media: Option<String>,
    /// Hash of what `media` refers to.
    pub media_hash: Option<Vec<u8>>,
    /// How many copies of this data existed when the token was minted.
    pub copies: Option<u64>,
    pub issued_at: Option<String>,
    pub expires_at: Option<String>,
    pub starts_at: Option<String>,
    pub updated_at: Option<String>,
    pub extra: Option<String>,
    /// Where more data about the token is found.
    pub reference: Option<String>,
    /// Hash of what `reference` refers to.
    pub reference_hash: Option<Vec<u8>>,
}

/// What a `TokenMetadata` holds.
pub ghost struct TokenMetadataView {
    pub title: Option<Seq<char>>,
    pub description: Option<Seq<char>>,
    pub media: Option<Seq<char>>,
    pub media_hash: Option<Seq<u8>>,
    pub copies: Option<u64>,
    pub issued_at: Option<Seq<char>>,
    pub expires_at: Option<Seq<char>>,
    pub starts_at: Option<Seq<char>>,
    pub updated_at: Option<Seq<char>>,
    pub extra: Option<Seq<char>>,
    pub reference: Option<Seq<char>>,
    pub reference_hash: Option<Seq<u8>>,
}

impl TokenMetadataView {
    /// Accounted size of the data.
    pub open spec fn bytes(self) -> nat {
        opt_text_bytes(self.title) + opt_text_bytes(self.description) + opt_text_bytes(self.media)
            + opt_blob_bytes(self.media_hash) + opt_word_bytes(self.copies) + opt_text_bytes(
            self.issued_at,
        ) + opt_text_bytes(self.expires_at) + opt_text_bytes(self.starts_at) + opt_text_bytes(
            self.updated_at,
        ) + opt_text_bytes(self.extra) + opt_text_bytes(self.reference) + opt_blob_bytes(
            self.reference_hash,
        )
    }
}

impl View for TokenMetadata {
    type V = TokenMetadataView;

    open spec fn view(&self) -> TokenMetadataView {
        TokenMetadataView {
            title: opt_text_view(self.title),
            description: opt_text_view(self.description),
            media: opt_text_view(self.media),
            media_hash: opt_blob_view(self.media_hash),
            copies: self.copies,
            issued_at: opt_text_view(self.issued_at),
            expires_at: opt_text_view(self.expires_at),
            starts_at: opt_text_view(self.starts_at),
            updated_at: opt_text_view(self.updated_at),
            extra: opt_text_view(self.extra),
            reference: opt_text_view(self.reference),
            reference_hash: opt_blob_view(self.reference_hash),
        }
    }
}

/// What optional token data holds.
pub open spec fn opt_metadata_view(metadata: Option<TokenMetadata>) -> Option<TokenMetadataView> {
    match metadata {
        Some(m) => Some(m@),
        None => None,
    }
}

impl TokenMetadata {
    /// Token data with no field set.
    pub fn empty() -> (metadata: Self)
        ensures
            metadata@ == (TokenMetadataView {
                title: None,
                description: None,
                media: None,
                media_hash: None,
                copies: None,
                issued_at: None,
                expires_at: None,
                starts_at: None,
                updated_at: None,
                extra: None,
                reference: None,
                reference_hash: None,
            }),
    {
        TokenMetadata {
            title: None,
            description: None,
            media: None,
            media_hash: None,
            copies: None,
            issued_at: None,
            expires_at: None,
            starts_at: None,
            updated_at: None,
            extra: None,
            reference: None,
            reference_hash: None,
        }
    }

    /// A copy of the data.
    pub fn duplicate(&self) -> (copy: Self)
        ensures
            copy@ == self@,
    {
        TokenMetadata {
            title: copy_opt_text(&self.title),
            description: copy_opt_text(&self.description),
            media: copy_opt_text(&self.media),
            media_hash: copy_opt_blob(&self.media_hash),
            copies: self.copies,
            issued_at: copy_opt_text(&self.issued_at),
            expires_at: copy_opt_text(&self.expires_at),
            starts_at: copy_opt_text(&self.starts_at),
            updated_at: copy_opt_text(&self.updated_at),
            extra: copy_opt_text(&self.extra),
            reference: copy_opt_text(&self.reference),
            reference_hash: copy_opt_blob(&self.reference_hash),
        }
    }

    /// Accounted size of the data.
    pub fn bytes(&self) -> (n: u128)
        ensures
            n == self@.bytes(),
            n <= 12 * (usize::MAX + 5),
    {
        let t0: u128 = opt_text_bytes_of(&self.title);
        let t1: u128 = t0 + opt_text_bytes_of(&self.description);
        let t2: u128 = t1 + opt_text_bytes_of(&self.media);
        let t3: u128 = t2 + opt_blob_bytes_of(&self.media_hash);
        let t4: u128 = t3 + opt_word_bytes_of(&self.copies);
        let t5: u128 = t4 + opt_text_bytes_of(&self.issued_at);
        let t6: u128 = t5 + opt_text_bytes_of(&self.expires_at);
        let t7: u128 = t6 + opt_text_bytes_of(&self.starts_at);
        let t8: u128 = t7 + opt_text_bytes_of(&self.updated_at);
        let t9: u128 = t8 + opt_text_bytes_of(&self.extra);
        let t10: u128 = t9 + opt_text_bytes_of(&self.reference);
        let t11: u128 = t10 + opt_blob_bytes_of(&self.reference_hash);
        t11
    }
}

/// A copy of optional token data.
pub fn copy_opt_metadata(metadata: &Option<TokenMetadata>) -> (copy: Option<TokenMetadata>)
    ensures
        opt_metadata_view(copy) == opt_metadata_view(*metadata),
{
    match metadata {
        Some(m) => Some(m.duplicate()),
        None => None,
    }
}

/// Descriptive data of the contract.
#[derive(Clone, Debug, PartialEq, Eq)]
pub struct ContractMetadata {
    /// The version of the metadata standard.
    pub spec: String,
    pub name: String,
    pub symbol: String,
    pub icon: Option<String>,
    pub base_uri: Option<String>,
    /// Where more data about the contract is found.
    pub reference: Option<String>,
    /// Hash of what `reference` refers to.
    pub reference_hash: Option<Vec<u8>>,
}

/// What a `ContractMetadata` holds.
pub ghost struct ContractMetadataView {
    pub spec: Seq<char>,
    pub name: Seq<char>,
    pub symbol: Seq<char>,
    pub icon: Option<Seq<char>>,
    pub base_uri: Option<Seq<char>>,
    pub reference: Option<Seq<char>>,
    pub reference_hash: Option<Seq<u8>>,
}

impl ContractMetadataView {
    /// The data states the metadata standard, and has a reference exactly when
    /// it has a hash of it, which is then of `HASH_BYTES` bytes.
    pub open spec fn valid(self) -> bool {
        &&& self.spec == metadata_standard()
        &&& self.reference.is_some() == self.reference_hash.is_some()
        &&& match self.reference_hash {
            Some(h) => h.len() == HASH_BYTES,
            None => true,
        }
    }
}

impl View for ContractMetadata {
    type V = ContractMetadataView;

    open spec fn view(&self) -> ContractMetadataView {
        ContractMetadataView {
            spec: self.spec@,
            name: self.name@,
            symbol: self.symbol@,
            icon: opt_text_view(self.icon),
            base_uri: opt_text_view(self.base_uri),
            reference: opt_text_view(self.reference),
            reference_hash: opt_blob_view(self.reference_hash),
        }
    }
}

impl ContractMetadata {
    /// Whether the data keeps the rules for its fields.
    pub fn is_valid(&self) -> (ok: bool)
        ensures
            ok == self@.valid(),
    {
        let standard = nft_metadata_spec();
        if !(self.spec == standard) {
            return false;
        }
        let ok = match &self.reference_hash {
            Some(h) => self.reference.is_some() && h.len() == HASH_BYTES,
            None => self.reference.is_none(),
        };
        if ok {
            assert_valid(self);
        }
        ok
    }

    /// A copy of the data.
    pub fn duplicate(&self) -> (copy: Self)
        ensures
            copy@ == self@,
    {
        ContractMetadata {
            spec: self.spec.clone(),
            name: self.name.clone(),
            symbol: self.symbol.clone(),
            icon: copy_opt_text(&self.icon),
            base_uri: copy_opt_text(&self.base_uri),
            reference: copy_opt_text(&self.reference),
            reference_hash: copy_opt_blob(&self.reference_hash),
        }
    }
}

} // verus!
