//! The records that the contract litigator keeps in its event log: tags that
//! make an event unique, and the repository of compiled modules, named by a
//! digest of their bytes.
use vstd::prelude::*;
use crate::messages::{bytes_to_hex, hex_of_bytes};
use bitcoin::hashes::sha256;

verus! {

/// What makes an event of the litigator unique in its log.
#[derive(Clone, Debug)]
pub enum Tag {
    InitModule,
    CreateArgs,
    FirstBind,
    EvLoopCounter(u64),
    ScopedCounter(String, u64),
    ScopedValue(String, String),
}

/// The SHA-256 digest of some bytes.
pub uninterp spec fn sha256_digest(data: Seq<u8>) -> Seq<u8>;

/// The SHA-256 digest of `data`, from `sha256::Hash::hash` of
/// `bitcoin::hashes`, as its 32 bytes in order (`into_inner`). The contract
/// names the digest and says nothing else of it.
#[verifier::external_body]
fn sha256_of(data: &[u8]) -> (h: [u8; 32])
    ensures
        h@ == sha256_digest(data@),
{
    bitcoin::hashes::Hash::into_inner(<sha256::Hash as bitcoin::hashes::Hash>::hash(data))
}

/// The name under which module repositories are stored.
pub open spec fn module_repo_name() -> Seq<char> {
    "ModuleRepo"@
}

/// The compiled bytes of a module.
#[derive(Clone, Debug)]
pub struct ModuleRepo(pub Vec<u8>);

impl ModuleRepo {
    /// The stable type name of module repositories in the event log.
    pub fn stable_typeid() -> (s: String)
        ensures
            s@ == module_repo_name(),
    {
        String::from_str("ModuleRepo")
    }

    /// The key of the group of events that module repositories go to by
    /// default: their type name.
    pub fn default_group_key() -> (s: String)
        ensures
            s@ == module_repo_name(),
    {
        Self::stable_typeid()
    }

    /// The tag that makes a stored module unique, given the digest of its
    /// bytes: the digest in lower-case hexadecimal.
    pub fn tag_of_digest(digest: &[u8; 32]) -> (t: Option<String>)
        ensures
            t matches Some(s) && s@ == hex_of_bytes(digest@),
    {
        Some(bytes_to_hex(digest.as_slice()))
    }

    /// The tag that makes this module unique: the hexadecimal SHA-256 digest
    /// of its bytes.
    pub fn unique_tag(&self) -> (t: Option<String>)
        ensures
            t matches Some(s) && s@ == hex_of_bytes(sha256_digest(self.0@)),
    {
        let digest = sha256_of(self.0.as_slice());
        Self::tag_of_digest(&digest)
    }
}

/// Somewhere evidence is kept as it arrives and read back in full.
pub trait EvidenceCache<T> {
    fn append(&mut self, item: &T);

    fn retrieve(&self) -> Vec<T>;
}

} // verus!
