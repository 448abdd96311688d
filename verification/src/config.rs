//! Per-plugin install configuration and where a plugin's bytes come from.

use vstd::prelude::*;

use crate::errors::PluginRuntimeError;
use crate::keymap::KeyMap;
use crate::protocol::{hint_numeric, PriorityHint};

verus! {

/// `std::path::PathBuf`: a file-system path, carried through to the code that reads
/// the file.
#[verifier::external_type_specification]
#[verifier::external_body]
pub struct ExPathBuf(std::path::PathBuf);

/// The path that `Path::join` makes of directory `dir` and relative text `rel`.
pub uninterp spec fn joined_path(dir: std::path::PathBuf, rel: Seq<char>) -> std::path::PathBuf;

/// `Path::join` (`dir.join(rel)`): `rel` appended to `dir`, or `rel` alone when it is
/// absolute. The join is path arithmetic on its two arguments alone (no file system
/// is consulted); the result is named [`joined_path`] of them, and the separator and
/// absolute-path rules are not restated.
#[verifier::external_body]
pub(crate) fn join_path(dir: &std::path::PathBuf, rel: &str) -> (r: std::path::PathBuf)
    ensures
        r == joined_path(*dir, rel@),
{
    dir.join(rel)
}

/// Where to load a plugin's WASM bytes from.
#[derive(Debug)]
pub enum PluginSource {
    /// A local WASM file.
    File(std::path::PathBuf),
    /// A remote WASM binary, whose SHA-256 checksum is mandatory.
    Url { url: String, sha256: [u8; 32] },
    /// Bytes in memory (for instance compiled in).
    Bytes(Vec<u8>),
}

/// Per-plugin installer configuration.
#[derive(Debug, Clone)]
pub struct PluginInstallConfig {
    /// Priority for every contribution that has no override of its own.
    pub base_priority: Option<i32>,
    /// Priority by contribution name (slot, hook, transform function).
    pub overrides: KeyMap<String, i32>,
    pub pool_size: Option<usize>,
    pub max_fuel: Option<u64>,
    pub max_call_duration: Option<std::time::Duration>,
    /// Detached Ed25519 signature over the WASM bytes (64 bytes).
    pub signature: Option<Vec<u8>>,
    /// If set, only the trust key with this id is tried.
    pub key_id: Option<String>,
}

/// The priority that a contribution named `name` with hint `hint` gets: its own
/// override, else the base priority, else the hint's bucket.
pub open spec fn resolved_priority(
    overrides: Map<Seq<char>, i32>,
    base: Option<i32>,
    name: Seq<char>,
    hint: PriorityHint,
) -> i32 {
    if overrides.contains_key(name) {
        overrides[name]
    } else {
        match base {
            Some(b) => b,
            None => hint_numeric(hint),
        }
    }
}

impl Default for PluginInstallConfig {
    fn default() -> (c: Self)
        ensures
            c.base_priority is None,
            c.overrides.wf(),
            c.overrides@ == Map::<Seq<char>, i32>::empty(),
            c.pool_size is None,
            c.max_fuel is None,
            c.max_call_duration is None,
            c.signature is None,
            c.key_id is None,
    {
        PluginInstallConfig {
            base_priority: None,
            overrides: KeyMap::new(),
            pool_size: None,
            max_fuel: None,
            max_call_duration: None,
            signature: None,
            key_id: None,
        }
    }
}

impl PluginInstallConfig {
    /// The effective priority of a contribution: per-name override, then
    /// `base_priority`, then the hint.
    pub fn resolve(&self, name: &str, hint: &PriorityHint) -> (p: i32)
        ensures
            p == resolved_priority(self.overrides@, self.base_priority, name@, *hint),
    {
        match self.overrides.get(name) {
            Some(v) => *v,
            None => match self.base_priority {
                Some(b) => b,
                None => hint.as_numeric(),
            },
        }
    }
}

/// Precedence of priorities: a per-name override wins over everything; without one,
/// the base priority wins over the hint; without either, the hint's bucket is used.
pub proof fn law_priority_precedence(
    overrides: Map<Seq<char>, i32>,
    base: Option<i32>,
    name: Seq<char>,
    hint: PriorityHint,
)
    ensures
        overrides.contains_key(name) ==> resolved_priority(overrides, base, name, hint)
            == overrides[name],
        !overrides.contains_key(name) && base is Some ==> resolved_priority(
            overrides,
            base,
            name,
            hint,
        ) == base->0,
        !overrides.contains_key(name) && base is None ==> resolved_priority(
            overrides,
            base,
            name,
            hint,
        ) == hint_numeric(hint),
        forall|h2: PriorityHint|
            overrides.contains_key(name) || base is Some ==> resolved_priority(
                overrides,
                base,
                name,
                hint,
            ) == #[trigger] resolved_priority(overrides, base, name, h2),
{
}

} // verus!

verus! {

// ── Checksums of fetched plugins ────────────────────────────────────────────

/// The SHA-256 digest (FIPS 180-4) of `bytes`.
pub uninterp spec fn sha256_of(bytes: Seq<u8>) -> Seq<u8>;

/// `sha2::Sha256::digest`: the 32-byte SHA-256 digest of `bytes`. The contract names
/// the digest (`sha256_of`) and states nothing more of it.
#[verifier::external_body]
fn sha256_digest(bytes: &[u8]) -> (d: [u8; 32])
    ensures
        d@ == sha256_of(bytes@),
{
    <sha2::Sha256 as sha2::Digest>::digest(bytes).into()
}

/// Whether two 32-byte digests are equal.
fn digests_equal(a: &[u8; 32], b: &[u8; 32]) -> (r: bool)
    ensures
        r == (a@ == b@),
{
    let mut i: usize = 0;
    while i < 32
        invariant
            i <= 32,
            a@.len() == 32,
            b@.len() == 32,
            forall|j: int| 0 <= j < i ==> a@[j] == b@[j],
        decreases 32 - i,
    {
        if a[i] != b[i] {
            assert(a@[i as int] != b@[i as int]);
            return false;
        }
        i = i + 1;
    }
    assert(a@ =~= b@);
    true
}

/// The outcome of checking bytes fetched from `url` whose SHA-256 digest is `digest`
/// against the expected checksum: the bytes when the two agree, `ChecksumMismatch`
/// naming the URL otherwise.
pub fn checksum_outcome(url: &str, expected: &[u8; 32], digest: &[u8; 32], bytes: Vec<u8>) -> (r: Result<
    Vec<u8>,
    PluginRuntimeError,
>)
    ensures
        digest@ == expected@ ==> r == Ok::<Vec<u8>, PluginRuntimeError>(bytes),
        digest@ != expected@ ==> (r matches Err(PluginRuntimeError::ChecksumMismatch { url: u })
            && u@ == url@),
{
    if digests_equal(digest, expected) {
        Ok(bytes)
    } else {
        Err(PluginRuntimeError::ChecksumMismatch { url: url.to_owned() })
    }
}

/// Checks bytes fetched from `url` against the checksum they were declared with: the
/// bytes are accepted exactly when their SHA-256 digest equals `expected`.
pub fn verify_fetched(url: &str, expected: &[u8; 32], bytes: Vec<u8>) -> (r: Result<
    Vec<u8>,
    PluginRuntimeError,
>)
    ensures
        r is Ok <==> sha256_of(bytes@) == expected@,
        r matches Ok(b) ==> b@ == bytes@,
        r matches Err(e) ==> (e matches PluginRuntimeError::ChecksumMismatch { url: u } && u@ == url@),
{
    let digest = sha256_digest(bytes.as_slice());
    checksum_outcome(url, expected, &digest, bytes)
}

} // verus!
