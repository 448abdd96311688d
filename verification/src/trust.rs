//! Ed25519 signature checks of plugin binaries, recorded as a trust tag.

use vstd::prelude::*;

use crate::keymap::str_eq;

verus! {

/// The outcome of checking a plugin binary's Ed25519 signature at load time. The host
/// records it and attaches no policy to it.
#[derive(Debug, Clone)]
pub struct TrustTag {
    /// The signature verified against a configured key.
    pub verified: bool,
    /// The id of the key that verified it, if any.
    pub signer_key_id: Option<String>,
}

/// An Ed25519 public key with the id that labels the signatures it verifies.
#[derive(Clone)]
pub struct TrustKey {
    pub key_id: String,
    /// Raw Ed25519 public key bytes (32 bytes).
    pub public_key_bytes: Vec<u8>,
}

/// Whether `signature` is a valid Ed25519 signature of `message` under the raw
/// public key `public_key`, as `ring` 0.17 decides it.
pub uninterp spec fn ed25519_accepts(public_key: Seq<u8>, message: Seq<u8>, signature: Seq<u8>) -> bool;

/// `ring::signature::UnparsedPublicKey::new(&ED25519, public_key).verify(message, signature)`.
/// The result is named [`ed25519_accepts`] of the three byte strings. As `ring`'s source
/// shows, a key that is not 32 bytes or a signature that is not 64 bytes is rejected.
/// The curve arithmetic is not restated here.
#[verifier::external_body]
fn ed25519_verify(public_key: &[u8], message: &[u8], signature: &[u8]) -> (ok: bool)
    ensures
        ok == ed25519_accepts(public_key@, message@, signature@),
        ok ==> public_key@.len() == 32 && signature@.len() == 64,
{
    ring::signature::UnparsedPublicKey::new(&ring::signature::ED25519, public_key).verify(
        message,
        signature,
    ).is_ok()
}

/// The id that a key hint names, if any.
pub open spec fn hint_view(h: Option<&str>) -> Option<Seq<char>> {
    match h {
        Some(s) => Some(s@),
        None => None,
    }
}

/// Key `k` is one that the hint lets be tried.
pub open spec fn key_tried(k: TrustKey, hint: Option<Seq<char>>) -> bool {
    match hint {
        Some(h) => k.key_id@ == h,
        None => true,
    }
}

/// The key that verifies `signature` over `wasm`: the first of `keys` that the hint
/// lets be tried and whose check succeeds, with its position.
pub open spec fn signer_index(
    keys: Seq<TrustKey>,
    wasm: Seq<u8>,
    signature: Seq<u8>,
    hint: Option<Seq<char>>,
    i: int,
) -> bool {
    &&& 0 <= i < keys.len()
    &&& key_tried(keys[i], hint)
    &&& ed25519_accepts(keys[i].public_key_bytes@, wasm, signature)
    &&& forall|j: int|
        0 <= j < i ==> !(key_tried(#[trigger] keys[j], hint) && ed25519_accepts(
            keys[j].public_key_bytes@,
            wasm,
            signature,
        ))
}

/// The trust tag of `wasm_bytes`: with no signature, unverified; otherwise the first
/// key (only keys with the hinted id, when a hint is given; all keys, in order,
/// otherwise) under which the signature verifies names the signer.
pub fn compute_trust_tag(
    wasm_bytes: &[u8],
    signature: Option<&[u8]>,
    key_id_hint: Option<&str>,
    trust_keys: &[TrustKey],
) -> (t: TrustTag)
    ensures
        signature is None ==> !t.verified && t.signer_key_id is None,
        t.verified <==> t.signer_key_id is Some,
        t.verified <==> (signature is Some && exists|i: int|
            signer_index(
                trust_keys@,
                wasm_bytes@,
                signature->0@,
                hint_view(key_id_hint),
                i,
            )),
        t.verified ==> (exists|i: int|
            signer_index(
                trust_keys@,
                wasm_bytes@,
                signature->0@,
                hint_view(key_id_hint),
                i,
            ) && t.signer_key_id->0@ == trust_keys@[i].key_id@),
{
    let sig = match signature {
        Some(s) => s,
        None => {
            return TrustTag { verified: false, signer_key_id: None };
        },
    };
    let ghost hint = hint_view(key_id_hint);
    for i in 0..trust_keys.len()
        invariant
            hint == hint_view(key_id_hint),
            signature == Some(sig),
            forall|j: int|
                0 <= j < i ==> !(key_tried(#[trigger] trust_keys@[j], hint) && ed25519_accepts(
                    trust_keys@[j].public_key_bytes@,
                    wasm_bytes@,
                    sig@,
                )),
    {
        let key = &trust_keys[i];
        let tried = match key_id_hint {
            Some(h) => str_eq(key.key_id.as_str(), h),
            None => true,
        };
        if tried && ed25519_verify(key.public_key_bytes.as_slice(), wasm_bytes, sig) {
            proof {
                assert(signer_index(trust_keys@, wasm_bytes@, sig@, hint, i as int));
                assert(signer_index(trust_keys@, wasm_bytes@, signature->0@, hint_view(key_id_hint), i as int));
            }
            return TrustTag { verified: true, signer_key_id: Some(key.key_id.clone()) };
        }
    }
    proof {
        assert forall|i: int| !signer_index(trust_keys@, wasm_bytes@, sig@, hint, i) by {
            if 0 <= i < trust_keys@.len() {
                assert(!(key_tried(trust_keys@[i], hint) && ed25519_accepts(
                    trust_keys@[i].public_key_bytes@,
                    wasm_bytes@,
                    sig@,
                )));
            }
        }
    }
    TrustTag { verified: false, signer_key_id: None }
}

/// The signer is unique: at most one position satisfies [`signer_index`], so the tag
/// does not depend on anything but the keys' order, the hint, and the bytes.
pub proof fn law_signer_unique(
    keys: Seq<TrustKey>,
    wasm: Seq<u8>,
    signature: Seq<u8>,
    hint: Option<Seq<char>>,
    i: int,
    j: int,
)
    requires
        signer_index(keys, wasm, signature, hint, i),
        signer_index(keys, wasm, signature, hint, j),
    ensures
        i == j,
{
    if i < j {
        assert(!(key_tried(keys[i], hint) && ed25519_accepts(keys[i].public_key_bytes@, wasm, signature)));
    } else if j < i {
        assert(!(key_tried(keys[j], hint) && ed25519_accepts(keys[j].public_key_bytes@, wasm, signature)));
    }
}

} // verus!
