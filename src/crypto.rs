//! Digests and signer recovery used by the batch engine.
use vstd::prelude::*;

verus! {

/// The Keccak-256 digest of a byte string.
pub uninterp spec fn keccak_of(data: Seq<u8>) -> Seq<u8>;

/// The uncompressed SEC1 public key recovered from a prehash, the two
/// signature scalars and a recovery id, or `None` when recovery fails.
pub uninterp spec fn recovered_key(prehash: Seq<u8>, r: Seq<u8>, s: Seq<u8>, recovery_id: u8) -> Option<Seq<u8>>;

/// Relies on tiny_keccak's `Keccak::v256` (`update` then `finalize`): the
/// 32-byte Keccak-256 digest of `data`.
#[verifier::external_body]
pub(crate) fn keccak256(data: &[u8]) -> (r: [u8; 32])
    ensures
        r@ == keccak_of(data@),
{
    let mut h = tiny_keccak::Keccak::v256();
    tiny_keccak::Hasher::update(&mut h, data);
    let mut out = [0u8; 32];
    tiny_keccak::Hasher::finalize(h, &mut out);
    out
}

/// Relies on k256's `VerifyingKey::recover_from_prehash`, with the scalars
/// read by `Signature::from_scalars` and the id by `RecoveryId::from_byte`;
/// the key is returned by `to_encoded_point(false)`, which writes the
/// uncompressed SEC1 form (`0x04`, then the two 32-byte coordinates).
#[verifier::external_body]
fn recover_key(prehash: &[u8; 32], r: &[u8; 32], s: &[u8; 32], recovery_id: u8) -> (res: Option<Vec<u8>>)
    requires
        recovery_id <= 3,
    ensures
        match res {
            Some(k) => recovered_key(prehash@, r@, s@, recovery_id) == Some(k@) && k@.len() == 65
                && k@[0] == 4,
            None => recovered_key(prehash@, r@, s@, recovery_id) is None,
        },
{
    let sig = match k256::ecdsa::Signature::from_scalars(*r, *s) {
        Ok(sig) => sig,
        Err(_) => return None,
    };
    let id = k256::ecdsa::RecoveryId::from_byte(recovery_id)?;
    match k256::ecdsa::VerifyingKey::recover_from_prehash(prehash, &sig, id) {
        Ok(key) => Some(key.to_encoded_point(false).as_bytes().to_vec()),
        Err(_) => None,
    }
}

/// The address of an uncompressed public key: the low 20 bytes of the
/// Keccak-256 digest of the key without its `0x04` prefix.
pub open spec fn address_of_key(key: Seq<u8>) -> Seq<u8> {
    keccak_of(key.subrange(1, key.len() as int)).subrange(12, 32)
}

/// The address of a signer: what `address_of_key` gives on the key recovered
/// from `prehash`, `r`, `s` and `recovery_id`, if one is recovered.
pub open spec fn signer_address(prehash: Seq<u8>, r: Seq<u8>, s: Seq<u8>, recovery_id: u8) -> Option<Seq<u8>> {
    match recovered_key(prehash, r, s, recovery_id) {
        Some(k) => Some(address_of_key(k)),
        None => None,
    }
}

/// Maps an uncompressed public key to its 20-byte address.
pub fn pubk_to_adr(pubk: &[u8]) -> (r: [u8; 20])
    requires
        pubk@.len() >= 1,
    ensures
        r@ == address_of_key(pubk@),
{
    let n = pubk.len();
    let hash = keccak256(&pubk[1..n]);
    let mut out = [0u8; 20];
    let mut i: usize = 0;
    while i < 20
        invariant
            0 <= i <= 20,
            hash@ == keccak_of(pubk@.subrange(1, n as int)),
            forall|j: int| 0 <= j < i ==> out@[j] == hash@[12 + j],
        decreases 20 - i,
    {
        out[i] = hash[12 + i];
        i += 1;
    }
    assert(out@ =~= hash@.subrange(12, 32));
    out
}

/// Recovers the address that signed `prehash`, if the signature yields a key.
pub fn recover(prehash: &[u8; 32], r: &[u8; 32], s: &[u8; 32], recovery_id: u8) -> (res: Option<[u8; 20]>)
    requires
        recovery_id <= 3,
    ensures
        match res {
            Some(a) => signer_address(prehash@, r@, s@, recovery_id) == Some(a@),
            None => signer_address(prehash@, r@, s@, recovery_id) is None,
        },
{
    match recover_key(prehash, r, s, recovery_id) {
        Some(k) => Some(pubk_to_adr(k.as_slice())),
        None => None,
    }
}

} // verus!
