//! The attestation signer: a batch result is framed with domain tags and a
//! timestamp, hashed, and signed so that the signer's public key can be
//! recovered from digest and signature.

use vstd::prelude::*;
use vstd::string::StringExecFns;

verus! {

/// The tag that opens every preimage: `|marlin-tee-matcher|`.
pub const PROTOCOL_TAG: [u8; 20] = [
    124, 109, 97, 114, 108, 105, 110, 45, 116, 101, 101, 45, 109, 97, 116, 99, 104, 101, 114, 124,
];

/// The tag that precedes the timestamp: `|timestamp|`.
pub const TIMESTAMP_TAG: [u8; 11] = [124, 116, 105, 109, 101, 115, 116, 97, 109, 112, 124];

/// The tag that precedes the serialized result: `|trade_response|`.
pub const PAYLOAD_TAG: [u8; 16] = [
    124, 116, 114, 97, 100, 101, 95, 114, 101, 115, 112, 111, 110, 115, 101, 124,
];

/// The offset added to a recovery identifier in the last byte of a signature
/// on the wire.
pub const RECOVERY_OFFSET: u8 = 27;

/// The eight bytes of `x`, most significant first.
pub open spec fn be_bytes(x: u64) -> Seq<u8> {
    seq![
        (x / 0x100_0000_0000_0000) as u8,
        (x / 0x1_0000_0000_0000 % 256) as u8,
        (x / 0x100_0000_0000 % 256) as u8,
        (x / 0x1_0000_0000 % 256) as u8,
        (x / 0x100_0000 % 256) as u8,
        (x / 0x1_0000 % 256) as u8,
        (x / 0x100 % 256) as u8,
        (x % 256) as u8,
    ]
}

/// The bytes that are hashed for a result `payload` stamped `timestamp`: the
/// protocol tag, the timestamp tag and the timestamp in eight big-endian
/// bytes, the payload tag and the payload.
pub open spec fn preimage(timestamp: u64, payload: Seq<u8>) -> Seq<u8> {
    PROTOCOL_TAG@ + TIMESTAMP_TAG@ + be_bytes(timestamp) + PAYLOAD_TAG@ + payload
}

/// The Keccak-256 digest of `data`.
pub uninterp spec fn keccak256(data: Seq<u8>) -> Seq<u8>;

/// The deterministic secp256k1 ECDSA signature of `digest` under the secret
/// scalar `key`: the 64 bytes of `r` and `s`, and the recovery identifier.
/// `None` where `key` is no usable signing key or the digest cannot be signed.
pub uninterp spec fn ecdsa_sign(key: Seq<u8>, digest: Seq<u8>) -> Option<(Seq<u8>, u8)>;

/// The secp256k1 public key of the secret scalar `key`, in compressed SEC1
/// form. `None` where `key` is no usable signing key.
pub uninterp spec fn ecdsa_public_key(key: Seq<u8>) -> Option<Seq<u8>>;

/// The public key, in compressed SEC1 form, under which `signature` with
/// `recovery_id` is a valid signature of `digest`. `None` where the three
/// determine no key.
pub uninterp spec fn ecdsa_recover(digest: Seq<u8>, signature: Seq<u8>, recovery_id: u8) -> Option<
    Seq<u8>,
>;

/// The digest that a signer and a verifier both compute for a result.
pub open spec fn attestation_digest(timestamp: u64, payload: Seq<u8>) -> Seq<u8> {
    keccak256(preimage(timestamp, payload))
}

/// The sixteen lower-case hexadecimal digits, in order.
pub open spec fn hex_digits() -> Seq<char> {
    seq!['0', '1', '2', '3', '4', '5', '6', '7', '8', '9', 'a', 'b', 'c', 'd', 'e', 'f']
}

/// The lower-case hexadecimal form of `bytes`: two digits per byte, the high
/// half first.
pub open spec fn hex_of(bytes: Seq<u8>) -> Seq<char> {
    Seq::new(
        2 * bytes.len(),
        |i: int|
            if i % 2 == 0 {
                hex_digits()[bytes[i / 2] as int / 16]
            } else {
                hex_digits()[bytes[i / 2] as int % 16]
            },
    )
}

/// The signature as it travels: `r`, `s`, and one byte that holds the
/// recovery identifier raised by [`RECOVERY_OFFSET`].
pub open spec fn wire_form(signature: Seq<u8>, recovery_id: u8) -> Seq<u8> {
    signature.push((recovery_id + RECOVERY_OFFSET) as u8)
}

/// Calls `tiny_keccak::Keccak::v256`, absorbs `data` with one `update`, and
/// squeezes 32 bytes with `finalize`. Trusted: the result is the Keccak-256
/// digest of `data`, 32 bytes long.
#[verifier::external_body]
fn keccak256_digest(data: &[u8]) -> (res: Vec<u8>)
    ensures
        res@ == keccak256(data@),
        res@.len() == 32,
{
    let mut hasher = tiny_keccak::Keccak::v256();
    tiny_keccak::Hasher::update(&mut hasher, data);
    let mut out = [0u8; 32];
    tiny_keccak::Hasher::finalize(hasher, &mut out);
    out.to_vec()
}

/// Calls `k256::ecdsa::SigningKey::from_slice` on `key` and then
/// `sign_prehash_recoverable` on `digest`. Trusted: the signature is a
/// function of key and digest alone (the nonce is derived from them); it is
/// 64 bytes long with a recovery identifier of at most 3; and a key shorter
/// than 24 or longer than 32 bytes is refused.
#[verifier::external_body]
fn sign_recoverable(key: &[u8], digest: &[u8]) -> (res: Option<(Vec<u8>, u8)>)
    ensures
        match res {
            Some((signature, recovery_id)) => {
                &&& ecdsa_sign(key@, digest@) == Some((signature@, recovery_id))
                &&& signature@.len() == 64
                &&& recovery_id <= 3
            },
            None => ecdsa_sign(key@, digest@) is None,
        },
        key@.len() < 24 || key@.len() > 32 ==> res is None,
{
    match k256::ecdsa::SigningKey::from_slice(key) {
        Ok(signer) => match signer.sign_prehash_recoverable(digest) {
            Ok((signature, recovery_id)) => Some(
                (signature.to_bytes().to_vec(), recovery_id.to_byte()),
            ),
            Err(_) => None,
        },
        Err(_) => None,
    }
}

/// Calls `k256::ecdsa::SigningKey::from_slice` on `key` and encodes its
/// `verifying_key` with `to_sec1_bytes`. Trusted: the result is the public
/// key of `key`, which depends on `key` alone.
#[verifier::external_body]
fn derive_public_key(key: &[u8]) -> (res: Option<Vec<u8>>)
    ensures
        match res {
            Some(public_key) => ecdsa_public_key(key@) == Some(public_key@),
            None => ecdsa_public_key(key@) is None,
        },
{
    match k256::ecdsa::SigningKey::from_slice(key) {
        Ok(signer) => Some(signer.verifying_key().to_sec1_bytes().to_vec()),
        Err(_) => None,
    }
}

/// Calls `k256::ecdsa::VerifyingKey::recover_from_prehash` on `digest`, on
/// `signature` parsed by `Signature::from_slice` and on `recovery_id` parsed
/// by `RecoveryId::from_byte`, and encodes the key with `to_sec1_bytes`.
/// Trusted: the result depends on the three arguments alone.
#[verifier::external_body]
fn recover_public_key(digest: &[u8], signature: &[u8], recovery_id: u8) -> (res: Option<Vec<u8>>)
    ensures
        match res {
            Some(public_key) => ecdsa_recover(digest@, signature@, recovery_id) == Some(
                public_key@,
            ),
            None => ecdsa_recover(digest@, signature@, recovery_id) is None,
        },
{
    let signature = k256::ecdsa::Signature::from_slice(signature).ok()?;
    let recovery_id = k256::ecdsa::RecoveryId::from_byte(recovery_id)?;
    let key = k256::ecdsa::VerifyingKey::recover_from_prehash(digest, &signature, recovery_id);
    Some(key.ok()?.to_sec1_bytes().to_vec())
}

/// Calls `hex::encode`. Trusted: the result holds two lower-case hexadecimal
/// digits per byte, the high half first.
#[verifier::external_body]
fn hex_encode(bytes: &[u8]) -> (res: String)
    ensures
        res@ == hex_of(bytes@),
{
    hex::encode(bytes)
}

/// Why no attestation was produced.
#[derive(Clone, Copy, Debug, PartialEq, Eq)]
pub enum AttestError {
    /// The signing key is absent or unusable.
    SigningUnavailable,
    /// A signature was made, but the signer's public key could not be
    /// recovered from it.
    Unrecoverable,
}

/// The mathematical content of a [`SignedAttestation`].
pub struct AttestationView {
    pub serialized_result: Seq<u8>,
    pub digest: Seq<u8>,
    pub signature: Seq<u8>,
    pub recovery_id: u8,
    pub timestamp: u64,
}

/// Attestation `att` commits to the result it carries and was signed by the
/// holder of public key `signer`: its digest is the digest of its framed
/// result, and `signer` is recovered from digest and signature.
pub open spec fn attests(att: AttestationView, signer: Seq<u8>) -> bool {
    &&& att.digest == attestation_digest(att.timestamp, att.serialized_result)
    &&& ecdsa_recover(att.digest, att.signature, att.recovery_id) == Some(signer)
}

/// What becomes of a result once its digest has gone through signing:
/// `signed` is what signing gave, `signer` the public key of the signing key,
/// and `recovered` the key recovered from the signature. An attestation is
/// made only where a signature exists and recovers to the signer.
pub open spec fn sealed(
    payload: Seq<u8>,
    timestamp: u64,
    digest: Seq<u8>,
    signed: Option<(Seq<u8>, u8)>,
    signer: Option<Seq<u8>>,
    recovered: Option<Seq<u8>>,
) -> Result<AttestationView, AttestError> {
    match (signed, signer) {
        (Some((signature, recovery_id)), Some(public_key)) => if recovered == Some(public_key) {
            Ok(
                AttestationView {
                    serialized_result: payload,
                    digest,
                    signature,
                    recovery_id,
                    timestamp,
                },
            )
        } else {
            Err(AttestError::Unrecoverable)
        },
        _ => Err(AttestError::SigningUnavailable),
    }
}

/// What signing the result `payload`, stamped `timestamp`, with `key` gives.
pub open spec fn signing_outcome(key: Seq<u8>, timestamp: u64, payload: Seq<u8>) -> Result<
    AttestationView,
    AttestError,
> {
    let digest = attestation_digest(timestamp, payload);
    let signed = ecdsa_sign(key, digest);
    let recovered = match signed {
        Some((signature, recovery_id)) => ecdsa_recover(digest, signature, recovery_id),
        None => None,
    };
    sealed(payload, timestamp, digest, signed, ecdsa_public_key(key), recovered)
}

/// The content of an optional byte string.
pub open spec fn bytes_view(o: Option<Vec<u8>>) -> Option<Seq<u8>> {
    match o {
        Some(v) => Some(v@),
        None => None,
    }
}

/// The content of an optional signature with its recovery identifier.
pub open spec fn signed_view(o: Option<(Vec<u8>, u8)>) -> Option<(Seq<u8>, u8)> {
    match o {
        Some((signature, recovery_id)) => Some((signature@, recovery_id)),
        None => None,
    }
}

/// A signed, timestamped commitment to a batch result.
#[derive(Debug, PartialEq, Eq)]
pub struct SignedAttestation {
    /// The serialized result that was signed.
    pub serialized_result: Vec<u8>,
    /// The digest of the framed result.
    pub digest: Vec<u8>,
    /// The 64 bytes of `r` and `s`.
    pub signature: Vec<u8>,
    /// The recovery identifier, 0 to 3.
    pub recovery_id: u8,
    /// The time the result was stamped with.
    pub timestamp: u64,
}

impl View for SignedAttestation {
    type V = AttestationView;

    open spec fn view(&self) -> AttestationView {
        AttestationView {
            serialized_result: self.serialized_result@,
            digest: self.digest@,
            signature: self.signature@,
            recovery_id: self.recovery_id,
            timestamp: self.timestamp,
        }
    }
}

/// Whether `a` and `b` hold the same bytes.
fn bytes_equal(a: &[u8], b: &[u8]) -> (res: bool)
    ensures
        res == (a@ == b@),
{
    if a.len() != b.len() {
        return false;
    }
    let mut i: usize = 0;
    while i < a.len()
        invariant
            i <= a.len(),
            a.len() == b.len(),
            forall|j: int| 0 <= j < i ==> a@[j] == b@[j],
        decreases a.len() - i,
    {
        if a[i] != b[i] {
            return false;
        }
        i += 1;
    }
    assert(a@ =~= b@);
    true
}

/// Appends `bytes` to `out`.
fn append_bytes(out: &mut Vec<u8>, bytes: &[u8])
    ensures
        final(out)@ == old(out)@ + bytes@,
{
    let mut i: usize = 0;
    while i < bytes.len()
        invariant
            i <= bytes.len(),
            out@ == old(out)@ + bytes@.take(i as int),
        decreases bytes.len() - i,
    {
        out.push(bytes[i]);
        assert(bytes@.take(i + 1) =~= bytes@.take(i as int).push(bytes@[i as int]));
        i += 1;
    }
    assert(bytes@.take(i as int) =~= bytes@);
}

/// The eight bytes of `x`, most significant first.
pub fn timestamp_bytes(x: u64) -> (res: Vec<u8>)
    ensures
        res@ == be_bytes(x),
{
    let b0 = (x >> 56) & 0xff;
    let b1 = (x >> 48) & 0xff;
    let b2 = (x >> 40) & 0xff;
    let b3 = (x >> 32) & 0xff;
    let b4 = (x >> 24) & 0xff;
    let b5 = (x >> 16) & 0xff;
    let b6 = (x >> 8) & 0xff;
    let b7 = x & 0xff;
    assert(b0 == x / 0x100_0000_0000_0000 && b0 < 256) by (bit_vector)
        requires
            b0 == (x >> 56) & 0xff,
    ;
    assert(b1 == x / 0x1_0000_0000_0000 % 256) by (bit_vector)
        requires
            b1 == (x >> 48) & 0xff,
    ;
    assert(b2 == x / 0x100_0000_0000 % 256) by (bit_vector)
        requires
            b2 == (x >> 40) & 0xff,
    ;
    assert(b3 == x / 0x1_0000_0000 % 256) by (bit_vector)
        requires
            b3 == (x >> 32) & 0xff,
    ;
    assert(b4 == x / 0x100_0000 % 256) by (bit_vector)
        requires
            b4 == (x >> 24) & 0xff,
    ;
    assert(b5 == x / 0x1_0000 % 256) by (bit_vector)
        requires
            b5 == (x >> 16) & 0xff,
    ;
    assert(b6 == x / 0x100 % 256) by (bit_vector)
        requires
            b6 == (x >> 8) & 0xff,
    ;
    assert(b7 == x % 256) by (bit_vector)
        requires
            b7 == x & 0xff,
    ;
    let mut res: Vec<u8> = Vec::new();
    res.push(b0 as u8);
    res.push(b1 as u8);
    res.push(b2 as u8);
    res.push(b3 as u8);
    res.push(b4 as u8);
    res.push(b5 as u8);
    res.push(b6 as u8);
    res.push(b7 as u8);
    assert(res@ =~= be_bytes(x));
    res
}

/// Frames a serialized result for hashing.
pub fn attestation_preimage(timestamp: u64, payload: &[u8]) -> (res: Vec<u8>)
    ensures
        res@ == preimage(timestamp, payload@),
{
    let mut res: Vec<u8> = Vec::new();
    let stamp = timestamp_bytes(timestamp);
    append_bytes(&mut res, PROTOCOL_TAG.as_slice());
    append_bytes(&mut res, TIMESTAMP_TAG.as_slice());
    append_bytes(&mut res, stamp.as_slice());
    append_bytes(&mut res, PAYLOAD_TAG.as_slice());
    append_bytes(&mut res, payload);
    assert(res@ =~= preimage(timestamp, payload@));
    res
}

/// Builds the attestation from what signing gave: `signed` is the signature
/// of `digest` with its recovery identifier, `signer` the public key of the
/// signing key, `recovered` the key recovered from digest and signature.
///
/// Without a signature or without a signer's key there is no attestation
/// because signing is unavailable; with both, there is one only if the
/// recovered key is the signer's.
pub fn seal(
    payload: Vec<u8>,
    timestamp: u64,
    digest: Vec<u8>,
    signed: Option<(Vec<u8>, u8)>,
    signer: Option<Vec<u8>>,
    recovered: Option<Vec<u8>>,
) -> (res: Result<SignedAttestation, AttestError>)
    ensures
        match res {
            Ok(att) => sealed(
                payload@,
                timestamp,
                digest@,
                signed_view(signed),
                bytes_view(signer),
                bytes_view(recovered),
            ) == Ok::<AttestationView, AttestError>(att@),
            Err(e) => sealed(
                payload@,
                timestamp,
                digest@,
                signed_view(signed),
                bytes_view(signer),
                bytes_view(recovered),
            ) == Err::<AttestationView, AttestError>(e),
        },
{
    match (signed, signer) {
        (Some((signature, recovery_id)), Some(public_key)) => {
            let same = match recovered {
                Some(found) => bytes_equal(found.as_slice(), public_key.as_slice()),
                None => false,
            };
            if same {
                Ok(
                    SignedAttestation {
                        serialized_result: payload,
                        digest,
                        signature,
                        recovery_id,
                        timestamp,
                    },
                )
            } else {
                Err(AttestError::Unrecoverable)
            }
        },
        _ => Err(AttestError::SigningUnavailable),
    }
}

/// The public key, in compressed SEC1 form, of the secret scalar `key`.
pub fn public_key(key: &[u8]) -> (res: Option<Vec<u8>>)
    ensures
        bytes_view(res) == ecdsa_public_key(key@),
{
    derive_public_key(key)
}

/// Signs the serialized result `payload`, stamped `timestamp`, with the secret
/// scalar `key`.
///
/// The digest is the Keccak-256 digest of the framed result, which anyone who
/// holds the result and the timestamp can compute again; the signature is the
/// deterministic signature of that digest under `key`. Before the attestation
/// is handed out, the signer's public key is recovered from it once: what is
/// returned always passes [`SignedAttestation::verify`] under that key. Where
/// `key` cannot sign, and so whenever it is shorter than 24 or longer than 32
/// bytes, signing is unavailable.
pub fn sign_result(key: &[u8], payload: Vec<u8>, timestamp: u64) -> (res: Result<
    SignedAttestation,
    AttestError,
>)
    ensures
        match res {
            Ok(att) => {
                &&& signing_outcome(key@, timestamp, payload@) == Ok::<
                    AttestationView,
                    AttestError,
                >(att@)
                &&& att.digest@.len() == 32
                &&& att.signature@.len() == 64
                &&& att.recovery_id <= 3
            },
            Err(e) => signing_outcome(key@, timestamp, payload@) == Err::<
                AttestationView,
                AttestError,
            >(e),
        },
        key@.len() < 24 || key@.len() > 32 ==> res == Err::<SignedAttestation, AttestError>(
            AttestError::SigningUnavailable,
        ),
{
    let framed = attestation_preimage(timestamp, payload.as_slice());
    let digest = keccak256_digest(framed.as_slice());
    let signed = sign_recoverable(key, digest.as_slice());
    let signer = derive_public_key(key);
    let recovered = match &signed {
        Some((signature, recovery_id)) => recover_public_key(
            digest.as_slice(),
            signature.as_slice(),
            *recovery_id,
        ),
        None => None,
    };
    seal(payload, timestamp, digest, signed, signer, recovered)
}

impl SignedAttestation {
    /// The signature as it travels: 64 bytes of `r` and `s`, then the recovery
    /// identifier raised by [`RECOVERY_OFFSET`].
    pub fn wire_signature(&self) -> (res: Vec<u8>)
        requires
            self.recovery_id <= u8::MAX - RECOVERY_OFFSET,
        ensures
            res@ == wire_form(self.signature@, self.recovery_id),
    {
        let mut res: Vec<u8> = Vec::new();
        append_bytes(&mut res, self.signature.as_slice());
        res.push(self.recovery_id + RECOVERY_OFFSET);
        res
    }

    /// The public key that digest and signature recover to, if any.
    pub fn recover_signer(&self) -> (res: Option<Vec<u8>>)
        ensures
            bytes_view(res) == ecdsa_recover(self.digest@, self.signature@, self.recovery_id),
    {
        recover_public_key(self.digest.as_slice(), self.signature.as_slice(), self.recovery_id)
    }

    /// Checks the attestation as a verifier does who knows the signer's
    /// public key: the digest is computed again from timestamp and result,
    /// and the key recovered from digest and signature must be `signer`.
    pub fn verify(&self, signer: &[u8]) -> (res: bool)
        ensures
            res == attests(self@, signer@),
    {
        let framed = attestation_preimage(self.timestamp, self.serialized_result.as_slice());
        let digest = keccak256_digest(framed.as_slice());
        if !bytes_equal(digest.as_slice(), self.digest.as_slice()) {
            return false;
        }
        match self.recover_signer() {
            Some(found) => bytes_equal(found.as_slice(), signer),
            None => false,
        }
    }

    /// The travelling signature in lower-case hexadecimal.
    pub fn signature_hex(&self) -> (res: String)
        requires
            self.recovery_id <= u8::MAX - RECOVERY_OFFSET,
        ensures
            res@ == hex_of(wire_form(self.signature@, self.recovery_id)),
    {
        let wire = self.wire_signature();
        hex_encode(wire.as_slice())
    }
}

/// The attestation line for a serialized ledger: the fixed prefix
/// `TEE Attestation: ` followed by `ledger_json`.
pub fn generate_attestation(ledger_json: &str) -> (res: String)
    ensures
        res@ == "TEE Attestation: "@ + ledger_json@,
{
    let mut res = String::from_str("TEE Attestation: ");
    res.append(ledger_json);
    res
}

/// Round trip: whatever the signer hands out verifies under the public key
/// of the signing key, for a verifier who frames timestamp and result with
/// the same tags and byte order.
pub proof fn lemma_signed_result_verifies(key: Seq<u8>, timestamp: u64, payload: Seq<u8>)
    requires
        signing_outcome(key, timestamp, payload) is Ok,
    ensures
        ecdsa_public_key(key) is Some,
        attests(signing_outcome(key, timestamp, payload)->Ok_0, ecdsa_public_key(key)->0),
        signing_outcome(key, timestamp, payload)->Ok_0.serialized_result == payload,
        signing_outcome(key, timestamp, payload)->Ok_0.timestamp == timestamp,
{
}

proof fn lemma_be_bytes_injective(x: u64, y: u64)
    requires
        be_bytes(x) == be_bytes(y),
    ensures
        x == y,
{
    let a = be_bytes(x);
    let b = be_bytes(y);
    assert(a[0] == b[0] && a[1] == b[1] && a[2] == b[2] && a[3] == b[3]);
    assert(a[4] == b[4] && a[5] == b[5] && a[6] == b[6] && a[7] == b[7]);
    assert(x / 0x100_0000_0000_0000 == y / 0x100_0000_0000_0000);
    assert(x / 0x1_0000_0000_0000 % 256 == y / 0x1_0000_0000_0000 % 256);
    assert(x / 0x100_0000_0000 % 256 == y / 0x100_0000_0000 % 256);
    assert(x / 0x1_0000_0000 % 256 == y / 0x1_0000_0000 % 256);
    assert(x / 0x100_0000 % 256 == y / 0x100_0000 % 256);
    assert(x / 0x1_0000 % 256 == y / 0x1_0000 % 256);
    assert(x / 0x100 % 256 == y / 0x100 % 256);
    assert(x % 256 == y % 256);
    assert(x == y) by (bit_vector)
        requires
            x / 0x100_0000_0000_0000 == y / 0x100_0000_0000_0000,
            x / 0x1_0000_0000_0000 % 256 == y / 0x1_0000_0000_0000 % 256,
            x / 0x100_0000_0000 % 256 == y / 0x100_0000_0000 % 256,
            x / 0x1_0000_0000 % 256 == y / 0x1_0000_0000 % 256,
            x / 0x100_0000 % 256 == y / 0x100_0000 % 256,
            x / 0x1_0000 % 256 == y / 0x1_0000 % 256,
            x / 0x100 % 256 == y / 0x100 % 256,
            x % 256 == y % 256,
    ;
}

/// Framing is unambiguous: results that are framed to the same bytes carry
/// the same timestamp and the same payload, so a digest stands for one
/// result only, as far as the hash tells its inputs apart.
pub proof fn lemma_preimage_injective(time_a: u64, payload_a: Seq<u8>, time_b: u64, payload_b: Seq<u8>)
    requires
        preimage(time_a, payload_a) == preimage(time_b, payload_b),
    ensures
        time_a == time_b,
        payload_a == payload_b,
{
    let a = preimage(time_a, payload_a);
    let b = preimage(time_b, payload_b);
    assert(be_bytes(time_a) =~= a.subrange(31, 39));
    assert(be_bytes(time_b) =~= b.subrange(31, 39));
    lemma_be_bytes_injective(time_a, time_b);
    assert(payload_a =~= a.subrange(55, a.len() as int));
    assert(payload_b =~= b.subrange(55, b.len() as int));
}

} // verus!
