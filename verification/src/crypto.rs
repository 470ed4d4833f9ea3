//! The cryptographic envelope: content hashing, client and authority
//! signatures, and the verification obligation that batches many signature
//! checks into one call.

use vstd::prelude::*;
use ed25519_dalek::{Signer, Verifier};
use sha3::Digest;
use crate::base_types::SuiAddress;
use crate::error::{SuiError, SuiResult};

verus! {

/// The SHA3-256 digest of a byte string; a function of the bytes alone.
pub uninterp spec fn sha3_of(data: Seq<u8>) -> Seq<u8>;

/// The Ed25519 signature a secret key produces over a message; RFC 8032
/// signing is deterministic, so this is a function of its arguments alone.
pub uninterp spec fn ed25519_signature_of(secret: Seq<u8>, message: Seq<u8>) -> Seq<u8>;

/// The Ed25519 public key derived from a secret key.
pub uninterp spec fn ed25519_public_key_of(secret: Seq<u8>) -> Seq<u8>;

/// Whether a signature verifies under a public key for a message. An
/// encoding that is not a valid public key verifies nothing.
pub uninterp spec fn ed25519_verifies(public_key: Seq<u8>, message: Seq<u8>, signature: Seq<u8>) -> bool;

/// Relies on `sha3::Sha3_256` through the `digest` traits: a 32-byte hash of
/// the input, depending on the input alone.
#[verifier::external_body]
pub fn sha3_digest(data: &Vec<u8>) -> (r: [u8; 32])
    ensures
        r@ == sha3_of(data@),
{
    sha3::Sha3_256::digest(data.as_slice()).into()
}

/// Relies on `ed25519_dalek::SigningKey::verifying_key`: the public key is a
/// function of the secret key alone.
#[verifier::external_body]
pub fn derive_public_key(secret: &[u8; 32]) -> (r: [u8; 32])
    ensures
        r@ == ed25519_public_key_of(secret@),
{
    ed25519_dalek::SigningKey::from_bytes(secret).verifying_key().to_bytes()
}

/// Relies on `ed25519_dalek::SigningKey::sign` (RFC 8032): deterministic in
/// secret key and message, and the produced signature verifies under the
/// derived public key.
#[verifier::external_body]
pub fn sign_bytes(secret: &[u8; 32], message: &Vec<u8>) -> (r: [u8; 64])
    ensures
        r@ == ed25519_signature_of(secret@, message@),
        ed25519_verifies(ed25519_public_key_of(secret@), message@, r@),
{
    ed25519_dalek::SigningKey::from_bytes(secret).sign(message.as_slice()).to_bytes()
}

/// Relies on `ed25519_dalek::VerifyingKey::verify`: accepts exactly the valid
/// signatures for this key and message; a byte string that is not a valid key
/// accepts nothing.
#[verifier::external_body]
pub fn verify_bytes(public_key: &[u8; 32], message: &Vec<u8>, signature: &[u8; 64]) -> (r: bool)
    ensures
        r == ed25519_verifies(public_key@, message@, signature@),
{
    match ed25519_dalek::VerifyingKey::from_bytes(public_key) {
        Ok(k) => k.verify(
            message.as_slice(),
            &ed25519_dalek::Signature::from_bytes(signature),
        ).is_ok(),
        Err(_) => false,
    }
}

/// Relies on `ed25519_dalek::verify_batch`: whenever every (message, key,
/// signature) triple verifies individually, the batch call succeeds. The
/// converse is not assumed: the batch equation can accept signature
/// encodings that single verification rejects, so batch acceptance alone is
/// never taken as proof that each triple is valid.
#[verifier::external_body]
fn verify_batch_bytes(
    messages: &Vec<Vec<u8>>,
    public_keys: &Vec<[u8; 32]>,
    signatures: &Vec<[u8; 64]>,
) -> (r: bool)
    requires
        messages@.len() == public_keys@.len(),
        messages@.len() == signatures@.len(),
    ensures
        (forall|i: int|
            0 <= i < messages@.len() ==> ed25519_verifies(
                public_keys@[i]@,
                messages@[i]@,
                signatures@[i]@,
            )) ==> r,
{
    let msgs: Vec<&[u8]> = messages.iter().map(|m| m.as_slice()).collect();
    let sigs: Vec<ed25519_dalek::Signature> =
        signatures.iter().map(ed25519_dalek::Signature::from_bytes).collect();
    match public_keys.iter().map(ed25519_dalek::VerifyingKey::from_bytes).collect::<Result<Vec<_>, _>>() {
        Ok(keys) => ed25519_dalek::verify_batch(&msgs, &sigs, &keys).is_ok(),
        Err(_) => false,
    }
}

/// The address that owns a public key: the first 20 bytes of the key's
/// SHA3-256 digest.
pub open spec fn spec_address_of_public_key(public_key: Seq<u8>) -> Seq<u8> {
    sha3_of(public_key).subrange(0, 20)
}

/// Derive the owning address of a public key.
pub fn address_of_public_key(public_key: &[u8; 32]) -> (r: SuiAddress)
    ensures
        r@ == spec_address_of_public_key(public_key@),
        sha3_of(public_key@).len() == 32,
{
    let mut key_bytes: Vec<u8> = Vec::new();
    let mut i: usize = 0;
    while i < 32
        invariant
            0 <= i <= 32,
            key_bytes@ == public_key@.subrange(0, i as int),
        decreases 32 - i,
    {
        key_bytes.push(public_key[i]);
        i += 1;
        proof {
            assert(key_bytes@ =~= public_key@.subrange(0, i as int));
        }
    }
    proof {
        assert(key_bytes@ =~= public_key@);
    }
    let digest = sha3_digest(&key_bytes);
    let mut addr = [0u8; 20];
    let mut j: usize = 0;
    while j < 20
        invariant
            0 <= j <= 20,
            digest@ == sha3_of(public_key@),
            addr@.len() == 20,
            forall|k: int| 0 <= k < j ==> addr@[k] == digest@[k],
        decreases 20 - j,
    {
        addr[j] = digest[j];
        j += 1;
    }
    proof {
        assert(addr@ =~= spec_address_of_public_key(public_key@));
    }
    SuiAddress(addr)
}

/// An Ed25519 key pair held as plain bytes; well formed when the public half
/// is the one derived from the secret half.
pub struct KeyPair {
    pub secret: [u8; 32],
    pub public: [u8; 32],
}

impl KeyPair {
    pub open spec fn well_formed(self) -> bool {
        self.public@ == ed25519_public_key_of(self.secret@)
    }

    /// Build a key pair from a 32-byte secret seed.
    pub fn from_seed(secret: [u8; 32]) -> (r: KeyPair)
        ensures
            r.well_formed(),
            r.secret == secret,
    {
        let public = derive_public_key(&secret);
        KeyPair { secret, public }
    }

    /// The address this key pair signs for.
    pub fn address(&self) -> (r: SuiAddress)
        ensures
            r@ == spec_address_of_public_key(self.public@),
    {
        address_of_public_key(&self.public)
    }
}

/// A client signature: the raw Ed25519 signature together with the public
/// key it verifies under, so that the sender address can be checked.
#[derive(Clone, Copy, Debug)]
pub struct Signature {
    pub signature: [u8; 64],
    pub public_key: [u8; 32],
}

/// Mathematical model of [`Signature`].
#[verifier::ext_equal]
pub ghost struct SignatureV {
    pub signature: Seq<u8>,
    pub public_key: Seq<u8>,
}

impl View for Signature {
    type V = SignatureV;

    open spec fn view(&self) -> SignatureV {
        SignatureV { signature: self.signature@, public_key: self.public_key@ }
    }
}

impl Signature {
    /// Sign a message; the result is valid for the key pair's address.
    pub fn new(message: &Vec<u8>, key: &KeyPair) -> (r: Signature)
        requires
            key.well_formed(),
        ensures
            r.public_key == key.public,
            r.signature@ == ed25519_signature_of(key.secret@, message@),
            ed25519_verifies(r.public_key@, message@, r.signature@),
    {
        let signature = sign_bytes(&key.secret, message);
        Signature { signature, public_key: key.public }
    }
}

/// An authority's signature over a message; the key is the authority's name.
#[derive(Clone, Copy, Debug)]
pub struct AuthoritySignature(pub [u8; 64]);

impl View for AuthoritySignature {
    type V = Seq<u8>;

    open spec fn view(&self) -> Seq<u8> {
        self.0@
    }
}

impl AuthoritySignature {
    /// Sign a message as an authority.
    pub fn new(message: &Vec<u8>, key: &KeyPair) -> (r: AuthoritySignature)
        requires
            key.well_formed(),
        ensures
            r.0@ == ed25519_signature_of(key.secret@, message@),
            ed25519_verifies(ed25519_public_key_of(key.secret@), message@, r.0@),
    {
        AuthoritySignature(sign_bytes(&key.secret, message))
    }

    /// Check this signature against an authority's public key.
    pub fn check(&self, message: &Vec<u8>, authority: &[u8; 32]) -> (r: SuiResult<()>)
        ensures
            r is Ok <==> ed25519_verifies(authority@, message@, self.0@),
            r is Err ==> r->Err_0 is InvalidSignature,
    {
        if verify_bytes(authority, message, &self.0) {
            Ok(())
        } else {
            Err(SuiError::InvalidSignature { error: "authority signature does not verify".to_owned() })
        }
    }
}

/// A batched accumulator of `(message, public key, signature)` triples that
/// are verified together. Many signatures over one message share a single
/// message buffer through `message_index`.
pub struct VerificationObligation {
    pub messages: Vec<Vec<u8>>,
    pub message_index: Vec<usize>,
    pub public_keys: Vec<[u8; 32]>,
    pub signatures: Vec<[u8; 64]>,
}

impl VerificationObligation {
    /// Parallel columns line up and every index points at a message.
    pub open spec fn well_formed(self) -> bool {
        &&& self.message_index@.len() == self.public_keys@.len()
        &&& self.message_index@.len() == self.signatures@.len()
        &&& forall|i: int|
            0 <= i < self.message_index@.len() ==> (self.message_index@[i] as int)
                < self.messages@.len()
    }

    /// Every accumulated triple verifies.
    pub open spec fn all_valid(self) -> bool {
        forall|i: int|
            0 <= i < self.message_index@.len() ==> ed25519_verifies(
                self.public_keys@[i]@,
                self.messages@[self.message_index@[i] as int]@,
                self.signatures@[i]@,
            )
    }

    pub fn new() -> (r: VerificationObligation)
        ensures
            r.well_formed(),
            r.messages@.len() == 0,
            r.message_index@.len() == 0,
            r.public_keys@.len() == 0,
            r.signatures@.len() == 0,
    {
        VerificationObligation {
            messages: Vec::new(),
            message_index: Vec::new(),
            public_keys: Vec::new(),
            signatures: Vec::new(),
        }
    }

    /// Verify everything accumulated: one batched call rejects fast, and a
    /// per-triple pass confirms, so success means every triple verifies
    /// individually even where the batch equation alone would be laxer.
    pub fn verify_all(&self) -> (r: SuiResult<()>)
        requires
            self.well_formed(),
        ensures
            r is Ok <==> self.all_valid(),
            r is Err ==> r->Err_0 is InvalidSignature,
    {
        let n = self.message_index.len();
        let mut expanded: Vec<Vec<u8>> = Vec::new();
        let mut i: usize = 0;
        while i < n
            invariant
                0 <= i <= n,
                n == self.message_index@.len(),
                self.well_formed(),
                expanded@.len() == i,
                forall|j: int|
                    0 <= j < i ==> expanded@[j]@ == self.messages@[self.message_index@[j] as int]@,
            decreases n - i,
        {
            let idx = self.message_index[i];
            let message = &self.messages[idx];
            let mut copy: Vec<u8> = Vec::new();
            let mut k: usize = 0;
            let len = message.len();
            while k < len
                invariant
                    0 <= k <= len,
                    len == message@.len(),
                    copy@ == message@.subrange(0, k as int),
                decreases len - k,
            {
                copy.push(message[k]);
                k += 1;
                proof {
                    assert(copy@ =~= message@.subrange(0, k as int));
                }
            }
            proof {
                assert(copy@ =~= message@);
            }
            expanded.push(copy);
            i += 1;
        }
        if !verify_batch_bytes(&expanded, &self.public_keys, &self.signatures) {
            proof {
                if self.all_valid() {
                    assert(forall|j: int|
                        0 <= j < expanded@.len() ==> ed25519_verifies(
                            self.public_keys@[j]@,
                            #[trigger] expanded@[j]@,
                            self.signatures@[j]@,
                        ));
                }
            }
            return Err(
                SuiError::InvalidSignature {
                    error: "batched signature verification failed".to_owned(),
                },
            );
        }
        let mut t: usize = 0;
        while t < n
            invariant
                0 <= t <= n,
                n == self.message_index@.len(),
                self.well_formed(),
                expanded@.len() == n,
                forall|j: int|
                    0 <= j < n ==> expanded@[j]@ == self.messages@[self.message_index@[j] as int]@,
                forall|j: int|
                    0 <= j < t ==> ed25519_verifies(
                        self.public_keys@[j]@,
                        self.messages@[#[trigger] self.message_index@[j] as int]@,
                        self.signatures@[j]@,
                    ),
            decreases n - t,
        {
            if !verify_bytes(&self.public_keys[t], &expanded[t], &self.signatures[t]) {
                return Err(
                    SuiError::InvalidSignature {
                        error: "a signature fails individual verification".to_owned(),
                    },
                );
            }
            t += 1;
        }
        Ok(())
    }
}

} // verus!
