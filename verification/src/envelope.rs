//! The cryptographic envelope around transactions: content digests, client
//! signature checking through the batched verification obligation, single
//! authority signatures, incremental certificate aggregation, and the quorum
//! check of a finished certificate.

use vstd::prelude::*;
use crate::base_types::{AuthorityName, TransactionDigest};
use crate::codec::enc_data;
use crate::committee::{spec_weight_of, Committee};
use crate::crypto::{
    address_of_public_key, ed25519_verifies, sha3_digest, spec_address_of_public_key, sha3_of,
    AuthoritySignature, KeyPair, Signature, VerificationObligation,
};
use crate::error::{SuiError, SuiResult};
use crate::messages::{
    CertifiedTransaction, CertifiedTransactionV, Transaction, TransactionV, TransactionDataV,
    AuthoritySignedData, SignedTransaction,
};

verus! {

/// Indexing into a pushed sequence reads the old elements, then the new.
proof fn lemma_push_index<A>(s: Seq<A>, e: A, k: int)
    ensures
        0 <= k < s.len() ==> s.push(e)[k] == s[k],
        k == s.len() ==> s.push(e)[k] == e,
{
}

/// The digest of transaction data: the SHA3-256 hash of its canonical
/// encoding. Signatures are not hashed, so re-signing never changes it.
pub open spec fn spec_transaction_digest(d: TransactionDataV) -> Seq<u8> {
    sha3_of(enc_data(d))
}

/// Whether a transaction's client signature is valid: the signing key owns
/// the sender address and the signature verifies over the canonical
/// encoding of the data.
pub open spec fn spec_tx_signature_valid(t: TransactionV) -> bool {
    &&& spec_address_of_public_key(t.signature.public_key) == t.data.sender
    &&& ed25519_verifies(t.signature.public_key, enc_data(t.data), t.signature.signature)
}

/// The digest of two transactions depends on their data alone: equal data
/// gives equal digests, whatever their signatures or check marks.
pub proof fn lemma_digest_depends_only_on_data(t1: TransactionV, t2: TransactionV)
    requires
        t1.data == t2.data,
    ensures
        spec_transaction_digest(t1.data) == spec_transaction_digest(t2.data),
{
}

/// Certificates are compared by digest: two certificates over the same
/// transaction data are digest-equal even when their signature sets differ.
pub proof fn lemma_certificates_digest_equal(c1: CertifiedTransactionV, c2: CertifiedTransactionV)
    requires
        c1.transaction.data == c2.transaction.data,
    ensures
        spec_transaction_digest(c1.transaction.data) == spec_transaction_digest(
            c2.transaction.data,
        ),
{
}

impl Transaction {
    /// The cryptographic name of this transaction.
    pub fn digest(&self) -> (r: TransactionDigest)
        ensures
            r@ == spec_transaction_digest(self@.data),
    {
        let bytes = self.data.to_bytes();
        TransactionDigest(sha3_digest(&bytes))
    }

    /// Sign data with a client key pair. The resulting transaction carries a
    /// signature that verifies, and that is valid for the data whenever the
    /// key pair owns the sender address.
    pub fn from_data(data: crate::messages::TransactionData, key: &KeyPair) -> (r: Transaction)
        requires
            key.well_formed(),
        ensures
            r@.data == data@,
            !r@.is_checked,
            r@.signature.public_key == key.public@,
            ed25519_verifies(key.public@, enc_data(data@), r@.signature.signature),
            spec_address_of_public_key(key.public@) == data@.sender ==> spec_tx_signature_valid(
                r@,
            ),
    {
        let bytes = data.to_bytes();
        let signature = Signature::new(&bytes, key);
        Transaction::new(data, signature)
    }

    /// Queue this transaction's client signature onto a batched
    /// verification obligation. Fails, touching nothing, when the signing
    /// key does not own the sender address.
    pub fn add_to_verification_obligation(&self, obligation: &mut VerificationObligation) -> (r:
        SuiResult<()>)
        requires
            old(obligation).well_formed(),
        ensures
            final(obligation).well_formed(),
            r is Ok <==> spec_address_of_public_key(self@.signature.public_key)
                == self@.data.sender,
            r is Err ==> *final(obligation) == *old(obligation),
            r is Err ==> r->Err_0 is InvalidSignature,
            r is Ok ==> (final(obligation).all_valid() <==> (old(obligation).all_valid()
                && ed25519_verifies(
                self@.signature.public_key,
                enc_data(self@.data),
                self@.signature.signature,
            ))),
    {
        let ghost o0 = *obligation;
        let derived = address_of_public_key(&self.signature.public_key);
        let sender = self.sender_address();
        if !(derived == sender) {
            return Err(
                SuiError::InvalidSignature {
                    error: "the signing key does not own the sender address".to_owned(),
                },
            );
        }
        let message = self.data.to_bytes();
        let idx = obligation.messages.len();
        obligation.messages.push(message);
        obligation.message_index.push(idx);
        obligation.public_keys.push(self.signature.public_key);
        obligation.signatures.push(self.signature.signature);
        proof {
            let o1 = *obligation;
            let n = o0.message_index@.len() as int;
            assert forall|i: int| 0 <= i < n implies {
                &&& o1.message_index@[i] == o0.message_index@[i]
                &&& o1.public_keys@[i] == o0.public_keys@[i]
                &&& o1.signatures@[i] == o0.signatures@[i]
                &&& o1.messages@[o1.message_index@[i] as int] == o0.messages@[o0.message_index@[i]
                    as int]
            } by {
                lemma_push_index(o0.message_index@, idx, i);
                lemma_push_index(o0.public_keys@, self.signature.public_key, i);
                lemma_push_index(o0.signatures@, self.signature.signature, i);
                lemma_push_index(o0.messages@, message, o0.message_index@[i] as int);
            }
            assert(o1.message_index@[n] == idx && o1.public_keys@[n] == self.signature.public_key
                && o1.signatures@[n] == self.signature.signature) by {
                lemma_push_index(o0.message_index@, idx, n);
                lemma_push_index(o0.public_keys@, self.signature.public_key, n);
                lemma_push_index(o0.signatures@, self.signature.signature, n);
            }
            assert(o1.messages@[idx as int] == message) by {
                lemma_push_index(o0.messages@, message, idx as int);
            }
            if o1.all_valid() {
                assert(o0.all_valid()) by {
                    assert forall|i: int|
                        0 <= i < o0.message_index@.len() implies ed25519_verifies(
                        o0.public_keys@[i]@,
                        o0.messages@[o0.message_index@[i] as int]@,
                        o0.signatures@[i]@,
                    ) by {
                        assert(ed25519_verifies(
                            o1.public_keys@[i]@,
                            o1.messages@[o1.message_index@[i] as int]@,
                            o1.signatures@[i]@,
                        ));
                    }
                }
                assert(ed25519_verifies(
                    o1.public_keys@[n]@,
                    o1.messages@[o1.message_index@[n] as int]@,
                    o1.signatures@[n]@,
                ));
            }
            if o0.all_valid() && ed25519_verifies(
                self@.signature.public_key,
                enc_data(self@.data),
                self@.signature.signature,
            ) {
                assert forall|i: int|
                    0 <= i < o1.message_index@.len() implies ed25519_verifies(
                    o1.public_keys@[i]@,
                    o1.messages@[o1.message_index@[i] as int]@,
                    o1.signatures@[i]@,
                ) by {
                    if i < n {
                        assert(ed25519_verifies(
                            o0.public_keys@[i]@,
                            o0.messages@[o0.message_index@[i] as int]@,
                            o0.signatures@[i]@,
                        ));
                    }
                }
            }
        }
        Ok(())
    }

    /// Check the client signature. Idempotent: a transaction already marked
    /// checked passes without recomputation.
    pub fn check_signature(&self) -> (r: SuiResult<()>)
        ensures
            r is Ok <==> (self@.is_checked || spec_tx_signature_valid(self@)),
            r is Err ==> r->Err_0 is InvalidSignature,
    {
        if self.is_checked {
            return Ok(());
        }
        let mut obligation = VerificationObligation::new();
        let ghost empty_ob = obligation;
        match self.add_to_verification_obligation(&mut obligation) {
            Ok(_) => {},
            Err(e) => {
                return Err(e);
            },
        }
        proof {
            assert(empty_ob.all_valid());
        }
        obligation.verify_all()
    }
}

impl AuthoritySignedData<Transaction> {
    /// Sign a transaction's data as one authority.
    pub fn new(transaction: Transaction, authority: AuthorityName, secret: &KeyPair) -> (r:
        SignedTransaction)
        requires
            secret.well_formed(),
        ensures
            r@.data == transaction@,
            r@.authority == authority@,
            ed25519_verifies(secret.public@, enc_data(transaction@.data), r@.signature),
    {
        let bytes = transaction.data.to_bytes();
        let signature = AuthoritySignature::new(&bytes, secret);
        AuthoritySignedData { data: transaction, authority, signature }
    }

    /// Verify the client signature and this authority's own signature, and
    /// return the authority's voting weight, which must not be zero.
    pub fn check(&self, committee: &Committee) -> (r: SuiResult<u64>)
        ensures
            r is Ok <==> ((self@.data.is_checked || spec_tx_signature_valid(self@.data))
                && spec_weight_of(committee.voting_rights@, self@.authority) > 0
                && ed25519_verifies(self@.authority, enc_data(self@.data.data), self@.signature)),
            r matches Ok(w) ==> w as int == spec_weight_of(committee.voting_rights@, self@.authority),
            r is Err && !(self@.data.is_checked || spec_tx_signature_valid(self@.data))
                ==> r->Err_0 is InvalidSignature,
            r is Err && (self@.data.is_checked || spec_tx_signature_valid(self@.data))
                && spec_weight_of(committee.voting_rights@, self@.authority) == 0
                ==> r->Err_0 is UnknownSigner,
            r is Err && (self@.data.is_checked || spec_tx_signature_valid(self@.data))
                && spec_weight_of(committee.voting_rights@, self@.authority) > 0
                ==> r->Err_0 is InvalidSignature,
    {
        match self.data.check_signature() {
            Ok(_) => {},
            Err(e) => {
                return Err(e);
            },
        }
        let weight = committee.weight(&self.authority);
        if weight == 0 {
            return Err(SuiError::UnknownSigner);
        }
        let message = self.data.data.to_bytes();
        match self.signature.check(&message, &self.authority.0) {
            Ok(_) => {},
            Err(e) => {
                return Err(e);
            },
        }
        Ok(weight)
    }
}

/// The signer names of a certificate's signature list.
pub open spec fn spec_unique_signers(sigs: Seq<(Seq<u8>, Seq<u8>)>) -> bool {
    forall|i: int, j: int| 0 <= i < j < sigs.len() ==> sigs[i].0 != sigs[j].0
}

/// The summed committee weight of a certificate's signers.
pub open spec fn spec_cert_weight_sum(sigs: Seq<(Seq<u8>, Seq<u8>)>, committee: Committee) -> int
    decreases sigs.len(),
{
    if sigs.len() == 0 {
        0
    } else {
        spec_cert_weight_sum(sigs.drop_last(), committee) + spec_weight_of(
            committee.voting_rights@,
            sigs.last().0,
        )
    }
}

/// The structural validity of a certificate's signer set: no authority
/// twice, every signer known, and the summed weight at quorum.
pub open spec fn spec_cert_quorum_ok(c: CertifiedTransactionV, committee: Committee) -> bool {
    &&& spec_unique_signers(c.signatures)
    &&& (forall|k: int|
        0 <= k < c.signatures.len() ==> spec_weight_of(
            committee.voting_rights@,
            (#[trigger] c.signatures[k]).0,
        ) > 0)
    &&& spec_cert_weight_sum(c.signatures, committee) >= committee.spec_quorum_threshold()
}

/// Whether every authority signature of a certificate verifies over the
/// transaction data's canonical encoding.
pub open spec fn spec_cert_sigs_valid(c: CertifiedTransactionV) -> bool {
    forall|k: int|
        0 <= k < c.signatures.len() ==> ed25519_verifies(
            (#[trigger] c.signatures[k]).0,
            enc_data(c.transaction.data),
            c.signatures[k].1,
        )
}

/// Full validity of a certificate against a committee.
pub open spec fn spec_cert_valid(c: CertifiedTransactionV, committee: Committee) -> bool {
    &&& spec_cert_quorum_ok(c, committee)
    &&& spec_tx_signature_valid(c.transaction)
    &&& spec_cert_sigs_valid(c)
}

/// A valid certificate carries a duplicate-free signer set whose summed
/// voting weight reaches the quorum threshold.
pub proof fn lemma_certificate_quorum(c: CertifiedTransactionV, committee: Committee)
    requires
        spec_cert_valid(c, committee),
    ensures
        spec_cert_weight_sum(c.signatures, committee) >= committee.spec_quorum_threshold(),
        spec_unique_signers(c.signatures),
{
}

impl CertifiedTransaction {
    /// The digest of the underlying transaction; the name certificates are
    /// compared by.
    pub fn digest(&self) -> (r: TransactionDigest)
        ensures
            r@ == spec_transaction_digest(self@.transaction.data),
    {
        self.transaction.digest()
    }
}


/// Whether a signature list already carries an authority's name.
fn contains_signer(v: &Vec<(AuthorityName, AuthoritySignature)>, a: &AuthorityName) -> (r: bool)
    ensures
        r == exists|k: int|
            0 <= k < v@.len() && (#[trigger] crate::messages::auth_sigs_view(v@)[k]).0 == a@,
{
    let mut i: usize = 0;
    while i < v.len()
        invariant
            0 <= i <= v@.len(),
            forall|k: int| 0 <= k < i ==> (#[trigger] v@[k]).0@ != a@,
        decreases v@.len() - i,
    {
        if crate::base_types::bytes_eq(&v[i].0.0, &a.0) {
            proof {
                assert(crate::messages::auth_sigs_view(v@)[i as int].0 == a@);
            }
            return true;
        }
        i += 1;
    }
    proof {
        if exists|k: int|
            0 <= k < v@.len() && (#[trigger] crate::messages::auth_sigs_view(v@)[k]).0 == a@ {
            let k = choose|k: int|
                0 <= k < v@.len() && (#[trigger] crate::messages::auth_sigs_view(v@)[k]).0 == a@;
            assert(v@[k].0@ == a@);
        }
    }
    false
}

/// Collects authority signatures over one transaction until their summed
/// voting weight reaches the quorum threshold.
pub struct SignatureAggregator {
    pub committee: Committee,
    pub weight: u128,
    pub partial: CertifiedTransaction,
}

impl SignatureAggregator {
    /// The collected weight matches the collected signatures, no authority
    /// appears twice, every signer is known, and every collected signature
    /// verifies.
    pub open spec fn well_formed(self) -> bool {
        &&& self.committee.well_formed()
        &&& self.weight as int == spec_cert_weight_sum(self.partial@.signatures, self.committee)
        &&& spec_unique_signers(self.partial@.signatures)
        &&& (forall|k: int|
            0 <= k < self.partial@.signatures.len() ==> spec_weight_of(
                self.committee.voting_rights@,
                (#[trigger] self.partial@.signatures[k]).0,
            ) > 0)
        &&& spec_cert_sigs_valid(self.partial@)
        &&& self.weight as int <= self.partial@.signatures.len() * 0xffffffffffffffff
    }

    /// Start aggregating signatures for a transaction, checking the client
    /// signature first.
    pub fn try_new(transaction: Transaction, committee: Committee) -> (r: SuiResult<
        SignatureAggregator,
    >)
        requires
            committee.well_formed(),
        ensures
            r is Ok <==> (transaction@.is_checked || spec_tx_signature_valid(transaction@)),
            r matches Ok(a) ==> a.well_formed() && a.partial@.transaction == transaction@
                && a.partial@.signatures.len() == 0,
            r is Err ==> r->Err_0 is InvalidSignature,
    {
        match transaction.check_signature() {
            Ok(_) => {},
            Err(e) => {
                return Err(e);
            },
        }
        Ok(Self::new_unsafe(transaction, committee))
    }

    /// Start aggregating without checking the client signature; for call
    /// sites that already verified it.
    pub fn new_unsafe(transaction: Transaction, committee: Committee) -> (r: SignatureAggregator)
        requires
            committee.well_formed(),
        ensures
            r.well_formed(),
            r.partial@.transaction == transaction@,
            r.partial@.signatures.len() == 0,
    {
        let partial = CertifiedTransaction::new(transaction);
        SignatureAggregator { committee, weight: 0, partial }
    }

    /// Append one authority signature. Returns the finished certificate
    /// exactly when the collected weight has reached the quorum threshold.
    pub fn append(&mut self, authority: AuthorityName, signature: AuthoritySignature) -> (r:
        SuiResult<Option<CertifiedTransaction>>)
        requires
            old(self).well_formed(),
        ensures
            final(self).well_formed(),
            final(self).committee == old(self).committee,
            final(self).partial@.transaction == old(self).partial@.transaction,
            r is Ok <==> (ed25519_verifies(
                authority@,
                enc_data(old(self).partial@.transaction.data),
                signature@,
            ) && !(exists|k: int|
                0 <= k < old(self).partial@.signatures.len() && (#[trigger] old(
                    self,
                ).partial@.signatures[k]).0 == authority@) && spec_weight_of(
                old(self).committee.voting_rights@,
                authority@,
            ) > 0),
            r is Err ==> *final(self) == *old(self),
            r is Err && !ed25519_verifies(
                authority@,
                enc_data(old(self).partial@.transaction.data),
                signature@,
            ) ==> r->Err_0 is InvalidSignature,
            r is Err && ed25519_verifies(
                authority@,
                enc_data(old(self).partial@.transaction.data),
                signature@,
            ) && (exists|k: int|
                0 <= k < old(self).partial@.signatures.len() && (#[trigger] old(
                    self,
                ).partial@.signatures[k]).0 == authority@) ==> r->Err_0
                is CertificateAuthorityReuse,
            r is Err && ed25519_verifies(
                authority@,
                enc_data(old(self).partial@.transaction.data),
                signature@,
            ) && !(exists|k: int|
                0 <= k < old(self).partial@.signatures.len() && (#[trigger] old(
                    self,
                ).partial@.signatures[k]).0 == authority@) ==> r->Err_0 is UnknownSigner,
            r is Ok ==> final(self).partial@.signatures == old(self).partial@.signatures.push(
                (authority@, signature@),
            ),
            r matches Ok(opt) ==> (opt is Some <==> spec_cert_weight_sum(
                final(self).partial@.signatures,
                final(self).committee,
            ) >= final(self).committee.spec_quorum_threshold()),
            r matches Ok(opt) ==> (opt matches Some(cert) ==> cert@ == final(self).partial@
                && spec_cert_quorum_ok(cert@, final(self).committee) && spec_cert_sigs_valid(
                cert@,
            )),
    {
        let message = self.partial.transaction.data.to_bytes();
        match signature.check(&message, &authority.0) {
            Ok(_) => {},
            Err(e) => {
                return Err(e);
            },
        }
        if contains_signer(&self.partial.signatures, &authority) {
            return Err(SuiError::CertificateAuthorityReuse);
        }
        let voting_rights = self.committee.weight(&authority);
        if voting_rights == 0 {
            return Err(SuiError::UnknownSigner);
        }
        let n = self.partial.signatures.len();
        proof {
            assert(self.weight as int <= n * 0xffffffffffffffff);
            assert((n + 1) * 0xffffffffffffffff == n * 0xffffffffffffffff + 0xffffffffffffffff);
        }
        self.weight = self.weight + (voting_rights as u128);
        let ghost prev_sigs = self.partial.signatures@;
        self.partial.signatures.push((authority, signature));
        proof {
            let sv0 = crate::messages::auth_sigs_view(prev_sigs);
            let sv1 = crate::messages::auth_sigs_view(self.partial.signatures@);
            assert(sv1 =~= sv0.push((authority@, signature@)));
            assert(sv1.drop_last() =~= sv0);
            assert(sv1.last() == (authority@, signature@));
            assert forall|i: int, j: int| 0 <= i < j < sv1.len() implies sv1[i].0 != sv1[j].0 by {
                lemma_push_index(sv0, (authority@, signature@), i);
                lemma_push_index(sv0, (authority@, signature@), j);
                if j < sv0.len() {
                } else {
                    assert(sv1[j].0 == authority@);
                }
            }
            assert forall|k: int|
                0 <= k < sv1.len() implies spec_weight_of(
                self.committee.voting_rights@,
                (#[trigger] sv1[k]).0,
            ) > 0 by {
                lemma_push_index(sv0, (authority@, signature@), k);
            }
            assert forall|k: int|
                0 <= k < sv1.len() implies ed25519_verifies(
                (#[trigger] sv1[k]).0,
                enc_data(self.partial@.transaction.data),
                sv1[k].1,
            ) by {
                lemma_push_index(sv0, (authority@, signature@), k);
            }
        }
        let threshold = self.committee.quorum_threshold();
        if self.weight >= threshold as u128 {
            let cert = self.partial.clone();
            Ok(Some(cert))
        } else {
            Ok(None)
        }
    }
}

impl CertifiedTransaction {
    /// Queue the quorum check and every signature of this certificate onto
    /// a batched verification obligation: the client signature once, and
    /// one entry per authority signature, all sharing a single message
    /// buffer. Fails without touching the obligation when the signer set is
    /// malformed or below quorum.
    #[verifier::loop_isolation(false)]
    #[verifier::rlimit(100)]
    #[verifier::spinoff_prover]
    pub fn add_to_verification_obligation(
        &self,
        committee: &Committee,
        obligation: &mut VerificationObligation,
    ) -> (r: SuiResult<()>)
        requires
            old(obligation).well_formed(),
            committee.well_formed(),
        ensures
            final(obligation).well_formed(),
            r is Ok <==> (spec_cert_quorum_ok(self@, *committee)
                && spec_address_of_public_key(self@.transaction.signature.public_key)
                == self@.transaction.data.sender),
            r is Err ==> *final(obligation) == *old(obligation),
            r is Err && !spec_unique_signers(self@.signatures) && (forall|k: int|
                0 <= k < self@.signatures.len() ==> spec_weight_of(
                    committee.voting_rights@,
                    (#[trigger] self@.signatures[k]).0,
                ) > 0) ==> r->Err_0 is CertificateAuthorityReuse,
            r is Err && spec_unique_signers(self@.signatures) && (exists|k: int|
                0 <= k < self@.signatures.len() && spec_weight_of(
                    committee.voting_rights@,
                    (#[trigger] self@.signatures[k]).0,
                ) == 0) ==> r->Err_0 is UnknownSigner,
            r is Err && spec_unique_signers(self@.signatures) && (forall|k: int|
                0 <= k < self@.signatures.len() ==> spec_weight_of(
                    committee.voting_rights@,
                    (#[trigger] self@.signatures[k]).0,
                ) > 0) && spec_cert_weight_sum(self@.signatures, *committee)
                < committee.spec_quorum_threshold() ==> r->Err_0 is CertificateRequiresQuorum,
            r is Err && spec_cert_quorum_ok(self@, *committee) ==> r->Err_0 is InvalidSignature,
            r is Ok ==> (final(obligation).all_valid() <==> (old(obligation).all_valid()
                && spec_tx_signature_valid(self@.transaction) && spec_cert_sigs_valid(self@))),
    {
        let ghost o0 = *obligation;
        let n = self.signatures.len();
        let mut weight: u128 = 0;
        let mut i: usize = 0;
        let ghost sv = crate::messages::auth_sigs_view(self.signatures@);
        proof {
            assert(sv.take(0) =~= Seq::<(Seq<u8>, Seq<u8>)>::empty());
        }
        while i < n
            invariant
                0 <= i <= n,
                weight as int == spec_cert_weight_sum(sv.take(i as int), *committee),
                weight as int <= i * 0xffffffffffffffff,
                forall|a: int, b: int| 0 <= a < b < i ==> sv[a].0 != sv[b].0,
                forall|k: int|
                    0 <= k < i ==> spec_weight_of(
                        committee.voting_rights@,
                        (#[trigger] sv[k]).0,
                    ) > 0,
            decreases n - i,
        {
            let (authority, _sig) = &self.signatures[i];
            let mut j: usize = 0;
            while j < i
                invariant
                    0 <= j <= i <= n,
                    forall|k: int| 0 <= k < j ==> sv[k].0 != sv[i as int].0,
                decreases i - j,
            {
                if crate::base_types::bytes_eq(&self.signatures[j].0.0, &authority.0) {
                    proof {
                        assert(sv[j as int].0 == sv[i as int].0);
                        assert(!spec_unique_signers(self@.signatures));
                    }
                    return Err(SuiError::CertificateAuthorityReuse);
                }
                j += 1;
            }
            let voting_rights = committee.weight(authority);
            if voting_rights == 0 {
                proof {
                    assert(spec_weight_of(committee.voting_rights@, sv[i as int].0) == 0);
                    assert(exists|k: int|
                        0 <= k < self@.signatures.len() && spec_weight_of(
                            committee.voting_rights@,
                            (#[trigger] self@.signatures[k]).0,
                        ) == 0);
                }
                return Err(SuiError::UnknownSigner);
            }
            proof {
                assert((i + 1) * 0xffffffffffffffff == i * 0xffffffffffffffff
                    + 0xffffffffffffffff);
                assert(sv.take(i + 1).drop_last() =~= sv.take(i as int));
                assert(sv.take(i + 1).last() == sv[i as int]);
            }
            weight = weight + (voting_rights as u128);
            i += 1;
        }
        proof {
            assert(sv.take(n as int) =~= sv);
            assert(spec_unique_signers(self@.signatures));
            assert(forall|k: int|
                0 <= k < self@.signatures.len() ==> spec_weight_of(
                    committee.voting_rights@,
                    (#[trigger] self@.signatures[k]).0,
                ) > 0);
            if spec_cert_quorum_ok(self@, *committee) && !(weight as int
                >= committee.spec_quorum_threshold()) {
                assert(false);
            }
        }
        let threshold = committee.quorum_threshold();
        if weight < threshold as u128 {
            return Err(SuiError::CertificateRequiresQuorum);
        }
        match self.transaction.add_to_verification_obligation(obligation) {
            Ok(_) => {},
            Err(e) => {
                return Err(e);
            },
        }
        let ghost o1 = *obligation;
        let message = self.transaction.data.to_bytes();
        let idx = obligation.messages.len();
        obligation.messages.push(message);
        let ghost o2 = *obligation;
        proof {
            assert forall|q: int|
                0 <= q < o2.message_index@.len() implies o2.messages@[o2.message_index@[q] as int]
                == o1.messages@[o1.message_index@[q] as int] by {
                lemma_push_index(o1.messages@, message, o1.message_index@[q] as int);
            }
            if o1.all_valid() {
                assert forall|q: int|
                    0 <= q < o2.message_index@.len() implies ed25519_verifies(
                    o2.public_keys@[q]@,
                    o2.messages@[o2.message_index@[q] as int]@,
                    o2.signatures@[q]@,
                ) by {
                    assert(ed25519_verifies(
                        o1.public_keys@[q]@,
                        o1.messages@[o1.message_index@[q] as int]@,
                        o1.signatures@[q]@,
                    ));
                }
            }
            if o2.all_valid() {
                assert forall|q: int|
                    0 <= q < o1.message_index@.len() implies ed25519_verifies(
                    o1.public_keys@[q]@,
                    o1.messages@[o1.message_index@[q] as int]@,
                    o1.signatures@[q]@,
                ) by {
                    assert(ed25519_verifies(
                        o2.public_keys@[q]@,
                        o2.messages@[o2.message_index@[q] as int]@,
                        o2.signatures@[q]@,
                    ));
                }
            }
            assert(o2.all_valid() == o1.all_valid());
            assert(o2.messages@[idx as int]@ == enc_data(self@.transaction.data)) by {
                lemma_push_index(o1.messages@, message, idx as int);
            }
        }
        let mut k: usize = 0;
        while k < n
            invariant
                0 <= k <= n,
                obligation.well_formed(),
                obligation.messages@ == o2.messages@,
                obligation.message_index@.len() == o2.message_index@.len() + k,
                obligation.public_keys@.len() == o2.public_keys@.len() + k,
                obligation.signatures@.len() == o2.signatures@.len() + k,
                forall|q: int|
                    0 <= q < o2.message_index@.len() ==> (#[trigger] obligation.message_index@[q])
                        == o2.message_index@[q] && obligation.public_keys@[q]
                        == o2.public_keys@[q] && obligation.signatures@[q] == o2.signatures@[q],
                forall|q: int|
                    0 <= q < k ==> (#[trigger] obligation.message_index@[o2.message_index@.len()
                        + q]) as int == idx && obligation.public_keys@[o2.message_index@.len()
                        + q]@ == sv[q].0 && obligation.signatures@[o2.message_index@.len() + q]@
                        == sv[q].1,
            decreases n - k,
        {
            let (authority, sig) = self.signatures[k];
            let pk_elem = authority.0;
            let sig_elem = sig.0;
            let ghost ob_prev = *obligation;
            let ghost base = o2.message_index@.len() as int;
            obligation.public_keys.push(pk_elem);
            obligation.signatures.push(sig_elem);
            obligation.message_index.push(idx);
            k += 1;
            proof {
                assert(obligation.message_index@ == ob_prev.message_index@.push(idx));
                assert(obligation.public_keys@ == ob_prev.public_keys@.push(pk_elem));
                assert(obligation.signatures@ == ob_prev.signatures@.push(sig_elem));
                assert forall|q: int|
                    0 <= q < base implies (#[trigger] obligation.message_index@[q])
                    == o2.message_index@[q] && obligation.public_keys@[q] == o2.public_keys@[q]
                    && obligation.signatures@[q] == o2.signatures@[q] by {
                    lemma_push_index(ob_prev.message_index@, idx, q);
                    lemma_push_index(ob_prev.public_keys@, pk_elem, q);
                    lemma_push_index(ob_prev.signatures@, sig_elem, q);
                }
                assert forall|q: int|
                    0 <= q < k implies (#[trigger] obligation.message_index@[base + q]) as int
                    == idx && obligation.public_keys@[base + q]@ == sv[q].0
                    && obligation.signatures@[base + q]@ == sv[q].1 by {
                    lemma_push_index(ob_prev.message_index@, idx, base + q);
                    lemma_push_index(ob_prev.public_keys@, pk_elem, base + q);
                    lemma_push_index(ob_prev.signatures@, sig_elem, base + q);
                    if q == k - 1 {
                        assert(sv[q].0 == self.signatures@[q].0@);
                        assert(sv[q].1 == self.signatures@[q].1.0@);
                    }
                }
            }
        }
        proof {
            let of = *obligation;
            let base = o2.message_index@.len() as int;
            if of.all_valid() {
                assert(o2.all_valid()) by {
                    assert forall|q: int|
                        0 <= q < o2.message_index@.len() implies ed25519_verifies(
                        o2.public_keys@[q]@,
                        o2.messages@[o2.message_index@[q] as int]@,
                        o2.signatures@[q]@,
                    ) by {
                        assert(ed25519_verifies(
                            of.public_keys@[q]@,
                            of.messages@[of.message_index@[q] as int]@,
                            of.signatures@[q]@,
                        ));
                    }
                }
                assert forall|q: int|
                    0 <= q < sv.len() implies ed25519_verifies(
                    (#[trigger] sv[q]).0,
                    enc_data(self@.transaction.data),
                    sv[q].1,
                ) by {
                    assert(of.message_index@[base + q] as int == idx && of.public_keys@[base + q]@
                        == sv[q].0 && of.signatures@[base + q]@ == sv[q].1);
                    assert(ed25519_verifies(
                        of.public_keys@[base + q]@,
                        of.messages@[of.message_index@[base + q] as int]@,
                        of.signatures@[base + q]@,
                    ));
                }
            }
            if o2.all_valid() && spec_cert_sigs_valid(self@) {
                assert forall|q: int|
                    0 <= q < of.message_index@.len() implies ed25519_verifies(
                    of.public_keys@[q]@,
                    of.messages@[of.message_index@[q] as int]@,
                    of.signatures@[q]@,
                ) by {
                    if q < base {
                        assert(ed25519_verifies(
                            o2.public_keys@[q]@,
                            o2.messages@[o2.message_index@[q] as int]@,
                            o2.signatures@[q]@,
                        ));
                    } else {
                        let qq = q - base;
                        assert(of.message_index@[base + qq] as int == idx && of.public_keys@[base
                            + qq]@ == sv[qq].0 && of.signatures@[base + qq]@ == sv[qq].1);
                        assert(base + qq == q);
                        assert(ed25519_verifies(sv[qq].0, enc_data(self@.transaction.data),
                            sv[qq].1));
                        assert(of.messages@[of.message_index@[q] as int]@ == enc_data(
                            self@.transaction.data,
                        ));
                    }
                }
            }
        }
        Ok(())
    }

    /// Verify this certificate against a committee. Idempotent: a
    /// certificate already marked checked passes without recomputation.
    pub fn check(&self, committee: &Committee) -> (r: SuiResult<()>)
        requires
            committee.well_formed(),
        ensures
            r is Ok <==> (self@.is_checked || spec_cert_valid(self@, *committee)),
            r is Err && !spec_unique_signers(self@.signatures) && (forall|k: int|
                0 <= k < self@.signatures.len() ==> spec_weight_of(
                    committee.voting_rights@,
                    (#[trigger] self@.signatures[k]).0,
                ) > 0) ==> r->Err_0 is CertificateAuthorityReuse,
            r is Err && spec_unique_signers(self@.signatures) && (exists|k: int|
                0 <= k < self@.signatures.len() && spec_weight_of(
                    committee.voting_rights@,
                    (#[trigger] self@.signatures[k]).0,
                ) == 0) ==> r->Err_0 is UnknownSigner,
            r is Err && spec_unique_signers(self@.signatures) && (forall|k: int|
                0 <= k < self@.signatures.len() ==> spec_weight_of(
                    committee.voting_rights@,
                    (#[trigger] self@.signatures[k]).0,
                ) > 0) && spec_cert_weight_sum(self@.signatures, *committee)
                < committee.spec_quorum_threshold() ==> r->Err_0 is CertificateRequiresQuorum,
            r is Err && spec_cert_quorum_ok(self@, *committee) ==> r->Err_0 is InvalidSignature,
    {
        if self.is_checked {
            return Ok(());
        }
        let mut obligation = VerificationObligation::new();
        let ghost empty_ob = obligation;
        match self.add_to_verification_obligation(committee, &mut obligation) {
            Ok(_) => {},
            Err(e) => {
                return Err(e);
            },
        }
        proof {
            assert(empty_ob.all_valid());
        }
        obligation.verify_all()
    }
}

} // verus!
