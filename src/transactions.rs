//! Declarations bind a domain to a verifying key; updates carry records signed
//! under the declaration's key, over the update counter and the records, with
//! the declaration's content hash as signing context.
use vstd::prelude::*;

use rand::rngs::ThreadRng;

use crate::crypto::{
    blake3_hash, blake3_of, generate_secret, public_key, public_key_of, sign_prehashed,
    signature_of, signature_valid, verify_prehashed,
};
use crate::domains::{Domain, Record};
use crate::encoding::{
    domain_fits, domain_span, enc_domain, enc_records, enc_u32, lemma_domain_span,
    lemma_le_bytes_len, lemma_pow256_small, lemma_read_le, lemma_records_span, push_bytes,
    push_domain, push_le, push_records, read_le, records_fit, records_span,
};
use crate::error::LedgerError;

verus! {

/// A ledger entry: the claim of a domain, or a signed batch of records for a
/// domain claimed earlier.
#[derive(Debug, Clone)]
pub enum Transaction {
    Declaration { domain: Domain, verifying_key: [u8; 32], updates_sum: u32 },
    Update { declaration: [u8; 32], records: Vec<Record>, signature: [u8; 64] },
}

/// The canonical bytes of a transaction.
pub open spec fn enc_transaction(t: Transaction) -> Seq<u8> {
    match t {
        Transaction::Declaration { domain, verifying_key, updates_sum } => enc_u32(0) + enc_domain(
            domain,
        ) + verifying_key@ + enc_u32(updates_sum),
        Transaction::Update { declaration, records, signature } => enc_u32(1) + declaration@
            + enc_records(records@) + signature@,
    }
}

/// The content hash of a transaction.
pub open spec fn transaction_hash(t: Transaction) -> Seq<u8> {
    blake3_of(enc_transaction(t))
}

/// The bytes an update's signature covers: the counter, then the records.
pub open spec fn update_message(updates_sum: u32, records: Seq<Record>) -> Seq<u8> {
    enc_u32(updates_sum) + enc_records(records)
}

/// `u` is the update that `key` authorizes for declaration `d`, known by
/// `declaration_hash`, carrying `records`.
pub open spec fn is_authorized_update(
    d: Transaction,
    declaration_hash: Seq<u8>,
    records: Seq<Record>,
    key: Seq<u8>,
    u: Transaction,
) -> bool {
    match (d, u) {
        (
            Transaction::Declaration { updates_sum, .. },
            Transaction::Update { declaration, records: rs, signature },
        ) => {
            &&& declaration@ == declaration_hash
            &&& rs@ == records
            &&& signature@ == signature_of(
                key,
                update_message(updates_sum, records),
                declaration_hash,
            )
            &&& signature_valid(
                public_key_of(key),
                update_message(updates_sum, records),
                declaration_hash,
                signature@,
            )
        },
        _ => false,
    }
}

/// An update is accepted for declaration `d` when it names `d`'s content hash
/// and its signature holds under `d`'s key, over `d`'s counter and the
/// update's records, with that hash as context.
pub open spec fn update_accepted(d: Transaction, u: Transaction) -> bool {
    match (d, u) {
        (
            Transaction::Declaration { verifying_key, updates_sum, .. },
            Transaction::Update { declaration, records, signature },
        ) => {
            &&& declaration@ == transaction_hash(d)
            &&& signature_valid(
                verifying_key@,
                update_message(updates_sum, records@),
                declaration@,
                signature@,
            )
        },
        _ => false,
    }
}

/// The message an update's signature covers.
fn update_message_bytes(updates_sum: u32, records: &Vec<Record>) -> (r: Vec<u8>)
    ensures
        r@ == update_message(updates_sum, records@),
{
    let mut out: Vec<u8> = Vec::new();
    push_le(&mut out, updates_sum as u64, 4);
    push_records(&mut out, records);
    assert(out@ =~= update_message(updates_sum, records@));
    out
}

/// Appends the canonical bytes of a transaction.
pub fn push_transaction(out: &mut Vec<u8>, t: &Transaction)
    ensures
        final(out)@ == old(out)@ + enc_transaction(*t),
{
    match t {
        Transaction::Declaration { domain, verifying_key, updates_sum } => {
            push_le(out, 0, 4);
            push_domain(out, domain);
            push_bytes(out, verifying_key.as_slice());
            push_le(out, *updates_sum as u64, 4);
        },
        Transaction::Update { declaration, records, signature } => {
            push_le(out, 1, 4);
            push_bytes(out, declaration.as_slice());
            push_records(out, records);
            push_bytes(out, signature.as_slice());
        },
    }
    assert(final(out)@ =~= old(out)@ + enc_transaction(*t));
}

impl Transaction {
    /// Claims `domain` under a fresh key pair drawn from `rng`. Returns the
    /// declaration, with counter 0 and the public half of the pair, and the
    /// secret half, which the caller keeps.
    pub fn declare(domain: Domain, rng: &mut ThreadRng) -> (r: (Transaction, [u8; 32]))
        ensures
            r.0 == (Transaction::Declaration {
                domain,
                verifying_key: r.0->verifying_key,
                updates_sum: 0,
            }),
            r.0->verifying_key@ == public_key_of(r.1@),
    {
        let secret = generate_secret(rng);
        let verifying_key = public_key(&secret);
        (Transaction::Declaration { domain, verifying_key, updates_sum: 0 }, secret)
    }

    /// The canonical bytes of this transaction.
    pub fn encode(&self) -> (r: Vec<u8>)
        ensures
            r@ == enc_transaction(*self),
    {
        let mut out: Vec<u8> = Vec::new();
        push_transaction(&mut out, self);
        assert(out@ =~= enc_transaction(*self));
        out
    }

    /// The content hash of this transaction.
    pub fn hash(&self) -> (r: [u8; 32])
        ensures
            r@ == transaction_hash(*self),
    {
        let bytes = self.encode();
        blake3_hash(bytes.as_slice())
    }

    /// Signs `records` as the next update of this declaration, known by
    /// `declaration_hash`, with `signing_key`: the signature covers the
    /// counter and the records and takes the hash as context. The declaration
    /// is left as it is; advancing its counter is the caller's part. An
    /// update in place of a declaration is refused.
    pub fn update(
        &mut self,
        declaration_hash: [u8; 32],
        records: Vec<Record>,
        signing_key: [u8; 32],
    ) -> (r: Result<Transaction, LedgerError>)
        ensures
            *final(self) == *old(self),
            match r {
                Ok(u) => is_authorized_update(
                    *old(self),
                    declaration_hash@,
                    records@,
                    signing_key@,
                    u,
                ),
                Err(e) => (*old(self)) is Update && e == LedgerError::WrongVariant,
            },
            (*old(self)) is Declaration <==> r is Ok,
    {
        match self {
            Transaction::Declaration { updates_sum, .. } => {
                let msg = update_message_bytes(*updates_sum, &records);
                let signed = sign_prehashed(&signing_key, msg.as_slice(), declaration_hash.as_slice());
                let signature = signed.unwrap();
                Ok(Transaction::Update { declaration: declaration_hash, records, signature })
            },
            Transaction::Update { .. } => Err(LedgerError::WrongVariant),
        }
    }

    /// Whether `update` is accepted for this declaration: it names this
    /// declaration's content hash, and its signature holds under this
    /// declaration's key over the current counter and the update's records,
    /// with that hash as context. Anything else, a declaration on either side
    /// included, is not accepted.
    pub fn verify_update(&self, update: &Transaction) -> (r: bool)
        ensures
            r == update_accepted(*self, *update),
    {
        let (verifying_key, updates_sum) = match self {
            Transaction::Declaration { verifying_key, updates_sum, .. } => (verifying_key, *updates_sum),
            Transaction::Update { .. } => {
                return false;
            },
        };
        let (declaration, records, signature) = match update {
            Transaction::Update { declaration, records, signature } => (declaration, records, signature),
            Transaction::Declaration { .. } => {
                return false;
            },
        };
        let own = self.hash();
        let mut k: usize = 0;
        while k < 32
            invariant
                k <= 32,
                own@ == transaction_hash(*self),
                update is Update,
                *declaration == update->declaration,
                forall|m: int| 0 <= m < k ==> own@[m] == declaration@[m],
            decreases 32 - k,
        {
            if own[k] != declaration[k] {
                assert(own@[k as int] != declaration@[k as int]);
                assert(own@ != declaration@);
                return false;
            }
            k = k + 1;
        }
        assert(own@ =~= declaration@);
        let msg = update_message_bytes(updates_sum, records);
        verify_prehashed(verifying_key, msg.as_slice(), declaration.as_slice(), signature)
    }
}

/// Every length in the transaction's encoding can be held by its count.
pub open spec fn transaction_fits(t: Transaction) -> bool {
    match t {
        Transaction::Declaration { domain, .. } => domain_fits(domain),
        Transaction::Update { records, .. } => records_fit(records@),
    }
}

/// How many bytes the transaction encoded at the front of `b` takes.
#[verifier::opaque]
pub open spec fn transaction_span(b: Seq<u8>) -> int {
    if read_le(b, 4) == 0 {
        4 + domain_span(b.skip(4)) + 36
    } else {
        36 + records_span(b.skip(36)) + 64
    }
}

/// A transaction's encoding says where it ends, whatever follows it.
pub proof fn lemma_transaction_span(t: Transaction, rest: Seq<u8>)
    requires
        transaction_fits(t),
    ensures
        transaction_span(enc_transaction(t) + rest) == enc_transaction(t).len(),
{
    reveal(transaction_span);
    let b = enc_transaction(t) + rest;
    lemma_pow256_small();
    match t {
        Transaction::Declaration { domain, verifying_key, updates_sum } => {
            let tail = verifying_key@ + enc_u32(updates_sum);
            lemma_le_bytes_len(0, 4);
            lemma_le_bytes_len(updates_sum as nat, 4);
            assert(b =~= enc_u32(0) + (enc_domain(domain) + (tail + rest)));
            lemma_read_le(0, 4, enc_domain(domain) + (tail + rest));
            assert(b.skip(4) =~= enc_domain(domain) + (tail + rest));
            lemma_domain_span(domain, tail + rest);
        },
        Transaction::Update { declaration, records, signature } => {
            lemma_le_bytes_len(1, 4);
            assert(b =~= enc_u32(1) + (declaration@ + enc_records(records@) + signature@ + rest));
            lemma_read_le(1, 4, declaration@ + enc_records(records@) + signature@ + rest);
            assert(b.skip(36) =~= enc_records(records@) + (signature@ + rest));
            lemma_records_span(records@, signature@ + rest);
        },
    }
}

/// An update that a declaration's own key authorizes against the
/// declaration's content hash is accepted for that declaration.
pub proof fn lemma_authorized_update_accepted(
    d: Transaction,
    records: Seq<Record>,
    key: Seq<u8>,
    u: Transaction,
)
    requires
        d is Declaration,
        d->verifying_key@ == public_key_of(key),
        is_authorized_update(d, transaction_hash(d), records, key, u),
    ensures
        update_accepted(d, u),
{
}

/// An update whose declaration hash is changed is no longer accepted.
pub proof fn lemma_changed_hash_rejected(d: Transaction, u: Transaction, forged: [u8; 32])
    requires
        u is Update,
        update_accepted(d, u),
        forged@ != u->declaration@,
    ensures
        !update_accepted(
            d,
            Transaction::Update { declaration: forged, records: u->records, signature: u->signature },
        ),
{
}

/// An update made against one declaration is not accepted for another
/// declaration with a different content hash, whichever keys the two carry.
pub proof fn lemma_replay_rejected(d1: Transaction, d2: Transaction, u: Transaction)
    requires
        u is Update,
        u->declaration@ == transaction_hash(d1),
        transaction_hash(d1) != transaction_hash(d2),
    ensures
        !update_accepted(d2, u),
{
}

} // verus!
