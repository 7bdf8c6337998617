//! The payment ledger view: payment records, the status derived from
//! them, and their externally rendered projection.
use vstd::prelude::*;

use crate::codec;
use crate::errors::BridgeError;

verus! {

/// The externally visible state of a payment record.  It is derived afresh
/// on every read (never cached), since wall-clock time advances
/// independently of any write.
#[derive(Debug, Clone, Copy, PartialEq, Eq, Structural)]
pub enum PaymentStatus {
    /// Not settled yet and not past its expiry bound.
    Pending,
    /// Settled by the federation.
    Paid,
    /// Unsettled and past its expiry bound.
    Expired,
}

/// A payment record: created when an invoice is issued or an outgoing
/// payment is observed, settled by the background synchronizer as the
/// federation reports it, and never deleted while a client is active.
#[derive(Debug)]
#[verifier::ext_equal]
pub struct Payment {
    /// The encoded invoice this record was created from.
    pub invoice: String,
    /// The content-derived identifier of the invoice; the lookup key.
    pub payment_hash: Vec<u8>,
    /// Unix timestamp (seconds) of the record's creation.
    pub created_at: u64,
    /// Unix timestamp (seconds) after which the payment counts as expired.
    pub expires_at: u64,
    /// Whether the federation has settled the payment.
    pub paid: bool,
}

/// The number of bytes in a payment hash.
pub const PAYMENT_HASH_LEN: usize = 32;

impl Payment {
    /// A well-formed record carries a full-size payment hash.
    pub open spec fn wf(&self) -> bool {
        self.payment_hash@.len() == PAYMENT_HASH_LEN
    }
}

/// What a payment's status is at time `now`: `Paid` takes precedence over
/// `Expired`, which takes precedence over `Pending`.
pub open spec fn spec_status(paid: bool, expires_at: u64, now: u64) -> PaymentStatus {
    if paid {
        PaymentStatus::Paid
    } else if now > expires_at {
        PaymentStatus::Expired
    } else {
        PaymentStatus::Pending
    }
}

impl Payment {
    /// Derive the record's status at time `now`.
    pub fn status(&self, now: u64) -> (s: PaymentStatus)
        ensures
            s == spec_status(self.paid, self.expires_at, now),
    {
        if self.paid {
            PaymentStatus::Paid
        } else if now > self.expires_at {
            PaymentStatus::Expired
        } else {
            PaymentStatus::Pending
        }
    }
}

/// Law: a payment's status is a pure function of `(paid, expiry, now)` —
/// identical inputs always yield identical output — and it follows the
/// precedence `Paid` over `Expired` over `Pending`: a settled payment is
/// `Paid` regardless of `now`; an unsettled one is `Expired` exactly when
/// `now` exceeds its expiry bound, and `Pending` otherwise.
pub proof fn lemma_status_pure(
    paid1: bool,
    expires1: u64,
    now1: u64,
    paid2: bool,
    expires2: u64,
    now2: u64,
)
    requires
        paid1 == paid2,
        expires1 == expires2,
        now1 == now2,
    ensures
        spec_status(paid1, expires1, now1) == spec_status(paid2, expires2, now2),
        paid1 ==> spec_status(paid1, expires1, now1) == PaymentStatus::Paid,
        !paid1 && now1 > expires1 ==> spec_status(paid1, expires1, now1)
            == PaymentStatus::Expired,
        !paid1 && now1 <= expires1 ==> spec_status(paid1, expires1, now1)
            == PaymentStatus::Pending,
{
}

impl Clone for Payment {
    /// A clone carries the same record, field for field.
    fn clone(&self) -> (r: Self)
        ensures
            r.invoice == self.invoice,
            r.payment_hash@ == self.payment_hash@,
            r.created_at == self.created_at,
            r.expires_at == self.expires_at,
            r.paid == self.paid,
    {
        Payment {
            invoice: self.invoice.clone(),
            payment_hash: copy_bytes(&self.payment_hash),
            created_at: self.created_at,
            expires_at: self.expires_at,
            paid: self.paid,
        }
    }
}

/// A byte-for-byte copy.
pub fn copy_bytes(v: &Vec<u8>) -> (r: Vec<u8>)
    ensures
        r@ == v@,
{
    let n = v.len();
    let mut r: Vec<u8> = Vec::new();
    let mut i: usize = 0;
    loop
        invariant
            i <= n,
            n == v@.len(),
            r@ == v@.take(i as int),
        ensures
            r@ == v@.take(n as int),
        decreases n - i,
    {
        if i >= n {
            break ;
        }
        r.push(v[i]);
        proof {
            assert(r@ =~= v@.take(i as int + 1));
        }
        i = i + 1;
    }
    proof {
        assert(v@.take(n as int) =~= v@);
    }
    r
}

/// Whether two byte strings hold the same bytes.
pub fn bytes_eq(a: &Vec<u8>, b: &Vec<u8>) -> (r: bool)
    ensures
        r == (a@ == b@),
{
    if a.len() != b.len() {
        return false;
    }
    let n = a.len();
    let mut i: usize = 0;
    loop
        invariant
            i <= n,
            n == a@.len() == b@.len(),
            forall|j: int| 0 <= j < i ==> a@[j] == b@[j],
        ensures
            i == n,
            forall|j: int| 0 <= j < n ==> a@[j] == b@[j],
        decreases n - i,
    {
        if i >= n {
            break ;
        }
        if a[i] != b[i] {
            return false;
        }
        i = i + 1;
    }
    proof {
        assert(a@ =~= b@);
    }
    true
}

/// The index of the record keyed by `hash`, if any.
pub fn find_payment(ps: &Vec<Payment>, hash: &Vec<u8>) -> (r: Option<usize>)
    ensures
        r matches Some(i) ==> i < ps@.len() && ps@[i as int].payment_hash@ == hash@,
        r is None <==> (forall|i: int| 0 <= i < ps@.len() ==> ps@[i].payment_hash@ != hash@),
{
    let n = ps.len();
    let mut i: usize = 0;
    loop
        invariant
            i <= n,
            n == ps@.len(),
            forall|j: int| 0 <= j < i ==> ps@[j].payment_hash@ != hash@,
        ensures
            i == n,
            forall|j: int| 0 <= j < n ==> ps@[j].payment_hash@ != hash@,
        decreases n - i,
    {
        if i >= n {
            break ;
        }
        if bytes_eq(&ps[i].payment_hash, hash) {
            return Some(i);
        }
        i = i + 1;
    }
    None
}

/// The externally rendered projection of a payment record: the decoded
/// invoice, the status derived at the time of the read, and the record's
/// raw creation time and settledness.  Built per read; never persisted.
#[derive(Debug, Clone)]
pub struct BridgePayment {
    /// The invoice's human-readable rendering.
    pub invoice: String,
    /// The status derived at the time of the read.
    pub status: PaymentStatus,
    /// Unix timestamp (seconds) of the record's creation.
    pub created_at: u64,
    /// Whether the federation has settled the payment.
    pub paid: bool,
}

/// What projection a record has at time `now`.
pub open spec fn spec_is_projection(b: BridgePayment, p: Payment, now: u64) -> bool {
    &&& codec::spec_wf_encoded(p.invoice@)
    &&& b.invoice@ == codec::spec_human_of(p.invoice@)
    &&& b.status == spec_status(p.paid, p.expires_at, now)
    &&& b.created_at == p.created_at
    &&& b.paid == p.paid
}

/// Project one record for the caller.  Fails, with `InvoiceInvalid`,
/// exactly when the record's stored invoice does not decode.
pub fn project_payment(p: &Payment, now: u64) -> (r: Result<BridgePayment, BridgeError>)
    ensures
        r is Ok <==> codec::spec_wf_encoded(p.invoice@),
        r matches Ok(b) ==> spec_is_projection(b, *p, now),
        r matches Err(e) ==> e == BridgeError::InvoiceInvalid,
{
    match codec::decode_invoice(p.invoice.clone()) {
        Ok(invoice) => Ok(
            BridgePayment {
                invoice,
                status: p.status(now),
                created_at: p.created_at,
                paid: p.paid,
            },
        ),
        Err(e) => Err(e),
    }
}

} // verus!
