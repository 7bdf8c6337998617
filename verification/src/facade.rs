//! The facade: the bridge's entry points.
//!
//! The host presents each of these as a blocking call: it runs the I/O on
//! its asynchronous engine (opening storage, fetching a federation's
//! configuration, submitting a payment, one synchronizer cycle) and hands
//! the outcome in as a plain value; the decision and every state change
//! of the registry and its ledger view are verified here.
use vstd::prelude::*;

use crate::codec;
use crate::errors::BridgeError;
use crate::hashkey;
use crate::ledger::copy_bytes;
use crate::ledger::find_payment;
use crate::ledger::project_payment;
use crate::ledger::spec_is_projection;
use crate::ledger::BridgePayment;
use crate::ledger::Payment;
use crate::registry::spec_hashes_unique;
use crate::registry::spec_payments_wf;
use crate::registry::ClientHandle;
use crate::registry::Registry;

verus! {

/// How long a freshly issued invoice lives, in seconds.
pub const INVOICE_EXPIRY_SECS: u64 = 86400;

/// The expiry bound of an invoice issued at `now`.
pub open spec fn spec_invoice_expiry(now: u64) -> u64 {
    if now <= u64::MAX - INVOICE_EXPIRY_SECS {
        (now + INVOICE_EXPIRY_SECS) as u64
    } else {
        u64::MAX
    }
}

/// Whether some record in `ps` is keyed by `h`.
pub open spec fn spec_has_hash(ps: Seq<Payment>, h: Seq<u8>) -> bool {
    exists|i: int| 0 <= i < ps.len() && ps[i].payment_hash@ == h
}

/// Whether `h` is one of the byte strings in `set`.
pub open spec fn spec_hash_in(set: Seq<Vec<u8>>, h: Seq<u8>) -> bool {
    exists|j: int| 0 <= j < set.len() && set[j]@ == h
}

/// How a ledger looks after a record is inserted under its hash: an
/// existing record with that hash is replaced in place, otherwise the
/// record is appended; nothing else moves.
pub open spec fn spec_upserted_at(
    ps_old: Seq<Payment>,
    ps_new: Seq<Payment>,
    p: Payment,
    k: int,
) -> bool {
    &&& 0 <= k < ps_new.len()
    &&& ps_new[k] == p
    &&& (if spec_has_hash(ps_old, p.payment_hash@) {
        &&& ps_new.len() == ps_old.len()
        &&& ps_old[k].payment_hash@ == p.payment_hash@
        &&& (forall|i: int| 0 <= i < ps_old.len() && i != k ==> ps_new[i] == ps_old[i])
    } else {
        &&& ps_new.len() == ps_old.len() + 1
        &&& k == ps_old.len()
        &&& (forall|i: int| 0 <= i < ps_old.len() ==> ps_new[i] == ps_old[i])
    })
}

pub open spec fn spec_upserted(ps_old: Seq<Payment>, ps_new: Seq<Payment>, p: Payment) -> bool {
    exists|k: int| #[trigger] spec_upserted_at(ps_old, ps_new, p, k)
}

/// Insert `p` under its hash, replacing the record that held the hash if
/// there was one.
fn upsert_payment(payments: &mut Vec<Payment>, p: Payment)
    requires
        spec_payments_wf(old(payments)@),
        p.wf(),
    ensures
        spec_payments_wf(final(payments)@),
        spec_upserted(old(payments)@, final(payments)@, p),
{
    let ghost ps_old = payments@;
    let ghost gp = p;
    match find_payment(payments, &p.payment_hash) {
        Some(i) => {
            let ghost ph = p.payment_hash@;
            payments[i] = p;
            proof {
                assert(spec_has_hash(ps_old, ph));
                assert(spec_upserted_at(ps_old, payments@, gp, i as int));
                assert(spec_hashes_unique(payments@)) by {
                    assert forall|a: int, b: int|
                        0 <= a < b < payments@.len() implies payments@[a].payment_hash@
                        != payments@[b].payment_hash@ by {
                        assert(ps_old[a].payment_hash@ != ps_old[b].payment_hash@);
                    }
                }
            }
        },
        None => {
            let ghost ph = p.payment_hash@;
            payments.push(p);
            proof {
                assert(!spec_has_hash(ps_old, ph));
                assert(spec_upserted_at(ps_old, payments@, gp, ps_old.len() as int));
                assert(spec_hashes_unique(payments@)) by {
                    assert forall|a: int, b: int|
                        0 <= a < b < payments@.len() implies payments@[a].payment_hash@
                        != payments@[b].payment_hash@ by {
                        if b < ps_old.len() {
                            assert(ps_old[a].payment_hash@ != ps_old[b].payment_hash@);
                        }
                    }
                }
            }
        },
    }
}

/// What opening persisted state found.
pub enum LoadOutcome {
    /// A fresh directory: no prior federation membership.
    NoPriorState,
    /// Prior membership, with what was reloaded from disk.
    PriorState(LoadedState),
    /// State exists on disk but could not be opened or read.
    Unreadable,
}

/// The client state reloaded from persisted storage.
pub struct LoadedState {
    pub balance: u64,
    pub payments: Vec<Payment>,
}

impl LoadedState {
    pub open spec fn wf(&self) -> bool {
        spec_payments_wf(self.payments@)
    }
}

/// Initialize the bridge from persisted state.  Any previously installed
/// client is cleared first.  If prior membership was found, a fresh
/// client is installed over the reloaded state and `true` comes back (the
/// host then starts one background synchronizer bound to the new
/// handle); a fresh directory installs nothing and yields `false`; state
/// that exists but cannot be opened is `StorageError`.
pub fn init(reg: &mut Registry, load: LoadOutcome) -> (r: Result<bool, BridgeError>)
    requires
        old(reg).wf(),
        old(reg).next_generation < u64::MAX,
        load matches LoadOutcome::PriorState(s) ==> s.wf(),
    ensures
        final(reg).wf(),
        final(reg).next_generation >= old(reg).next_generation,
        match r {
            Ok(true) => load matches LoadOutcome::PriorState(s) && (final(reg).active
                matches Some(c) && c.handle.generation == old(reg).next_generation && c.balance
                == s.balance && c.payments@ == s.payments@),
            Ok(false) => load is NoPriorState && !final(reg).has_active(),
            Err(e) => e == BridgeError::StorageError && load is Unreadable && !final(reg).has_active(),
        },
{
    reg.clear();
    match load {
        LoadOutcome::NoPriorState => Ok(false),
        LoadOutcome::Unreadable => Err(BridgeError::StorageError),
        LoadOutcome::PriorState(s) => {
            let LoadedState { balance, payments } = s;
            reg.install(balance, payments);
            Ok(true)
        },
    }
}

/// What fetching a federation's configuration came to.
pub enum ConfigFetch {
    /// Fetched and parsed; membership was established.
    Connected,
    /// The configuration endpoint could not be reached.
    Unreachable,
    /// The response could not be parsed.
    InvalidConfig,
}

/// Join a federation.  The host has already destructively reset the
/// user's persisted state and tried to fetch the configuration from the
/// given url; on success a fresh client with an empty ledger and zero
/// balance is installed and its handle returned (the host starts one
/// background synchronizer bound to it).  On failure the registry is left
/// exactly as it was.
pub fn join_federation(reg: &mut Registry, fetched: ConfigFetch) -> (r: Result<
    ClientHandle,
    BridgeError,
>)
    requires
        old(reg).wf(),
        old(reg).next_generation < u64::MAX,
    ensures
        final(reg).wf(),
        match r {
            Ok(h) => {
                &&& fetched is Connected
                &&& h.generation == old(reg).next_generation
                &&& final(reg).next_generation == old(reg).next_generation + 1
                &&& (final(reg).active matches Some(c) && c.handle == h && c.balance == 0
                    && c.payments@ =~= Seq::<Payment>::empty())
            },
            Err(e) => *final(reg) == *old(reg) && ((e == BridgeError::FederationUnreachable
                && fetched is Unreachable) || (e == BridgeError::ConfigInvalid
                && fetched is InvalidConfig)),
        },
{
    match fetched {
        ConfigFetch::Unreachable => Err(BridgeError::FederationUnreachable),
        ConfigFetch::InvalidConfig => Err(BridgeError::ConfigInvalid),
        ConfigFetch::Connected => {
            let h = reg.install(0, Vec::new());
            Ok(h)
        },
    }
}

/// Leave the federation: clear the slot, which also supersedes the
/// synchronizer's handle and so stops it.  The host erases the persisted
/// state (irrecoverably discarding any unredeemed value).  Idempotent —
/// leaving with nothing installed is not an error.
pub fn leave_federation(reg: &mut Registry) -> (r: Result<(), BridgeError>)
    requires
        old(reg).wf(),
    ensures
        final(reg).wf(),
        r is Ok,
        !final(reg).has_active(),
        final(reg).next_generation == old(reg).next_generation,
    {
    reg.clear();
    Ok(())
}

/// The spendable balance of the installed client.
pub fn balance(reg: &Registry) -> (r: Result<u64, BridgeError>)
    ensures
        match r {
            Ok(b) => reg.active matches Some(c) && b == c.balance,
            Err(e) => !reg.has_active() && e == BridgeError::NoActiveFederation,
        },
{
    match &reg.active {
        Some(c) => Ok(c.balance),
        None => Err(BridgeError::NoActiveFederation),
    }
}

/// The record `pay` writes for a submitted invoice.
pub open spec fn spec_pay_record(p: Payment, s: Seq<char>, now: u64) -> bool {
    &&& p.invoice@ == s
    &&& p.payment_hash@ == codec::hex_decode_chars(codec::spec_hash_chars(s))
    &&& p.created_at == now
    &&& p.expires_at == codec::dec_val(codec::spec_expiry_digits(s))
    &&& p.paid == true
}

/// Pay an invoice.  Fails with `NoActiveFederation` with nothing
/// installed; with `PaymentFailed` when the invoice does not parse, when
/// its amount exceeds the spendable balance, or when the federation
/// rejects the submission (`accepted` is the federation's verdict, which
/// the host obtains for an affordable, well-formed invoice).  On success
/// the balance drops by the amount and the payment is recorded, settled,
/// under the invoice's hash; on every failure the registry is unchanged.
pub fn pay(reg: &mut Registry, bolt11: String, accepted: bool, now: u64) -> (r: Result<
    (),
    BridgeError,
>)
    requires
        old(reg).wf(),
    ensures
        final(reg).wf(),
        match r {
            Ok(()) => {
                &&& old(reg).active matches Some(c)
                &&& codec::spec_fields_ok(bolt11@)
                &&& codec::dec_val(codec::spec_amount_digits(bolt11@)) <= c.balance
                &&& accepted
                &&& (final(reg).active matches Some(c2) && c2.handle == c.handle && c2.balance
                    == c.balance - codec::dec_val(codec::spec_amount_digits(bolt11@))
                    && spec_upserted_pay(c.payments@, c2.payments@, bolt11@, now))
                &&& final(reg).next_generation == old(reg).next_generation
            },
            Err(e) => *final(reg) == *old(reg) && ((e == BridgeError::NoActiveFederation && !old(reg).has_active()) || (e == BridgeError::PaymentFailed && old(reg).has_active() && (
            !codec::spec_fields_ok(bolt11@) || (old(reg).active matches Some(c)
                && codec::dec_val(codec::spec_amount_digits(bolt11@)) > c.balance) || !accepted))),
        },
{
    let fields = match codec::parse_invoice_fields(bolt11.as_str()) {
        None => {
            return if reg.active.is_some() {
                Err(BridgeError::PaymentFailed)
            } else {
                Err(BridgeError::NoActiveFederation)
            };
        },
        Some(f) => f,
    };
    let c_opt = reg.active.take();
    let mut c = match c_opt {
        None => {
            return Err(BridgeError::NoActiveFederation);
        },
        Some(c) => c,
    };
    if fields.amount > c.balance || !accepted {
        reg.active = Some(c);
        return Err(BridgeError::PaymentFailed);
    }
    c.balance = c.balance - fields.amount;
    let record = Payment {
        invoice: bolt11,
        payment_hash: fields.payment_hash,
        created_at: now,
        expires_at: fields.expires_at,
        paid: true,
    };
    upsert_payment(&mut c.payments, record);
    reg.active = Some(c);
    Ok(())
}

/// `spec_upserted`, specialized to the record `pay` writes.
pub open spec fn spec_upserted_pay(
    ps_old: Seq<Payment>,
    ps_new: Seq<Payment>,
    s: Seq<char>,
    now: u64,
) -> bool {
    exists|p: Payment|
        #![auto]
        spec_pay_record(p, s, now) && spec_upserted(ps_old, ps_new, p)
}

/// The record `invoice` writes for a freshly issued invoice.
pub open spec fn spec_invoice_record(
    p: Payment,
    amount: u64,
    hash: Seq<u8>,
    desc: Seq<char>,
    now: u64,
) -> bool {
    &&& p.invoice@ == codec::spec_encode(amount, spec_invoice_expiry(now), hash, desc)
    &&& p.payment_hash@ == hash
    &&& p.created_at == now
    &&& p.expires_at == spec_invoice_expiry(now)
    &&& p.paid == false
}

/// Issue a receivable invoice of `amount` with `description`.  The
/// payment hash is the content-derived identifier the federation client
/// computed for the new invoice.  Fails with `NoActiveFederation` with
/// nothing installed, and with `InvoiceInvalid` for a description the
/// grammar cannot carry (anything but printable ASCII); otherwise the
/// encoded invoice comes back and an unsettled record is filed under the
/// hash.  The balance does not move: it grows only when the federation
/// settles the invoice (a later synchronizer cycle).
pub fn invoice(
    reg: &mut Registry,
    amount: u64,
    description: String,
    payment_hash: Vec<u8>,
    now: u64,
) -> (r: Result<String, BridgeError>)
    requires
        old(reg).wf(),
        payment_hash@.len() == 32,
    ensures
        final(reg).wf(),
        match r {
            Ok(s) => {
                &&& old(reg).active matches Some(c)
                &&& codec::spec_wf_desc(description@)
                &&& s@ == codec::spec_encode(
                    amount,
                    spec_invoice_expiry(now),
                    payment_hash@,
                    description@,
                )
                &&& (final(reg).active matches Some(c2) && c2.handle == c.handle && c2.balance
                    == c.balance && spec_upserted_invoice(
                    c.payments@,
                    c2.payments@,
                    amount,
                    payment_hash@,
                    description@,
                    now,
                ))
                &&& final(reg).next_generation == old(reg).next_generation
            },
            Err(e) => *final(reg) == *old(reg) && ((e == BridgeError::NoActiveFederation && !old(reg).has_active()) || (e == BridgeError::InvoiceInvalid && old(reg).has_active()
                && !codec::spec_wf_desc(description@))),
        },
{
    if !desc_is_printable(description.as_str()) {
        return if reg.active.is_some() {
            Err(BridgeError::InvoiceInvalid)
        } else {
            Err(BridgeError::NoActiveFederation)
        };
    }
    let c_opt = reg.active.take();
    let mut c = match c_opt {
        None => {
            return Err(BridgeError::NoActiveFederation);
        },
        Some(c) => c,
    };
    let expires_at = if now <= u64::MAX - INVOICE_EXPIRY_SECS {
        now + INVOICE_EXPIRY_SECS
    } else {
        u64::MAX
    };
    let encoded = codec::encode_invoice(amount, expires_at, &payment_hash, description.as_str());
    let record = Payment {
        invoice: encoded.clone(),
        payment_hash,
        created_at: now,
        expires_at,
        paid: false,
    };
    upsert_payment(&mut c.payments, record);
    reg.active = Some(c);
    Ok(encoded)
}

/// `spec_upserted`, specialized to the record `invoice` writes.
pub open spec fn spec_upserted_invoice(
    ps_old: Seq<Payment>,
    ps_new: Seq<Payment>,
    amount: u64,
    hash: Seq<u8>,
    desc: Seq<char>,
    now: u64,
) -> bool {
    exists|p: Payment|
        #![auto]
        spec_invoice_record(p, amount, hash, desc, now) && spec_upserted(ps_old, ps_new, p)
}

/// Whether a description can be carried by the invoice grammar.
fn desc_is_printable(d: &str) -> (r: bool)
    ensures
        r == codec::spec_wf_desc(d@),
{
    if !d.is_ascii() {
        proof {
            assert(!codec::spec_wf_desc(d@)) by {
                if codec::spec_wf_desc(d@) {
                    assert forall|i: int|
                        0 <= i < d@.len() implies '\0' <= #[trigger] d@[i] <= '\u{7f}' by {
                        assert(codec::is_printable_char(d@[i]));
                    }
                    assert(vstd::utf8::is_ascii_chars(d@));
                }
            }
        }
        return false;
    }
    let n = d.unicode_len();
    let mut k: usize = 0;
    loop
        invariant
            d.is_ascii(),
            k <= n,
            n == d@.len(),
            forall|j: int| 0 <= j < k ==> codec::is_printable_char(#[trigger] d@[j]),
        ensures
            k == n,
            forall|j: int| 0 <= j < n ==> codec::is_printable_char(#[trigger] d@[j]),
        decreases n - k,
    {
        if k >= n {
            break ;
        }
        let b = d.get_ascii(k);
        if !(32 <= b && b <= 126) {
            proof {
                assert(d@[k as int] as u8 == b && d@[k as int] <= '\u{7f}');
                assert(!codec::is_printable_char(d@[k as int]));
            }
            return false;
        }
        proof {
            assert(d@[k as int] as u8 == b && d@[k as int] <= '\u{7f}');
            assert(codec::is_printable_char(d@[k as int]));
        }
        k = k + 1;
    }
    true
}

/// Decode an invoice for display: stateless, delegating to the codec.
pub fn decode_invoice(bolt11: String) -> (r: Result<String, BridgeError>)
    ensures
        r matches Ok(h) ==> codec::spec_wf_encoded(bolt11@) && h@ == codec::spec_human_of(bolt11@),
        r matches Err(e) ==> !codec::spec_wf_encoded(bolt11@) && e == BridgeError::InvoiceInvalid,
{
    codec::decode_invoice(bolt11)
}

/// Look one payment up by the hex form of its hash and project it.
/// A string that is not 64 hex digits names no record, so it is
/// `PaymentNotFound`; so is an absent record.  A present record whose
/// stored invoice does not decode is `InvoiceInvalid`, as in a listing.
pub fn fetch_payment(reg: &Registry, payment_hash: String, now: u64) -> (r: Result<
    BridgePayment,
    BridgeError,
>)
    ensures
        match r {
            Ok(b) => {
                &&& hashkey::spec_hash_hex_ok(payment_hash@)
                &&& reg.active matches Some(c) && (exists|i: int|
                    0 <= i < c.payments@.len() && c.payments@[i].payment_hash@
                        == codec::hex_decode_chars(payment_hash@) && spec_is_projection(
                        b,
                        #[trigger] c.payments@[i],
                        now,
                    ))
            },
            Err(e) => {
                ||| (e == BridgeError::PaymentNotFound && !hashkey::spec_hash_hex_ok(
                    payment_hash@,
                ))
                ||| (hashkey::spec_hash_hex_ok(payment_hash@) && e
                    == BridgeError::NoActiveFederation && !reg.has_active())
                ||| (hashkey::spec_hash_hex_ok(payment_hash@) && e == BridgeError::PaymentNotFound
                    && (reg.active matches Some(c) && !spec_has_hash(
                    c.payments@,
                    codec::hex_decode_chars(payment_hash@),
                )))
                ||| (hashkey::spec_hash_hex_ok(payment_hash@) && e == BridgeError::InvoiceInvalid
                    && (reg.active matches Some(c) && (exists|i: int|
                    0 <= i < c.payments@.len() && (#[trigger] c.payments@[i]).payment_hash@
                        == codec::hex_decode_chars(payment_hash@) && !codec::spec_wf_encoded(
                        c.payments@[i].invoice@,
                    ))))
            },
        },
{
    let hash = match hashkey::parse_payment_hash(payment_hash.as_str()) {
        None => {
            return Err(BridgeError::PaymentNotFound);
        },
        Some(v) => v,
    };
    match &reg.active {
        None => Err(BridgeError::NoActiveFederation),
        Some(c) => {
            match find_payment(&c.payments, &hash) {
                None => Err(BridgeError::PaymentNotFound),
                Some(i) => project_payment(&c.payments[i], now),
            }
        },
    }
}

/// Project every known payment, in ledger order.  One record whose stored
/// invoice does not decode fails the whole call with `InvoiceInvalid`
/// rather than omitting the one bad entry.
pub fn list_payments(reg: &Registry, now: u64) -> (r: Result<Vec<BridgePayment>, BridgeError>)
    ensures
        match r {
            Ok(v) => reg.active matches Some(c) && v@.len() == c.payments@.len() && (forall|i: int|
                0 <= i < v@.len() ==> spec_is_projection(#[trigger] v@[i], c.payments@[i], now)),
            Err(e) => {
                ||| (e == BridgeError::NoActiveFederation && !reg.has_active())
                ||| (e == BridgeError::InvoiceInvalid && (reg.active matches Some(c) && (exists|
                    i: int,
                |
                    0 <= i < c.payments@.len() && !codec::spec_wf_encoded(
                        (#[trigger] c.payments@[i]).invoice@,
                    ))))
            },
        },
{
    let c = match &reg.active {
        None => {
            return Err(BridgeError::NoActiveFederation);
        },
        Some(c) => c,
    };
    let n = c.payments.len();
    let mut out: Vec<BridgePayment> = Vec::new();
    let mut i: usize = 0;
    loop
        invariant
            i <= n,
            n == c.payments@.len(),
            out@.len() == i,
            reg.active matches Some(cc) && cc == *c,
            forall|j: int|
                0 <= j < i ==> spec_is_projection(#[trigger] out@[j], c.payments@[j], now),
        ensures
            i == n,
            out@.len() == n,
            forall|j: int|
                0 <= j < n ==> spec_is_projection(#[trigger] out@[j], c.payments@[j], now),
        decreases n - i,
    {
        if i >= n {
            break ;
        }
        match project_payment(&c.payments[i], now) {
            Ok(b) => {
                out.push(b);
            },
            Err(e) => {
                proof {
                    assert(exists|j: int|
                        0 <= j < c.payments@.len() && !codec::spec_wf_encoded(
                            (#[trigger] c.payments@[j]).invoice@,
                        )) by {
                        assert((i as int) < c.payments@.len() && !codec::spec_wf_encoded(
                            c.payments@[i as int].invoice@,
                        ));
                    }
                }
                return Err(e);
            },
        }
        i = i + 1;
    }
    Ok(out)
}

/// One synchronizer cycle, applied only while `handle` is still the
/// installed one (a cleared or superseded synchronizer does nothing and
/// reports that it ran dry, so the host's loop exits).  The federation
/// reported the spendable balance and which payment hashes it has
/// settled: settled records flip to paid — the only way `paid` ever
/// turns true outside `pay` — and nothing is ever flipped back.
pub fn sync_once(
    reg: &mut Registry,
    handle: ClientHandle,
    settled: &Vec<Vec<u8>>,
    new_balance: u64,
) -> (ran: bool)
    requires
        old(reg).wf(),
    ensures
        final(reg).wf(),
        ran == (old(reg).active matches Some(c) && c.handle == handle),
        !ran ==> *final(reg) == *old(reg),
        ran ==> (old(reg).active matches Some(c) && (final(reg).active matches Some(c2) && {
            &&& c2.handle == c.handle
            &&& c2.balance == new_balance
            &&& c2.payments@.len() == c.payments@.len()
            &&& (forall|i: int|
                #![auto]
                0 <= i < c.payments@.len() ==> {
                    &&& c2.payments@[i].invoice == c.payments@[i].invoice
                    &&& c2.payments@[i].payment_hash@ == c.payments@[i].payment_hash@
                    &&& c2.payments@[i].created_at == c.payments@[i].created_at
                    &&& c2.payments@[i].expires_at == c.payments@[i].expires_at
                    &&& c2.payments@[i].paid == (c.payments@[i].paid || spec_hash_in(
                        settled@,
                        c.payments@[i].payment_hash@,
                    ))
                })
        })),
        final(reg).next_generation == old(reg).next_generation,
{
    if !reg.sync_should_run(handle) {
        return false;
    }
    let c_opt = reg.active.take();
    let mut c = match c_opt {
        None => {
            proof {
                assert(false);
            }
            return false;
        },
        Some(c) => c,
    };
    let ghost ps_old = c.payments@;
    c.balance = new_balance;
    let ghost c_handle = c.handle;
    let n = c.payments.len();
    let mut i: usize = 0;
    loop
        invariant
            i <= n,
            n == c.payments@.len() == ps_old.len(),
            spec_payments_wf(ps_old),
            c.handle == c_handle,
            c.balance == new_balance,
            forall|j: int|
                #![auto]
                i <= j < n ==> c.payments@[j] == ps_old[j],
            forall|j: int|
                #![auto]
                0 <= j < i ==> {
                    &&& c.payments@[j].invoice == ps_old[j].invoice
                    &&& c.payments@[j].payment_hash@ == ps_old[j].payment_hash@
                    &&& c.payments@[j].created_at == ps_old[j].created_at
                    &&& c.payments@[j].expires_at == ps_old[j].expires_at
                    &&& c.payments@[j].paid == (ps_old[j].paid || spec_hash_in(
                        settled@,
                        ps_old[j].payment_hash@,
                    ))
                },
        ensures
            n == c.payments@.len() == ps_old.len(),
            c.handle == c_handle,
            c.balance == new_balance,
            forall|j: int|
                #![auto]
                0 <= j < n ==> {
                    &&& c.payments@[j].invoice == ps_old[j].invoice
                    &&& c.payments@[j].payment_hash@ == ps_old[j].payment_hash@
                    &&& c.payments@[j].created_at == ps_old[j].created_at
                    &&& c.payments@[j].expires_at == ps_old[j].expires_at
                    &&& c.payments@[j].paid == (ps_old[j].paid || spec_hash_in(
                        settled@,
                        ps_old[j].payment_hash@,
                    ))
                },
        decreases n - i,
    {
        if i >= n {
            break ;
        }
        if !c.payments[i].paid && hash_in_list(settled, &c.payments[i].payment_hash) {
            let q = Payment {
                invoice: c.payments[i].invoice.clone(),
                payment_hash: copy_bytes(&c.payments[i].payment_hash),
                created_at: c.payments[i].created_at,
                expires_at: c.payments[i].expires_at,
                paid: true,
            };
            c.payments[i] = q;
        }
        i = i + 1;
    }
    proof {
        assert(spec_payments_wf(c.payments@)) by {
            assert forall|a: int, b: int|
                0 <= a < b < c.payments@.len() implies c.payments@[a].payment_hash@
                != c.payments@[b].payment_hash@ by {
                assert(ps_old[a].payment_hash@ != ps_old[b].payment_hash@);
            }
            assert forall|a: int| 0 <= a < c.payments@.len() implies (
            #[trigger] c.payments@[a]).wf() by {
                assert(ps_old[a].wf());
            }
        }
    }
    reg.active = Some(c);
    true
}

/// Whether `h` equals one of the byte strings in `set`.
fn hash_in_list(set: &Vec<Vec<u8>>, h: &Vec<u8>) -> (r: bool)
    ensures
        r == spec_hash_in(set@, h@),
{
    let n = set.len();
    let mut j: usize = 0;
    loop
        invariant
            j <= n,
            n == set@.len(),
            forall|k: int| 0 <= k < j ==> (#[trigger] set@[k])@ != h@,
        ensures
            j == n,
            forall|k: int| 0 <= k < n ==> (#[trigger] set@[k])@ != h@,
        decreases n - j,
    {
        if j >= n {
            break ;
        }
        if crate::ledger::bytes_eq(&set[j], h) {
            return true;
        }
        j = j + 1;
    }
    false
}

} // verus!