//! The process-wide client registry: one slot holding the active client.
//!
//! The host serializes access to the slot with a mutual-exclusion lock
//! held only for the duration of one of these operations, never across
//! I/O; what is verified here is the slot discipline itself — at most one
//! client is installed at any instant, every install mints a fresh
//! generation, and a cleared or superseded generation's background
//! synchronizer is told to stop.
use vstd::prelude::*;

use crate::errors::BridgeError;
use crate::ledger::Payment;

verus! {

/// The identity of one installed client.  Each install mints a fresh
/// generation, so no two installs ever yield the same handle; the
/// background synchronizer holds the handle it was started with and stops
/// once that handle is no longer the installed one.
#[derive(Debug, Clone, Copy, PartialEq, Eq, Structural)]
pub struct ClientHandle {
    pub generation: u64,
}

/// No two payment records share a hash: the hash keys the ledger.
pub open spec fn spec_hashes_unique(ps: Seq<Payment>) -> bool {
    forall|i: int, j: int|
        0 <= i < j < ps.len() ==> ps[i].payment_hash@ != ps[j].payment_hash@
}

pub open spec fn spec_payments_wf(ps: Seq<Payment>) -> bool {
    &&& (forall|i: int| 0 <= i < ps.len() ==> (#[trigger] ps[i]).wf())
    &&& spec_hashes_unique(ps)
}

/// The bridge's view of the active client: its identity, the spendable
/// balance, and the payment records the federation client keeps.
#[derive(Debug)]
pub struct Client {
    pub handle: ClientHandle,
    pub balance: u64,
    pub payments: Vec<Payment>,
}

impl Client {
    pub open spec fn wf(&self) -> bool {
        spec_payments_wf(self.payments@)
    }
}

/// The singleton slot and the generation counter it mints handles from.
#[derive(Debug)]
pub struct Registry {
    pub active: Option<Client>,
    pub next_generation: u64,
}

impl Registry {
    /// Every handle ever minted has a generation below the counter, so in
    /// particular the installed one does.
    pub open spec fn wf(&self) -> bool {
        match self.active {
            Some(c) => c.handle.generation < self.next_generation && c.wf(),
            None => true,
        }
    }

    pub open spec fn has_active(&self) -> bool {
        self.active is Some
    }

    /// What `get` returns on this registry state.
    pub open spec fn spec_get(&self) -> Result<ClientHandle, BridgeError> {
        match self.active {
            Some(c) => Ok(c.handle),
            None => Err(BridgeError::NoActiveFederation),
        }
    }

    /// A fresh registry: nothing installed, no generation minted yet.
    pub fn new() -> (r: Registry)
        ensures
            r.wf(),
            !r.has_active(),
            r.next_generation == 0,
    {
        Registry { active: None, next_generation: 0 }
    }

    /// The installed client's handle; fails with `NoActiveFederation`
    /// exactly when nothing is installed.
    pub fn get(&self) -> (r: Result<ClientHandle, BridgeError>)
        ensures
            r == self.spec_get(),
            r is Ok <==> self.has_active(),
            r matches Ok(h) ==> (self.active matches Some(c) && c.handle == h),
            r matches Err(e) ==> e == BridgeError::NoActiveFederation,
    {
        match &self.active {
            Some(c) => Ok(c.handle),
            None => Err(BridgeError::NoActiveFederation),
        }
    }

    /// Atomically replace whatever is installed with a new client built
    /// from the given balance and payments, minting a fresh handle.  The
    /// caller is responsible for starting exactly one background
    /// synchronizer bound to the returned handle.
    pub fn install(&mut self, balance: u64, payments: Vec<Payment>) -> (h: ClientHandle)
        requires
            old(self).wf(),
            old(self).next_generation < u64::MAX,
            spec_payments_wf(payments@),
        ensures
            final(self).wf(),
            h.generation == old(self).next_generation,
            final(self).next_generation == old(self).next_generation + 1,
            final(self).active matches Some(c) && c.handle == h && c.balance == balance
                && c.payments@ == payments@,
    {
        let h = ClientHandle { generation: self.next_generation };
        self.next_generation = self.next_generation + 1;
        self.active = Some(Client { handle: h, balance, payments });
        h
    }

    /// Atomically remove the installed client, if any.  Idempotent:
    /// clearing an empty slot is not an error.
    pub fn clear(&mut self)
        requires
            old(self).wf(),
        ensures
            final(self).wf(),
            !final(self).has_active(),
            final(self).next_generation == old(self).next_generation,
    {
        self.active = None;
    }

    /// The background synchronizer's cancellation test: a synchronizer
    /// bound to `h` keeps running exactly while `h` is the installed
    /// handle.
    pub fn sync_should_run(&self, h: ClientHandle) -> (r: bool)
        ensures
            r == (self.active matches Some(c) && c.handle == h),
    {
        match &self.active {
            Some(c) => c.handle.generation == h.generation,
            None => false,
        }
    }
}

// ---------------------------------------------------------------------------
// Laws of the registry
// ---------------------------------------------------------------------------
/// One lifecycle event against the slot, for reasoning about whole
/// histories.  `install`'s ensures is the `Install` transition and
/// `clear`'s is the `Clear` transition; `Registry::new` is the empty
/// history.
pub enum RegistryOp {
    Install,
    Clear,
}

/// Whether a client is installed after a history of install/clear events
/// run against an initially fresh registry: each event overwrites the
/// slot, so only the last one counts.
pub open spec fn spec_ops_active(ops: Seq<RegistryOp>) -> bool {
    ops.len() > 0 && ops.last() is Install
}

/// Whether some install in the history has no later clear.
pub open spec fn spec_install_since_clear(ops: Seq<RegistryOp>) -> bool {
    exists|i: int|
        0 <= i < ops.len() && ops[i] is Install && (forall|j: int|
            i < j < ops.len() ==> !((#[trigger] ops[j]) is Clear))
}

/// Law: the model steps as the operations do.  Extending a history by one
/// event leaves the slot active exactly when that event is an install —
/// which is what `install` and `clear` ensure of `has_active`, whatever
/// the state they found.
pub proof fn lemma_ops_model_step(ops: Seq<RegistryOp>, op: RegistryOp)
    ensures
        spec_ops_active(ops.push(op)) == (op is Install),
{
    assert(ops.push(op).last() == op);
}

/// Law: for any sequence of installs and clears run against a fresh
/// registry, `get` fails (with `NoActiveFederation`) exactly when no
/// install has occurred since the last clear — or since the start, if
/// nothing was ever cleared.
pub proof fn lemma_get_fails_iff_no_install_since_clear(ops: Seq<RegistryOp>)
    ensures
        spec_ops_active(ops) <==> spec_install_since_clear(ops),
{
    if spec_ops_active(ops) {
        let i = ops.len() - 1;
        assert(0 <= i < ops.len() && ops[i] is Install && (forall|j: int|
            i < j < ops.len() ==> !((#[trigger] ops[j]) is Clear)));
    }
    if spec_install_since_clear(ops) {
        let i = choose|i: int|
            0 <= i < ops.len() && ops[i] is Install && (forall|j: int|
                i < j < ops.len() ==> !((#[trigger] ops[j]) is Clear));
        if i < ops.len() - 1 {
            assert(!(ops[ops.len() - 1] is Clear));
        }
        assert(ops.last() is Install);
    }
}

/// Law: at most one client handle is ever observable — two reads that
/// both succeed against the same registry state return the same handle,
/// whatever interleaving of calls produced that state.
pub proof fn lemma_at_most_one_active(r: Registry, h1: ClientHandle, h2: ClientHandle)
    requires
        r.spec_get() == Ok::<ClientHandle, BridgeError>(h1),
        r.spec_get() == Ok::<ClientHandle, BridgeError>(h2),
    ensures
        h1 == h2,
{
}

/// Law: an install supersedes every handle minted before it.  The new
/// handle differs from every earlier one, the earlier one is no longer
/// observable, and a background synchronizer bound to the earlier one is
/// told to stop (`sync_should_run` turns false).
pub proof fn lemma_install_supersedes(before: Registry, after: Registry, h_old: ClientHandle, h_new: ClientHandle)
    requires
        before.wf(),
        h_old.generation < before.next_generation,
        h_new.generation == before.next_generation,
        after.next_generation == before.next_generation + 1,
        after.active matches Some(c) && c.handle == h_new,
    ensures
        h_new != h_old,
        !(after.active matches Some(c) && c.handle == h_old),
        after.spec_get() == Ok::<ClientHandle, BridgeError>(h_new),
{
}

} // verus!
