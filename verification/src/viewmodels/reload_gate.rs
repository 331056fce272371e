//! Coalescing of full project reloads.
//!
//! Every mutation asks for a reload of the whole project tree. A [`ReloadGate`] keeps
//! at most one reload in flight and remembers that more were asked for while
//! it ran, so a burst of any length costs two reloads: the one already running,
//! and one more that observes every write in the burst.

use vstd::prelude::*;

verus! {

/// The state of a [`ReloadGate`]: whether a reload runs, and whether another is owed.
pub struct GateState {
    pub running: bool,
    pub pending: bool,
}

/// What [`ReloadGate::begin`] does: the new state, and whether the caller runs a reload.
pub open spec fn gate_begin(g: GateState) -> (GateState, bool) {
    if g.running {
        (GateState { running: true, pending: true }, false)
    } else {
        (GateState { running: true, pending: g.pending }, true)
    }
}

/// What [`ReloadGate::finish`] does: the new state, and whether the caller reloads again.
pub open spec fn gate_finish(g: GateState) -> (GateState, bool) {
    if g.pending {
        (GateState { running: g.running, pending: false }, true)
    } else {
        (GateState { running: false, pending: false }, false)
    }
}

/// The state after `n` calls of `begin`.
pub open spec fn after_begins(g: GateState, n: nat) -> GateState
    decreases n,
{
    if n == 0 {
        g
    } else {
        gate_begin(after_begins(g, (n - 1) as nat)).0
    }
}

/// Tracks whether a reload is running and whether another one is owed.
pub struct ReloadGate {
    running: bool,
    pending: bool,
}

impl View for ReloadGate {
    type V = GateState;

    closed spec fn view(&self) -> GateState {
        GateState { running: self.running, pending: self.pending }
    }
}

impl ReloadGate {
    /// A reload is only owed while one runs.
    #[verifier::type_invariant]
    spec fn owed_only_while_running(self) -> bool {
        self.pending ==> self.running
    }

    /// Claims the right to run a reload.
    ///
    /// `false` means one is already in flight; the request has been recorded
    /// and the running reload will serve it, so the caller must not start its
    /// own.
    pub fn begin(&mut self) -> (r: bool)
        ensures
            (final(self)@, r) == gate_begin(old(self)@),
            final(self)@.pending ==> final(self)@.running,
    {
        proof {
            use_type_invariant(&*self);
        }
        if self.running {
            self.pending = true;
            return false;
        }
        self.running = true;
        true
    }

    /// Reports the end of a reload.
    ///
    /// `true` means a request arrived while it was running, so the caller has
    /// to reload once more before letting go of it.
    pub fn finish(&mut self) -> (r: bool)
        ensures
            (final(self)@, r) == gate_finish(old(self)@),
            final(self)@.pending ==> final(self)@.running,
    {
        proof {
            use_type_invariant(&*self);
        }
        if self.pending {
            self.pending = false;
            return true;
        }
        self.running = false;
        false
    }
}

impl Default for ReloadGate {
    fn default() -> (r: Self)
        ensures
            r@ == (GateState { running: false, pending: false }),
    {
        ReloadGate { running: false, pending: false }
    }
}

/// A burst of requests while a reload runs costs one more reload, not one per
/// request: from an idle gate, the first `begin` runs, every later one in the
/// burst is absorbed, the first `finish` asks for one more pass, and the
/// second `finish` leaves it idle again.
pub proof fn law_a_burst_costs_one_more_reload(n: nat)
    requires
        n >= 1,
    ensures
        gate_begin(GateState { running: false, pending: false }).1,
        forall|k: nat|
            1 <= k <= n ==> !(#[trigger] gate_begin(
                after_begins(GateState { running: false, pending: false }, k),
            )).1,
        after_begins(GateState { running: false, pending: false }, n + 1) == (GateState {
            running: true,
            pending: true,
        }),
        gate_finish(after_begins(GateState { running: false, pending: false }, n + 1)).1,
        !gate_finish(
            gate_finish(after_begins(GateState { running: false, pending: false }, n + 1)).0,
        ).1,
        gate_finish(
            gate_finish(after_begins(GateState { running: false, pending: false }, n + 1)).0,
        ).0 == (GateState { running: false, pending: false }),
    decreases n,
{
    let idle = GateState { running: false, pending: false };
    assert(after_begins(idle, 0) == idle);
    assert(after_begins(idle, 1) == (GateState { running: true, pending: false }));
    lemma_begins_keep_running(idle, n + 1);
}

/// After at least one `begin`, a reload runs; after two, a reload is owed.
pub proof fn lemma_begins_keep_running(g: GateState, k: nat)
    requires
        g == (GateState { running: false, pending: false }),
    ensures
        k >= 1 ==> after_begins(g, k).running,
        k >= 2 ==> after_begins(g, k).pending,
        k == 1 ==> !after_begins(g, k).pending,
    decreases k,
{
    assert(after_begins(g, 0) == g);
    if k >= 1 {
        lemma_begins_keep_running(g, (k - 1) as nat);
    }
}


/// While a reload runs, further `begin` calls keep it running and leave a
/// reload owed once there was at least one.
proof fn lemma_begins_while_running(g: GateState, j: nat)
    requires
        g.running,
    ensures
        after_begins(g, j).running,
        after_begins(g, j).pending == (g.pending || j >= 1),
        forall|i: nat| i <= j ==> !(#[trigger] gate_begin(after_begins(g, i))).1,
    decreases j,
{
    if j > 0 {
        lemma_begins_while_running(g, (j - 1) as nat);
        assert forall|i: nat| i <= j implies !(#[trigger] gate_begin(after_begins(g, i))).1 by {
            if i < j {
            } else {
                assert(after_begins(g, i).running);
            }
        }
    }
}

/// Any number of requests refused during a reload cost exactly one more
/// reload: from a gate with no reload running, `begin` runs one; the `k`
/// requests after it are refused; the first `finish` asks for one more pass
/// exactly when `k >= 1`, a second `finish` then lets go; and once a `finish`
/// has let go, the next `begin` runs a reload again.
pub proof fn law_refused_requests_cost_one_more_reload(g: GateState, k: nat)
    requires
        !g.running,
        g.pending ==> g.running,
    ensures
        gate_begin(g).1,
        forall|i: nat| i <= k ==> !(#[trigger] gate_begin(after_begins(gate_begin(g).0, i))).1,
        gate_finish(after_begins(gate_begin(g).0, k)).1 == (k >= 1),
        k >= 1 ==> !gate_finish(gate_finish(after_begins(gate_begin(g).0, k)).0).1,
        ({
            let once = gate_finish(after_begins(gate_begin(g).0, k));
            let idle = if once.1 { gate_finish(once.0).0 } else { once.0 };
            gate_begin(idle).1
        }),
{
    let s = gate_begin(g).0;
    assert(s == (GateState { running: true, pending: false }));
    lemma_begins_while_running(s, k);
}

} // verus!
