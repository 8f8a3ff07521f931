//! The periodic mixing step.
//!
//! Once per real-time period the host audio subsystem asks for one output
//! buffer per bus. For every sample slot the mixer sums the contribution of
//! every jitter buffer assigned to that bus and advances each buffer by one
//! step. Sums are produced as wide integers; scaling them to the output
//! sample format is the caller's concern.

use vstd::prelude::*;

use crate::jitter::{jb_sample, jb_step, jb_wf, JbView, JitterBuffer};
use crate::registry::{has_conn, valid_pos, BusRegistry};

verus! {

/// The buffer states held by one bus.
pub open spec fn bus_view(bus: Seq<JitterBuffer>) -> Seq<JbView> {
    bus.map_values(|jb: JitterBuffer| jb@)
}

/// Every buffer of the bus is well-formed.
pub open spec fn bus_wf(bus: Seq<JbView>) -> bool {
    forall|i: int| 0 <= i < bus.len() ==> jb_wf(#[trigger] bus[i])
}

/// The value of one output sample slot: the sum of every buffer's
/// contribution, with no clipping or normalization.
pub open spec fn bus_sum(bus: Seq<JbView>) -> int
    decreases bus.len(),
{
    if bus.len() == 0 {
        0
    } else {
        bus_sum(bus.drop_last()) + jb_sample(bus.last())
    }
}

/// All buffers of a bus advanced by one sample step.
pub open spec fn bus_step(bus: Seq<JbView>) -> Seq<JbView> {
    bus.map_values(|v: JbView| jb_step(v))
}

/// All buffers of a bus advanced by `k` sample steps.
pub open spec fn bus_step_k(bus: Seq<JbView>, k: nat) -> Seq<JbView>
    decreases k,
{
    if k == 0 {
        bus
    } else {
        bus_step(bus_step_k(bus, (k - 1) as nat))
    }
}

/// One step keeps every buffer well-formed and keeps every connection where
/// it is.
pub proof fn lemma_bus_step_wf(bus: Seq<JbView>)
    requires
        bus_wf(bus),
    ensures
        bus_step(bus).len() == bus.len(),
        bus_wf(bus_step(bus)),
        forall|j: int| 0 <= j < bus.len() ==> (#[trigger] bus_step(bus)[j]).id == bus[j].id,
{
    assert forall|j: int| 0 <= j < bus.len() implies jb_wf(#[trigger] bus_step(bus)[j]) by {
        crate::jitter::lemma_step_wf(bus[j]);
    }
}

/// `k` steps keep every buffer well-formed and keep every connection where
/// it is.
pub proof fn lemma_bus_step_k_wf(bus: Seq<JbView>, k: nat)
    requires
        bus_wf(bus),
    ensures
        bus_step_k(bus, k).len() == bus.len(),
        bus_wf(bus_step_k(bus, k)),
        forall|j: int| 0 <= j < bus.len() ==> (#[trigger] bus_step_k(bus, k)[j]).id == bus[j].id,
    decreases k,
{
    if k > 0 {
        lemma_bus_step_k_wf(bus, (k - 1) as nat);
        lemma_bus_step_wf(bus_step_k(bus, (k - 1) as nat));
    }
}

/// Sums one sample slot over a bus and advances every buffer in it by one
/// step.
///
/// The bound on the bus size is a machine limit: it keeps the running sum of
/// 16-bit samples far inside `i64`, and a single bus cannot hold that many
/// buffers in memory anyway.
pub fn mix_bus(bus: &mut Vec<JitterBuffer>) -> (sum: i64)
    requires
        bus_wf(bus_view(old(bus)@)),
        old(bus)@.len() <= 0x1_0000_0000,
    ensures
        sum == bus_sum(bus_view(old(bus)@)),
        bus_view(final(bus)@) == bus_step(bus_view(old(bus)@)),
        bus_wf(bus_view(final(bus)@)),
        final(bus)@.len() == old(bus)@.len(),
{
    let ghost v0 = bus_view(bus@);
    let mut sum: i64 = 0;
    let mut i: usize = 0;
    while i < bus.len()
        invariant
            i <= bus.len(),
            bus@.len() == v0.len(),
            v0.len() <= 0x1_0000_0000,
            bus_wf(v0),
            forall|j: int| i <= j < v0.len() ==> (#[trigger] bus@[j])@ == v0[j],
            forall|j: int| 0 <= j < i ==> (#[trigger] bus@[j])@ == jb_step(v0[j]),
            sum == bus_sum(v0.take(i as int)),
            -32768 * (i as int) <= sum <= 32767 * (i as int),
        decreases bus.len() - i,
    {
        proof {
            assert(jb_wf(v0[i as int]));
        }
        let jb = &mut bus[i];
        let s = jb.advance_and_sample();
        proof {
            assert(bus@[i as int]@ == jb_step(v0[i as int]));
            assert(v0.take(i + 1).drop_last() =~= v0.take(i as int));
            assert(v0.take(i + 1).last() == v0[i as int]);
        }
        sum = sum + (s as i64);
        i = i + 1;
    }
    proof {
        assert(v0.take(v0.len() as int) =~= v0);
        assert(bus_view(bus@) =~= bus_step(v0));
    }
    sum
}

impl BusRegistry {
    /// Produces one period's worth of output for one bus: `out_len` sample
    /// slots, each the sum over every buffer assigned to that bus, each
    /// advancing every such buffer by one step. No other bus is touched and
    /// no connection appears or disappears.
    pub fn fill_bus_output(&mut self, bus_index: usize, out_len: usize) -> (out: Vec<i64>)
        requires
            old(self).wf(),
            bus_index < old(self)@.len(),
            old(self)@[bus_index as int].len() <= 0x1_0000_0000,
        ensures
            final(self).wf(),
            final(self)@.len() == old(self)@.len(),
            final(self).warmup_depth == old(self).warmup_depth,
            out@.len() == out_len,
            forall|k: int|
                0 <= k < out_len ==> out@[k] == bus_sum(
                    bus_step_k(old(self)@[bus_index as int], k as nat),
                ),
            final(self)@ == old(self)@.update(
                bus_index as int,
                bus_step_k(old(self)@[bus_index as int], out_len as nat),
            ),
            forall|id: u32| has_conn(final(self)@, id) <==> has_conn(old(self)@, id),
    {
        let ghost v0 = self@;
        let ghost b0 = self@[bus_index as int];
        proof {
            assert forall|j: int| 0 <= j < b0.len() implies jb_wf(#[trigger] b0[j]) by {
                assert(valid_pos(v0, bus_index as int, j));
            }
            assert(v0.update(bus_index as int, bus_step_k(b0, 0)) =~= v0);
        }
        let mut out: Vec<i64> = Vec::new();
        let mut t: usize = 0;
        while t < out_len
            invariant
                t <= out_len,
                self.buses@.len() == v0.len(),
                bus_index < v0.len(),
                self.warmup_depth == old(self).warmup_depth,
                bus_wf(b0),
                b0.len() <= 0x1_0000_0000,
                self@ == v0.update(bus_index as int, bus_step_k(b0, t as nat)),
                out@.len() == t,
                forall|k: int| 0 <= k < t ==> out@[k] == bus_sum(bus_step_k(b0, k as nat)),
            decreases out_len - t,
        {
            let ghost pre = self.buses@;
            let ghost vpre = self@;
            proof {
                lemma_bus_step_k_wf(b0, t as nat);
                assert forall|j: int| 0 <= j < pre.len() implies vpre[j] == bus_view(
                    pre[j]@,
                ) by {}
                assert(self@[bus_index as int] == bus_step_k(b0, t as nat));
            }
            let bus = &mut self.buses[bus_index];
            let s = mix_bus(bus);
            out.push(s);
            proof {
                assert forall|j: int| 0 <= j < self.buses@.len() implies self@[j] == bus_view(
                    self.buses@[j]@,
                ) by {}
                assert(bus_step_k(b0, (t + 1) as nat) == bus_step(bus_step_k(b0, t as nat)));
                assert(self@[bus_index as int] == bus_step_k(b0, (t + 1) as nat));
                assert forall|j: int|
                    0 <= j < v0.len() && j != bus_index as int implies self@[j] == v0[j] by {
                    assert(self.buses@[j] == pre[j]);
                    assert(self@[j] == bus_view(self.buses@[j]@));
                    assert(vpre[j] == bus_view(pre[j]@));
                    assert(vpre[j] == v0.update(bus_index as int, bus_step_k(b0, t as nat))[j]);
                }
                assert(self@ =~= v0.update(bus_index as int, bus_step_k(b0, (t + 1) as nat)));
            }
            t = t + 1;
        }
        proof {
            lemma_bus_step_k_wf(b0, out_len as nat);
            let r2 = self@;
            assert forall|a: int, b: int| valid_pos(r2, a, b) implies jb_wf(#[trigger] r2[a][b])
                && r2[a][b].id == v0[a][b].id by {
                if a == bus_index as int {
                    assert(r2[a][b] == bus_step_k(b0, out_len as nat)[b]);
                } else {
                    assert(r2[a][b] == v0[a][b]);
                }
            }
            assert forall|a1: int, b1: int, a2: int, b2: int|
                valid_pos(r2, a1, b1) && valid_pos(r2, a2, b2) && (#[trigger] r2[a1][b1]).id == (
            #[trigger] r2[a2][b2]).id implies a1 == a2 && b1 == b2 by {
                assert(r2[a1][b1].id == v0[a1][b1].id && r2[a2][b2].id == v0[a2][b2].id);
            }
            assert forall|id: u32| has_conn(r2, id) <==> has_conn(v0, id) by {
                if has_conn(r2, id) {
                    let (a, b) = choose|a: int, b: int|
                        valid_pos(r2, a, b) && (#[trigger] r2[a][b]).id == id;
                    assert(valid_pos(v0, a, b) && v0[a][b].id == id);
                }
                if has_conn(v0, id) {
                    let (a, b) = choose|a: int, b: int|
                        valid_pos(v0, a, b) && (#[trigger] v0[a][b]).id == id;
                    assert(valid_pos(r2, a, b) && r2[a][b].id == id);
                }
            }
        }
        out
    }
}

} // verus!
