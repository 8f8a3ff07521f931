//! The bus registry and its least-loaded assignment policy.
//!
//! The registry partitions all live jitter buffers into a fixed number of
//! output buses. A new connection is assigned to the bus with the fewest
//! connections (ties broken by the lowest bus index), and a closed
//! connection's buffer is removed from whichever bus holds it. A connection
//! identifier appears in at most one bus at a time.

use vstd::prelude::*;

use crate::codec::{decode_frame, new_decoder, FrameDecoder};
use crate::jitter::{jb_wf, JbView, JitterBuffer};

verus! {

/// The mathematical state of a registry: one sequence of buffer states per
/// bus, in bus order.
pub type RegView = Seq<Seq<JbView>>;

/// A valid position of a buffer in the registry.
pub open spec fn valid_pos(r: RegView, x: int, y: int) -> bool {
    0 <= x < r.len() && 0 <= y < r[x].len()
}

/// Registry well-formedness: every buffer is well-formed and no connection
/// identifier appears twice.
pub open spec fn reg_wf(r: RegView) -> bool {
    &&& forall|x: int, y: int| valid_pos(r, x, y) ==> jb_wf(#[trigger] r[x][y])
    &&& forall|x1: int, y1: int, x2: int, y2: int|
        valid_pos(r, x1, y1) && valid_pos(r, x2, y2) && (#[trigger] r[x1][y1]).id == (
        #[trigger] r[x2][y2]).id ==> x1 == x2 && y1 == y2
}

/// Whether some bus holds a buffer for this connection.
pub open spec fn has_conn(r: RegView, id: u32) -> bool {
    exists|x: int, y: int| valid_pos(r, x, y) && (#[trigger] r[x][y]).id == id
}

/// The position of this connection's buffer; meaningful only when
/// `has_conn(r, id)` holds, and then unique under `reg_wf`.
pub open spec fn conn_pos(r: RegView, id: u32) -> (int, int) {
    choose|p: (int, int)| valid_pos(r, p.0, p.1) && r[p.0][p.1].id == id
}

/// Under uniqueness of identifiers, `conn_pos` is exactly the position any
/// search finds.
pub proof fn lemma_conn_pos_unique(r: RegView, id: u32, x: int, y: int)
    requires
        reg_wf(r),
        valid_pos(r, x, y),
        r[x][y].id == id,
    ensures
        conn_pos(r, id) == (x, y),
{
    let w = (x, y);
    assert(valid_pos(r, w.0, w.1) && r[w.0][w.1].id == id);
    let p = conn_pos(r, id);
    assert(valid_pos(r, p.0, p.1) && r[p.0][p.1].id == id);
    assert(p.0 == x && p.1 == y);
}

/// Number of live connections: the sum of all bus sizes.
pub open spec fn total_conns(r: RegView) -> nat
    decreases r.len(),
{
    if r.len() == 0 {
        0
    } else {
        r[0].len() + total_conns(r.drop_first())
    }
}

/// Replacing one bus changes the total by the difference of that bus's size.
pub proof fn lemma_total_update(r: RegView, x: int, bus: Seq<JbView>)
    requires
        0 <= x < r.len(),
    ensures
        total_conns(r.update(x, bus)) + r[x].len() == total_conns(r) + bus.len(),
    decreases r.len(),
{
    let u = r.update(x, bus);
    if x == 0 {
        assert(u.drop_first() =~= r.drop_first());
    } else {
        assert(u.drop_first() =~= r.drop_first().update(x - 1, bus));
        lemma_total_update(r.drop_first(), x - 1, bus);
    }
}

/// The index of the least-loaded bus, with ties broken by the lowest index.
pub open spec fn min_index(r: RegView) -> int
    decreases r.len(),
{
    if r.len() <= 1 {
        0
    } else {
        let m = min_index(r.drop_last());
        if r.last().len() < r[m].len() {
            r.len() - 1
        } else {
            m
        }
    }
}

/// `min_index` points into the registry, at a bus no larger than any other,
/// and every earlier bus is strictly larger.
pub proof fn lemma_min_index_props(r: RegView)
    requires
        r.len() > 0,
    ensures
        0 <= min_index(r) < r.len(),
        forall|j: int| 0 <= j < r.len() ==> r[min_index(r)].len() <= #[trigger] r[j].len(),
        forall|j: int| 0 <= j < min_index(r) ==> r[min_index(r)].len() < #[trigger] r[j].len(),
    decreases r.len(),
{
    if r.len() > 1 {
        lemma_min_index_props(r.drop_last());
        assert(forall|j: int|
            0 <= j < r.len() - 1 ==> #[trigger] r[j] == r.drop_last()[j]);
    }
}

/// Balance: no bus is more than one larger than any other.
pub open spec fn balanced(r: RegView) -> bool {
    forall|i: int, j: int|
        0 <= i < r.len() && 0 <= j < r.len() ==> #[trigger] r[i].len() <= #[trigger] r[j].len()
            + 1
}

/// One least-loaded assignment: the new buffer joins the bus at `min_index`.
pub open spec fn assign_step(r: RegView, v: JbView) -> RegView {
    r.update(min_index(r), r[min_index(r)].push(v))
}

/// A whole arrival sequence of new connections, each assigned in turn to the
/// then least-loaded bus, with no closures in between.
pub open spec fn assign_all(r: RegView, vs: Seq<JbView>) -> RegView
    decreases vs.len(),
{
    if vs.len() == 0 {
        r
    } else {
        assign_all(assign_step(r, vs[0]), vs.drop_first())
    }
}

/// One least-loaded assignment keeps the registry balanced.
pub proof fn lemma_assign_step_balanced(r: RegView, v: JbView)
    requires
        r.len() > 0,
        balanced(r),
    ensures
        balanced(assign_step(r, v)),
        assign_step(r, v).len() == r.len(),
{
    lemma_min_index_props(r);
}

/// Load-balancing law: starting from a balanced registry (an empty one in
/// particular), any sequence of new connections with no closures leaves the
/// registry balanced — the largest and smallest bus differ by at most one.
pub proof fn lemma_load_balancing(r: RegView, vs: Seq<JbView>)
    requires
        r.len() > 0,
        balanced(r),
    ensures
        balanced(assign_all(r, vs)),
        assign_all(r, vs).len() == r.len(),
    decreases vs.len(),
{
    if vs.len() > 0 {
        lemma_assign_step_balanced(r, vs[0]);
        lemma_load_balancing(assign_step(r, vs[0]), vs.drop_first());
    }
}

/// What routing one payload guarantees about a connection's membership and
/// its `AssignedBus` notification, reduced to the two facts the
/// at-most-once law needs: a connection that already has a buffer is never
/// reported assigned again and keeps its buffer; a reported assignment
/// leaves the connection with a buffer.
pub open spec fn routed_step(r: RegView, r2: RegView, id: u32, assigned: Option<usize>) -> bool {
    &&& has_conn(r, id) ==> assigned is None && has_conn(r2, id)
    &&& assigned is Some ==> has_conn(r2, id)
}

/// A connection with a buffer keeps it across any further routed payloads.
pub proof fn lemma_conn_persists(
    rs: Seq<RegView>,
    outs: Seq<Option<usize>>,
    id: u32,
    m: int,
    j: int,
)
    requires
        rs.len() == outs.len() + 1,
        forall|k: int| 0 <= k < outs.len() ==> routed_step(rs[k], rs[k + 1], id, #[trigger] outs[k]),
        0 <= m <= j < rs.len(),
        has_conn(rs[m], id),
    ensures
        has_conn(rs[j], id),
    decreases j - m,
{
    if j > m {
        lemma_conn_persists(rs, outs, id, m, j - 1);
        assert(routed_step(rs[j - 1], rs[j], id, outs[j - 1]));
    }
}

/// Assignment notification idempotence: over any run of routed payloads for
/// one connection — each step holding what `route_payload` ensures — at most
/// one step reports an assignment. The step that creates the buffer is the
/// only one that sends `AssignedBus`, however many frames follow.
pub proof fn lemma_notified_at_most_once(
    rs: Seq<RegView>,
    outs: Seq<Option<usize>>,
    id: u32,
    i: int,
    j: int,
)
    requires
        rs.len() == outs.len() + 1,
        forall|k: int| 0 <= k < outs.len() ==> routed_step(rs[k], rs[k + 1], id, #[trigger] outs[k]),
        0 <= i < j < outs.len(),
        outs[i] is Some,
    ensures
        outs[j] is None,
{
    assert(routed_step(rs[i], rs[i + 1], id, outs[i]));
    lemma_conn_persists(rs, outs, id, i + 1, j);
    assert(routed_step(rs[j], rs[j + 1], id, outs[j]));
}

/// The bus registry: one slot of jitter buffers per output bus.
///
/// All of it is owned and mutated by the single mixing context; the number
/// of buses and the warm-up depth are fixed at construction.
pub struct BusRegistry {
    /// One unordered collection of jitter buffers per output bus.
    pub buses: Vec<Vec<JitterBuffer>>,
    /// Warm-up depth handed to every buffer this registry creates.
    pub warmup_depth: usize,
}

impl View for BusRegistry {
    type V = RegView;

    open spec fn view(&self) -> RegView {
        self.buses@.map_values(
            |bus: Vec<JitterBuffer>| bus@.map_values(|jb: JitterBuffer| jb@),
        )
    }
}

impl BusRegistry {
    /// Registry well-formedness, stated over the view.
    pub open spec fn wf(&self) -> bool {
        reg_wf(self@)
    }

    /// Creates a registry of `n_buses` empty buses.
    pub fn new(n_buses: usize, warmup_depth: usize) -> (reg: BusRegistry)
        ensures
            reg.wf(),
            reg@.len() == n_buses,
            forall|x: int| 0 <= x < n_buses ==> #[trigger] reg@[x].len() == 0,
            balanced(reg@),
            reg.warmup_depth == warmup_depth,
    {
        let mut buses: Vec<Vec<JitterBuffer>> = Vec::new();
        while buses.len() < n_buses
            invariant
                buses.len() <= n_buses,
                forall|x: int| 0 <= x < buses.len() ==> #[trigger] buses@[x]@.len() == 0,
            decreases n_buses - buses.len(),
        {
            buses.push(Vec::new());
        }
        BusRegistry { buses, warmup_depth }
    }

    /// Scans the buses for this connection's buffer and returns its
    /// position; `None` exactly when no bus holds the connection.
    pub fn find_buffer_position(&self, connection_id: u32) -> (pos: Option<(usize, usize)>)
        ensures
            match pos {
                Some(p) => valid_pos(self@, p.0 as int, p.1 as int) && self@[p.0 as int][p.1
                    as int].id == connection_id,
                None => !has_conn(self@, connection_id),
            },
    {
        let mut x: usize = 0;
        while x < self.buses.len()
            invariant
                x <= self.buses.len(),
                forall|i: int, j: int|
                    0 <= i < x && 0 <= j < self@[i].len() ==> (#[trigger] self@[i][j]).id
                        != connection_id,
            decreases self.buses.len() - x,
        {
            let bus = &self.buses[x];
            let mut y: usize = 0;
            while y < bus.len()
                invariant
                    y <= bus.len(),
                    x < self.buses.len(),
                    bus == &self.buses[x as int],
                    forall|j: int|
                        0 <= j < y ==> (#[trigger] self@[x as int][j]).id != connection_id,
                decreases bus.len() - y,
            {
                if bus[y].connection_id == connection_id {
                    return Some((x, y));
                }
                y = y + 1;
            }
            x = x + 1;
        }
        None
    }

    /// Returns the index of the least-loaded bus, ties broken by the lowest
    /// index. This is recomputed from live counts on every call.
    pub fn next_free_index(&self) -> (idx: usize)
        requires
            self.buses.len() > 0,
        ensures
            idx as int == min_index(self@),
    {
        let mut best: usize = 0;
        let mut i: usize = 1;
        while i < self.buses.len()
            invariant
                1 <= i <= self.buses.len(),
                self.buses.len() == self@.len(),
                best < i,
                best as int == min_index(self@.take(i as int)),
            decreases self.buses.len() - i,
        {
            proof {
                assert(self@.take(i + 1).drop_last() =~= self@.take(i as int));
                assert(self@.take(i + 1).last() == self@[i as int]);
            }
            if self.buses[i].len() < self.buses[best].len() {
                best = i;
            }
            i = i + 1;
        }
        proof {
            assert(self@.take(self@.len() as int) =~= self@);
        }
        best
    }

    /// The number of live connections: the sum of all bus sizes.
    pub fn number_of_listeners(&self) -> (n: usize)
        requires
            total_conns(self@) <= usize::MAX,
        ensures
            n == total_conns(self@),
    {
        let mut n: usize = 0;
        let mut i: usize = 0;
        proof {
            assert(self@.skip(0) =~= self@);
        }
        while i < self.buses.len()
            invariant
                i <= self.buses.len(),
                self.buses.len() == self@.len(),
                total_conns(self@) <= usize::MAX,
                n + total_conns(self@.skip(i as int)) == total_conns(self@),
            decreases self.buses.len() - i,
        {
            proof {
                assert(self@.skip(i as int).drop_first() =~= self@.skip(i + 1));
                assert(self@.skip(i as int)[0] == self@[i as int]);
            }
            n = n + self.buses[i].len();
            i = i + 1;
        }
        proof {
            assert(self@.skip(self@.len() as int) =~= Seq::<Seq<JbView>>::empty());
        }
        n
    }

    /// Inserts a fresh buffer for a not-yet-assigned connection into the
    /// least-loaded bus and returns that bus's index.
    pub fn assign(&mut self, jb: JitterBuffer) -> (idx: usize)
        requires
            old(self).wf(),
            old(self).buses.len() > 0,
            jb.wf(),
            !has_conn(old(self)@, jb@.id),
        ensures
            final(self).wf(),
            idx as int == min_index(old(self)@),
            final(self)@ == assign_step(old(self)@, jb@),
            final(self)@.len() == old(self)@.len(),
            final(self).warmup_depth == old(self).warmup_depth,
            has_conn(final(self)@, jb@.id),
    {
        let ghost v0 = self@;
        let ghost vjb = jb@;
        let idx = self.next_free_index();
        proof {
            lemma_min_index_props(v0);
        }
        self.buses[idx].push(jb);
        proof {
            let mi = min_index(v0);
            assert(self@ =~~= assign_step(v0, vjb));
            let r2 = self@;
            assert(valid_pos(r2, mi, v0[mi].len() as int) && r2[mi][v0[mi].len() as int].id
                == vjb.id);
            assert forall|x: int, y: int| valid_pos(r2, x, y) implies jb_wf(#[trigger] r2[x][y]) by {
                if x == mi && y == v0[mi].len() {
                } else {
                    assert(valid_pos(v0, x, y));
                    assert(r2[x][y] == v0[x][y]);
                }
            }
            assert forall|x1: int, y1: int, x2: int, y2: int|
                valid_pos(r2, x1, y1) && valid_pos(r2, x2, y2) && (#[trigger] r2[x1][y1]).id == (
            #[trigger] r2[x2][y2]).id implies x1 == x2 && y1 == y2 by {
                let newy = v0[mi].len() as int;
                if x1 == mi && y1 == newy {
                    if !(x2 == mi && y2 == newy) {
                        assert(valid_pos(v0, x2, y2));
                        assert(r2[x2][y2] == v0[x2][y2]);
                        assert(v0[x2][y2].id == vjb.id);
                        assert(has_conn(v0, vjb.id));
                    }
                } else if x2 == mi && y2 == newy {
                    assert(valid_pos(v0, x1, y1));
                    assert(r2[x1][y1] == v0[x1][y1]);
                    assert(v0[x1][y1].id == vjb.id);
                    assert(has_conn(v0, vjb.id));
                } else {
                    assert(valid_pos(v0, x1, y1) && valid_pos(v0, x2, y2));
                    assert(r2[x1][y1] == v0[x1][y1] && r2[x2][y2] == v0[x2][y2]);
                }
            }
        }
        idx
    }

    /// Removes the buffer of a closed connection from whichever bus holds
    /// it; a miss is a silent no-op. On a hit that bus shrinks by exactly
    /// one, the total of live connections drops by one, every other buffer
    /// is untouched, and the connection is gone: nothing of it is summed
    /// into any output afterwards.
    pub fn remove_conn(&mut self, connection_id: u32)
        requires
            old(self).wf(),
        ensures
            final(self).wf(),
            final(self)@.len() == old(self)@.len(),
            final(self).warmup_depth == old(self).warmup_depth,
            !has_conn(old(self)@, connection_id) ==> final(self)@ == old(self)@,
            has_conn(old(self)@, connection_id) ==> ({
                let (x, y) = conn_pos(old(self)@, connection_id);
                &&& final(self)@ == old(self)@.update(x, old(self)@[x].remove(y))
                &&& final(self)@[x].len() + 1 == old(self)@[x].len()
                &&& total_conns(final(self)@) + 1 == total_conns(old(self)@)
            }),
            !has_conn(final(self)@, connection_id),
            forall|other: u32|
                other != connection_id ==> (has_conn(final(self)@, other) <==> has_conn(
                    old(self)@,
                    other,
                )),
    {
        let ghost v0 = self@;
        match self.find_buffer_position(connection_id) {
            Some((x, y)) => {
                let _removed = self.buses[x].remove(y);
                proof {
                    lemma_conn_pos_unique(v0, connection_id, x as int, y as int);
                    assert(self@ =~~= v0.update(x as int, v0[x as int].remove(y as int)));
                    let r2 = self@;
                    lemma_total_update(v0, x as int, v0[x as int].remove(y as int));
                    // every position of the new registry maps to an old one
                    // of the same buffer, never the removed position
                    assert forall|a: int, b: int| valid_pos(r2, a, b) implies valid_pos(v0, a, b)
                        || valid_pos(v0, a, b + 1) by {}
                    assert forall|a: int, b: int| valid_pos(r2, a, b) implies jb_wf(
                        #[trigger] r2[a][b],
                    ) by {
                        if a == x as int && b >= y as int {
                            assert(r2[a][b] == v0[a][b + 1]);
                        } else {
                            assert(r2[a][b] == v0[a][b]);
                        }
                    }
                    assert forall|a: int, b: int|
                        valid_pos(r2, a, b) implies (#[trigger] r2[a][b]).id
                        != connection_id by {
                        if a == x as int && b >= y as int {
                            assert(r2[a][b] == v0[a][b + 1]);
                            assert(r2[a][b].id == connection_id ==> (a, b + 1) == (
                                x as int,
                                y as int,
                            ));
                        } else {
                            assert(r2[a][b] == v0[a][b]);
                            assert(r2[a][b].id == connection_id ==> (a, b) == (x as int, y as int));
                        }
                    }
                    assert forall|a1: int, b1: int, a2: int, b2: int|
                        valid_pos(r2, a1, b1) && valid_pos(r2, a2, b2) && (
                    #[trigger] r2[a1][b1]).id == (#[trigger] r2[a2][b2]).id implies a1 == a2 && b1
                        == b2 by {
                        let c1 = if a1 == x as int && b1 >= y as int {
                            b1 + 1
                        } else {
                            b1
                        };
                        let c2 = if a2 == x as int && b2 >= y as int {
                            b2 + 1
                        } else {
                            b2
                        };
                        assert(valid_pos(v0, a1, c1) && r2[a1][b1] == v0[a1][c1]);
                        assert(valid_pos(v0, a2, c2) && r2[a2][b2] == v0[a2][c2]);
                    }
                    assert forall|other: u32|
                        other != connection_id implies (has_conn(r2, other) <==> has_conn(
                        v0,
                        other,
                    )) by {
                        if has_conn(r2, other) {
                            let (a, b) = choose|a: int, b: int|
                                valid_pos(r2, a, b) && (#[trigger] r2[a][b]).id == other;
                            if a == x as int && b >= y as int {
                                assert(valid_pos(v0, a, b + 1) && v0[a][b + 1].id == other);
                            } else {
                                assert(valid_pos(v0, a, b) && v0[a][b].id == other);
                            }
                        }
                        if has_conn(v0, other) {
                            let (a, b) = choose|a: int, b: int|
                                valid_pos(v0, a, b) && (#[trigger] v0[a][b]).id == other;
                            if a == x as int && b > y as int {
                                assert(valid_pos(r2, a, b - 1) && r2[a][b - 1].id == other);
                            } else {
                                assert((a, b) != (x as int, y as int));
                                assert(valid_pos(r2, a, b) && r2[a][b].id == other);
                            }
                        }
                    }
                }
            },
            None => {},
        }
    }

    /// Routes one arriving payload. A connection that already has a buffer
    /// feeds it in place and is never assigned (or notified) again. An
    /// unknown connection is decoded first: on success a fresh warming
    /// buffer seeded with the decoded block joins the least-loaded bus and
    /// the chosen index is returned, to be sent to the client exactly once;
    /// on failure nothing changes and the connection stays unassigned. A
    /// failure never touches any other connection's buffer.
    pub fn route_payload(&mut self, connection_id: u32, payload: Vec<u8>) -> (assigned: Option<
        usize,
    >)
        requires
            old(self).wf(),
            old(self).buses.len() > 0,
        ensures
            final(self).wf(),
            final(self)@.len() == old(self)@.len(),
            final(self).warmup_depth == old(self).warmup_depth,
            has_conn(old(self)@, connection_id) ==> assigned is None,
            has_conn(old(self)@, connection_id) ==> ({
                let (x, y) = conn_pos(old(self)@, connection_id);
                &&& final(self)@ == old(self)@.update(
                    x,
                    old(self)@[x].update(y, final(self)@[x][y]),
                )
                &&& final(self)@[x][y].id == connection_id
                &&& (final(self)@[x][y] == old(self)@[x][y] || exists|b: Seq<i16>|
                    b.len() > 0 && final(self)@[x][y] == (JbView {
                        pending: old(self)@[x][y].pending.push(b),
                        ..old(self)@[x][y]
                    }))
            }),
            !has_conn(old(self)@, connection_id) ==> match assigned {
                Some(i) => i as int == min_index(old(self)@) && exists|b: Seq<i16>|
                    b.len() > 0 && final(self)@ == assign_step(
                        old(self)@,
                        JbView {
                            id: connection_id,
                            current: b,
                            pending: Seq::<Seq<i16>>::empty(),
                            cursor: 0,
                            playing: false,
                            warmup: old(self).warmup_depth as nat,
                        },
                    ),
                None => final(self)@ == old(self)@,
            },
            has_conn(final(self)@, connection_id) <==> (has_conn(old(self)@, connection_id)
                || assigned is Some),
            routed_step(old(self)@, final(self)@, connection_id, assigned),
            forall|other: u32|
                other != connection_id ==> (has_conn(final(self)@, other) <==> has_conn(
                    old(self)@,
                    other,
                )),
    {
        let ghost v0 = self@;
        match self.find_buffer_position(connection_id) {
            Some((x, y)) => {
                let bus = &mut self.buses[x];
                let jb = &mut bus[y];
                let _queued = jb.feed(payload);
                proof {
                    lemma_conn_pos_unique(v0, connection_id, x as int, y as int);
                    let r2 = self@;
                    assert(r2 =~~= v0.update(x as int, v0[x as int].update(y as int, r2[x as int][y as int])));
                    assert(jb_wf(r2[x as int][y as int]) && r2[x as int][y as int].id
                        == connection_id);
                    assert forall|a: int, b: int| valid_pos(r2, a, b) implies jb_wf(
                        #[trigger] r2[a][b],
                    ) && r2[a][b].id == v0[a][b].id by {
                        if a == x as int && b == y as int {
                        } else {
                            assert(r2[a][b] == v0[a][b]);
                        }
                    }
                    assert forall|a1: int, b1: int, a2: int, b2: int|
                        valid_pos(r2, a1, b1) && valid_pos(r2, a2, b2) && (
                    #[trigger] r2[a1][b1]).id == (#[trigger] r2[a2][b2]).id implies a1 == a2 && b1
                        == b2 by {
                        assert(r2[a1][b1].id == v0[a1][b1].id && r2[a2][b2].id == v0[a2][b2].id);
                    }
                    assert forall|other: u32| has_conn(r2, other) <==> has_conn(v0, other) by {
                        if has_conn(r2, other) {
                            let (a, b) = choose|a: int, b: int|
                                valid_pos(r2, a, b) && (#[trigger] r2[a][b]).id == other;
                            assert(valid_pos(v0, a, b) && v0[a][b].id == other);
                        }
                        if has_conn(v0, other) {
                            let (a, b) = choose|a: int, b: int|
                                valid_pos(v0, a, b) && (#[trigger] v0[a][b]).id == other;
                            assert(valid_pos(r2, a, b) && r2[a][b].id == other);
                        }
                    }
                }
                None
            },
            None => {
                let mut decoder = new_decoder();
                match decode_frame(&mut decoder, payload) {
                    Ok(block) => {
                        if block.len() > 0 {
                            let ghost b = block@;
                            let jb = JitterBuffer::new(
                                connection_id,
                                block,
                                self.warmup_depth,
                                decoder,
                            );
                            let idx = self.assign(jb);
                            proof {
                                let r2 = self@;
                                assert(b.len() > 0 && r2 == assign_step(
                                    v0,
                                    JbView {
                                        id: connection_id,
                                        current: b,
                                        pending: Seq::<Seq<i16>>::empty(),
                                        cursor: 0,
                                        playing: false,
                                        warmup: old(self).warmup_depth as nat,
                                    },
                                ));
                                lemma_min_index_props(v0);
                                let mi = min_index(v0);
                                assert forall|other: u32|
                                    other != connection_id implies (has_conn(r2, other)
                                    <==> has_conn(v0, other)) by {
                                    if has_conn(r2, other) {
                                        let (a, bb) = choose|a: int, bb: int|
                                            valid_pos(r2, a, bb) && (#[trigger] r2[a][bb]).id
                                                == other;
                                        assert(valid_pos(v0, a, bb) && v0[a][bb].id == other);
                                    }
                                    if has_conn(v0, other) {
                                        let (a, bb) = choose|a: int, bb: int|
                                            valid_pos(v0, a, bb) && (#[trigger] v0[a][bb]).id
                                                == other;
                                        assert(valid_pos(r2, a, bb) && r2[a][bb].id == other);
                                    }
                                }
                            }
                            Some(idx)
                        } else {
                            proof {
                                assert(self@ =~= v0);
                            }
                            None
                        }
                    },
                    Err(_) => {
                        proof {
                            assert(self@ =~= v0);
                        }
                        None
                    },
                }
            },
        }
    }
}

} // verus!
