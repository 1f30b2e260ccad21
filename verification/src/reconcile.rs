//! The client-side reconciliation engine: a one-to-one mapping from
//! authoritative server entities to locally materialized entities, diffed
//! against each incoming snapshot.
//!
//! Reconciliation is minimal: an entity whose state is unchanged is
//! neither recreated nor rewritten, so applying the same snapshot twice
//! performs no operation at all the second time.

use vstd::prelude::*;

use crate::maps::contains_u64;
use crate::messages::{GameState, TransformData};

verus! {

/// One row of the mapping: a server entity, the local entity standing in
/// for it, and the last state applied to it.
#[derive(Clone, Copy, PartialEq, Eq, Structural, Debug)]
pub struct MappedEntity {
    pub server_entity: u64,
    pub client_entity: u64,
    pub state: TransformData,
}

/// The operations a reconciliation pass hands to the renderer.
#[derive(Clone, Copy, PartialEq, Eq, Structural, Debug)]
pub enum ReconcileOp {
    /// Rewrite the state of an existing local entity.
    Update { client: u64, state: TransformData },
    /// Materialize a fresh local entity for a server entity.
    Create { server: u64, client: u64, state: TransformData },
    /// Destroy the local entity; its server entity left the snapshot.
    Destroy { client: u64 },
}

/// The mapping registry, with the allocator for fresh local entities.
pub struct MyEntityMapping {
    pub mapping: Vec<MappedEntity>,
    pub next_client_entity: u64,
}

/// Whether the snapshot lists server entity `sid`.
pub open spec fn snap_has(snap: Seq<(u64, TransformData)>, sid: u64) -> bool {
    exists|i: int| 0 <= i < snap.len() && (#[trigger] snap[i]).0 == sid
}

/// Whether the mapping has a row for server entity `sid`.
pub open spec fn map_has(m: Seq<MappedEntity>, sid: u64) -> bool {
    exists|i: int| 0 <= i < m.len() && (#[trigger] m[i]).server_entity == sid
}

pub open spec fn map_index(m: Seq<MappedEntity>, sid: u64) -> int {
    choose|i: int| 0 <= i < m.len() && (#[trigger] m[i]).server_entity == sid
}

/// Server rows are unique, local rows are unique, and every local entity
/// is below the allocator mark.
pub open spec fn mapping_wf(m: Seq<MappedEntity>, next: u64) -> bool {
    &&& forall|i: int| 0 <= i < m.len() ==> (#[trigger] m[i]).client_entity < next
    &&& forall|i: int, j: int|
        0 <= i < j < m.len() ==> (#[trigger] m[i]).server_entity != (#[trigger] m[j]).server_entity
            && m[i].client_entity != m[j].client_entity
}

/// Server entities appear at most once in a snapshot.
pub open spec fn snap_unique(snap: Seq<(u64, TransformData)>) -> bool {
    forall|i: int, j: int| 0 <= i < j < snap.len() ==> (#[trigger] snap[i]).0 != (#[trigger] snap[j]).0
}

/// What one snapshot entry does to the mapping: an entry already mapped
/// to a live local entity is updated in place (and only when its state
/// changed); one mapped to a dead local entity is rematerialized under a
/// fresh local entity; an unmapped one is materialized and recorded.
pub open spec fn spec_apply_one(
    m: Seq<MappedEntity>,
    next: u64,
    e: (u64, TransformData),
    live: Seq<u64>,
) -> (Seq<MappedEntity>, u64, Seq<ReconcileOp>) {
    if map_has(m, e.0) {
        let i = map_index(m, e.0);
        let row = m[i];
        if live.contains(row.client_entity) {
            if row.state == e.1 {
                (m, next, Seq::<ReconcileOp>::empty())
            } else {
                (
                    m.update(i, MappedEntity { state: e.1, ..row }),
                    next,
                    seq![ReconcileOp::Update { client: row.client_entity, state: e.1 }],
                )
            }
        } else {
            (
                m.update(
                    i,
                    MappedEntity { server_entity: e.0, client_entity: next, state: e.1 },
                ),
                (next + 1) as u64,
                seq![ReconcileOp::Create { server: e.0, client: next, state: e.1 }],
            )
        }
    } else {
        (
            m.push(MappedEntity { server_entity: e.0, client_entity: next, state: e.1 }),
            (next + 1) as u64,
            seq![ReconcileOp::Create { server: e.0, client: next, state: e.1 }],
        )
    }
}

/// The first reconciliation phase over the whole snapshot, front to back.
pub open spec fn spec_apply(
    m: Seq<MappedEntity>,
    next: u64,
    snap: Seq<(u64, TransformData)>,
    live: Seq<u64>,
) -> (Seq<MappedEntity>, u64, Seq<ReconcileOp>)
    decreases snap.len(),
{
    if snap.len() == 0 {
        (m, next, Seq::<ReconcileOp>::empty())
    } else {
        let one = spec_apply_one(m, next, snap[0], live);
        let rest = spec_apply(one.0, one.1, snap.skip(1), live);
        (rest.0, rest.1, one.2 + rest.2)
    }
}

/// The predicate keeping the mapping rows whose server entity the
/// snapshot still lists.
pub open spec fn kept_row(snap: Seq<(u64, TransformData)>) -> spec_fn(MappedEntity) -> bool {
    |row: MappedEntity| snap_has(snap, row.server_entity)
}

/// The predicate selecting the rows whose local entity must actually be
/// destroyed: dropped from the snapshot and still alive locally. A row
/// whose local entity is already gone is dropped without a second
/// destroy.
pub open spec fn destroyed_row(snap: Seq<(u64, TransformData)>, live: Seq<u64>) -> spec_fn(
    MappedEntity,
) -> bool {
    |row: MappedEntity| !snap_has(snap, row.server_entity) && live.contains(row.client_entity)
}

pub open spec fn to_destroy() -> spec_fn(MappedEntity) -> ReconcileOp {
    |row: MappedEntity| ReconcileOp::Destroy { client: row.client_entity }
}

/// The second reconciliation phase: drop every mapping the snapshot no
/// longer lists, destroying its local entity when it is still alive.
pub open spec fn spec_sweep(
    m: Seq<MappedEntity>,
    snap: Seq<(u64, TransformData)>,
    live: Seq<u64>,
) -> (Seq<MappedEntity>, Seq<ReconcileOp>) {
    (m.filter(kept_row(snap)), m.filter(destroyed_row(snap, live)).map_values(to_destroy()))
}

/// A mapping is in sync with a snapshot when the two list the same server
/// entities, every mapped state equals the snapshot state, and every
/// mapped local entity is alive.
pub open spec fn synced(
    m: Seq<MappedEntity>,
    snap: Seq<(u64, TransformData)>,
    live: Seq<u64>,
) -> bool {
    &&& forall|i: int|
        0 <= i < snap.len() ==> map_has(m, (#[trigger] snap[i]).0) && m[map_index(
            m,
            snap[i].0,
        )].state == snap[i].1 && live.contains(m[map_index(m, snap[i].0)].client_entity)
    &&& forall|j: int| 0 <= j < m.len() ==> snap_has(snap, (#[trigger] m[j]).server_entity)
}

impl MyEntityMapping {
    pub open spec fn wf(self) -> bool {
        mapping_wf(self.mapping@, self.next_client_entity)
    }

    /// An empty mapping; local entity handles start at the given seed.
    pub fn new() -> (r: Self)
        ensures
            r.mapping@ == Seq::<MappedEntity>::empty(),
            r.next_client_entity == 0,
            r.wf(),
    {
        MyEntityMapping { mapping: Vec::new(), next_client_entity: 0 }
    }

    /// The local entity standing in for server entity `sid`, if mapped.
    pub fn map_entity(&self, sid: u64) -> (r: Option<u64>)
        requires
            self.wf(),
        ensures
            match r {
                Some(c) => map_has(self.mapping@, sid) && c == self.mapping@[map_index(
                    self.mapping@,
                    sid,
                )].client_entity,
                None => !map_has(self.mapping@, sid),
            },
    {
        match self.find_mapping_index(sid) {
            None => None,
            Some(i) => Some(self.mapping[i].client_entity),
        }
    }

    /// Index of the mapping row for server entity `sid`.
    fn find_mapping_index(&self, sid: u64) -> (r: Option<usize>)
        requires
            self.wf(),
        ensures
            match r {
                Some(i) => i < self.mapping@.len() && self.mapping@[i as int].server_entity == sid
                    && map_has(self.mapping@, sid) && map_index(self.mapping@, sid) == i,
                None => !map_has(self.mapping@, sid),
            },
    {
        let n = self.mapping.len();
        let mut i: usize = 0;
        while i < n
            invariant
                i <= n,
                n == self.mapping@.len(),
                self.wf(),
                forall|k: int| 0 <= k < i ==> (#[trigger] self.mapping@[k]).server_entity != sid,
            decreases n - i,
        {
            if self.mapping[i].server_entity == sid {
                proof {
                    assert(map_has(self.mapping@, sid));
                    let c = map_index(self.mapping@, sid);
                    assert(0 <= c < self.mapping@.len() && self.mapping@[c].server_entity == sid);
                    assert(c == i as int);
                }
                return Some(i);
            }
            i = i + 1;
        }
        None
    }

    /// One reconciliation pass against an authoritative snapshot: update
    /// mapped entities whose state changed, materialize fresh local
    /// entities for new or locally-dead ones, then destroy the local
    /// entity of every mapping the snapshot no longer lists. `live` names
    /// the local entities that still exist; a mapping whose local entity
    /// is already gone is dropped without a second destroy. A repeated
    /// identical snapshot performs no operation.
    pub fn reconcile(&mut self, snapshot: &GameState, live: &Vec<u64>) -> (ops: Vec<ReconcileOp>)
        requires
            old(self).wf(),
            snap_unique(snapshot.projectile_states@),
            old(self).next_client_entity + snapshot.projectile_states@.len() <= u64::MAX,
        ensures
            final(self).wf(),
            ({
                let a = spec_apply(
                    old(self).mapping@,
                    old(self).next_client_entity,
                    snapshot.projectile_states@,
                    live@,
                );
                let s = spec_sweep(a.0, snapshot.projectile_states@, live@);
                &&& final(self).mapping@ == s.0
                &&& final(self).next_client_entity == a.1
                &&& ops@ == a.2 + s.1
            }),
            synced(old(self).mapping@, snapshot.projectile_states@, live@) ==> ops@.len() == 0
                && final(self).mapping@ == old(self).mapping@ && final(self).next_client_entity
                == old(self).next_client_entity,
    {
        let ghost m0 = self.mapping@;
        let ghost n0 = self.next_client_entity;
        let ghost snapv = snapshot.projectile_states@;
        let ghost a = spec_apply(m0, n0, snapv, live@);
        let mut ops: Vec<ReconcileOp> = Vec::new();
        let ns = snapshot.projectile_states.len();
        let mut i: usize = 0;
        proof {
            assert(snapv.skip(0int) =~= snapv);
            assert(ops@ + spec_apply(self.mapping@, self.next_client_entity, snapv, live@).2
                =~= spec_apply(self.mapping@, self.next_client_entity, snapv, live@).2);
        }
        while i < ns
            invariant
                i <= ns,
                ns == snapv.len(),
                snapv == snapshot.projectile_states@,
                n0 + snapv.len() <= u64::MAX,
                snap_unique(snapv),
                mapping_wf(self.mapping@, self.next_client_entity),
                self.next_client_entity as int <= n0 as int + i,
                ({
                    let rest = spec_apply(
                        self.mapping@,
                        self.next_client_entity,
                        snapv.skip(i as int),
                        live@,
                    );
                    &&& rest.0 == a.0
                    &&& rest.1 == a.1
                    &&& a.2 == ops@ + rest.2
                }),
            decreases ns - i,
        {
            let (sid, st) = snapshot.projectile_states[i];
            let ghost m_before = self.mapping@;
            let ghost n_before = self.next_client_entity;
            let ghost one = spec_apply_one(m_before, n_before, snapv[i as int], live@);
            let ghost ops_before = ops@;
            proof {
                assert(snapv.skip(i as int)[0] == snapv[i as int]);
                assert(snapv.skip(i as int).skip(1) =~= snapv.skip(i + 1int));
            }
            match self.find_mapping_index(sid) {
                Some(j) => {
                    let row = self.mapping[j];
                    if contains_u64(live, row.client_entity) {
                        if row.state.x != st.x || row.state.y != st.y || row.state.z != st.z
                            || row.state.rotation != st.rotation {
                            let newrow = MappedEntity { state: st, ..row };
                            self.mapping.set(j, newrow);
                            ops.push(ReconcileOp::Update { client: row.client_entity, state: st });
                        }
                    } else {
                        let fresh = self.next_client_entity;
                        let newrow = MappedEntity {
                            server_entity: sid,
                            client_entity: fresh,
                            state: st,
                        };
                        self.mapping.set(j, newrow);
                        self.next_client_entity = self.next_client_entity + 1;
                        ops.push(ReconcileOp::Create { server: sid, client: fresh, state: st });
                    }
                },
                None => {
                    let fresh = self.next_client_entity;
                    self.mapping.push(
                        MappedEntity { server_entity: sid, client_entity: fresh, state: st },
                    );
                    self.next_client_entity = self.next_client_entity + 1;
                    ops.push(ReconcileOp::Create { server: sid, client: fresh, state: st });
                },
            }
            proof {
                assert(self.mapping@ == one.0);
                assert(self.next_client_entity == one.1);
                assert(ops@ =~= ops_before + one.2);
                assert(spec_apply(m_before, n_before, snapv.skip(i as int), live@).2 == one.2
                    + spec_apply(one.0, one.1, snapv.skip(i + 1int), live@).2);
                assert(ops_before + (one.2 + spec_apply(
                    one.0,
                    one.1,
                    snapv.skip(i + 1int),
                    live@,
                ).2) =~= ops@ + spec_apply(one.0, one.1, snapv.skip(i + 1int), live@).2);
                assert forall|x: int, y: int|
                    0 <= x < y < self.mapping@.len() implies (
                #[trigger] self.mapping@[x]).server_entity != (
                #[trigger] self.mapping@[y]).server_entity && self.mapping@[x].client_entity != (
                self.mapping@[y]).client_entity by {
                    if x < m_before.len() && y < m_before.len() {
                        assert(m_before[x].server_entity != m_before[y].server_entity);
                    }
                }
            }
            i = i + 1;
        }
        proof {
            assert(snapv.skip(ns as int) =~= Seq::<(u64, TransformData)>::empty());
            assert(self.mapping@ == a.0);
            assert(self.next_client_entity == a.1);
            assert(a.2 =~= ops@);
        }
        let ghost m1 = self.mapping@;
        let ghost s = spec_sweep(m1, snapv, live@);
        let nm = self.mapping.len();
        let mut kept: Vec<MappedEntity> = Vec::new();
        let mut j: usize = 0;
        proof {
            assert(m1.take(0int).filter(kept_row(snapv)) =~= Seq::<MappedEntity>::empty());
            assert(m1.take(0int).filter(destroyed_row(snapv, live@)).map_values(to_destroy())
                =~= Seq::<ReconcileOp>::empty());
            assert(ops@ =~= a.2 + m1.take(0int).filter(destroyed_row(snapv, live@)).map_values(
                to_destroy(),
            ));
        }
        while j < nm
            invariant
                j <= nm,
                nm == m1.len(),
                m1 == self.mapping@,
                snapv == snapshot.projectile_states@,
                kept@ == m1.take(j as int).filter(kept_row(snapv)),
                ops@ == a.2 + m1.take(j as int).filter(destroyed_row(snapv, live@)).map_values(
                    to_destroy(),
                ),
            decreases nm - j,
        {
            let row = self.mapping[j];
            proof {
                crate::util::lemma_filter_take_step(m1, kept_row(snapv), j as int);
                crate::util::lemma_filter_take_step(m1, destroyed_row(snapv, live@), j as int);
            }
            let ghost kept_before = kept@;
            let ghost ops_before = ops@;
            if snapshot_has(&snapshot.projectile_states, row.server_entity) {
                kept.push(row);
                proof {
                    assert(kept@ =~= kept_before.push(row));
                    assert(kept@ =~= m1.take(j + 1int).filter(kept_row(snapv)));
                }
            } else {
                if contains_u64(live, row.client_entity) {
                    ops.push(ReconcileOp::Destroy { client: row.client_entity });
                    proof {
                        let pre = m1.take(j as int).filter(destroyed_row(snapv, live@));
                        assert(pre.push(row).map_values(to_destroy()) =~= pre.map_values(
                            to_destroy(),
                        ).push(to_destroy()(row)));
                        assert(ops@ =~= a.2 + m1.take(j + 1int).filter(
                            destroyed_row(snapv, live@),
                        ).map_values(to_destroy()));
                    }
                }
            }
            j = j + 1;
        }
        self.mapping = kept;
        proof {
            assert(m1.take(nm as int) =~= m1);
            assert(self.mapping@ == s.0);
            assert(ops@ == a.2 + s.1);
            let keptv = m1.filter(kept_row(snapv));
            assert forall|x: int| 0 <= x < keptv.len() implies (
            #[trigger] keptv[x]).client_entity < self.next_client_entity by {
                crate::util::lemma_filter_elem(m1, kept_row(snapv), x);
                let jx = choose|jx: int| 0 <= jx < m1.len() && m1[jx] == keptv[x];
            }
            assert forall|x: int, y: int| 0 <= x < y < keptv.len() implies (
            #[trigger] keptv[x]).server_entity != (#[trigger] keptv[y]).server_entity && (
            keptv[x]).client_entity != (keptv[y]).client_entity by {
                lemma_filter_mapping_distinct(m1, kept_row(snapv), x, y);
            }
            if synced(m0, snapv, live@) {
                lemma_reconcile_idempotent(m0, n0, snapv, live@);
            }
        }
        ops
    }
}

/// Whether the snapshot lists server entity `sid`.
fn snapshot_has(snap: &Vec<(u64, TransformData)>, sid: u64) -> (r: bool)
    ensures
        r == snap_has(snap@, sid),
{
    let n = snap.len();
    let mut i: usize = 0;
    while i < n
        invariant
            i <= n,
            n == snap@.len(),
            forall|k: int| 0 <= k < i ==> (#[trigger] snap@[k]).0 != sid,
        decreases n - i,
    {
        if snap[i].0 == sid {
            return true;
        }
        i = i + 1;
    }
    false
}

/// Filtering a pairwise-distinct mapping keeps distinct rows distinct.
proof fn lemma_filter_mapping_distinct(
    s: Seq<MappedEntity>,
    pred: spec_fn(MappedEntity) -> bool,
    a: int,
    b: int,
)
    requires
        forall|i: int, j: int|
            0 <= i < j < s.len() ==> (#[trigger] s[i]).server_entity != (
            #[trigger] s[j]).server_entity && s[i].client_entity != s[j].client_entity,
        0 <= a < b < s.filter(pred).len(),
    ensures
        s.filter(pred)[a].server_entity != s.filter(pred)[b].server_entity,
        s.filter(pred)[a].client_entity != s.filter(pred)[b].client_entity,
    decreases s.len(),
{
    reveal(Seq::filter);
    if s.len() == 0 {
    } else {
        let d = s.drop_last();
        let fd = d.filter(pred);
        if pred(s.last()) && b == s.filter(pred).len() - 1 && s.filter(pred).len() == fd.len()
            + 1 {
            crate::util::lemma_filter_elem(d, pred, a);
            let j = choose|j: int| 0 <= j < d.len() && d[j] == fd[a];
            assert(s[j].server_entity != s[s.len() - 1].server_entity);
        } else {
            lemma_filter_mapping_distinct(d, pred, a, b);
        }
    }
}

/// A pass over a snapshot the mapping is already in sync with applies no
/// change and emits no operation.
proof fn lemma_apply_synced_noop(
    m: Seq<MappedEntity>,
    next: u64,
    snap: Seq<(u64, TransformData)>,
    live: Seq<u64>,
)
    requires
        forall|i: int|
            0 <= i < snap.len() ==> map_has(m, (#[trigger] snap[i]).0) && m[map_index(
                m,
                snap[i].0,
            )].state == snap[i].1 && live.contains(m[map_index(m, snap[i].0)].client_entity),
    ensures
        spec_apply(m, next, snap, live) == (m, next, Seq::<ReconcileOp>::empty()),
    decreases snap.len(),
{
    if snap.len() == 0 {
    } else {
        assert(spec_apply_one(m, next, snap[0], live) == (
            m,
            next,
            Seq::<ReconcileOp>::empty(),
        ));
        assert forall|i: int| 0 <= i < snap.skip(1).len() implies map_has(
            m,
            (#[trigger] snap.skip(1)[i]).0,
        ) && m[map_index(m, snap.skip(1)[i].0)].state == snap.skip(1)[i].1 && live.contains(
            m[map_index(m, snap.skip(1)[i].0)].client_entity,
        ) by {
            assert(snap.skip(1)[i] == snap[i + 1]);
        }
        lemma_apply_synced_noop(m, next, snap.skip(1), live);
        assert(Seq::<ReconcileOp>::empty() + Seq::<ReconcileOp>::empty() =~= Seq::<
            ReconcileOp,
        >::empty());
    }
}

/// Reconciliation is idempotent: against a snapshot the mapping is
/// already in sync with — as it is right after any reconciliation pass
/// whose created entities have been materialized — nothing is created,
/// updated or destroyed, and the mapping is left exactly as it was.
pub proof fn lemma_reconcile_idempotent(
    m: Seq<MappedEntity>,
    next: u64,
    snap: Seq<(u64, TransformData)>,
    live: Seq<u64>,
)
    requires
        synced(m, snap, live),
    ensures
        spec_apply(m, next, snap, live) == (m, next, Seq::<ReconcileOp>::empty()),
        spec_sweep(m, snap, live) == (m, Seq::<ReconcileOp>::empty()),
{
    lemma_apply_synced_noop(m, next, snap, live);
    crate::util::lemma_filter_all_true(m, kept_row(snap));
    crate::util::lemma_filter_all_false(m, destroyed_row(snap, live));
    assert(Seq::<MappedEntity>::empty().map_values(to_destroy()) =~= Seq::<
        ReconcileOp,
    >::empty());
}

} // verus!
