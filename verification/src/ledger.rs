//! The assignment ledger and the targetable set.
//!
//! The ledger owns the two pieces of persistent assignment state: an
//! append-only per-agent history of assigned target identities, and a
//! per-agent cache of the last known state of the currently assigned target.
//! It is the sole writer of both maps; the tracking control step only reads
//! the cache. The targetable set is the per-tick snapshot of every target's
//! latest state, the authoritative source both for the cost model's positions
//! and for resolving current assignments.

use vstd::prelude::*;
use std::collections::HashMap;

verus! {

broadcast use vstd::std_specs::hash::group_hash_axioms;

/// The latest known state vector of every entity currently carrying the
/// target marker, keyed by identity; refreshed from the entity store every
/// tick.
pub struct TargetableSet {
    map: HashMap<u128, Vec<i64>>,
}

impl TargetableSet {
    /// The snapshot as a map from target identity to its state vector.
    pub closed spec fn snapshot(&self) -> Map<u128, Seq<i64>> {
        Map::new(|t: u128| self.map@.contains_key(t), |t: u128| self.map@[t]@)
    }

    /// An empty snapshot.
    pub fn new() -> (s: Self)
        ensures
            s.snapshot() =~= Map::<u128, Seq<i64>>::empty(),
    {
        TargetableSet { map: HashMap::new() }
    }

    /// Record (or overwrite with) the latest state of one target.
    pub fn record(&mut self, target_id: u128, state: Vec<i64>)
        ensures
            final(self).snapshot() =~= old(self).snapshot().insert(target_id, state@),
    {
        self.map.insert(target_id, state);
    }

    /// Refresh the snapshot from the parallel identity/state lists of this
    /// tick's target population: each listed target's entry is overwritten
    /// with its listed state; targets not listed keep their previous entry.
    pub fn refresh(&mut self, target_ids: &Vec<u128>, states: &Vec<Vec<i64>>)
        requires
            target_ids@.len() == states@.len(),
            forall|p: int, q: int|
                0 <= p < q < target_ids@.len() ==> target_ids@[p] != target_ids@[q],
        ensures
            forall|i: int|
                0 <= i < target_ids@.len() ==> final(self).snapshot().contains_key(
                    #[trigger] target_ids@[i],
                ) && final(self).snapshot()[target_ids@[i]] == states@[i]@,
            forall|t: u128|
                !target_ids@.contains(t) ==> (final(self).snapshot().contains_key(t) <==> old(
                    self,
                ).snapshot().contains_key(t)),
            forall|t: u128|
                !target_ids@.contains(t) && old(self).snapshot().contains_key(t) ==> (
                #[trigger] final(self).snapshot()[t]) == old(self).snapshot()[t],
    {
        let n = target_ids.len();
        let mut i: usize = 0;
        while i < n
            invariant
                0 <= i <= n,
                n == target_ids@.len(),
                n == states@.len(),
                forall|p: int, q: int|
                    0 <= p < q < target_ids@.len() ==> target_ids@[p] != target_ids@[q],
                forall|k: int|
                    0 <= k < i ==> self.snapshot().contains_key(#[trigger] target_ids@[k])
                        && self.snapshot()[target_ids@[k]] == states@[k]@,
                forall|t: u128|
                    !target_ids@.subrange(0, i as int).contains(t) ==> (
                    self.snapshot().contains_key(t) <==> old(self).snapshot().contains_key(t)),
                forall|t: u128|
                    !target_ids@.subrange(0, i as int).contains(t) && old(
                        self,
                    ).snapshot().contains_key(t) ==> (#[trigger] self.snapshot()[t]) == old(
                        self,
                    ).snapshot()[t],
            decreases n - i,
        {
            let state = states[i].clone();
            proof {
                assert(state@ =~= states@[i as int]@);
            }
            let ghost pre = *self;
            self.map.insert(target_ids[i], state);
            proof {
                assert forall|t: u128|
                    !target_ids@.subrange(0, i + 1).contains(t) implies !target_ids@.subrange(
                    0,
                    i as int,
                ).contains(t) && t != target_ids@[i as int] by {
                    if target_ids@.subrange(0, i as int).contains(t) {
                        let k = choose|k: int|
                            0 <= k < i && target_ids@.subrange(0, i as int)[k] == t;
                        assert(target_ids@.subrange(0, i + 1)[k] == t);
                    }
                    if t == target_ids@[i as int] {
                        assert(target_ids@.subrange(0, i + 1)[i as int] == t);
                    }
                }
                assert forall|t: u128|
                    !target_ids@.subrange(0, i + 1).contains(t) && old(
                        self,
                    ).snapshot().contains_key(t) implies (#[trigger] self.snapshot()[t]) == old(
                    self,
                ).snapshot()[t] by {
                    assert(t != target_ids@[i as int]);
                    assert(self.map@[t] == pre.map@[t]);
                    assert(!target_ids@.subrange(0, i as int).contains(t));
                    assert(pre.snapshot()[t] == old(self).snapshot()[t]);
                }
            }
            i = i + 1;
        }
        proof {
            assert(target_ids@.subrange(0, n as int) =~= target_ids@);
        }
    }

    /// Resolve a target identity against the snapshot.
    pub fn lookup(&self, target_id: u128) -> (r: Option<&Vec<i64>>)
        ensures
            match r {
                Some(v) => self.snapshot().contains_key(target_id) && v@
                    == self.snapshot()[target_id],
                None => !self.snapshot().contains_key(target_id),
            },
    {
        self.map.get(&target_id)
    }

    /// How many targets the snapshot holds.
    pub fn len(&self) -> (n: usize)
        ensures
            n == self.snapshot().dom().len(),
    {
        proof {
            assert(self.snapshot().dom() =~= self.map@.dom());
        }
        self.map.len()
    }
}

/// The target identities appended by one binary-assignment row, in column
/// order: column `j`'s identity is appended exactly when entry `j` is 1.
pub open spec fn selected_targets(row: Seq<u32>, target_ids: Seq<u128>) -> Seq<u128>
    recommends
        row.len() == target_ids.len(),
    decreases row.len(),
{
    if row.len() == 0 {
        Seq::empty()
    } else {
        let rest = selected_targets(row.drop_last(), target_ids.drop_last());
        if row.last() == 1 {
            rest.push(target_ids.last())
        } else {
            rest
        }
    }
}

/// How one tick's append changes one agent's history: an agent already in
/// the ledger has the selected targets appended after its previous entries;
/// an agent seen for the first time enters the ledger exactly when it
/// receives at least one target this tick.
pub open spec fn history_appended(
    pre: Map<u128, Seq<u128>>,
    post: Map<u128, Seq<u128>>,
    agent: u128,
    sel: Seq<u128>,
) -> bool {
    if pre.contains_key(agent) {
        post.contains_key(agent) && post[agent] == pre[agent] + sel
    } else if sel.len() > 0 {
        post.contains_key(agent) && post[agent] == sel
    } else {
        !post.contains_key(agent)
    }
}

/// How one tick's refresh changes one agent's current-assignment cache: the
/// last entry of the agent's history names its active target; when that
/// target is present in the targetable snapshot the cache holds exactly that
/// target's state; otherwise — target momentarily absent, or no history at
/// all — the cache entry is exactly what it was before (staleness
/// retention).
pub open spec fn current_refreshed(
    hist: Map<u128, Seq<u128>>,
    targets: Map<u128, Seq<i64>>,
    pre: Map<u128, Seq<i64>>,
    post: Map<u128, Seq<i64>>,
    a: u128,
) -> bool {
    if hist.contains_key(a) && hist[a].len() > 0 && targets.contains_key(hist[a].last()) {
        post.contains_key(a) && post[a] == targets[hist[a].last()]
    } else {
        (post.contains_key(a) <==> pre.contains_key(a)) && (pre.contains_key(a) ==> post[a]
            == pre[a])
    }
}

/// The owner of the persistent assignment state: the append-only assignment
/// history and the current-assignment cache. All mutation goes through its
/// methods; every other component only reads.
pub struct AssignmentLedger {
    history_map: HashMap<u128, Vec<u128>>,
    current_map: HashMap<u128, Vec<i64>>,
}

impl AssignmentLedger {
    /// Each agent's ordered, append-only sequence of assigned target
    /// identities.
    pub closed spec fn history(&self) -> Map<u128, Seq<u128>> {
        Map::new(
            |a: u128| self.history_map@.contains_key(a),
            |a: u128| self.history_map@[a]@,
        )
    }

    /// Each agent's cached snapshot of its current target's state. An agent
    /// absent from this map has never had a resolvable assignment.
    pub closed spec fn current(&self) -> Map<u128, Seq<i64>> {
        Map::new(
            |a: u128| self.current_map@.contains_key(a),
            |a: u128| self.current_map@[a]@,
        )
    }

    /// An empty ledger: no history, no cached assignments.
    pub fn new() -> (l: Self)
        ensures
            l.history() =~= Map::<u128, Seq<u128>>::empty(),
            l.current() =~= Map::<u128, Seq<i64>>::empty(),
    {
        AssignmentLedger { history_map: HashMap::new(), current_map: HashMap::new() }
    }

    /// Record one tick's binary assignment into the history: for every entry
    /// `(i, j)` equal to 1, target `j`'s identity is appended to agent `i`'s
    /// history, in column order; an agent with several positive entries this
    /// tick appends several targets, one with none appends nothing and is
    /// unaffected. The history is append-only — every previous entry stays
    /// in place unchanged — and the current-assignment cache is untouched.
    pub fn append_assignments(
        &mut self,
        agent_ids: &Vec<u128>,
        target_ids: &Vec<u128>,
        binary: &Vec<Vec<u32>>,
    )
        requires
            binary@.len() == agent_ids@.len(),
            forall|i: int|
                0 <= i < binary@.len() ==> (#[trigger] binary@[i])@.len() == target_ids@.len(),
            forall|p: int, q: int|
                0 <= p < q < agent_ids@.len() ==> agent_ids@[p] != agent_ids@[q],
        ensures
            final(self).current() == old(self).current(),
            forall|i: int|
                0 <= i < agent_ids@.len() ==> history_appended(
                    old(self).history(),
                    final(self).history(),
                    #[trigger] agent_ids@[i],
                    selected_targets(binary@[i]@, target_ids@),
                ),
            forall|a: u128|
                !agent_ids@.contains(a) ==> (final(self).history().contains_key(a) <==> old(
                    self,
                ).history().contains_key(a)),
            forall|a: u128|
                !agent_ids@.contains(a) && old(self).history().contains_key(a) ==> (
                #[trigger] final(self).history()[a]) == old(self).history()[a],
            forall|a: u128|
                old(self).history().contains_key(a) ==> final(self).history().contains_key(a)
                    && (#[trigger] old(self).history()[a]).is_prefix_of(final(self).history()[a]),
    {
        let nagents = agent_ids.len();
        let ntargets = target_ids.len();
        let mut i: usize = 0;
        while i < nagents
            invariant
                0 <= i <= nagents,
                nagents == agent_ids@.len(),
                ntargets == target_ids@.len(),
                binary@.len() == agent_ids@.len(),
                forall|k: int|
                    0 <= k < binary@.len() ==> (#[trigger] binary@[k])@.len() == target_ids@.len(),
                forall|p: int, q: int|
                    0 <= p < q < agent_ids@.len() ==> agent_ids@[p] != agent_ids@[q],
                self.current() == old(self).current(),
                forall|k: int|
                    0 <= k < i ==> history_appended(
                        old(self).history(),
                        self.history(),
                        #[trigger] agent_ids@[k],
                        selected_targets(binary@[k]@, target_ids@),
                    ),
                forall|a: u128|
                    !agent_ids@.subrange(0, i as int).contains(a) ==> (
                    self.history().contains_key(a) <==> old(self).history().contains_key(a)),
                forall|a: u128|
                    !agent_ids@.subrange(0, i as int).contains(a) && old(
                        self,
                    ).history().contains_key(a) ==> (#[trigger] self.history()[a]) == old(
                        self,
                    ).history()[a],
            decreases nagents - i,
        {
            let a = agent_ids[i];
            let mut add: Vec<u128> = Vec::new();
            let mut j: usize = 0;
            while j < ntargets
                invariant
                    0 <= j <= ntargets,
                    0 <= i < nagents,
                    nagents == agent_ids@.len(),
                    ntargets == target_ids@.len(),
                    binary@.len() == agent_ids@.len(),
                    forall|k: int|
                        0 <= k < binary@.len() ==> (#[trigger] binary@[k])@.len()
                            == target_ids@.len(),
                    add@ == selected_targets(
                        binary@[i as int]@.subrange(0, j as int),
                        target_ids@.subrange(0, j as int),
                    ),
                decreases ntargets - j,
            {
                proof {
                    assert(binary@[i as int]@.subrange(0, j + 1).drop_last()
                        =~= binary@[i as int]@.subrange(0, j as int));
                    assert(target_ids@.subrange(0, j + 1).drop_last() =~= target_ids@.subrange(
                        0,
                        j as int,
                    ));
                    assert(binary@[i as int]@.subrange(0, j + 1).last() == binary@[i as int]@[j as int]);
                    assert(target_ids@.subrange(0, j + 1).last() == target_ids@[j as int]);
                }
                if binary[i][j] == 1 {
                    add.push(target_ids[j]);
                }
                j = j + 1;
            }
            proof {
                assert(binary@[i as int]@.subrange(0, ntargets as int) =~= binary@[i as int]@);
                assert(target_ids@.subrange(0, ntargets as int) =~= target_ids@);
            }
            let ghost sel = selected_targets(binary@[i as int]@, target_ids@);
            let ghost pre = *self;
            proof {
                assert(!agent_ids@.subrange(0, i as int).contains(a)) by {
                    if agent_ids@.subrange(0, i as int).contains(a) {
                        let m = choose|m: int| 0 <= m < i && agent_ids@.subrange(0, i as int)[m]
                            == a;
                        assert(agent_ids@[m] != agent_ids@[i as int]);
                    }
                }
                assert(pre.history().contains_key(a) <==> old(self).history().contains_key(a));
                if old(self).history().contains_key(a) {
                    assert((pre.history()[a]) == old(self).history()[a]);
                }
            }
            let (mut hist, was_present): (Vec<u128>, bool) = match self.history_map.get(&a) {
                Some(h) => {
                    let hc = h.clone();
                    proof {
                        assert(hc@ =~= h@);
                    }
                    (hc, true)
                },
                None => (Vec::new(), false),
            };
            let ghost base = hist@;
            proof {
                if was_present {
                    assert(base == pre.history_map@[a]@);
                    assert(base == old(self).history()[a]);
                } else {
                    assert(!old(self).history().contains_key(a));
                }
            }
            let mut k: usize = 0;
            let nadd = add.len();
            while k < nadd
                invariant
                    0 <= k <= nadd,
                    nadd == add@.len(),
                    hist@ == base + add@.subrange(0, k as int),
                decreases nadd - k,
            {
                hist.push(add[k]);
                proof {
                    assert(hist@ =~= base + add@.subrange(0, k + 1));
                }
                k = k + 1;
            }
            proof {
                assert(add@.subrange(0, nadd as int) =~= add@);
                assert(hist@ == base + sel);
            }
            if was_present || hist.len() > 0 {
                self.history_map.insert(a, hist);
            }
            proof {
                if !was_present && sel.len() == 0 {
                    assert(base =~= Seq::<u128>::empty());
                    assert(hist@ =~= base + sel);
                }
                if was_present || sel.len() > 0 {
                    assert(self.history_map@ == pre.history_map@.insert(a, hist));
                    assert(self.history()[a] == base + sel);
                }
                assert(history_appended(old(self).history(), self.history(), a, sel));
                assert forall|k2: int| 0 <= k2 < i + 1 implies history_appended(
                    old(self).history(),
                    self.history(),
                    #[trigger] agent_ids@[k2],
                    selected_targets(binary@[k2]@, target_ids@),
                ) by {
                    if k2 < i {
                        assert(agent_ids@[k2] != agent_ids@[i as int]);
                        assert(self.history().contains_key(agent_ids@[k2])
                            <==> pre.history().contains_key(agent_ids@[k2]));
                        if pre.history().contains_key(agent_ids@[k2]) {
                            assert(self.history_map@[agent_ids@[k2]] == pre.history_map@[
                                agent_ids@[k2]
                            ]);
                        }
                        assert(history_appended(
                            old(self).history(),
                            pre.history(),
                            agent_ids@[k2],
                            selected_targets(binary@[k2]@, target_ids@),
                        ));
                    }
                }
                assert forall|t: u128|
                    !agent_ids@.subrange(0, i + 1).contains(t) implies (
                    self.history().contains_key(t) <==> old(self).history().contains_key(t)) by {
                    if t == a {
                        assert(agent_ids@.subrange(0, i + 1)[i as int] == t);
                        assert(false);
                    }
                    if agent_ids@.subrange(0, i as int).contains(t) {
                        let m = choose|m: int| 0 <= m < i && agent_ids@.subrange(0, i as int)[m]
                            == t;
                        assert(agent_ids@.subrange(0, i + 1)[m] == t);
                        assert(false);
                    }
                    assert(self.history_map@.contains_key(t) <==> pre.history_map@.contains_key(
                        t,
                    ));
                }
                assert forall|t: u128|
                    !agent_ids@.subrange(0, i + 1).contains(t) && old(
                        self,
                    ).history().contains_key(t) implies (#[trigger] self.history()[t]) == old(
                    self,
                ).history()[t] by {
                    if t == a {
                        assert(agent_ids@.subrange(0, i + 1)[i as int] == t);
                        assert(false);
                    }
                    if agent_ids@.subrange(0, i as int).contains(t) {
                        let m = choose|m: int| 0 <= m < i && agent_ids@.subrange(0, i as int)[m]
                            == t;
                        assert(agent_ids@.subrange(0, i + 1)[m] == t);
                        assert(false);
                    }
                    assert(self.history_map@[t] == pre.history_map@[t]);
                    assert(pre.history().contains_key(t));
                    assert((pre.history()[t]) == old(self).history()[t]);
                    assert(self.history()[t] == pre.history_map@[t]@);
                }
            }
            i = i + 1;
        }
        proof {
            assert(agent_ids@.subrange(0, nagents as int) =~= agent_ids@);
            assert forall|a: u128|
                old(self).history().contains_key(a) implies final(self).history().contains_key(a)
                && (#[trigger] old(self).history()[a]).is_prefix_of(final(self).history()[a]) by {
                if agent_ids@.contains(a) {
                    let k = choose|k: int| 0 <= k < agent_ids@.len() && agent_ids@[k] == a;
                    assert(history_appended(
                        old(self).history(),
                        final(self).history(),
                        agent_ids@[k],
                        selected_targets(binary@[k]@, target_ids@),
                    ));
                    let sel = selected_targets(binary@[k]@, target_ids@);
                    assert(final(self).history()[a] == old(self).history()[a] + sel);
                    assert(old(self).history()[a] =~= (old(self).history()[a] + sel).subrange(
                        0,
                        old(self).history()[a].len() as int,
                    ));
                } else {
                    assert(old(self).history()[a] =~= final(self).history()[a]);
                    assert(final(self).history()[a].subrange(
                        0,
                        final(self).history()[a].len() as int,
                    ) =~= final(self).history()[a]);
                }
            }
        }
    }

    /// Refresh every listed agent's current-assignment cache: resolve the
    /// last entry of the agent's history against the targetable snapshot
    /// and, when the target is present, overwrite the cache with that
    /// target's state. When the target is absent this tick — or the agent
    /// has no history — the previous cache entry is deliberately kept
    /// (staleness retention): a momentarily missing target does not zero
    /// out the agent's control reference. The history is untouched.
    pub fn refresh_current(&mut self, agent_ids: &Vec<u128>, targets: &TargetableSet)
        requires
            forall|p: int, q: int|
                0 <= p < q < agent_ids@.len() ==> agent_ids@[p] != agent_ids@[q],
        ensures
            final(self).history() == old(self).history(),
            forall|i: int|
                0 <= i < agent_ids@.len() ==> current_refreshed(
                    old(self).history(),
                    targets.snapshot(),
                    old(self).current(),
                    final(self).current(),
                    #[trigger] agent_ids@[i],
                ),
            forall|a: u128|
                !agent_ids@.contains(a) ==> (final(self).current().contains_key(a) <==> old(
                    self,
                ).current().contains_key(a)),
            forall|a: u128|
                !agent_ids@.contains(a) && old(self).current().contains_key(a) ==> (
                #[trigger] final(self).current()[a]) == old(self).current()[a],
    {
        let nagents = agent_ids.len();
        let mut i: usize = 0;
        while i < nagents
            invariant
                0 <= i <= nagents,
                nagents == agent_ids@.len(),
                forall|p: int, q: int|
                    0 <= p < q < agent_ids@.len() ==> agent_ids@[p] != agent_ids@[q],
                self.history() == old(self).history(),
                self.history_map@ == old(self).history_map@,
                forall|k: int|
                    0 <= k < i ==> current_refreshed(
                        old(self).history(),
                        targets.snapshot(),
                        old(self).current(),
                        self.current(),
                        #[trigger] agent_ids@[k],
                    ),
                forall|a: u128|
                    !agent_ids@.subrange(0, i as int).contains(a) ==> (
                    self.current().contains_key(a) <==> old(self).current().contains_key(a)),
                forall|a: u128|
                    !agent_ids@.subrange(0, i as int).contains(a) && old(
                        self,
                    ).current().contains_key(a) ==> (#[trigger] self.current()[a]) == old(
                        self,
                    ).current()[a],
            decreases nagents - i,
        {
            let a = agent_ids[i];
            let ghost pre = *self;
            proof {
                assert(!agent_ids@.subrange(0, i as int).contains(a)) by {
                    if agent_ids@.subrange(0, i as int).contains(a) {
                        let m = choose|m: int| 0 <= m < i && agent_ids@.subrange(0, i as int)[m]
                            == a;
                        assert(agent_ids@[m] != agent_ids@[i as int]);
                    }
                }
            }
            let tid_opt: Option<u128> = match self.history_map.get(&a) {
                Some(h) => {
                    if h.len() > 0 {
                        Some(h[h.len() - 1])
                    } else {
                        None
                    }
                },
                None => None,
            };
            proof {
                match tid_opt {
                    Some(tid) => {
                        assert(old(self).history().contains_key(a));
                        assert(old(self).history()[a].len() > 0);
                        assert(tid == old(self).history()[a].last());
                    },
                    None => {
                        assert(!(old(self).history().contains_key(a) && old(self).history()[
                            a
                        ].len() > 0));
                    },
                }
            }
            let mut wrote: bool = false;
            match tid_opt {
                Some(tid) => {
                    match targets.lookup(tid) {
                        Some(v) => {
                            let vc = v.clone();
                            proof {
                                assert(vc@ =~= v@);
                            }
                            self.current_map.insert(a, vc);
                            wrote = true;
                        },
                        None => {},
                    }
                },
                None => {},
            }
            proof {
                if wrote {
                    assert(self.current_map@ == pre.current_map@.insert(
                        a,
                        self.current_map@[a],
                    ));
                }
                assert(current_refreshed(
                    old(self).history(),
                    targets.snapshot(),
                    old(self).current(),
                    self.current(),
                    a,
                )) by {
                    if !wrote {
                        assert(self.current_map@ == pre.current_map@);
                        assert(self.current().contains_key(a) <==> old(
                            self,
                        ).current().contains_key(a));
                        if old(self).current().contains_key(a) {
                            assert(self.current()[a] == old(self).current()[a]);
                        }
                    }
                }
                assert forall|k2: int| 0 <= k2 < i + 1 implies current_refreshed(
                    old(self).history(),
                    targets.snapshot(),
                    old(self).current(),
                    self.current(),
                    #[trigger] agent_ids@[k2],
                ) by {
                    if k2 < i {
                        assert(agent_ids@[k2] != agent_ids@[i as int]);
                        assert(self.current_map@.contains_key(agent_ids@[k2])
                            <==> pre.current_map@.contains_key(agent_ids@[k2]));
                        if pre.current_map@.contains_key(agent_ids@[k2]) {
                            assert(self.current_map@[agent_ids@[k2]] == pre.current_map@[
                                agent_ids@[k2]
                            ]);
                        }
                        assert(current_refreshed(
                            old(self).history(),
                            targets.snapshot(),
                            old(self).current(),
                            pre.current(),
                            agent_ids@[k2],
                        ));
                    }
                }
                assert forall|t: u128|
                    !agent_ids@.subrange(0, i + 1).contains(t) implies (
                    self.current().contains_key(t) <==> old(self).current().contains_key(t)) by {
                    if t == a {
                        assert(agent_ids@.subrange(0, i + 1)[i as int] == t);
                        assert(false);
                    }
                    if agent_ids@.subrange(0, i as int).contains(t) {
                        let m = choose|m: int| 0 <= m < i && agent_ids@.subrange(0, i as int)[m]
                            == t;
                        assert(agent_ids@.subrange(0, i + 1)[m] == t);
                        assert(false);
                    }
                    assert(self.current_map@.contains_key(t) <==> pre.current_map@.contains_key(
                        t,
                    ));
                }
                assert forall|t: u128|
                    !agent_ids@.subrange(0, i + 1).contains(t) && old(
                        self,
                    ).current().contains_key(t) implies (#[trigger] self.current()[t]) == old(
                    self,
                ).current()[t] by {
                    if t == a {
                        assert(agent_ids@.subrange(0, i + 1)[i as int] == t);
                        assert(false);
                    }
                    if agent_ids@.subrange(0, i as int).contains(t) {
                        let m = choose|m: int| 0 <= m < i && agent_ids@.subrange(0, i as int)[m]
                            == t;
                        assert(agent_ids@.subrange(0, i + 1)[m] == t);
                        assert(false);
                    }
                    assert(self.current_map@[t] == pre.current_map@[t]);
                    assert(pre.current().contains_key(t));
                    assert((pre.current()[t]) == old(self).current()[t]);
                    assert(self.current()[t] == pre.current_map@[t]@);
                }
            }
            i = i + 1;
        }
        proof {
            assert(agent_ids@.subrange(0, nagents as int) =~= agent_ids@);
        }
    }

    /// Read one agent's current-assignment snapshot, if any.
    pub fn read_current(&self, agent_id: u128) -> (r: Option<&Vec<i64>>)
        ensures
            match r {
                Some(v) => self.current().contains_key(agent_id) && v@ == self.current()[agent_id],
                None => !self.current().contains_key(agent_id),
            },
    {
        self.current_map.get(&agent_id)
    }

    /// Read one agent's assignment history, if any.
    pub fn history_of(&self, agent_id: u128) -> (r: Option<&Vec<u128>>)
        ensures
            match r {
                Some(h) => self.history().contains_key(agent_id) && h@ == self.history()[agent_id],
                None => !self.history().contains_key(agent_id),
            },
    {
        self.history_map.get(&agent_id)
    }
}

} // verus!
