//! The reassignment pipeline: pairwise squared-distance costs, normalization
//! by the global maximum, uniform mass weights, and row-wise max thresholding
//! of a coupling matrix into a binary assignment.
//!
//! All quantities are exact: positions are fixed-point coordinates (`i64`),
//! costs are exact integers, and a normalized cost is the rational
//! `entries[i][j] / scale`. The external transportation solver consumes the
//! same data in its own numeric format and hands back a coupling matrix whose
//! entries are compared here only by their order, so any order-preserving
//! encoding of the solver's masses into `u64` is accepted.

use vstd::prelude::*;

verus! {

/// Failures of one tick's reassignment phase. Every variant is surfaced to
/// the caller; none is silently swallowed and there is no fallback assignment.
#[derive(Debug, Clone, Copy, PartialEq, Eq, Structural)]
pub enum AssignError {
    /// One of the two populations is empty; the cost model is undefined.
    EmptyPopulation,
    /// The two position lists do not share one fixed dimension.
    DimensionMismatch,
    /// A pairwise cost does not fit the fixed-width cost representation.
    CostOverflow,
    /// The external transportation solver failed (infeasible weights or
    /// non-convergence); fatal for the tick, by design.
    SolverFailure,
}

/// The greatest value in a sequence of mass entries (0 for an empty one).
pub open spec fn seq_max(s: Seq<u64>) -> u64
    decreases s.len(),
{
    if s.len() == 0 {
        0
    } else {
        let m = seq_max(s.drop_last());
        if s.last() >= m {
            s.last()
        } else {
            m
        }
    }
}

/// Every entry of `s` is at most `seq_max(s)`.
pub proof fn lemma_seq_max_is_bound(s: Seq<u64>)
    ensures
        forall|j: int| 0 <= j < s.len() ==> s[j] <= seq_max(s),
    decreases s.len(),
{
    if s.len() > 0 {
        lemma_seq_max_is_bound(s.drop_last());
        assert(forall|j: int| 0 <= j < s.len() - 1 ==> s[j] == s.drop_last()[j]);
    }
}

/// A non-empty sequence attains its maximum somewhere.
pub proof fn lemma_seq_max_attained(s: Seq<u64>)
    requires
        s.len() >= 1,
    ensures
        exists|j: int| 0 <= j < s.len() && s[j] == seq_max(s),
    decreases s.len(),
{
    if s.len() == 1 {
        assert(s.drop_last() =~= Seq::<u64>::empty());
        assert(seq_max(s.drop_last()) == 0);
        assert(s[0] == seq_max(s));
    } else {
        if s.last() >= seq_max(s.drop_last()) {
            assert(s[s.len() - 1] == seq_max(s));
        } else {
            lemma_seq_max_attained(s.drop_last());
            let j = choose|j: int| 0 <= j < s.drop_last().len() && s.drop_last()[j] == seq_max(
                s.drop_last(),
            );
            assert(s[j] == seq_max(s));
        }
    }
}

/// The greatest entry of a non-empty row of coupling mass values.
pub fn row_max(row: &Vec<u64>) -> (m: u64)
    requires
        row@.len() >= 1,
    ensures
        m == seq_max(row@),
        forall|j: int| 0 <= j < row@.len() ==> row@[j] <= m,
        exists|j: int| 0 <= j < row@.len() && row@[j] == m,
{
    let mut m: u64 = row[0];
    let mut j: usize = 1;
    proof {
        let s1 = row@.subrange(0, 1);
        assert(s1.drop_last() =~= Seq::<u64>::empty());
        assert(seq_max(s1.drop_last()) == 0);
        assert(s1.last() == row@[0]);
        assert(m == seq_max(s1));
    }
    while j < row.len()
        invariant
            1 <= j <= row@.len(),
            m == seq_max(row@.subrange(0, j as int)),
        decreases row@.len() - j,
    {
        proof {
            assert(row@.subrange(0, j + 1).drop_last() =~= row@.subrange(0, j as int));
            assert(row@.subrange(0, j + 1).last() == row@[j as int]);
        }
        if row[j] >= m {
            m = row[j];
        }
        j = j + 1;
    }
    proof {
        assert(row@.subrange(0, row@.len() as int) =~= row@);
        lemma_seq_max_is_bound(row@);
        lemma_seq_max_attained(row@);
    }
    m
}

/// Squared Euclidean distance between two coordinate vectors of equal length.
pub open spec fn sq_dist(a: Seq<i64>, b: Seq<i64>) -> int
    recommends
        a.len() == b.len(),
    decreases a.len(),
{
    if a.len() == 0 {
        0
    } else {
        sq_dist(a.drop_last(), b.drop_last()) + (a.last() - b.last()) * (a.last() - b.last())
    }
}

/// A squared distance is never negative.
pub proof fn lemma_sq_dist_nonneg(a: Seq<i64>, b: Seq<i64>)
    ensures
        sq_dist(a, b) >= 0,
    decreases a.len(),
{
    if a.len() > 0 {
        lemma_sq_dist_nonneg(a.drop_last(), b.drop_last());
        let d = a.last() - b.last();
        assert(d * d >= 0) by (nonlinear_arith);
    }
}

/// Extending both vectors by one coordinate never lowers the squared distance.
proof fn lemma_sq_dist_prefix_le(a: Seq<i64>, b: Seq<i64>, k: int)
    requires
        0 <= k <= a.len(),
        a.len() == b.len(),
    ensures
        sq_dist(a.take(k), b.take(k)) <= sq_dist(a, b),
    decreases a.len() - k,
{
    if k < a.len() {
        lemma_sq_dist_prefix_le(a, b, k + 1);
        let ak = a.take(k + 1);
        let bk = b.take(k + 1);
        assert(ak.drop_last() =~= a.take(k));
        assert(bk.drop_last() =~= b.take(k));
        let d = ak.last() - bk.last();
        assert(d * d >= 0) by (nonlinear_arith);
    } else {
        assert(a.take(k) =~= a);
        assert(b.take(k) =~= b);
    }
}

/// Exact squared Euclidean distance, or `None` when the exact value does not
/// fit in the `u64` cost representation.
pub fn sq_dist_checked(a: &Vec<i64>, b: &Vec<i64>) -> (r: Option<u64>)
    requires
        a@.len() == b@.len(),
    ensures
        match r {
            Some(v) => v == sq_dist(a@, b@),
            None => sq_dist(a@, b@) > u64::MAX,
        },
{
    let mut acc: u64 = 0;
    let mut k: usize = 0;
    proof {
        assert(a@.take(0) =~= Seq::<i64>::empty());
        assert(b@.take(0) =~= Seq::<i64>::empty());
    }
    while k < a.len()
        invariant
            0 <= k <= a@.len(),
            a@.len() == b@.len(),
            acc == sq_dist(a@.take(k as int), b@.take(k as int)),
        decreases a@.len() - k,
    {
        let d: i128 = a[k] as i128 - b[k] as i128;
        proof {
            assert(a@.take(k + 1).drop_last() =~= a@.take(k as int));
            assert(b@.take(k + 1).drop_last() =~= b@.take(k as int));
            assert(a@.take(k + 1).last() == a@[k as int]);
            assert(b@.take(k + 1).last() == b@[k as int]);
        }
        if d > u32::MAX as i128 || d < -(u32::MAX as i128) {
            proof {
                assert(d * d > u64::MAX) by (nonlinear_arith)
                    requires
                        d > u32::MAX as i128 || d < -(u32::MAX as i128),
                ;
                lemma_sq_dist_prefix_le(a@, b@, k + 1);
                lemma_sq_dist_nonneg(a@.take(k as int), b@.take(k as int));
            }
            return None;
        }
        proof {
            assert(0 <= d * d <= u64::MAX) by (nonlinear_arith)
                requires
                    -(u32::MAX as i128) <= d <= u32::MAX as i128,
            ;
        }
        let term: u64 = (d * d) as u64;
        match acc.checked_add(term) {
            Some(next) => {
                acc = next;
            },
            None => {
                proof {
                    lemma_sq_dist_prefix_le(a@, b@, k + 1);
                }
                return None;
            },
        }
        k = k + 1;
    }
    proof {
        assert(a@.take(a@.len() as int) =~= a@);
        assert(b@.take(b@.len() as int) =~= b@);
    }
    Some(acc)
}

/// A squared distance from a point to itself is zero.
pub proof fn lemma_sq_dist_self_zero(a: Seq<i64>)
    ensures
        sq_dist(a, a) == 0,
    decreases a.len(),
{
    if a.len() > 0 {
        lemma_sq_dist_self_zero(a.drop_last());
    }
}

/// The greatest entry of a matrix given as a sequence of rows (0 if empty).
pub open spec fn mat_max(m: Seq<Vec<u64>>) -> u64
    decreases m.len(),
{
    if m.len() == 0 {
        0
    } else {
        let r = seq_max(m.last()@);
        let rest = mat_max(m.drop_last());
        if r >= rest {
            r
        } else {
            rest
        }
    }
}

/// Every entry of the matrix is at most `mat_max`.
pub proof fn lemma_mat_max_is_bound(m: Seq<Vec<u64>>)
    ensures
        forall|i: int, j: int|
            0 <= i < m.len() && 0 <= j < m[i]@.len() ==> m[i]@[j] <= mat_max(m),
    decreases m.len(),
{
    if m.len() > 0 {
        lemma_mat_max_is_bound(m.drop_last());
        lemma_seq_max_is_bound(m.last()@);
        assert forall|i: int, j: int|
            0 <= i < m.len() && 0 <= j < m[i]@.len() implies m[i]@[j] <= mat_max(m) by {
            if i < m.len() - 1 {
                assert(m.drop_last()[i] == m[i]);
            }
        }
    }
}

/// A matrix whose entries are all zero has `mat_max` zero.
pub proof fn lemma_mat_max_zero(m: Seq<Vec<u64>>)
    requires
        forall|i: int, j: int| 0 <= i < m.len() && 0 <= j < m[i]@.len() ==> m[i]@[j] == 0,
    ensures
        mat_max(m) == 0,
    decreases m.len(),
{
    if m.len() > 0 {
        assert(forall|i: int, j: int|
            0 <= i < m.drop_last().len() && 0 <= j < m.drop_last()[i]@.len()
                ==> m.drop_last()[i]@[j] == 0);
        lemma_mat_max_zero(m.drop_last());
        lemma_seq_max_is_bound(m.last()@);
        lemma_seq_max_le_some_entry(m.last()@);
    }
}

/// The maximum of a non-empty sequence is one of its entries; of an empty
/// sequence it is zero.
proof fn lemma_seq_max_le_some_entry(s: Seq<u64>)
    ensures
        s.len() == 0 ==> seq_max(s) == 0,
        s.len() >= 1 ==> exists|j: int| 0 <= j < s.len() && s[j] == seq_max(s),
{
    if s.len() >= 1 {
        lemma_seq_max_attained(s);
    }
}

/// Do the two position lists share one fixed coordinate dimension (taken
/// from the first agent position)?
pub open spec fn dims_match(apos: Seq<Vec<i64>>, tpos: Seq<Vec<i64>>) -> bool
    recommends
        apos.len() >= 1,
{
    &&& forall|i: int| 0 <= i < apos.len() ==> (#[trigger] apos[i])@.len() == apos[0]@.len()
    &&& forall|j: int| 0 <= j < tpos.len() ==> (#[trigger] tpos[j])@.len() == apos[0]@.len()
}

/// A normalized pairwise cost matrix. The normalized cost of pairing agent
/// `i` with target `j` is the exact rational `entries[i][j] / scale`:
/// `scale` is the matrix's greatest raw entry, or 1 when every raw entry is
/// zero (the degenerate all-coincident case, where normalization is skipped
/// because the costs are already zero).
#[derive(Debug)]
pub struct CostMatrix {
    /// Raw squared-distance entries (the numerators of the normalized costs).
    pub entries: Vec<Vec<u64>>,
    /// The common denominator of the normalized costs; always at least 1.
    pub scale: u64,
}

impl CostMatrix {
    /// Number of rows (agents).
    pub open spec fn rows(self) -> int {
        self.entries@.len() as int
    }

    /// Number of columns (targets).
    pub open spec fn cols(self) -> int {
        if self.entries@.len() == 0 {
            0int
        } else {
            self.entries@[0]@.len() as int
        }
    }

    /// The raw entry in row `i`, column `j`.
    pub open spec fn entry(self, i: int, j: int) -> u64 {
        self.entries@[i]@[j]
    }

    /// Well-formed: rectangular, positive denominator, every normalized
    /// cost at most one.
    pub open spec fn wf(self) -> bool {
        &&& self.scale >= 1
        &&& forall|i: int| 0 <= i < self.rows() ==> self.entries@[i]@.len() == self.cols()
        &&& forall|i: int, j: int|
            0 <= i < self.rows() && 0 <= j < self.cols() ==> self.entry(i, j) <= self.scale
    }
}

/// Build the normalized pairwise cost matrix of two position lists under the
/// squared-Euclidean metric: entry `(i, j)` is the squared distance between
/// agent `i` and target `j`, and the common denominator `scale` is the
/// matrix's global maximum (or 1 when the maximum is zero, in which case all
/// costs are already zero and normalization is skipped).
///
/// Fails fast, with no side effect, when a population is empty, when the
/// positions do not share one dimension, or when an exact cost exceeds the
/// fixed-width representation; each failure if and only if its condition.
pub fn cost_matrix(agent_pos: &Vec<Vec<i64>>, target_pos: &Vec<Vec<i64>>) -> (r: Result<
    CostMatrix,
    AssignError,
>)
    ensures
        match r {
            Ok(cm) => {
                &&& agent_pos@.len() >= 1
                &&& target_pos@.len() >= 1
                &&& dims_match(agent_pos@, target_pos@)
                &&& cm.wf()
                &&& cm.rows() == agent_pos@.len()
                &&& cm.cols() == target_pos@.len()
                &&& forall|i: int, j: int|
                    0 <= i < cm.rows() && 0 <= j < cm.cols() ==> cm.entry(i, j) == sq_dist(
                        agent_pos@[i]@,
                        target_pos@[j]@,
                    )
                &&& cm.scale == (if mat_max(cm.entries@) == 0 {
                    1u64
                } else {
                    mat_max(cm.entries@)
                })
            },
            Err(e) => {
                &&& (e == AssignError::EmptyPopulation <==> (agent_pos@.len() == 0
                    || target_pos@.len() == 0))
                &&& (e == AssignError::DimensionMismatch <==> (agent_pos@.len() >= 1
                    && target_pos@.len() >= 1 && !dims_match(agent_pos@, target_pos@)))
                &&& (e == AssignError::CostOverflow ==> exists|i: int, j: int|
                    0 <= i < agent_pos@.len() && 0 <= j < target_pos@.len() && sq_dist(
                        agent_pos@[i]@,
                        target_pos@[j]@,
                    ) > u64::MAX)
                &&& (e == AssignError::EmptyPopulation || e == AssignError::DimensionMismatch
                    || e == AssignError::CostOverflow)
            },
        },
{
    let nagents = agent_pos.len();
    let ntargets = target_pos.len();
    if nagents == 0 || ntargets == 0 {
        return Err(AssignError::EmptyPopulation);
    }
    let dim = agent_pos[0].len();
    let mut i: usize = 0;
    while i < nagents
        invariant
            0 <= i <= nagents,
            nagents == agent_pos@.len(),
            ntargets == target_pos@.len(),
            nagents >= 1,
            ntargets >= 1,
            dim == agent_pos@[0]@.len(),
            forall|k: int| 0 <= k < i ==> (#[trigger] agent_pos@[k])@.len() == dim,
        decreases nagents - i,
    {
        if agent_pos[i].len() != dim {
            proof {
                assert((agent_pos@[i as int])@.len() != agent_pos@[0]@.len());
                assert(!dims_match(agent_pos@, target_pos@));
            }
            return Err(AssignError::DimensionMismatch);
        }
        i = i + 1;
    }
    let mut j: usize = 0;
    while j < ntargets
        invariant
            0 <= j <= ntargets,
            nagents == agent_pos@.len(),
            ntargets == target_pos@.len(),
            nagents >= 1,
            ntargets >= 1,
            dim == agent_pos@[0]@.len(),
            forall|k: int| 0 <= k < nagents ==> (#[trigger] agent_pos@[k])@.len() == dim,
            forall|k: int| 0 <= k < j ==> (#[trigger] target_pos@[k])@.len() == dim,
        decreases ntargets - j,
    {
        if target_pos[j].len() != dim {
            proof {
                assert((target_pos@[j as int])@.len() != agent_pos@[0]@.len());
                assert(!dims_match(agent_pos@, target_pos@));
            }
            return Err(AssignError::DimensionMismatch);
        }
        j = j + 1;
    }
    let mut entries: Vec<Vec<u64>> = Vec::new();
    let mut i: usize = 0;
    while i < nagents
        invariant
            0 <= i <= nagents,
            nagents == agent_pos@.len(),
            ntargets == target_pos@.len(),
            nagents >= 1,
            ntargets >= 1,
            dim == agent_pos@[0]@.len(),
            dims_match(agent_pos@, target_pos@),
            entries@.len() == i,
            forall|k: int| 0 <= k < i ==> (#[trigger] entries@[k])@.len() == ntargets,
            forall|k: int, l: int|
                0 <= k < i && 0 <= l < ntargets ==> entries@[k]@[l] == sq_dist(
                    agent_pos@[k]@,
                    target_pos@[l]@,
                ),
        decreases nagents - i,
    {
        let mut row: Vec<u64> = Vec::new();
        let mut j: usize = 0;
        while j < ntargets
            invariant
                0 <= j <= ntargets,
                0 <= i < nagents,
                nagents == agent_pos@.len(),
                ntargets == target_pos@.len(),
                nagents >= 1,
                ntargets >= 1,
                dim == agent_pos@[0]@.len(),
                dims_match(agent_pos@, target_pos@),
                row@.len() == j,
                forall|l: int|
                    0 <= l < j ==> row@[l] == sq_dist(agent_pos@[i as int]@, target_pos@[l]@),
            decreases ntargets - j,
        {
            match sq_dist_checked(&agent_pos[i], &target_pos[j]) {
                Some(v) => {
                    row.push(v);
                },
                None => {
                    return Err(AssignError::CostOverflow);
                },
            }
            j = j + 1;
        }
        entries.push(row);
        i = i + 1;
    }
    let mut glob: u64 = 0;
    let mut i: usize = 0;
    proof {
        assert(entries@.subrange(0, 0) =~= Seq::<Vec<u64>>::empty());
    }
    while i < nagents
        invariant
            0 <= i <= nagents,
            nagents == entries@.len(),
            nagents == agent_pos@.len(),
            ntargets == target_pos@.len(),
            nagents >= 1,
            ntargets >= 1,
            dims_match(agent_pos@, target_pos@),
            forall|k: int| 0 <= k < nagents ==> (#[trigger] entries@[k])@.len() == ntargets,
            forall|k: int, l: int|
                0 <= k < nagents && 0 <= l < ntargets ==> entries@[k]@[l] == sq_dist(
                    agent_pos@[k]@,
                    target_pos@[l]@,
                ),
            glob == mat_max(entries@.subrange(0, i as int)),
        decreases nagents - i,
    {
        let rm = row_max(&entries[i]);
        proof {
            assert(entries@.subrange(0, i + 1).drop_last() =~= entries@.subrange(0, i as int));
            assert(entries@.subrange(0, i + 1).last() == entries@[i as int]);
        }
        if rm > glob {
            glob = rm;
        }
        i = i + 1;
    }
    proof {
        assert(entries@.subrange(0, entries@.len() as int) =~= entries@);
        lemma_mat_max_is_bound(entries@);
    }
    let scale: u64 = if glob == 0 {
        1
    } else {
        glob
    };
    Ok(CostMatrix { entries, scale })
}

/// Co-location law: when every agent and every target sit at one same point,
/// every raw pairwise cost is zero, the global maximum is zero, and so (by
/// the contract of `cost_matrix`) the normalized cost matrix is the zero
/// matrix with normalization skipped.
pub proof fn lemma_colocated_zero_cost(
    cm: CostMatrix,
    apos: Seq<Vec<i64>>,
    tpos: Seq<Vec<i64>>,
    p: Seq<i64>,
)
    requires
        cm.wf(),
        cm.rows() == apos.len(),
        cm.cols() == tpos.len(),
        forall|i: int, j: int|
            0 <= i < cm.rows() && 0 <= j < cm.cols() ==> cm.entry(i, j) == sq_dist(
                apos[i]@,
                tpos[j]@,
            ),
        forall|i: int| 0 <= i < apos.len() ==> (#[trigger] apos[i])@ == p,
        forall|j: int| 0 <= j < tpos.len() ==> (#[trigger] tpos[j])@ == p,
    ensures
        forall|i: int, j: int| 0 <= i < cm.rows() && 0 <= j < cm.cols() ==> cm.entry(i, j) == 0,
        mat_max(cm.entries@) == 0,
{
    lemma_sq_dist_self_zero(p);
    assert forall|i: int, j: int|
        0 <= i < cm.rows() && 0 <= j < cm.cols() implies cm.entry(i, j) == 0 by {
        assert(apos[i]@ == p);
        assert(tpos[j]@ == p);
    }
    assert forall|i: int, j: int|
        0 <= i < cm.entries@.len() && 0 <= j < cm.entries@[i]@.len() implies cm.entries@[i]@[j]
        == 0 by {
        assert(cm.entries@[i]@.len() == cm.cols());
        assert(cm.entry(i, j) == 0);
    }
    lemma_mat_max_zero(cm.entries@);
}

/// One exact rational mass weight, `num / den`.
#[derive(Debug, Clone, Copy, PartialEq, Eq, Structural)]
pub struct MassWeight {
    pub num: u64,
    pub den: u64,
}

/// Sum of the numerators of a weight vector.
pub open spec fn weight_num_sum(s: Seq<MassWeight>) -> int
    decreases s.len(),
{
    if s.len() == 0 {
        0
    } else {
        weight_num_sum(s.drop_last()) + s.last().num
    }
}

/// The uniform mass-weight vector: `n` weights of exactly `1 / n` each.
/// The weights form a probability vector by construction: every denominator
/// is `n` and the numerators sum to `n`, so the exact rational sum of the
/// masses is one, as the transportation solver requires of each side.
pub fn uniform_weights(n: usize) -> (w: Vec<MassWeight>)
    requires
        n >= 1,
    ensures
        w@.len() == n,
        forall|i: int| 0 <= i < n ==> w@[i] == (MassWeight { num: 1, den: n as u64 }),
        weight_num_sum(w@) == n,
{
    let mut w: Vec<MassWeight> = Vec::new();
    let mut i: usize = 0;
    while i < n
        invariant
            0 <= i <= n,
            w@.len() == i,
            forall|k: int| 0 <= k < i ==> w@[k] == (MassWeight { num: 1, den: n as u64 }),
            weight_num_sum(w@) == i,
        decreases n - i,
    {
        let ghost prev = w@;
        w.push(MassWeight { num: 1, den: n as u64 });
        proof {
            assert(w@.drop_last() =~= prev);
        }
        i = i + 1;
    }
    w
}

/// Threshold a coupling matrix row-wise into the binary assignment: in every
/// row, exactly the columns attaining the row's maximum mass are marked 1
/// (ties all included — deliberately, so a tied optimal row fans out to
/// several targets), all others 0. Every row of the result therefore has at
/// least one entry equal to 1 ([`lemma_binary_row_assigned`]). Fails, if and
/// only if the coupling has no row or an empty row, with the
/// empty-population error: row-wise thresholding is undefined there.
pub fn binarize_coupling(coupling: &Vec<Vec<u64>>) -> (r: Result<Vec<Vec<u32>>, AssignError>)
    ensures
        match r {
            Ok(b) => {
                &&& coupling@.len() >= 1
                &&& forall|i: int|
                    0 <= i < coupling@.len() ==> (#[trigger] coupling@[i])@.len() >= 1
                &&& b@.len() == coupling@.len()
                &&& forall|i: int|
                    0 <= i < b@.len() ==> (#[trigger] b@[i])@.len() == coupling@[i]@.len()
                &&& forall|i: int, j: int|
                    0 <= i < b@.len() && 0 <= j < b@[i]@.len() ==> ((#[trigger] b@[i]@[j]) == 1
                        <==> coupling@[i]@[j] == seq_max(coupling@[i]@))
                &&& forall|i: int, j: int|
                    0 <= i < b@.len() && 0 <= j < b@[i]@.len() ==> ((#[trigger] b@[i]@[j]) == 0
                        <==> coupling@[i]@[j] < seq_max(coupling@[i]@))
                &&& forall|i: int| 0 <= i < b@.len() ==> row_has_assignment(#[trigger] b@[i]@)
            },
            Err(e) => {
                &&& e == AssignError::EmptyPopulation
                &&& (coupling@.len() == 0 || exists|i: int|
                    0 <= i < coupling@.len() && (#[trigger] coupling@[i])@.len() == 0)
            },
        },
{
    let nrows = coupling.len();
    if nrows == 0 {
        return Err(AssignError::EmptyPopulation);
    }
    let mut b: Vec<Vec<u32>> = Vec::new();
    let mut i: usize = 0;
    while i < nrows
        invariant
            0 <= i <= nrows,
            nrows == coupling@.len(),
            nrows >= 1,
            b@.len() == i,
            forall|k: int| 0 <= k < i ==> (#[trigger] coupling@[k])@.len() >= 1,
            forall|k: int| 0 <= k < i ==> (#[trigger] b@[k])@.len() == coupling@[k]@.len(),
            forall|k: int, l: int|
                0 <= k < i && 0 <= l < b@[k]@.len() ==> ((#[trigger] b@[k]@[l]) == 1
                    <==> coupling@[k]@[l] == seq_max(coupling@[k]@)),
            forall|k: int, l: int|
                0 <= k < i && 0 <= l < b@[k]@.len() ==> ((#[trigger] b@[k]@[l]) == 0
                    <==> coupling@[k]@[l] < seq_max(coupling@[k]@)),
        decreases nrows - i,
    {
        if coupling[i].len() == 0 {
            proof {
                assert((coupling@[i as int])@.len() == 0);
            }
            return Err(AssignError::EmptyPopulation);
        }
        let m = row_max(&coupling[i]);
        let ncols = coupling[i].len();
        let mut brow: Vec<u32> = Vec::new();
        let mut j: usize = 0;
        while j < ncols
            invariant
                0 <= j <= ncols,
                0 <= i < nrows,
                nrows == coupling@.len(),
                ncols == coupling@[i as int]@.len(),
                m == seq_max(coupling@[i as int]@),
                forall|l: int| 0 <= l < ncols ==> coupling@[i as int]@[l] <= m,
                brow@.len() == j,
                forall|l: int|
                    0 <= l < j ==> ((#[trigger] brow@[l]) == 1 <==> coupling@[i as int]@[l]
                        == m),
                forall|l: int|
                    0 <= l < j ==> ((#[trigger] brow@[l]) == 0 <==> coupling@[i as int]@[l]
                        < m),
            decreases ncols - j,
        {
            if coupling[i][j] >= m {
                brow.push(1);
            } else {
                brow.push(0);
            }
            j = j + 1;
        }
        b.push(brow);
        i = i + 1;
    }
    proof {
        assert forall|k: int| 0 <= k < b@.len() implies row_has_assignment(#[trigger] b@[k]@) by {
            lemma_binary_row_assigned(b@[k]@, coupling@[k]@);
        }
    }
    Ok(b)
}

/// Does the row mark at least one column?
pub open spec fn row_has_assignment(brow: Seq<u32>) -> bool {
    exists|j: int| 0 <= j < brow.len() && brow[j] == 1
}

/// Row-coverage law: a binary-assignment row marks exactly the columns
/// attaining the coupling row's maximum, so every non-empty row has at least
/// one entry equal to 1 — no agent is ever left without an assigned target.
pub proof fn lemma_binary_row_assigned(brow: Seq<u32>, crow: Seq<u64>)
    requires
        crow.len() >= 1,
        brow.len() == crow.len(),
        forall|j: int| 0 <= j < brow.len() ==> ((#[trigger] brow[j]) == 1 <==> crow[j] == seq_max(
            crow,
        )),
    ensures
        row_has_assignment(brow),
{
    lemma_seq_max_attained(crow);
    let j = choose|j: int| 0 <= j < crow.len() && crow[j] == seq_max(crow);
    assert(brow[j] == 1);
}

} // verus!
