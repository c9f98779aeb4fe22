//! Collision resolution over whole cell buckets: every pair within one
//! bucket, and the full cross product between two buckets.

use vstd::prelude::*;
use crate::collision::resolve_pair;
use crate::fixed::{DT_MAX, FP_ONE};
use crate::particle::Particle;

verus! {

/// Every particle of the sequence is well-formed.
pub open spec fn all_wf(s: Seq<Particle>) -> bool {
    forall|k: int| 0 <= k < s.len() ==> s[k].wf()
}

/// Resolve the pair at indices `i` and `j` of one bucket, in place.
pub open spec fn pair_step(s: Seq<Particle>, i: int, j: int, dt: int, pr: int) -> Seq<Particle> {
    let (a, b) = resolve_pair(s[i], s[j], dt, pr);
    s.update(i, a).update(j, b)
}

/// Resolve particle `i` against every particle of index below `j_end`.
pub open spec fn resolve_row_upto(s: Seq<Particle>, i: int, j_end: int, dt: int, pr: int) -> Seq<
    Particle,
>
    decreases j_end,
{
    if j_end <= 0 {
        s
    } else {
        pair_step(resolve_row_upto(s, i, j_end - 1, dt, pr), i, j_end - 1, dt, pr)
    }
}

/// Resolve every particle of index below `i_end` against all particles of
/// lower index, in index order.
pub open spec fn resolve_set_upto(s: Seq<Particle>, i_end: int, dt: int, pr: int) -> Seq<Particle>
    decreases i_end,
{
    if i_end <= 1 {
        s
    } else {
        resolve_row_upto(resolve_set_upto(s, i_end - 1, dt, pr), i_end - 1, i_end - 1, dt, pr)
    }
}

/// All pairwise resolutions within one bucket: every particle against
/// every particle of lower index.
pub open spec fn resolve_set_spec(s: Seq<Particle>, dt: int, pr: int) -> Seq<Particle> {
    resolve_set_upto(s, s.len() as int, dt, pr)
}

/// Resolve `sa[i]` against every particle of `sb` below `j_end`.
pub open spec fn cross_row_upto(
    sa: Seq<Particle>,
    sb: Seq<Particle>,
    i: int,
    j_end: int,
    dt: int,
    pr: int,
) -> (Seq<Particle>, Seq<Particle>)
    decreases j_end,
{
    if j_end <= 0 {
        (sa, sb)
    } else {
        let (ra, rb) = cross_row_upto(sa, sb, i, j_end - 1, dt, pr);
        let (a, b) = resolve_pair(ra[i], rb[j_end - 1], dt, pr);
        (ra.update(i, a), rb.update(j_end - 1, b))
    }
}

/// Resolve every particle of `sa` below `i_end` against all of `sb`.
pub open spec fn cross_upto(
    sa: Seq<Particle>,
    sb: Seq<Particle>,
    i_end: int,
    dt: int,
    pr: int,
) -> (Seq<Particle>, Seq<Particle>)
    decreases i_end,
{
    if i_end <= 0 {
        (sa, sb)
    } else {
        let (ra, rb) = cross_upto(sa, sb, i_end - 1, dt, pr);
        cross_row_upto(ra, rb, i_end - 1, rb.len() as int, dt, pr)
    }
}

/// The full cross-product resolution between two disjoint buckets.
pub open spec fn resolve_set_to_set_spec(sa: Seq<Particle>, sb: Seq<Particle>, dt: int, pr: int) -> (
    Seq<Particle>,
    Seq<Particle>,
) {
    cross_upto(sa, sb, sa.len() as int, dt, pr)
}

/// O(n^2) pairwise resolution within one bucket, in place.
pub fn resolve_set(dt: i64, pressure: i64, set: &mut Vec<Particle>)
    requires
        all_wf(old(set)@),
        1 <= dt <= DT_MAX,
        0 <= pressure <= FP_ONE,
    ensures
        final(set)@ == resolve_set_spec(old(set)@, dt as int, pressure as int),
        all_wf(final(set)@),
        final(set)@.len() == old(set)@.len(),
{
    let ghost s0 = set@;
    let n = set.len();
    if n == 0 {
        proof {
            assert(resolve_set_spec(s0, dt as int, pressure as int) == s0);
        }
        return ;
    }
    proof {
        assert(resolve_set_upto(s0, 1int, dt as int, pressure as int) == s0);
    }
    for i in 1..n
        invariant
            set@.len() == n == s0.len(),
            all_wf(set@),
            set@ == resolve_set_upto(s0, i as int, dt as int, pressure as int),
            1 <= dt <= DT_MAX,
            0 <= pressure <= FP_ONE,
    {
        let ghost row0 = set@;
        for j in 0..i
            invariant
                0 < i < n,
                set@.len() == n == s0.len(),
                all_wf(set@),
                set@ == resolve_row_upto(row0, i as int, j as int, dt as int, pressure as int),
                row0 == resolve_set_upto(s0, i as int, dt as int, pressure as int),
                1 <= dt <= DT_MAX,
                0 <= pressure <= FP_ONE,
        {
            let mut pa = set[i];
            let mut pb = set[j];
            pa.update_collision(dt, pressure, &mut pb);
            set[i] = pa;
            set[j] = pb;
        }
        proof {
            assert(set@ == resolve_set_upto(s0, i + 1, dt as int, pressure as int));
        }
    }
}

/// Full cross-product resolution between two disjoint buckets, in place.
pub fn resolve_set_to_set(dt: i64, pressure: i64, a_set: &mut Vec<Particle>, b_set: &mut Vec<Particle>)
    requires
        all_wf(old(a_set)@),
        all_wf(old(b_set)@),
        1 <= dt <= DT_MAX,
        0 <= pressure <= FP_ONE,
    ensures
        (final(a_set)@, final(b_set)@) == resolve_set_to_set_spec(
            old(a_set)@,
            old(b_set)@,
            dt as int,
            pressure as int,
        ),
        all_wf(final(a_set)@),
        all_wf(final(b_set)@),
        final(a_set)@.len() == old(a_set)@.len(),
        final(b_set)@.len() == old(b_set)@.len(),
{
    let ghost sa0 = a_set@;
    let ghost sb0 = b_set@;
    let na = a_set.len();
    let nb = b_set.len();
    for i in 0..na
        invariant
            a_set@.len() == na == sa0.len(),
            b_set@.len() == nb == sb0.len(),
            all_wf(a_set@),
            all_wf(b_set@),
            (a_set@, b_set@) == cross_upto(sa0, sb0, i as int, dt as int, pressure as int),
            1 <= dt <= DT_MAX,
            0 <= pressure <= FP_ONE,
    {
        let ghost ra0 = a_set@;
        let ghost rb0 = b_set@;
        for j in 0..nb
            invariant
                i < na,
                a_set@.len() == na == sa0.len(),
                b_set@.len() == nb == sb0.len(),
                all_wf(a_set@),
                all_wf(b_set@),
                (a_set@, b_set@) == cross_row_upto(ra0, rb0, i as int, j as int, dt as int, pressure as int),
                (ra0, rb0) == cross_upto(sa0, sb0, i as int, dt as int, pressure as int),
                1 <= dt <= DT_MAX,
                0 <= pressure <= FP_ONE,
        {
            let mut pa = a_set[i];
            let mut pb = b_set[j];
            pa.update_collision(dt, pressure, &mut pb);
            a_set[i] = pa;
            b_set[j] = pb;
        }
    }
}

} // verus!
