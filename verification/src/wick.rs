//! The contraction engine: pairing enumeration for full vacuum
//! contractions, the crossing-based fermionic sign rule, and the
//! recursive swap-and-contract expansion into normal-ordered terms.

use vstd::prelude::*;

use crate::attr::{Action, Statistics, Vacuum};
use crate::coeff::{coeff_abs, coeff_neg, PRUNE_EPS_UNITS};
use crate::expr::{is_normal_order, spec_add_delta, spec_is_normal_order, Expr, ExprV};
use crate::index::Index;
use crate::op::{can_contract, spec_can_contract, Delta, DeltaV, Op, OpV};
use crate::result_expr::{first_similar, spec_add_sum, spec_push, ResultExpr};

verus! {

// ------------------------- crossing number -------------------------

/// A pair with its smaller position first.
pub open spec fn norm_pair(p: (usize, usize)) -> (int, int) {
    if p.0 < p.1 {
        (p.0 as int, p.1 as int)
    } else {
        (p.1 as int, p.0 as int)
    }
}

/// Two pairs cross when their normalized position ranges strictly
/// interleave: neither nested nor disjoint.
pub open spec fn crossed(x: (usize, usize), y: (usize, usize)) -> bool {
    let (i, j) = norm_pair(x);
    let (k, l) = norm_pair(y);
    (i < k && k < j && j < l) || (k < i && i < l && l < j)
}

/// How many of the first `n` pairs of `s` cross `x`.
pub open spec fn cw(x: (usize, usize), s: Seq<(usize, usize)>, n: int) -> nat
    decreases n,
{
    if n <= 0 {
        0
    } else {
        cw(x, s, n - 1) + if crossed(x, s[n - 1]) {
            1nat
        } else {
            0nat
        }
    }
}

/// The crossing count among the first `n` pairs of `s`.
pub open spec fn cr(s: Seq<(usize, usize)>, n: int) -> nat
    decreases n,
{
    if n <= 0 {
        0
    } else {
        cr(s, n - 1) + cw(s[n - 1], s, n - 1)
    }
}

/// The crossing number of a pairing: over every unordered pair of its
/// pairs, a crossing is counted when the two strictly interleave. Under
/// Fermi-Dirac statistics the sign of a fully contracted term is -1 to
/// this number.
pub open spec fn spec_crossings(s: Seq<(usize, usize)>) -> nat {
    cr(s, s.len() as int)
}

proof fn lemma_cw_le(x: (usize, usize), s: Seq<(usize, usize)>, n: int)
    requires
        n >= 0,
    ensures
        cw(x, s, n) <= n,
    decreases n,
{
    if n > 0 {
        lemma_cw_le(x, s, n - 1);
    }
}

proof fn lemma_cr_le(s: Seq<(usize, usize)>, n: int)
    requires
        n >= 0,
    ensures
        cr(s, n) <= n * n,
    decreases n,
{
    if n > 0 {
        lemma_cr_le(s, n - 1);
        lemma_cw_le(s[n - 1], s, n - 1);
        assert((n - 1) * (n - 1) + (n - 1) <= n * n) by (nonlinear_arith)
            requires
                n >= 1,
        ;
    }
}

/// The crossing number of a pairing.
pub fn count_crossings(p: &Vec<(usize, usize)>) -> (c: usize)
    requires
        p@.len() * p@.len() <= usize::MAX,
    ensures
        c == spec_crossings(p@),
{
    let n = p.len();
    let mut count: usize = 0;
    let mut b: usize = 0;
    while b < n
        invariant
            b <= n,
            n == p@.len(),
            n * n <= usize::MAX,
            count == cr(p@, b as int),
        decreases n - b,
    {
        proof {
            lemma_cr_le(p@, b as int);
            lemma_cw_le(p@[b as int], p@, b as int);
            assert(b * b + b <= n * n) by (nonlinear_arith)
                requires
                    0 <= b < n,
            ;
        }
        let mut a: usize = 0;
        while a < b
            invariant
                a <= b < n,
                n == p@.len(),
                count == cr(p@, b as int) + cw(p@[b as int], p@, a as int),
                cr(p@, b as int) <= b * b,
                cw(p@[b as int], p@, a as int) <= a,
                b * b + b <= usize::MAX,
            decreases b - a,
        {
            let (pi, pj) = p[a];
            let (i, j) = if pi < pj {
                (pi, pj)
            } else {
                (pj, pi)
            };
            let (qk, ql) = p[b];
            let (k, l) = if qk < ql {
                (qk, ql)
            } else {
                (ql, qk)
            };
            proof {
                lemma_cw_le(p@[b as int], p@, a as int);
            }
            if (i < k && k < j && j < l) || (k < i && i < l && l < j) {
                proof {
                    assert(crossed(p@[b as int], p@[a as int]));
                }
                count = count + 1;
            } else {
                proof {
                    assert(!crossed(p@[b as int], p@[a as int]));
                }
            }
            a = a + 1;
        }
        b = b + 1;
    }
    count
}

proof fn lemma_cw_congruent(
    p: Seq<(usize, usize)>,
    q: Seq<(usize, usize)>,
    a: int,
    n: int,
)
    requires
        0 <= n <= p.len(),
        p.len() == q.len(),
        0 <= a < p.len(),
        forall|x: int, y: int|
            0 <= x < p.len() && 0 <= y < p.len() ==> crossed(#[trigger] q[x], #[trigger] q[y])
                == crossed(p[x], p[y]),
    ensures
        cw(q[a], q, n) == cw(p[a], p, n),
    decreases n,
{
    if n > 0 {
        lemma_cw_congruent(p, q, a, n - 1);
    }
}

proof fn lemma_cr_congruent(p: Seq<(usize, usize)>, q: Seq<(usize, usize)>, n: int)
    requires
        0 <= n <= p.len(),
        p.len() == q.len(),
        forall|x: int, y: int|
            0 <= x < p.len() && 0 <= y < p.len() ==> crossed(#[trigger] q[x], #[trigger] q[y])
                == crossed(p[x], p[y]),
    ensures
        cr(q, n) == cr(p, n),
    decreases n,
{
    if n > 0 {
        lemma_cr_congruent(p, q, n - 1);
        lemma_cw_congruent(p, q, n - 1, n - 1);
    }
}

/// The crossing number is invariant under any relabeling of operator
/// positions that keeps their relative order: if `f` is strictly
/// increasing and `q` is `p` with every position relabeled through `f`,
/// both pairings have the same crossing number.
pub proof fn lemma_crossings_relabel(
    p: Seq<(usize, usize)>,
    q: Seq<(usize, usize)>,
    f: spec_fn(int) -> int,
)
    requires
        p.len() == q.len(),
        forall|x: int, y: int| x < y ==> #[trigger] f(x) < #[trigger] f(y),
        forall|k: int|
            0 <= k < p.len() ==> (#[trigger] q[k]).0 == f((#[trigger] p[k]).0 as int)
                && q[k].1 == f(p[k].1 as int),
    ensures
        spec_crossings(q) == spec_crossings(p),
{
    assert forall|x: int, y: int|
        0 <= x < p.len() && 0 <= y < p.len() implies crossed(#[trigger] q[x], #[trigger] q[y])
        == crossed(p[x], p[y]) by {
        let (a, b) = p[x];
        let (c, d) = p[y];
        assert(a < b ==> f(a as int) < f(b as int));
        assert(b < a ==> f(b as int) < f(a as int));
        assert(c < d ==> f(c as int) < f(d as int));
        assert(d < c ==> f(d as int) < f(c as int));
        let (i, j) = norm_pair(p[x]);
        let (k, l) = norm_pair(p[y]);
        assert(norm_pair(q[x]) == (f(i), f(j)));
        assert(norm_pair(q[y]) == (f(k), f(l)));
        assert(i < k ==> f(i) < f(k));
        assert(k < i ==> f(k) < f(i));
        assert(k < j ==> f(k) < f(j));
        assert(j < k ==> f(j) < f(k));
        assert(i < l ==> f(i) < f(l));
        assert(l < i ==> f(l) < f(i));
        assert(j < l ==> f(j) < f(l));
        assert(l < j ==> f(l) < f(j));
    }
    lemma_cr_congruent(p, q, p.len() as int);
}

/// The crossing number is symmetric under reversing the whole position
/// range: relabeling every position `x` of a pairing over positions
/// `0..n` to `n - 1 - x` keeps the crossing number.
pub proof fn lemma_crossings_reversal(
    p: Seq<(usize, usize)>,
    q: Seq<(usize, usize)>,
    n: int,
)
    requires
        p.len() == q.len(),
        forall|k: int|
            0 <= k < p.len() ==> (#[trigger] p[k]).0 < n && p[k].1 < n,
        forall|k: int|
            0 <= k < p.len() ==> (#[trigger] q[k]).0 == n - 1 - (#[trigger] p[k]).0 && q[k].1
                == n - 1 - p[k].1,
    ensures
        spec_crossings(q) == spec_crossings(p),
{
    assert forall|x: int, y: int|
        0 <= x < p.len() && 0 <= y < p.len() implies crossed(#[trigger] q[x], #[trigger] q[y])
        == crossed(p[x], p[y]) by {
        assert(norm_pair(q[x]) == (n - 1 - norm_pair(p[x]).1, n - 1 - norm_pair(p[x]).0));
        assert(norm_pair(q[y]) == (n - 1 - norm_pair(p[y]).1, n - 1 - norm_pair(p[y]).0));
    }
    lemma_cr_congruent(p, q, p.len() as int);
}

// ------------------------- pairing enumeration -------------------------

/// All valid complete pairings of the free positions `free` over the
/// operator string `ops`: the first free position must hold an
/// annihilator, and it is paired with every later free position holding
/// a creator; the rest are paired recursively.
pub open spec fn spec_pairings(ops: Seq<OpV>, free: Seq<usize>) -> Seq<Seq<(usize, usize)>>
    decreases free.len(), free.len() + 1,
{
    if free.len() == 0 {
        seq![Seq::<(usize, usize)>::empty()]
    } else if ops[free[0] as int].action is Create {
        Seq::empty()
    } else {
        pair_branches(ops, free, 1)
    }
}

/// The pairings that pair the first free position with the `k`-th or a
/// later free position.
pub open spec fn pair_branches(ops: Seq<OpV>, free: Seq<usize>, k: int) -> Seq<
    Seq<(usize, usize)>,
>
    decreases free.len(), free.len() - k,
{
    if k < 1 || k >= free.len() {
        Seq::empty()
    } else {
        let i = free[0];
        let j = free[k];
        let here: Seq<Seq<(usize, usize)>> = if spec_can_contract(
            ops[i as int],
            ops[j as int],
        ) {
            spec_pairings(ops, free.drop_first().remove(k - 1)).map_values(
                |sub: Seq<(usize, usize)>| seq![(i, j)] + sub,
            )
        } else {
            Seq::empty()
        };
        here + pair_branches(ops, free, k + 1)
    }
}

/// Every pairing pairs off all free positions (so has half their count)
/// and draws its positions from the free list.
pub proof fn lemma_pairings_shape(ops: Seq<OpV>, free: Seq<usize>, bound: int)
    requires
        forall|m: int| 0 <= m < free.len() ==> free[m] < bound,
    ensures
        forall|pi: int|
            0 <= pi < spec_pairings(ops, free).len() ==> {
                let p = #[trigger] spec_pairings(ops, free)[pi];
                2 * p.len() == free.len() && forall|q: int|
                    0 <= q < p.len() ==> (#[trigger] p[q]).0 < bound && p[q].1 < bound
            },
    decreases free.len(), free.len() + 1,
{
    if free.len() == 0 {
        assert(spec_pairings(ops, free) == seq![Seq::<(usize, usize)>::empty()]);
        assert(spec_pairings(ops, free)[0].len() == 0);
    } else if ops[free[0] as int].action is Create {
        assert(spec_pairings(ops, free).len() == 0);
    } else {
        lemma_branches_shape(ops, free, 1, bound);
        assert(spec_pairings(ops, free) == pair_branches(ops, free, 1));
    }
}

proof fn lemma_branches_shape(ops: Seq<OpV>, free: Seq<usize>, k: int, bound: int)
    requires
        forall|m: int| 0 <= m < free.len() ==> free[m] < bound,
    ensures
        forall|pi: int|
            0 <= pi < pair_branches(ops, free, k).len() ==> {
                let p = #[trigger] pair_branches(ops, free, k)[pi];
                2 * p.len() == free.len() && forall|q: int|
                    0 <= q < p.len() ==> (#[trigger] p[q]).0 < bound && p[q].1 < bound
            },
    decreases free.len(), free.len() - k,
{
    if k < 1 || k >= free.len() {
        assert(pair_branches(ops, free, k).len() == 0);
    } else {
        let i = free[0];
        let j = free[k];
        let rest = free.drop_first().remove(k - 1);
        assert(forall|m: int| 0 <= m < rest.len() ==> rest[m] < bound);
        lemma_pairings_shape(ops, rest, bound);
        lemma_branches_shape(ops, free, k + 1, bound);
        let subs = spec_pairings(ops, rest);
        let here: Seq<Seq<(usize, usize)>> = if spec_can_contract(
            ops[i as int],
            ops[j as int],
        ) {
            subs.map_values(|sub: Seq<(usize, usize)>| seq![(i, j)] + sub)
        } else {
            Seq::empty()
        };
        let tail = pair_branches(ops, free, k + 1);
        let all = pair_branches(ops, free, k);
        assert(all == here + tail);
        assert forall|pi: int| 0 <= pi < all.len() implies {
            let p = #[trigger] all[pi];
            2 * p.len() == free.len() && forall|q: int|
                0 <= q < p.len() ==> (#[trigger] p[q]).0 < bound && p[q].1 < bound
        } by {
            let p = all[pi];
            if pi < here.len() {
                assert(p == here[pi]);
                let sub = subs[pi];
                assert(p == seq![(i, j)] + sub);
                assert(2 * sub.len() == rest.len());
                assert(p[0] == (i, j));
                assert(forall|q: int| 1 <= q < p.len() ==> p[q] == sub[q - 1]);
            } else {
                assert(p == tail[pi - here.len()]);
            }
        }
    }
}

/// Enumerate all valid pairings of the free positions.
fn generate_pairings(ops: &Vec<Op>, free: &Vec<usize>) -> (r: Vec<Vec<(usize, usize)>>)
    requires
        forall|m: int| 0 <= m < free@.len() ==> free@[m] < ops@.len(),
    ensures
        r@.map_values(|v: Vec<(usize, usize)>| v@) == spec_pairings(
            ops@.map_values(|o: Op| o@),
            free@,
        ),
    decreases free@.len(),
{
    let ghost opsv = ops@.map_values(|o: Op| o@);
    if free.len() == 0 {
        let mut r: Vec<Vec<(usize, usize)>> = Vec::new();
        r.push(Vec::new());
        proof {
            assert(r@.map_values(|v: Vec<(usize, usize)>| v@) =~= seq![
                Seq::<(usize, usize)>::empty(),
            ]);
        }
        return r;
    }
    let i = free[0];
    if matches!(ops[i].action, Action::Create) {
        let r: Vec<Vec<(usize, usize)>> = Vec::new();
        proof {
            assert(r@.map_values(|v: Vec<(usize, usize)>| v@) =~= Seq::<
                Seq<(usize, usize)>,
            >::empty());
        }
        return r;
    }
    let mut results: Vec<Vec<(usize, usize)>> = Vec::new();
    let mut k: usize = 1;
    proof {
        assert(results@.map_values(|v: Vec<(usize, usize)>| v@) + pair_branches(opsv, free@, 1)
            =~= pair_branches(opsv, free@, 1));
    }
    while k < free.len()
        invariant
            1 <= k <= free@.len(),
            free@.len() >= 1,
            opsv == ops@.map_values(|o: Op| o@),
            forall|m: int| 0 <= m < free@.len() ==> free@[m] < ops@.len(),
            i == free@[0],
            !(opsv[i as int].action is Create),
            results@.map_values(|v: Vec<(usize, usize)>| v@) + pair_branches(
                opsv,
                free@,
                k as int,
            ) == pair_branches(opsv, free@, 1),
        decreases free@.len() - k,
    {
        let j = free[k];
        let ghost before = results@.map_values(|v: Vec<(usize, usize)>| v@);
        if can_contract(&ops[i], &ops[j]) {
            // the free positions with entries 0 and k removed
            let mut rest: Vec<usize> = Vec::new();
            let mut idx: usize = 1;
            while idx < free.len()
                invariant
                    1 <= idx <= free@.len(),
                    1 <= k < free@.len(),
                    idx <= k ==> rest@ == free@.subrange(1, idx as int),
                    idx > k ==> rest@ == free@.subrange(1, k as int) + free@.subrange(
                        k as int + 1,
                        idx as int,
                    ),
                decreases free@.len() - idx,
            {
                if idx != k {
                    rest.push(free[idx]);
                }
                proof {
                    if idx + 1 <= k {
                        assert(rest@ =~= free@.subrange(1, idx as int + 1));
                    } else if idx == k {
                        assert(rest@ =~= free@.subrange(1, k as int) + free@.subrange(
                            k as int + 1,
                            k as int + 1,
                        ));
                    } else {
                        assert(rest@ =~= free@.subrange(1, k as int) + free@.subrange(
                            k as int + 1,
                            idx as int + 1,
                        ));
                    }
                }
                idx = idx + 1;
            }
            proof {
                assert(rest@ =~= free@.drop_first().remove(k as int - 1));
            }
            let subs = generate_pairings(ops, &rest);
            let ghost subsv = subs@.map_values(|v: Vec<(usize, usize)>| v@);
            let ghost prepended = subsv.map_values(|sub: Seq<(usize, usize)>| seq![(i, j)] + sub);
            let mut m: usize = 0;
            while m < subs.len()
                invariant
                    m <= subs@.len(),
                    i == free@[0],
                    j == free@[k as int],
                    subsv == subs@.map_values(|v: Vec<(usize, usize)>| v@),
                    prepended == subsv.map_values(
                        |sub: Seq<(usize, usize)>| seq![(i, j)] + sub,
                    ),
                    results@.map_values(|v: Vec<(usize, usize)>| v@) == before
                        + prepended.take(m as int),
                decreases subs@.len() - m,
            {
                let mut p: Vec<(usize, usize)> = Vec::new();
                p.push((i, j));
                let sub = &subs[m];
                let mut t: usize = 0;
                while t < sub.len()
                    invariant
                        t <= sub@.len(),
                        sub@ == subs@[m as int]@,
                        m < subs@.len(),
                        subsv == subs@.map_values(|v: Vec<(usize, usize)>| v@),
                        p@ == seq![(i, j)] + sub@.take(t as int),
                    decreases sub@.len() - t,
                {
                    p.push(sub[t]);
                    proof {
                        assert(p@ =~= seq![(i, j)] + sub@.take(t as int + 1));
                    }
                    t = t + 1;
                }
                proof {
                    assert(p@ =~= seq![(i, j)] + subsv[m as int]);
                }
                let ghost prev_map = results@.map_values(|v: Vec<(usize, usize)>| v@);
                let ghost pv = p@;
                results.push(p);
                proof {
                    assert(results@.map_values(|v: Vec<(usize, usize)>| v@) =~= prev_map.push(
                        pv,
                    ));
                    assert(prepended[m as int] == seq![(i, j)] + subsv[m as int]);
                    assert(prepended.take(m as int + 1) =~= prepended.take(m as int).push(
                        prepended[m as int],
                    ));
                    assert(results@.map_values(|v: Vec<(usize, usize)>| v@) =~= before
                        + prepended.take(m as int + 1));
                }
                m = m + 1;
            }
            proof {
                assert(prepended.take(subsv.len() as int) =~= prepended);
                assert(results@.map_values(|v: Vec<(usize, usize)>| v@) == before + prepended);
            }
        }
        proof {
            // one unfolding of pair_branches at k
            let here: Seq<Seq<(usize, usize)>> = if spec_can_contract(
                opsv[i as int],
                opsv[free@[k as int] as int],
            ) {
                spec_pairings(opsv, free@.drop_first().remove(k as int - 1)).map_values(
                    |sub: Seq<(usize, usize)>| seq![(i, j)] + sub,
                )
            } else {
                Seq::empty()
            };
            assert(pair_branches(opsv, free@, k as int) == here + pair_branches(
                opsv,
                free@,
                k as int + 1,
            ));
            if !spec_can_contract(opsv[i as int], opsv[free@[k as int] as int]) {
                assert(results@.map_values(|v: Vec<(usize, usize)>| v@) == before);
                assert(here =~= Seq::<Seq<(usize, usize)>>::empty());
            }
            assert(results@.map_values(|v: Vec<(usize, usize)>| v@) + pair_branches(
                opsv,
                free@,
                k as int + 1,
            ) =~= before + pair_branches(opsv, free@, k as int));
        }
        k = k + 1;
    }
    proof {
        assert(pair_branches(opsv, free@, free@.len() as int) =~= Seq::<
            Seq<(usize, usize)>,
        >::empty());
        assert(results@.map_values(|v: Vec<(usize, usize)>| v@) =~= pair_branches(
            opsv,
            free@,
            1,
        ));
        assert(spec_pairings(opsv, free@) == pair_branches(opsv, free@, 1));
    }
    results
}

// ------------------------- termination measure -------------------------

/// How many creation operators the string holds.
pub open spec fn cnt_create(s: Seq<OpV>) -> nat
    decreases s.len(),
{
    if s.len() == 0 {
        0
    } else {
        (if s[0].action is Create {
            1nat
        } else {
            0nat
        }) + cnt_create(s.drop_first())
    }
}

/// How far the string is from normal order: over every annihilator, the
/// number of creators to its right.
pub open spec fn inv_count(s: Seq<OpV>) -> nat
    decreases s.len(),
{
    if s.len() == 0 {
        0
    } else {
        (if s[0].action is Annihilate {
            cnt_create(s.drop_first())
        } else {
            0nat
        }) + inv_count(s.drop_first())
    }
}

/// An adjacent swap does not change the creator count.
proof fn lemma_cnt_create_swap(s: Seq<OpV>, i: int)
    requires
        0 <= i && i + 1 < s.len(),
    ensures
        cnt_create(s.update(i, s[i + 1]).update(i + 1, s[i])) == cnt_create(s),
    decreases i,
{
    let s2 = s.update(i, s[i + 1]).update(i + 1, s[i]);
    if i == 0 {
        let d1 = s.drop_first();
        let d2 = d1.drop_first();
        let e1 = s2.drop_first();
        assert(e1.drop_first() =~= d2);
        assert(e1[0] == s[0] && d1[0] == s[1] && s2[0] == s[1]);
        assert(cnt_create(s) == (if s[0].action is Create {
            1nat
        } else {
            0nat
        }) + cnt_create(d1));
        assert(cnt_create(d1) == (if s[1].action is Create {
            1nat
        } else {
            0nat
        }) + cnt_create(d2));
        assert(cnt_create(s2) == (if s[1].action is Create {
            1nat
        } else {
            0nat
        }) + cnt_create(e1));
        assert(cnt_create(e1) == (if s[0].action is Create {
            1nat
        } else {
            0nat
        }) + cnt_create(d2));
    } else {
        let t = s.drop_first();
        lemma_cnt_create_swap(t, i - 1);
        assert(s2.drop_first() =~= t.update(i - 1, t[i]).update(i, t[i - 1]));
        assert(t[i] == s[i + 1] && t[i - 1] == s[i]);
        assert(s2[0] == s[0]);
    }
}

/// Swapping an out-of-order adjacent (annihilate, create) pair brings
/// the string exactly one step closer to normal order.
proof fn lemma_swap_inv(s: Seq<OpV>, i: int)
    requires
        0 <= i && i + 1 < s.len(),
        s[i].action is Annihilate,
        s[i + 1].action is Create,
    ensures
        inv_count(s.update(i, s[i + 1]).update(i + 1, s[i])) + 1 == inv_count(s),
    decreases i,
{
    let s2 = s.update(i, s[i + 1]).update(i + 1, s[i]);
    if i == 0 {
        let d2 = s.drop_first().drop_first();
        assert(s2.drop_first().drop_first() =~= d2);
        assert(s.drop_first()[0] == s[1]);
        assert(s2.drop_first()[0] == s[0]);
        assert(cnt_create(s.drop_first()) == 1 + cnt_create(d2));
        assert(inv_count(s.drop_first()) == inv_count(d2));
        assert(inv_count(s) == 1 + cnt_create(d2) + inv_count(d2));
        assert(cnt_create(s2.drop_first()) == cnt_create(d2));
        assert(inv_count(s2.drop_first()) == cnt_create(d2) + inv_count(d2));
        assert(inv_count(s2) == cnt_create(d2) + inv_count(d2));
    } else {
        let t = s.drop_first();
        lemma_swap_inv(t, i - 1);
        lemma_cnt_create_swap(t, i - 1);
        assert(s2.drop_first() =~= t.update(i - 1, t[i]).update(i, t[i - 1]));
        assert(t[i] == s[i + 1] && t[i - 1] == s[i]);
        assert(s2[0] == s[0]);
        assert(cnt_create(s2.drop_first()) == cnt_create(t));
    }
}

/// The first position whose operator may contract with its right
/// neighbour, or -1 when the string is in normal order.
pub open spec fn first_cc(ops: Seq<OpV>) -> int
    decreases ops.len(),
{
    if ops.len() < 2 {
        -1
    } else if spec_can_contract(ops[0], ops[1]) {
        0
    } else {
        let r = first_cc(ops.drop_first());
        if r == -1 {
            -1
        } else {
            r + 1
        }
    }
}

/// `first_cc` reports -1 exactly on normal-ordered strings, and
/// otherwise names a contractable adjacent pair.
proof fn lemma_first_cc_props(ops: Seq<OpV>)
    ensures
        spec_is_normal_order(ops) <==> first_cc(ops) == -1,
        first_cc(ops) != -1 ==> 0 <= first_cc(ops) && first_cc(ops) + 1 < ops.len()
            && spec_can_contract(ops[first_cc(ops)], ops[first_cc(ops) + 1]),
    decreases ops.len(),
{
    if ops.len() < 2 {
    } else if spec_can_contract(ops[0], ops[1]) {
        assert(!spec_is_normal_order(ops));
    } else {
        let t = ops.drop_first();
        lemma_first_cc_props(t);
        assert(forall|k: int| 0 <= k && k + 1 < t.len() ==> #[trigger] t[k] == ops[k + 1]);
        if spec_is_normal_order(ops) {
            assert forall|k: int| 0 <= k && k + 1 < t.len() implies !spec_can_contract(
                #[trigger] t[k],
                t[k + 1],
            ) by {
                assert(!spec_can_contract(ops[k + 1], ops[k + 2]));
            }
            assert(spec_is_normal_order(t));
        } else {
            if first_cc(ops) == -1 {
                assert(first_cc(t) == -1);
                assert(spec_is_normal_order(t));
                assert forall|k: int| 0 <= k && k + 1 < ops.len() implies !spec_can_contract(
                    #[trigger] ops[k],
                    ops[k + 1],
                ) by {
                    if k == 0 {
                    } else {
                        assert(t[k - 1] == ops[k] && t[k] == ops[k + 1]);
                        assert(!spec_can_contract(t[k - 1], t[k]));
                    }
                }
                assert(spec_is_normal_order(ops));
            }
        }
        if first_cc(ops) != -1 {
            let r = first_cc(t);
            assert(first_cc(ops) == r + 1);
            assert(t[r] == ops[r + 1] && t[r + 1] == ops[r + 2]);
        }
    }
}

/// `first_cc` is the position of the first contractable pair.
proof fn lemma_first_cc_hit(ops: Seq<OpV>, i: int)
    requires
        0 <= i && i + 1 < ops.len(),
        spec_can_contract(ops[i], ops[i + 1]),
        forall|k: int| 0 <= k < i ==> !spec_can_contract(#[trigger] ops[k], ops[k + 1]),
    ensures
        first_cc(ops) == i,
    decreases ops.len(),
{
    if i == 0 {
    } else {
        assert(!spec_can_contract(ops[0], ops[1]));
        let t = ops.drop_first();
        assert(forall|k: int| 0 <= k && k + 1 < t.len() ==> #[trigger] t[k] == ops[k + 1]);
        assert forall|k: int| 0 <= k < i - 1 implies !spec_can_contract(
            #[trigger] t[k],
            t[k + 1],
        ) by {
            assert(!spec_can_contract(ops[k + 1], ops[k + 2]));
        }
        lemma_first_cc_hit(t, i - 1);
    }
}

// ------------------------- general expansion -------------------------

/// The general expansion of a term into normal-ordered and
/// partial-contraction terms. A term with at most one operator or
/// already in normal order is returned alone. Otherwise the first
/// contractable adjacent pair is either swapped (negating the
/// coefficient under Fermi-Dirac statistics) or contracted into a delta
/// with both operators removed; both branches are expanded recursively
/// and merged, the contraction branch only when the coefficient
/// magnitude exceeds the pruning threshold.
///
/// Caution: under Bose-Einstein (or arbitrary) statistics the swap
/// branch keeps the coefficient and no commutator term is added, so
/// bosonic commutation is not modelled completely; only the
/// Fermi-Dirac rule is exact.
pub open spec fn spec_expand(e: ExprV, stats: Statistics) -> Seq<ExprV>
    decreases e.ops.len(), inv_count(e.ops),
    via spec_expand_decreases
{
    if e.ops.len() <= 1 || spec_is_normal_order(e.ops) {
        seq![e]
    } else {
        let i = first_cc(e.ops);
        let swapped = ExprV {
            coeff: if stats is FermiDirac {
                coeff_neg(e.coeff)
            } else {
                e.coeff
            },
            deltas: e.deltas,
            ops: e.ops.update(i, e.ops[i + 1]).update(i + 1, e.ops[i]),
            statistic: e.statistic,
        };
        let with_delta = spec_add_delta(
            e,
            DeltaV { a: e.ops[i].index, b: e.ops[i + 1].index },
        );
        let contracted = ExprV { ops: e.ops.remove(i).remove(i), ..with_delta };
        let r1 = spec_add_sum(Seq::empty(), spec_expand(swapped, stats));
        if coeff_abs(contracted.coeff) > PRUNE_EPS_UNITS as int {
            spec_add_sum(r1, spec_expand(contracted, stats))
        } else {
            r1
        }
    }
}

#[via_fn]
proof fn spec_expand_decreases(e: ExprV, stats: Statistics) {
    if !(e.ops.len() <= 1 || spec_is_normal_order(e.ops)) {
        lemma_first_cc_props(e.ops);
        let i = first_cc(e.ops);
        lemma_swap_inv(e.ops, i);
        assert(e.ops.remove(i).remove(i).len() == e.ops.len() - 2);
    }
}

/// Expand a term into its normal-ordered plus partial-contraction sum.
fn wick_expand_pv(e: Expr, statistics: Statistics) -> (r: ResultExpr)
    ensures
        r@ == spec_expand(e@, statistics),
    decreases e@.ops.len(), inv_count(e@.ops),
{
    if e.ops.len() <= 1 || is_normal_order(&e) {
        return ResultExpr::from_expr(e);
    }
    let ghost ev = e@;
    proof {
        lemma_first_cc_props(ev.ops);
    }
    let mut i: usize = 0;
    while i < e.ops.len() - 1
        invariant
            e@ == ev,
            e.ops.len() >= 2,
            i <= e.ops.len() - 1,
            forall|k: int| 0 <= k < i ==> !spec_can_contract(#[trigger] ev.ops[k], ev.ops[k + 1]),
        decreases e.ops.len() - i,
    {
        if can_contract(&e.ops[i], &e.ops[i + 1]) {
            proof {
                lemma_first_cc_hit(ev.ops, i as int);
            }
            let ghost sw_spec = ExprV {
                coeff: if statistics is FermiDirac {
                    coeff_neg(ev.coeff)
                } else {
                    ev.coeff
                },
                deltas: ev.deltas,
                ops: ev.ops.update(i as int, ev.ops[i as int + 1]).update(
                    i as int + 1,
                    ev.ops[i as int],
                ),
                statistic: ev.statistic,
            };
            let mut swapped = e.duplicate();
            let o_left = e.ops[i].duplicate();
            let o_right = e.ops[i + 1].duplicate();
            swapped.ops[i] = o_right;
            swapped.ops[i + 1] = o_left;
            if matches!(statistics, Statistics::FermiDirac) {
                swapped.coeff = swapped.coeff.neg();
            }
            proof {
                assert(swapped@.ops =~= sw_spec.ops);
                assert(swapped@ == sw_spec);
                lemma_swap_inv(ev.ops, i as int);
            }
            let mut results = ResultExpr::new();
            let sub_swap = wick_expand_pv(swapped, statistics);
            results.add_sum(sub_swap);
            proof {
                assert(results@ == spec_add_sum(
                    Seq::<ExprV>::empty(),
                    spec_expand(sw_spec, statistics),
                ));
            }
            let ghost wd_spec = spec_add_delta(
                ev,
                DeltaV { a: ev.ops[i as int].index, b: ev.ops[i as int + 1].index },
            );
            let ghost ctr_spec = ExprV {
                ops: ev.ops.remove(i as int).remove(i as int),
                ..wd_spec
            };
            let mut contracted = e.duplicate();
            contracted.add_delta(
                Delta { a: e.ops[i].index.duplicate(), b: e.ops[i + 1].index.duplicate() },
            );
            proof {
                assert(contracted@ == wd_spec);
                assert(contracted@.ops == ev.ops);
            }
            if contracted.coeff.abs_gt(PRUNE_EPS_UNITS) {
                contracted.ops.remove(i);
                contracted.ops.remove(i);
                proof {
                    assert(contracted@.ops =~= ev.ops.remove(i as int).remove(i as int));
                    assert(contracted@ == ctr_spec);
                }
                let sub_ctr = wick_expand_pv(contracted, statistics);
                results.add_sum(sub_ctr);
            }
            proof {
                assert(first_cc(ev.ops) == i as int);
                assert(results@ == spec_expand(ev, statistics));
            }
            return results;
        }
        i = i + 1;
    }
    proof {
        assert(spec_is_normal_order(ev.ops));
        assert(false);
    }
    vstd::pervasive::unreached()
}

/// Every term of the sum is normal-ordered, or too short to be out of
/// order.
pub open spec fn all_normal_ordered(s: Seq<ExprV>) -> bool {
    forall|k: int|
        0 <= k < s.len() ==> spec_is_normal_order((#[trigger] s[k]).ops) || s[k].ops.len() <= 1
}

proof fn lemma_push_preserves_normal(a: Seq<ExprV>, t: ExprV)
    requires
        all_normal_ordered(a),
        spec_is_normal_order(t.ops) || t.ops.len() <= 1,
    ensures
        all_normal_ordered(spec_push(a, t)),
{
    let r = spec_push(a, t);
    if coeff_abs(t.coeff) < crate::coeff::MERGE_EPS_UNITS as int {
    } else {
        let j = first_similar(a, t);
        crate::result_expr::lemma_first_similar_props(a, t);
        if j >= 0 {
            assert forall|k: int|
                0 <= k < r.len() implies spec_is_normal_order((#[trigger] r[k]).ops)
                || r[k].ops.len() <= 1 by {
                if k == j {
                    assert(r[k].ops == a[j].ops);
                } else {
                    assert(r[k] == a[k]);
                }
            }
        } else {
            assert forall|k: int|
                0 <= k < r.len() implies spec_is_normal_order((#[trigger] r[k]).ops)
                || r[k].ops.len() <= 1 by {
                if k < a.len() {
                    assert(r[k] == a[k]);
                } else {
                    assert(r[k] == t);
                }
            }
        }
    }
}

proof fn lemma_add_sum_preserves_normal(a: Seq<ExprV>, b: Seq<ExprV>)
    requires
        all_normal_ordered(a),
        all_normal_ordered(b),
    ensures
        all_normal_ordered(spec_add_sum(a, b)),
    decreases b.len(),
{
    if b.len() > 0 {
        let b0 = b.drop_last();
        let t = b.last();
        assert(all_normal_ordered(b0)) by {
            assert(forall|k: int| 0 <= k < b0.len() ==> b0[k] == b[k]);
        }
        lemma_add_sum_preserves_normal(a, b0);
        lemma_push_preserves_normal(spec_add_sum(a, b0), t);
        assert(b0.push(t) =~= b);
        crate::result_expr::lemma_add_sum_snoc(a, b0, t);
    }
}

/// Every term the general expansion produces is normal-ordered (a term
/// of at most one operator counts as such): the recursion only stops on
/// normal-ordered branches.
pub proof fn lemma_expand_all_normal_ordered(e: ExprV, stats: Statistics)
    ensures
        all_normal_ordered(spec_expand(e, stats)),
    decreases e.ops.len(), inv_count(e.ops),
{
    if e.ops.len() <= 1 || spec_is_normal_order(e.ops) {
        assert(spec_expand(e, stats) == seq![e]);
        assert(spec_expand(e, stats)[0] == e);
    } else {
        lemma_first_cc_props(e.ops);
        let i = first_cc(e.ops);
        let swapped = ExprV {
            coeff: if stats is FermiDirac {
                coeff_neg(e.coeff)
            } else {
                e.coeff
            },
            deltas: e.deltas,
            ops: e.ops.update(i, e.ops[i + 1]).update(i + 1, e.ops[i]),
            statistic: e.statistic,
        };
        let with_delta = spec_add_delta(
            e,
            DeltaV { a: e.ops[i].index, b: e.ops[i + 1].index },
        );
        let contracted = ExprV { ops: e.ops.remove(i).remove(i), ..with_delta };
        lemma_swap_inv(e.ops, i);
        lemma_expand_all_normal_ordered(swapped, stats);
        assert(all_normal_ordered(Seq::<ExprV>::empty()));
        lemma_add_sum_preserves_normal(Seq::empty(), spec_expand(swapped, stats));
        let r1 = spec_add_sum(Seq::empty(), spec_expand(swapped, stats));
        if coeff_abs(contracted.coeff) > PRUNE_EPS_UNITS as int {
            lemma_expand_all_normal_ordered(contracted, stats);
            lemma_add_sum_preserves_normal(r1, spec_expand(contracted, stats));
        }
    }
}

// ------------------------- full contraction -------------------------

/// The deltas of one full contraction, added pair by pair with the
/// transitive-substitution rule.
pub open spec fn apply_pairs(t: ExprV, ops: Seq<OpV>, pr: Seq<(usize, usize)>) -> ExprV
    decreases pr.len(),
{
    if pr.len() == 0 {
        t
    } else {
        spec_add_delta(
            apply_pairs(t, ops, pr.drop_last()),
            DeltaV {
                a: ops[pr.last().0 as int].index,
                b: ops[pr.last().1 as int].index,
            },
        )
    }
}

/// The term one full contraction contributes: the input term's coefficient
/// carrying the crossing-parity sign under Fermi-Dirac statistics, no
/// operators, and one delta per contracted pair.
pub open spec fn spec_fc_term(e: ExprV, stats: Statistics, pr: Seq<(usize, usize)>) -> ExprV {
    let base = ExprV {
        coeff: if stats is FermiDirac && spec_crossings(pr) % 2 == 1 {
            coeff_neg(e.coeff)
        } else {
            e.coeff
        },
        deltas: Seq::empty(),
        ops: Seq::empty(),
        statistic: Statistics::FermiDirac,
    };
    apply_pairs(base, e.ops, pr)
}

/// The first `n` full-contraction terms merged into a sum.
pub open spec fn spec_fc_fold(
    e: ExprV,
    stats: Statistics,
    prs: Seq<Seq<(usize, usize)>>,
    n: int,
) -> Seq<ExprV>
    decreases n,
{
    if n <= 0 {
        Seq::empty()
    } else {
        spec_push(spec_fc_fold(e, stats, prs, n - 1), spec_fc_term(e, stats, prs[n - 1]))
    }
}

/// The positions 0, 1, ..., n-1.
pub open spec fn idseq(n: nat) -> Seq<usize> {
    Seq::new(n, |k: int| k as usize)
}

/// The full vacuum contraction of a term: a term with at most one
/// operator or already in normal order is returned unchanged; a term
/// whose creation and annihilation counts differ contracts to the empty
/// sum; otherwise every valid complete pairing contributes one signed
/// delta-product term, and the contributions are merged.
///
/// Caution: the first short-circuit hands back a normal-ordered term
/// unchanged even when it still holds operators, although the vacuum
/// expectation value of such a string physically vanishes.
pub open spec fn spec_fc(e: ExprV, stats: Statistics) -> Seq<ExprV> {
    if e.ops.len() <= 1 || spec_is_normal_order(e.ops) {
        seq![e]
    } else if e.ops.len() != 2 * cnt_create(e.ops) {
        Seq::empty()
    } else {
        let prs = spec_pairings(e.ops, idseq(e.ops.len()));
        spec_fc_fold(e, stats, prs, prs.len() as int)
    }
}

/// Compute the full vacuum contraction of a term.
fn wick_expand_fc_pv(e: &Expr, statistics: Statistics) -> (r: ResultExpr)
    requires
        e@.ops.len() * e@.ops.len() <= usize::MAX,
    ensures
        r@ == spec_fc(e@, statistics),
{
    let ghost ev = e@;
    if e.ops.len() <= 1 || is_normal_order(e) {
        return ResultExpr::from_expr(e.duplicate());
    }
    let n = e.ops.len();
    let mut num_create: usize = 0;
    let mut j: usize = 0;
    proof {
        assert(ev.ops.skip(0) =~= ev.ops);
    }
    while j < n
        invariant
            j <= n,
            ev == e@,
            n == e.ops.len(),
            num_create <= j,
            cnt_create(ev.ops.skip(j as int)) + num_create == cnt_create(ev.ops),
        decreases n - j,
    {
        proof {
            assert(ev.ops.skip(j as int).drop_first() =~= ev.ops.skip(j as int + 1));
            assert(ev.ops.skip(j as int)[0] == ev.ops[j as int]);
        }
        if matches!(e.ops[j].action, Action::Create) {
            num_create = num_create + 1;
        }
        j = j + 1;
    }
    proof {
        assert(ev.ops.skip(n as int).len() == 0);
        assert(num_create == cnt_create(ev.ops));
    }
    let num_annihilate = n - num_create;
    if num_create != num_annihilate {
        proof {
            assert(ev.ops.len() != 2 * cnt_create(ev.ops));
        }
        return ResultExpr::new();
    }
    let mut indices: Vec<usize> = Vec::new();
    let mut p: usize = 0;
    while p < n
        invariant
            p <= n,
            indices@.len() == p,
            forall|m: int| 0 <= m < p ==> indices@[m] == m,
        decreases n - p,
    {
        indices.push(p);
        p = p + 1;
    }
    proof {
        assert(indices@ =~= idseq(ev.ops.len()));
    }
    let pairings = generate_pairings(&e.ops, &indices);
    let ghost prsv = pairings@.map_values(|v: Vec<(usize, usize)>| v@);
    proof {
        lemma_pairings_shape(ev.ops, idseq(ev.ops.len()), ev.ops.len() as int);
    }
    let mut res = ResultExpr::new();
    let mut pi: usize = 0;
    while pi < pairings.len()
        invariant
            pi <= pairings@.len(),
            ev == e@,
            n == e.ops.len(),
            n * n <= usize::MAX,
            prsv == pairings@.map_values(|v: Vec<(usize, usize)>| v@),
            prsv == spec_pairings(ev.ops, idseq(ev.ops.len())),
            forall|x: int|
                0 <= x < prsv.len() ==> {
                    let pp = #[trigger] prsv[x];
                    2 * pp.len() == ev.ops.len() && forall|q: int|
                        0 <= q < pp.len() ==> (#[trigger] pp[q]).0 < ev.ops.len() && pp[q].1
                            < ev.ops.len()
                },
            res@ == spec_fc_fold(ev, statistics, prsv, pi as int),
        decreases pairings@.len() - pi,
    {
        let pr = &pairings[pi];
        let ghost pv = prsv[pi as int];
        proof {
            assert(pv == pr@);
            assert(2 * pv.len() == ev.ops.len());
            assert(pr@.len() * pr@.len() <= n * n) by (nonlinear_arith)
                requires
                    pr@.len() <= n,
            ;
        }
        let c = count_crossings(pr);
        let negative = matches!(statistics, Statistics::FermiDirac) && c % 2 == 1;
        let term0 = Expr::new();
        let mut term = term0.set_coeff(
            if negative {
                e.coeff().neg()
            } else {
                e.coeff()
            },
        );
        let ghost base = ExprV {
            coeff: if statistics is FermiDirac && spec_crossings(pv) % 2 == 1 {
                coeff_neg(ev.coeff)
            } else {
                ev.coeff
            },
            deltas: Seq::empty(),
            ops: Seq::empty(),
            statistic: Statistics::FermiDirac,
        };
        proof {
            assert(term@ == base);
        }
        let mut q: usize = 0;
        while q < pr.len()
            invariant
                q <= pr@.len(),
                ev == e@,
                pv == pr@,
                forall|m: int|
                    0 <= m < pv.len() ==> (#[trigger] pv[m]).0 < e.ops.len() && pv[m].1
                        < e.ops.len(),
                term@ == apply_pairs(base, ev.ops, pv.take(q as int)),
            decreases pr@.len() - q,
        {
            let (a, b) = pr[q];
            term.add_delta(
                Delta { a: e.ops[a].index.duplicate(), b: e.ops[b].index.duplicate() },
            );
            proof {
                assert(pv.take(q as int + 1).drop_last() =~= pv.take(q as int));
                assert(pv.take(q as int + 1).last() == pv[q as int]);
            }
            q = q + 1;
        }
        proof {
            assert(pv.take(pr@.len() as int) =~= pv);
            assert(term@ == spec_fc_term(ev, statistics, pv));
        }
        res.push_and_merge(term);
        pi = pi + 1;
    }
    proof {
        assert(res@ == spec_fc(ev, statistics));
    }
    res
}

/// Adding deltas never touches the operator string.
proof fn lemma_apply_pairs_ops(t: ExprV, ops: Seq<OpV>, pr: Seq<(usize, usize)>)
    ensures
        apply_pairs(t, ops, pr).ops == t.ops,
    decreases pr.len(),
{
    if pr.len() > 0 {
        lemma_apply_pairs_ops(t, ops, pr.drop_last());
    }
}

/// Every term of the sum carries no operators.
pub open spec fn all_without_operators(s: Seq<ExprV>) -> bool {
    forall|k: int| 0 <= k < s.len() ==> (#[trigger] s[k]).ops.len() == 0
}

proof fn lemma_fc_fold_no_ops(
    e: ExprV,
    stats: Statistics,
    prs: Seq<Seq<(usize, usize)>>,
    n: int,
)
    ensures
        all_without_operators(spec_fc_fold(e, stats, prs, n)),
    decreases n,
{
    if n > 0 {
        lemma_fc_fold_no_ops(e, stats, prs, n - 1);
        let a = spec_fc_fold(e, stats, prs, n - 1);
        let t = spec_fc_term(e, stats, prs[n - 1]);
        lemma_apply_pairs_ops(
            ExprV {
                coeff: if stats is FermiDirac && spec_crossings(prs[n - 1]) % 2 == 1 {
                    coeff_neg(e.coeff)
                } else {
                    e.coeff
                },
                deltas: Seq::empty(),
                ops: Seq::empty(),
                statistic: Statistics::FermiDirac,
            },
            e.ops,
            prs[n - 1],
        );
        assert(t.ops.len() == 0);
        let r = spec_push(a, t);
        if coeff_abs(t.coeff) < crate::coeff::MERGE_EPS_UNITS as int {
        } else {
            let j = first_similar(a, t);
            crate::result_expr::lemma_first_similar_props(a, t);
            if j >= 0 {
                assert forall|k: int| 0 <= k < r.len() implies (#[trigger] r[k]).ops.len()
                    == 0 by {
                    if k == j {
                        assert(r[k].ops == a[j].ops);
                    } else {
                        assert(r[k] == a[k]);
                    }
                }
            } else {
                assert forall|k: int| 0 <= k < r.len() implies (#[trigger] r[k]).ops.len()
                    == 0 by {
                    if k < a.len() {
                        assert(r[k] == a[k]);
                    } else {
                        assert(r[k] == t);
                    }
                }
            }
        }
    }
}

/// Outside its short-circuits, the full contraction removes every
/// operator: each term of the result is a pure signed delta product.
pub proof fn lemma_fc_terms_have_no_operators(e: ExprV, stats: Statistics)
    requires
        e.ops.len() > 1,
        !spec_is_normal_order(e.ops),
        e.ops.len() == 2 * cnt_create(e.ops),
    ensures
        all_without_operators(spec_fc(e, stats)),
{
    let prs = spec_pairings(e.ops, idseq(e.ops.len()));
    lemma_fc_fold_no_ops(e, stats, prs, prs.len() as int);
}

// ------------------------- orchestration -------------------------

/// The index carried by an operator.
pub fn get_op_index(op: &Op) -> (r: Index)
    ensures
        r@ == op@.index,
{
    op.index.duplicate()
}

/// The contraction engine over one term: holds the input term, the mode
/// flag, the vacuum inferred from the first operator's index, the
/// statistics tag copied from the term, and the accumulated result.
pub struct WickTheorem {
    expr_: Expr,
    full_contractions_: bool,
    wick_result_: ResultExpr,
    vacuum_: Vacuum,
    statistics_: Statistics,
}

/// The mathematical value of a `WickTheorem`.
pub struct WickV {
    pub expr: ExprV,
    pub full: bool,
    pub result: Seq<ExprV>,
    pub vacuum: Vacuum,
    pub statistics: Statistics,
}

impl View for WickTheorem {
    type V = WickV;

    closed spec fn view(&self) -> WickV {
        WickV {
            expr: self.expr_@,
            full: self.full_contractions_,
            result: self.wick_result_@,
            vacuum: self.vacuum_,
            statistics: self.statistics_,
        }
    }
}

impl WickTheorem {
    /// A contractor over `expr`, in general-expansion mode, with the
    /// vacuum taken from the first operator (`Physical` for an empty
    /// term) and the statistics taken from the term.
    pub fn new(expr: Expr) -> (r: Self)
        ensures
            r@.expr == expr@,
            r@.full == false,
            r@.result == Seq::<ExprV>::empty(),
            r@.vacuum == if expr@.ops.len() > 0 {
                expr@.ops[0].index.vacuum
            } else {
                Vacuum::Physical
            },
            r@.statistics == expr@.statistic,
    {
        let vacuum = if expr.ops.len() > 0 {
            expr.ops[0].index.vacuum
        } else {
            Vacuum::Physical
        };
        let statistics = expr.statistic;
        let r = Self {
            expr_: expr,
            full_contractions_: false,
            wick_result_: ResultExpr::new(),
            vacuum_: vacuum,
            statistics_: statistics,
        };
        r
    }

    /// Select full-contraction mode (`true`) or general expansion
    /// (`false`).
    pub fn full_contractions(self, full_contractions: bool) -> (r: Self)
        ensures
            r@ == (WickV { full: full_contractions, ..self@ }),
    {
        Self { full_contractions_: full_contractions, ..self }
    }

    /// Run the selected engine. Over the physical vacuum, full mode
    /// computes the full contraction and general mode the complete
    /// expansion; over any other vacuum nothing is computed and the
    /// result is left as it was.
    pub fn compute(self) -> (r: Self)
        requires
            self@.vacuum is Physical && self@.full ==> self@.expr.ops.len()
                * self@.expr.ops.len() <= usize::MAX,
        ensures
            r@.expr == self@.expr,
            r@.full == self@.full,
            r@.vacuum == self@.vacuum,
            r@.statistics == self@.statistics,
            self@.vacuum is Physical && self@.full ==> r@.result == spec_fc(
                self@.expr,
                self@.statistics,
            ),
            self@.vacuum is Physical && !self@.full ==> r@.result == spec_expand(
                self@.expr,
                self@.statistics,
            ),
            !(self@.vacuum is Physical) ==> r@.result == self@.result,
    {
        let mut this = self;
        match (this.vacuum_, this.full_contractions_) {
            (Vacuum::Physical, true) => {
                this.wick_result_ = wick_expand_fc_pv(&this.expr_, this.statistics_);
            },
            (Vacuum::Physical, false) => {
                this.wick_result_ = wick_expand_pv(this.expr_.duplicate(), this.statistics_);
            },
            _ => {},
        }
        this
    }

    /// The accumulated result sum.
    pub fn wick_result(&self) -> (r: &ResultExpr)
        ensures
            r@ == self@.result,
    {
        &self.wick_result_
    }

    /// Rendered form of the result sum. Presentation only.
    pub fn to_latex(&self) -> String {
        self.wick_result_.to_latex()
    }
}

} // verus!
