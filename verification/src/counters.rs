//! The loop counters of an action `n * { … } m * { … } target`: one state is
//! spawned per combination of counters, the first counter running fastest,
//! each counter from 1 up to its loop's count.

use vstd::prelude::*;

verus! {

/// From position `i` on, a counter past its count goes back to 1 and carries
/// one into the next counter; a carry out of the last counter ends the
/// iteration.
pub open spec fn carry_from(c: Seq<u32>, counts: Seq<u32>, i: int) -> Option<Seq<u32>>
    decreases c.len() - i,
{
    if i < 0 || i >= c.len() {
        Some(c)
    } else if c[i] > counts[i] {
        if i + 1 >= c.len() {
            None
        } else {
            carry_from(c.update(i, 1).update(i + 1, (c[i + 1] + 1) as u32), counts, i + 1)
        }
    } else {
        carry_from(c, counts, i + 1)
    }
}

/// The combination after `c`: the first counter goes up by one, then the
/// carries are swept from the first counter to the last. `None` when the
/// iteration is over.
pub open spec fn counter_step(c: Seq<u32>, counts: Seq<u32>) -> Option<Seq<u32>> {
    if c.len() == 0 {
        None
    } else {
        carry_from(c.update(0, (c[0] + 1) as u32), counts, 0)
    }
}

/// Every counter at 1.
pub open spec fn all_ones(n: nat) -> Seq<u32> {
    Seq::new(n, |i: int| 1u32)
}

/// `tuples` is the whole iteration for `counts`: it starts with every counter
/// at 1, each combination is followed by the next, and the last has none.
pub open spec fn is_counter_run(tuples: Seq<Seq<u32>>, counts: Seq<u32>) -> bool {
    &&& tuples.len() > 0
    &&& tuples[0] == all_ones(counts.len())
    &&& forall|k: int|
        0 <= k < tuples.len() - 1 ==> counter_step(#[trigger] tuples[k], counts) == Some(
            tuples[k + 1],
        )
    &&& counter_step(tuples.last(), counts) is None
}

/// The upper bound that the iteration keeps each counter under (a zero count
/// still lets its counter sit at 1).
pub open spec fn counter_cap(count: u32) -> int {
    if count == 0 {
        1
    } else {
        count as int
    }
}

/// Each counter is at least 1 and at most its cap.
pub open spec fn in_caps(c: Seq<u32>, counts: Seq<u32>) -> bool {
    &&& c.len() == counts.len()
    &&& forall|j: int| 0 <= j < c.len() ==> 1 <= #[trigger] c[j] <= counter_cap(counts[j])
}

// ── A measure that every step increases ────────────────────────────────────

/// `Σ (c[j] - base) * w[j]` over `j < i`.
pub open spec fn wsum(c: Seq<u32>, base: int, w: Seq<int>, i: int) -> int
    decreases i,
{
    if i <= 0 {
        0
    } else {
        wsum(c, base, w, i - 1) + (c[i - 1] - base) * w[i - 1]
    }
}

/// `Π (counts[j] + 2)` over `j < i`.
pub open spec fn growth_weight(counts: Seq<u32>, i: int) -> int
    decreases i,
{
    if i <= 0 {
        1
    } else {
        growth_weight(counts, i - 1) * (counts[i - 1] + 2)
    }
}

pub open spec fn growth_weights(counts: Seq<u32>) -> Seq<int> {
    Seq::new(counts.len() + 1, |i: int| growth_weight(counts, i))
}

/// The measure of a combination: its counters weighted by `growth_weights`.
pub open spec fn growth(c: Seq<u32>, counts: Seq<u32>) -> int {
    wsum(c, 0, growth_weights(counts), c.len() as int)
}

proof fn lemma_growth_weight_pos(counts: Seq<u32>, i: int)
    requires
        0 <= i <= counts.len(),
    ensures
        growth_weight(counts, i) >= 1,
    decreases i,
{
    if i > 0 {
        lemma_growth_weight_pos(counts, i - 1);
        let w = growth_weight(counts, i - 1);
        let f = counts[i - 1] + 2;
        assert(w * f >= 1) by (nonlinear_arith)
            requires
                w >= 1,
                f >= 2,
        ;
    }
}

/// Changing one counter changes the sum by the change times its weight.
proof fn lemma_wsum_update(c: Seq<u32>, base: int, w: Seq<int>, j: int, x: u32, i: int)
    requires
        0 <= j < c.len(),
        0 <= i <= c.len(),
    ensures
        wsum(c.update(j, x), base, w, i) == if j < i {
            wsum(c, base, w, i) + (x - c[j]) * w[j]
        } else {
            wsum(c, base, w, i)
        },
    decreases i,
{
    if i > 0 {
        lemma_wsum_update(c, base, w, j, x, i - 1);
        if j == i - 1 {
            let a = c[j] - base;
            let b = x - base;
            let ww = w[j];
            assert(b * ww == a * ww + (x - c[j]) * ww) by (nonlinear_arith)
                requires
                    b == a + (x - c[j]),
            ;
        }
    }
}

/// Counters within `counts[j] + 1` weigh less than the next weight.
proof fn lemma_growth_bound(c: Seq<u32>, counts: Seq<u32>, i: int)
    requires
        c.len() == counts.len(),
        0 <= i <= c.len(),
        forall|j: int| 0 <= j < c.len() ==> 0 <= #[trigger] c[j] <= counts[j] + 1,
    ensures
        0 <= wsum(c, 0, growth_weights(counts), i) < growth_weight(counts, i),
    decreases i,
{
    if i > 0 {
        lemma_growth_bound(c, counts, i - 1);
        lemma_growth_weight_pos(counts, i - 1);
        let s = wsum(c, 0, growth_weights(counts), i - 1);
        let w = growth_weight(counts, i - 1);
        let x = c[i - 1] as int;
        let k = counts[i - 1] as int;
        assert(growth_weights(counts)[i - 1] == w);
        assert(0 <= s + x * w < w * (k + 2)) by (nonlinear_arith)
            requires
                0 <= s < w,
                0 <= x <= k + 1,
                w >= 1,
        ;
    }
}

// ── Stepping ───────────────────────────────────────────────────────────────

/// Every count is below `u32::MAX`, so that a counter can pass it.
pub open spec fn counts_ok(counts: Seq<u32>) -> bool {
    forall|j: int| 0 <= j < counts.len() ==> #[trigger] counts[j] < u32::MAX
}

/// A carry at position `i` does not lower the measure.
proof fn lemma_carry_grows(c: Seq<u32>, counts: Seq<u32>, i: int)
    requires
        c.len() == counts.len(),
        0 <= i,
        i + 1 < c.len(),
        1 <= c[i] <= counter_cap(counts[i]) + 1,
        c[i + 1] < u32::MAX,
    ensures
        growth(c.update(i, 1).update(i + 1, (c[i + 1] + 1) as u32), counts) >= growth(c, counts)
            + 1,
{
    let n = c.len() as int;
    let w = growth_weights(counts);
    let c1 = c.update(i, 1);
    let c2 = c1.update(i + 1, (c[i + 1] + 1) as u32);
    lemma_wsum_update(c, 0, w, i, 1, n);
    lemma_wsum_update(c1, 0, w, i + 1, (c[i + 1] + 1) as u32, n);
    lemma_growth_weight_pos(counts, i);
    let wi = growth_weight(counts, i);
    assert(w[i] == wi);
    assert(w[i + 1] == growth_weight(counts, i + 1));
    assert(growth_weight(counts, i + 1) == wi * (counts[i] + 2));
    let x = c[i] as int;
    let k = counts[i] as int;
    assert((1 - x) * wi + wi * (k + 2) >= 1) by (nonlinear_arith)
        requires
            1 <= x <= k + 2,
            wi >= 1,
    ;
    assert(c1[i + 1] == c[i + 1]);
    assert(wsum(c1, 0, w, n) == wsum(c, 0, w, n) + (1 - x) * wi);
    let y = (c[i + 1] + 1) as u32;
    assert(y - c1[i + 1] == 1);
    let wn = w[i + 1];
    assert((y - c1[i + 1]) * wn == wn) by (nonlinear_arith)
        requires
            y - c1[i + 1] == 1,
    ;
    assert(wsum(c2, 0, w, n) == wsum(c1, 0, w, n) + w[i + 1]);
    assert(c2.len() == n);
}

/// Move `c` to the next combination. Returns `false`, with `c` in no
/// particular state, when `c` was the last one.
pub fn advance(c: &mut Vec<u32>, counts: &Vec<u32>) -> (more: bool)
    requires
        old(c)@.len() > 0,
        in_caps(old(c)@, counts@),
        counts_ok(counts@),
    ensures
        more == counter_step(old(c)@, counts@) is Some,
        more ==> counter_step(old(c)@, counts@) == Some(final(c)@),
        more ==> in_caps(final(c)@, counts@),
        more ==> growth(final(c)@, counts@) > growth(old(c)@, counts@),
{
    let n = c.len();
    let ghost c0 = c@;
    let ghost start = c0.update(0, (c0[0] + 1) as u32);
    let first = c[0] + 1;
    c.set(0, first);
    proof {
        lemma_wsum_update(c0, 0, growth_weights(counts@), 0, first, n as int);
        assert(growth_weights(counts@)[0] == 1);
    }
    let mut i: usize = 0;
    while i < n
        invariant
            n == c@.len(),
            n == counts@.len(),
            c0 == old(c)@,
            in_caps(c0, counts@),
            counts_ok(counts@),
            start == c0.update(0, (c0[0] + 1) as u32),
            i <= n,
            carry_from(start, counts@, 0) == carry_from(c@, counts@, i as int),
            forall|j: int| 0 <= j < i ==> 1 <= #[trigger] c@[j] <= counter_cap(counts@[j]),
            i < n ==> 1 <= c@[i as int] <= counter_cap(counts@[i as int]) + 1,
            forall|j: int| i < j < n ==> #[trigger] c@[j] == c0[j],
            growth(c@, counts@) >= growth(c0, counts@) + 1,
        decreases n - i,
    {
        if c[i] > counts[i] {
            if i + 1 == n {
                return false;
            }
            proof {
                assert(c@[i + 1] == c0[i + 1]);
                lemma_carry_grows(c@, counts@, i as int);
            }
            let next = c[i + 1] + 1;
            c.set(i, 1);
            c.set(i + 1, next);
        }
        i = i + 1;
    }
    proof {
        assert(in_caps(c@, counts@));
    }
    true
}

/// All combinations of the loop counters, in iteration order. An action
/// without loops has one combination, with no counters.
pub fn counter_tuples(counts: &Vec<u32>) -> (r: Vec<Vec<u32>>)
    requires
        counts_ok(counts@),
    ensures
        is_counter_run(r@.map_values(|t: Vec<u32>| t@), counts@),
{
    let n = counts.len();
    if n == 0 {
        let r: Vec<Vec<u32>> = vec![Vec::new()];
        assert(r@.map_values(|t: Vec<u32>| t@)[0] =~= all_ones(0));
        return r;
    }
    let mut c: Vec<u32> = Vec::new();
    for i in 0..n
        invariant
            c@ == all_ones(i as nat),
    {
        c.push(1);
        assert(c@ =~= all_ones((i + 1) as nat));
    }
    assert(in_caps(c@, counts@));
    let mut r: Vec<Vec<u32>> = Vec::new();
    let ghost bound = growth_weight(counts@, n as int);
    proof {
        lemma_growth_bound(c@, counts@, n as int);
    }
    loop
        invariant_except_break
            in_caps(c@, counts@),
            counts_ok(counts@),
            c@.len() == n,
            n == counts@.len(),
            n > 0,
            bound == growth_weight(counts@, n as int),
            0 <= growth(c@, counts@) < bound,
            r@.len() == 0 ==> c@ == all_ones(n as nat),
            r@.len() > 0 ==> r@[0]@ == all_ones(n as nat),
            r@.len() > 0 ==> counter_step(r@.last()@, counts@) == Some(c@),
            forall|k: int|
                0 <= k < r@.len() - 1 ==> counter_step(#[trigger] r@[k]@, counts@) == Some(
                    r@[k + 1]@,
                ),
        ensures
            r@.len() > 0,
            r@[0]@ == all_ones(n as nat),
            counter_step(r@.last()@, counts@) is None,
            forall|k: int|
                0 <= k < r@.len() - 1 ==> counter_step(#[trigger] r@[k]@, counts@) == Some(
                    r@[k + 1]@,
                ),
        decreases bound - growth(c@, counts@),
    {
        let t = c.clone();
        assert(t@ =~= c@);
        let ghost r_old = r@;
        r.push(t);
        assert forall|k: int| 0 <= k < r@.len() - 1 implies counter_step(#[trigger] r@[k]@, counts@)
            == Some(r@[k + 1]@) by {
            if k < r_old.len() - 1 {
                assert(r@[k] == r_old[k]);
                assert(r@[k + 1] == r_old[k + 1]);
            } else {
                assert(r@[k] == r_old.last());
            }
        }
        let more = advance(&mut c, counts);
        if !more {
            break;
        }
        proof {
            lemma_growth_bound(c@, counts@, n as int);
        }
    }
    let ghost v = r@.map_values(|t: Vec<u32>| t@);
    assert forall|k: int| 0 <= k < v.len() - 1 implies counter_step(#[trigger] v[k], counts@) == Some(
        v[k + 1],
    ) by {
        assert(v[k] == r@[k]@);
    }
    r
}

// ── The iteration covers the cartesian product ─────────────────────────────

/// `Π counts[j]` over `j < i`.
pub open spec fn radix(counts: Seq<u32>, i: int) -> int
    decreases i,
{
    if i <= 0 {
        1
    } else {
        radix(counts, i - 1) * counts[i - 1]
    }
}

pub open spec fn radices(counts: Seq<u32>) -> Seq<int> {
    Seq::new(counts.len() + 1, |i: int| radix(counts, i))
}

/// The number of combinations: the product of the counts.
pub open spec fn product(counts: Seq<u32>) -> int {
    radix(counts, counts.len() as int)
}

/// The position of a combination in the iteration, read as a mixed-radix
/// number whose first counter is the least significant digit.
pub open spec fn rank(c: Seq<u32>, counts: Seq<u32>) -> int {
    wsum(c, 1, radices(counts), c.len() as int)
}

/// Every count is at least 1.
pub open spec fn counts_positive(counts: Seq<u32>) -> bool {
    forall|j: int| 0 <= j < counts.len() ==> #[trigger] counts[j] >= 1
}

proof fn lemma_radix_pos(counts: Seq<u32>, i: int)
    requires
        0 <= i <= counts.len(),
        counts_positive(counts),
    ensures
        radix(counts, i) >= 1,
    decreases i,
{
    if i > 0 {
        lemma_radix_pos(counts, i - 1);
        let r = radix(counts, i - 1);
        let k = counts[i - 1] as int;
        assert(r * k >= 1) by (nonlinear_arith)
            requires
                r >= 1,
                k >= 1,
        ;
    }
}

/// Counters of at least 1 give a sum of at least 0; counters within the
/// counts give less than the next radix.
proof fn lemma_rank_bounds(c: Seq<u32>, counts: Seq<u32>, i: int)
    requires
        c.len() == counts.len(),
        0 <= i <= c.len(),
        counts_positive(counts),
        forall|j: int| 0 <= j < c.len() ==> 1 <= #[trigger] c[j],
    ensures
        wsum(c, 1, radices(counts), i) >= 0,
        (forall|j: int| 0 <= j < c.len() ==> #[trigger] c[j] <= counts[j]) ==> wsum(
            c,
            1,
            radices(counts),
            i,
        ) <= radix(counts, i) - 1,
    decreases i,
{
    if i > 0 {
        lemma_rank_bounds(c, counts, i - 1);
        lemma_radix_pos(counts, i - 1);
        let s = wsum(c, 1, radices(counts), i - 1);
        let r = radix(counts, i - 1);
        let x = c[i - 1] as int;
        let k = counts[i - 1] as int;
        assert(radices(counts)[i - 1] == r);
        assert(s + (x - 1) * r >= 0) by (nonlinear_arith)
            requires
                s >= 0,
                x >= 1,
                r >= 1,
        ;
        if forall|j: int| 0 <= j < c.len() ==> #[trigger] c[j] <= counts[j] {
            assert(c[i - 1] <= counts[i - 1]);
            assert(s + (x - 1) * r <= r * k - 1) by (nonlinear_arith)
                requires
                    s <= r - 1,
                    1 <= x <= k,
                    r >= 1,
            ;
        }
    }
}

/// The sweep from position `i` keeps the rank, and a carry out of the last
/// counter means the rank has reached the product.
proof fn lemma_carry_rank(c: Seq<u32>, counts: Seq<u32>, i: int)
    requires
        c.len() == counts.len(),
        0 <= i <= c.len(),
        counts_positive(counts),
        counts_ok(counts),
        forall|j: int| 0 <= j < c.len() ==> 1 <= #[trigger] c[j],
        forall|j: int| 0 <= j < c.len() && j != i ==> #[trigger] c[j] <= counts[j],
        i < c.len() ==> c[i] <= counts[i] + 1,
    ensures
        carry_from(c, counts, i) matches Some(d) ==> in_caps(d, counts) && rank(d, counts) == rank(
            c,
            counts,
        ),
        carry_from(c, counts, i) is None ==> rank(c, counts) >= product(counts),
    decreases c.len() - i,
{
    let n = c.len() as int;
    let w = radices(counts);
    if i == n {
        assert forall|j: int| 0 <= j < c.len() implies 1 <= #[trigger] c[j] <= counter_cap(
            counts[j],
        ) by {
            assert(counts[j] >= 1);
        }
    } else if c[i] > counts[i] {
        assert(counts[i] >= 1);
        lemma_radix_pos(counts, i);
        let r = radix(counts, i);
        let k = counts[i] as int;
        assert(w[i] == r);
        assert(w[i + 1] == radix(counts, i + 1));
        assert(radix(counts, i + 1) == r * k);
        if i + 1 >= n {
            lemma_rank_bounds(c, counts, n - 1);
            let s = wsum(c, 1, w, n - 1);
            assert(s + (c[i] - 1) * r >= r * k) by (nonlinear_arith)
                requires
                    s >= 0,
                    c[i] - 1 == k,
            ;
        } else {
            let c1 = c.update(i, 1);
            let y = (c[i + 1] + 1) as u32;
            let c2 = c1.update(i + 1, y);
            assert(c[i + 1] <= counts[i + 1]);
            lemma_wsum_update(c, 1, w, i, 1, n);
            lemma_wsum_update(c1, 1, w, i + 1, y, n);
            let wn = w[i + 1];
            assert((1 - c[i]) * r + (y - c1[i + 1]) * wn == 0) by (nonlinear_arith)
                requires
                    c[i] == k + 1,
                    y - c1[i + 1] == 1,
                    wn == r * k,
            ;
            lemma_carry_rank(c2, counts, i + 1);
        }
    } else {
        lemma_carry_rank(c, counts, i + 1);
    }
}

/// With positive counts, each step from a combination within the counts
/// moves one rank up and stays within the counts, and the iteration ends
/// exactly at the last rank.
proof fn lemma_step_rank(c: Seq<u32>, counts: Seq<u32>)
    requires
        c.len() == counts.len(),
        c.len() > 0,
        counts_positive(counts),
        counts_ok(counts),
        in_caps(c, counts),
    ensures
        counter_step(c, counts) matches Some(d) ==> in_caps(d, counts) && rank(d, counts) == rank(
            c,
            counts,
        ) + 1,
        counter_step(c, counts) is None ==> rank(c, counts) == product(counts) - 1,
{
    let n = c.len() as int;
    let w = radices(counts);
    assert forall|j: int| 0 <= j < c.len() implies 1 <= #[trigger] c[j] <= counts[j] by {
        assert(counts[j] >= 1);
    }
    let y = (c[0] + 1) as u32;
    let start = c.update(0, y);
    lemma_wsum_update(c, 1, w, 0, y, n);
    assert(w[0] == 1);
    lemma_carry_rank(start, counts, 0);
    lemma_rank_bounds(c, counts, n);
}

/// Every counter at 1 has rank 0.
proof fn lemma_ones_rank(counts: Seq<u32>, i: int)
    requires
        0 <= i <= counts.len(),
    ensures
        wsum(all_ones(counts.len()), 1, radices(counts), i) == 0,
    decreases i,
{
    if i > 0 {
        lemma_ones_rank(counts, i - 1);
        let c = all_ones(counts.len());
        let wi = radices(counts)[i - 1];
        assert(c[i - 1] == 1);
        assert((c[i - 1] - 1) * wi == 0) by (nonlinear_arith)
            requires
                c[i - 1] == 1,
        ;
    }
}

proof fn lemma_run_ranks(tuples: Seq<Seq<u32>>, counts: Seq<u32>, k: int)
    requires
        counts.len() > 0,
        counts_positive(counts),
        counts_ok(counts),
        is_counter_run(tuples, counts),
        0 <= k < tuples.len(),
    ensures
        in_caps(tuples[k], counts),
        rank(tuples[k], counts) == k,
    decreases k,
{
    if k == 0 {
        lemma_ones_rank(counts, counts.len() as int);
        assert forall|j: int| 0 <= j < tuples[0].len() implies 1 <= #[trigger] tuples[0][j]
            <= counter_cap(counts[j]) by {
            assert(counts[j] >= 1);
        }
    } else {
        lemma_run_ranks(tuples, counts, k - 1);
        assert(counter_step(tuples[k - 1], counts) == Some(tuples[k]));
        lemma_step_rank(tuples[k - 1], counts);
    }
}

/// With every count at least 1, the combinations of a run are exactly as many
/// as the product of the counts, each within the counts, and the `k`-th has
/// rank `k`: the iteration visits the whole cartesian product, each
/// combination once, the first counter running fastest.
pub proof fn lemma_counter_run_is_product(tuples: Seq<Seq<u32>>, counts: Seq<u32>)
    requires
        counts.len() > 0,
        counts_positive(counts),
        counts_ok(counts),
        is_counter_run(tuples, counts),
    ensures
        tuples.len() == product(counts),
        forall|k: int|
            0 <= k < tuples.len() ==> in_caps(#[trigger] tuples[k], counts) && rank(tuples[k], counts)
                == k,
{
    assert forall|k: int| 0 <= k < tuples.len() implies in_caps(#[trigger] tuples[k], counts) && rank(
        tuples[k],
        counts,
    ) == k by {
        lemma_run_ranks(tuples, counts, k);
    }
    let last = tuples.len() - 1;
    lemma_run_ranks(tuples, counts, last);
    assert(tuples.last() == tuples[last]);
    lemma_step_rank(tuples[last], counts);
}

} // verus!
