//! Genetic-algorithm primitives over integer fitness values.
use vstd::prelude::*;

verus! {

/// Sum of a sequence of fitness values.
pub open spec fn seq_sum(s: Seq<usize>) -> int
    decreases s.len(),
{
    if s.len() == 0 {
        0
    } else {
        seq_sum(s.drop_last()) + s.last()
    }
}

/// Largest value of a sequence (0 for an empty one).
pub open spec fn seq_max(s: Seq<usize>) -> int
    decreases s.len(),
{
    if s.len() == 0 {
        0
    } else if seq_max(s.drop_last()) >= s.last() {
        seq_max(s.drop_last())
    } else {
        s.last() as int
    }
}

/// Smallest value of a non-empty sequence (0 for an empty one).
pub open spec fn seq_min(s: Seq<usize>) -> int
    decreases s.len(),
{
    if s.len() == 0 {
        0
    } else if s.len() == 1 {
        s[0] as int
    } else if seq_min(s.drop_last()) <= s.last() {
        seq_min(s.drop_last())
    } else {
        s.last() as int
    }
}

/// The fitness an individual is selected by: its satiation, or, when
/// selection pressure is reversed, the population's best satiation minus its own.
pub open spec fn selection_fitness(satiations: Seq<usize>, reverse: bool, i: int) -> int {
    if reverse {
        seq_max(satiations) - satiations[i]
    } else {
        satiations[i] as int
    }
}

pub proof fn lemma_max_bounds(s: Seq<usize>)
    ensures
        forall|i: int| 0 <= i < s.len() ==> s[i] <= seq_max(s),
        0 <= seq_max(s) <= usize::MAX,
        s.len() > 0 ==> exists|i: int| 0 <= i < s.len() && s[i] == seq_max(s),
    decreases s.len(),
{
    if s.len() > 0 {
        lemma_max_bounds(s.drop_last());
        assert forall|i: int| 0 <= i < s.len() implies s[i] <= seq_max(s) by {
            if i < s.len() - 1 {
                assert(s[i] == s.drop_last()[i]);
            }
        }
        if seq_max(s.drop_last()) >= s.last() && s.len() > 1 {
            let j = choose|j: int| 0 <= j < s.drop_last().len() && s.drop_last()[j] == seq_max(s.drop_last());
            assert(s[j] == seq_max(s));
        } else {
            assert(s[s.len() - 1] == seq_max(s));
        }
    }
}

pub proof fn lemma_min_bounds(s: Seq<usize>)
    requires
        s.len() > 0,
    ensures
        forall|i: int| 0 <= i < s.len() ==> seq_min(s) <= s[i],
        exists|i: int| 0 <= i < s.len() && s[i] == seq_min(s),
    decreases s.len(),
{
    if s.len() > 1 {
        lemma_min_bounds(s.drop_last());
        assert forall|i: int| 0 <= i < s.len() implies seq_min(s) <= s[i] by {
            if i < s.len() - 1 {
                assert(s[i] == s.drop_last()[i]);
            }
        }
        if seq_min(s.drop_last()) <= s.last() {
            let j = choose|j: int| 0 <= j < s.drop_last().len() && s.drop_last()[j] == seq_min(s.drop_last());
            assert(s[j] == seq_min(s));
        } else {
            assert(s[s.len() - 1] == seq_min(s));
        }
    } else {
        assert(s[0] == seq_min(s));
    }
}

proof fn lemma_sum_take_step(s: Seq<usize>, i: int)
    requires
        0 <= i < s.len(),
    ensures
        seq_sum(s.take(i + 1)) == seq_sum(s.take(i)) + s[i],
{
    assert(s.take(i + 1).drop_last() =~= s.take(i));
}

proof fn lemma_sum_prefix_le(s: Seq<usize>, k: int)
    requires
        0 <= k <= s.len(),
    ensures
        seq_sum(s.take(k)) <= seq_sum(s),
    decreases s.len(),
{
    if k < s.len() {
        assert(s.take(k) =~= s.drop_last().take(k));
        lemma_sum_prefix_le(s.drop_last(), k);
    } else {
        assert(s.take(k) =~= s);
    }
}

proof fn lemma_sum_bound(s: Seq<usize>)
    ensures
        0 <= seq_sum(s) <= s.len() * usize::MAX,
    decreases s.len(),
{
    if s.len() > 0 {
        lemma_sum_bound(s.drop_last());
        assert(seq_sum(s) <= (s.len() - 1) * usize::MAX + usize::MAX);
        assert((s.len() - 1) * usize::MAX + usize::MAX == s.len() * usize::MAX) by (nonlinear_arith);
    }
}

/// Aggregate fitness of one generation: smallest, largest and total
/// satiation over `count` individuals. The average is `sum / count`.
#[derive(Debug, Clone, Copy, PartialEq, Eq)]
pub struct FitnessStats {
    pub min: usize,
    pub max: usize,
    pub sum: u128,
    pub count: usize,
}

/// Snapshot of the fitness distribution of a population.
pub fn fitness_stats(satiations: &Vec<usize>) -> (r: FitnessStats)
    ensures
        r.count == satiations@.len(),
        r.min == seq_min(satiations@),
        r.max == seq_max(satiations@),
        r.sum == seq_sum(satiations@),
{
    let n = satiations.len();
    let mut min: usize = 0;
    let mut max: usize = 0;
    let mut sum: u128 = 0;
    let mut i: usize = 0;
    while i < n
        invariant
            n == satiations@.len(),
            0 <= i <= n,
            min == seq_min(satiations@.take(i as int)),
            max == seq_max(satiations@.take(i as int)),
            sum == seq_sum(satiations@.take(i as int)),
        decreases n - i,
    {
        let v = satiations[i];
        proof {
            let s = satiations@;
            assert(s.take(i + 1).drop_last() =~= s.take(i as int));
            lemma_sum_bound(s.take(i as int));
            assert(i * usize::MAX + usize::MAX <= u128::MAX) by (nonlinear_arith)
                requires i <= usize::MAX;
        }
        if i == 0 || v < min {
            min = v;
        }
        if v > max {
            max = v;
        }
        sum = sum + v as u128;
        i = i + 1;
    }
    proof {
        assert(satiations@.take(n as int) =~= satiations@);
    }
    FitnessStats { min, max, sum, count: n }
}

/// For a non-empty population the reported fitness figures are ordered:
/// `min <= sum / count <= max`, written without division.
pub proof fn lemma_fitness_stats_ordered(s: Seq<usize>)
    requires
        s.len() > 0,
    ensures
        seq_min(s) <= seq_max(s),
        seq_min(s) * s.len() <= seq_sum(s),
        seq_sum(s) <= seq_max(s) * s.len(),
    decreases s.len(),
{
    lemma_min_bounds(s);
    lemma_max_bounds(s);
    if s.len() == 1 {
        assert(s.drop_last().len() == 0);
        assert(seq_sum(s.drop_last()) == 0);
        assert(seq_sum(s) == s[0]);
        assert(seq_min(s) == s[0]);
        assert(seq_max(s) == s[0]) by {
            assert(s.drop_last().len() == 0);
        }
    }
    if s.len() > 1 {
        let t = s.drop_last();
        lemma_fitness_stats_ordered(t);
        lemma_min_bounds(t);
        lemma_max_bounds(t);
        assert(seq_min(s) <= seq_min(t));
        assert(seq_max(t) <= seq_max(s));
        assert(seq_min(s) <= s.last() <= seq_max(s));
        let n = t.len() as int;
        assert(seq_min(s) * n <= seq_min(t) * n) by (nonlinear_arith)
            requires seq_min(s) <= seq_min(t), n >= 0;
        assert(seq_max(t) * n <= seq_max(s) * n) by (nonlinear_arith)
            requires seq_max(t) <= seq_max(s), n >= 0;
        assert(seq_min(s) * (n + 1) == seq_min(s) * n + seq_min(s)) by (nonlinear_arith);
        assert(seq_max(s) * (n + 1) == seq_max(s) * n + seq_max(s)) by (nonlinear_arith);
        assert(seq_sum(s) == seq_sum(t) + s.last());
        assert(s.len() == n + 1);
    }
}

/// The fitness values that selection works on (see `selection_fitness`).
pub fn fitness_values(satiations: &Vec<usize>, reverse: bool) -> (r: Vec<usize>)
    ensures
        r@.len() == satiations@.len(),
        forall|i: int| 0 <= i < r@.len() ==> r@[i] == selection_fitness(satiations@, reverse, i),
{
    let best = fitness_stats(satiations).max;
    proof {
        lemma_max_bounds(satiations@);
    }
    let mut r: Vec<usize> = Vec::new();
    let mut i: usize = 0;
    while i < satiations.len()
        invariant
            best == seq_max(satiations@),
            forall|k: int| 0 <= k < satiations@.len() ==> satiations@[k] <= best,
            0 <= i <= satiations@.len(),
            r@.len() == i,
            forall|k: int| 0 <= k < i ==> r@[k] == selection_fitness(satiations@, reverse, k),
        decreases satiations@.len() - i,
    {
        let v = satiations[i];
        proof {
            assert(satiations@[i as int] <= best);
        }
        if reverse {
            r.push(best - v);
        } else {
            r.push(v);
        }
        i = i + 1;
    }
    r
}

/// Total of all fitness values: the width of the roulette wheel.
pub fn total_fitness(fitness: &Vec<usize>) -> (r: u128)
    ensures
        r == seq_sum(fitness@),
{
    fitness_stats(fitness).sum
}

/// Width of the roulette wheel: the total fitness, or one slot per
/// individual when every fitness is zero.
pub open spec fn wheel(fitness: Seq<usize>) -> int {
    if seq_sum(fitness) > 0 {
        seq_sum(fitness)
    } else {
        fitness.len() as int
    }
}

/// Width of the roulette wheel. Draws for `roulette_select` are taken from
/// `0..wheel_width(fitness)`.
pub fn wheel_width(fitness: &Vec<usize>) -> (r: u128)
    ensures
        r == wheel(fitness@),
{
    let total = total_fitness(fitness);
    if total > 0 {
        total
    } else {
        fitness.len() as u128
    }
}

/// Whether index `i` owns the slot `draw` on the roulette wheel: slots are
/// laid out in population order, each as wide as the individual's fitness.
/// When every fitness is zero the wheel is uniform, one slot per individual.
pub open spec fn owns_slot(fitness: Seq<usize>, draw: int, i: int) -> bool {
    &&& 0 <= i < fitness.len()
    &&& if seq_sum(fitness) > 0 {
        seq_sum(fitness.take(i)) <= draw < seq_sum(fitness.take(i + 1))
    } else {
        draw == i
    }
}

/// Roulette-wheel (fitness-proportionate) selection for a given `draw`
/// from `0..total_fitness(fitness)`, or from `0..fitness.len()` when the
/// total is zero.
pub fn roulette_select(fitness: &Vec<usize>, draw: u128) -> (r: usize)
    requires
        fitness@.len() > 0,
        draw < wheel(fitness@),
    ensures
        owns_slot(fitness@, draw as int, r as int),
{
    let total = total_fitness(fitness);
    let n = fitness.len();
    if total == 0 {
        let r = draw as usize;
        assert(r == draw);
        return r;
    }
    let mut acc: u128 = 0;
    let mut i: usize = 0;
    while i < n
        invariant
            n == fitness@.len(),
            total == seq_sum(fitness@),
            draw < total,
            0 <= i <= n,
            acc == seq_sum(fitness@.take(i as int)),
            acc <= draw,
        decreases n - i,
    {
        proof {
            lemma_sum_take_step(fitness@, i as int);
            lemma_sum_prefix_le(fitness@, i + 1);
        }
        let next = acc + fitness[i] as u128;
        if draw < next {
            return i;
        }
        acc = next;
        i = i + 1;
    }
    proof {
        assert(fitness@.take(n as int) =~= fitness@);
    }
    0
}

/// Uniform crossover: gene `i` of the child comes from `a` where
/// `from_a[i]` holds, else from `b`.
pub fn uniform_crossover<T: Copy>(a: &Vec<T>, b: &Vec<T>, from_a: &Vec<bool>) -> (child: Vec<T>)
    requires
        a@.len() == b@.len(),
        from_a@.len() == a@.len(),
    ensures
        child@.len() == a@.len(),
        forall|i: int| 0 <= i < child@.len() ==> child@[i] == (if from_a@[i] { a@[i] } else { b@[i] }),
{
    let mut child: Vec<T> = Vec::new();
    let mut i: usize = 0;
    while i < a.len()
        invariant
            a@.len() == b@.len(),
            from_a@.len() == a@.len(),
            0 <= i <= a@.len(),
            child@.len() == i,
            forall|k: int| 0 <= k < i ==> child@[k] == (if from_a@[k] { a@[k] } else { b@[k] }),
        decreases a@.len() - i,
    {
        if from_a[i] {
            child.push(a[i]);
        } else {
            child.push(b[i]);
        }
        i = i + 1;
    }
    child
}

/// The child that uniform crossover makes of `a` and `b` with choices `from_a`.
pub open spec fn crossed<T>(a: Seq<T>, b: Seq<T>, from_a: Seq<bool>) -> Seq<T> {
    Seq::new(a.len(), |i: int| if from_a[i] { a[i] } else { b[i] })
}

/// Whether `child` is the uniform crossover, with choices `mask`, of the
/// parents that own the wheel slots `draws.0` and `draws.1`.
pub open spec fn bred_from<T>(
    parents: Seq<Vec<T>>,
    fitness: Seq<usize>,
    draws: (u128, u128),
    mask: Seq<bool>,
    child: Seq<T>,
) -> bool {
    exists|a: int, b: int|
        #[trigger] owns_slot(fitness, draws.0 as int, a) && #[trigger] owns_slot(fitness, draws.1 as int, b)
            && child == crossed(parents[a]@, parents[b]@, mask)
}

/// Each slot of the wheel belongs to one individual only.
pub proof fn lemma_slot_owner_unique(fitness: Seq<usize>, draw: int, i: int, j: int)
    requires
        owns_slot(fitness, draw, i),
        owns_slot(fitness, draw, j),
    ensures
        i == j,
{
    if seq_sum(fitness) > 0 && i != j {
        let (lo, hi) = if i < j { (i, j) } else { (j, i) };
        lemma_prefix_monotone(fitness, lo + 1, hi);
    }
}

proof fn lemma_prefix_monotone(s: Seq<usize>, a: int, b: int)
    requires
        0 <= a <= b <= s.len(),
    ensures
        seq_sum(s.take(a)) <= seq_sum(s.take(b)),
    decreases b - a,
{
    if a < b {
        lemma_sum_take_step(s, b - 1);
        lemma_prefix_monotone(s, a, b - 1);
    }
}

/// The offspring of one generation before mutation: child `k` is the
/// uniform crossover, with choices `masks[k]`, of the parents that own the
/// wheel slots `draws[k].0` and `draws[k].1`.
pub fn breed<T: Copy>(
    parents: &Vec<Vec<T>>,
    fitness: &Vec<usize>,
    draws: &Vec<(u128, u128)>,
    masks: &Vec<Vec<bool>>,
) -> (children: Vec<Vec<T>>)
    requires
        parents@.len() == fitness@.len(),
        fitness@.len() > 0,
        forall|i: int| 0 <= i < parents@.len() ==> (#[trigger] parents@[i])@.len() == parents@[0]@.len(),
        draws@.len() == masks@.len(),
        forall|k: int| 0 <= k < draws@.len() ==> (#[trigger] draws@[k]).0 < wheel(fitness@) && draws@[k].1 < wheel(fitness@),
        forall|k: int| 0 <= k < masks@.len() ==> (#[trigger] masks@[k])@.len() == parents@[0]@.len(),
    ensures
        children@.len() == draws@.len(),
        forall|k: int| 0 <= k < children@.len() ==> bred_from(
            parents@,
            fitness@,
            draws@[k],
            masks@[k]@,
            #[trigger] children@[k]@,
        ),
{
    let mut children: Vec<Vec<T>> = Vec::new();
    let mut k: usize = 0;
    while k < draws.len()
        invariant
            parents@.len() == fitness@.len(),
            fitness@.len() > 0,
            forall|i: int| 0 <= i < parents@.len() ==> (#[trigger] parents@[i])@.len() == parents@[0]@.len(),
            draws@.len() == masks@.len(),
            forall|k: int| 0 <= k < draws@.len() ==> (#[trigger] draws@[k]).0 < wheel(fitness@) && draws@[k].1 < wheel(fitness@),
            forall|k: int| 0 <= k < masks@.len() ==> (#[trigger] masks@[k])@.len() == parents@[0]@.len(),
            0 <= k <= draws@.len(),
            children@.len() == k,
            forall|c: int| 0 <= c < k ==> bred_from(
                parents@,
                fitness@,
                draws@[c],
                masks@[c]@,
                #[trigger] children@[c]@,
            ),
        decreases draws@.len() - k,
    {
        let (da, db) = draws[k];
        let a = roulette_select(fitness, da);
        let b = roulette_select(fitness, db);
        assert(parents@[a as int]@.len() == parents@[0]@.len());
        assert(parents@[b as int]@.len() == parents@[0]@.len());
        assert(masks@[k as int]@.len() == parents@[0]@.len());
        let child = uniform_crossover(&parents[a], &parents[b], &masks[k]);
        proof {
            assert(child@ =~= crossed(parents@[a as int]@, parents@[b as int]@, masks@[k as int]@));
        }
        let ghost before = children@;
        children.push(child);
        proof {
            assert(owns_slot(fitness@, da as int, a as int) && owns_slot(fitness@, db as int, b as int));
            assert(bred_from(parents@, fitness@, draws@[k as int], masks@[k as int]@, child@));
            assert forall|c: int| 0 <= c < k + 1 implies bred_from(
                parents@,
                fitness@,
                draws@[c],
                masks@[c]@,
                #[trigger] children@[c]@,
            ) by {
                if c < k {
                    assert(children@[c] == before[c]);
                }
            }
        }
        k = k + 1;
    }
    children
}

} // verus!
