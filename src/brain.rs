//! A feed-forward network's weights and their flat chromosome encoding.
//!
//! A network of layer sizes `t[0], t[1], ..., t[n-1]` has, for every layer
//! `l >= 1`, `t[l]` neurons, each holding a bias followed by `t[l-1]` input
//! weights. The chromosome lists the neurons layer by layer, and within a
//! neuron its bias first and then its weights in input order.
use vstd::prelude::*;

verus! {

/// Number of inputs of each neuron, over all layers in order.
pub open spec fn neuron_inputs(t: Seq<usize>) -> Seq<usize>
    decreases t.len(),
{
    if t.len() < 2 {
        Seq::empty()
    } else {
        neuron_inputs(t.drop_last()) + Seq::new(t.last() as nat, |_i: int| t[t.len() - 2])
    }
}

/// Number of parameters (bias and weights) of neurons with the given inputs.
pub open spec fn param_count(inputs: Seq<usize>) -> int
    decreases inputs.len(),
{
    if inputs.len() == 0 {
        0
    } else {
        param_count(inputs.drop_last()) + inputs.last() + 1
    }
}

/// Concatenation of the parameter lists of a sequence of neurons.
pub open spec fn flat<W>(ns: Seq<Seq<W>>) -> Seq<W>
    decreases ns.len(),
{
    if ns.len() == 0 {
        Seq::empty()
    } else {
        flat(ns.drop_last()) + ns.last()
    }
}

/// Whether the neurons' parameter lists have the sizes that `inputs` asks for.
pub open spec fn fits<W>(ns: Seq<Seq<W>>, inputs: Seq<usize>) -> bool {
    &&& ns.len() == inputs.len()
    &&& forall|i: int| 0 <= i < ns.len() ==> #[trigger] ns[i].len() == inputs[i] + 1
}

/// Error of decoding a chromosome whose length is not the network's
/// parameter count.
#[derive(Debug, Clone, Copy, PartialEq, Eq, Structural)]
pub enum ChromosomeError {
    LengthMismatch,
}

/// Weights of a feed-forward network with a fixed topology.
#[derive(Debug, Clone)]
pub struct Brain<W> {
    topology: Vec<usize>,
    neurons: Vec<Vec<W>>,
}

impl<W> View for Brain<W> {
    type V = (Seq<usize>, Seq<Seq<W>>);

    closed spec fn view(&self) -> (Seq<usize>, Seq<Seq<W>>) {
        (self.topology@, self.neurons@.map_values(|v: Vec<W>| v@))
    }
}

impl<W> Brain<W> {
    /// The neurons' parameter lists match the topology.
    pub open spec fn shaped(&self) -> bool {
        fits(self@.1, neuron_inputs(self@.0))
    }

    /// The flat weight sequence of this brain.
    pub open spec fn chromosome(&self) -> Seq<W> {
        flat(self@.1)
    }

    /// Layer sizes, input layer first.
    pub fn topology(&self) -> (r: &Vec<usize>)
        ensures
            r@ == self@.0,
    {
        &self.topology
    }

    /// Parameter lists of all neurons, layer by layer; each is a bias
    /// followed by one weight per input.
    pub fn neurons(&self) -> (r: &Vec<Vec<W>>)
        ensures
            r@.map_values(|v: Vec<W>| v@) == self@.1,
    {
        &self.neurons
    }
}

/// Number of inputs of each neuron of a network with layer sizes `topology`.
pub fn neuron_input_counts(topology: &Vec<usize>) -> (r: Vec<usize>)
    ensures
        r@ == neuron_inputs(topology@),
{
    let mut r: Vec<usize> = Vec::new();
    let mut l: usize = 1;
    if topology.len() < 2 {
        return r;
    }
    while l < topology.len()
        invariant
            1 <= l <= topology@.len(),
            r@ == neuron_inputs(topology@.take(l as int)),
        decreases topology@.len() - l,
    {
        let width = topology[l];
        let inputs = topology[l - 1];
        let ghost before = r@;
        let mut j: usize = 0;
        while j < width
            invariant
                l < topology@.len(),
                width == topology@[l as int],
                inputs == topology@[l - 1],
                0 <= j <= width,
                r@ == before + Seq::new(j as nat, |_i: int| inputs),
            decreases width - j,
        {
            r.push(inputs);
            j = j + 1;
            proof {
                assert(r@ =~= before + Seq::new(j as nat, |_i: int| inputs));
            }
        }
        proof {
            let t = topology@.take(l + 1);
            assert(t.drop_last() =~= topology@.take(l as int));
            assert(t.last() == width);
            assert(t[t.len() - 2] == inputs);
            assert(r@ =~= neuron_inputs(t));
        }
        l = l + 1;
    }
    proof {
        assert(topology@.take(l as int) =~= topology@);
    }
    r
}

proof fn lemma_param_count_step(s: Seq<usize>, k: int)
    requires
        0 <= k < s.len(),
    ensures
        param_count(s.take(k + 1)) == param_count(s.take(k)) + s[k] + 1,
{
    assert(s.take(k + 1).drop_last() =~= s.take(k));
}

proof fn lemma_param_count_prefix(s: Seq<usize>, k: int)
    requires
        0 <= k <= s.len(),
    ensures
        param_count(s.take(k)) <= param_count(s),
    decreases s.len(),
{
    if k < s.len() {
        assert(s.take(k) =~= s.drop_last().take(k));
        lemma_param_count_prefix(s.drop_last(), k);
    } else {
        assert(s.take(k) =~= s);
    }
}

proof fn lemma_flat_push<W>(ns: Seq<Seq<W>>, v: Seq<W>)
    ensures
        flat(ns.push(v)) == flat(ns) + v,
{
    assert(ns.push(v).drop_last() =~= ns);
}

proof fn lemma_flat_len<W>(ns: Seq<Seq<W>>, inputs: Seq<usize>)
    requires
        fits(ns, inputs),
    ensures
        flat(ns).len() == param_count(inputs),
    decreases ns.len(),
{
    if ns.len() > 0 {
        let m = ns.len() - 1;
        assert(ns[m].len() == inputs[m] + 1);
        assert forall|i: int| 0 <= i < ns.drop_last().len() implies #[trigger] ns.drop_last()[i].len() == inputs.drop_last()[i] + 1 by {
            assert(ns[i].len() == inputs[i] + 1);
        }
        lemma_flat_len(ns.drop_last(), inputs.drop_last());
    }
}

proof fn lemma_fits_drop_last<W>(ns: Seq<Seq<W>>, inputs: Seq<usize>)
    requires
        fits(ns, inputs),
        ns.len() > 0,
    ensures
        fits(ns.drop_last(), inputs.drop_last()),
{
    assert forall|i: int| 0 <= i < ns.drop_last().len() implies #[trigger] ns.drop_last()[i].len() == inputs.drop_last()[i] + 1 by {
        assert(ns[i].len() == inputs[i] + 1);
    }
}

proof fn lemma_flat_injective<W>(xs: Seq<Seq<W>>, ys: Seq<Seq<W>>, inputs: Seq<usize>)
    requires
        fits(xs, inputs),
        fits(ys, inputs),
        flat(xs) == flat(ys),
    ensures
        xs == ys,
    decreases xs.len(),
{
    if xs.len() > 0 {
        lemma_fits_drop_last(xs, inputs);
        lemma_fits_drop_last(ys, inputs);
        lemma_flat_len(xs.drop_last(), inputs.drop_last());
        lemma_flat_len(ys.drop_last(), inputs.drop_last());
        let fx = flat(xs.drop_last());
        let fy = flat(ys.drop_last());
        let whole = flat(xs);
        assert(fx =~= whole.subrange(0, fx.len() as int));
        assert(fy =~= whole.subrange(0, fx.len() as int));
        assert(xs.last() =~= whole.subrange(fx.len() as int, whole.len() as int));
        assert(ys.last() =~= whole.subrange(fx.len() as int, whole.len() as int));
        lemma_flat_injective(xs.drop_last(), ys.drop_last(), inputs.drop_last());
        assert(xs =~= xs.drop_last().push(xs.last()));
        assert(ys =~= ys.drop_last().push(ys.last()));
    } else {
        assert(xs =~= ys);
    }
}

/// Chromosome round trip: the chromosome of a well-shaped brain has exactly
/// the parameter count of its topology, so decoding it with that topology
/// succeeds; and any well-shaped brain of that topology decoded from it is
/// the encoded brain, weight for weight.
pub proof fn lemma_chromosome_round_trip<W>(b: Brain<W>, decoded: Brain<W>)
    requires
        b.shaped(),
        decoded.shaped(),
        decoded@.0 == b@.0,
        decoded.chromosome() == b.chromosome(),
    ensures
        b.chromosome().len() == param_count(neuron_inputs(b@.0)),
        decoded@ == b@,
{
    lemma_flat_len(b@.1, neuron_inputs(b@.0));
    lemma_flat_injective(decoded@.1, b@.1, neuron_inputs(b@.0));
}

/// Length of the chromosome of a network with layer sizes `topology`, or
/// `None` when it does not fit in a `usize`.
pub fn parameter_count(topology: &Vec<usize>) -> (r: Option<usize>)
    ensures
        r matches Some(c) ==> c == param_count(neuron_inputs(topology@)),
        r is None ==> param_count(neuron_inputs(topology@)) > usize::MAX,
{
    let inputs = neuron_input_counts(topology);
    let mut total: usize = 0;
    let mut k: usize = 0;
    while k < inputs.len()
        invariant
            inputs@ == neuron_inputs(topology@),
            0 <= k <= inputs@.len(),
            total == param_count(inputs@.take(k as int)),
        decreases inputs@.len() - k,
    {
        proof {
            lemma_param_count_step(inputs@, k as int);
            lemma_param_count_prefix(inputs@, k + 1);
        }
        let m = inputs[k];
        if total >= usize::MAX - m {
            return None;
        }
        total = total + m + 1;
        k = k + 1;
    }
    proof {
        assert(inputs@.take(k as int) =~= inputs@);
    }
    Some(total)
}

impl<W: Copy> Brain<W> {
    /// Flattens all weights into one sequence, in the canonical order.
    pub fn as_chromosome(&self) -> (r: Vec<W>)
        ensures
            r@ == self.chromosome(),
    {
        let mut r: Vec<W> = Vec::new();
        let mut k: usize = 0;
        while k < self.neurons.len()
            invariant
                0 <= k <= self@.1.len(),
                r@ == flat(self@.1.take(k as int)),
            decreases self@.1.len() - k,
        {
            let neuron = &self.neurons[k];
            let ghost before = r@;
            let mut j: usize = 0;
            while j < neuron.len()
                invariant
                    r@ == before + neuron@.take(j as int),
                    0 <= j <= neuron@.len(),
                decreases neuron@.len() - j,
            {
                r.push(neuron[j]);
                j = j + 1;
                proof {
                    assert(r@ =~= before + neuron@.take(j as int));
                }
            }
            proof {
                assert(neuron@.take(j as int) =~= neuron@);
                assert(self@.1[k as int] == neuron@);
                assert(self@.1.take(k + 1) =~= self@.1.take(k as int).push(neuron@));
                lemma_flat_push(self@.1.take(k as int), neuron@);
            }
            k = k + 1;
        }
        proof {
            assert(self@.1.take(k as int) =~= self@.1);
        }
        r
    }

    /// Rebuilds a brain of the given topology from a chromosome, consuming
    /// it in the order `as_chromosome` writes. Fails when the chromosome's
    /// length is not the topology's parameter count.
    pub fn from_chromosome(topology: &Vec<usize>, chromosome: &Vec<W>) -> (r: Result<Brain<W>, ChromosomeError>)
        ensures
            r.is_ok() <==> chromosome@.len() == param_count(neuron_inputs(topology@)),
            r matches Ok(b) ==> b@.0 == topology@ && b.shaped() && b.chromosome() == chromosome@,
    {
        let inputs = neuron_input_counts(topology);
        let n = chromosome.len();
        let mut neurons: Vec<Vec<W>> = Vec::new();
        let mut pos: usize = 0;
        let mut k: usize = 0;
        while k < inputs.len()
            invariant
                inputs@ == neuron_inputs(topology@),
                n == chromosome@.len(),
                0 <= k <= inputs@.len(),
                pos == param_count(inputs@.take(k as int)),
                pos <= n,
                fits(neurons@.map_values(|v: Vec<W>| v@), inputs@.take(k as int)),
                flat(neurons@.map_values(|v: Vec<W>| v@)) == chromosome@.take(pos as int),
            decreases inputs@.len() - k,
        {
            let m = inputs[k];
            proof {
                lemma_param_count_step(inputs@, k as int);
                lemma_param_count_prefix(inputs@, k + 1);
            }
            if pos >= n || n - pos - 1 < m {
                return Err(ChromosomeError::LengthMismatch);
            }
            let mut neuron: Vec<W> = Vec::new();
            let mut j: usize = 0;
            while j <= m
                invariant
                    pos + m < n,
                    n == chromosome@.len(),
                    0 <= j <= m + 1,
                    neuron@ == chromosome@.subrange(pos as int, pos + j),
                decreases m + 1 - j,
            {
                neuron.push(chromosome[pos + j]);
                j = j + 1;
                proof {
                    assert(neuron@ =~= chromosome@.subrange(pos as int, pos + j));
                }
            }
            let ghost old_views = neurons@.map_values(|v: Vec<W>| v@);
            neurons.push(neuron);
            proof {
                let views = neurons@.map_values(|v: Vec<W>| v@);
                assert(views =~= old_views.push(neuron@));
                lemma_flat_push(old_views, neuron@);
                assert(chromosome@.take(pos + m + 1) =~= chromosome@.take(pos as int) + neuron@);
                let it = inputs@.take(k + 1);
                assert forall|i: int| 0 <= i < views.len() implies #[trigger] views[i].len() == it[i] + 1 by {
                    if i < k {
                        assert(views[i] == old_views[i]);
                        assert(old_views[i].len() == inputs@.take(k as int)[i] + 1);
                    }
                }
            }
            pos = pos + m + 1;
            k = k + 1;
        }
        proof {
            assert(inputs@.take(k as int) =~= inputs@);
        }
        if pos != n {
            return Err(ChromosomeError::LengthMismatch);
        }
        proof {
            assert(chromosome@.take(pos as int) =~= chromosome@);
        }
        Ok(Brain { topology: topology.clone(), neurons })
    }
}

} // verus!
