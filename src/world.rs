//! The population of one generation: animals and foods.
use vstd::prelude::*;

verus! {

/// An animal: a body that the host moves and senses with, and the number of
/// foods it has eaten during the current generation.
#[derive(Debug, Clone)]
pub struct Animal<B> {
    pub body: B,
    pub satiation: usize,
}

/// Animals and foods of the arena. Their order is stable within a
/// generation and only used for iteration.
#[derive(Debug, Clone)]
pub struct World<B, F> {
    pub animals: Vec<Animal<B>>,
    pub foods: Vec<F>,
}

impl<B, F> World<B, F> {
    pub open spec fn animals_spec(&self) -> Seq<Animal<B>> {
        self.animals@
    }

    pub open spec fn foods_spec(&self) -> Seq<F> {
        self.foods@
    }

    /// Satiation of every animal, in order.
    pub open spec fn satiations_spec(&self) -> Seq<usize> {
        self.animals_spec().map_values(|a: Animal<B>| a.satiation)
    }

    pub fn animals(&self) -> (r: &[Animal<B>])
        ensures
            r@ == self.animals_spec(),
    {
        self.animals.as_slice()
    }

    pub fn foods(&self) -> (r: &[F])
        ensures
            r@ == self.foods_spec(),
    {
        self.foods.as_slice()
    }

    /// Satiation of every animal, in order.
    pub fn satiations(&self) -> (r: Vec<usize>)
        ensures
            r@ == self.satiations_spec(),
    {
        let mut r: Vec<usize> = Vec::new();
        let mut i: usize = 0;
        while i < self.animals.len()
            invariant
                0 <= i <= self.animals@.len(),
                r@ == self.animals@.take(i as int).map_values(|a: Animal<B>| a.satiation),
            decreases self.animals@.len() - i,
        {
            r.push(self.animals[i].satiation);
            i = i + 1;
            proof {
                assert(r@ =~= self.animals@.take(i as int).map_values(|a: Animal<B>| a.satiation));
            }
        }
        proof {
            assert(self.animals@.take(i as int) =~= self.animals@);
        }
        r
    }
}

} // verus!
