//! Genetic operators on genomes, independent of what a gene holds.
use crate::constants::TOTAL_WEIGHTS;
use crate::random::{random_bool, random_index};
use vstd::prelude::*;

verus! {

/// The child of uniform crossover: gene `i` comes from the first parent where
/// `mask[i]` holds and from the second parent elsewhere.
pub open spec fn uniform_child<T>(first: Seq<T>, second: Seq<T>, mask: Seq<bool>) -> Seq<T> {
    Seq::new(mask.len(), |i: int| if mask[i] { first[i] } else { second[i] })
}

/// Uniform crossover of two parents for a given choice of genes.
pub fn crossover_with_mask<T: Copy>(first: &Vec<T>, second: &Vec<T>, mask: &Vec<bool>) -> (child: Vec<T>)
    requires
        first.len() == mask.len(),
        second.len() == mask.len(),
    ensures
        child@ == uniform_child(first@, second@, mask@),
{
    let mut child: Vec<T> = Vec::new();
    let mut i: usize = 0;
    while i < mask.len()
        invariant
            i <= mask.len(),
            first.len() == mask.len(),
            second.len() == mask.len(),
            child@ == uniform_child(first@, second@, mask@).take(i as int),
        decreases mask.len() - i,
    {
        let gene = if mask[i] { first[i] } else { second[i] };
        child.push(gene);
        i = i + 1;
        assert(child@ =~= uniform_child(first@, second@, mask@).take(i as int));
    }
    assert(uniform_child(first@, second@, mask@).take(i as int) =~= uniform_child(
        first@,
        second@,
        mask@,
    ));
    child
}

/// `len` fair coin flips.
pub fn random_mask(len: usize) -> (mask: Vec<bool>)
    ensures
        mask.len() == len,
{
    let mut mask: Vec<bool> = Vec::new();
    while mask.len() < len
        invariant
            mask.len() <= len,
        decreases len - mask.len(),
    {
        mask.push(random_bool());
    }
    mask
}

/// Uniform crossover of two parents: each gene of the child is taken from
/// one parent or the other by a fair coin flip.
pub fn crossover<T: Copy>(first: &Vec<T>, second: &Vec<T>) -> (child: Vec<T>)
    requires
        first.len() == second.len(),
    ensures
        child.len() == first.len(),
        forall|i: int| 0 <= i < child.len() ==> #[trigger] child[i] == first[i] || child[i] == second[i],
{
    let mask = random_mask(first.len());
    crossover_with_mask(first, second, &mask)
}

/// The gene perturbed by the C++-equivalent mutation: one index of the
/// genome, drawn uniformly.
pub fn mutation_gene_index() -> (i: usize)
    ensures
        i < TOTAL_WEIGHTS,
{
    random_index(TOTAL_WEIGHTS)
}

/// A genome in which every gene of `genome` is replaced by the gene of `donor`
/// at the same place.
pub fn inject_genes<T: Copy>(genome: &mut Vec<T>, donor: &Vec<T>)
    requires
        old(genome).len() == donor.len(),
    ensures
        final(genome)@ == donor@,
{
    let mut i: usize = 0;
    while i < donor.len()
        invariant
            i <= donor.len(),
            genome.len() == donor.len(),
            forall|k: int| 0 <= k < i ==> genome[k] == donor[k],
        decreases donor.len() - i,
    {
        genome.set(i, donor[i]);
        i = i + 1;
    }
    assert(genome@ =~= donor@);
}

} // verus!
