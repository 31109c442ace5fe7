use pong_evo::constants::TOTAL_WEIGHTS;
use pong_evo::genome::{crossover, crossover_with_mask, inject_genes, mutation_gene_index, random_mask};

#[test]
fn crossover_with_mask_takes_first_where_mask_holds() {
    let child = crossover_with_mask(&vec![1, 2, 3, 4], &vec![5, 6, 7, 8], &vec![true, false, true, false]);
    assert_eq!(child, vec![1, 6, 3, 8]);
    let all_first = crossover_with_mask(&vec![1, 2], &vec![3, 4], &vec![true, true]);
    assert_eq!(all_first, vec![1, 2]);
    let all_second = crossover_with_mask(&vec![1, 2], &vec![3, 4], &vec![false, false]);
    assert_eq!(all_second, vec![3, 4]);
    let empty: Vec<i32> = crossover_with_mask(&vec![], &vec![], &vec![]);
    assert!(empty.is_empty());
}

#[test]
fn random_crossover_keeps_each_gene_from_a_parent() {
    let first: Vec<u32> = (0..TOTAL_WEIGHTS as u32).collect();
    let second: Vec<u32> = (1000..1000 + TOTAL_WEIGHTS as u32).collect();
    let child = crossover(&first, &second);
    assert_eq!(child.len(), TOTAL_WEIGHTS);
    for i in 0..TOTAL_WEIGHTS {
        assert!(child[i] == first[i] || child[i] == second[i]);
    }
    assert_eq!(random_mask(9).len(), 9);
    assert!(random_mask(0).is_empty());
}

#[test]
fn mutation_gene_index_is_in_range() {
    for _ in 0..500 {
        assert!(mutation_gene_index() < TOTAL_WEIGHTS);
    }
}

#[test]
fn inject_genes_copies_donor() {
    let mut genome = vec![1, 2, 3];
    inject_genes(&mut genome, &vec![7, 8, 9]);
    assert_eq!(genome, vec![7, 8, 9]);
}
