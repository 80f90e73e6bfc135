use backprop::Indexer;

#[test]
fn index_test() {
    let k: &[usize] = &[2, 3];
    let mut indexer: Indexer = Indexer::new(k);
    assert_eq!(indexer.next(), Some(vec![0usize, 0]));
    assert_eq!(indexer.next(), Some(vec![0usize, 1]));
    assert_eq!(indexer.next(), Some(vec![0usize, 2]));
    assert_eq!(indexer.next(), Some(vec![1usize, 0]));
    assert_eq!(indexer.next(), Some(vec![1usize, 1]));
    assert_eq!(indexer.next(), Some(vec![1usize, 2]));
    assert_eq!(indexer.next(), None);
    assert_eq!(indexer.next(), None);
}

#[test]
fn index_single_axis() {
    let mut indexer = Indexer::new(&[3]);
    assert_eq!(indexer.next(), Some(vec![0]));
    assert_eq!(indexer.next(), Some(vec![1]));
    assert_eq!(indexer.next(), Some(vec![2]));
    assert_eq!(indexer.next(), None);
}

#[test]
fn index_rank_three() {
    let mut indexer = Indexer::new(&[2, 1, 2]);
    let mut seen = vec![];
    while let Some(c) = indexer.next() {
        seen.push(c);
    }
    assert_eq!(
        seen,
        vec![vec![0, 0, 0], vec![0, 0, 1], vec![1, 0, 0], vec![1, 0, 1]]
    );
}

#[test]
fn index_unit_shape() {
    let mut unit = Indexer::new(&[1, 1]);
    assert_eq!(unit.next(), Some(vec![0, 0]));
    assert_eq!(unit.next(), None);
}
