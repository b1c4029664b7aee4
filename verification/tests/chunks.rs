use phonix::chunks::take_chunks;

#[test]
fn takes_complete_chunks_and_keeps_the_rest() {
    let mut pending = vec![1, 2];
    let chunks = take_chunks(&mut pending, &[3, 4, 5, 6, 7], 3);
    assert_eq!(chunks, vec![vec![1, 2, 3], vec![4, 5, 6]]);
    assert_eq!(pending, vec![7]);
    let chunks = take_chunks(&mut pending, &[8], 3);
    assert!(chunks.is_empty());
    assert_eq!(pending, vec![7, 8]);
}

#[test]
fn zero_size_takes_nothing() {
    let mut pending = vec![1];
    let chunks = take_chunks(&mut pending, &[2, 3], 0);
    assert!(chunks.is_empty());
    assert_eq!(pending, vec![1, 2, 3]);
}
