use threshold_parmap::chunking::split_into_chunks;

#[test]
fn reference_partition_of_25_by_8() {
    let input: Vec<u8> = (1..=25).collect();
    let chunks = split_into_chunks(input.clone(), 8);
    assert_eq!(chunks.len(), 4);
    let sizes: Vec<usize> = chunks.iter().map(|c| c.len()).collect();
    assert_eq!(sizes, vec![8, 8, 8, 1]);
    let rebuilt: Vec<u8> = chunks.into_iter().flatten().collect();
    assert_eq!(rebuilt, input);
}

#[test]
fn exact_multiple_has_only_full_chunks() {
    let input: Vec<u8> = (1..=16).collect();
    let chunks = split_into_chunks(input.clone(), 8);
    assert_eq!(chunks.len(), 2);
    assert_eq!(chunks[0], (1..=8).collect::<Vec<u8>>());
    assert_eq!(chunks[1], (9..=16).collect::<Vec<u8>>());
}

#[test]
fn chunk_count_is_ceiling_of_len_over_size() {
    for (n, c, expected) in [
        (0usize, 8usize, 0usize),
        (1, 8, 1),
        (8, 8, 1),
        (9, 8, 2),
        (25, 8, 4),
        (24, 8, 3),
        (5, 1, 5),
        (7, 3, 3),
    ] {
        let input: Vec<usize> = (0..n).collect();
        let chunks = split_into_chunks(input, c);
        assert_eq!(chunks.len(), expected, "n={}, c={}", n, c);
        assert_eq!(chunks.len(), n.div_ceil(c));
    }
}

#[test]
fn empty_input_yields_no_chunks() {
    let chunks = split_into_chunks(Vec::<u32>::new(), 8);
    assert!(chunks.is_empty());
}

#[test]
fn chunks_keep_contiguous_order() {
    let input: Vec<u32> = (0..11).collect();
    let chunks = split_into_chunks(input.clone(), 4);
    assert_eq!(chunks.len(), 3);
    let mut next: u32 = 0;
    for chunk in &chunks {
        assert!(chunk.len() <= 4);
        assert!(!chunk.is_empty());
        for v in chunk {
            assert_eq!(*v, next);
            next += 1;
        }
    }
    assert_eq!(next, 11);
}
