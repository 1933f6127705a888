use rush::error::RushError;
use rush::partition::{partition, partition_by_count, partition_by_size, PieceSpec, Range};

fn lengths(ranges: &[Range]) -> Vec<usize> {
    ranges.iter().map(|r| r.len()).collect()
}

#[test]
fn count_front_loads_the_remainder() {
    let ranges = partition_by_count(10, 3).unwrap();
    assert_eq!(
        ranges,
        vec![
            Range { start: 0, end: 4 },
            Range { start: 4, end: 7 },
            Range { start: 7, end: 10 },
        ]
    );
    assert_eq!(lengths(&ranges), vec![4, 3, 3]);
}

#[test]
fn count_of_zero_is_invalid() {
    assert_eq!(partition_by_count(10, 0), Err(RushError::InvalidArgument));
    assert_eq!(partition_by_count(0, 0), Err(RushError::InvalidArgument));
}

#[test]
fn count_divides_evenly() {
    let ranges = partition_by_count(100, 2).unwrap();
    assert_eq!(
        ranges,
        vec![Range { start: 0, end: 50 }, Range { start: 50, end: 100 }]
    );
}

#[test]
fn count_larger_than_extent_gives_empty_ranges() {
    let ranges = partition_by_count(3, 5).unwrap();
    assert_eq!(
        ranges,
        vec![
            Range { start: 0, end: 1 },
            Range { start: 1, end: 2 },
            Range { start: 2, end: 3 },
            Range { start: 3, end: 3 },
            Range { start: 3, end: 3 },
        ]
    );
    assert_eq!(lengths(&ranges), vec![1, 1, 1, 0, 0]);
    assert!(ranges[3].is_empty());
    assert!(!ranges[2].is_empty());
}

#[test]
fn count_on_empty_extent() {
    let ranges = partition_by_count(0, 4).unwrap();
    assert_eq!(ranges, vec![Range { start: 0, end: 0 }; 4]);
}

#[test]
fn count_covers_without_gap_or_overlap() {
    for extent in 0..40usize {
        for n in 1..12usize {
            let ranges = partition_by_count(extent, n).unwrap();
            assert_eq!(ranges.len(), n);
            assert_eq!(ranges[0].start, 0);
            assert_eq!(ranges[n - 1].end, extent);
            for i in 0..n {
                assert!(ranges[i].start <= ranges[i].end);
                if i + 1 < n {
                    assert_eq!(ranges[i].end, ranges[i + 1].start);
                }
            }
            let mut hits = vec![0usize; extent];
            for r in &ranges {
                for x in r.start..r.end {
                    hits[x] += 1;
                }
            }
            assert!(hits.iter().all(|&h| h == 1));
        }
    }
}

#[test]
fn count_pieces_are_near_equal() {
    for extent in 0..40usize {
        for n in 1..12usize {
            let ranges = partition_by_count(extent, n).unwrap();
            let lens = lengths(&ranges);
            let max = *lens.iter().max().unwrap();
            let min = *lens.iter().min().unwrap();
            assert!(max - min <= 1);
            for (i, len) in lens.iter().enumerate() {
                let expected = extent / n + if i < extent % n { 1 } else { 0 };
                assert_eq!(*len, expected);
            }
        }
    }
}

#[test]
fn count_always_returns_n_ranges() {
    assert_eq!(partition_by_count(0, 1).unwrap().len(), 1);
    assert_eq!(partition_by_count(2, 7).unwrap().len(), 7);
    assert_eq!(partition_by_count(1000, 33).unwrap().len(), 33);
    assert_eq!(
        partition_by_count(usize::MAX, 2).unwrap(),
        vec![
            Range { start: 0, end: usize::MAX / 2 + 1 },
            Range { start: usize::MAX / 2 + 1, end: usize::MAX },
        ]
    );
}

#[test]
fn size_leaves_the_last_range_short() {
    let ranges = partition_by_size(12, 5).unwrap();
    assert_eq!(
        ranges,
        vec![
            Range { start: 0, end: 5 },
            Range { start: 5, end: 10 },
            Range { start: 10, end: 12 },
        ]
    );
}

#[test]
fn size_divides_evenly() {
    let ranges = partition_by_size(10, 5).unwrap();
    assert_eq!(
        ranges,
        vec![Range { start: 0, end: 5 }, Range { start: 5, end: 10 }]
    );
}

#[test]
fn size_on_empty_extent_gives_no_range() {
    assert_eq!(partition_by_size(0, 5), Ok(vec![]));
}

#[test]
fn size_of_zero_is_invalid() {
    assert_eq!(partition_by_size(12, 0), Err(RushError::InvalidArgument));
    assert_eq!(partition_by_size(0, 0), Err(RushError::InvalidArgument));
}

#[test]
fn size_larger_than_extent_gives_one_range() {
    assert_eq!(
        partition_by_size(3, 10).unwrap(),
        vec![Range { start: 0, end: 3 }]
    );
    assert_eq!(
        partition_by_size(usize::MAX, usize::MAX).unwrap(),
        vec![Range { start: 0, end: usize::MAX }]
    );
}

#[test]
fn size_covers_with_full_pieces_but_the_last() {
    for extent in 0..40usize {
        for size in 1..12usize {
            let ranges = partition_by_size(extent, size).unwrap();
            assert_eq!(ranges.len(), (extent + size - 1) / size);
            for (i, r) in ranges.iter().enumerate() {
                assert_eq!(r.start, i * size);
                assert_eq!(r.end, usize::min((i + 1) * size, extent));
                assert!(r.len() >= 1);
            }
        }
    }
}

#[test]
fn piece_spec_selects_the_mode() {
    assert_eq!(
        partition(10, PieceSpec::Count(3)),
        partition_by_count(10, 3)
    );
    assert_eq!(partition(12, PieceSpec::Size(5)), partition_by_size(12, 5));
    assert_eq!(
        partition(10, PieceSpec::Count(0)),
        Err(RushError::InvalidArgument)
    );
    assert_eq!(partition(10, PieceSpec::Size(0)), Err(RushError::InvalidArgument));
}

#[test]
fn range_length_is_never_negative() {
    assert_eq!(Range { start: 2, end: 7 }.len(), 5);
    assert_eq!(Range { start: 7, end: 7 }.len(), 0);
    assert_eq!(Range { start: 9, end: 7 }.len(), 0);
    assert!(Range { start: 9, end: 7 }.is_empty());
}
