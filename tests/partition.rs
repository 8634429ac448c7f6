use bench_harness::partition::{split, work_units, DispatchMode, Partition};

fn sizes(parts: &[Partition]) -> Vec<usize> {
    parts.iter().map(|p| p.len()).collect()
}

fn check_cover(n: usize, w: usize) {
    let parts = split(n, w);
    assert_eq!(parts.len(), w);
    assert_eq!(parts[0].start, 0);
    assert_eq!(parts[w - 1].end, n);
    for i in 0..w {
        assert!(parts[i].start <= parts[i].end);
        if i + 1 < w {
            assert_eq!(parts[i].end, parts[i + 1].start);
        }
    }
    let mut seen = vec![0usize; n];
    for p in &parts {
        for x in p.start..p.end {
            seen[x] += 1;
        }
    }
    assert!(seen.iter().all(|&c| c == 1));
    assert_eq!(sizes(&parts).iter().sum::<usize>(), n);
}

#[test]
fn split_exact_division() {
    assert_eq!(sizes(&split(1000, 8)), vec![125; 8]);
}

#[test]
fn split_last_absorbs_remainder() {
    let mut expected = vec![125; 7];
    expected.push(128);
    assert_eq!(sizes(&split(1003, 8)), expected);
    let parts = split(1003, 8);
    assert_eq!(parts[7], Partition { start: 875, end: 1003 });
}

#[test]
fn split_fewer_items_than_workers() {
    let parts = split(2, 4);
    assert_eq!(
        parts,
        vec![
            Partition { start: 0, end: 0 },
            Partition { start: 0, end: 0 },
            Partition { start: 0, end: 0 },
            Partition { start: 0, end: 2 },
        ]
    );
}

#[test]
fn split_no_items() {
    let parts = split(0, 3);
    assert_eq!(sizes(&parts), vec![0, 0, 0]);
}

#[test]
fn split_single_worker() {
    assert_eq!(split(7, 1), vec![Partition { start: 0, end: 7 }]);
}

#[test]
fn split_is_disjoint_cover_on_many_sizes() {
    for n in 0..40 {
        for w in 1..12 {
            check_cover(n, w);
        }
    }
}

#[test]
fn streaming_units_one_per_item() {
    let units = work_units(4, 2, DispatchMode::Streaming);
    assert_eq!(units.len(), 4);
    for (i, u) in units.iter().enumerate() {
        assert_eq!(*u, Partition { start: i, end: i + 1 });
    }
}

#[test]
fn static_units_are_the_split() {
    assert_eq!(work_units(1003, 8, DispatchMode::Static), split(1003, 8));
}
