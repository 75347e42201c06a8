use snap_rs::allocation::{Allocation, Frame};
use snap_rs::memsnap::{MemSnap, QueryError};
use snap_rs::utils::format_bytes;

fn allocation(size: u64, timesteps: Vec<u64>, offsets: Vec<u64>) -> Allocation {
    let base = *offsets.iter().max().unwrap();
    let peak_timestamps = timesteps
        .iter()
        .zip(offsets.iter())
        .filter(|(_, o)| **o == base)
        .map(|(t, _)| *t)
        .collect();
    Allocation {
        timesteps,
        offsets,
        size,
        callstack: vec![Frame { name: "f".to_string(), filename: "m.py".to_string(), line: 1 }],
        peak_mem: base + size,
        peak_timestamps,
    }
}

/// A at index 0, B at index 1, C at index 2.
fn three() -> MemSnap {
    MemSnap::new(vec![
        allocation(100, vec![0, 10], vec![0, 0]),
        allocation(50, vec![5, 15], vec![100, 100]),
        allocation(200, vec![2, 3], vec![150, 150]),
    ])
}

/// Thirty allocations with sizes that repeat, sampled at even times.
fn many() -> MemSnap {
    let mut allocations = Vec::new();
    for i in 0..30u64 {
        let start = 2 * (i % 13);
        let size = 64 * ((i * 7) % 10 + 1);
        allocations.push(allocation(
            size,
            vec![start, start + 4, start + 10],
            vec![(i % 5) * 1000, (i % 3) * 2000, (i % 7) * 500],
        ));
    }
    MemSnap::new(allocations)
}

fn ranked_by(keys: &[u64]) -> Vec<usize> {
    let mut order: Vec<usize> = (0..keys.len()).collect();
    order.sort_by(|a, b| keys[*b].cmp(&keys[*a]));
    order
}

#[test]
fn test_global() {
    let mut memsnap = many();
    let top5 = memsnap.global_topk(5).unwrap();
    assert_eq!(top5.len(), 5);
    for i in top5 {
        println!("Allocation at index {}: {}", i, format_bytes(memsnap.allocations()[i].size));
    }
}

#[test]
fn test_timestamp() {
    let mut memsnap = many();
    let first = memsnap.timestamp_topk(24, 3).unwrap();
    let second = memsnap.timestamp_topk(25, 3).unwrap();
    let third = memsnap.timestamp_topk(24, 3).unwrap();
    let top3 = memsnap.timestamp_topk(25, 3).unwrap();
    assert_eq!(first, third);
    assert_eq!(second, top3);
    for i in top3 {
        println!("Allocation at index {}: {}", i, format_bytes(memsnap.allocations()[i].size));
    }
}

#[test]
fn peak_test_peak() {
    let mut memsnap = many();
    let top17 = memsnap.peak_topk(17).unwrap();
    assert_eq!(top17.len(), 17);
    for i in top17 {
        println!(
            "Peak at allocation at index {}: {}",
            i,
            format_bytes(memsnap.allocations()[i].peak_mem)
        );
    }
}

#[test]
fn global_topk_orders_by_size() {
    let mut store = three();
    assert_eq!(store.global_topk(2), Ok(vec![2, 0]));
    assert_eq!(store.global_topk(1), Ok(vec![2]));
    assert_eq!(store.global_topk(0), Ok(vec![]));
}

#[test]
fn global_topk_refuses_the_total_and_more() {
    let mut store = three();
    assert_eq!(store.global_topk(3), Err(QueryError::OutOfBounds(3, 3)));
    assert_eq!(store.global_topk(4), Err(QueryError::OutOfBounds(4, 3)));
    assert_eq!(store.global_topk(usize::MAX), Err(QueryError::OutOfBounds(usize::MAX, 3)));
    assert_eq!(store.peak_topk(3), Err(QueryError::OutOfBounds(3, 3)));
    assert_eq!(store.timestamp_topk(5, 3), Err(QueryError::OutOfBounds(3, 3)));
    assert_eq!(store.timestamp_topk(5, 100), Err(QueryError::OutOfBounds(100, 3)));
}

#[test]
fn a_refused_query_leaves_later_answers_alone() {
    let mut store = three();
    assert_eq!(store.global_topk(2), Ok(vec![2, 0]));
    assert!(store.global_topk(7).is_err());
    assert_eq!(store.global_topk(2), Ok(vec![2, 0]));
    assert!(store.timestamp_topk(5, 7).is_err());
    assert_eq!(store.timestamp_topk(5, 2), Ok(vec![0, 1]));
}

#[test]
fn an_empty_store_refuses_every_query() {
    let mut store = MemSnap::new(vec![]);
    assert_eq!(store.len(), 0);
    assert!(store.timestamps().is_empty());
    assert_eq!(store.global_topk(0), Err(QueryError::OutOfBounds(0, 0)));
    assert_eq!(store.peak_topk(0), Err(QueryError::OutOfBounds(0, 0)));
    assert_eq!(store.timestamp_topk(0, 0), Err(QueryError::OutOfBounds(0, 0)));
    assert_eq!(store.timeline(), vec![]);
    assert_eq!(store.timeline_bounds(), (0, 0));
}

#[test]
fn timestamp_topk_lists_the_living() {
    let mut store = three();
    assert_eq!(store.timestamp_topk(5, 2), Ok(vec![0, 1]));
    assert_eq!(store.timestamp_topk(2, 2), Ok(vec![2, 0]));
    assert_eq!(store.timestamp_topk(3, 1), Ok(vec![2]));
}

#[test]
fn timestamp_topk_gives_fewer_where_fewer_are_alive() {
    let mut store = three();
    assert_eq!(store.timestamp_topk(15, 2), Ok(vec![1]));
    assert_eq!(store.timestamp_topk(0, 2), Ok(vec![0]));
}

#[test]
fn timestamps_are_the_sorted_set_of_sampled_times() {
    let store = three();
    assert_eq!(store.timestamps(), &vec![0, 2, 3, 5, 10, 15]);
    let store = MemSnap::new(vec![
        allocation(1, vec![9, 9, 1], vec![0, 0, 0]),
        allocation(1, vec![1, 9], vec![0, 0]),
    ]);
    assert_eq!(store.timestamps(), &vec![1, 9]);
}

#[test]
fn a_query_time_snaps_to_the_next_sampled_time() {
    let mut store = three();
    // 4 snaps to 5, where A and B are alive.
    assert_eq!(store.timestamp_topk(4, 2), Ok(vec![0, 1]));
    // 6 snaps to 10, where A and B are alive.
    assert_eq!(store.timestamp_topk(6, 2), Ok(vec![0, 1]));
    // 1 snaps to 2, where A and C are alive.
    assert_eq!(store.timestamp_topk(1, 2), Ok(vec![2, 0]));
    // 11 snaps to 15, where only B is alive.
    assert_eq!(store.timestamp_topk(11, 2), Ok(vec![1]));
}

#[test]
fn a_query_time_after_the_last_snaps_to_the_last() {
    let mut store = three();
    assert_eq!(store.timestamp_topk(16, 2), Ok(vec![1]));
    assert_eq!(store.timestamp_topk(u64::MAX, 2), Ok(vec![1]));
}

#[test]
fn queries_that_snap_together_agree() {
    let mut store = many();
    let at_24 = store.timestamp_topk(24, 20).unwrap();
    let at_23 = store.timestamp_topk(23, 20).unwrap();
    assert_eq!(at_23, at_24);
    let mut fresh = many();
    assert_eq!(fresh.timestamp_topk(23, 20).unwrap(), at_24);
}

#[test]
fn repeated_queries_repeat_their_answers() {
    let mut store = many();
    let first = store.global_topk(3).unwrap();
    let second = store.global_topk(3).unwrap();
    assert_eq!(first, second);
    let first = store.peak_topk(3).unwrap();
    let second = store.peak_topk(3).unwrap();
    assert_eq!(first, second);
    let longer = store.global_topk(10).unwrap();
    assert_eq!(&longer[..3], store.global_topk(3).unwrap().as_slice());
}

#[test]
fn rankings_are_stable_sorts_by_descending_key() {
    let mut store = many();
    let n = store.len();
    let sizes: Vec<u64> = store.allocations().iter().map(|a| a.size).collect();
    let peaks: Vec<u64> = store.allocations().iter().map(|a| a.peak_mem).collect();
    for k in 0..n {
        assert_eq!(store.global_topk(k).unwrap(), ranked_by(&sizes)[..k].to_vec());
        assert_eq!(store.peak_topk(k).unwrap(), ranked_by(&peaks)[..k].to_vec());
    }
    for time in 0..40u64 {
        let snapped = *store.timestamps().iter().find(|t| **t >= time).unwrap_or(&34);
        let alive: Vec<usize> = ranked_by(&sizes)
            .into_iter()
            .filter(|i| store.allocations()[*i].is_alive_at(snapped))
            .collect();
        for k in [0, 1, 5, n - 1] {
            let expected: Vec<usize> = alive.iter().copied().take(k).collect();
            assert_eq!(store.timestamp_topk(time, k).unwrap(), expected, "time {} k {}", time, k);
        }
    }
}

#[test]
fn equal_sizes_rank_by_index() {
    let mut store = MemSnap::new(vec![
        allocation(8, vec![1], vec![0]),
        allocation(9, vec![1], vec![0]),
        allocation(8, vec![1], vec![0]),
        allocation(9, vec![1], vec![0]),
        allocation(8, vec![1], vec![0]),
    ]);
    assert_eq!(store.global_topk(4), Ok(vec![1, 3, 0, 2]));
    assert_eq!(store.timestamp_topk(1, 4), Ok(vec![1, 3, 0, 2]));
}

#[test]
fn peak_topk_orders_by_peak() {
    let mut store = three();
    // Peaks: A 100, B 150, C 350.
    assert_eq!(store.peak_topk(2), Ok(vec![2, 1]));
}

#[test]
fn timeline_keeps_the_highest_byte_of_each_time() {
    let mut store = MemSnap::new(vec![
        allocation(10, vec![1, 2, 2, 5], vec![0, 100, 50, 7]),
        allocation(30, vec![2, 3], vec![75, 0]),
        allocation(1, vec![5], vec![5]),
    ]);
    assert_eq!(store.timeline(), vec![(1, 10), (2, 110), (3, 30), (5, 17)]);
    assert_eq!(store.timeline_bounds(), (5, 110));
    store.build_timeline();
    assert_eq!(store.timeline(), vec![(1, 10), (2, 110), (3, 30), (5, 17)]);
}

#[test]
fn timeline_of_the_three() {
    let mut store = three();
    assert_eq!(
        store.timeline(),
        vec![(0, 100), (2, 350), (3, 350), (5, 150), (10, 100), (15, 150)]
    );
    assert_eq!(store.timeline_bounds(), (15, 350));
}

#[test]
fn query_error_message() {
    assert_eq!(
        QueryError::OutOfBounds(5, 3).message(),
        "k is out of bounds: expected 0 ~ 3, got 5"
    );
}
