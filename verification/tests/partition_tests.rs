use updater::partition::partition_lines;

fn lines(n: usize) -> Vec<String> {
    (0..n).map(|i| format!("line{}", i)).collect()
}

#[test]
fn round_robin_deals_lines_in_order() {
    let shards = partition_lines(lines(5), 2);
    assert_eq!(shards.len(), 2);
    assert_eq!(
        shards[0],
        vec!["line0".to_string(), "line2".to_string(), "line4".to_string()]
    );
    assert_eq!(shards[1], vec!["line1".to_string(), "line3".to_string()]);
}

#[test]
fn one_worker_gets_everything() {
    let shards = partition_lines(lines(4), 1);
    assert_eq!(shards.len(), 1);
    assert_eq!(shards[0], lines(4));
}

#[test]
fn shard_sizes_differ_by_at_most_one() {
    for n in 0..10usize {
        for w in 1..5usize {
            let shards = partition_lines(lines(n), w);
            assert_eq!(shards.len(), w);
            let total: usize = shards.iter().map(|s| s.len()).sum();
            assert_eq!(total, n);
            let max = shards.iter().map(|s| s.len()).max().unwrap();
            let min = shards.iter().map(|s| s.len()).min().unwrap();
            assert!(max - min <= 1);
        }
    }
}

#[test]
fn more_workers_than_lines_leaves_empty_shards() {
    let shards = partition_lines(lines(2), 4);
    assert_eq!(shards.len(), 4);
    assert_eq!(shards[0], vec!["line0".to_string()]);
    assert_eq!(shards[1], vec!["line1".to_string()]);
    assert!(shards[2].is_empty());
    assert!(shards[3].is_empty());
}
