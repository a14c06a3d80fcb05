use std::sync::Arc;

use mining_pool::block::Block;
use mining_pool::mining::{mining_tasks, partition, search_end, MiningTask, SEARCH_CHUNKS};
use mining_pool::queue::Task;

#[test]
fn partition_truncates_remainder() {
    let parts = partition(0, 100, 3);
    assert_eq!(parts, vec![(0, 33), (33, 66), (66, 99)]);
    assert!(parts.iter().all(|&(lo, hi)| !(lo <= 99 && 99 < hi)));
}

#[test]
fn partition_starts_at_range_start() {
    assert_eq!(partition(10, 20, 2), vec![(10, 15), (15, 20)]);
    assert_eq!(partition(5, 5, 2), vec![(5, 5), (5, 5)]);
    assert_eq!(partition(0, 2, 4), vec![(0, 0), (0, 0), (0, 0), (0, 0)]);
}

#[test]
fn search_end_values() {
    assert_eq!(search_end(0), 8);
    assert_eq!(search_end(13), 65536);
    assert_eq!(search_end(60), 8 << 60);
    assert_eq!(SEARCH_CHUNKS, 2345);
}

fn mined(difficulty: u8) -> (Block, u64) {
    let mut b = Block::initial(difficulty);
    b.mine_serial();
    let p = b.proof.unwrap();
    (Block::initial(difficulty), p)
}

#[test]
fn search_reports_least_proof_in_part() {
    let (b, p) = mined(6);
    let block = Arc::new(b);
    let hit = MiningTask { block: block.clone(), start: 0, end: p + 1 };
    assert_eq!(hit.run(), Some(p));
    let miss = MiningTask { block: block.clone(), start: 0, end: p };
    assert_eq!(miss.search(), None);
    let empty = MiningTask { block, start: p, end: p };
    assert_eq!(empty.search(), None);
}

#[test]
fn unique_solution_found_whatever_the_parts() {
    // Narrow the range to exactly one solving proof and check every cut of it.
    let (b, p) = mined(5);
    let block = Arc::new(b);
    for chunks in [1u64, 2, 8] {
        let end = p + chunks;
        let tasks = mining_tasks(&block, p, end, chunks);
        assert_eq!(tasks.len() as u64, chunks);
        let found: Vec<Option<u64>> = tasks.iter().map(|t| t.search()).collect();
        assert!(found.iter().all(|r| r.is_none() || *r == Some(p)));
        assert!(found.contains(&Some(p)));
    }
}

#[test]
fn mining_tasks_share_block() {
    let block = Arc::new(Block::initial(3));
    let tasks = mining_tasks(&block, 0, 100, 3);
    assert_eq!(tasks.len(), 3);
    assert_eq!((tasks[2].start, tasks[2].end), (66, 99));
    assert_eq!(Arc::strong_count(&block), 4);
    drop(tasks);
    assert_eq!(Arc::strong_count(&block), 1);
}
