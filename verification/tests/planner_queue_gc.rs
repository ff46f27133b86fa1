use transcode_server::chunk::last_chunk_index;
use transcode_server::gc::{garbage_collect, FileEntry};
use transcode_server::queue::{Task, TaskQueue};

fn task(n: usize) -> Task {
    Task {
        task_id: format!("task-{}", n),
        source_cid: "s5://abc".to_string(),
        media_formats: String::new(),
        is_encrypted: false,
        is_gpu: false,
    }
}

#[test]
fn chunk_planner_small_ciphertext_is_chunk_zero() {
    assert_eq!(last_chunk_index(0), 0);
    assert_eq!(last_chunk_index(1), 0);
    assert_eq!(last_chunk_index(262159), 0);
}

#[test]
fn chunk_planner_exact_chunk_boundary() {
    assert_eq!(last_chunk_index(262160), 1);
    assert_eq!(last_chunk_index(262161), 1);
    assert_eq!(last_chunk_index(2 * 262160), 2);
}

#[test]
fn queue_blocks_the_101st_submission_until_one_is_drained() {
    let mut queue = TaskQueue::new();
    for n in 0..100 {
        assert!(queue.submit(task(n)).is_none(), "submission {} must be accepted", n);
    }
    assert_eq!(queue.len(), 100);
    // The 101st submission finds no room: it is handed back, not dropped,
    // and the submitter must wait for the consumer.
    let bounced = queue.submit(task(100)).expect("the 101st submission must be refused");
    assert_eq!(bounced.task_id, "task-100");
    assert_eq!(queue.len(), 100);
    // One drain makes room; the bounced task then goes through.
    let first = queue.drain().expect("a pending task must drain");
    assert_eq!(first.task_id, "task-0");
    assert!(queue.submit(bounced).is_none());
    assert_eq!(queue.len(), 100);
}

#[test]
fn queue_drains_in_submission_order() {
    let mut queue = TaskQueue::new();
    for n in 0..3 {
        assert!(queue.submit(task(n)).is_none());
    }
    assert_eq!(queue.drain().unwrap().task_id, "task-0");
    assert_eq!(queue.drain().unwrap().task_id, "task-1");
    assert_eq!(queue.drain().unwrap().task_id, "task-2");
    assert!(queue.drain().is_none());
}

fn entry(name: &str, size: u64, created: u64) -> FileEntry {
    FileEntry { path: name.to_string(), size, created }
}

#[test]
fn gc_removes_newest_files_first_until_budget() {
    // Files of sizes 10, 20, 30, 40 created in that order, budget 50:
    // the two most recently created files go, newest first, leaving 30.
    let files = vec![
        entry("a", 10, 1),
        entry("b", 20, 2),
        entry("c", 30, 3),
        entry("d", 40, 4),
    ];
    let (kept, removed) = garbage_collect(files, 50);
    let removed_names: Vec<&str> = removed.iter().map(|f| f.path.as_str()).collect();
    assert_eq!(removed_names, vec!["d", "c"]);
    let kept_total: u64 = kept.iter().map(|f| f.size).sum();
    assert_eq!(kept_total, 30);
    assert!(kept_total <= 50);
}

#[test]
fn gc_sorts_by_creation_time_not_listing_order() {
    let files = vec![
        entry("newest", 40, 9),
        entry("oldest", 10, 1),
        entry("middle", 30, 5),
    ];
    let (kept, removed) = garbage_collect(files, 45);
    let removed_names: Vec<&str> = removed.iter().map(|f| f.path.as_str()).collect();
    assert_eq!(removed_names, vec!["newest"]);
    let kept_names: Vec<&str> = kept.iter().map(|f| f.path.as_str()).collect();
    assert_eq!(kept_names, vec!["oldest", "middle"]);
}

#[test]
fn gc_within_budget_removes_nothing() {
    let files = vec![entry("a", 10, 1), entry("b", 20, 2)];
    let (kept, removed) = garbage_collect(files, 30);
    assert!(removed.is_empty());
    assert_eq!(kept.len(), 2);
}

#[test]
fn gc_empties_a_directory_it_cannot_fit() {
    let files = vec![entry("a", 10, 1), entry("b", 20, 2)];
    let (kept, removed) = garbage_collect(files, 0);
    assert!(kept.is_empty());
    let removed_names: Vec<&str> = removed.iter().map(|f| f.path.as_str()).collect();
    assert_eq!(removed_names, vec!["b", "a"]);
}
