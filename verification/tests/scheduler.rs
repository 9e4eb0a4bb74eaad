use gort::cognition::scheduler::{ScheduledTask, TaskScheduler};

#[test]
fn scheduler_enforces_stable_order() {
    let scheduler = TaskScheduler::new();
    let tasks = vec![ScheduledTask { id: 20, payload: 2 }, ScheduledTask { id: 10, payload: 1 }];

    let out = scheduler.run_deterministic(tasks, |task| task.id);
    assert_eq!(out, vec![10, 20]);
}

#[test]
fn scheduler_keeps_equal_ids_in_submission_order() {
    let scheduler = TaskScheduler::new();
    let tasks = vec![
        ScheduledTask { id: 3, payload: "c" },
        ScheduledTask { id: 1, payload: "a1" },
        ScheduledTask { id: 2, payload: "b" },
        ScheduledTask { id: 1, payload: "a2" },
    ];
    let out = scheduler.run_deterministic(tasks, |task| task.payload);
    assert_eq!(out, vec!["a1", "a2", "b", "c"]);
    let empty: Vec<ScheduledTask<u8>> = Vec::new();
    assert!(scheduler.run_deterministic(empty, |t| t.payload).is_empty());
}
