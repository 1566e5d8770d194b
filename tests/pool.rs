use concurrency::{
    answer, assemble, multiply_sequential, plan_tasks, route, run_task, DimensionMismatch, Matrix,
    Reply, Task, Vector, THREAD_COUNT,
};

#[test]
fn routing_is_index_modulo_workers() {
    assert_eq!(route(0, 4), 0);
    assert_eq!(route(5, 4), 1);
    assert_eq!(route(7, 4), 3);
    assert_eq!(route(9, 1), 0);
    assert_eq!(route(17, 8), 1);
    assert_eq!(THREAD_COUNT, 4);
}

#[test]
fn plan_has_one_task_per_cell_in_row_major_order() {
    let a = Matrix::new(vec![1, 2, 3, 4, 5, 6], 2, 3);
    let b = Matrix::new(vec![1, 2, 3, 4, 5, 6], 3, 2);
    let tasks = plan_tasks(&a, &b).unwrap();
    assert_eq!(tasks.len(), 4);
    for (k, task) in tasks.iter().enumerate() {
        assert_eq!(task.idx, k);
    }
    assert_eq!(tasks[1].row.as_slice(), &[1, 2, 3]);
    assert_eq!(tasks[1].col.as_slice(), &[2, 4, 6]);
    assert_eq!(tasks[2].row.as_slice(), &[4, 5, 6]);
    assert_eq!(tasks[2].col.as_slice(), &[1, 3, 5]);
}

#[test]
fn plan_fails_before_any_task() {
    let a = Matrix::new(vec![1, 2, 3, 4, 5, 6], 2, 3);
    let b = Matrix::new(vec![1, 2, 3, 4], 2, 2);
    assert_eq!(
        plan_tasks(&a, &b).err(),
        Some(DimensionMismatch { left: 3, right: 2 })
    );
}

#[test]
fn worker_step_answers_a_task() {
    let task = Task {
        idx: 3,
        row: Vector::new(vec![1, 2, 3]),
        col: Vector::new(vec![4, 5, 6]),
    };
    assert_eq!(run_task(&task), Ok(Reply { idx: 3, val: 32 }));
    assert_eq!(answer(&task), Reply { idx: 3, val: 32 });
    let bad = Task {
        idx: 0,
        row: Vector::new(vec![1]),
        col: Vector::new(vec![1, 2]),
    };
    assert_eq!(run_task(&bad), Err(DimensionMismatch { left: 1, right: 2 }));
}

#[test]
fn assembly_places_by_index_whatever_the_order() {
    let replies = vec![
        Reply { idx: 3, val: 64 },
        Reply { idx: 0, val: 22 },
        Reply { idx: 2, val: 49 },
        Reply { idx: 1, val: 28 },
    ];
    let c = assemble(&replies, 2, 2);
    assert_eq!((c.row, c.col), (2, 2));
    assert_eq!(c.data, vec![22, 28, 49, 64]);
    let partial = assemble(&vec![Reply { idx: 1, val: 9 }], 1, 3);
    assert_eq!(partial.data, vec![0, 9, 0]);
}

#[test]
fn routed_workers_reproduce_the_sequential_product() {
    let a = Matrix::new((1..=12).collect(), 4, 3);
    let b = Matrix::new((1..=15).map(|x| x - 8).collect(), 3, 5);
    let expected = multiply_sequential(&a, &b).unwrap();
    for workers in [1usize, 2, 4, 8] {
        let tasks = plan_tasks(&a, &b).unwrap();
        let mut queues: Vec<Vec<Task>> = (0..workers).map(|_| Vec::new()).collect();
        for task in tasks {
            let w = route(task.idx, workers);
            queues[w].push(task);
        }
        let mut replies = Vec::new();
        for queue in queues.iter().rev() {
            for task in queue {
                replies.push(run_task(task).unwrap());
            }
        }
        let c = assemble(&replies, a.row, b.col);
        assert_eq!(c.data, expected.data);
    }
}
