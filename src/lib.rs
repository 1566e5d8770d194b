pub mod matrix;
pub mod pool;
pub mod text;
pub mod vector;

pub use matrix::{multiply_sequential, Matrix};
pub use pool::{
    answer, assemble, multiply, plan_tasks, route, run_task, Reply, Task, THREAD_COUNT,
};
pub use vector::{dot_product, DimensionMismatch, Vector};
