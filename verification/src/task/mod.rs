//! Execution units, the stride scheduler, the dispatcher, and the kernel
//! state that ties them to the processes' resources.
pub mod control_block;
pub mod current;
pub mod dispatch;
pub mod fairness;
pub mod kernel;
pub mod laws;
pub mod manager;
pub mod process;
pub mod processor;
pub mod stride;
pub mod tree;
