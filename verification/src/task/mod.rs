pub mod context;
pub mod fork;
pub mod process;
pub mod signal;
pub mod task;
pub mod thread;
pub mod user_stack;
pub mod scheduler;
