pub mod dispatch;
pub mod error;
pub mod handlers;
pub mod mount_args;
pub mod usercopy;
pub mod open;
pub mod spawn;
