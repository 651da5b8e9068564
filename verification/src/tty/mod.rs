pub mod pty;
pub mod tty;
