pub mod rapt;
pub mod rpkg;
pub mod rpkg_cli;
