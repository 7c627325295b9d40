//! The parts of the window: what each shows, and how it answers what happens.
pub mod container_detail;
pub mod container_row;
pub mod logs_page;
pub mod sparkline;
pub mod status_chip;
