pub mod disk_manager;
pub mod page;
