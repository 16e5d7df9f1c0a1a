pub mod buffer_pool_manager;
pub mod frame;
pub mod replacer;
