pub mod lru_k_replacer;
pub mod replacer;
