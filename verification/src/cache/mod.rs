pub mod lru_cache;
pub mod slot_cache;

pub use lru_cache::LruCache;
pub use slot_cache::SlotCache;
