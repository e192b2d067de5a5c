pub mod cache_service;
pub mod confirmation_service;
pub mod slot_poller;
