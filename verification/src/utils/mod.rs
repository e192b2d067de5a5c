pub mod error_utils;
pub mod retry;
