pub mod codec;
pub mod command;
pub mod data_item;
pub mod decimal;
pub mod redis_store;
pub mod storage;
pub mod text;
pub mod util;
