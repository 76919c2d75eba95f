pub mod storage;

pub use storage::HistoryStorage;
