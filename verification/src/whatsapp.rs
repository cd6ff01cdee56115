pub mod chat_storage;
pub mod chat_storage_display;
