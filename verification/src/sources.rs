//! The sources a chat history can be read from.
pub mod iphone_backup;
pub mod whatsapp_export_zip;
