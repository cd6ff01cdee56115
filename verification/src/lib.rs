//! A local viewer core for WhatsApp chat histories.
pub mod backup_proof;
pub mod desktop;
pub mod exports;
pub mod media;
pub mod model;
pub mod sources;
pub mod text;
pub mod whatsapp;

pub use model::{
    Attachment, AttachmentKind, BackupCandidate, BackupMetadata, Chat, ChatImport,
    ChatStorageSummary, ImportIssue, ImportIssueCode, ManifestFile, Message, MessageTimestamp,
    SourceKind, WhatsappManifestFiles,
};
