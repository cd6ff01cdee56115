//! The normalized chat model shared by every source and exporter.
use vstd::prelude::*;

verus! {

#[derive(Debug, Clone, Copy, PartialEq, Eq, Structural)]
pub enum SourceKind {
    IphoneBackup,
    WhatsappExportZip,
}

#[derive(Debug, Clone, PartialEq, Eq)]
pub struct BackupCandidate {
    pub id: String,
    pub path: String,
    pub manifest_db_path: String,
    pub manifest_plist_path: Option<String>,
    pub info_plist_path: Option<String>,
    pub status_plist_path: Option<String>,
}

#[derive(Debug, Clone, PartialEq, Eq)]
pub struct BackupMetadata {
    pub device_name: Option<String>,
    pub display_name: Option<String>,
    pub product_name: Option<String>,
    pub product_type: Option<String>,
    pub product_version: Option<String>,
    pub last_backup_date: Option<String>,
    pub is_encrypted: Option<bool>,
}

impl Default for BackupMetadata {
    fn default() -> (r: Self)
        ensures
            r.device_name is None,
            r.display_name is None,
            r.product_name is None,
            r.product_type is None,
            r.product_version is None,
            r.last_backup_date is None,
            r.is_encrypted is None,
    {
        BackupMetadata {
            device_name: None,
            display_name: None,
            product_name: None,
            product_type: None,
            product_version: None,
            last_backup_date: None,
            is_encrypted: None,
        }
    }
}

#[derive(Debug, Clone, PartialEq, Eq)]
pub struct ManifestFile {
    pub file_id: String,
    pub domain: String,
    pub relative_path: String,
    pub flags: Option<i64>,
}

pub struct ManifestFileV {
    pub file_id: Seq<char>,
    pub domain: Seq<char>,
    pub relative_path: Seq<char>,
    pub flags: Option<i64>,
}

impl View for ManifestFile {
    type V = ManifestFileV;

    open spec fn view(&self) -> ManifestFileV {
        ManifestFileV {
            file_id: self.file_id@,
            domain: self.domain@,
            relative_path: self.relative_path@,
            flags: self.flags,
        }
    }
}

#[derive(Debug, Clone, PartialEq, Eq)]
pub struct WhatsappManifestFiles {
    pub chat_storage: Option<ManifestFile>,
    pub contacts: Option<ManifestFile>,
    pub media: Vec<ManifestFile>,
}

#[derive(Debug, Clone, PartialEq, Eq)]
pub struct ChatStorageSummary {
    pub message_count: Option<u64>,
    pub chat_count: Option<u64>,
    pub media_item_count: Option<u64>,
}

#[derive(Debug, Clone, PartialEq, Eq)]
pub struct Chat {
    pub id: String,
    pub title: String,
    pub latest_message: Option<String>,
    pub latest_message_timestamp: Option<MessageTimestamp>,
    pub message_count: u64,
    pub attachment_count: u64,
}

#[derive(Debug, Clone, PartialEq, Eq)]
pub struct ChatImport {
    pub source_kind: SourceKind,
    pub transcript_name: Option<String>,
    pub messages: Vec<Message>,
    pub attachments: Vec<Attachment>,
    pub issues: Vec<ImportIssue>,
}

#[derive(Debug, Clone, PartialEq, Eq)]
pub struct Message {
    pub id: String,
    pub timestamp: MessageTimestamp,
    pub sender: Option<String>,
    pub body: String,
    pub attachment_ids: Vec<String>,
}

#[derive(Debug, Clone, PartialEq, Eq)]
pub struct MessageTimestamp {
    pub raw: String,
}

#[derive(Debug, Clone, PartialEq, Eq)]
pub struct Attachment {
    pub id: String,
    pub archive_path: String,
    pub filename: String,
    pub kind: AttachmentKind,
    pub size_bytes: u64,
}

#[derive(Debug, Clone, Copy, PartialEq, Eq, Structural)]
pub enum AttachmentKind {
    Audio,
    Gif,
    Photo,
    Sticker,
    Video,
    Unknown,
}

#[derive(Debug, Clone, PartialEq, Eq)]
pub struct ImportIssue {
    pub code: ImportIssueCode,
    pub message: String,
}

#[derive(Debug, Clone, Copy, PartialEq, Eq, Structural)]
pub enum ImportIssueCode {
    ContinuationWithoutMessage,
    MessageWindowTruncated,
    MultipleTranscripts,
    MissingAttachmentReference,
    NoTranscript,
    SearchResultsTruncated,
}

// ---------------------------------------------------------------------------
// Mathematical views
// ---------------------------------------------------------------------------

pub open spec fn opt_view(s: Option<String>) -> Option<Seq<char>> {
    match s {
        Some(x) => Some(x@),
        None => None,
    }
}

pub open spec fn strings_view(v: Seq<String>) -> Seq<Seq<char>> {
    v.map_values(|s: String| s@)
}

pub struct MessageV {
    pub id: Seq<char>,
    pub timestamp: Seq<char>,
    pub sender: Option<Seq<char>>,
    pub body: Seq<char>,
    pub attachment_ids: Seq<Seq<char>>,
}

impl View for Message {
    type V = MessageV;

    open spec fn view(&self) -> MessageV {
        MessageV {
            id: self.id@,
            timestamp: self.timestamp.raw@,
            sender: opt_view(self.sender),
            body: self.body@,
            attachment_ids: strings_view(self.attachment_ids@),
        }
    }
}

pub struct AttachmentV {
    pub id: Seq<char>,
    pub archive_path: Seq<char>,
    pub filename: Seq<char>,
    pub kind: AttachmentKind,
    pub size_bytes: u64,
}

impl View for Attachment {
    type V = AttachmentV;

    open spec fn view(&self) -> AttachmentV {
        AttachmentV {
            id: self.id@,
            archive_path: self.archive_path@,
            filename: self.filename@,
            kind: self.kind,
            size_bytes: self.size_bytes,
        }
    }
}

pub struct ImportIssueV {
    pub code: ImportIssueCode,
    pub message: Seq<char>,
}

impl View for ImportIssue {
    type V = ImportIssueV;

    open spec fn view(&self) -> ImportIssueV {
        ImportIssueV { code: self.code, message: self.message@ }
    }
}

pub struct ChatImportV {
    pub source_kind: SourceKind,
    pub transcript_name: Option<Seq<char>>,
    pub messages: Seq<MessageV>,
    pub attachments: Seq<AttachmentV>,
    pub issues: Seq<ImportIssueV>,
}

pub open spec fn messages_view(v: Seq<Message>) -> Seq<MessageV> {
    v.map_values(|m: Message| m@)
}

pub open spec fn attachments_view(v: Seq<Attachment>) -> Seq<AttachmentV> {
    v.map_values(|a: Attachment| a@)
}

pub open spec fn issues_view(v: Seq<ImportIssue>) -> Seq<ImportIssueV> {
    v.map_values(|i: ImportIssue| i@)
}

impl View for ChatImport {
    type V = ChatImportV;

    open spec fn view(&self) -> ChatImportV {
        ChatImportV {
            source_kind: self.source_kind,
            transcript_name: opt_view(self.transcript_name),
            messages: messages_view(self.messages@),
            attachments: attachments_view(self.attachments@),
            issues: issues_view(self.issues@),
        }
    }
}

// ---------------------------------------------------------------------------
// Copies whose results Verus knows
// ---------------------------------------------------------------------------

pub fn copy_opt_string(s: &Option<String>) -> (r: Option<String>)
    ensures
        r == *s,
{
    match s {
        Some(x) => Some(x.clone()),
        None => None,
    }
}

impl Attachment {
    pub fn copy(&self) -> (r: Attachment)
        ensures
            r == *self,
    {
        Attachment {
            id: self.id.clone(),
            archive_path: self.archive_path.clone(),
            filename: self.filename.clone(),
            kind: self.kind,
            size_bytes: self.size_bytes,
        }
    }
}

impl ManifestFile {
    pub fn copy(&self) -> (r: ManifestFile)
        ensures
            r == *self,
    {
        ManifestFile {
            file_id: self.file_id.clone(),
            domain: self.domain.clone(),
            relative_path: self.relative_path.clone(),
            flags: self.flags,
        }
    }
}

impl BackupCandidate {
    pub fn copy(&self) -> (r: BackupCandidate)
        ensures
            r == *self,
    {
        BackupCandidate {
            id: self.id.clone(),
            path: self.path.clone(),
            manifest_db_path: self.manifest_db_path.clone(),
            manifest_plist_path: copy_opt_string(&self.manifest_plist_path),
            info_plist_path: copy_opt_string(&self.info_plist_path),
            status_plist_path: copy_opt_string(&self.status_plist_path),
        }
    }
}

impl Chat {
    pub fn copy(&self) -> (r: Chat)
        ensures
            r == *self,
    {
        Chat {
            id: self.id.clone(),
            title: self.title.clone(),
            latest_message: copy_opt_string(&self.latest_message),
            latest_message_timestamp: match &self.latest_message_timestamp {
                Some(t) => Some(t.copy()),
                None => None,
            },
            message_count: self.message_count,
            attachment_count: self.attachment_count,
        }
    }
}

impl MessageTimestamp {
    pub fn copy(&self) -> (r: MessageTimestamp)
        ensures
            r == *self,
    {
        MessageTimestamp { raw: self.raw.clone() }
    }
}

} // verus!
