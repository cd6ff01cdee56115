//! The messages that the interface shows for failures, which never carry the
//! underlying error's text (paths, identifiers).
use vstd::prelude::*;

verus! {

#[derive(Debug, Clone, Copy, PartialEq, Eq, Structural)]
pub enum PublicError {
    SelectedSourceUnreadable,
    SelectedSourceImportFailed,
    AttachmentPreviewFailed,
    BackupChatListFailed,
    BackupChatImportFailed,
    HtmlExportFailed,
    ExportLocationUnavailable,
}

impl PublicError {
    pub open spec fn message_text(self) -> Seq<char> {
        match self {
            PublicError::SelectedSourceUnreadable => "Could not read the selected local source."@,
            PublicError::SelectedSourceImportFailed => "Could not import the selected local source."@,
            PublicError::AttachmentPreviewFailed => "Could not read media from the selected local source."@,
            PublicError::BackupChatListFailed => "Could not read chats from the selected iPhone backup."@,
            PublicError::BackupChatImportFailed => "Could not open the selected iPhone backup chat."@,
            PublicError::HtmlExportFailed => "Could not write the HTML export."@,
            PublicError::ExportLocationUnavailable => "Could not use the selected export location."@,
        }
    }

    pub fn message(self) -> (r: &'static str)
        ensures
            r@ == self.message_text(),
    {
        match self {
            PublicError::SelectedSourceUnreadable => "Could not read the selected local source.",
            PublicError::SelectedSourceImportFailed => "Could not import the selected local source.",
            PublicError::AttachmentPreviewFailed => "Could not read media from the selected local source.",
            PublicError::BackupChatListFailed => "Could not read chats from the selected iPhone backup.",
            PublicError::BackupChatImportFailed => "Could not open the selected iPhone backup chat.",
            PublicError::HtmlExportFailed => "Could not write the HTML export.",
            PublicError::ExportLocationUnavailable => "Could not use the selected export location.",
        }
    }

    /// The public message for this failure; the error itself is dropped, so
    /// nothing of its text reaches the result.
    pub fn redact<E>(self, error: E) -> (r: String)
        ensures
            r@ == self.message_text(),
    {
        self.message().to_string()
    }
}

} // verus!
