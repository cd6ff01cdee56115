use std::path::Path;

use whatsvault::desktop::public_error::PublicError;
use whatsvault::desktop::source_registry::SourceRegistry;
use whatsvault::desktop::{
    annotate_recent_message_window, attachment_preview_dto, backup_display_name,
    backup_product_label, chats_result, count_skipped_messages, embedded_from_export_payloads,
    html_export_result, safe_html_default_filename, select_attachments_for_embedding,
    source_display_name,
};
use whatsvault::sources::whatsapp_export_zip::ExportAttachmentPayload;
use whatsvault::{
    Attachment, AttachmentKind, BackupMetadata, Chat, ChatImport, ImportIssueCode, SourceKind,
};

#[test]
fn refreshed_backups_receive_new_opaque_handles() {
    let mut registry = SourceRegistry::default();
    let first_handle = registry.register_backup("first-backup".to_owned());

    registry.clear_backups();
    let refreshed_handle = registry.register_backup("refreshed-backup".to_owned());

    assert_ne!(first_handle, refreshed_handle);
    assert_eq!(registry.backup_path(&first_handle), None);
    assert_eq!(registry.backup_path(&refreshed_handle), Some("refreshed-backup".to_owned()));
}

#[test]
fn registering_an_export_retires_the_previous_export_path() {
    let mut registry = SourceRegistry::default();
    let first_handle = registry.register_export("first-export.zip".to_owned());
    let active_handle = registry.register_export("active-export.zip".to_owned());

    assert_eq!(registry.export_path(&first_handle), None);
    assert_eq!(registry.export_path(&active_handle), Some("active-export.zip".to_owned()));
}

#[test]
fn source_registry_returns_opaque_handles_for_private_paths() {
    let mut registry = SourceRegistry::default();
    let backup_path = "/Users/example/Library/Application Support/MobileSync/Backup/private-id";
    let export_path = "/Users/example/Downloads/WhatsApp Chat - Family.zip";

    let backup_handle = registry.register_backup(backup_path.to_owned());
    let export_handle = registry.register_export(export_path.to_owned());

    assert_eq!(backup_handle, "backup-source-1");
    assert_eq!(export_handle, "export-source-1");
    assert!(!backup_handle.contains("Users"));
    assert!(!export_handle.contains("WhatsApp Chat"));
    assert_eq!(registry.backup_path(&backup_handle).as_deref(), Some(backup_path));
    assert_eq!(registry.export_path(&export_handle).as_deref(), Some(export_path));
}

#[test]
fn source_display_name_uses_only_the_selected_filename() {
    let display_name = source_display_name(
        Path::new("/Users/example/Downloads/WhatsApp Chat - Family.zip").to_str().unwrap(),
    );

    assert_eq!(display_name, "WhatsApp Chat - Family.zip");
    assert!(!display_name.contains("/Users/example"));
}

#[test]
fn public_errors_do_not_expose_private_paths() {
    let raw_error = std::io::Error::new(
        std::io::ErrorKind::PermissionDenied,
        "/Users/example/Library/Application Support/MobileSync/Backup/private-id/Manifest.db",
    );
    let message = PublicError::HtmlExportFailed.redact(raw_error);

    assert_eq!(message, "Could not write the HTML export.");
    assert!(!message.contains("/Users/example"));
    assert!(!message.contains("private-id"));
    assert!(!message.contains("Manifest.db"));
}

#[test]
fn backup_display_helpers_prefer_metadata_without_paths_or_ids() {
    let metadata = BackupMetadata {
        device_name: Some("Example iPhone".to_owned()),
        product_name: Some("iPhone 15 Pro".to_owned()),
        product_type: Some("iPhone16,1".to_owned()),
        ..BackupMetadata::default()
    };

    assert_eq!(backup_display_name(&metadata, 4), "Example iPhone");
    assert_eq!(backup_product_label(&metadata).as_deref(), Some("iPhone 15 Pro · iPhone16,1"));
    assert_eq!(backup_display_name(&BackupMetadata::default(), 2), "iPhone backup 3");
}

#[test]
fn html_export_defaults_are_sanitized_filenames_not_paths() {
    assert_eq!(
        safe_html_default_filename("/Users/example/Desktop/Family Chat.html"),
        "Family-Chat.html"
    );
    assert_eq!(safe_html_default_filename(" ../bad <name> "), "bad-name.html");
    assert_eq!(safe_html_default_filename("🔥"), "whatsvault-chat.html");
}

#[test]
fn registry_handles_keep_counting_after_a_clear() {
    let mut registry = SourceRegistry::default();
    assert_eq!(registry.register_backup("a".to_owned()), "backup-source-1");
    assert_eq!(registry.register_backup("b".to_owned()), "backup-source-2");
    registry.clear_backups();
    assert_eq!(registry.register_backup("c".to_owned()), "backup-source-3");
    assert_eq!(registry.backup_path("backup-source-1"), None);
    assert_eq!(registry.backup_path("backup-source-3"), Some("c".to_owned()));
    assert_eq!(registry.export_path("backup-source-3"), None);
}

#[test]
fn blank_names_fall_back_to_a_label() {
    let metadata = BackupMetadata {
        display_name: Some("   ".to_owned()),
        device_name: Some("Phone".to_owned()),
        ..BackupMetadata::default()
    };
    assert_eq!(backup_display_name(&metadata, 0), "iPhone backup 1");
    let same = BackupMetadata {
        product_name: Some("iPhone".to_owned()),
        product_type: Some("iPhone".to_owned()),
        ..BackupMetadata::default()
    };
    assert_eq!(backup_product_label(&same).as_deref(), Some("iPhone"));
    assert_eq!(backup_product_label(&BackupMetadata::default()), None);
    assert_eq!(source_display_name("/"), "Selected WhatsApp export");
}

#[test]
fn long_and_dotted_suggestions_are_trimmed() {
    assert_eq!(safe_html_default_filename("a--b__c.HTML"), "a-b__c.html");
    assert_eq!(safe_html_default_filename("...html"), "html.html");
    assert_eq!(safe_html_default_filename("..."), "whatsvault-chat.html");
    let long = "x".repeat(200);
    assert_eq!(safe_html_default_filename(&long), format!("{}.html", "x".repeat(120)));
}

#[test]
fn skipped_messages_saturate_at_zero() {
    assert_eq!(count_skipped_messages(10, 4), 6);
    assert_eq!(count_skipped_messages(3, 4), 0);
}

fn empty_import(message_count: usize) -> ChatImport {
    ChatImport {
        source_kind: SourceKind::IphoneBackup,
        transcript_name: None,
        messages: (0..message_count)
            .map(|index| whatsvault::Message {
                id: format!("m{index}"),
                timestamp: whatsvault::MessageTimestamp { raw: "t".to_owned() },
                sender: None,
                body: String::new(),
                attachment_ids: Vec::new(),
            })
            .collect(),
        attachments: Vec::new(),
        issues: Vec::new(),
    }
}

#[test]
fn truncated_windows_are_annotated() {
    let mut imported = empty_import(2);
    assert_eq!(annotate_recent_message_window(&mut imported, 5), 3);
    assert_eq!(imported.issues.len(), 1);
    assert_eq!(imported.issues[0].code, ImportIssueCode::MessageWindowTruncated);
    assert_eq!(
        imported.issues[0].message,
        "Only the latest 2 messages were loaded for performance"
    );
    let mut whole = empty_import(2);
    assert_eq!(annotate_recent_message_window(&mut whole, 2), 0);
    assert!(whole.issues.is_empty());
}

#[test]
fn previews_are_base64_data_urls() {
    let dto = attachment_preview_dto("image/jpeg", b"fake backup image".to_vec(), 17);
    assert_eq!(dto.data_url, "data:image/jpeg;base64,ZmFrZSBiYWNrdXAgaW1hZ2U=");
    assert_eq!(dto.size_bytes, 17);
    let dto = attachment_preview_dto("image/png", b"fo".to_vec(), 2);
    assert_eq!(dto.data_url, "data:image/png;base64,Zm8=");
}

fn attachment(id: &str, path: &str, kind: AttachmentKind, size_bytes: u64) -> Attachment {
    Attachment {
        id: id.to_owned(),
        archive_path: path.to_owned(),
        filename: path.rsplit('/').next().unwrap().to_owned(),
        kind,
        size_bytes,
    }
}

#[test]
fn embedding_respects_per_file_and_total_limits() {
    let mb = 1024 * 1024;
    let chosen = select_attachments_for_embedding(&[
        attachment("a", "a.jpg", AttachmentKind::Photo, 25 * mb),
        attachment("b", "b.jpg", AttachmentKind::Photo, 24 * mb),
        attachment("c", "c.jpg", AttachmentKind::Photo, 24 * mb),
        attachment("d", "d.jpg", AttachmentKind::Photo, 24 * mb),
        attachment("e", "e.jpg", AttachmentKind::Photo, 24 * mb),
        attachment("f", "f.jpg", AttachmentKind::Photo, 24 * mb),
        attachment("g", "g.jpg", AttachmentKind::Photo, 24 * mb),
        attachment("h", "h.jpg", AttachmentKind::Photo, 8 * mb),
    ]);
    let ids: Vec<&str> = chosen.iter().map(|a| a.id.as_str()).collect();
    assert_eq!(ids, vec!["b", "c", "d", "e", "f", "h"]);
}

#[test]
fn embedded_payloads_follow_the_chosen_attachments() {
    let chosen = vec![
        attachment("p", "Media/p.jpg", AttachmentKind::Photo, 3),
        attachment("q", "Media/q.bin", AttachmentKind::Unknown, 3),
        attachment("r", "Media/r.jpg", AttachmentKind::Photo, 3),
    ];
    let payloads = vec![
        (
            "Media/p.jpg".to_owned(),
            ExportAttachmentPayload {
                filename: "p.jpg".to_owned(),
                kind: AttachmentKind::Photo,
                size_bytes: 3,
                bytes: b"foo".to_vec(),
            },
        ),
        (
            "Media/q.bin".to_owned(),
            ExportAttachmentPayload {
                filename: "q.bin".to_owned(),
                kind: AttachmentKind::Unknown,
                size_bytes: 3,
                bytes: b"bar".to_vec(),
            },
        ),
    ];
    let embedded = embedded_from_export_payloads(&chosen, &payloads);
    assert_eq!(embedded.len(), 1);
    assert_eq!(embedded[0].attachment_id, "p");
    assert_eq!(embedded[0].media_type, "image/jpeg");
    assert_eq!(embedded[0].base64_data, "Zm9v");
}

#[test]
fn export_results_and_chat_lists_report_counts() {
    let mut imported = empty_import(3);
    imported.attachments = vec![attachment("p", "p.jpg", AttachmentKind::Photo, 1)];
    let result = html_export_result(&imported, 2, 7);
    assert_eq!(result.embedded_attachment_count, 2);
    assert_eq!(result.skipped_attachment_count, 0);
    assert_eq!(result.exported_message_count, 3);
    assert_eq!(result.skipped_message_count, 7);

    let chats: Vec<Chat> = (0..3)
        .map(|index| Chat {
            id: format!("{index}"),
            title: format!("chat {index}"),
            latest_message: None,
            latest_message_timestamp: None,
            message_count: index,
            attachment_count: 0,
        })
        .collect();
    let listed = chats_result(chats, 2);
    assert!(listed.is_truncated);
    assert_eq!(listed.limit, 2);
    assert_eq!(listed.chats.len(), 2);
    assert_eq!(listed.chats[1].title, "chat 1");
}

#[test]
fn stale_handles_get_a_public_message() {
    let mut registry = SourceRegistry::default();
    let handle = registry.register_backup("/private/backup".to_owned());
    assert_eq!(registry.registered_backup_path(&handle), Ok("/private/backup".to_owned()));
    assert_eq!(
        registry.registered_export_path(&handle),
        Err("The selected WhatsApp export is no longer available. Open it again and try again.".to_owned())
    );
    registry.clear_backups();
    assert_eq!(
        registry.registered_backup_path(&handle),
        Err("The selected iPhone backup is no longer available. Refresh backups and try again.".to_owned())
    );
}
