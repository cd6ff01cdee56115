use whatsvault::backup_proof::{
    build_report, render_report, sample_chats, BackupObservation, BackupProof, ChatImportCountsProof,
    ChatListCountsProof, ChatStorageCountsProof, ProofReport, PROOF_CHAT_LIST_SAMPLE_LIMIT,
};
use whatsvault::{
    BackupCandidate, Chat, ChatImport, ChatStorageSummary, ManifestFile, SourceKind,
    WhatsappManifestFiles,
};

#[test]
fn empty_report_does_not_include_private_paths_or_ids() {
    let report = ProofReport { roots_checked: 1, backups: Vec::new() };

    assert_eq!(
        render_report(&report),
        "WhatsVault backup proof\nbackup_roots_checked: 1\nbackup_candidates: 0\nstatus: no local iPhone backups found\n"
    );
}

#[test]
fn backup_report_uses_counts_and_booleans_only() {
    let report = ProofReport {
        roots_checked: 1,
        backups: vec![BackupProof {
            backup_index: 1,
            has_info_plist: true,
            has_status_plist: false,
            has_chat_storage: true,
            chat_storage_file_exists: true,
            chat_storage_summary: Some(ChatStorageCountsProof {
                message_count: Some(10),
                chat_count: Some(2),
                media_item_count: Some(4),
            }),
            chat_list_summary: Some(ChatListCountsProof {
                chat_count: 2,
                chat_sample_limit: 25,
                first_chat_message_count: 6,
                first_chat_attachment_count: 1,
            }),
            first_chat_import_summary: Some(ChatImportCountsProof {
                message_count: 6,
                message_sample_limit: 25,
                attachment_count: 1,
                issue_count: 0,
            }),
            has_contacts: true,
            media_file_count: 42,
        }],
    };

    let rendered = render_report(&report);

    assert!(rendered.contains("backup #1"));
    assert!(rendered.contains("whatsapp_chat_storage_file_exists: yes"));
    assert!(rendered.contains("whatsapp_message_count: 10"));
    assert!(rendered.contains("whatsapp_chat_count: 2"));
    assert!(rendered.contains("whatsapp_media_item_count: 4"));
    assert!(rendered.contains("whatsapp_chat_list_readable: yes"));
    assert!(rendered.contains("whatsapp_chat_list_sample_count: 2"));
    assert!(rendered.contains("whatsapp_chat_list_sample_limit: 25"));
    assert!(rendered.contains("whatsapp_first_chat_message_count: 6"));
    assert!(rendered.contains("whatsapp_first_chat_attachment_count: 1"));
    assert!(rendered.contains("whatsapp_first_chat_import_readable: yes"));
    assert!(rendered.contains("whatsapp_first_chat_import_message_sample_count: 6"));
    assert!(rendered.contains("whatsapp_first_chat_import_message_sample_limit: 25"));
    assert!(rendered.contains("whatsapp_first_chat_import_attachment_sample_count: 1"));
    assert!(rendered.contains("whatsapp_first_chat_import_issue_count: 0"));
    assert!(rendered.contains("whatsapp_media_manifest_entries: 42"));
    assert!(!rendered.contains("/Users/"));
    assert!(!rendered.contains("fileID"));
}

#[test]
fn unknown_counts_and_missing_summaries_render_as_unknown() {
    let report = ProofReport {
        roots_checked: 2,
        backups: vec![BackupProof {
            backup_index: 3,
            has_info_plist: false,
            has_status_plist: false,
            has_chat_storage: false,
            chat_storage_file_exists: false,
            chat_storage_summary: Some(ChatStorageCountsProof {
                message_count: None,
                chat_count: Some(0),
                media_item_count: None,
            }),
            chat_list_summary: None,
            first_chat_import_summary: None,
            has_contacts: false,
            media_file_count: 0,
        }],
    };
    let rendered = render_report(&report);
    assert!(rendered.starts_with("WhatsVault backup proof\nbackup_roots_checked: 2\nbackup_candidates: 1\n\nbackup #3\ninfo_plist: no\n"));
    assert!(rendered.contains("whatsapp_message_count: unknown\n"));
    assert!(rendered.contains("whatsapp_chat_count: 0\n"));
    assert!(rendered.contains("whatsapp_chat_list_readable: no\nwhatsapp_chat_list_sample_count: unknown\n"));
    assert!(rendered.ends_with("whatsapp_contacts_manifest_entry: no\nwhatsapp_media_manifest_entries: 0\n"));
}

#[test]
fn observations_become_numbered_counts_without_paths() {
    let observation = BackupObservation {
        candidate: BackupCandidate {
            id: "synthetic-device-backup".to_owned(),
            path: "/private/synthetic-device-backup".to_owned(),
            manifest_db_path: "/private/synthetic-device-backup/Manifest.db".to_owned(),
            manifest_plist_path: None,
            info_plist_path: Some("/private/synthetic-device-backup/Info.plist".to_owned()),
            status_plist_path: None,
        },
        whatsapp: WhatsappManifestFiles {
            chat_storage: Some(ManifestFile {
                file_id: "synthetic-chat-storage-file-id".to_owned(),
                domain: "AppDomainGroup-group.net.whatsapp.WhatsApp.shared".to_owned(),
                relative_path: "ChatStorage.sqlite".to_owned(),
                flags: Some(1),
            }),
            contacts: None,
            media: Vec::new(),
        },
        chat_storage_file_exists: true,
        chat_storage_summary: Some(ChatStorageSummary {
            message_count: Some(3),
            chat_count: Some(2),
            media_item_count: Some(1),
        }),
        chat_sample: Some(vec![Chat {
            id: "1".to_owned(),
            title: "one".to_owned(),
            latest_message: None,
            latest_message_timestamp: None,
            message_count: 1,
            attachment_count: 1,
        }]),
        first_chat_import: Some(ChatImport {
            source_kind: SourceKind::IphoneBackup,
            transcript_name: None,
            messages: Vec::new(),
            attachments: Vec::new(),
            issues: Vec::new(),
        }),
    };
    let report = build_report(1, &[observation]);
    assert_eq!(report.backups.len(), 1);
    assert_eq!(report.backups[0].backup_index, 1);
    assert!(report.backups[0].has_info_plist);
    assert!(report.backups[0].has_chat_storage);
    let list = report.backups[0].chat_list_summary.unwrap();
    assert_eq!(list.chat_count, 1);
    assert_eq!(list.chat_sample_limit, PROOF_CHAT_LIST_SAMPLE_LIMIT);
    let rendered = render_report(&report);
    assert!(!rendered.contains("synthetic"));
    assert!(rendered.contains("whatsapp_message_count: 3"));
}

#[test]
fn chat_sample_keeps_the_first_chats_and_names_the_first() {
    let chat = |i: usize| Chat {
        id: format!("chat-{i}"),
        title: format!("t{i}"),
        latest_message: None,
        latest_message_timestamp: None,
        message_count: i as u64,
        attachment_count: 0,
    };
    let chats: Vec<Chat> = (0..30).map(chat).collect();
    let (sample, first) = sample_chats(chats);
    assert_eq!(sample.len(), PROOF_CHAT_LIST_SAMPLE_LIMIT);
    assert_eq!(sample[24].id, "chat-24");
    assert_eq!(first.as_deref(), Some("chat-0"));

    let (sample, first) = sample_chats(vec![chat(7)]);
    assert_eq!(sample.len(), 1);
    assert_eq!(first.as_deref(), Some("chat-7"));

    let (sample, first) = sample_chats(Vec::new());
    assert!(sample.is_empty());
    assert!(first.is_none());
}
