use std::io::{Cursor, Write};

use whatsvault::sources::whatsapp_export_zip::{
    classify_whatsapp_export_attachment, import_whatsapp_export_zip,
    import_whatsapp_export_zip_with_options, read_whatsapp_export_attachment,
    read_transcript, read_whatsapp_export_attachments, ExportAttachmentPayload, ExportZipError,
    TranscriptWindow,
    WhatsappExportImportOptions, DEFAULT_WHATSAPP_EXPORT_IMPORT_MAX_MESSAGES,
};
use whatsvault::desktop::{whatsapp_export_html, ZipHtmlExportError};
use whatsvault::{AttachmentKind, ImportIssueCode, SourceKind};
use zip::write::SimpleFileOptions;

fn synthetic_zip(entries: &[(&str, &[u8])]) -> Vec<u8> {
    let mut cursor = Cursor::new(Vec::new());
    {
        let mut writer = zip::ZipWriter::new(&mut cursor);
        let options =
            SimpleFileOptions::default().compression_method(zip::CompressionMethod::Stored);

        for (name, bytes) in entries {
            writer.start_file(*name, options).unwrap();
            writer.write_all(bytes).unwrap();
        }

        writer.finish().unwrap();
    }
    cursor.into_inner()
}

fn payload<'a>(
    payloads: &'a [(String, ExportAttachmentPayload)],
    key: &str,
) -> Option<&'a ExportAttachmentPayload> {
    payloads.iter().find(|(k, _)| k == key).map(|(_, p)| p)
}

#[test]
fn imports_bracketed_ios_export_with_media_reference() {
    let transcript = "[01/02/2026, 09:15:00] Ana: hello\n[01/02/2026, 09:16:00] You: 00000001-PHOTO-2026-01-02-09-16-00.jpg\n";
    let archive = synthetic_zip(&[
        ("_chat.txt", transcript.as_bytes()),
        ("00000001-PHOTO-2026-01-02-09-16-00.jpg", b"fake image bytes"),
    ]);

    let imported = import_whatsapp_export_zip(archive).unwrap();

    assert_eq!(imported.source_kind, SourceKind::WhatsappExportZip);
    assert_eq!(imported.transcript_name.as_deref(), Some("_chat.txt"));
    assert_eq!(imported.messages.len(), 2);
    assert_eq!(imported.attachments.len(), 1);
    assert_eq!(imported.attachments[0].kind, AttachmentKind::Photo);
    assert_eq!(imported.messages[0].sender.as_deref(), Some("Ana"));
    assert_eq!(imported.messages[0].body, "hello");
    assert_eq!(imported.messages[1].attachment_ids, vec![imported.attachments[0].id.clone()]);
    assert!(imported.issues.is_empty());
}

#[test]
fn supports_dash_timestamp_exports_and_multiline_messages() {
    let transcript =
        "02/01/2026, 9:15 AM - Ana: first line\ncontinued line\n02/01/2026, 9:17 AM - You: reply\n";
    let archive = synthetic_zip(&[("_chat.txt", transcript.as_bytes())]);

    let imported = import_whatsapp_export_zip(archive).unwrap();

    assert_eq!(imported.messages.len(), 2);
    assert_eq!(imported.messages[0].body, "first line\ncontinued line");
    assert_eq!(imported.messages[1].sender.as_deref(), Some("You"));
    assert!(imported.issues.is_empty());
}

#[test]
fn reports_continuation_without_message_as_structured_issue() {
    let archive = synthetic_zip(&[("_chat.txt", b"orphan continuation\n")]);

    let imported = import_whatsapp_export_zip(archive).unwrap();

    assert!(imported.messages.is_empty());
    assert_eq!(imported.issues.len(), 1);
    assert_eq!(imported.issues[0].code, ImportIssueCode::ContinuationWithoutMessage);
}

#[test]
fn imports_large_export_zip_as_bounded_recent_window() {
    let message_count = 100_000;
    let mut transcript = String::new();
    for index in 1..=message_count {
        transcript
            .push_str(&format!("[01/02/2026, 09:15:{:02}] Ana: message {index}\n", index % 60));
    }
    let archive = synthetic_zip(&[("_chat.txt", transcript.as_bytes())]);

    let imported = import_whatsapp_export_zip(archive).unwrap();

    assert_eq!(imported.messages.len(), DEFAULT_WHATSAPP_EXPORT_IMPORT_MAX_MESSAGES);
    assert_eq!(
        imported.messages[0].body,
        format!("message {}", message_count - DEFAULT_WHATSAPP_EXPORT_IMPORT_MAX_MESSAGES + 1)
    );
    assert_eq!(imported.messages.last().unwrap().body, format!("message {message_count}"));
    assert_eq!(imported.issues.last().unwrap().code, ImportIssueCode::MessageWindowTruncated);
}

#[test]
fn fails_when_archive_has_no_transcript() {
    let archive = synthetic_zip(&[("00000001-PHOTO-2026-01-02-09-16-00.jpg", b"fake")]);

    let err = import_whatsapp_export_zip(archive).unwrap_err();

    assert!(err.message().contains("transcript"));
}

#[test]
fn classifies_whatsapp_export_media_names() {
    assert_eq!(
        classify_whatsapp_export_attachment("00000001-AUDIO-2026-01-02-09-16-00.opus"),
        AttachmentKind::Audio
    );
    assert_eq!(
        classify_whatsapp_export_attachment("00000002-PHOTO-2026-01-02-09-16-00.jpg"),
        AttachmentKind::Photo
    );
    assert_eq!(
        classify_whatsapp_export_attachment("00000003-STICKER-2026-01-02-09-16-00.webp"),
        AttachmentKind::Sticker
    );
    assert_eq!(
        classify_whatsapp_export_attachment("00000004-VIDEO-2026-01-02-09-16-00.mp4"),
        AttachmentKind::Video
    );
    assert_eq!(
        classify_whatsapp_export_attachment("00000005-GIF-2026-01-02-09-16-00.mp4"),
        AttachmentKind::Gif
    );
}

#[test]
fn reads_attachment_bytes_by_normalized_archive_path() {
    let archive = synthetic_zip(&[
        ("_chat.txt", b"[01/02/2026, 09:15:00] Ana: photo\n"),
        ("Media\\00000001-PHOTO-2026-01-02-09-16-00.jpg", b"fake image bytes"),
    ]);

    let payload =
        read_whatsapp_export_attachment(archive, "Media/00000001-PHOTO-2026-01-02-09-16-00.jpg", 1024)
            .unwrap()
            .unwrap();

    assert_eq!(payload.filename, "00000001-PHOTO-2026-01-02-09-16-00.jpg");
    assert_eq!(payload.kind, AttachmentKind::Photo);
    assert_eq!(payload.size_bytes, 16);
    assert_eq!(payload.bytes, b"fake image bytes");
}

#[test]
fn skips_attachment_payloads_over_size_limit() {
    let archive = synthetic_zip(&[
        ("_chat.txt", b"[01/02/2026, 09:15:00] Ana: photo\n"),
        ("00000001-PHOTO-2026-01-02-09-16-00.jpg", b"fake image bytes"),
    ]);

    let payload =
        read_whatsapp_export_attachment(archive, "00000001-PHOTO-2026-01-02-09-16-00.jpg", 4)
            .unwrap();

    assert!(payload.is_none());
}

#[test]
fn reads_multiple_attachment_payloads_by_normalized_archive_path() {
    let archive = synthetic_zip(&[
        ("_chat.txt", b"[01/02/2026, 09:15:00] Ana: media\n"),
        ("Media\\00000001-PHOTO-2026-01-02-09-16-00.jpg", b"fake image bytes"),
        ("Media/00000002-AUDIO-2026-01-02-09-17-00.opus", b"fake audio bytes"),
        (
            "Media/00000003-VIDEO-2026-01-02-09-18-00.mp4",
            b"this payload is too large for this test cap",
        ),
    ]);

    let payloads = read_whatsapp_export_attachments(
        archive,
        &[
            "Media/00000001-PHOTO-2026-01-02-09-16-00.jpg",
            "Media\\00000002-AUDIO-2026-01-02-09-17-00.opus",
            "Media/00000003-VIDEO-2026-01-02-09-18-00.mp4",
        ],
        16,
    )
    .unwrap();

    assert_eq!(payloads.len(), 2);
    assert_eq!(
        payload(&payloads, "Media/00000001-PHOTO-2026-01-02-09-16-00.jpg").unwrap().kind,
        AttachmentKind::Photo
    );
    assert_eq!(
        payload(&payloads, "Media/00000002-AUDIO-2026-01-02-09-17-00.opus").unwrap().bytes,
        b"fake audio bytes"
    );
    assert!(payload(&payloads, "Media/00000003-VIDEO-2026-01-02-09-18-00.mp4").is_none());
}

#[test]
fn imports_transcript_with_backslash_path() {
    let archive = synthetic_zip(&[("Chat\\_chat.txt", b"[01/02/2026, 09:15:00] Ana: hello\n")]);
    let imported = import_whatsapp_export_zip(archive).unwrap();
    assert_eq!(imported.transcript_name.as_deref(), Some("Chat/_chat.txt"));
    assert_eq!(imported.messages[0].body, "hello");
}

#[test]
fn resolves_pdf_references_with_spaces_and_unknown_explicit_attachments() {
    let archive = synthetic_zip(&[
        ("_chat.txt", b"[01/02/2026, 09:15:00] Ana: <attached: travel plans.pdf>\n[01/02/2026, 09:16:00] Ana: <attached: notes.csv>\n[01/02/2026, 09:17:00] Ana: ticket.pdf (file attached)\n"),
        ("travel plans.pdf", b"synthetic pdf"),
        ("notes.csv", b"synthetic document"),
        ("ticket.pdf", b"synthetic pdf"),
    ]);
    let imported = import_whatsapp_export_zip(archive).unwrap();
    assert_eq!(imported.attachments.len(), 3);
    for message in &imported.messages {
        assert_eq!(message.attachment_ids.len(), 1);
    }
    assert!(imported.issues.is_empty());
}

#[test]
fn keeps_bracketed_continuation_text_in_the_original_message() {
    let archive = synthetic_zip(&[(
        "_chat.txt",
        b"[01/02/2026, 09:15:00] Ana: shopping list\n[groceries] milk and eggs\n[01/02/2026, 09:16:00] You: thanks\n",
    )]);
    let imported = import_whatsapp_export_zip(archive).unwrap();
    assert_eq!(imported.messages.len(), 2);
    assert_eq!(imported.messages[0].body, "shopping list\n[groceries] milk and eggs");
}

#[test]
fn rejects_multiple_canonical_transcripts_instead_of_silently_choosing_one() {
    let archive = synthetic_zip(&[
        ("First/_chat.txt", b"[01/02/2026, 09:15:00] Ana: first\n"),
        ("Second/_chat.txt", b"[01/02/2026, 09:15:00] Ana: second\n"),
    ]);
    assert!(matches!(
        import_whatsapp_export_zip(archive),
        Err(ExportZipError::MultipleTranscripts(_))
    ));
}

#[test]
fn prefers_one_canonical_transcript_over_an_attached_text_document() {
    let archive = synthetic_zip(&[
        ("_chat.txt", b"[01/02/2026, 09:15:00] Ana: <attached: notes.txt>\n"),
        ("notes.txt", b"synthetic text document"),
    ]);
    let imported = import_whatsapp_export_zip(archive).unwrap();
    assert_eq!(imported.transcript_name.as_deref(), Some("_chat.txt"));
    assert_eq!(imported.attachments.len(), 1);
}

#[test]
fn preserves_numeric_timestamp_formats_and_rejects_bracketed_prose() {
    for timestamp in [
        "01/02/2026, 09:15:00",
        "1/2/26, 9:15 AM",
        "01.02.2026, 09:15",
        "2026-02-01, 09:15:00",
        "01/02/2026 09:15:00",
    ] {
        let transcript =
            format!("[{timestamp}] Ana: first\n[invoice/42, total] is ordinary text\n");
        let imported =
            import_whatsapp_export_zip(synthetic_zip(&[("_chat.txt", transcript.as_bytes())]))
                .unwrap();
        assert_eq!(imported.messages.len(), 1, "timestamp format: {timestamp}");
        assert_eq!(imported.messages[0].body, "first\n[invoice/42, total] is ordinary text");
        assert_eq!(imported.messages[0].timestamp.raw, timestamp);
    }
}

#[test]
fn rejects_oversized_lines_and_multiline_messages_before_returning_them() {
    let line = "x".repeat(1024 * 1024 + 1);
    let transcript = format!("[01/02/2026, 09:15:00] Ana: {line}\n");
    assert!(import_whatsapp_export_zip(synthetic_zip(&[("_chat.txt", transcript.as_bytes())]))
        .is_err());

    let continuation = "x".repeat(128 * 1024) + "\n";
    let transcript = format!("[01/02/2026, 09:15:00] Ana: start\n{}", continuation.repeat(9));
    assert!(import_whatsapp_export_zip(synthetic_zip(&[("_chat.txt", transcript.as_bytes())]))
        .is_err());
}

#[test]
fn bounds_recent_message_text_bytes_as_well_as_message_count() {
    let mut transcript = String::new();
    let body = "x".repeat(128 * 1024);
    for index in 0..300 {
        transcript.push_str(&format!("[01/02/2026, 09:15:00] Ana: message {index} {body}\n"));
    }
    let imported =
        import_whatsapp_export_zip(synthetic_zip(&[("_chat.txt", transcript.as_bytes())])).unwrap();
    assert!(
        imported.messages.iter().map(|message| message.body.len()).sum::<usize>()
            <= 32 * 1024 * 1024
    );
    assert!(imported.messages.last().unwrap().body.starts_with("message 299 "));
    assert!(imported
        .issues
        .iter()
        .any(|issue| issue.code == ImportIssueCode::MessageWindowTruncated));
}

#[test]
fn reports_repeated_orphan_lines_once() {
    let transcript = "orphan continuation\n".repeat(10_000);
    let imported =
        import_whatsapp_export_zip(synthetic_zip(&[("_chat.txt", transcript.as_bytes())])).unwrap();
    assert_eq!(imported.issues.len(), 1);
}

#[test]
fn bounds_repeated_missing_attachment_diagnostics() {
    let transcript =
        format!("[01/02/2026, 09:15:00] Ana: {}\n", "<attached: absent.jpg> ".repeat(10_000));
    let imported =
        import_whatsapp_export_zip(synthetic_zip(&[("_chat.txt", transcript.as_bytes())])).unwrap();
    assert_eq!(
        imported
            .issues
            .iter()
            .filter(|issue| issue.code == ImportIssueCode::MissingAttachmentReference)
            .count(),
        1
    );
}

#[test]
fn applies_message_limit_after_invalid_utf8_replacement() {
    let mut transcript = b"[01/02/2026, 09:15:00] Ana: ".to_vec();
    transcript.extend(std::iter::repeat_n(0xff, 400_000));
    let result = import_whatsapp_export_zip(synthetic_zip(&[("_chat.txt", &transcript)]));
    assert!(result.is_err());
}

#[test]
fn garbage_bytes_are_a_zip_error() {
    let result = import_whatsapp_export_zip(b"not a zip archive".to_vec());
    assert!(matches!(result, Err(ExportZipError::Zip(_))));
}

#[test]
fn all_messages_option_keeps_every_message() {
    let mut transcript = String::new();
    for index in 1..=2500 {
        transcript.push_str(&format!("[01/02/2026, 09:15:00] Ana: message {index}\n"));
    }
    let archive = synthetic_zip(&[("_chat.txt", transcript.as_bytes())]);
    let result =
        import_whatsapp_export_zip_with_options(archive, WhatsappExportImportOptions::all_messages())
            .unwrap();
    assert_eq!(result.imported.messages.len(), 2500);
    assert_eq!(result.skipped_message_count, 0);

    let archive = synthetic_zip(&[("_chat.txt", transcript.as_bytes())]);
    let result =
        import_whatsapp_export_zip_with_options(archive, WhatsappExportImportOptions::recent(10))
            .unwrap();
    assert_eq!(result.imported.messages.len(), 10);
    assert_eq!(result.skipped_message_count, 2490);
    assert_eq!(result.imported.messages[0].body, "message 2491");
}

#[test]
fn unknown_path_reads_as_no_payload() {
    let archive = synthetic_zip(&[("_chat.txt", b"[01/02/2026, 09:15:00] Ana: hi\n")]);
    assert!(read_whatsapp_export_attachment(archive, "Media/missing.jpg", 1024)
        .unwrap()
        .is_none());
    let archive = synthetic_zip(&[("_chat.txt", b"[01/02/2026, 09:15:00] Ana: hi\n")]);
    assert!(read_whatsapp_export_attachment(archive, "/absolute.jpg", 1024).unwrap().is_none());
}

#[test]
fn error_messages_name_the_failure() {
    let err = import_whatsapp_export_zip(b"not a zip archive".to_vec()).unwrap_err();
    assert!(err.message().starts_with("ZIP read failed: "));
    assert!(err.message().len() > "ZIP read failed: ".len());

    let archive = synthetic_zip(&[
        ("First/_chat.txt", b"[01/02/2026, 09:15:00] Ana: first\n"),
        ("Second/_chat.txt", b"[01/02/2026, 09:15:00] Ana: second\n"),
    ]);
    let err = import_whatsapp_export_zip(archive).unwrap_err();
    assert_eq!(
        err.message(),
        "WhatsApp export ZIP contains multiple transcript files: [\"First/_chat.txt\", \"Second/_chat.txt\"]"
    );
    assert_eq!(
        ExportZipError::MultipleTranscripts(vec!["a\"b.txt".to_owned(), "c\td.txt".to_owned()])
            .message(),
        "WhatsApp export ZIP contains multiple transcript files: [\"a\\\"b.txt\", \"c\\td.txt\"]"
    );
    assert_eq!(
        ExportZipError::MessageTooLarge.message(),
        "A transcript line or message exceeds the 1 MiB text limit"
    );
}

#[test]
fn decoded_lines_open_extend_and_window_messages() {
    let chars = |s: &str| s.chars().collect::<Vec<char>>();
    let mut window = TranscriptWindow::new(Some(2));
    assert!(window.push_line(&chars("orphan text"), Some(2)));
    assert!(window.orphan);
    assert!(window.push_line(&chars("[01/02/2026, 09:15:00] Ana: one"), Some(2)));
    assert!(window.push_line(&chars("more"), Some(2)));
    assert!(window.push_line(&chars(""), Some(2)));
    assert!(window.push_line(&chars("[01/02/2026, 09:16:00] Bo: two"), Some(2)));
    assert!(window.push_line(&chars("[01/02/2026, 09:17:00] Ana: three"), Some(2)));
    assert_eq!(window.total, 3);
    assert_eq!(window.skipped, 1);
    let bodies: Vec<String> =
        window.messages.iter().map(|m| m.body.iter().collect::<String>()).collect();
    assert_eq!(bodies, vec!["two".to_owned(), "three".to_owned()]);
    assert_eq!(window.messages[0].index, 1);

    let mut first = TranscriptWindow::new(None);
    assert!(first.push_line(&chars("[01/02/2026, 09:15:00] Ana: one"), None));
    assert!(first.push_line(&chars("again"), None));
    let body: String = first.messages[0].body.iter().collect();
    assert_eq!(body, "one\nagain");
    assert!(!first.push_line(&vec!['x'; 1024 * 1024 + 1], None));
}

#[test]
fn every_oversized_case_is_message_too_large() {
    let long_line = format!("[01/02/2026, 09:15:00] Ana: {}\n", "x".repeat(1024 * 1024 + 1));
    let long_message = format!(
        "[01/02/2026, 09:15:00] Ana: start\n{}",
        ("x".repeat(128 * 1024) + "\n").repeat(9)
    );
    let mut widened = b"[01/02/2026, 09:15:00] Ana: ".to_vec();
    widened.extend(std::iter::repeat_n(0xff, 400_000));
    for transcript in [long_line.into_bytes(), long_message.into_bytes(), widened] {
        let result = import_whatsapp_export_zip(synthetic_zip(&[("_chat.txt", &transcript)]));
        assert!(matches!(result, Err(ExportZipError::MessageTooLarge)));
    }
}

#[test]
fn zip_export_page_embeds_the_chosen_media_and_counts_it() {
    let archive = synthetic_zip(&[
        (
            "_chat.txt",
            b"[01/02/2026, 09:15:00] Ana: <attached: photo.jpg>\n[01/02/2026, 09:16:00] Bo: <b>hi</b>\n",
        ),
        ("photo.jpg", b"abc"),
    ]);
    let (html, result) = whatsapp_export_html(archive, "Family").ok().unwrap();
    assert!(html.starts_with("<!doctype html>\n"));
    assert!(html.contains("<title>Family</title>"));
    assert!(html.contains("data:image/jpeg;base64,YWJj"));
    assert!(html.contains("&lt;b&gt;hi&lt;/b&gt;"));
    assert!(html.contains("<p>2 messages · 1 media files · exported by WhatsVault</p>"));
    assert_eq!(result.embedded_attachment_count, 1);
    assert_eq!(result.skipped_attachment_count, 0);
    assert_eq!(result.exported_message_count, 2);
    assert_eq!(result.skipped_message_count, 0);

    assert!(matches!(
        whatsapp_export_html(b"not a zip".to_vec(), "x"),
        Err(ZipHtmlExportError::Import(ExportZipError::Zip(_)))
    ));
}

#[test]
fn reading_one_attachment_takes_the_first_entry_with_its_name() {
    let archive = synthetic_zip(&[
        ("_chat.txt", b"[01/02/2026, 09:15:00] Ana: hi\n"),
        ("a\\photo.jpg", b"first"),
        ("a/photo.jpg", b"second"),
    ]);
    let payload = read_whatsapp_export_attachment(archive.clone(), "a/photo.jpg", 1024)
        .unwrap()
        .unwrap();
    assert_eq!(payload.bytes, b"first");
    assert_eq!(payload.filename, "photo.jpg");
    assert!(read_whatsapp_export_attachment(archive, "a/photo.jpg", 3).unwrap().is_none());
}

fn corrupt_marker(mut archive: Vec<u8>, marker: &[u8]) -> Vec<u8> {
    let at = archive
        .windows(marker.len())
        .position(|window| window == marker)
        .unwrap();
    archive[at] ^= 0x01;
    archive
}

#[test]
fn an_oversized_line_is_reported_before_a_later_read_failure() {
    let transcript = format!(
        "[01/02/2026, 09:15:00] Ana: {}\n[01/02/2026, 09:16:00] Bo: MARKER\n",
        "x".repeat(1024 * 1024 + 1)
    );
    let archive = corrupt_marker(synthetic_zip(&[("_chat.txt", transcript.as_bytes())]), b"MARKER");
    assert!(matches!(
        import_whatsapp_export_zip(archive),
        Err(ExportZipError::MessageTooLarge)
    ));

    let archive = corrupt_marker(
        synthetic_zip(&[("_chat.txt", b"[01/02/2026, 09:15:00] Ana: MARKER\n")]),
        b"MARKER",
    );
    assert!(matches!(import_whatsapp_export_zip(archive), Err(ExportZipError::Io(_))));
}

#[test]
fn a_failed_read_is_reported_after_the_lines_it_delivered() {
    let failure = || Some(std::io::Error::new(std::io::ErrorKind::InvalidData, "checksum"));
    let options = WhatsappExportImportOptions::all_messages();
    let ok = b"[01/02/2026, 09:15:00] Ana: hi\n[01/02/2026, 09:16:00] Bo: partial";
    assert!(matches!(read_transcript(ok, failure(), &[], options), Err(ExportZipError::Io(_))));

    let mut long_tail = b"[01/02/2026, 09:15:00] Ana: hi\n".to_vec();
    long_tail.extend(std::iter::repeat_n(b'x', 1024 * 1024 + 1));
    assert!(matches!(
        read_transcript(&long_tail, failure(), &[], options),
        Err(ExportZipError::MessageTooLarge)
    ));

    let imported = read_transcript(ok, None, &[], options).unwrap();
    assert_eq!(imported.imported.messages.len(), 2);
}

#[test]
fn an_unreadable_attachment_is_an_io_error() {
    let archive = corrupt_marker(
        synthetic_zip(&[
            ("_chat.txt", b"[01/02/2026, 09:15:00] Ana: hi\n"),
            ("photo.jpg", b"PHOTOBYTES"),
        ]),
        b"PHOTOBYTES",
    );
    assert!(matches!(
        read_whatsapp_export_attachment(archive.clone(), "photo.jpg", 1024),
        Err(ExportZipError::Io(_))
    ));
    assert!(matches!(
        read_whatsapp_export_attachments(archive, &["photo.jpg"], 1024),
        Err(ExportZipError::Io(_))
    ));
}
