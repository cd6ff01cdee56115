use std::path::Path;

use rusqlite::{Connection, OpenFlags, OptionalExtension};
use tempfile::tempdir;
use whatsvault::whatsapp::chat_storage::{
    chat_from_row, chat_import_from_rows, chat_import_recent_from_rows, chat_list_query, chat_messages_query, chat_title_query,
    empty_chat_import, fallback_chat_title, ChatListRow, ChatStorageMessageRow, TableSchema,
    CHAT_TABLE, MEDIA_ITEM_TABLE, MESSAGE_TABLE,
};
use whatsvault::{AttachmentKind, Chat, ChatImport, ChatStorageSummary, SourceKind};

fn table_exists(connection: &Connection, table_name: &str) -> bool {
    let count: i64 = connection
        .query_row(
            "SELECT COUNT(*) FROM sqlite_master WHERE type = 'table' AND name = ?1",
            [table_name],
            |row| row.get(0),
        )
        .unwrap();
    count > 0
}

fn table_schema(connection: &Connection, table_name: &str) -> Option<TableSchema> {
    if !table_exists(connection, table_name) {
        return None;
    }
    let mut statement = connection.prepare(&format!("PRAGMA table_info({table_name})")).unwrap();
    let columns = statement
        .query_map([], |row| row.get::<_, String>(1))
        .unwrap()
        .map(|row| row.unwrap())
        .collect();
    Some(TableSchema { name: table_name.to_owned(), columns })
}

fn count_table_if_present(connection: &Connection, table_name: &str) -> Option<u64> {
    if !table_exists(connection, table_name) {
        return None;
    }
    let count: i64 = connection
        .query_row(&format!("SELECT COUNT(*) FROM {table_name}"), [], |row| row.get(0))
        .unwrap();
    Some(count as u64)
}

fn summarize_chat_storage(path: &Path) -> Result<ChatStorageSummary, rusqlite::Error> {
    let connection = Connection::open_with_flags(path, OpenFlags::SQLITE_OPEN_READ_ONLY)?;
    Ok(ChatStorageSummary {
        message_count: count_table_if_present(&connection, MESSAGE_TABLE),
        chat_count: count_table_if_present(&connection, CHAT_TABLE),
        media_item_count: count_table_if_present(&connection, MEDIA_ITEM_TABLE),
    })
}

fn list_chat_storage_chats(path: &Path) -> Result<Vec<Chat>, rusqlite::Error> {
    let connection = Connection::open_with_flags(path, OpenFlags::SQLITE_OPEN_READ_ONLY)?;
    let chat = table_schema(&connection, CHAT_TABLE);
    let message = table_schema(&connection, MESSAGE_TABLE);
    let media = table_schema(&connection, MEDIA_ITEM_TABLE);
    let Some(query) = chat_list_query(chat.as_ref(), message.as_ref(), media.as_ref()) else {
        return Ok(Vec::new());
    };
    let mut statement = connection.prepare(&query)?;
    let rows = statement.query_map([], |row| {
        Ok(ChatListRow {
            id: row.get(0)?,
            title: row.get(1)?,
            latest_message: row.get(2)?,
            latest_message_timestamp: row.get(3)?,
            message_count: row.get(4)?,
            attachment_count: row.get(5)?,
        })
    })?;
    let mut chats = Vec::new();
    for row in rows {
        chats.push(chat_from_row(row?));
    }
    Ok(chats)
}

fn import_chat_storage_chat(path: &Path, chat_id: &str) -> Result<ChatImport, rusqlite::Error> {
    let connection = Connection::open_with_flags(path, OpenFlags::SQLITE_OPEN_READ_ONLY)?;
    let chat = table_schema(&connection, CHAT_TABLE);
    let title = match chat_title_query(chat.as_ref()) {
        Some(query) => connection
            .query_row(&query, [chat_id], |row| row.get::<_, String>(0))
            .optional()?
            .unwrap_or_else(|| fallback_chat_title(chat_id)),
        None => fallback_chat_title(chat_id),
    };
    let message = table_schema(&connection, MESSAGE_TABLE);
    let media = table_schema(&connection, MEDIA_ITEM_TABLE);
    let Some(query) = chat_messages_query(message.as_ref(), media.as_ref()) else {
        return Ok(empty_chat_import(title));
    };
    let mut statement = connection.prepare(&query)?;
    let rows = statement.query_map([chat_id], |row| {
        Ok(ChatStorageMessageRow {
            message_pk: row.get(0)?,
            timestamp: row.get(1)?,
            is_from_me: row.get(2)?,
            message_text: row.get(3)?,
            from_jid: row.get(4)?,
            push_name: row.get(5)?,
            media_pk: row.get(6)?,
            media_path: row.get(7)?,
            media_type: row.get(8)?,
            media_title: row.get(9)?,
            media_size: row.get(10)?,
        })
    })?;
    let mut collected = Vec::new();
    for row in rows {
        collected.push(row?);
    }
    Ok(chat_import_from_rows(title, &collected))
}

fn create_chat_storage(path: &Path) {
    let connection = Connection::open(path).unwrap();
    connection
        .execute_batch(
            r#"
            CREATE TABLE ZWAMESSAGE (
                Z_PK INTEGER PRIMARY KEY,
                ZTEXT TEXT
            );
            CREATE TABLE ZWACHATSESSION (
                Z_PK INTEGER PRIMARY KEY,
                ZCONTACTJID TEXT
            );
            CREATE TABLE ZWAMEDIAITEM (
                Z_PK INTEGER PRIMARY KEY,
                ZMESSAGE INTEGER
            );

            INSERT INTO ZWAMESSAGE (ZTEXT) VALUES ('hello'), ('reply'), ('photo');
            INSERT INTO ZWACHATSESSION (ZCONTACTJID) VALUES ('one@s.whatsapp.net'), ('group@g.us');
            INSERT INTO ZWAMEDIAITEM (ZMESSAGE) VALUES (3);
            "#,
        )
        .unwrap();
}

fn create_threaded_chat_storage(path: &Path) {
    let connection = Connection::open(path).unwrap();
    connection
        .execute_batch(
            r#"
            CREATE TABLE ZWACHATSESSION (
                Z_PK INTEGER PRIMARY KEY,
                ZCONTACTJID TEXT,
                ZPARTNERNAME TEXT,
                ZMESSAGECOUNTER INTEGER,
                ZLASTMESSAGEDATE REAL,
                ZLASTMESSAGE INTEGER
            );
            CREATE TABLE ZWAMESSAGE (
                Z_PK INTEGER PRIMARY KEY,
                ZCHATSESSION INTEGER,
                ZSORT INTEGER,
                ZISFROMME INTEGER,
                ZMESSAGETYPE INTEGER,
                ZMESSAGEDATE REAL,
                ZTEXT TEXT,
                ZFROMJID TEXT,
                ZPUSHNAME TEXT,
                ZMEDIAITEM INTEGER
            );
            CREATE TABLE ZWAMEDIAITEM (
                Z_PK INTEGER PRIMARY KEY,
                ZMESSAGE INTEGER,
                ZMEDIALOCALPATH TEXT,
                ZVCARDSTRING TEXT,
                ZTITLE TEXT,
                ZFILESIZE INTEGER
            );

            INSERT INTO ZWACHATSESSION
                (Z_PK, ZCONTACTJID, ZPARTNERNAME, ZMESSAGECOUNTER, ZLASTMESSAGEDATE, ZLASTMESSAGE)
            VALUES
                (1, 'design-preview@s.whatsapp.net', 'Design Preview', 3, 120, 3),
                (2, 'archive@g.us', NULL, 1, 60, 4);

            INSERT INTO ZWAMESSAGE
                (Z_PK, ZCHATSESSION, ZSORT, ZISFROMME, ZMESSAGETYPE, ZMESSAGEDATE, ZTEXT, ZFROMJID, ZPUSHNAME, ZMEDIAITEM)
            VALUES
                (1, 1, 1, 0, 0, 60, 'hello from backup', 'contact-one@s.whatsapp.net', 'Contact One', NULL),
                (2, 1, 2, 1, 1, 90, 'photo attached', NULL, NULL, 10),
                (3, 1, 3, 0, 3, 120, '', 'alex@s.whatsapp.net', 'Alex', 11),
                (4, 2, 1, 0, 0, 60, 'archived message', 'archive@g.us', 'Archive', NULL);

            INSERT INTO ZWAMEDIAITEM
                (Z_PK, ZMESSAGE, ZMEDIALOCALPATH, ZVCARDSTRING, ZTITLE, ZFILESIZE)
            VALUES
                (10, 2, 'Message/Media/photo.jpg', 'image/jpeg', 'photo.jpg', 1234),
                (11, 3, 'Message/Media/voice.opus', 'audio/ogg', 'voice.opus', 4321);
            "#,
        )
        .unwrap();
}

fn create_minimal_chat_storage(path: &Path) {
    let connection = Connection::open(path).unwrap();
    connection
        .execute_batch(
            r#"
            CREATE TABLE ZWACHATSESSION (
                Z_PK INTEGER PRIMARY KEY,
                ZCONTACTJID TEXT
            );
            CREATE TABLE ZWAMESSAGE (
                Z_PK INTEGER PRIMARY KEY,
                ZCHATSESSION INTEGER,
                ZTEXT TEXT
            );

            INSERT INTO ZWACHATSESSION (Z_PK, ZCONTACTJID)
            VALUES (7, 'minimal@s.whatsapp.net');
            INSERT INTO ZWAMESSAGE (Z_PK, ZCHATSESSION, ZTEXT)
            VALUES (70, 7, 'minimal schema message');
            "#,
        )
        .unwrap();
}

#[test]
fn summarizes_known_ios_whatsapp_chat_storage_tables() {
    let root = tempdir().unwrap();
    let chat_storage = root.path().join("ChatStorage.sqlite");
    create_chat_storage(&chat_storage);

    let summary = summarize_chat_storage(&chat_storage).unwrap();

    assert_eq!(summary.message_count, Some(3));
    assert_eq!(summary.chat_count, Some(2));
    assert_eq!(summary.media_item_count, Some(1));
}

#[test]
fn leaves_missing_table_counts_empty_without_failing() {
    let root = tempdir().unwrap();
    let chat_storage = root.path().join("ChatStorage.sqlite");
    let connection = Connection::open(&chat_storage).unwrap();
    connection
        .execute_batch(
            r#"
            CREATE TABLE ZWAMESSAGE (
                Z_PK INTEGER PRIMARY KEY,
                ZTEXT TEXT
            );
            INSERT INTO ZWAMESSAGE (ZTEXT) VALUES ('hello');
            "#,
        )
        .unwrap();

    let summary = summarize_chat_storage(&chat_storage).unwrap();

    assert_eq!(summary.message_count, Some(1));
    assert_eq!(summary.chat_count, None);
    assert_eq!(summary.media_item_count, None);
}

#[test]
fn lists_chat_storage_chats_sorted_by_latest_message() {
    let root = tempdir().unwrap();
    let chat_storage = root.path().join("ChatStorage.sqlite");
    create_threaded_chat_storage(&chat_storage);

    let chats = list_chat_storage_chats(&chat_storage).unwrap();

    assert_eq!(chats.len(), 2);
    assert_eq!(chats[0].id, "1");
    assert_eq!(chats[0].title, "Design Preview");
    assert_eq!(chats[0].latest_message.as_deref(), Some("voice.opus"));
    assert_eq!(
        chats[0]
            .latest_message_timestamp
            .as_ref()
            .map(|time| time.raw.as_str()),
        Some("01/01/2001, 00:02")
    );
    assert_eq!(chats[0].message_count, 3);
    assert_eq!(chats[0].attachment_count, 2);
    assert_eq!(chats[1].id, "2");
    assert_eq!(chats[1].title, "archive@g.us");
}

#[test]
fn imports_selected_chat_storage_thread_as_normalized_chat_import() {
    let root = tempdir().unwrap();
    let chat_storage = root.path().join("ChatStorage.sqlite");
    create_threaded_chat_storage(&chat_storage);

    let imported = import_chat_storage_chat(&chat_storage, "1").unwrap();

    assert_eq!(imported.source_kind, SourceKind::IphoneBackup);
    assert_eq!(imported.transcript_name.as_deref(), Some("Design Preview"));
    assert!(imported.issues.is_empty());
    assert_eq!(imported.messages.len(), 3);
    assert_eq!(imported.attachments.len(), 2);

    assert_eq!(imported.messages[0].sender.as_deref(), Some("Contact One"));
    assert_eq!(imported.messages[0].body, "hello from backup");
    assert_eq!(imported.messages[0].timestamp.raw, "01/01/2001, 00:01");

    assert_eq!(imported.messages[1].sender.as_deref(), Some("You"));
    assert_eq!(imported.messages[1].body, "photo attached");
    assert_eq!(
        imported.messages[1].attachment_ids,
        vec!["chat-storage-media-00000010"]
    );

    assert_eq!(imported.messages[2].sender.as_deref(), Some("Alex"));
    assert_eq!(imported.messages[2].body, "voice.opus");
    assert_eq!(
        imported.messages[2].attachment_ids,
        vec!["chat-storage-media-00000011"]
    );

    assert_eq!(imported.attachments[0].id, "chat-storage-media-00000010");
    assert_eq!(
        imported.attachments[0].archive_path,
        "Message/Media/photo.jpg"
    );
    assert_eq!(imported.attachments[0].filename, "photo.jpg");
    assert_eq!(imported.attachments[0].kind, AttachmentKind::Photo);
    assert_eq!(imported.attachments[0].size_bytes, 1234);

    assert_eq!(imported.attachments[1].id, "chat-storage-media-00000011");
    assert_eq!(imported.attachments[1].kind, AttachmentKind::Audio);
}

#[test]
fn imports_minimal_chat_storage_schema_without_optional_columns() {
    let root = tempdir().unwrap();
    let chat_storage = root.path().join("ChatStorage.sqlite");
    create_minimal_chat_storage(&chat_storage);

    let chats = list_chat_storage_chats(&chat_storage).unwrap();
    let imported = import_chat_storage_chat(&chat_storage, "7").unwrap();

    assert_eq!(chats.len(), 1);
    assert_eq!(chats[0].id, "7");
    assert_eq!(chats[0].title, "minimal@s.whatsapp.net");
    assert_eq!(chats[0].message_count, 1);
    assert_eq!(chats[0].attachment_count, 0);
    assert_eq!(
        imported.transcript_name.as_deref(),
        Some("minimal@s.whatsapp.net")
    );
    assert_eq!(imported.messages.len(), 1);
    assert_eq!(imported.messages[0].body, "minimal schema message");
    assert_eq!(imported.messages[0].timestamp.raw, "Unknown time");
    assert!(imported.attachments.is_empty());
}

#[test]
fn rows_become_messages_with_ids_and_deduplicated_media() {
    let row = |pk: i64, media_pk: Option<i64>| ChatStorageMessageRow {
        message_pk: pk,
        timestamp: None,
        is_from_me: Some(0),
        message_text: Some("  ".to_owned()),
        from_jid: Some("123@s.whatsapp.net".to_owned()),
        push_name: None,
        media_pk,
        media_path: Some("Message\\Media\\a.jpg".to_owned()),
        media_type: Some("image/jpeg".to_owned()),
        media_title: None,
        media_size: Some(-5),
    };
    let imported = chat_import_from_rows(
        "t".to_owned(),
        &[row(1, Some(7)), row(-3, Some(7)), row(12, None)],
    );
    assert_eq!(imported.source_kind, SourceKind::IphoneBackup);
    assert_eq!(imported.messages.len(), 3);
    assert_eq!(imported.messages[0].id, "chat-storage-message-00000001");
    assert_eq!(imported.messages[1].id, "chat-storage-message--0000003");
    assert_eq!(imported.messages[0].timestamp.raw, "Unknown time");
    assert_eq!(imported.messages[0].sender.as_deref(), Some("123@s.whatsapp.net"));
    assert_eq!(imported.messages[0].body, "a.jpg");
    assert_eq!(imported.attachments.len(), 1);
    assert_eq!(imported.attachments[0].id, "chat-storage-media-00000007");
    assert_eq!(imported.attachments[0].size_bytes, 0);
    assert_eq!(imported.attachments[0].kind, AttachmentKind::Photo);
    assert_eq!(imported.messages[1].attachment_ids, vec!["chat-storage-media-00000007"]);
    assert!(imported.messages[2].attachment_ids.is_empty());
}

#[test]
fn recent_window_keeps_the_latest_rows_and_counts_them_all() {
    let row = |pk: i64| ChatStorageMessageRow {
        message_pk: pk,
        timestamp: None,
        is_from_me: Some(1),
        message_text: Some(format!("m{pk}")),
        from_jid: None,
        push_name: None,
        media_pk: None,
        media_path: None,
        media_type: None,
        media_title: None,
        media_size: None,
    };
    let rows = vec![row(1), row(2), row(3), row(4)];
    let (imported, total) = chat_import_recent_from_rows("t".to_owned(), &rows, 2);
    assert_eq!(total, 4);
    let bodies: Vec<&str> = imported.messages.iter().map(|m| m.body.as_str()).collect();
    assert_eq!(bodies, vec!["m3", "m4"]);

    let (all, total) = chat_import_recent_from_rows("t".to_owned(), &rows, 10);
    assert_eq!(total, 4);
    assert_eq!(all.messages.len(), 4);

    let (none, total) = chat_import_recent_from_rows("t".to_owned(), &rows, 0);
    assert_eq!(total, 4);
    assert!(none.messages.is_empty());
}
