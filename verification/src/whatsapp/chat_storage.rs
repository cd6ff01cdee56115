//! How ChatStorage.sqlite is read: the SQL for the columns that a given
//! database has, and what its rows become.
use vstd::prelude::*;

use crate::media::{attachment_kind_from_mime_or_filename, spec_kind_from_mime_or_filename};
use crate::model::{
    attachments_view, messages_view, opt_view, strings_view, Attachment, AttachmentV, Chat,
    ChatImport, ChatImportV, Message, MessageTimestamp, MessageV,
    SourceKind,
};
use crate::text::{
    append_all, decimal, decimal_exec, push_str, string_of, zero_pad, zero_pad_exec,
};
use crate::whatsapp::chat_storage_display::{
    filename_from_media_path, filename_from_media_path_of, first_nonempty, first_nonempty_of,
};

verus! {

pub const MESSAGE_TABLE: &'static str = "ZWAMESSAGE";

pub const CHAT_TABLE: &'static str = "ZWACHATSESSION";

pub const MEDIA_ITEM_TABLE: &'static str = "ZWAMEDIAITEM";

/// A table of the database and the columns it has.
#[derive(Debug, Clone)]
pub struct TableSchema {
    pub name: String,
    pub columns: Vec<String>,
}

impl TableSchema {
    pub open spec fn has_column(self, column: Seq<char>) -> bool {
        strings_view(self.columns@).contains(column)
    }

    pub fn has(&self, column: &str) -> (b: bool)
        ensures
            b == self.has_column(column@),
    {
        let c = column.to_string();
        let mut i: usize = 0;
        while i < self.columns.len()
            invariant
                i <= self.columns@.len(),
                c@ == column@,
                forall|k: int| 0 <= k < i ==> (#[trigger] self.columns@[k])@ != column@,
            decreases self.columns@.len() - i,
        {
            if self.columns[i] == c {
                assert(strings_view(self.columns@)[i as int] == column@);
                return true;
            }
            i += 1;
        }
        assert forall|k: int| 0 <= k < strings_view(self.columns@).len() implies strings_view(
            self.columns@,
        )[k] != column@ by {
            assert(strings_view(self.columns@)[k] == self.columns@[k]@);
        }
        false
    }
}

pub open spec fn schema_has(s: Option<TableSchema>, column: Seq<char>) -> bool {
    s is Some && s->0.has_column(column)
}

fn opt_has(s: Option<&TableSchema>, column: &str) -> (b: bool)
    ensures
        b == (s is Some && s->0.has_column(column@)),
{
    match s {
        Some(t) => t.has(column),
        None => false,
    }
}

pub open spec fn opt_ref(s: Option<&TableSchema>) -> Option<TableSchema> {
    match s {
        Some(t) => Some(*t),
        None => None,
    }
}

// ---------------------------------------------------------------------------
// Column expressions
// ---------------------------------------------------------------------------
/// A column read as text, trimmed, with an empty value read as NULL.
pub open spec fn text_column_expr_of(alias: Seq<char>, column: Seq<char>) -> Seq<char> {
    "NULLIF(TRIM(CAST("@ + alias + "."@ + column + " AS TEXT)), '')"@
}

pub fn text_column_expr(alias: &str, column: &str) -> (r: String)
    ensures
        r@ == text_column_expr_of(alias@, column@),
{
    let mut out: Vec<char> = Vec::new();
    
    push_str(&mut out, "NULLIF(TRIM(CAST(");
    push_str(&mut out, alias);
    push_str(&mut out, ".");
    push_str(&mut out, column);
    push_str(&mut out, " AS TEXT)), '')");
    string_of(out)
}
/// Seconds since 2001-01-01 (Apple's reference date) as `MM/DD/YYYY, HH:MM`.
pub open spec fn cocoa_timestamp_expr_of(seconds_expr: Seq<char>) -> Seq<char> {
    "strftime('%m/%d/%Y, %H:%M', '2001-01-01', CAST("@ + seconds_expr + " AS TEXT) || ' seconds')"@
}

pub fn cocoa_timestamp_expr(seconds_expr: &str) -> (r: String)
    ensures
        r@ == cocoa_timestamp_expr_of(seconds_expr@),
{
    let mut out: Vec<char> = Vec::new();
    
    push_str(&mut out, "strftime('%m/%d/%Y, %H:%M', '2001-01-01', CAST(");
    push_str(&mut out, seconds_expr);
    push_str(&mut out, " AS TEXT) || ' seconds')");
    string_of(out)
}

/// A text column of the table when it has it, else NULL.
pub open spec fn nullable_text_expr_of(alias: Seq<char>, schema: TableSchema, column: Seq<char>) -> Seq<
    char,
> {
    if schema.has_column(column) {
        text_column_expr_of(alias, column)
    } else {
        "NULL"@
    }
}

pub fn nullable_text_expr(alias: &str, schema: &TableSchema, column: &str) -> (r: String)
    ensures
        r@ == nullable_text_expr_of(alias@, *schema, column@),
{
    if schema.has(column) {
        text_column_expr(alias, column)
    } else {
        "NULL".to_string()
    }
}

/// A column of the table as it is when it has it, else NULL.
pub open spec fn nullable_number_expr_of(alias: Seq<char>, schema: TableSchema, column: Seq<char>) -> Seq<
    char,
> {
    if schema.has_column(column) {
        alias + "."@ + column
    } else {
        "NULL"@
    }
}

pub fn nullable_number_expr(alias: &str, schema: &TableSchema, column: &str) -> (r: String)
    ensures
        r@ == nullable_number_expr_of(alias@, *schema, column@),
{
    if schema.has(column) {
        let mut out: Vec<char> = Vec::new();
        push_str(&mut out, alias);
        push_str(&mut out, ".");
        push_str(&mut out, column);
        string_of(out)
    } else {
        "NULL".to_string()
    }
}

/// A column of the joined media table when there is one with that column.
pub open spec fn media_column_expr_of(media: Option<TableSchema>, column: Seq<char>) -> Seq<char> {
    if schema_has(media, column) {
        "mi."@ + column
    } else {
        "NULL"@
    }
}

pub fn media_column_expr(media: Option<&TableSchema>, column: &str) -> (r: String)
    ensures
        r@ == media_column_expr_of(opt_ref(media), column@),
{
    if opt_has(media, column) {
        let mut out: Vec<char> = Vec::new();
        push_str(&mut out, "mi.");
        push_str(&mut out, column);
        string_of(out)
    } else {
        "NULL".to_string()
    }
}

/// A text column of the joined media table when there is one with that column.
pub open spec fn media_text_column_expr_of(media: Option<TableSchema>, column: Seq<char>) -> Seq<
    char,
> {
    if schema_has(media, column) {
        text_column_expr_of("mi"@, column)
    } else {
        "NULL"@
    }
}

pub fn media_text_column_expr(media: Option<&TableSchema>, column: &str) -> (r: String)
    ensures
        r@ == media_text_column_expr_of(opt_ref(media), column@),
{
    if opt_has(media, column) {
        text_column_expr("mi", column)
    } else {
        "NULL".to_string()
    }
}

pub open spec fn strs_view(v: Seq<&str>) -> Seq<Seq<char>> {
    v.map_values(|s: &str| s@)
}

/// The text expressions of the columns that the table has, in order.
pub open spec fn present_text_columns(alias: Seq<char>, schema: TableSchema, columns: Seq<Seq<char>>) -> Seq<
    Seq<char>,
>
    decreases columns.len(),
{
    if columns.len() == 0 {
        seq![]
    } else {
        let rest = present_text_columns(alias, schema, columns.drop_last());
        if schema.has_column(columns.last()) {
            rest.push(text_column_expr_of(alias, columns.last()))
        } else {
            rest
        }
    }
}

/// Parts joined with `, `.
pub open spec fn join_comma(parts: Seq<Seq<char>>) -> Seq<char>
    decreases parts.len(),
{
    if parts.len() == 0 {
        seq![]
    } else if parts.len() == 1 {
        parts[0]
    } else {
        join_comma(parts.drop_last()) + ", "@ + parts.last()
    }
}

/// The first non-empty text among the columns that the table has, else the
/// fallback.
pub open spec fn coalesced_text_expr_of(
    alias: Seq<char>,
    schema: TableSchema,
    columns: Seq<Seq<char>>,
    fallback: Seq<char>,
) -> Seq<char> {
    "COALESCE("@ + join_comma(present_text_columns(alias, schema, columns).push(fallback)) + ")"@
}

pub fn coalesced_text_expr(alias: &str, schema: &TableSchema, columns: &[&str], fallback: &str) -> (r:
    String)
    ensures
        r@ == coalesced_text_expr_of(alias@, *schema, strs_view(columns@), fallback@),
{
    let ghost cv = strs_view(columns@);
    let mut parts: Vec<String> = Vec::new();
    let mut i: usize = 0;
    assert(cv.take(0) =~= Seq::<Seq<char>>::empty());
    while i < columns.len()
        invariant
            i <= columns@.len(),
            cv == strs_view(columns@),
            strings_view(parts@) == present_text_columns(alias@, *schema, cv.take(i as int)),
        decreases columns@.len() - i,
    {
        assert(cv.take(i + 1).drop_last() =~= cv.take(i as int));
        assert(cv.take(i + 1).last() == columns@[i as int]@);
        if schema.has(columns[i]) {
            let ghost before = strings_view(parts@);
            let e = text_column_expr(alias, columns[i]);
            parts.push(e);
            assert(strings_view(parts@) =~= before.push(e@));
        }
        i += 1;
    }
    assert(cv.take(columns@.len() as int) =~= cv);
    let ghost before = strings_view(parts@);
    parts.push(fallback.to_string());
    assert(strings_view(parts@) =~= before.push(fallback@));
    let ghost pv = strings_view(parts@);
    let mut out: Vec<char> = Vec::new();
    push_str(&mut out, "COALESCE(");
    let ghost head = out@;
    let mut k: usize = 0;
    assert(pv.take(0) =~= Seq::<Seq<char>>::empty());
    while k < parts.len()
        invariant
            k <= parts@.len(),
            pv == strings_view(parts@),
            out@ == head + join_comma(pv.take(k as int)),
        decreases parts@.len() - k,
    {
        assert(pv.take(k + 1).drop_last() =~= pv.take(k as int));
        assert(pv.take(k + 1).last() == parts@[k as int]@);
        if k > 0 {
            push_str(&mut out, ", ");
        } else {
            assert(pv.take(1) =~= seq![parts@[0]@]);
        }
        push_str(&mut out, parts[k].as_str());
        k += 1;
    }
    assert(pv.take(parts@.len() as int) =~= pv);
    push_str(&mut out, ")");
    string_of(out)
}

/// The order of a chat's messages: the sort column, else the date, else the
/// primary key.
pub open spec fn message_order_expr_of(schema: TableSchema) -> Seq<char> {
    if schema.has_column("ZSORT"@) {
        "m.ZSORT"@
    } else if schema.has_column("ZMESSAGEDATE"@) {
        "m.ZMESSAGEDATE"@
    } else {
        "m.Z_PK"@
    }
}

pub fn message_order_expr(schema: &TableSchema) -> (r: String)
    ensures
        r@ == message_order_expr_of(*schema),
{
    if schema.has("ZSORT") {
        "m.ZSORT".to_string()
    } else if schema.has("ZMESSAGEDATE") {
        "m.ZMESSAGEDATE".to_string()
    } else {
        "m.Z_PK".to_string()
    }
}

/// How messages are joined to their media items, by whichever link the
/// tables have.
pub open spec fn media_join_expr_of(message: TableSchema, media: Option<TableSchema>) -> Seq<char> {
    match media {
        None => seq![],
        Some(mi) => if message.has_column("ZMEDIAITEM"@) && mi.has_column("Z_PK"@) {
            "LEFT JOIN "@ + mi.name@ + " mi ON m.ZMEDIAITEM = mi.Z_PK"@
        } else if message.has_column("Z_PK"@) && mi.has_column("ZMESSAGE"@) {
            "LEFT JOIN "@ + mi.name@ + " mi ON mi.ZMESSAGE = m.Z_PK"@
        } else {
            seq![]
        },
    }
}

pub fn media_join_expr(message: &TableSchema, media: Option<&TableSchema>) -> (r: String)
    ensures
        r@ == media_join_expr_of(*message, opt_ref(media)),
{
    match media {
        None => String::new(),
        Some(mi) => {
            if message.has("ZMEDIAITEM") && mi.has("Z_PK") {
                let mut out: Vec<char> = Vec::new();
                push_str(&mut out, "LEFT JOIN ");
                push_str(&mut out, mi.name.as_str());
                push_str(&mut out, " mi ON m.ZMEDIAITEM = mi.Z_PK");
                string_of(out)
            } else if message.has("Z_PK") && mi.has("ZMESSAGE") {
                let mut out: Vec<char> = Vec::new();
                push_str(&mut out, "LEFT JOIN ");
                push_str(&mut out, mi.name.as_str());
                push_str(&mut out, " mi ON mi.ZMESSAGE = m.Z_PK");
                string_of(out)
            } else {
                String::new()
            }
        },
    }
}

/// The date of a chat's latest message: the chat's own column, else the
/// latest message date, else NULL.
pub open spec fn chat_last_date_expr_of(chat: TableSchema, message: Option<TableSchema>) -> Seq<char> {
    if chat.has_column("ZLASTMESSAGEDATE"@) {
        "c.ZLASTMESSAGEDATE"@
    } else if schema_has(message, "ZCHATSESSION"@) && schema_has(message, "ZMESSAGEDATE"@) {
        "(SELECT MAX(m.ZMESSAGEDATE) FROM ZWAMESSAGE m WHERE m.ZCHATSESSION = c.Z_PK)"@
    } else {
        "NULL"@
    }
}

pub fn chat_last_date_expr(chat: &TableSchema, message: Option<&TableSchema>) -> (r: String)
    ensures
        r@ == chat_last_date_expr_of(*chat, opt_ref(message)),
{
    if chat.has("ZLASTMESSAGEDATE") {
        "c.ZLASTMESSAGEDATE".to_string()
    } else if opt_has(message, "ZCHATSESSION") && opt_has(message, "ZMESSAGEDATE") {
        "(SELECT MAX(m.ZMESSAGEDATE) FROM ZWAMESSAGE m WHERE m.ZCHATSESSION = c.Z_PK)".to_string()
    } else {
        "NULL".to_string()
    }
}

/// A chat's number of messages: its counter column, else a count of its
/// messages, else 0.
pub open spec fn chat_message_count_expr_of(chat: TableSchema, message: Option<TableSchema>) -> Seq<char> {
    if chat.has_column("ZMESSAGECOUNTER"@) {
        "c.ZMESSAGECOUNTER"@
    } else if schema_has(message, "ZCHATSESSION"@) {
        "(SELECT COUNT(*) FROM ZWAMESSAGE m WHERE m.ZCHATSESSION = c.Z_PK)"@
    } else {
        "0"@
    }
}

pub fn chat_message_count_expr(chat: &TableSchema, message: Option<&TableSchema>) -> (r: String)
    ensures
        r@ == chat_message_count_expr_of(*chat, opt_ref(message)),
{
    if chat.has("ZMESSAGECOUNTER") {
        "c.ZMESSAGECOUNTER".to_string()
    } else if opt_has(message, "ZCHATSESSION") {
        "(SELECT COUNT(*) FROM ZWAMESSAGE m WHERE m.ZCHATSESSION = c.Z_PK)".to_string()
    } else {
        "0".to_string()
    }
}

/// A chat's number of media items, by whichever link the tables have, else 0.
pub open spec fn chat_attachment_count_expr_of(message: Option<TableSchema>, media: Option<TableSchema>) -> Seq<
    char,
> {
    if message is None || media is None {
        "0"@
    } else if !schema_has(message, "Z_PK"@) || !schema_has(message, "ZCHATSESSION"@) {
        "0"@
    } else if schema_has(media, "ZMESSAGE"@) {
        "\n            (\n                SELECT COUNT(*)\n                FROM ZWAMEDIAITEM mi\n                JOIN ZWAMESSAGE m ON mi.ZMESSAGE = m.Z_PK\n                WHERE m.ZCHATSESSION = c.Z_PK\n            )\n            "@
    } else if schema_has(message, "ZMEDIAITEM"@) && schema_has(media, "Z_PK"@) {
        "\n            (\n                SELECT COUNT(*)\n                FROM ZWAMESSAGE m\n                JOIN ZWAMEDIAITEM mi ON m.ZMEDIAITEM = mi.Z_PK\n                WHERE m.ZCHATSESSION = c.Z_PK\n            )\n            "@
    } else {
        "0"@
    }
}

/// `part` stands somewhere in `whole`.
pub open spec fn text_contains(whole: Seq<char>, part: Seq<char>) -> bool {
    exists|x: Seq<char>, y: Seq<char>| whole =~= x + part + y
}

/// A chat's attachment count is 0 when the tables cannot link media to chats,
/// and otherwise counts only the media of that chat's own messages: the
/// count is restricted to the chat's session; when the message table has its
/// key and session columns and the media table links to messages, it is a
/// count over the media items.
pub proof fn lemma_attachment_count_is_per_chat(
    message: Option<TableSchema>,
    media: Option<TableSchema>,
)
    ensures
        chat_attachment_count_expr_of(message, media) == "0"@ || text_contains(
            chat_attachment_count_expr_of(message, media),
            "WHERE m.ZCHATSESSION = c.Z_PK"@,
        ),
        message is Some && media is Some && schema_has(message, "Z_PK"@) && schema_has(
            message,
            "ZCHATSESSION"@,
        ) && schema_has(media, "ZMESSAGE"@) ==> text_contains(
            chat_attachment_count_expr_of(message, media),
            "SELECT COUNT(*)\n                FROM ZWAMEDIAITEM mi\n                JOIN ZWAMESSAGE m ON mi.ZMESSAGE = m.Z_PK\n                WHERE m.ZCHATSESSION = c.Z_PK"@,
        ),
{
    let w = "WHERE m.ZCHATSESSION = c.Z_PK"@;
    reveal_strlit("WHERE m.ZCHATSESSION = c.Z_PK");
    reveal_strlit("\n            (\n                SELECT COUNT(*)\n                FROM ZWAMEDIAITEM mi\n                JOIN ZWAMESSAGE m ON mi.ZMESSAGE = m.Z_PK\n                WHERE m.ZCHATSESSION = c.Z_PK\n            )\n            ");
    reveal_strlit("\n            (\n                SELECT COUNT(*)\n                FROM ZWAMESSAGE m\n                JOIN ZWAMEDIAITEM mi ON m.ZMEDIAITEM = mi.Z_PK\n                WHERE m.ZCHATSESSION = c.Z_PK\n            )\n            ");
    reveal_strlit("\n            (\n                SELECT COUNT(*)\n                FROM ZWAMEDIAITEM mi\n                JOIN ZWAMESSAGE m ON mi.ZMESSAGE = m.Z_PK\n                ");
    reveal_strlit("\n            )\n            ");
    reveal_strlit("\n            (\n                SELECT COUNT(*)\n                FROM ZWAMESSAGE m\n                JOIN ZWAMEDIAITEM mi ON m.ZMEDIAITEM = mi.Z_PK\n                ");
    reveal_strlit("\n            )\n            ");
    let e = chat_attachment_count_expr_of(message, media);
    if e == "\n            (\n                SELECT COUNT(*)\n                FROM ZWAMEDIAITEM mi\n                JOIN ZWAMESSAGE m ON mi.ZMESSAGE = m.Z_PK\n                WHERE m.ZCHATSESSION = c.Z_PK\n            )\n            "@ {
        assert(e =~= "\n            (\n                SELECT COUNT(*)\n                FROM ZWAMEDIAITEM mi\n                JOIN ZWAMESSAGE m ON mi.ZMESSAGE = m.Z_PK\n                "@ + w + "\n            )\n            "@);
        let c = "SELECT COUNT(*)\n                FROM ZWAMEDIAITEM mi\n                JOIN ZWAMESSAGE m ON mi.ZMESSAGE = m.Z_PK\n                WHERE m.ZCHATSESSION = c.Z_PK"@;
        reveal_strlit("SELECT COUNT(*)\n                FROM ZWAMEDIAITEM mi\n                JOIN ZWAMESSAGE m ON mi.ZMESSAGE = m.Z_PK\n                WHERE m.ZCHATSESSION = c.Z_PK");
        reveal_strlit("\n            (\n                ");
        assert(e =~= "\n            (\n                "@ + c + "\n            )\n            "@);
    } else if e == "\n            (\n                SELECT COUNT(*)\n                FROM ZWAMESSAGE m\n                JOIN ZWAMEDIAITEM mi ON m.ZMEDIAITEM = mi.Z_PK\n                WHERE m.ZCHATSESSION = c.Z_PK\n            )\n            "@ {
        assert(e =~= "\n            (\n                SELECT COUNT(*)\n                FROM ZWAMESSAGE m\n                JOIN ZWAMEDIAITEM mi ON m.ZMEDIAITEM = mi.Z_PK\n                "@ + w + "\n            )\n            "@);
    }
}

pub fn chat_attachment_count_expr(message: Option<&TableSchema>, media: Option<&TableSchema>) -> (r:
    String)
    ensures
        r@ == chat_attachment_count_expr_of(opt_ref(message), opt_ref(media)),
{
    if message.is_none() || media.is_none() {
        return "0".to_string();
    }
    if !opt_has(message, "Z_PK") || !opt_has(message, "ZCHATSESSION") {
        return "0".to_string();
    }
    if opt_has(media, "ZMESSAGE") {
        return "\n            (\n                SELECT COUNT(*)\n                FROM ZWAMEDIAITEM mi\n                JOIN ZWAMESSAGE m ON mi.ZMESSAGE = m.Z_PK\n                WHERE m.ZCHATSESSION = c.Z_PK\n            )\n            ".to_string();
    }
    if opt_has(message, "ZMEDIAITEM") && opt_has(media, "Z_PK") {
        return "\n            (\n                SELECT COUNT(*)\n                FROM ZWAMESSAGE m\n                JOIN ZWAMEDIAITEM mi ON m.ZMEDIAITEM = mi.Z_PK\n                WHERE m.ZCHATSESSION = c.Z_PK\n            )\n            ".to_string();
    }
    "0".to_string()
}

/// The preview text of a chat's latest message (its text, else its media's
/// title or path), or NULL when messages cannot be tied to chats.
pub open spec fn latest_message_expr_of(message: Option<TableSchema>, media: Option<TableSchema>) -> Seq<
    char,
> {
    match message {
        None => "NULL"@,
        Some(msg) => if !msg.has_column("ZCHATSESSION"@) || !msg.has_column("Z_PK"@) {
            "NULL"@
        } else {
            "\n        (\n            SELECT COALESCE(\n                "@ + nullable_text_expr_of("m"@, msg, "ZTEXT"@) + ",\n                "@ + media_text_column_expr_of(media, "ZTITLE"@) + ",\n                "@ + media_text_column_expr_of(media, "ZMEDIALOCALPATH"@) + "\n            )\n            FROM ZWAMESSAGE m\n            "@ + media_join_expr_of(msg, media) + "\n            WHERE m.ZCHATSESSION = c.Z_PK\n            ORDER BY "@ + message_order_expr_of(msg) + " DESC, m.Z_PK DESC\n            LIMIT 1\n        )\n        "@
        },
    }
}

#[verifier::spinoff_prover]
pub fn latest_message_expr(message: Option<&TableSchema>, media: Option<&TableSchema>) -> (r: String)
    ensures
        r@ == latest_message_expr_of(opt_ref(message), opt_ref(media)),
{
    let msg = match message {
        None => {
            return "NULL".to_string();
        },
        Some(m) => m,
    };
    if !msg.has("ZCHATSESSION") || !msg.has("Z_PK") {
        return "NULL".to_string();
    }
    let text = nullable_text_expr("m", msg, "ZTEXT");
    let join = media_join_expr(msg, media);
    let title = media_text_column_expr(media, "ZTITLE");
    let path = media_text_column_expr(media, "ZMEDIALOCALPATH");
    let order = message_order_expr(msg);
    let mut out: Vec<char> = Vec::new();
    push_str(&mut out, "\n        (\n            SELECT COALESCE(\n                ");
    push_str(&mut out, text.as_str());
    push_str(&mut out, ",\n                ");
    push_str(&mut out, title.as_str());
    push_str(&mut out, ",\n                ");
    push_str(&mut out, path.as_str());
    push_str(&mut out, "\n            )\n            FROM ZWAMESSAGE m\n            ");
    push_str(&mut out, join.as_str());
    push_str(&mut out, "\n            WHERE m.ZCHATSESSION = c.Z_PK\n            ORDER BY ");
    push_str(&mut out, order.as_str());
    push_str(&mut out, " DESC, m.Z_PK DESC\n            LIMIT 1\n        )\n        ");
    string_of(out)
}

/// The query that lists the chats, latest first; `None` when the database has
/// no chat table with a primary key (the list is then empty).
pub open spec fn chat_list_query_of(
    chat: Option<TableSchema>,
    message: Option<TableSchema>,
    media: Option<TableSchema>,
) -> Option<Seq<char>> {
    match chat {
        None => None,
        Some(chat) => if !chat.has_column("Z_PK"@) {
            None
        } else {
            Some("\n        SELECT\n            CAST(c.Z_PK AS TEXT) AS id,\n            "@ + coalesced_text_expr_of("c"@, chat, seq!["ZPARTNERNAME"@, "ZCONTACTJID"@], "'Imported chat'"@) + " AS title,\n            "@ + latest_message_expr_of(message, media) + " AS latest_message,\n            "@ + cocoa_timestamp_expr_of(chat_last_date_expr_of(chat, message)) + " AS latest_message_timestamp,\n            COALESCE("@ + chat_message_count_expr_of(chat, message) + ", 0) AS message_count,\n            COALESCE("@ + chat_attachment_count_expr_of(message, media) + ", 0) AS attachment_count,\n            COALESCE("@ + chat_last_date_expr_of(chat, message) + ", 0) AS sort_date\n        FROM ZWACHATSESSION c\n        ORDER BY sort_date DESC, c.Z_PK DESC\n        "@)
        },
    }
}

#[verifier::spinoff_prover]
pub fn chat_list_query(
    chat: Option<&TableSchema>,
    message: Option<&TableSchema>,
    media: Option<&TableSchema>,
) -> (r: Option<String>)
    ensures
        opt_view(r) == chat_list_query_of(opt_ref(chat), opt_ref(message), opt_ref(media)),
{
    let chat = match chat {
        None => {
            return None;
        },
        Some(c) => c,
    };
    if !chat.has("Z_PK") {
        return None;
    }
    let columns: [&str; 2] = ["ZPARTNERNAME", "ZCONTACTJID"];
    assert(strs_view(columns@) =~= seq!["ZPARTNERNAME"@, "ZCONTACTJID"@]);
    let title = coalesced_text_expr("c", chat, &columns, "'Imported chat'");
    let last = chat_last_date_expr(chat, message);
    let latest = latest_message_expr(message, media);
    let count = chat_message_count_expr(chat, message);
    let atts = chat_attachment_count_expr(message, media);
    let stamp = cocoa_timestamp_expr(last.as_str());
    let mut out: Vec<char> = Vec::new();
    push_str(&mut out, "\n        SELECT\n            CAST(c.Z_PK AS TEXT) AS id,\n            ");
    push_str(&mut out, title.as_str());
    push_str(&mut out, " AS title,\n            ");
    push_str(&mut out, latest.as_str());
    push_str(&mut out, " AS latest_message,\n            ");
    push_str(&mut out, stamp.as_str());
    push_str(&mut out, " AS latest_message_timestamp,\n            COALESCE(");
    push_str(&mut out, count.as_str());
    push_str(&mut out, ", 0) AS message_count,\n            COALESCE(");
    push_str(&mut out, atts.as_str());
    push_str(&mut out, ", 0) AS attachment_count,\n            COALESCE(");
    push_str(&mut out, last.as_str());
    push_str(&mut out, ", 0) AS sort_date\n        FROM ZWACHATSESSION c\n        ORDER BY sort_date DESC, c.Z_PK DESC\n        ");
    Some(string_of(out))
}

/// The query for one chat's title; `None` when the database has no chat table
/// with a primary key.
pub open spec fn chat_title_query_of(chat: Option<TableSchema>) -> Option<Seq<char>> {
    match chat {
        None => None,
        Some(chat) => if !chat.has_column("Z_PK"@) {
            None
        } else {
            Some("\n        SELECT "@ + coalesced_text_expr_of("c"@, chat, seq!["ZPARTNERNAME"@, "ZCONTACTJID"@], "'Imported chat'"@) + "\n        FROM ZWACHATSESSION c\n        WHERE c.Z_PK = ?1\n        LIMIT 1\n        "@)
        },
    }
}

pub fn chat_title_query(chat: Option<&TableSchema>) -> (r: Option<String>)
    ensures
        opt_view(r) == chat_title_query_of(opt_ref(chat)),
{
    let chat = match chat {
        None => {
            return None;
        },
        Some(c) => c,
    };
    if !chat.has("Z_PK") {
        return None;
    }
    let columns: [&str; 2] = ["ZPARTNERNAME", "ZCONTACTJID"];
    assert(strs_view(columns@) =~= seq!["ZPARTNERNAME"@, "ZCONTACTJID"@]);
    let title = coalesced_text_expr("c", chat, &columns, "'Imported chat'");
    let mut out: Vec<char> = Vec::new();
    push_str(&mut out, "\n        SELECT ");
    push_str(&mut out, title.as_str());
    push_str(&mut out, "\n        FROM ZWACHATSESSION c\n        WHERE c.Z_PK = ?1\n        LIMIT 1\n        ");
    Some(string_of(out))
}

/// The title of a chat that the database cannot name.
pub open spec fn fallback_chat_title_of(chat_id: Seq<char>) -> Seq<char> {
    "Chat "@ + chat_id
}

pub fn fallback_chat_title(chat_id: &str) -> (r: String)
    ensures
        r@ == fallback_chat_title_of(chat_id@),
{
    let mut out: Vec<char> = Vec::new();
    push_str(&mut out, "Chat ");
    push_str(&mut out, chat_id);
    string_of(out)
}

/// The query for a chat's messages with their media, oldest first; `None`
/// when messages cannot be tied to chats (the chat is then empty).
pub open spec fn chat_messages_query_of(message: Option<TableSchema>, media: Option<TableSchema>) -> Option<
    Seq<char>,
> {
    match message {
        None => None,
        Some(msg) => if !msg.has_column("Z_PK"@) || !msg.has_column("ZCHATSESSION"@) {
            None
        } else {
            Some("\n        SELECT\n            m.Z_PK AS message_pk,\n            "@ + cocoa_timestamp_expr_of(nullable_number_expr_of("m"@, msg, "ZMESSAGEDATE"@)) + " AS message_timestamp,\n            "@ + nullable_number_expr_of("m"@, msg, "ZISFROMME"@) + " AS is_from_me,\n            "@ + nullable_text_expr_of("m"@, msg, "ZTEXT"@) + " AS message_text,\n            "@ + nullable_text_expr_of("m"@, msg, "ZFROMJID"@) + " AS from_jid,\n            "@ + nullable_text_expr_of("m"@, msg, "ZPUSHNAME"@) + " AS push_name,\n            "@ + media_column_expr_of(media, "Z_PK"@) + " AS media_pk,\n            "@ + media_text_column_expr_of(media, "ZMEDIALOCALPATH"@) + " AS media_path,\n            "@ + media_text_column_expr_of(media, "ZVCARDSTRING"@) + " AS media_type,\n            "@ + media_text_column_expr_of(media, "ZTITLE"@) + " AS media_title,\n            "@ + media_column_expr_of(media, "ZFILESIZE"@) + " AS media_size\n        FROM ZWAMESSAGE m\n        "@ + media_join_expr_of(msg, media) + "\n        WHERE m.ZCHATSESSION = ?1\n        ORDER BY "@ + message_order_expr_of(msg) + ", m.Z_PK\n        "@)
        },
    }
}

#[verifier::spinoff_prover]
pub fn chat_messages_query(message: Option<&TableSchema>, media: Option<&TableSchema>) -> (r: Option<
    String,
>)
    ensures
        opt_view(r) == chat_messages_query_of(opt_ref(message), opt_ref(media)),
{
    let msg = match message {
        None => {
            return None;
        },
        Some(m) => m,
    };
    if !msg.has("Z_PK") || !msg.has("ZCHATSESSION") {
        return None;
    }
    let join = media_join_expr(msg, media);
    let text = nullable_text_expr("m", msg, "ZTEXT");
    let jid = nullable_text_expr("m", msg, "ZFROMJID");
    let push_name = nullable_text_expr("m", msg, "ZPUSHNAME");
    let date = nullable_number_expr("m", msg, "ZMESSAGEDATE");
    let from_me = nullable_number_expr("m", msg, "ZISFROMME");
    let media_pk = media_column_expr(media, "Z_PK");
    let media_path = media_text_column_expr(media, "ZMEDIALOCALPATH");
    let media_type = media_text_column_expr(media, "ZVCARDSTRING");
    let media_title = media_text_column_expr(media, "ZTITLE");
    let media_size = media_column_expr(media, "ZFILESIZE");
    let order = message_order_expr(msg);
    let stamp = cocoa_timestamp_expr(date.as_str());
    let mut out: Vec<char> = Vec::new();
    push_str(&mut out, "\n        SELECT\n            m.Z_PK AS message_pk,\n            ");
    push_str(&mut out, stamp.as_str());
    push_str(&mut out, " AS message_timestamp,\n            ");
    push_str(&mut out, from_me.as_str());
    push_str(&mut out, " AS is_from_me,\n            ");
    push_str(&mut out, text.as_str());
    push_str(&mut out, " AS message_text,\n            ");
    push_str(&mut out, jid.as_str());
    push_str(&mut out, " AS from_jid,\n            ");
    push_str(&mut out, push_name.as_str());
    push_str(&mut out, " AS push_name,\n            ");
    push_str(&mut out, media_pk.as_str());
    push_str(&mut out, " AS media_pk,\n            ");
    push_str(&mut out, media_path.as_str());
    push_str(&mut out, " AS media_path,\n            ");
    push_str(&mut out, media_type.as_str());
    push_str(&mut out, " AS media_type,\n            ");
    push_str(&mut out, media_title.as_str());
    push_str(&mut out, " AS media_title,\n            ");
    push_str(&mut out, media_size.as_str());
    push_str(&mut out, " AS media_size\n        FROM ZWAMESSAGE m\n        ");
    push_str(&mut out, join.as_str());
    push_str(&mut out, "\n        WHERE m.ZCHATSESSION = ?1\n        ORDER BY ");
    push_str(&mut out, order.as_str());
    push_str(&mut out, ", m.Z_PK\n        ");
    Some(string_of(out))
}


// ---------------------------------------------------------------------------
// Rows
// ---------------------------------------------------------------------------

/// A stored number read as a count: negative values count as zero.
pub open spec fn nonnegative_of(value: i64) -> u64 {
    if value >= 0 {
        value as u64
    } else {
        0
    }
}

pub fn nonnegative_i64_to_u64(value: i64) -> (r: u64)
    ensures
        r == nonnegative_of(value),
{
    if value >= 0 {
        value as u64
    } else {
        0
    }
}

/// A number written with at least eight characters, zero-padded after the
/// sign (`{:08}`).
pub open spec fn padded8(n: i64) -> Seq<char> {
    if n >= 0 {
        zero_pad(decimal(n as nat), 8)
    } else {
        seq!['-'] + zero_pad(decimal((-n) as nat), 7)
    }
}

fn padded8_exec(n: i64) -> (r: Vec<char>)
    ensures
        r@ == padded8(n),
{
    if n >= 0 {
        zero_pad_exec(decimal_exec(n as u64), 8)
    } else {
        let m: u64 = (-(n as i128)) as u64;
        let digits = zero_pad_exec(decimal_exec(m), 7);
        let mut out: Vec<char> = Vec::new();
        out.push('-');
        append_all(&mut out, digits.as_slice());
        assert(out@ =~= seq!['-'] + digits@);
        out
    }
}

/// A row of the chat list query.
#[derive(Debug, Clone)]
pub struct ChatListRow {
    pub id: String,
    pub title: String,
    pub latest_message: Option<String>,
    pub latest_message_timestamp: Option<String>,
    pub message_count: i64,
    pub attachment_count: i64,
}

/// The chat that a row of the chat list describes.
pub fn chat_from_row(row: ChatListRow) -> (r: Chat)
    ensures
        r.id == row.id,
        r.title == row.title,
        r.latest_message == row.latest_message,
        match row.latest_message_timestamp {
            Some(t) => r.latest_message_timestamp matches Some(ts) && ts.raw == t,
            None => r.latest_message_timestamp is None,
        },
        r.message_count == nonnegative_of(row.message_count),
        r.attachment_count == nonnegative_of(row.attachment_count),
{
    Chat {
        id: row.id,
        title: row.title,
        latest_message: row.latest_message,
        latest_message_timestamp: match row.latest_message_timestamp {
            Some(raw) => Some(MessageTimestamp { raw }),
            None => None,
        },
        message_count: nonnegative_i64_to_u64(row.message_count),
        attachment_count: nonnegative_i64_to_u64(row.attachment_count),
    }
}

/// A row of the messages query.
#[derive(Debug, Clone)]
pub struct ChatStorageMessageRow {
    pub message_pk: i64,
    pub timestamp: Option<String>,
    pub is_from_me: Option<i64>,
    pub message_text: Option<String>,
    pub from_jid: Option<String>,
    pub push_name: Option<String>,
    pub media_pk: Option<i64>,
    pub media_path: Option<String>,
    pub media_type: Option<String>,
    pub media_title: Option<String>,
    pub media_size: Option<i64>,
}

fn opt_str(o: &Option<String>) -> (r: Option<&str>)
    ensures
        crate::media::opt_str_view(r) == opt_view(*o),
{
    match o {
        Some(s) => Some(s.as_str()),
        None => None,
    }
}

impl ChatStorageMessageRow {
    /// Who sent the message: "You" for the owner's messages, else the push
    /// name or, failing that, the sender's JID.
    pub open spec fn sender_of(self) -> Option<Seq<char>> {
        if self.is_from_me == Some(1i64) {
            Some("You"@)
        } else {
            first_nonempty_of(seq![opt_view(self.push_name), opt_view(self.from_jid)])
        }
    }

    /// The message text, else the media title, else the media's file name.
    pub open spec fn body_of(self) -> Seq<char> {
        let media_filename = match self.media_path {
            Some(p) => Some(filename_from_media_path_of(p@)),
            None => None,
        };
        match first_nonempty_of(
            seq![opt_view(self.message_text), opt_view(self.media_title), media_filename],
        ) {
            Some(b) => b,
            None => seq![],
        }
    }

    /// The media item of the row, when it has one with a path or title.
    pub open spec fn attachment_of(self) -> Option<AttachmentV> {
        match self.media_pk {
            None => None,
            Some(pk) => match first_nonempty_of(
                seq![opt_view(self.media_path), opt_view(self.media_title)],
            ) {
                None => None,
                Some(path) => {
                    let f = filename_from_media_path_of(path);
                    Some(
                        AttachmentV {
                            id: "chat-storage-media-"@ + padded8(pk),
                            archive_path: path,
                            filename: f,
                            kind: spec_kind_from_mime_or_filename(opt_view(self.media_type), f),
                            size_bytes: match self.media_size {
                                Some(s) => nonnegative_of(s),
                                None => 0,
                            },
                        },
                    )
                },
            },
        }
    }

    /// The message of the row.
    pub open spec fn message_of(self) -> MessageV {
        MessageV {
            id: "chat-storage-message-"@ + padded8(self.message_pk),
            timestamp: match self.timestamp {
                Some(t) => t@,
                None => "Unknown time"@,
            },
            sender: self.sender_of(),
            body: self.body_of(),
            attachment_ids: match self.attachment_of() {
                Some(a) => seq![a.id],
                None => seq![],
            },
        }
    }

    pub fn sender(&self) -> (r: Option<String>)
        ensures
            opt_view(r) == self.sender_of(),
    {
        if self.is_from_me == Some(1i64) {
            return Some("You".to_string());
        }
        let values = [opt_str(&self.push_name), opt_str(&self.from_jid)];
        assert(crate::whatsapp::chat_storage_display::opt_strs_view(values@) =~= seq![
            opt_view(self.push_name),
            opt_view(self.from_jid),
        ]);
        first_nonempty(&values)
    }

    pub fn body(&self) -> (r: String)
        ensures
            r@ == self.body_of(),
    {
        let media_filename: Option<String> = match &self.media_path {
            Some(p) => Some(filename_from_media_path(p.as_str())),
            None => None,
        };
        let values = [opt_str(&self.message_text), opt_str(&self.media_title), opt_str(&media_filename)];
        assert(crate::whatsapp::chat_storage_display::opt_strs_view(values@) =~= seq![
            opt_view(self.message_text),
            opt_view(self.media_title),
            opt_view(media_filename),
        ]);
        match first_nonempty(&values) {
            Some(b) => b,
            None => String::new(),
        }
    }

    pub fn attachment(&self) -> (r: Option<Attachment>)
        ensures
            match r {
                Some(a) => self.attachment_of() == Some(a@),
                None => self.attachment_of() is None,
            },
    {
        let pk = match self.media_pk {
            Some(pk) => pk,
            None => {
                return None;
            },
        };
        let values = [opt_str(&self.media_path), opt_str(&self.media_title)];
        assert(crate::whatsapp::chat_storage_display::opt_strs_view(values@) =~= seq![
            opt_view(self.media_path),
            opt_view(self.media_title),
        ]);
        let archive_path = match first_nonempty(&values) {
            Some(p) => p,
            None => {
                return None;
            },
        };
        let filename = filename_from_media_path(archive_path.as_str());
        let kind = attachment_kind_from_mime_or_filename(opt_str(&self.media_type), filename.as_str());
        let mut id: Vec<char> = Vec::new();
        push_str(&mut id, "chat-storage-media-");
        let digits = padded8_exec(pk);
        append_all(&mut id, digits.as_slice());
        let size_bytes = match self.media_size {
            Some(s) => nonnegative_i64_to_u64(s),
            None => 0,
        };
        Some(Attachment { id: string_of(id), archive_path, filename, kind, size_bytes })
    }

    pub fn message(&self, attachment: &Option<Attachment>) -> (r: Message)
        requires
            match attachment {
                Some(a) => self.attachment_of() == Some(a@),
                None => self.attachment_of() is None,
            },
        ensures
            r@ == self.message_of(),
    {
        let mut id: Vec<char> = Vec::new();
        push_str(&mut id, "chat-storage-message-");
        let digits = padded8_exec(self.message_pk);
        append_all(&mut id, digits.as_slice());
        let raw = match &self.timestamp {
            Some(t) => t.clone(),
            None => "Unknown time".to_string(),
        };
        let mut attachment_ids: Vec<String> = Vec::new();
        match attachment {
            Some(a) => {
                attachment_ids.push(a.id.clone());
            },
            None => {},
        }
        let m = Message {
            id: string_of(id),
            timestamp: MessageTimestamp { raw },
            sender: self.sender(),
            body: self.body(),
            attachment_ids,
        };
        assert(strings_view(m.attachment_ids@) =~= self.message_of().attachment_ids);
        m
    }
}

pub open spec fn rows_messages(rows: Seq<ChatStorageMessageRow>) -> Seq<MessageV> {
    rows.map_values(|r: ChatStorageMessageRow| r.message_of())
}

pub open spec fn attachment_ids(atts: Seq<AttachmentV>) -> Seq<Seq<char>> {
    atts.map_values(|a: AttachmentV| a.id)
}

/// The rows' media items, each id once, in the order of first appearance.
pub open spec fn rows_attachments(rows: Seq<ChatStorageMessageRow>) -> Seq<AttachmentV>
    decreases rows.len(),
{
    if rows.len() == 0 {
        seq![]
    } else {
        let acc = rows_attachments(rows.drop_last());
        match rows.last().attachment_of() {
            Some(a) => if attachment_ids(acc).contains(a.id) {
                acc
            } else {
                acc.push(a)
            },
            None => acc,
        }
    }
}

proof fn lemma_rows_attachments_grow(rows: Seq<ChatStorageMessageRow>)
    requires
        rows.len() > 0,
    ensures
        forall|j: int|
            0 <= j < rows_attachments(rows.drop_last()).len() ==> rows_attachments(rows)[j]
                == #[trigger] rows_attachments(rows.drop_last())[j],
        rows_attachments(rows.drop_last()).len() <= rows_attachments(rows).len(),
{
}

proof fn lemma_rows_attachment_ids(rows: Seq<ChatStorageMessageRow>)
    ensures
        forall|i: int, j: int|
            0 <= i < j < rows_attachments(rows).len() ==> (#[trigger] rows_attachments(rows)[i]).id
                != (#[trigger] rows_attachments(rows)[j]).id,
        forall|k: int|
            0 <= k < rows.len() && (#[trigger] rows[k]).attachment_of() is Some ==> attachment_ids(
                rows_attachments(rows),
            ).contains(rows[k].attachment_of()->0.id),
    decreases rows.len(),
{
    if rows.len() > 0 {
        let d = rows.drop_last();
        lemma_rows_attachment_ids(d);
        lemma_rows_attachments_grow(rows);
        let acc = rows_attachments(d);
        let all = rows_attachments(rows);
        assert forall|k: int|
            0 <= k < rows.len() && (#[trigger] rows[k]).attachment_of() is Some implies attachment_ids(
            all,
        ).contains(rows[k].attachment_of()->0.id) by {
            let id = rows[k].attachment_of()->0.id;
            if k < rows.len() - 1 {
                assert(d[k] == rows[k]);
                let i = choose|i: int| 0 <= i < attachment_ids(acc).len() && attachment_ids(acc)[i] == id;
                assert(all[i] == acc[i]);
                assert(attachment_ids(all)[i] == id);
            } else {
                if attachment_ids(acc).contains(id) {
                    let i = choose|i: int| 0 <= i < attachment_ids(acc).len() && attachment_ids(acc)[i] == id;
                    assert(all[i] == acc[i]);
                    assert(attachment_ids(all)[i] == id);
                } else {
                    assert(attachment_ids(all)[all.len() - 1] == id);
                }
            }
        }
        assert forall|i: int, j: int| 0 <= i < j < all.len() implies (#[trigger] all[i]).id != (
        #[trigger] all[j]).id by {
            if j < acc.len() {
                assert(all[i] == acc[i] && all[j] == acc[j]);
            } else {
                assert(all[i] == acc[i]);
                assert(attachment_ids(acc)[i] == acc[i].id);
            }
        }
    }
}

/// In a chat imported from ChatStorage, no attachment id is listed twice, and
/// the attachment of every message is one of the chat's attachments.
pub proof fn lemma_chat_import_attachments(title: Seq<char>, rows: Seq<ChatStorageMessageRow>)
    ensures
        ({
            let imp = chat_import_of(title, rows);
            &&& forall|i: int, j: int|
                0 <= i < j < imp.attachments.len() ==> (#[trigger] imp.attachments[i]).id != (
                #[trigger] imp.attachments[j]).id
            &&& forall|k: int, j: int|
                0 <= k < imp.messages.len() && 0 <= j < imp.messages[k].attachment_ids.len()
                    ==> attachment_ids(imp.attachments).contains(
                    #[trigger] imp.messages[k].attachment_ids[j],
                )
        }),
{
    lemma_rows_attachment_ids(rows);
    let imp = chat_import_of(title, rows);
    assert forall|k: int, j: int|
        0 <= k < imp.messages.len() && 0 <= j < imp.messages[k].attachment_ids.len()
            implies attachment_ids(imp.attachments).contains(
        #[trigger] imp.messages[k].attachment_ids[j],
    ) by {
        assert(imp.messages[k] == rows[k].message_of());
        assert(rows[k].attachment_of() is Some);
    }
}

/// The chat imported from its message rows, under its title.
pub open spec fn chat_import_of(title: Seq<char>, rows: Seq<ChatStorageMessageRow>) -> ChatImportV {
    ChatImportV {
        source_kind: SourceKind::IphoneBackup,
        transcript_name: Some(title),
        messages: rows_messages(rows),
        attachments: rows_attachments(rows),
        issues: seq![],
    }
}

/// The rows a recent-message window keeps: the latest `limit` of them, or all
/// of them when there are no more.
pub open spec fn recent_rows_of(rows: Seq<ChatStorageMessageRow>, limit: usize) -> Seq<
    ChatStorageMessageRow,
> {
    if rows.len() > limit {
        rows.skip(rows.len() - limit)
    } else {
        rows
    }
}

/// Builds the imported chat from the latest `limit` rows of its messages
/// query, with the number of message rows the chat has in all.
pub fn chat_import_recent_from_rows(
    title: String,
    rows: &[ChatStorageMessageRow],
    limit: usize,
) -> (r: (ChatImport, u64))
    ensures
        r.0@ == chat_import_of(title@, recent_rows_of(rows@, limit)),
        r.1 == rows@.len(),
{
    let n = rows.len();
    let start = if n > limit {
        n - limit
    } else {
        0
    };
    let recent = vstd::slice::slice_subrange(rows, start, n);
    proof {
        assert(recent@ =~= recent_rows_of(rows@, limit));
    }
    (chat_import_from_rows(title, recent), n as u64)
}

fn contains_id(atts: &Vec<Attachment>, id: &String) -> (b: bool)
    ensures
        b == attachment_ids(attachments_view(atts@)).contains(id@),
{
    let ghost ids = attachment_ids(attachments_view(atts@));
    let mut i: usize = 0;
    while i < atts.len()
        invariant
            i <= atts@.len(),
            ids == attachment_ids(attachments_view(atts@)),
            forall|k: int| 0 <= k < i ==> (#[trigger] atts@[k]).id@ != id@,
        decreases atts@.len() - i,
    {
        if atts[i].id == *id {
            assert(ids[i as int] == id@);
            return true;
        }
        i += 1;
    }
    assert forall|k: int| 0 <= k < ids.len() implies ids[k] != id@ by {
        assert(ids[k] == atts@[k].id@);
    }
    false
}

/// Builds the imported chat from the rows of its messages query.
#[verifier::spinoff_prover]
pub fn chat_import_from_rows(title: String, rows: &[ChatStorageMessageRow]) -> (r: ChatImport)
    ensures
        r@ == chat_import_of(title@, rows@),
{
    let mut messages: Vec<Message> = Vec::new();
    let mut attachments: Vec<Attachment> = Vec::new();
    let mut i: usize = 0;
    while i < rows.len()
        invariant
            i <= rows@.len(),
            messages_view(messages@) == rows_messages(rows@.take(i as int)),
            attachments_view(attachments@) == rows_attachments(rows@.take(i as int)),
        decreases rows@.len() - i,
    {
        let row = &rows[i];
        assert(rows@.take(i + 1).drop_last() =~= rows@.take(i as int));
        assert(rows@.take(i + 1).last() == *row);
        let attachment = row.attachment();
        let message = row.message(&attachment);
        let ghost before_atts = attachments_view(attachments@);
        match attachment {
            Some(a) => {
                if !contains_id(&attachments, &a.id) {
                    attachments.push(a);
                    assert(attachments_view(attachments@) =~= before_atts.push(a@));
                }
            },
            None => {},
        }
        let ghost before_msgs = messages_view(messages@);
        messages.push(message);
        assert(messages_view(messages@) =~= before_msgs.push(row.message_of()));
        assert(rows_messages(rows@.take(i + 1)) =~= rows_messages(rows@.take(i as int)).push(
            row.message_of(),
        ));
        i += 1;
    }
    assert(rows@.take(rows@.len() as int) =~= rows@);
    let r = ChatImport {
        source_kind: SourceKind::IphoneBackup,
        transcript_name: Some(title),
        messages,
        attachments,
        issues: Vec::new(),
    };
    assert(r@.issues =~= Seq::<crate::model::ImportIssueV>::empty());
    r
}

/// A chat with no messages under its title, for a database whose messages
/// cannot be read.
pub fn empty_chat_import(title: String) -> (r: ChatImport)
    ensures
        r@ == chat_import_of(title@, seq![]),
{
    let r = ChatImport {
        source_kind: SourceKind::IphoneBackup,
        transcript_name: Some(title),
        messages: Vec::new(),
        attachments: Vec::new(),
        issues: Vec::new(),
    };
    assert(r@.messages =~= rows_messages(seq![]));
    assert(r@.attachments =~= rows_attachments(seq![]));
    assert(r@.issues =~= Seq::<crate::model::ImportIssueV>::empty());
    r
}

} // verus!
