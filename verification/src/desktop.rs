//! The decisions behind the desktop interface: what it names, shows, embeds
//! and reports, apart from the dialogs and files around them.
pub mod dtos;
pub mod public_error;
pub mod source_registry;

use vstd::prelude::*;

use base64::Engine;

use crate::desktop::dtos::{
    AttachmentPreviewDto, ChatDto, HtmlExportResultDto, IphoneBackupCandidateDto,
    IphoneBackupChatSearchResultDto, IphoneBackupChatsResultDto, WhatsappBackupStatusDto,
};
use crate::media::{attachment_media_type, file_name, file_name_exec, spec_media_type};
use crate::model::{
    attachments_view, issues_view, opt_view, Attachment, AttachmentV, BackupCandidate,
    BackupMetadata, Chat, ChatImport, ImportIssue, ImportIssueCode, ImportIssueV,
    WhatsappManifestFiles,
};
use crate::sources::whatsapp_export_zip::{
    find_pair, pairs_view, ExportAttachmentPayload, ExportZipError, ImportOutcome, PayloadV,
};
use crate::text::{
    append_all, chars_of, copy_range, decimal, decimal_exec, ends_with, ends_with_exec,
    is_ascii_alnum, is_ascii_alnum_exec, lemma_rfind_char, push_str, replace_char,
    replace_char_exec, rfind_char_exec, string_of, trim, trim_by, trim_class, trim_ws, CharClass,
};
use crate::whatsapp::chat_storage_display::after_last_slash;

verus! {

pub const ATTACHMENT_PREVIEW_MAX_BYTES: u64 = 8 * 1024 * 1024;

pub const ATTACHMENT_EXPORT_MAX_BYTES: u64 = 24 * 1024 * 1024;

pub const TOTAL_EXPORT_EMBEDDED_MEDIA_MAX_BYTES: u64 = 128 * 1024 * 1024;

pub const BACKUP_CHAT_LIST_MAX_ROWS: usize = 1000;

pub const BACKUP_CHAT_SEARCH_MAX_ROWS: usize = 200;

pub const BACKUP_CHAT_IMPORT_MAX_MESSAGES: usize = 2000;

pub const BACKUP_CHAT_SEARCH_MAX_RESULTS: usize = 500;

// ---------------------------------------------------------------------------
// Base64
// ---------------------------------------------------------------------------

/// The character of the standard base64 alphabet for a six-bit value.
pub open spec fn base64_char(v: int) -> char {
    if v < 26 {
        (65 + v) as char
    } else if v < 52 {
        (97 + v - 26) as char
    } else if v < 62 {
        (48 + v - 52) as char
    } else if v == 62 {
        '+'
    } else {
        '/'
    }
}

/// Standard base64 with `=` padding (RFC 4648, section 4).
pub open spec fn base64_standard(b: Seq<u8>) -> Seq<char>
    decreases b.len(),
{
    if b.len() == 0 {
        seq![]
    } else {
        let x = b[0] as int;
        if b.len() == 1 {
            seq![base64_char(x / 4), base64_char((x % 4) * 16), '=', '=']
        } else {
            let y = b[1] as int;
            if b.len() == 2 {
                seq![
                    base64_char(x / 4),
                    base64_char((x % 4) * 16 + y / 16),
                    base64_char((y % 16) * 4),
                    '=',
                ]
            } else {
                let z = b[2] as int;
                seq![
                    base64_char(x / 4),
                    base64_char((x % 4) * 16 + y / 16),
                    base64_char((y % 16) * 4 + z / 64),
                    base64_char(z % 64),
                ] + base64_standard(b.skip(3))
            }
        }
    }
}

/// `base64::engine::general_purpose::STANDARD.encode`: the standard alphabet
/// with padding, as `base64_standard` writes it.
#[verifier::external_body]
fn encode_base64(bytes: &[u8]) -> (r: String)
    ensures
        r@ == base64_standard(bytes@),
{
    base64::engine::general_purpose::STANDARD.encode(bytes)
}

// ---------------------------------------------------------------------------
// Names shown for sources and backups
// ---------------------------------------------------------------------------

/// The name shown for an opened export: the trimmed file name of its path,
/// never a directory.
pub open spec fn source_display_name_of(path: Seq<char>) -> Seq<char> {
    match file_name(path) {
        Some(n) => if trim_ws(n).len() > 0 {
            trim_ws(n)
        } else {
            "Selected WhatsApp export"@
        },
        None => "Selected WhatsApp export"@,
    }
}

pub fn source_display_name(path: &str) -> (r: String)
    ensures
        r@ == source_display_name_of(path@),
{
    let p = chars_of(path);
    match file_name_exec(p.as_slice()) {
        Some(n) => {
            let t = trim(n.as_slice());
            if t.len() > 0 {
                string_of(t)
            } else {
                "Selected WhatsApp export".to_string()
            }
        },
        None => "Selected WhatsApp export".to_string(),
    }
}

/// The name shown for the backup at position `index`: the first present name
/// of the device (display name, device name, product name), trimmed, unless
/// blank; else a numbered label.
pub open spec fn backup_display_name_of(
    display_name: Option<Seq<char>>,
    device_name: Option<Seq<char>>,
    product_name: Option<Seq<char>>,
    index: usize,
) -> Seq<char> {
    let chosen = if display_name is Some {
        display_name
    } else if device_name is Some {
        device_name
    } else {
        product_name
    };
    if chosen is Some && trim_ws(chosen->0).len() > 0 {
        trim_ws(chosen->0)
    } else {
        "iPhone backup "@ + decimal((index + 1) as nat)
    }
}

pub fn backup_display_name(metadata: &BackupMetadata, index: usize) -> (r: String)
    requires
        index < usize::MAX,
    ensures
        r@ == backup_display_name_of(
            opt_view(metadata.display_name),
            opt_view(metadata.device_name),
            opt_view(metadata.product_name),
            index,
        ),
{
    let chosen = if metadata.display_name.is_some() {
        &metadata.display_name
    } else if metadata.device_name.is_some() {
        &metadata.device_name
    } else {
        &metadata.product_name
    };
    match chosen {
        Some(v) => {
            let t = trim(chars_of(v.as_str()).as_slice());
            if t.len() > 0 {
                return string_of(t);
            }
        },
        None => {},
    }
    let mut out: Vec<char> = Vec::new();
    push_str(&mut out, "iPhone backup ");
    let n = decimal_exec((index + 1) as u64);
    append_all(&mut out, n.as_slice());
    string_of(out)
}

/// The product shown for a backup: its name and type when both are known and
/// differ, else whichever is known.
pub open spec fn backup_product_label_of(name: Option<Seq<char>>, product_type: Option<Seq<char>>) -> Option<
    Seq<char>,
> {
    match (name, product_type) {
        (Some(n), Some(t)) => if n != t {
            Some(n + " · "@ + t)
        } else {
            Some(n)
        },
        (Some(n), None) => Some(n),
        (None, Some(t)) => Some(t),
        (None, None) => None,
    }
}

pub fn backup_product_label(metadata: &BackupMetadata) -> (r: Option<String>)
    ensures
        opt_view(r) == backup_product_label_of(
            opt_view(metadata.product_name),
            opt_view(metadata.product_type),
        ),
{
    match (&metadata.product_name, &metadata.product_type) {
        (Some(n), Some(t)) => {
            if *n != *t {
                let mut out: Vec<char> = Vec::new();
                push_str(&mut out, n.as_str());
                push_str(&mut out, " · ");
                push_str(&mut out, t.as_str());
                Some(string_of(out))
            } else {
                Some(n.clone())
            }
        },
        (Some(n), None) => Some(n.clone()),
        (None, Some(t)) => Some(t.clone()),
        (None, None) => None,
    }
}

// ---------------------------------------------------------------------------
// Default file name of an HTML export
// ---------------------------------------------------------------------------

pub open spec fn is_file_name_char(c: char) -> bool {
    is_ascii_alnum(c) || c == '.' || c == '-' || c == '_'
}

/// Every character that may not stand in a file name becomes `-`.
pub open spec fn file_name_chars(s: Seq<char>) -> Seq<char> {
    s.map_values(|c: char| if is_file_name_char(c) { c } else { '-' })
}

/// Runs of `-` shortened to one.
pub open spec fn collapse_dashes(s: Seq<char>) -> Seq<char>
    decreases s.len(),
{
    if s.len() == 0 {
        seq![]
    } else {
        let p = collapse_dashes(s.drop_last());
        if s.last() == '-' && p.len() > 0 && p.last() == '-' {
            p
        } else {
            p.push(s.last())
        }
    }
}

/// The name without its `.html` (or `.HTML`) ending and without `-`, `.`,
/// `_` at either end.
pub open spec fn html_stem(cut: Seq<char>) -> Seq<char> {
    let stripped = if ends_with(cut, ".html"@) {
        cut.take(cut.len() - 5)
    } else if ends_with(cut, ".HTML"@) {
        cut.take(cut.len() - 5)
    } else {
        cut
    };
    trim_by(stripped, CharClass::NamePunct)
}

/// The file name proposed for an HTML export: the last path component of the
/// suggestion, reduced to letters, digits, `.`, `-` and `_`, at most 120
/// characters before the `.html` ending.
pub open spec fn safe_html_filename_of(suggested: Seq<char>) -> Seq<char> {
    let leaf = trim_ws(after_last_slash(replace_char(suggested, '\\', '/')));
    let cleaned = trim_by(collapse_dashes(file_name_chars(leaf)), CharClass::NamePunct);
    let cut = if cleaned.len() > 120 {
        cleaned.take(120)
    } else {
        cleaned
    };
    let stem = html_stem(cut);
    if stem.len() == 0 {
        "whatsvault-chat.html"@
    } else {
        stem + ".html"@
    }
}

pub open spec fn all_file_name_chars(s: Seq<char>) -> bool {
    forall|i: int| 0 <= i < s.len() ==> is_file_name_char(#[trigger] s[i])
}

proof fn lemma_collapse_keeps_chars(s: Seq<char>)
    requires
        all_file_name_chars(s),
    ensures
        all_file_name_chars(collapse_dashes(s)),
        collapse_dashes(s).len() <= s.len(),
    decreases s.len(),
{
    if s.len() > 0 {
        assert(all_file_name_chars(s.drop_last()) ) by {
            assert forall|i: int| 0 <= i < s.drop_last().len() implies is_file_name_char(
                #[trigger] s.drop_last()[i],
            ) by {
                assert(s.drop_last()[i] == s[i]);
            }
        }
        lemma_collapse_keeps_chars(s.drop_last());
        assert(is_file_name_char(s[s.len() - 1]));
    }
}

proof fn lemma_trim_start_keeps_chars(s: Seq<char>, cls: CharClass)
    requires
        all_file_name_chars(s),
    ensures
        all_file_name_chars(crate::text::trim_start_by(s, cls)),
    decreases s.len(),
{
    if s.len() > 0 && crate::text::in_class(cls, s[0]) {
        assert forall|i: int| 0 <= i < s.drop_first().len() implies is_file_name_char(
            #[trigger] s.drop_first()[i],
        ) by {
            assert(s.drop_first()[i] == s[i + 1]);
        }
        lemma_trim_start_keeps_chars(s.drop_first(), cls);
    }
}

proof fn lemma_trim_end_keeps_chars(s: Seq<char>, cls: CharClass)
    requires
        all_file_name_chars(s),
    ensures
        all_file_name_chars(crate::text::trim_end_by(s, cls)),
    decreases s.len(),
{
    if s.len() > 0 && crate::text::in_class(cls, s.last()) {
        assert forall|i: int| 0 <= i < s.drop_last().len() implies is_file_name_char(
            #[trigger] s.drop_last()[i],
        ) by {
            assert(s.drop_last()[i] == s[i]);
        }
        lemma_trim_end_keeps_chars(s.drop_last(), cls);
    }
}

proof fn lemma_trim_keeps_chars(s: Seq<char>, cls: CharClass)
    requires
        all_file_name_chars(s),
    ensures
        all_file_name_chars(trim_by(s, cls)),
{
    lemma_trim_start_keeps_chars(s, cls);
    lemma_trim_end_keeps_chars(crate::text::trim_start_by(s, cls), cls);
}

/// Whatever is suggested, the proposed export name is a plain file name: only
/// letters, digits, `.`, `-` and `_` (so no path separator), ending in
/// `.html`.
pub proof fn lemma_safe_html_filename(suggested: Seq<char>)
    ensures
        all_file_name_chars(safe_html_filename_of(suggested)),
        ends_with(safe_html_filename_of(suggested), ".html"@),
{
    reveal_strlit(".html");
    reveal_strlit("whatsvault-chat.html");
    let leaf = trim_ws(after_last_slash(replace_char(suggested, '\\', '/')));
    let named = file_name_chars(leaf);
    assert(all_file_name_chars(named));
    lemma_collapse_keeps_chars(named);
    lemma_trim_keeps_chars(collapse_dashes(named), CharClass::NamePunct);
    let cleaned = trim_by(collapse_dashes(named), CharClass::NamePunct);
    let cut = if cleaned.len() > 120 {
        cleaned.take(120)
    } else {
        cleaned
    };
    assert(all_file_name_chars(cut));
    let stripped = if ends_with(cut, ".html"@) {
        cut.take(cut.len() - 5)
    } else if ends_with(cut, ".HTML"@) {
        cut.take(cut.len() - 5)
    } else {
        cut
    };
    if ends_with(cut, ".html"@) || ends_with(cut, ".HTML"@) {
        assert(".html"@.len() == 5 && ".HTML"@.len() == 5) by {
            reveal_strlit(".HTML");
        }
        assert(stripped =~= cut.take(cut.len() - 5));
        assert forall|i: int| 0 <= i < stripped.len() implies is_file_name_char(
            #[trigger] stripped[i],
        ) by {
            assert(stripped[i] == cut[i]);
        }
    }
    lemma_trim_keeps_chars(stripped, CharClass::NamePunct);
    let stem = html_stem(cut);
    let r = safe_html_filename_of(suggested);
    if stem.len() > 0 {
        assert(r == stem + ".html"@);
        assert forall|i: int| 0 <= i < r.len() implies is_file_name_char(#[trigger] r[i]) by {
            if i < stem.len() {
                assert(r[i] == stem[i]);
            }
        }
        assert(r.skip(r.len() - 5) =~= ".html"@);
    } else {
        assert(r.skip(r.len() - 5) =~= ".html"@);
    }
}

fn collapse_dashes_exec(s: &[char]) -> (r: Vec<char>)
    ensures
        r@ == collapse_dashes(s@),
{
    let mut r: Vec<char> = Vec::new();
    let mut i: usize = 0;
    while i < s.len()
        invariant
            i <= s@.len(),
            r@ == collapse_dashes(s@.take(i as int)),
        decreases s@.len() - i,
    {
        assert(s@.take(i + 1).drop_last() =~= s@.take(i as int));
        let c = s[i];
        if !(c == '-' && r.len() > 0 && r[r.len() - 1] == '-') {
            r.push(c);
        }
        i += 1;
    }
    assert(s@.take(s@.len() as int) =~= s@);
    r
}

#[verifier::spinoff_prover]
pub fn safe_html_default_filename(suggested: &str) -> (r: String)
    ensures
        r@ == safe_html_filename_of(suggested@),
{
    let p = chars_of(suggested);
    let n = replace_char_exec(p.as_slice(), '\\', '/');
    proof {
        lemma_rfind_char(n@, '/');
    }
    let len = n.len();
    let start = match rfind_char_exec(n.as_slice(), '/') {
        Some(k) => {
            assert(k < len);
            k + 1
        },
        None => 0,
    };
    let leaf_raw = copy_range(n.as_slice(), start, n.len());
    assert(leaf_raw@ =~= after_last_slash(n@));
    let leaf = trim(leaf_raw.as_slice());
    let mut named: Vec<char> = Vec::new();
    let mut i: usize = 0;
    while i < leaf.len()
        invariant
            i <= leaf@.len(),
            named@ == file_name_chars(leaf@.take(i as int)),
        decreases leaf@.len() - i,
    {
        let c = leaf[i];
        if is_ascii_alnum_exec(c) || c == '.' || c == '-' || c == '_' {
            named.push(c);
        } else {
            named.push('-');
        }
        i += 1;
        assert(named@ =~= file_name_chars(leaf@.take(i as int)));
    }
    assert(leaf@.take(leaf@.len() as int) =~= leaf@);
    let collapsed = collapse_dashes_exec(named.as_slice());
    let cleaned = trim_class(collapsed.as_slice(), CharClass::NamePunct);
    let cut = if cleaned.len() > 120 {
        copy_range(cleaned.as_slice(), 0, 120)
    } else {
        cleaned
    };
    assert(cleaned@.len() > 120 ==> cut@ =~= cleaned@.take(120));
    let lower_html = chars_of(".html");
    let upper_html = chars_of(".HTML");
    proof {
        reveal_strlit(".html");
        reveal_strlit(".HTML");
    }
    let stripped = if ends_with_exec(cut.as_slice(), lower_html.as_slice()) {
        copy_range(cut.as_slice(), 0, cut.len() - 5)
    } else if ends_with_exec(cut.as_slice(), upper_html.as_slice()) {
        copy_range(cut.as_slice(), 0, cut.len() - 5)
    } else {
        cut
    };
    let stem = trim_class(stripped.as_slice(), CharClass::NamePunct);
    if stem.len() == 0 {
        "whatsvault-chat.html".to_string()
    } else {
        let mut out = stem;
        push_str(&mut out, ".html");
        string_of(out)
    }
}

// ---------------------------------------------------------------------------
// Recent-message windows
// ---------------------------------------------------------------------------

/// How many messages of a chat were left out of what was loaded.
pub open spec fn skipped_messages(total: u64, loaded: usize) -> usize {
    let t: usize = if total > usize::MAX {
        usize::MAX
    } else {
        total as usize
    };
    if t > loaded {
        (t - loaded) as usize
    } else {
        0
    }
}

pub fn count_skipped_messages(total_message_count: u64, loaded_message_count: usize) -> (r: usize)
    ensures
        r == skipped_messages(total_message_count, loaded_message_count),
{
    let t: usize = if total_message_count > usize::MAX as u64 {
        usize::MAX
    } else {
        total_message_count as usize
    };
    if t > loaded_message_count {
        t - loaded_message_count
    } else {
        0
    }
}

pub open spec fn window_issue_message(loaded: nat) -> Seq<char> {
    "Only the latest "@ + decimal(loaded) + " messages were loaded for performance"@
}

/// Notes on the import, as a structured issue, that only the latest messages
/// were loaded, when some were left out; returns how many were.
pub fn annotate_recent_message_window(imported: &mut ChatImport, total_message_count: u64) -> (r:
    usize)
    ensures
        r == skipped_messages(total_message_count, old(imported).messages@.len() as usize),
        final(imported).source_kind == old(imported).source_kind,
        final(imported).transcript_name == old(imported).transcript_name,
        final(imported).messages == old(imported).messages,
        final(imported).attachments == old(imported).attachments,
        r == 0 ==> final(imported).issues@ == old(imported).issues@,
        r > 0 ==> issues_view(final(imported).issues@) == issues_view(old(imported).issues@).push(
            ImportIssueV {
                code: ImportIssueCode::MessageWindowTruncated,
                message: window_issue_message(old(imported).messages@.len()),
            },
        ),
{
    let loaded = imported.messages.len();
    let skipped = count_skipped_messages(total_message_count, loaded);
    if skipped > 0 {
        let mut text: Vec<char> = Vec::new();
        push_str(&mut text, "Only the latest ");
        let n = decimal_exec(loaded as u64);
        append_all(&mut text, n.as_slice());
        push_str(&mut text, " messages were loaded for performance");
        let ghost before = issues_view(imported.issues@);
        imported.issues.push(
            ImportIssue { code: ImportIssueCode::MessageWindowTruncated, message: string_of(text) },
        );
        assert(issues_view(imported.issues@) =~= before.push(
            ImportIssueV {
                code: ImportIssueCode::MessageWindowTruncated,
                message: window_issue_message(loaded as nat),
            },
        ));
    }
    skipped
}


// ---------------------------------------------------------------------------
// Media previews and embedding
// ---------------------------------------------------------------------------

pub open spec fn data_url_of(media_type: Seq<char>, bytes: Seq<u8>) -> Seq<char> {
    "data:"@ + media_type + ";base64,"@ + base64_standard(bytes)
}

/// A preview of media for the interface: its type and a base64 data URL.
pub fn attachment_preview_dto(media_type: &'static str, bytes: Vec<u8>, size_bytes: u64) -> (r:
    AttachmentPreviewDto)
    ensures
        r.media_type@ == media_type@,
        r.data_url@ == data_url_of(media_type@, bytes@),
        r.size_bytes == size_bytes,
{
    let encoded = encode_base64(bytes.as_slice());
    let mut url: Vec<char> = Vec::new();
    push_str(&mut url, "data:");
    push_str(&mut url, media_type);
    push_str(&mut url, ";base64,");
    push_str(&mut url, encoded.as_str());
    AttachmentPreviewDto {
        media_type: media_type.to_string(),
        data_url: string_of(url),
        size_bytes,
    }
}

/// The attachments chosen for embedding, in order, with the bytes they add
/// up to: each at most the per-file limit, and none that would take the
/// running total (added with saturation) over the total limit.
pub open spec fn embed_selection(atts: Seq<AttachmentV>) -> (Seq<AttachmentV>, u64)
    decreases atts.len(),
{
    if atts.len() == 0 {
        (seq![], 0)
    } else {
        let (chosen, total) = embed_selection(atts.drop_last());
        let a = atts.last();
        if a.size_bytes > ATTACHMENT_EXPORT_MAX_BYTES || total.saturating_add(a.size_bytes)
            > TOTAL_EXPORT_EMBEDDED_MEDIA_MAX_BYTES {
            (chosen, total)
        } else {
            (chosen.push(a), total.saturating_add(a.size_bytes))
        }
    }
}

pub fn select_attachments_for_embedding(attachments: &[Attachment]) -> (r: Vec<Attachment>)
    ensures
        attachments_view(r@) == embed_selection(attachments_view(attachments@)).0,
{
    let ghost av = attachments_view(attachments@);
    let mut chosen: Vec<Attachment> = Vec::new();
    let mut total: u64 = 0;
    let mut i: usize = 0;
    while i < attachments.len()
        invariant
            i <= attachments@.len(),
            av == attachments_view(attachments@),
            (attachments_view(chosen@), total) == embed_selection(av.take(i as int)),
        decreases attachments@.len() - i,
    {
        assert(av.take(i + 1).drop_last() =~= av.take(i as int));
        assert(av.take(i + 1).last() == attachments@[i as int]@);
        let a = &attachments[i];
        let ghost before = attachments_view(chosen@);
        if !(a.size_bytes > ATTACHMENT_EXPORT_MAX_BYTES || total.saturating_add(a.size_bytes)
            > TOTAL_EXPORT_EMBEDDED_MEDIA_MAX_BYTES) {
            total = total.saturating_add(a.size_bytes);
            chosen.push(a.copy());
            assert(attachments_view(chosen@) =~= before.push(a@));
        }
        i += 1;
    }
    assert(av.take(attachments@.len() as int) =~= av);
    chosen
}

/// An attachment's media for the HTML page.
pub fn embed_attachment(attachment_id: &String, media_type: &str, bytes: &[u8]) -> (r:
    crate::exports::html::EmbeddedAttachment)
    ensures
        r.attachment_id@ == attachment_id@,
        r.media_type@ == media_type@,
        r.base64_data@ == base64_standard(bytes@),
{
    crate::exports::html::EmbeddedAttachment {
        attachment_id: attachment_id.clone(),
        media_type: media_type.to_string(),
        base64_data: encode_base64(bytes),
    }
}

/// The media that an export page embeds from the payloads read out of an
/// export archive: for each chosen attachment, in order, the payload found
/// under its archive path, when its type can be shown.
pub open spec fn embedded_from_payloads(
    chosen: Seq<AttachmentV>,
    payloads: Seq<(Seq<char>, PayloadV)>,
) -> Seq<crate::exports::html::EmbeddedV>
    decreases chosen.len(),
{
    if chosen.len() == 0 {
        seq![]
    } else {
        let rest = embedded_from_payloads(chosen.drop_last(), payloads);
        let a = chosen.last();
        match find_pair(payloads, a.archive_path) {
            Some(p) => match spec_media_type(p.kind, p.filename) {
                Some(m) => rest.push(
                    crate::exports::html::EmbeddedV {
                        attachment_id: a.id,
                        media_type: m,
                        base64_data: base64_standard(p.bytes),
                    },
                ),
                None => rest,
            },
            None => rest,
        }
    }
}

fn find_payload<'a>(payloads: &'a [(String, ExportAttachmentPayload)], key: &String) -> (r: Option<
    &'a ExportAttachmentPayload,
>)
    ensures
        match r {
            Some(p) => find_pair(pairs_view(payloads@), key@) == Some(p@),
            None => find_pair(pairs_view(payloads@), key@) is None,
        },
{
    let ghost pv = pairs_view(payloads@);
    let mut i: usize = 0;
    assert(pv.skip(0) =~= pv);
    while i < payloads.len()
        invariant
            i <= payloads@.len(),
            pv == pairs_view(payloads@),
            find_pair(pv, key@) == find_pair(pv.skip(i as int), key@),
        decreases payloads@.len() - i,
    {
        assert(pv.skip(i as int).drop_first() =~= pv.skip(i + 1));
        assert(pv.skip(i as int)[0] == pv[i as int]);
        if payloads[i].0 == *key {
            return Some(&payloads[i].1);
        }
        i += 1;
    }
    None
}

pub fn embedded_from_export_payloads(
    chosen: &[Attachment],
    payloads: &[(String, ExportAttachmentPayload)],
) -> (r: Vec<crate::exports::html::EmbeddedAttachment>)
    ensures
        crate::exports::html::embedded_view(r@) == embedded_from_payloads(
            attachments_view(chosen@),
            pairs_view(payloads@),
        ),
{
    let ghost av = attachments_view(chosen@);
    let ghost pv = pairs_view(payloads@);
    let mut out: Vec<crate::exports::html::EmbeddedAttachment> = Vec::new();
    let mut i: usize = 0;
    while i < chosen.len()
        invariant
            i <= chosen@.len(),
            av == attachments_view(chosen@),
            pv == pairs_view(payloads@),
            crate::exports::html::embedded_view(out@) == embedded_from_payloads(
                av.take(i as int),
                pv,
            ),
        decreases chosen@.len() - i,
    {
        assert(av.take(i + 1).drop_last() =~= av.take(i as int));
        assert(av.take(i + 1).last() == chosen@[i as int]@);
        let a = &chosen[i];
        let ghost before = crate::exports::html::embedded_view(out@);
        match find_payload(payloads, &a.archive_path) {
            Some(p) => {
                match attachment_media_type(p.kind, p.filename.as_str()) {
                    Some(m) => {
                        let e = embed_attachment(&a.id, m, p.bytes.as_slice());
                        out.push(e);
                        assert(crate::exports::html::embedded_view(out@) =~= before.push(e@));
                    },
                    None => {},
                }
            },
            None => {},
        }
        i += 1;
    }
    assert(av.take(chosen@.len() as int) =~= av);
    out
}

/// The counts that an HTML export reports.
pub fn html_export_result(
    imported: &ChatImport,
    embedded_attachment_count: usize,
    skipped_message_count: usize,
) -> (r: HtmlExportResultDto)
    ensures
        r.embedded_attachment_count == embedded_attachment_count,
        r.skipped_attachment_count == (if imported.attachments@.len() > embedded_attachment_count {
            imported.attachments@.len() - embedded_attachment_count
        } else {
            0
        }),
        r.exported_message_count == imported.messages@.len(),
        r.skipped_message_count == skipped_message_count,
{
    HtmlExportResultDto {
        embedded_attachment_count,
        skipped_attachment_count: imported.attachments.len().saturating_sub(
            embedded_attachment_count,
        ),
        exported_message_count: imported.messages.len(),
        skipped_message_count,
    }
}

/// The attachment payloads that an export reads out of the archive listing
/// for the chosen attachments: none when no chosen path names an entry; else
/// what reading them gives, or why it failed.
pub open spec fn export_payloads(
    l: crate::sources::whatsapp_export_zip::ZipListing,
    chosen: Seq<AttachmentV>,
) -> Result<Seq<(Seq<char>, PayloadV)>, crate::sources::whatsapp_export_zip::PayloadFailure> {
    let paths = crate::sources::whatsapp_export_zip::requested_paths(
        chosen.map_values(|a: AttachmentV| a.archive_path),
    );
    if paths.len() == 0 {
        Ok(seq![])
    } else {
        crate::sources::whatsapp_export_zip::payload_fold(
            l,
            0,
            paths,
            seq![],
            ATTACHMENT_EXPORT_MAX_BYTES,
        )
    }
}

/// The error an import of the archive ends with, when it does not import.
pub open spec fn import_error_matches(
    o: crate::sources::whatsapp_export_zip::ImportOutcome,
    e: crate::sources::whatsapp_export_zip::ExportZipError,
) -> bool {
    match o {
        ImportOutcome::EntryUnreadable => e is Zip,
        ImportOutcome::NoTranscript => e is NoTranscript,
        ImportOutcome::MultipleTranscripts(names) => e matches ExportZipError::MultipleTranscripts(
            v,
        ) && crate::model::strings_view(v@) == names,
        ImportOutcome::TranscriptUnreadable => e is Io,
        ImportOutcome::MessageTooLarge => e is MessageTooLarge,
        ImportOutcome::Imported(_, _) => false,
    }
}

/// Why an HTML export of a WhatsApp export archive failed: its import, or
/// reading the media chosen for embedding.
pub enum ZipHtmlExportError {
    Import(ExportZipError),
    AttachmentRead(ExportZipError),
}

/// The HTML export of a WhatsApp export archive: the archive imported with
/// the default recent-message window, the attachments chosen for embedding
/// read out of it within the per-file limit, and the page built from both,
/// with the counts the export reports.
#[verifier::spinoff_prover]
pub fn whatsapp_export_html(archive: Vec<u8>, title: &str) -> (r: Result<
    (String, HtmlExportResultDto),
    ZipHtmlExportError,
>)
    ensures
        match crate::sources::whatsapp_export_zip::zip_directory(archive@) {
            None => r matches Err(ZipHtmlExportError::Import(e)) && e is Zip,
            Some(l) => match crate::sources::whatsapp_export_zip::spec_import(
                l,
                Some(crate::sources::whatsapp_export_zip::DEFAULT_WHATSAPP_EXPORT_IMPORT_MAX_MESSAGES),
            ) {
                crate::sources::whatsapp_export_zip::ImportOutcome::Imported(imp, skipped) => {
                    let chosen = embed_selection(imp.attachments).0;
                    match export_payloads(l, chosen) {
                        Err(crate::sources::whatsapp_export_zip::PayloadFailure::Unopenable) => r matches Err(
                            ZipHtmlExportError::AttachmentRead(e),
                        ) && e is Zip,
                        Err(crate::sources::whatsapp_export_zip::PayloadFailure::Unreadable) => r matches Err(
                            ZipHtmlExportError::AttachmentRead(e),
                        ) && e is Io,
                        Ok(p) => {
                            let emb = embedded_from_payloads(chosen, p);
                            r is Ok && r->Ok_0.0@ == crate::exports::html::chat_html(imp, title@, emb)
                                && r->Ok_0.1.embedded_attachment_count == emb.len()
                                && r->Ok_0.1.skipped_attachment_count == (if imp.attachments.len()
                                > emb.len() {
                                imp.attachments.len() - emb.len()
                            } else {
                                0
                            }) && r->Ok_0.1.exported_message_count == imp.messages.len()
                                && r->Ok_0.1.skipped_message_count == skipped
                        },
                    }
                },
                o => r matches Err(ZipHtmlExportError::Import(e)) && import_error_matches(o, e),
            },
        },
{
    let copy = archive.clone();
    assert(copy@ =~= archive@);
    let options = crate::sources::whatsapp_export_zip::WhatsappExportImportOptions::recent(
        crate::sources::whatsapp_export_zip::DEFAULT_WHATSAPP_EXPORT_IMPORT_MAX_MESSAGES,
    );
    let imported = match crate::sources::whatsapp_export_zip::import_whatsapp_export_zip_with_options(
        archive,
        options,
    ) {
        Ok(ir) => ir,
        Err(e) => {
            return Err(ZipHtmlExportError::Import(e));
        },
    };
    let chosen = select_attachments_for_embedding(imported.imported.attachments.as_slice());
    let mut paths: Vec<&str> = Vec::new();
    let mut i: usize = 0;
    while i < chosen.len()
        invariant
            i <= chosen@.len(),
            crate::sources::whatsapp_export_zip::strs_view(paths@) =~= attachments_view(
                chosen@.take(i as int),
            ).map_values(|a: AttachmentV| a.archive_path),
        decreases chosen@.len() - i,
    {
        let ghost before = paths@;
        let path = chosen[i].archive_path.as_str();
        paths.push(path);
        assert(paths@ =~= before.push(path));
        assert(chosen@.take(i + 1) =~= chosen@.take(i as int).push(chosen@[i as int]));
        assert(attachments_view(chosen@.take(i + 1)) =~= attachments_view(chosen@.take(i as int)).push(
            chosen@[i as int]@,
        ));
        assert(crate::sources::whatsapp_export_zip::strs_view(paths@) =~= crate::sources::whatsapp_export_zip::strs_view(
            before,
        ).push(chosen@[i as int].archive_path@));
        i += 1;
    }
    assert(chosen@.take(chosen@.len() as int) =~= chosen@);
    assert(attachments_view(chosen@) == embed_selection(imported.imported@.attachments).0);
    assert(attachments_view(chosen@).map_values(|a: AttachmentV| a.archive_path)
        == crate::sources::whatsapp_export_zip::strs_view(paths@));
    let payloads = match crate::sources::whatsapp_export_zip::read_whatsapp_export_attachments(
        copy,
        paths.as_slice(),
        ATTACHMENT_EXPORT_MAX_BYTES,
    ) {
        Ok(p) => p,
        Err(e) => {
            return Err(ZipHtmlExportError::AttachmentRead(e));
        },
    };
    proof {
        let l = crate::sources::whatsapp_export_zip::zip_directory(archive@)->0;
        if payloads@.len() == 0 {
            assert(pairs_view(payloads@) =~= Seq::<(Seq<char>, PayloadV)>::empty());
        }
        assert(export_payloads(l, attachments_view(chosen@)) == Ok::<Seq<(Seq<char>, PayloadV)>, crate::sources::whatsapp_export_zip::PayloadFailure>(pairs_view(payloads@)));
    }
    let embedded = embedded_from_export_payloads(chosen.as_slice(), payloads.as_slice());
    let n = embedded.len();
    assert(crate::exports::html::embedded_view(embedded@).len() == n);
    let html = crate::exports::html::build_chat_html_export(
        &imported.imported,
        &crate::exports::html::HtmlExportOptions { title: title.to_owned() },
        embedded.as_slice(),
    );
    Ok((html, html_export_result(&imported.imported, n, imported.skipped_message_count)))
}

// ---------------------------------------------------------------------------
// Chat lists and searches
// ---------------------------------------------------------------------------

pub open spec fn chat_dto_of(c: Chat) -> ChatDto {
    ChatDto {
        id: c.id,
        title: c.title,
        latest_message: c.latest_message,
        latest_message_timestamp: c.latest_message_timestamp,
        message_count: c.message_count,
        attachment_count: c.attachment_count,
    }
}

/// The chats shown, at most `limit` of them, and whether more were read.
pub fn chats_result(chats: Vec<Chat>, limit: usize) -> (r: IphoneBackupChatsResultDto)
    ensures
        r.is_truncated == (chats@.len() > limit),
        r.limit == limit,
        r.chats@.len() == if chats@.len() > limit {
            limit as int
        } else {
            chats@.len() as int
        },
        forall|k: int| 0 <= k < r.chats@.len() ==> r.chats@[k] == chat_dto_of(#[trigger] chats@[k]),
{
    let is_truncated = chats.len() > limit;
    let n = if is_truncated {
        limit
    } else {
        chats.len()
    };
    let mut out: Vec<ChatDto> = Vec::new();
    let mut i: usize = 0;
    while i < n
        invariant
            i <= n,
            n <= chats@.len(),
            out@.len() == i,
            forall|k: int| 0 <= k < i ==> out@[k] == chat_dto_of(#[trigger] chats@[k]),
        decreases n - i,
    {
        let c = chats[i].copy();
        out.push(ChatDto::from(c));
        i += 1;
    }
    IphoneBackupChatsResultDto { chats: out, is_truncated, limit }
}

pub open spec fn has_truncation_issue(issues: Seq<ImportIssueV>) -> bool {
    exists|k: int| 0 <= k < issues.len() && (#[trigger] issues[k]).code
        == ImportIssueCode::SearchResultsTruncated
}

/// A chat search result, marked truncated when the search says so.
pub fn search_result(imported: ChatImport, limit: usize) -> (r: IphoneBackupChatSearchResultDto)
    ensures
        r.imported == imported,
        r.limit == limit,
        r.is_truncated == has_truncation_issue(issues_view(imported.issues@)),
{
    let ghost iv = issues_view(imported.issues@);
    let mut is_truncated = false;
    let mut i: usize = 0;
    while i < imported.issues.len()
        invariant
            i <= imported.issues@.len(),
            iv == issues_view(imported.issues@),
            is_truncated == exists|k: int| 0 <= k < i && (#[trigger] iv[k]).code
                == ImportIssueCode::SearchResultsTruncated,
        decreases imported.issues@.len() - i,
    {
        if imported.issues[i].code == ImportIssueCode::SearchResultsTruncated {
            assert(iv[i as int].code == ImportIssueCode::SearchResultsTruncated);
            is_truncated = true;
        }
        i += 1;
    }
    IphoneBackupChatSearchResultDto { imported, is_truncated, limit }
}

// ---------------------------------------------------------------------------
// Backup candidates
// ---------------------------------------------------------------------------

/// What the interface learns of a backup's WhatsApp files: nothing but
/// counts and flags, or that its manifest could not be read.
pub fn whatsapp_backup_status(manifest: Option<&WhatsappManifestFiles>) -> (r: WhatsappBackupStatusDto)
    ensures
        match manifest {
            Some(m) => r.manifest_readable && r.has_chat_storage == m.chat_storage is Some
                && r.has_contacts == m.contacts is Some && r.media_file_count == m.media@.len(),
            None => !r.manifest_readable && !r.has_chat_storage && !r.has_contacts
                && r.media_file_count == 0,
        },
{
    match manifest {
        Some(m) => WhatsappBackupStatusDto {
            manifest_readable: true,
            has_chat_storage: m.chat_storage.is_some(),
            has_contacts: m.contacts.is_some(),
            media_file_count: m.media.len(),
        },
        None => WhatsappBackupStatusDto {
            manifest_readable: false,
            has_chat_storage: false,
            has_contacts: false,
            media_file_count: 0,
        },
    }
}

/// A backup as the interface lists it: a handle and names, never its path or
/// directory name.
pub fn backup_candidate_dto(
    candidate: &BackupCandidate,
    index: usize,
    handle: String,
    metadata: BackupMetadata,
    manifest: Option<&WhatsappManifestFiles>,
) -> (r: IphoneBackupCandidateDto)
    requires
        index < usize::MAX,
    ensures
        r.handle == handle,
        r.display_name@ == backup_display_name_of(
            opt_view(metadata.display_name),
            opt_view(metadata.device_name),
            opt_view(metadata.product_name),
            index,
        ),
        opt_view(r.product_label) == backup_product_label_of(
            opt_view(metadata.product_name),
            opt_view(metadata.product_type),
        ),
        r.product_version == metadata.product_version,
        r.last_backup_date == metadata.last_backup_date,
        r.is_encrypted == metadata.is_encrypted,
        r.has_info_plist == candidate.info_plist_path is Some,
        r.has_status_plist == candidate.status_plist_path is Some,
        r.has_manifest_plist == candidate.manifest_plist_path is Some,
        match manifest {
            Some(m) => r.whatsapp.manifest_readable && r.whatsapp.has_chat_storage
                == m.chat_storage is Some && r.whatsapp.has_contacts == m.contacts is Some
                && r.whatsapp.media_file_count == m.media@.len(),
            None => !r.whatsapp.manifest_readable && !r.whatsapp.has_chat_storage
                && !r.whatsapp.has_contacts && r.whatsapp.media_file_count == 0,
        },
{
    let display_name = backup_display_name(&metadata, index);
    let product_label = backup_product_label(&metadata);
    IphoneBackupCandidateDto {
        handle,
        display_name,
        product_label,
        product_version: metadata.product_version,
        last_backup_date: metadata.last_backup_date,
        is_encrypted: metadata.is_encrypted,
        has_info_plist: candidate.info_plist_path.is_some(),
        has_status_plist: candidate.status_plist_path.is_some(),
        has_manifest_plist: candidate.manifest_plist_path.is_some(),
        whatsapp: whatsapp_backup_status(manifest),
    }
}

} // verus!
