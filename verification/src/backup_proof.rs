//! A privacy-safe report on which local iPhone backups hold readable WhatsApp
//! data: counts and yes/no answers only, never paths, ids or chat content.
use vstd::prelude::*;

use crate::model::{
    BackupCandidate, Chat, ChatImport, ChatStorageSummary, WhatsappManifestFiles,
};
use crate::text::{append_all, decimal, decimal_exec, push_str, string_of};

verus! {

pub const PROOF_CHAT_LIST_SAMPLE_LIMIT: usize = 25;

pub const PROOF_CHAT_IMPORT_MESSAGE_SAMPLE_LIMIT: usize = 25;

#[derive(Debug, Clone, PartialEq, Eq)]
pub struct ProofReport {
    pub roots_checked: usize,
    pub backups: Vec<BackupProof>,
}

#[derive(Debug, Clone, Copy, PartialEq, Eq)]
pub struct BackupProof {
    pub backup_index: usize,
    pub has_info_plist: bool,
    pub has_status_plist: bool,
    pub has_chat_storage: bool,
    pub chat_storage_file_exists: bool,
    pub chat_storage_summary: Option<ChatStorageCountsProof>,
    pub chat_list_summary: Option<ChatListCountsProof>,
    pub first_chat_import_summary: Option<ChatImportCountsProof>,
    pub has_contacts: bool,
    pub media_file_count: usize,
}

#[derive(Debug, Clone, Copy, PartialEq, Eq)]
pub struct ChatStorageCountsProof {
    pub message_count: Option<u64>,
    pub chat_count: Option<u64>,
    pub media_item_count: Option<u64>,
}

#[derive(Debug, Clone, Copy, PartialEq, Eq)]
pub struct ChatListCountsProof {
    pub chat_count: usize,
    pub chat_sample_limit: usize,
    pub first_chat_message_count: u64,
    pub first_chat_attachment_count: u64,
}

#[derive(Debug, Clone, Copy, PartialEq, Eq)]
pub struct ChatImportCountsProof {
    pub message_count: usize,
    pub message_sample_limit: usize,
    pub attachment_count: usize,
    pub issue_count: usize,
}

impl From<ChatStorageSummary> for ChatStorageCountsProof {
    fn from(summary: ChatStorageSummary) -> (r: Self) {
        ChatStorageCountsProof {
            message_count: summary.message_count,
            chat_count: summary.chat_count,
            media_item_count: summary.media_item_count,
        }
    }
}

impl vstd::std_specs::convert::FromSpecImpl<ChatStorageSummary> for ChatStorageCountsProof {
    open spec fn obeys_from_spec() -> bool {
        true
    }

    open spec fn from_spec(summary: ChatStorageSummary) -> ChatStorageCountsProof {
        ChatStorageCountsProof {
            message_count: summary.message_count,
            chat_count: summary.chat_count,
            media_item_count: summary.media_item_count,
        }
    }
}

// ---------------------------------------------------------------------------
// Assembling the report
// ---------------------------------------------------------------------------

/// What was read of one backup: its candidate, the WhatsApp files of its
/// manifest, whether the chat database is there, and, when it is, its counts,
/// a sample of its chats and an import of the first of them.
pub struct BackupObservation {
    pub candidate: BackupCandidate,
    pub whatsapp: WhatsappManifestFiles,
    pub chat_storage_file_exists: bool,
    pub chat_storage_summary: Option<ChatStorageSummary>,
    pub chat_sample: Option<Vec<Chat>>,
    pub first_chat_import: Option<ChatImport>,
}

pub open spec fn chat_list_counts_of(chats: Seq<Chat>) -> ChatListCountsProof {
    ChatListCountsProof {
        chat_count: chats.len() as usize,
        chat_sample_limit: PROOF_CHAT_LIST_SAMPLE_LIMIT,
        first_chat_message_count: if chats.len() > 0 {
            chats[0].message_count
        } else {
            0
        },
        first_chat_attachment_count: if chats.len() > 0 {
            chats[0].attachment_count
        } else {
            0
        },
    }
}

/// The chats a proof reports on: the first `PROOF_CHAT_LIST_SAMPLE_LIMIT` of
/// the list, or all of them when there are no more.
pub open spec fn chat_sample_of(chats: Seq<Chat>) -> Seq<Chat> {
    if chats.len() > PROOF_CHAT_LIST_SAMPLE_LIMIT {
        chats.take(PROOF_CHAT_LIST_SAMPLE_LIMIT as int)
    } else {
        chats
    }
}

/// Samples a chat list for the proof, and names the chat whose latest
/// messages the proof imports: the first chat of the sample, if any.
pub fn sample_chats(chats: Vec<Chat>) -> (r: (Vec<Chat>, Option<String>))
    ensures
        r.0@ == chat_sample_of(chats@),
        match r.1 {
            Some(id) => chats@.len() > 0 && id@ == chats@[0].id@,
            None => chats@.len() == 0,
        },
{
    let mut sample = chats;
    sample.truncate(PROOF_CHAT_LIST_SAMPLE_LIMIT);
    let first = if sample.len() > 0 {
        Some(sample[0].id.clone())
    } else {
        None
    };
    (sample, first)
}

pub open spec fn import_counts_of(imported: ChatImport) -> ChatImportCountsProof {
    ChatImportCountsProof {
        message_count: imported.messages@.len() as usize,
        message_sample_limit: PROOF_CHAT_IMPORT_MESSAGE_SAMPLE_LIMIT,
        attachment_count: imported.attachments@.len() as usize,
        issue_count: imported.issues@.len() as usize,
    }
}

pub open spec fn backup_proof_of(index: usize, o: BackupObservation) -> BackupProof {
    BackupProof {
        backup_index: index,
        has_info_plist: o.candidate.info_plist_path is Some,
        has_status_plist: o.candidate.status_plist_path is Some,
        has_chat_storage: o.whatsapp.chat_storage is Some,
        chat_storage_file_exists: o.chat_storage_file_exists,
        chat_storage_summary: match o.chat_storage_summary {
            Some(s) => Some(
                ChatStorageCountsProof {
                    message_count: s.message_count,
                    chat_count: s.chat_count,
                    media_item_count: s.media_item_count,
                },
            ),
            None => None,
        },
        chat_list_summary: match o.chat_sample {
            Some(c) => Some(chat_list_counts_of(c@)),
            None => None,
        },
        first_chat_import_summary: match o.first_chat_import {
            Some(i) => Some(import_counts_of(i)),
            None => None,
        },
        has_contacts: o.whatsapp.contacts is Some,
        media_file_count: o.whatsapp.media@.len() as usize,
    }
}

/// The counts and flags of one backup; the candidate's path and id are not
/// carried over.
pub fn backup_proof(index: usize, o: &BackupObservation) -> (r: BackupProof)
    ensures
        r == backup_proof_of(index, *o),
{
    BackupProof {
        backup_index: index,
        has_info_plist: o.candidate.info_plist_path.is_some(),
        has_status_plist: o.candidate.status_plist_path.is_some(),
        has_chat_storage: o.whatsapp.chat_storage.is_some(),
        chat_storage_file_exists: o.chat_storage_file_exists,
        chat_storage_summary: match &o.chat_storage_summary {
            Some(s) => Some(
                ChatStorageCountsProof {
                    message_count: s.message_count,
                    chat_count: s.chat_count,
                    media_item_count: s.media_item_count,
                },
            ),
            None => None,
        },
        chat_list_summary: match &o.chat_sample {
            Some(c) => Some(
                ChatListCountsProof {
                    chat_count: c.len(),
                    chat_sample_limit: PROOF_CHAT_LIST_SAMPLE_LIMIT,
                    first_chat_message_count: if c.len() > 0 {
                        c[0].message_count
                    } else {
                        0
                    },
                    first_chat_attachment_count: if c.len() > 0 {
                        c[0].attachment_count
                    } else {
                        0
                    },
                },
            ),
            None => None,
        },
        first_chat_import_summary: match &o.first_chat_import {
            Some(i) => Some(
                ChatImportCountsProof {
                    message_count: i.messages.len(),
                    message_sample_limit: PROOF_CHAT_IMPORT_MESSAGE_SAMPLE_LIMIT,
                    attachment_count: i.attachments.len(),
                    issue_count: i.issues.len(),
                },
            ),
            None => None,
        },
        has_contacts: o.whatsapp.contacts.is_some(),
        media_file_count: o.whatsapp.media.len(),
    }
}

/// The report over the backups observed, numbered from 1 in order.
pub fn build_report(roots_checked: usize, observations: &[BackupObservation]) -> (r: ProofReport)
    requires
        observations@.len() < usize::MAX,
    ensures
        r.roots_checked == roots_checked,
        r.backups@.len() == observations@.len(),
        forall|k: int|
            0 <= k < observations@.len() ==> r.backups@[k] == backup_proof_of(
                (k + 1) as usize,
                #[trigger] observations@[k],
            ),
{
    let mut backups: Vec<BackupProof> = Vec::new();
    let mut k: usize = 0;
    while k < observations.len()
        invariant
            k <= observations@.len(),
            observations@.len() < usize::MAX,
            backups@.len() == k,
            forall|j: int|
                0 <= j < k ==> backups@[j] == backup_proof_of(
                    (j + 1) as usize,
                    #[trigger] observations@[j],
                ),
        decreases observations@.len() - k,
    {
        backups.push(backup_proof(k + 1, &observations[k]));
        k += 1;
    }
    ProofReport { roots_checked, backups }
}

// ---------------------------------------------------------------------------
// Rendering
// ---------------------------------------------------------------------------

pub open spec fn yes_no_text(b: bool) -> Seq<char> {
    if b {
        "yes"@
    } else {
        "no"@
    }
}

pub open spec fn count_text(v: Option<u64>) -> Seq<char> {
    match v {
        Some(c) => decimal(c as nat),
        None => "unknown"@,
    }
}

pub open spec fn line(label: Seq<char>, value: Seq<char>) -> Seq<char> {
    label + value + "\n"@
}

pub open spec fn storage_count(b: BackupProof, which: int) -> Option<u64> {
    match b.chat_storage_summary {
        Some(s) => if which == 0 {
            s.message_count
        } else if which == 1 {
            s.chat_count
        } else {
            s.media_item_count
        },
        None => None,
    }
}

pub open spec fn list_count(b: BackupProof, which: int) -> Option<u64> {
    match b.chat_list_summary {
        Some(l) => if which == 0 {
            Some(l.chat_count as u64)
        } else if which == 1 {
            Some(l.chat_sample_limit as u64)
        } else if which == 2 {
            Some(l.first_chat_message_count)
        } else {
            Some(l.first_chat_attachment_count)
        },
        None => None,
    }
}

pub open spec fn import_count(b: BackupProof, which: int) -> Option<u64> {
    match b.first_chat_import_summary {
        Some(i) => if which == 0 {
            Some(i.message_count as u64)
        } else if which == 1 {
            Some(i.message_sample_limit as u64)
        } else if which == 2 {
            Some(i.attachment_count as u64)
        } else {
            Some(i.issue_count as u64)
        },
        None => None,
    }
}

/// The backup's number and what its folder and manifest hold.
#[verifier::opaque]
pub open spec fn block_head(b: BackupProof) -> Seq<char> {
    line("\nbackup #"@, decimal(b.backup_index as nat)) + line(
        "info_plist: "@,
        yes_no_text(b.has_info_plist),
    ) + line("status_plist: "@, yes_no_text(b.has_status_plist)) + line(
        "whatsapp_chat_storage_manifest_entry: "@,
        yes_no_text(b.has_chat_storage),
    ) + line("whatsapp_chat_storage_file_exists: "@, yes_no_text(b.chat_storage_file_exists))
}

/// The chat database's own counts.
#[verifier::opaque]
pub open spec fn block_storage(b: BackupProof) -> Seq<char> {
    line("whatsapp_message_count: "@, count_text(storage_count(b, 0))) + line(
        "whatsapp_chat_count: "@,
        count_text(storage_count(b, 1)),
    ) + line("whatsapp_media_item_count: "@, count_text(storage_count(b, 2)))
}

/// What the sample of the chat list showed.
#[verifier::opaque]
pub open spec fn block_list(b: BackupProof) -> Seq<char> {
    line("whatsapp_chat_list_readable: "@, yes_no_text(b.chat_list_summary is Some)) + line(
        "whatsapp_chat_list_sample_count: "@,
        count_text(list_count(b, 0)),
    ) + line("whatsapp_chat_list_sample_limit: "@, count_text(list_count(b, 1))) + line(
        "whatsapp_first_chat_message_count: "@,
        count_text(list_count(b, 2)),
    ) + line("whatsapp_first_chat_attachment_count: "@, count_text(list_count(b, 3)))
}

/// What the import of the first chat showed.
#[verifier::opaque]
pub open spec fn block_import(b: BackupProof) -> Seq<char> {
    line(
        "whatsapp_first_chat_import_readable: "@,
        yes_no_text(b.first_chat_import_summary is Some),
    ) + line("whatsapp_first_chat_import_message_sample_count: "@, count_text(import_count(b, 0)))
        + line("whatsapp_first_chat_import_message_sample_limit: "@, count_text(import_count(b, 1)))
        + line(
        "whatsapp_first_chat_import_attachment_sample_count: "@,
        count_text(import_count(b, 2)),
    ) + line("whatsapp_first_chat_import_issue_count: "@, count_text(import_count(b, 3)))
}

/// The contacts database and the number of media files.
#[verifier::opaque]
pub open spec fn block_tail(b: BackupProof) -> Seq<char> {
    line("whatsapp_contacts_manifest_entry: "@, yes_no_text(b.has_contacts)) + line(
        "whatsapp_media_manifest_entries: "@,
        decimal(b.media_file_count as nat),
    )
}

/// The lines for one backup.
#[verifier::opaque]
pub open spec fn backup_block(b: BackupProof) -> Seq<char> {
    block_head(b) + block_storage(b) + block_list(b) + block_import(b) + block_tail(b)
}

pub open spec fn backup_blocks(bs: Seq<BackupProof>) -> Seq<char>
    decreases bs.len(),
{
    if bs.len() == 0 {
        seq![]
    } else {
        backup_blocks(bs.drop_last()) + backup_block(bs.last())
    }
}

/// The report's first three lines: its title and the numbers of folders
/// checked and backups found.
pub open spec fn report_head(roots_checked: usize, backups: nat) -> Seq<char> {
    "WhatsVault backup proof\n"@ + line("backup_roots_checked: "@, decimal(roots_checked as nat))
        + line("backup_candidates: "@, decimal(backups))
}

/// The whole report: a header with the numbers of folders and backups, then a
/// block per backup, or a status line when there is none.
pub open spec fn report_text(r: ProofReport) -> Seq<char> {
    let head = report_head(r.roots_checked, r.backups@.len());
    if r.backups@.len() == 0 {
        head + "status: no local iPhone backups found\n"@
    } else {
        head + backup_blocks(r.backups@)
    }
}

fn push_line(out: &mut Vec<char>, label: &str, value: &[char])
    ensures
        final(out)@ == old(out)@ + line(label@, value@),
{
    push_str(out, label);
    append_all(out, value);
    push_str(out, "\n");
}

fn yes_no(value: bool) -> (r: &'static str)
    ensures
        r@ == yes_no_text(value),
{
    if value {
        "yes"
    } else {
        "no"
    }
}

fn push_flag(out: &mut Vec<char>, label: &str, value: bool)
    ensures
        final(out)@ == old(out)@ + line(label@, yes_no_text(value)),
{
    let v = chars_of_static(yes_no(value));
    push_line(out, label, v.as_slice());
}

fn chars_of_static(s: &str) -> (r: Vec<char>)
    ensures
        r@ == s@,
{
    crate::text::chars_of(s)
}

fn count_or_unknown(value: Option<u64>) -> (r: Vec<char>)
    ensures
        r@ == count_text(value),
{
    match value {
        Some(c) => decimal_exec(c),
        None => chars_of_static("unknown"),
    }
}

fn push_count(out: &mut Vec<char>, label: &str, value: Option<u64>)
    ensures
        final(out)@ == old(out)@ + line(label@, count_text(value)),
{
    let v = count_or_unknown(value);
    push_line(out, label, v.as_slice());
}

fn list_count_exec(b: &BackupProof, which: u8) -> (r: Option<u64>)
    ensures
        r == list_count(*b, which as int),
{
    match b.chat_list_summary {
        Some(l) => if which == 0 {
            Some(l.chat_count as u64)
        } else if which == 1 {
            Some(l.chat_sample_limit as u64)
        } else if which == 2 {
            Some(l.first_chat_message_count)
        } else {
            Some(l.first_chat_attachment_count)
        },
        None => None,
    }
}

fn import_count_exec(b: &BackupProof, which: u8) -> (r: Option<u64>)
    ensures
        r == import_count(*b, which as int),
{
    match b.first_chat_import_summary {
        Some(i) => if which == 0 {
            Some(i.message_count as u64)
        } else if which == 1 {
            Some(i.message_sample_limit as u64)
        } else if which == 2 {
            Some(i.attachment_count as u64)
        } else {
            Some(i.issue_count as u64)
        },
        None => None,
    }
}

fn storage_count_exec(b: &BackupProof, which: u8) -> (r: Option<u64>)
    ensures
        r == storage_count(*b, which as int),
{
    match b.chat_storage_summary {
        Some(s) => if which == 0 {
            s.message_count
        } else if which == 1 {
            s.chat_count
        } else {
            s.media_item_count
        },
        None => None,
    }
}

fn render_head(out: &mut Vec<char>, b: &BackupProof)
    ensures
        final(out)@ == old(out)@ + block_head(*b),
{
    reveal(block_head);
    let index = decimal_exec(b.backup_index as u64);
    push_line(out, "\nbackup #", index.as_slice());
    push_flag(out, "info_plist: ", b.has_info_plist);
    push_flag(out, "status_plist: ", b.has_status_plist);
    push_flag(out, "whatsapp_chat_storage_manifest_entry: ", b.has_chat_storage);
    push_flag(out, "whatsapp_chat_storage_file_exists: ", b.chat_storage_file_exists);
}

fn render_storage(out: &mut Vec<char>, b: &BackupProof)
    ensures
        final(out)@ == old(out)@ + block_storage(*b),
{
    reveal(block_storage);
    push_count(out, "whatsapp_message_count: ", storage_count_exec(b, 0));
    push_count(out, "whatsapp_chat_count: ", storage_count_exec(b, 1));
    push_count(out, "whatsapp_media_item_count: ", storage_count_exec(b, 2));
}

fn render_list(out: &mut Vec<char>, b: &BackupProof)
    ensures
        final(out)@ == old(out)@ + block_list(*b),
{
    reveal(block_list);
    push_flag(out, "whatsapp_chat_list_readable: ", b.chat_list_summary.is_some());
    push_count(out, "whatsapp_chat_list_sample_count: ", list_count_exec(b, 0));
    push_count(out, "whatsapp_chat_list_sample_limit: ", list_count_exec(b, 1));
    push_count(out, "whatsapp_first_chat_message_count: ", list_count_exec(b, 2));
    push_count(out, "whatsapp_first_chat_attachment_count: ", list_count_exec(b, 3));
}

fn render_import(out: &mut Vec<char>, b: &BackupProof)
    ensures
        final(out)@ == old(out)@ + block_import(*b),
{
    reveal(block_import);
    push_flag(out, "whatsapp_first_chat_import_readable: ", b.first_chat_import_summary.is_some());
    push_count(out, "whatsapp_first_chat_import_message_sample_count: ", import_count_exec(b, 0));
    push_count(out, "whatsapp_first_chat_import_message_sample_limit: ", import_count_exec(b, 1));
    push_count(
        out,
        "whatsapp_first_chat_import_attachment_sample_count: ",
        import_count_exec(b, 2),
    );
    push_count(out, "whatsapp_first_chat_import_issue_count: ", import_count_exec(b, 3));
}

fn render_tail(out: &mut Vec<char>, b: &BackupProof)
    ensures
        final(out)@ == old(out)@ + block_tail(*b),
{
    reveal(block_tail);
    push_flag(out, "whatsapp_contacts_manifest_entry: ", b.has_contacts);
    let media_count = decimal_exec(b.media_file_count as u64);
    push_line(out, "whatsapp_media_manifest_entries: ", media_count.as_slice());
}

fn render_backup(out: &mut Vec<char>, b: &BackupProof)
    ensures
        final(out)@ == old(out)@ + backup_block(*b),
{
    let ghost start = out@;
    render_head(out, b);
    render_storage(out, b);
    render_list(out, b);
    render_import(out, b);
    render_tail(out, b);
    reveal(backup_block);
    assert(out@ =~= start + backup_block(*b));
}

/// The report as text.
#[verifier::spinoff_prover]
pub fn render_report(report: &ProofReport) -> (r: String)
    ensures
        r@ == report_text(*report),
{
    let mut out: Vec<char> = Vec::new();
    push_str(&mut out, "WhatsVault backup proof\n");
    let roots = decimal_exec(report.roots_checked as u64);
    push_line(&mut out, "backup_roots_checked: ", roots.as_slice());
    let count = decimal_exec(report.backups.len() as u64);
    push_line(&mut out, "backup_candidates: ", count.as_slice());
    if report.backups.len() == 0 {
        push_str(&mut out, "status: no local iPhone backups found\n");
        return string_of(out);
    }
    let ghost head = out@;
    let ghost bs = report.backups@;
    let mut k: usize = 0;
    assert(bs.take(0) =~= Seq::<BackupProof>::empty());
    while k < report.backups.len()
        invariant
            k <= bs.len(),
            bs == report.backups@,
            out@ == head + backup_blocks(bs.take(k as int)),
        decreases bs.len() - k,
    {
        assert(bs.take(k + 1).drop_last() =~= bs.take(k as int));
        render_backup(&mut out, &report.backups[k]);
        k += 1;
    }
    assert(bs.take(bs.len() as int) =~= bs);
    string_of(out)
}


proof fn lemma_backup_blocks_append(a: Seq<BackupProof>, b: Seq<BackupProof>)
    ensures
        backup_blocks(a + b) =~= backup_blocks(a) + backup_blocks(b),
    decreases b.len(),
{
    if b.len() == 0 {
        assert(a + b =~= a);
    } else {
        lemma_backup_blocks_append(a, b.drop_last());
        assert((a + b).drop_last() =~= a + b.drop_last());
        assert((a + b).last() == b.last());
    }
}

/// The text that opens a backup's block: a blank line and its number.
pub open spec fn block_opening(b: BackupProof) -> Seq<char> {
    "\nbackup #"@ + decimal(b.backup_index as nat) + "\n"@
}

proof fn lemma_block_opens(b: BackupProof)
    ensures
        block_opening(b).is_prefix_of(backup_block(b)),
{
    reveal(backup_block);
    reveal(block_head);
    let h = block_opening(b);
    assert(backup_block(b).take(h.len() as int) =~= h);
}

proof fn lemma_blocks_split(bs: Seq<BackupProof>, k: int)
    requires
        0 <= k < bs.len(),
    ensures
        backup_blocks(bs) =~= backup_blocks(bs.take(k)) + backup_block(bs[k]) + backup_blocks(
            bs.skip(k + 1),
        ),
{
    assert(bs =~= bs.take(k) + (seq![bs[k]] + bs.skip(k + 1)));
    lemma_backup_blocks_append(bs.take(k), seq![bs[k]] + bs.skip(k + 1));
    lemma_backup_blocks_append(seq![bs[k]], bs.skip(k + 1));
    assert(seq![bs[k]].drop_last() =~= Seq::<BackupProof>::empty());
    assert(seq![bs[k]].last() == bs[k]);
    assert(backup_blocks(Seq::<BackupProof>::empty()) =~= Seq::<char>::empty());
    assert(backup_blocks(seq![bs[k]]) =~= backup_block(bs[k]));
}

/// The report opens with its title and the numbers of folders checked and
/// backups found; with no backup it closes with the status line alone, and
/// otherwise it is the blocks of the backups in order, each opening with the
/// backup's number.
pub proof fn lemma_report_shape(r: ProofReport)
    ensures
        report_head(r.roots_checked, r.backups@.len()).is_prefix_of(report_text(r)),
        r.backups@.len() == 0 ==> report_text(r) =~= report_head(r.roots_checked, 0)
            + "status: no local iPhone backups found\n"@,
        r.backups@.len() > 0 ==> report_text(r) =~= report_head(r.roots_checked, r.backups@.len())
            + backup_blocks(r.backups@),
        forall|k: int|
            0 <= k < r.backups@.len() ==> backup_blocks(r.backups@) =~= backup_blocks(
                r.backups@.take(k),
            ) + backup_block(#[trigger] r.backups@[k]) + backup_blocks(r.backups@.skip(k + 1)),
        forall|k: int|
            0 <= k < r.backups@.len() ==> block_opening(#[trigger] r.backups@[k]).is_prefix_of(
                backup_block(r.backups@[k]),
            ),
{
    let head = report_head(r.roots_checked, r.backups@.len());
    assert(report_text(r).take(head.len() as int) =~= head);
    assert forall|k: int| 0 <= k < r.backups@.len() implies backup_blocks(r.backups@) =~= backup_blocks(
        r.backups@.take(k),
    ) + backup_block(#[trigger] r.backups@[k]) + backup_blocks(r.backups@.skip(k + 1)) by {
        lemma_blocks_split(r.backups@, k);
    }
    assert forall|k: int| 0 <= k < r.backups@.len() implies block_opening(
        #[trigger] r.backups@[k],
    ).is_prefix_of(backup_block(r.backups@[k])) by {
        lemma_block_opens(r.backups@[k]);
    }
}


/// The number of lines a text holds: its newline characters.
pub open spec fn line_count(s: Seq<char>) -> nat
    decreases s.len(),
{
    if s.len() == 0 {
        0
    } else {
        line_count(s.drop_last()) + if s.last() == '\n' {
            1nat
        } else {
            0nat
        }
    }
}

proof fn lemma_line_count_add(a: Seq<char>, b: Seq<char>)
    ensures
        line_count(a + b) == line_count(a) + line_count(b),
    decreases b.len(),
{
    if b.len() == 0 {
        assert(a + b =~= a);
    } else {
        lemma_line_count_add(a, b.drop_last());
        assert((a + b).drop_last() =~= a + b.drop_last());
    }
}

proof fn lemma_plain(s: Seq<char>)
    requires
        forall|i: int| 0 <= i < s.len() ==> s[i] != '\n',
    ensures
        line_count(s) == 0,
    decreases s.len(),
{
    if s.len() > 0 {
        lemma_plain(s.drop_last());
    }
}

proof fn lemma_labels_plain()
    ensures
        line_count("backup_roots_checked: "@) == 0,
        line_count("backup_candidates: "@) == 0,
        line_count("info_plist: "@) == 0,
        line_count("status_plist: "@) == 0,
        line_count("whatsapp_chat_storage_manifest_entry: "@) == 0,
        line_count("whatsapp_chat_storage_file_exists: "@) == 0,
        line_count("whatsapp_message_count: "@) == 0,
        line_count("whatsapp_chat_count: "@) == 0,
        line_count("whatsapp_media_item_count: "@) == 0,
        line_count("whatsapp_chat_list_readable: "@) == 0,
        line_count("whatsapp_chat_list_sample_count: "@) == 0,
        line_count("whatsapp_chat_list_sample_limit: "@) == 0,
        line_count("whatsapp_first_chat_message_count: "@) == 0,
        line_count("whatsapp_first_chat_attachment_count: "@) == 0,
        line_count("whatsapp_first_chat_import_readable: "@) == 0,
        line_count("whatsapp_first_chat_import_message_sample_count: "@) == 0,
        line_count("whatsapp_first_chat_import_message_sample_limit: "@) == 0,
        line_count("whatsapp_first_chat_import_attachment_sample_count: "@) == 0,
        line_count("whatsapp_first_chat_import_issue_count: "@) == 0,
        line_count("whatsapp_contacts_manifest_entry: "@) == 0,
        line_count("whatsapp_media_manifest_entries: "@) == 0,
        line_count("yes"@) == 0,
        line_count("no"@) == 0,
        line_count("unknown"@) == 0,
        line_count("WhatsVault backup proof"@) == 0,
        line_count("backup #"@) == 0,
        line_count("status: no local iPhone backups found"@) == 0,
{
    reveal_strlit("backup_roots_checked: ");
    lemma_plain("backup_roots_checked: "@);
    reveal_strlit("backup_candidates: ");
    lemma_plain("backup_candidates: "@);
    reveal_strlit("info_plist: ");
    lemma_plain("info_plist: "@);
    reveal_strlit("status_plist: ");
    lemma_plain("status_plist: "@);
    reveal_strlit("whatsapp_chat_storage_manifest_entry: ");
    lemma_plain("whatsapp_chat_storage_manifest_entry: "@);
    reveal_strlit("whatsapp_chat_storage_file_exists: ");
    lemma_plain("whatsapp_chat_storage_file_exists: "@);
    reveal_strlit("whatsapp_message_count: ");
    lemma_plain("whatsapp_message_count: "@);
    reveal_strlit("whatsapp_chat_count: ");
    lemma_plain("whatsapp_chat_count: "@);
    reveal_strlit("whatsapp_media_item_count: ");
    lemma_plain("whatsapp_media_item_count: "@);
    reveal_strlit("whatsapp_chat_list_readable: ");
    lemma_plain("whatsapp_chat_list_readable: "@);
    reveal_strlit("whatsapp_chat_list_sample_count: ");
    lemma_plain("whatsapp_chat_list_sample_count: "@);
    reveal_strlit("whatsapp_chat_list_sample_limit: ");
    lemma_plain("whatsapp_chat_list_sample_limit: "@);
    reveal_strlit("whatsapp_first_chat_message_count: ");
    lemma_plain("whatsapp_first_chat_message_count: "@);
    reveal_strlit("whatsapp_first_chat_attachment_count: ");
    lemma_plain("whatsapp_first_chat_attachment_count: "@);
    reveal_strlit("whatsapp_first_chat_import_readable: ");
    lemma_plain("whatsapp_first_chat_import_readable: "@);
    reveal_strlit("whatsapp_first_chat_import_message_sample_count: ");
    lemma_plain("whatsapp_first_chat_import_message_sample_count: "@);
    reveal_strlit("whatsapp_first_chat_import_message_sample_limit: ");
    lemma_plain("whatsapp_first_chat_import_message_sample_limit: "@);
    reveal_strlit("whatsapp_first_chat_import_attachment_sample_count: ");
    lemma_plain("whatsapp_first_chat_import_attachment_sample_count: "@);
    reveal_strlit("whatsapp_first_chat_import_issue_count: ");
    lemma_plain("whatsapp_first_chat_import_issue_count: "@);
    reveal_strlit("whatsapp_contacts_manifest_entry: ");
    lemma_plain("whatsapp_contacts_manifest_entry: "@);
    reveal_strlit("whatsapp_media_manifest_entries: ");
    lemma_plain("whatsapp_media_manifest_entries: "@);
    reveal_strlit("yes");
    lemma_plain("yes"@);
    reveal_strlit("no");
    lemma_plain("no"@);
    reveal_strlit("unknown");
    lemma_plain("unknown"@);
    reveal_strlit("WhatsVault backup proof");
    lemma_plain("WhatsVault backup proof"@);
    reveal_strlit("backup #");
    lemma_plain("backup #"@);
    reveal_strlit("status: no local iPhone backups found");
    lemma_plain("status: no local iPhone backups found"@);
}

proof fn lemma_newline_text()
    ensures
        line_count("\n"@) == 1,
        "WhatsVault backup proof\n"@ =~= "WhatsVault backup proof"@ + "\n"@,
        "\nbackup #"@ =~= "\n"@ + "backup #"@,
        "status: no local iPhone backups found\n"@ =~= "status: no local iPhone backups found"@
            + "\n"@,
{
    reveal_strlit("\n");
    reveal_strlit("WhatsVault backup proof\n");
    reveal_strlit("WhatsVault backup proof");
    reveal_strlit("\nbackup #");
    reveal_strlit("backup #");
    reveal_strlit("status: no local iPhone backups found\n");
    reveal_strlit("status: no local iPhone backups found");
    assert("\n"@.drop_last() =~= Seq::<char>::empty());
    assert("\n"@.last() == '\n');
    assert(line_count(Seq::<char>::empty()) == 0);
}

proof fn lemma_digit_char_plain(d: nat)
    requires
        d < 10,
    ensures
        crate::text::digit_char(d) != '\n',
{
    assert(('0' as u32) == 48);
    let c = crate::text::digit_char(d);
    assert(c as u32 == 48 + d);
}

proof fn lemma_decimal_plain(n: nat)
    ensures
        line_count(decimal(n)) == 0,
    decreases n,
{
    if n >= 10 {
        lemma_decimal_plain(n / 10);
        assert(decimal(n).drop_last() =~= decimal(n / 10));
        assert(decimal(n).last() == crate::text::digit_char(n % 10));
        lemma_digit_char_plain(n % 10);
    } else {
        let d = seq![crate::text::digit_char(n)];
        assert(d.drop_last() =~= Seq::<char>::empty());
        assert(line_count(Seq::<char>::empty()) == 0);
        lemma_digit_char_plain(n);
    }
}

proof fn lemma_line_count_line(label: Seq<char>, value: Seq<char>)
    requires
        line_count(value) == 0,
    ensures
        line_count(line(label, value)) == line_count(label) + 1,
{
    lemma_newline_text();
    lemma_line_count_add(label, value);
    lemma_line_count_add(label + value, "\n"@);
}

proof fn lemma_values_plain(v: Option<u64>, b: bool)
    ensures
        line_count(count_text(v)) == 0,
        line_count(yes_no_text(b)) == 0,
{
    lemma_labels_plain();
    if let Some(c) = v {
        lemma_decimal_plain(c as nat);
    }
}

proof fn lemma_block_lines(b: BackupProof)
    ensures
        line_count(backup_block(b)) == 21,
{
    reveal(backup_block);
    reveal(block_head);
    reveal(block_storage);
    reveal(block_list);
    reveal(block_import);
    reveal(block_tail);
    lemma_labels_plain();
    lemma_newline_text();
    lemma_line_count_add("\n"@, "backup #"@);
    lemma_decimal_plain(b.backup_index as nat);
    lemma_decimal_plain(b.media_file_count as nat);
    lemma_values_plain(None, b.has_info_plist);
    lemma_values_plain(None, b.has_status_plist);
    lemma_values_plain(None, b.has_chat_storage);
    lemma_values_plain(None, b.chat_storage_file_exists);
    lemma_values_plain(None, b.chat_list_summary is Some);
    lemma_values_plain(None, b.first_chat_import_summary is Some);
    lemma_values_plain(None, b.has_contacts);
    let h1 = line("\nbackup #"@, decimal(b.backup_index as nat));
    let h2 = line("info_plist: "@, yes_no_text(b.has_info_plist));
    let h3 = line("status_plist: "@, yes_no_text(b.has_status_plist));
    let h4 = line("whatsapp_chat_storage_manifest_entry: "@, yes_no_text(b.has_chat_storage));
    let h5 = line("whatsapp_chat_storage_file_exists: "@, yes_no_text(b.chat_storage_file_exists));
    lemma_line_count_line("\nbackup #"@, decimal(b.backup_index as nat));
    lemma_line_count_line("info_plist: "@, yes_no_text(b.has_info_plist));
    lemma_line_count_line("status_plist: "@, yes_no_text(b.has_status_plist));
    lemma_line_count_line("whatsapp_chat_storage_manifest_entry: "@, yes_no_text(b.has_chat_storage));
    lemma_line_count_line("whatsapp_chat_storage_file_exists: "@, yes_no_text(b.chat_storage_file_exists));
    lemma_line_count_add(h1, h2);
    lemma_line_count_add(h1 + h2, h3);
    lemma_line_count_add(h1 + h2 + h3, h4);
    lemma_line_count_add(h1 + h2 + h3 + h4, h5);
    assert(line_count(block_head(b)) == 6);
    let s0 = line("whatsapp_message_count: "@, count_text(storage_count(b, 0)));
    let s1 = line("whatsapp_chat_count: "@, count_text(storage_count(b, 1)));
    let s2 = line("whatsapp_media_item_count: "@, count_text(storage_count(b, 2)));
    lemma_values_plain(storage_count(b, 0), true);
    lemma_values_plain(storage_count(b, 1), true);
    lemma_values_plain(storage_count(b, 2), true);
    lemma_line_count_line("whatsapp_message_count: "@, count_text(storage_count(b, 0)));
    lemma_line_count_line("whatsapp_chat_count: "@, count_text(storage_count(b, 1)));
    lemma_line_count_line("whatsapp_media_item_count: "@, count_text(storage_count(b, 2)));
    lemma_line_count_add(s0, s1);
    lemma_line_count_add(s0 + s1, s2);
    assert(line_count(block_storage(b)) == 3);
    let l0 = line("whatsapp_chat_list_readable: "@, yes_no_text(b.chat_list_summary is Some));
    let l1 = line("whatsapp_chat_list_sample_count: "@, count_text(list_count(b, 0)));
    let l2 = line("whatsapp_chat_list_sample_limit: "@, count_text(list_count(b, 1)));
    let l3 = line("whatsapp_first_chat_message_count: "@, count_text(list_count(b, 2)));
    let l4 = line("whatsapp_first_chat_attachment_count: "@, count_text(list_count(b, 3)));
    lemma_values_plain(list_count(b, 0), true);
    lemma_values_plain(list_count(b, 1), true);
    lemma_values_plain(list_count(b, 2), true);
    lemma_values_plain(list_count(b, 3), true);
    lemma_line_count_line("whatsapp_chat_list_readable: "@, yes_no_text(b.chat_list_summary is Some));
    lemma_line_count_line("whatsapp_chat_list_sample_count: "@, count_text(list_count(b, 0)));
    lemma_line_count_line("whatsapp_chat_list_sample_limit: "@, count_text(list_count(b, 1)));
    lemma_line_count_line("whatsapp_first_chat_message_count: "@, count_text(list_count(b, 2)));
    lemma_line_count_line("whatsapp_first_chat_attachment_count: "@, count_text(list_count(b, 3)));
    lemma_line_count_add(l0, l1);
    lemma_line_count_add(l0 + l1, l2);
    lemma_line_count_add(l0 + l1 + l2, l3);
    lemma_line_count_add(l0 + l1 + l2 + l3, l4);
    assert(line_count(block_list(b)) == 5);
    let i0 = line(
        "whatsapp_first_chat_import_readable: "@,
        yes_no_text(b.first_chat_import_summary is Some),
    );
    let i1 = line("whatsapp_first_chat_import_message_sample_count: "@, count_text(import_count(b, 0)));
    let i2 = line("whatsapp_first_chat_import_message_sample_limit: "@, count_text(import_count(b, 1)));
    let i3 = line(
        "whatsapp_first_chat_import_attachment_sample_count: "@,
        count_text(import_count(b, 2)),
    );
    let i4 = line("whatsapp_first_chat_import_issue_count: "@, count_text(import_count(b, 3)));
    lemma_values_plain(import_count(b, 0), true);
    lemma_values_plain(import_count(b, 1), true);
    lemma_values_plain(import_count(b, 2), true);
    lemma_values_plain(import_count(b, 3), true);
    lemma_line_count_line(
        "whatsapp_first_chat_import_readable: "@,
        yes_no_text(b.first_chat_import_summary is Some),
    );
    lemma_line_count_line("whatsapp_first_chat_import_message_sample_count: "@, count_text(import_count(b, 0)));
    lemma_line_count_line("whatsapp_first_chat_import_message_sample_limit: "@, count_text(import_count(b, 1)));
    lemma_line_count_line(
        "whatsapp_first_chat_import_attachment_sample_count: "@,
        count_text(import_count(b, 2)),
    );
    lemma_line_count_line("whatsapp_first_chat_import_issue_count: "@, count_text(import_count(b, 3)));
    lemma_line_count_add(i0, i1);
    lemma_line_count_add(i0 + i1, i2);
    lemma_line_count_add(i0 + i1 + i2, i3);
    lemma_line_count_add(i0 + i1 + i2 + i3, i4);
    assert(line_count(block_import(b)) == 5);
    let t0 = line("whatsapp_contacts_manifest_entry: "@, yes_no_text(b.has_contacts));
    let t1 = line("whatsapp_media_manifest_entries: "@, decimal(b.media_file_count as nat));
    lemma_line_count_line("whatsapp_contacts_manifest_entry: "@, yes_no_text(b.has_contacts));
    lemma_line_count_line("whatsapp_media_manifest_entries: "@, decimal(b.media_file_count as nat));
    lemma_line_count_add(t0, t1);
    assert(line_count(block_tail(b)) == 2);
    lemma_line_count_add(block_head(b), block_storage(b));
    lemma_line_count_add(block_head(b) + block_storage(b), block_list(b));
    lemma_line_count_add(block_head(b) + block_storage(b) + block_list(b), block_import(b));
    lemma_line_count_add(
        block_head(b) + block_storage(b) + block_list(b) + block_import(b),
        block_tail(b),
    );
}

proof fn lemma_blocks_lines(bs: Seq<BackupProof>)
    ensures
        line_count(backup_blocks(bs)) == 21 * bs.len(),
    decreases bs.len(),
{
    if bs.len() > 0 {
        lemma_blocks_lines(bs.drop_last());
        lemma_block_lines(bs.last());
        lemma_line_count_add(backup_blocks(bs.drop_last()), backup_block(bs.last()));
    }
}

/// The report runs to four lines when no backup was found, and otherwise to
/// its three header lines and twenty-one lines per backup.
pub proof fn lemma_report_line_count(r: ProofReport)
    ensures
        line_count(report_text(r)) == if r.backups@.len() == 0 {
            4
        } else {
            3 + 21 * r.backups@.len()
        },
{
    lemma_labels_plain();
    lemma_newline_text();
    lemma_decimal_plain(r.roots_checked as nat);
    lemma_decimal_plain(r.backups@.len());
    lemma_line_count_add("WhatsVault backup proof"@, "\n"@);
    lemma_line_count_line("backup_roots_checked: "@, decimal(r.roots_checked as nat));
    lemma_line_count_line("backup_candidates: "@, decimal(r.backups@.len()));
    let t = "WhatsVault backup proof\n"@;
    let a = line("backup_roots_checked: "@, decimal(r.roots_checked as nat));
    let c = line("backup_candidates: "@, decimal(r.backups@.len()));
    lemma_line_count_add(t, a);
    lemma_line_count_add(t + a, c);
    let head = report_head(r.roots_checked, r.backups@.len());
    assert(line_count(head) == 3);
    if r.backups@.len() == 0 {
        lemma_line_count_add("status: no local iPhone backups found"@, "\n"@);
        lemma_line_count_add(head, "status: no local iPhone backups found\n"@);
    } else {
        lemma_blocks_lines(r.backups@);
        lemma_line_count_add(head, backup_blocks(r.backups@));
    }
}

} // verus!
