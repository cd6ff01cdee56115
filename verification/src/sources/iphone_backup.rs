//! Locating iPhone backups and the WhatsApp files inside them.
use vstd::prelude::*;

use crate::model::{opt_view, BackupCandidate, ManifestFile, ManifestFileV, WhatsappManifestFiles};
use crate::text::{
    append_all, chars_of, copy_range, replace_char,
    replace_char_exec, starts_with, starts_with_exec, string_is, string_of, trim, trim_start_by,
    trim_start_class, trim_ws, CharClass,
};

verus! {

pub const WHATSAPP_SHARED_DOMAIN: &'static str = "AppDomainGroup-group.net.whatsapp.WhatsApp.shared";

pub const CHAT_STORAGE_RELATIVE_PATH: &'static str = "ChatStorage.sqlite";

pub const CONTACTS_RELATIVE_PATH: &'static str = "ContactsV2.sqlite";

pub const MACOS_BACKUP_SUFFIX: [&'static str; 4] = [
    "Library",
    "Application Support",
    "MobileSync",
    "Backup",
];

pub const WINDOWS_STORE_BACKUP_SUFFIX: [&'static str; 3] = ["Apple", "MobileSync", "Backup"];

pub const WINDOWS_LEGACY_BACKUP_SUFFIX: [&'static str; 3] = [
    "Apple Computer",
    "MobileSync",
    "Backup",
];

#[derive(Debug, Clone, Copy, PartialEq, Eq, Structural)]
pub enum BackupPlatform {
    Macos,
    Windows,
    Unsupported,
}

// ---------------------------------------------------------------------------
// Paths
// ---------------------------------------------------------------------------

/// `PathBuf::push` on a Unix path: an absolute part replaces the path;
/// otherwise it is appended after a `/` unless the path is empty or already
/// ends with one.
pub open spec fn push_path(base: Seq<char>, part: Seq<char>) -> Seq<char> {
    if part.len() > 0 && part[0] == '/' {
        part
    } else if base.len() == 0 || base.last() == '/' {
        base + part
    } else {
        base + seq!['/'] + part
    }
}

pub fn push_path_exec(base: &mut Vec<char>, part: &[char])
    ensures
        final(base)@ == push_path(old(base)@, part@),
{
    if part.len() > 0 && part[0] == '/' {
        *base = copy_range(part, 0, part.len());
        assert(base@ =~= part@);
    } else if base.len() == 0 || base[base.len() - 1] == '/' {
        append_all(base, part);
    } else {
        base.push('/');
        append_all(base, part);
    }
}

pub open spec fn join_parts(root: Seq<char>, parts: Seq<Seq<char>>) -> Seq<char>
    decreases parts.len(),
{
    if parts.len() == 0 {
        root
    } else {
        push_path(join_parts(root, parts.drop_last()), parts.last())
    }
}

pub open spec fn str_parts(parts: Seq<&str>) -> Seq<Seq<char>> {
    parts.map_values(|p: &str| p@)
}

/// Each part of `suffix` pushed onto `root` in turn.
pub fn join_suffix(root: String, suffix: &[&str]) -> (r: String)
    ensures
        r@ == join_parts(root@, str_parts(suffix@)),
{
    let ghost parts = str_parts(suffix@);
    let mut path = chars_of(root.as_str());
    let mut i: usize = 0;
    assert(parts.take(0) =~= Seq::<Seq<char>>::empty());
    while i < suffix.len()
        invariant
            i <= suffix@.len(),
            parts == str_parts(suffix@),
            path@ == join_parts(root@, parts.take(i as int)),
        decreases suffix@.len() - i,
    {
        assert(parts.take(i + 1).drop_last() =~= parts.take(i as int));
        let part = chars_of(suffix[i]);
        push_path_exec(&mut path, part.as_slice());
        i += 1;
    }
    assert(parts.take(suffix@.len() as int) =~= parts);
    string_of(path)
}

/// The folders where iTunes or Finder keep backups on a platform, from the
/// home, user-profile and roaming application-data folders that are known.
pub open spec fn backup_roots_of(
    platform: BackupPlatform,
    home: Option<Seq<char>>,
    user_profile: Option<Seq<char>>,
    app_data: Option<Seq<char>>,
) -> Seq<Seq<char>> {
    match platform {
        BackupPlatform::Macos => match home {
            Some(h) => seq![join_parts(h, str_parts(MACOS_BACKUP_SUFFIX@))],
            None => seq![],
        },
        BackupPlatform::Windows => (match user_profile {
            Some(u) => seq![join_parts(u, str_parts(WINDOWS_STORE_BACKUP_SUFFIX@))],
            None => Seq::<Seq<char>>::empty(),
        }) + (match app_data {
            Some(a) => seq![join_parts(a, str_parts(WINDOWS_LEGACY_BACKUP_SUFFIX@))],
            None => Seq::<Seq<char>>::empty(),
        }),
        BackupPlatform::Unsupported => seq![],
    }
}

pub fn backup_roots_from_env_for_platform(
    platform: BackupPlatform,
    home: Option<String>,
    user_profile: Option<String>,
    app_data: Option<String>,
) -> (r: Vec<String>)
    ensures
        crate::model::strings_view(r@) == backup_roots_of(
            platform,
            opt_view(home),
            opt_view(user_profile),
            opt_view(app_data),
        ),
{
    let mut roots: Vec<String> = Vec::new();
    match platform {
        BackupPlatform::Macos => {
            match home {
                Some(h) => {
                    let suffix = MACOS_BACKUP_SUFFIX;
                    roots.push(join_suffix(h, &suffix));
                },
                None => {},
            }
        },
        BackupPlatform::Windows => {
            match user_profile {
                Some(u) => {
                    let suffix = WINDOWS_STORE_BACKUP_SUFFIX;
                    roots.push(join_suffix(u, &suffix));
                },
                None => {},
            }
            match app_data {
                Some(a) => {
                    let suffix = WINDOWS_LEGACY_BACKUP_SUFFIX;
                    roots.push(join_suffix(a, &suffix));
                },
                None => {},
            }
        },
        BackupPlatform::Unsupported => {},
    }
    assert(crate::model::strings_view(roots@) =~= backup_roots_of(
        platform,
        opt_view(home),
        opt_view(user_profile),
        opt_view(app_data),
    ));
    roots
}

/// Where a backup keeps the file with this id: under the folder named by the
/// id's first two characters (modern layout); an id shorter than that sits
/// directly under the root.
pub open spec fn physical_backup_file_path_of(root: Seq<char>, file_id: Seq<char>) -> Seq<char> {
    if file_id.len() >= 2 {
        push_path(push_path(root, file_id.take(2)), file_id)
    } else {
        push_path(root, file_id)
    }
}

pub fn physical_backup_file_path(backup_root: &str, file_id: &str) -> (r: String)
    ensures
        r@ == physical_backup_file_path_of(backup_root@, file_id@),
{
    let mut path = chars_of(backup_root);
    let id = chars_of(file_id);
    if id.len() >= 2 {
        let folder = copy_range(id.as_slice(), 0, 2);
        proof {
            assert(folder@ =~= id@.take(2));
        }
        push_path_exec(&mut path, folder.as_slice());
    }
    push_path_exec(&mut path, id.as_slice());
    string_of(path)
}

/// A manifest path with backslashes read as slashes, trimmed, without
/// leading slashes.
pub open spec fn normalize_manifest_relative_path_of(path: Seq<char>) -> Seq<char> {
    trim_start_by(trim_ws(replace_char(path, '\\', '/')), CharClass::Single('/'))
}

pub fn normalize_manifest_relative_path(path: &str) -> (r: String)
    ensures
        r@ == normalize_manifest_relative_path_of(path@),
{
    let p = chars_of(path);
    let n = replace_char_exec(p.as_slice(), '\\', '/');
    let t = trim(n.as_slice());
    string_of(trim_start_class(t.as_slice(), CharClass::Single('/')))
}

proof fn lemma_trim_start_first(s: Seq<char>, cls: CharClass)
    ensures
        trim_start_by(s, cls).len() > 0 ==> !crate::text::in_class(cls, trim_start_by(s, cls)[0]),
    decreases s.len(),
{
    if s.len() > 0 && crate::text::in_class(cls, s[0]) {
        lemma_trim_start_first(s.drop_first(), cls);
    }
}

/// A normalized manifest path holds no backslash and does not start with `/`.
pub proof fn lemma_normalized_manifest_path(path: Seq<char>)
    ensures
        !normalize_manifest_relative_path_of(path).contains('\\'),
        !starts_with(normalize_manifest_relative_path_of(path), seq!['/']),
{
    let r = replace_char(path, '\\', '/');
    let t = trim_ws(r);
    let a = trim_start_by(r, CharClass::Whitespace);
    crate::sources::whatsapp_export_zip::lemma_trim_start_len(r, CharClass::Whitespace);
    crate::sources::whatsapp_export_zip::lemma_trim_end_len(a, CharClass::Whitespace);
    crate::sources::whatsapp_export_zip::lemma_trim_start_len(t, CharClass::Single('/'));
    let n = normalize_manifest_relative_path_of(path);
    if n.contains('\\') {
        let k = choose|k: int| 0 <= k < n.len() && n[k] == '\\';
        let off_t = t.len() - n.len();
        assert(n[k] == t[off_t + k]);
        assert(t[off_t + k] == a[off_t + k]);
        let off_a = r.len() - a.len();
        assert(a[off_t + k] == r[off_a + off_t + k]);
        assert(false);
    }
    lemma_trim_start_first(t, CharClass::Single('/'));
    if starts_with(n, seq!['/']) {
        assert(n.take(1)[0] == n[0]);
    }
}

// ---------------------------------------------------------------------------
// WhatsApp files in the manifest
// ---------------------------------------------------------------------------

pub open spec fn is_whatsapp_media_path_of(relative_path: Seq<char>) -> bool {
    let n = normalize_manifest_relative_path_of(relative_path);
    starts_with(n, "Message/"@) || starts_with(n, "Media/"@) || starts_with(n, "stickers/"@)
}

pub fn is_whatsapp_media_path(relative_path: &str) -> (b: bool)
    ensures
        b == is_whatsapp_media_path_of(relative_path@),
{
    let n = normalize_manifest_relative_path(relative_path);
    let c = chars_of(n.as_str());
    let a = chars_of("Message/");
    let b = chars_of("Media/");
    let s = chars_of("stickers/");
    starts_with_exec(c.as_slice(), a.as_slice()) || starts_with_exec(c.as_slice(), b.as_slice())
        || starts_with_exec(c.as_slice(), s.as_slice())
}

pub open spec fn manifest_files_view(v: Seq<ManifestFile>) -> Seq<ManifestFileV> {
    v.map_values(|f: ManifestFile| f@)
}

/// The WhatsApp files of a manifest, read in its row order: the last chat
/// database and contacts database of the WhatsApp domain, and its media files.
pub open spec fn whatsapp_files_of(files: Seq<ManifestFileV>) -> (Option<ManifestFileV>, Option<
    ManifestFileV,
>, Seq<ManifestFileV>)
    decreases files.len(),
{
    if files.len() == 0 {
        (None, None, seq![])
    } else {
        let (chat, contacts, media) = whatsapp_files_of(files.drop_last());
        let f = files.last();
        if f.domain != WHATSAPP_SHARED_DOMAIN@ {
            (chat, contacts, media)
        } else if f.relative_path == CHAT_STORAGE_RELATIVE_PATH@ {
            (Some(f), contacts, media)
        } else if f.relative_path == CONTACTS_RELATIVE_PATH@ {
            (chat, Some(f), media)
        } else if is_whatsapp_media_path_of(f.relative_path) {
            (chat, contacts, media.push(f))
        } else {
            (chat, contacts, media)
        }
    }
}

/// Every row of the WhatsApp domain whose path (normalized) lies under
/// `Message/`, `Media/` or `stickers/`, other than the chat and contacts
/// databases, is among the media files; and every media file is such a row of
/// the manifest.
pub proof fn lemma_whatsapp_media_rows(files: Seq<ManifestFileV>)
    ensures
        forall|k: int|
            0 <= k < files.len() && (#[trigger] files[k]).domain == WHATSAPP_SHARED_DOMAIN@
                && files[k].relative_path != CHAT_STORAGE_RELATIVE_PATH@ && files[k].relative_path
                != CONTACTS_RELATIVE_PATH@ && ({
                let n = normalize_manifest_relative_path_of(files[k].relative_path);
                starts_with(n, "Message/"@) || starts_with(n, "Media/"@) || starts_with(
                    n,
                    "stickers/"@,
                )
            }) ==> whatsapp_files_of(files).2.contains(files[k]),
        forall|j: int|
            0 <= j < whatsapp_files_of(files).2.len() ==> files.contains(
                #[trigger] whatsapp_files_of(files).2[j],
            ) && whatsapp_files_of(files).2[j].domain == WHATSAPP_SHARED_DOMAIN@ && ({
                let n = normalize_manifest_relative_path_of(whatsapp_files_of(files).2[j].relative_path);
                starts_with(n, "Message/"@) || starts_with(n, "Media/"@) || starts_with(
                    n,
                    "stickers/"@,
                )
            }),
    decreases files.len(),
{
    if files.len() > 0 {
        let d = files.drop_last();
        lemma_whatsapp_media_rows(d);
        let m0 = whatsapp_files_of(d).2;
        let m = whatsapp_files_of(files).2;
        assert forall|k: int|
            0 <= k < files.len() && (#[trigger] files[k]).domain == WHATSAPP_SHARED_DOMAIN@
                && files[k].relative_path != CHAT_STORAGE_RELATIVE_PATH@ && files[k].relative_path
                != CONTACTS_RELATIVE_PATH@ && ({
                let n = normalize_manifest_relative_path_of(files[k].relative_path);
                starts_with(n, "Message/"@) || starts_with(n, "Media/"@) || starts_with(
                    n,
                    "stickers/"@,
                )
            }) implies m.contains(files[k]) by {
            if k == files.len() - 1 {
                assert(m == m0.push(files[k]));
                assert(m[m0.len() as int] == files[k]);
            } else {
                assert(d[k] == files[k]);
                let i = choose|i: int| 0 <= i < m0.len() && m0[i] == files[k];
                assert(m[i] == m0[i]);
            }
        }
        assert forall|j: int| 0 <= j < m.len() implies files.contains(#[trigger] m[j])
            && m[j].domain == WHATSAPP_SHARED_DOMAIN@ && ({
            let n = normalize_manifest_relative_path_of(m[j].relative_path);
            starts_with(n, "Message/"@) || starts_with(n, "Media/"@) || starts_with(n, "stickers/"@)
        }) by {
            if j < m0.len() {
                assert(m[j] == m0[j]);
                assert(files.contains(m0[j])) by {
                    let i = choose|i: int| 0 <= i < d.len() && d[i] == m0[j];
                    assert(files[i] == d[i]);
                }
            } else {
                assert(m[j] == files.last());
                assert(files[files.len() - 1] == files.last());
            }
        }
    }
}

pub open spec fn opt_file_view(f: Option<ManifestFile>) -> Option<ManifestFileV> {
    match f {
        Some(x) => Some(x@),
        None => None,
    }
}

/// Sorts the manifest's rows into the WhatsApp files.
pub fn find_whatsapp_manifest_files(files: Vec<ManifestFile>) -> (r: WhatsappManifestFiles)
    ensures
        (opt_file_view(r.chat_storage), opt_file_view(r.contacts), manifest_files_view(r.media@))
            == whatsapp_files_of(manifest_files_view(files@)),
{
    let ghost fv = manifest_files_view(files@);
    let mut chat_storage: Option<ManifestFile> = None;
    let mut contacts: Option<ManifestFile> = None;
    let mut media: Vec<ManifestFile> = Vec::new();
    let mut i: usize = 0;
    assert(fv.take(0) =~= Seq::<ManifestFileV>::empty());
    while i < files.len()
        invariant
            i <= files@.len(),
            fv == manifest_files_view(files@),
            (opt_file_view(chat_storage), opt_file_view(contacts), manifest_files_view(media@))
                == whatsapp_files_of(fv.take(i as int)),
        decreases files@.len() - i,
    {
        assert(fv.take(i + 1).drop_last() =~= fv.take(i as int));
        assert(fv.take(i + 1).last() == files@[i as int]@);
        let f = &files[i];
        if string_is(&f.domain, WHATSAPP_SHARED_DOMAIN) {
            if string_is(&f.relative_path, CHAT_STORAGE_RELATIVE_PATH) {
                chat_storage = Some(f.copy());
            } else if string_is(&f.relative_path, CONTACTS_RELATIVE_PATH) {
                contacts = Some(f.copy());
            } else if is_whatsapp_media_path(f.relative_path.as_str()) {
                let ghost before = manifest_files_view(media@);
                media.push(f.copy());
                assert(manifest_files_view(media@) =~= before.push(f@));
            }
        }
        i += 1;
    }
    assert(fv.take(files@.len() as int) =~= fv);
    WhatsappManifestFiles { chat_storage, contacts, media }
}

/// The first row of the WhatsApp domain at the given path (normalized).
pub open spec fn find_by_relative_path_of(files: Seq<ManifestFileV>, path: Seq<char>) -> Option<
    ManifestFileV,
>
    decreases files.len(),
{
    if files.len() == 0 {
        None
    } else if files[0].domain == WHATSAPP_SHARED_DOMAIN@ && files[0].relative_path
        == normalize_manifest_relative_path_of(path) {
        Some(files[0])
    } else {
        find_by_relative_path_of(files.drop_first(), path)
    }
}

pub fn find_whatsapp_manifest_file_by_relative_path(files: &[ManifestFile], relative_path: &str) -> (r:
    Option<ManifestFile>)
    ensures
        opt_file_view(r) == find_by_relative_path_of(manifest_files_view(files@), relative_path@),
{
    let ghost fv = manifest_files_view(files@);
    let wanted = normalize_manifest_relative_path(relative_path);
    let mut i: usize = 0;
    assert(fv.skip(0) =~= fv);
    while i < files.len()
        invariant
            i <= files@.len(),
            fv == manifest_files_view(files@),
            wanted@ == normalize_manifest_relative_path_of(relative_path@),
            find_by_relative_path_of(fv, relative_path@) == find_by_relative_path_of(
                fv.skip(i as int),
                relative_path@,
            ),
        decreases files@.len() - i,
    {
        assert(fv.skip(i as int).drop_first() =~= fv.skip(i + 1));
        assert(fv.skip(i as int)[0] == files@[i as int]@);
        let f = &files[i];
        if string_is(&f.domain, WHATSAPP_SHARED_DOMAIN) && f.relative_path == wanted {
            return Some(f.copy());
        }
        i += 1;
    }
    None
}


/// Where the backup keeps a WhatsApp media file, found by its relative path
/// in the manifest's rows; `None` when the manifest has no such file.
pub open spec fn resolve_media_path_of(
    root: Seq<char>,
    files: Seq<ManifestFileV>,
    media_relative_path: Seq<char>,
) -> Option<Seq<char>> {
    match find_by_relative_path_of(files, normalize_manifest_relative_path_of(media_relative_path)) {
        Some(f) => Some(physical_backup_file_path_of(root, f.file_id)),
        None => None,
    }
}

pub fn resolve_whatsapp_media_file_path(
    backup_root: &str,
    files: &[ManifestFile],
    media_relative_path: &str,
) -> (r: Option<String>)
    ensures
        opt_view(r) == resolve_media_path_of(
            backup_root@,
            manifest_files_view(files@),
            media_relative_path@,
        ),
{
    let normalized = normalize_manifest_relative_path(media_relative_path);
    match find_whatsapp_manifest_file_by_relative_path(files, normalized.as_str()) {
        Some(f) => Some(physical_backup_file_path(backup_root, f.file_id.as_str())),
        None => None,
    }
}

// ---------------------------------------------------------------------------
// Backup candidates
// ---------------------------------------------------------------------------

/// Text order as `String`'s `Ord` gives it (UTF-8 byte order is code-point
/// order).
pub open spec fn text_le(a: Seq<char>, b: Seq<char>) -> bool
    decreases a.len(),
{
    if a.len() == 0 {
        true
    } else if b.len() == 0 {
        false
    } else if a[0] != b[0] {
        (a[0] as int) < (b[0] as int)
    } else {
        text_le(a.drop_first(), b.drop_first())
    }
}

fn text_le_exec(a: &[char], b: &[char]) -> (r: bool)
    ensures
        r == text_le(a@, b@),
{
    let mut i: usize = 0;
    assert(a@.skip(0) =~= a@);
    assert(b@.skip(0) =~= b@);
    while i < a.len() && i < b.len() && a[i] == b[i]
        invariant
            i <= a@.len(),
            i <= b@.len(),
            text_le(a@, b@) == text_le(a@.skip(i as int), b@.skip(i as int)),
        decreases a@.len() - i,
    {
        assert(a@.skip(i as int).drop_first() =~= a@.skip(i + 1));
        assert(b@.skip(i as int).drop_first() =~= b@.skip(i + 1));
        i += 1;
    }
    if i == a.len() {
        true
    } else if i == b.len() {
        false
    } else {
        assert(a@.skip(i as int)[0] == a@[i as int]);
        assert(b@.skip(i as int)[0] == b@[i as int]);
        a[i] < b[i]
    }
}

/// `x` placed after every element whose id is not greater than its own.
pub open spec fn insert_by_id(s: Seq<BackupCandidate>, x: BackupCandidate) -> Seq<BackupCandidate>
    decreases s.len(),
{
    if s.len() == 0 {
        seq![x]
    } else if text_le(s.last().id@, x.id@) {
        s.push(x)
    } else {
        insert_by_id(s.drop_last(), x).push(s.last())
    }
}

/// The candidates stably sorted by id.
pub open spec fn sort_by_id(s: Seq<BackupCandidate>) -> Seq<BackupCandidate>
    decreases s.len(),
{
    if s.len() == 0 {
        seq![]
    } else {
        insert_by_id(sort_by_id(s.drop_last()), s.last())
    }
}

/// Runs of neighbours with the same path reduced to their first.
pub open spec fn dedup_by_path(s: Seq<BackupCandidate>) -> Seq<BackupCandidate>
    decreases s.len(),
{
    if s.len() == 0 {
        seq![]
    } else {
        let d = dedup_by_path(s.drop_last());
        if d.len() > 0 && d.last().path@ == s.last().path@ {
            d
        } else {
            d.push(s.last())
        }
    }
}

proof fn lemma_text_le_total(a: Seq<char>, b: Seq<char>)
    ensures
        text_le(a, b) || text_le(b, a),
    decreases a.len(),
{
    if a.len() > 0 && b.len() > 0 {
        if a[0] == b[0] {
            lemma_text_le_total(a.drop_first(), b.drop_first());
        } else {
            assert((a[0] as int) != (b[0] as int));
        }
    }
}

pub open spec fn sorted_by_id(s: Seq<BackupCandidate>) -> bool {
    forall|i: int| 0 <= i < s.len() - 1 ==> text_le((#[trigger] s[i]).id@, s[i + 1].id@)
}

proof fn lemma_insert_by_id(s: Seq<BackupCandidate>, x: BackupCandidate)
    requires
        sorted_by_id(s),
    ensures
        sorted_by_id(insert_by_id(s, x)),
        insert_by_id(s, x).len() == s.len() + 1,
        insert_by_id(s, x).last() == x || (s.len() > 0 && insert_by_id(s, x).last() == s.last()),
        insert_by_id(s, x).to_multiset() =~= s.to_multiset().insert(x),
    decreases s.len(),
{
    broadcast use vstd::seq_lib::group_to_multiset_ensures;

    if s.len() == 0 {
        assert(seq![x] =~= Seq::<BackupCandidate>::empty().push(x));
    } else if text_le(s.last().id@, x.id@) {
        let r = s.push(x);
        assert forall|i: int| 0 <= i < r.len() - 1 implies text_le((#[trigger] r[i]).id@, r[i + 1].id@) by {
            if i < s.len() - 1 {
                assert(r[i] == s[i] && r[i + 1] == s[i + 1]);
            }
        }
    } else {
        let d = s.drop_last();
        assert(sorted_by_id(d)) by {
            assert forall|i: int| 0 <= i < d.len() - 1 implies text_le((#[trigger] d[i]).id@, d[i + 1].id@) by {
                assert(d[i] == s[i] && d[i + 1] == s[i + 1]);
            }
        }
        lemma_insert_by_id(d, x);
        let p = insert_by_id(d, x);
        let r = p.push(s.last());
        lemma_text_le_total(s.last().id@, x.id@);
        assert forall|i: int| 0 <= i < r.len() - 1 implies text_le((#[trigger] r[i]).id@, r[i + 1].id@) by {
            if i < p.len() - 1 {
                assert(r[i] == p[i] && r[i + 1] == p[i + 1]);
            } else {
                assert(r[i] == p.last());
                if p.last() != x {
                    assert(p.last() == d.last());
                    assert(d.last() == s[s.len() - 2]);
                }
            }
        }
        assert(d.push(s.last()) =~= s);
    }
}

/// Candidates come out sorted by id, as the same candidates.
pub proof fn lemma_sort_by_id(s: Seq<BackupCandidate>)
    ensures
        sorted_by_id(sort_by_id(s)),
        sort_by_id(s).to_multiset() =~= s.to_multiset(),
    decreases s.len(),
{
    broadcast use vstd::seq_lib::group_to_multiset_ensures;

    if s.len() > 0 {
        lemma_sort_by_id(s.drop_last());
        lemma_insert_by_id(sort_by_id(s.drop_last()), s.last());
        assert(s.drop_last().push(s.last()) =~= s);
    } else {
        assert(s.to_multiset() =~= vstd::multiset::Multiset::<BackupCandidate>::empty());
        assert(sort_by_id(s).to_multiset() =~= vstd::multiset::Multiset::<BackupCandidate>::empty());
    }
}

/// The candidates with a given id, in their order.
pub open spec fn with_id(s: Seq<BackupCandidate>, id: Seq<char>) -> Seq<BackupCandidate>
    decreases s.len(),
{
    if s.len() == 0 {
        seq![]
    } else if s.last().id@ == id {
        with_id(s.drop_last(), id).push(s.last())
    } else {
        with_id(s.drop_last(), id)
    }
}

proof fn lemma_text_le_refl(a: Seq<char>)
    ensures
        text_le(a, a),
    decreases a.len(),
{
    if a.len() > 0 {
        lemma_text_le_refl(a.drop_first());
    }
}

proof fn lemma_insert_keeps_order(s: Seq<BackupCandidate>, x: BackupCandidate, id: Seq<char>)
    ensures
        with_id(insert_by_id(s, x), id) == (if x.id@ == id {
            with_id(s, id).push(x)
        } else {
            with_id(s, id)
        }),
    decreases s.len(),
{
    if s.len() == 0 {
        assert(seq![x].drop_last() =~= Seq::<BackupCandidate>::empty());
        assert(seq![x].last() == x);
        assert(with_id(Seq::<BackupCandidate>::empty(), id) =~= Seq::<BackupCandidate>::empty());
        assert(Seq::<BackupCandidate>::empty().push(x) =~= seq![x]);
    } else if text_le(s.last().id@, x.id@) {
        assert(s.push(x).drop_last() =~= s);
        assert(s.push(x).last() == x);
    } else {
        let d = s.drop_last();
        lemma_insert_keeps_order(d, x, id);
        lemma_text_le_refl(x.id@);
        assert(s.last().id@ != x.id@);
        assert(insert_by_id(d, x).push(s.last()).drop_last() =~= insert_by_id(d, x));
    }
}

/// The sort is stable: the candidates sharing an id keep their order.
pub proof fn lemma_sort_by_id_is_stable(s: Seq<BackupCandidate>, id: Seq<char>)
    ensures
        with_id(sort_by_id(s), id) == with_id(s, id),
    decreases s.len(),
{
    if s.len() > 0 {
        lemma_sort_by_id_is_stable(s.drop_last(), id);
        lemma_insert_keeps_order(sort_by_id(s.drop_last()), s.last(), id);
    }
}

/// After collapsing, no candidate repeats the path of the one before it, and
/// every candidate kept is one of the input.
pub proof fn lemma_dedup_by_path(s: Seq<BackupCandidate>)
    ensures
        forall|i: int|
            0 <= i < dedup_by_path(s).len() - 1 ==> (#[trigger] dedup_by_path(s)[i]).path@
                != dedup_by_path(s)[i + 1].path@,
        forall|i: int| 0 <= i < dedup_by_path(s).len() ==> s.contains(#[trigger] dedup_by_path(s)[i]),
        dedup_by_path(s).len() <= s.len(),
    decreases s.len(),
{
    if s.len() > 0 {
        let d = dedup_by_path(s.drop_last());
        lemma_dedup_by_path(s.drop_last());
        let r = dedup_by_path(s);
        assert forall|i: int| 0 <= i < r.len() implies s.contains(#[trigger] r[i]) by {
            if i < d.len() {
                assert(r[i] == d[i]);
                let k = choose|k: int| 0 <= k < s.drop_last().len() && s.drop_last()[k] == d[i];
                assert(s[k] == d[i]);
            } else {
                assert(r[i] == s.last());
                assert(s[s.len() - 1] == s.last());
            }
        }
        assert forall|i: int| 0 <= i < r.len() - 1 implies (#[trigger] r[i]).path@ != r[i + 1].path@ by {
            if i + 1 < d.len() {
                assert(r[i] == d[i] && r[i + 1] == d[i + 1]);
            } else {
                assert(r[i] == d.last());
            }
        }
    }
}

fn insert_candidate(v: &mut Vec<BackupCandidate>, x: BackupCandidate)
    ensures
        final(v)@ == insert_by_id(old(v)@, x),
{
    let ghost s = v@;
    let xid = chars_of(x.id.as_str());
    let mut j: usize = v.len();
    assert(s.take(j as int) =~= s);
    assert(s.skip(j as int) =~= Seq::<BackupCandidate>::empty());
    loop
        invariant
            j <= s.len(),
            v@ == s,
            xid@ == x.id@,
            insert_by_id(s, x) == insert_by_id(s.take(j as int), x) + s.skip(j as int),
        ensures
            j <= s.len(),
            v@ == s,
            insert_by_id(s, x) == insert_by_id(s.take(j as int), x) + s.skip(j as int),
            j == 0 || text_le(s[j - 1].id@, x.id@),
        decreases j,
    {
        if j == 0 {
            break;
        }
        let yid = chars_of(v[j - 1].id.as_str());
        if text_le_exec(yid.as_slice(), xid.as_slice()) {
            break;
        }
        let ghost t = s.take(j as int);
        assert(t.drop_last() =~= s.take(j - 1));
        assert(t.last() == s[j - 1]);
        assert(s.skip(j - 1) =~= seq![s[j - 1]] + s.skip(j as int));
        assert(insert_by_id(s.take(j - 1), x).push(s[j - 1]) + s.skip(j as int) =~= insert_by_id(
            s.take(j - 1),
            x,
        ) + s.skip(j - 1));
        j -= 1;
    }
    proof {
        if j > 0 {
            let t = s.take(j as int);
            assert(t.last() == s[j - 1]);
            assert(insert_by_id(t, x) == t.push(x));
        } else {
            assert(s.take(0) =~= Seq::<BackupCandidate>::empty());
        }
    }
    v.insert(j, x);
    assert(v@ =~= s.take(j as int).push(x) + s.skip(j as int));
}

/// The candidates found in one backup folder, sorted by id.
pub fn sort_backup_candidates(found: Vec<BackupCandidate>) -> (r: Vec<BackupCandidate>)
    ensures
        r@ == sort_by_id(found@),
{
    let mut sorted: Vec<BackupCandidate> = Vec::new();
    let mut i: usize = 0;
    assert(found@.take(0) =~= Seq::<BackupCandidate>::empty());
    while i < found.len()
        invariant
            i <= found@.len(),
            sorted@ == sort_by_id(found@.take(i as int)),
        decreases found@.len() - i,
    {
        assert(found@.take(i + 1).drop_last() =~= found@.take(i as int));
        insert_candidate(&mut sorted, found[i].copy());
        i += 1;
    }
    assert(found@.take(found@.len() as int) =~= found@);
    sorted
}

/// The candidates found in every default folder, sorted by id, without a
/// neighbour that repeats the path of the one before it.
pub fn discover_default_backup_candidates(found: Vec<BackupCandidate>) -> (r: Vec<BackupCandidate>)
    ensures
        r@ == dedup_by_path(sort_by_id(found@)),
{
    let sorted = sort_backup_candidates(found);
    let mut out: Vec<BackupCandidate> = Vec::new();
    let mut i: usize = 0;
    assert(sorted@.take(0) =~= Seq::<BackupCandidate>::empty());
    while i < sorted.len()
        invariant
            i <= sorted@.len(),
            out@ == dedup_by_path(sorted@.take(i as int)),
        decreases sorted@.len() - i,
    {
        assert(sorted@.take(i + 1).drop_last() =~= sorted@.take(i as int));
        let c = &sorted[i];
        if !(out.len() > 0 && out[out.len() - 1].path == c.path) {
            out.push(c.copy());
        }
        i += 1;
    }
    assert(sorted@.take(sorted@.len() as int) =~= sorted@);
    out
}


// ---------------------------------------------------------------------------
// Backup metadata
// ---------------------------------------------------------------------------

/// A property-list entry that may be written as text or as a date: the text
/// when it is a string, the date in XML form when it is a date.
#[derive(Debug, Clone, PartialEq, Eq)]
pub struct PlistTextOrDate {
    pub text: Option<String>,
    pub date: Option<String>,
}

/// The string entries of a backup's `Info.plist` that describe the device.
#[derive(Debug, Clone, PartialEq, Eq)]
pub struct InfoPlistValues {
    pub device_name: Option<String>,
    pub display_name: Option<String>,
    pub product_name: Option<String>,
    pub product_type: Option<String>,
    pub product_version: Option<String>,
    pub last_backup_date: PlistTextOrDate,
}

/// A string entry that is not blank.
pub open spec fn nonblank_of(s: Option<Seq<char>>) -> Option<Seq<char>> {
    match s {
        Some(v) => if trim_ws(v).len() > 0 {
            Some(v)
        } else {
            None
        },
        None => None,
    }
}

fn nonblank(s: &Option<String>) -> (r: Option<String>)
    ensures
        opt_view(r) == nonblank_of(opt_view(*s)),
{
    match s {
        Some(v) => {
            if trim(chars_of(v.as_str()).as_slice()).len() > 0 {
                Some(v.clone())
            } else {
                None
            }
        },
        None => None,
    }
}

/// A date entry: its text when not blank, else its date.
pub open spec fn text_or_date_of(v: PlistTextOrDate) -> Option<Seq<char>> {
    match nonblank_of(opt_view(v.text)) {
        Some(t) => Some(t),
        None => opt_view(v.date),
    }
}

fn text_or_date(v: &PlistTextOrDate) -> (r: Option<String>)
    ensures
        opt_view(r) == text_or_date_of(*v),
{
    match nonblank(&v.text) {
        Some(t) => Some(t),
        None => crate::model::copy_opt_string(&v.date),
    }
}

/// The metadata of a backup from its property lists: the device's names and
/// version from `Info.plist` (blank ones left out), the date of the last
/// backup from `Info.plist` or else `Status.plist`, and encryption from
/// `Manifest.plist`.
pub fn backup_metadata_from_plists(
    info: Option<InfoPlistValues>,
    status_date: Option<PlistTextOrDate>,
    is_encrypted: Option<bool>,
) -> (r: crate::model::BackupMetadata)
    ensures
        match info {
            Some(i) => {
                &&& opt_view(r.device_name) == nonblank_of(opt_view(i.device_name))
                &&& opt_view(r.display_name) == nonblank_of(opt_view(i.display_name))
                &&& opt_view(r.product_name) == nonblank_of(opt_view(i.product_name))
                &&& opt_view(r.product_type) == nonblank_of(opt_view(i.product_type))
                &&& opt_view(r.product_version) == nonblank_of(opt_view(i.product_version))
            },
            None => r.device_name is None && r.display_name is None && r.product_name is None
                && r.product_type is None && r.product_version is None,
        },
        opt_view(r.last_backup_date) == match (
            match info {
                Some(i) => text_or_date_of(i.last_backup_date),
                None => None,
            }
        ) {
            Some(d) => Some(d),
            None => match status_date {
                Some(s) => text_or_date_of(s),
                None => None,
            },
        },
        r.is_encrypted == is_encrypted,
{
    let mut metadata = crate::model::BackupMetadata::default();
    match &info {
        Some(i) => {
            metadata.device_name = nonblank(&i.device_name);
            metadata.display_name = nonblank(&i.display_name);
            metadata.product_name = nonblank(&i.product_name);
            metadata.product_type = nonblank(&i.product_type);
            metadata.product_version = nonblank(&i.product_version);
            metadata.last_backup_date = text_or_date(&i.last_backup_date);
        },
        None => {},
    }
    if metadata.last_backup_date.is_none() {
        match &status_date {
            Some(s) => {
                metadata.last_backup_date = text_or_date(s);
            },
            None => {},
        }
    }
    metadata.is_encrypted = is_encrypted;
    metadata
}

} // verus!
