//! Attachment classification and browser media types.
use vstd::prelude::*;

use crate::model::AttachmentKind;
use crate::text::{
    chars_of, copy_range, lemma_rfind_char, lower_seq, lower_vec, rfind_char, rfind_char_exec,
    starts_with, starts_with_exec, trim, trim_ws,
};

verus! {

// ---------------------------------------------------------------------------
// Path names
// ---------------------------------------------------------------------------

/// The last component of a `/`-separated path that is neither empty nor `.`
/// (empty when there is none).
pub open spec fn last_component(p: Seq<char>) -> Seq<char>
    decreases p.len(),
{
    if p.len() == 0 {
        seq![]
    } else if p.last() == '/' {
        last_component(p.drop_last())
    } else {
        let c = p.skip(rfind_char(p, '/') + 1);
        if c == seq!['.'] {
            last_component(p.drop_last())
        } else {
            c
        }
    }
}

/// `Path::file_name`: the final component, unless the path ends in `..` or has none.
pub open spec fn file_name(p: Seq<char>) -> Option<Seq<char>> {
    let c = last_component(p);
    if c.len() == 0 || c == seq!['.', '.'] {
        None
    } else {
        Some(c)
    }
}

/// `Path::extension` of a file name: the text after the last `.`, unless that
/// dot starts the name or there is none.
pub open spec fn name_extension(n: Seq<char>) -> Option<Seq<char>> {
    let k = rfind_char(n, '.');
    if k <= 0 {
        None
    } else {
        Some(n.skip(k + 1))
    }
}

/// The lower-cased extension of a file name, or the empty text when it has none.
pub open spec fn lower_extension(filename: Seq<char>) -> Seq<char> {
    match file_name(filename) {
        None => seq![],
        Some(n) => match name_extension(n) {
            None => seq![],
            Some(e) => lower_seq(e),
        },
    }
}

/// The file name of a path, or the whole path when it has none
/// (`Path::file_name(..).unwrap_or(path)`).
pub open spec fn file_name_or_self(p: Seq<char>) -> Seq<char> {
    match file_name(p) {
        Some(n) => n,
        None => p,
    }
}

pub fn last_component_exec(s: &[char]) -> (r: Vec<char>)
    ensures
        r@ == last_component(s@),
{
    let mut j = s.len();
    assert(s@.take(j as int) =~= s@);
    loop
        invariant
            j <= s@.len(),
            last_component(s@) == last_component(s@.take(j as int)),
        decreases j,
    {
        let ghost p = s@.take(j as int);
        if j == 0 {
            return Vec::new();
        }
        assert(p.drop_last() =~= s@.take(j - 1));
        if s[j - 1] == '/' {
            j -= 1;
        } else {
            let head = copy_range(s, 0, j);
            assert(head@ =~= p);
            proof {
                lemma_rfind_char(p, '/');
            }
            let start = match rfind_char_exec(head.as_slice(), '/') {
                Some(k) => {
                    assert(k < j);
                    k + 1
                },
                None => 0,
            };
            proof {
                lemma_rfind_char(p, '/');
            }
            let comp = copy_range(s, start, j);
            assert(comp@ =~= p.skip(rfind_char(p, '/') + 1));
            if comp.len() == 1 && comp[0] == '.' {
                assert(comp@ =~= seq!['.']);
                j -= 1;
            } else {
                assert(comp@ != seq!['.']);
                return comp;
            }
        }
    }
}

/// `Path::file_name`.
pub fn file_name_exec(s: &[char]) -> (r: Option<Vec<char>>)
    ensures
        match r {
            Some(v) => file_name(s@) == Some(v@),
            None => file_name(s@) is None,
        },
{
    let c = last_component_exec(s);
    if c.len() == 0 || (c.len() == 2 && c[0] == '.' && c[1] == '.') {
        proof {
            if c@.len() == 2 && c@[0] == '.' && c@[1] == '.' {
                assert(c@ =~= seq!['.', '.']);
            }
        }
        None
    } else {
        assert(c@ != seq!['.', '.']);
        Some(c)
    }
}

pub fn file_name_or_self_exec(s: &[char]) -> (r: Vec<char>)
    ensures
        r@ == file_name_or_self(s@),
{
    match file_name_exec(s) {
        Some(n) => n,
        None => copy_range(s, 0, s.len()),
    }
}

pub fn lower_extension_exec(filename: &[char]) -> (r: Vec<char>)
    ensures
        r@ == lower_extension(filename@),
{
    match file_name_exec(filename) {
        None => Vec::new(),
        Some(n) => {
            proof {
                lemma_rfind_char(n@, '.');
            }
            match rfind_char_exec(n.as_slice(), '.') {
                None => Vec::new(),
                Some(k) => {
                    if k == 0 {
                        Vec::new()
                    } else {
                        proof {
                            lemma_rfind_char(n@, '.');
                        }
                        let len = n.len();
                        assert(k < len);
                        let e = copy_range(n.as_slice(), k + 1, len);
                        assert(e@ =~= n@.skip(k + 1));
                        lower_vec(e.as_slice())
                    }
                },
            }
        },
    }
}

/// Whether a character vector spells a string literal.
pub fn eq_str(v: &[char], lit: &str) -> (b: bool)
    ensures
        b == (v@ == lit@),
{
    let l = chars_of(lit);
    if v.len() != l.len() {
        return false;
    }
    let mut i: usize = 0;
    while i < v.len()
        invariant
            i <= v@.len(),
            v@.len() == l@.len(),
            l@ == lit@,
            forall|k: int| 0 <= k < i ==> v@[k] == l@[k],
        decreases v@.len() - i,
    {
        if v[i] != l[i] {
            return false;
        }
        i += 1;
    }
    assert(v@ =~= l@);
    true
}

// ---------------------------------------------------------------------------
// Classification
// ---------------------------------------------------------------------------

/// The kind that a lower-cased extension suggests.
pub open spec fn kind_of_extension(e: Seq<char>) -> AttachmentKind {
    if e == "gif"@ {
        AttachmentKind::Gif
    } else if e == "jpg"@ || e == "jpeg"@ || e == "png"@ || e == "heic"@ || e == "webp"@ {
        AttachmentKind::Photo
    } else if e == "mp3"@ || e == "m4a"@ || e == "ogg"@ || e == "opus"@ || e == "wav"@ {
        AttachmentKind::Audio
    } else if e == "mov"@ || e == "mp4"@ || e == "webm"@ {
        AttachmentKind::Video
    } else {
        AttachmentKind::Unknown
    }
}

pub open spec fn spec_kind_from_filename(filename: Seq<char>) -> AttachmentKind {
    kind_of_extension(lower_extension(filename))
}

/// The image extensions that mark a photo.
pub open spec fn is_photo_extension(e: Seq<char>) -> bool {
    e == "jpg"@ || e == "jpeg"@ || e == "png"@ || e == "heic"@ || e == "webp"@
}

proof fn lemma_photo_extension_kind(e: Seq<char>)
    requires
        is_photo_extension(e),
    ensures
        kind_of_extension(e) == AttachmentKind::Photo,
{
    reveal_strlit("gif");
    reveal_strlit("jpg");
    reveal_strlit("jpeg");
    reveal_strlit("png");
    reveal_strlit("heic");
    reveal_strlit("webp");
    assert(e != "gif"@) by {
        if e == "gif"@ {
            assert(e[0] == 'g');
        }
    }
}

/// A file named `stem.ext`, where `ext` reads jpg, jpeg, png, heic or webp in
/// any letter case, is a photo; so is any path whose lower-cased extension is
/// one of these.
pub proof fn lemma_photo_file_names(stem: Seq<char>, ext: Seq<char>, path: Seq<char>)
    ensures
        stem.len() > 0 && (forall|i: int| 0 <= i < stem.len() ==> stem[i] != '/') && (forall|i: int|
            0 <= i < ext.len() ==> ext[i] != '/' && ext[i] != '.') && ({
            let e = lower_seq(ext);
            e == "jpg"@ || e == "jpeg"@ || e == "png"@ || e == "heic"@ || e == "webp"@
        }) ==> spec_kind_from_filename(stem + seq!['.'] + ext) == AttachmentKind::Photo,
        ({
            let e = lower_extension(path);
            e == "jpg"@ || e == "jpeg"@ || e == "png"@ || e == "heic"@ || e == "webp"@
        }) ==> spec_kind_from_filename(path)
            == AttachmentKind::Photo,
{
    if is_photo_extension(lower_extension(path)) {
        lemma_photo_extension_kind(lower_extension(path));
    }
    if stem.len() > 0 && (forall|i: int| 0 <= i < stem.len() ==> stem[i] != '/') && (forall|i: int|
        0 <= i < ext.len() ==> ext[i] != '/' && ext[i] != '.') && is_photo_extension(
        lower_seq(ext),
    ) {
        let f = stem + seq!['.'] + ext;
        let e = lower_seq(ext);
        reveal_strlit("jpg");
        reveal_strlit("jpeg");
        reveal_strlit("png");
        reveal_strlit("heic");
        reveal_strlit("webp");
        assert(e.len() >= 3);
        assert(ext.len() >= 3);
        assert(f.len() == stem.len() + 1 + ext.len());
        assert forall|i: int| 0 <= i < f.len() implies f[i] != '/' by {
            if i < stem.len() {
                assert(f[i] == stem[i]);
            } else if i > stem.len() {
                assert(f[i] == ext[i - stem.len() - 1]);
            }
        }
        lemma_rfind_char(f, '/');
        if rfind_char(f, '/') >= 0 {
            assert(f[rfind_char(f, '/')] == '/');
        }
        assert(rfind_char(f, '/') == -1);
        assert(f.last() != '/');
        assert(f.skip(0) =~= f);
        assert(f != seq!['.']);
        assert(last_component(f) == f);
        assert(f != seq!['.', '.']);
        assert(file_name(f) == Some(f));
        lemma_rfind_char(f, '.');
        assert(f[stem.len() as int] == '.');
        assert forall|i: int| stem.len() < i < f.len() implies f[i] != '.' by {
            assert(f[i] == ext[i - stem.len() - 1]);
        }
        if rfind_char(f, '.') < stem.len() {
            assert(f[stem.len() as int] != '.');
        }
        assert(rfind_char(f, '.') == stem.len());
        assert(f.skip(stem.len() + 1int) =~= ext);
        assert(lower_extension(f) == e);
        lemma_photo_extension_kind(e);
    }
}

pub fn kind_from_filename_chars(filename: &[char]) -> (k: AttachmentKind)
    ensures
        k == spec_kind_from_filename(filename@),
{
    let e = lower_extension_exec(filename);
    let e = e.as_slice();
    if eq_str(e, "gif") {
        AttachmentKind::Gif
    } else if eq_str(e, "jpg") || eq_str(e, "jpeg") || eq_str(e, "png") || eq_str(e, "heic")
        || eq_str(e, "webp") {
        AttachmentKind::Photo
    } else if eq_str(e, "mp3") || eq_str(e, "m4a") || eq_str(e, "ogg") || eq_str(e, "opus")
        || eq_str(e, "wav") {
        AttachmentKind::Audio
    } else if eq_str(e, "mov") || eq_str(e, "mp4") || eq_str(e, "webm") {
        AttachmentKind::Video
    } else {
        AttachmentKind::Unknown
    }
}

/// The kind of an attachment from its file name's extension.
pub fn attachment_kind_from_filename(filename: &str) -> (k: AttachmentKind)
    ensures
        k == spec_kind_from_filename(filename@),
{
    let f = chars_of(filename);
    kind_from_filename_chars(f.as_slice())
}

/// The kind for a MIME type, preferring it over the file name when it names
/// an image, audio or video type.
pub open spec fn spec_kind_from_mime_or_filename(
    media_type: Option<Seq<char>>,
    filename: Seq<char>,
) -> AttachmentKind {
    let normalized = match media_type {
        Some(m) => {
            let t = trim_ws(m);
            if t.len() == 0 {
                None
            } else {
                Some(lower_seq(t))
            }
        },
        None => None,
    };
    match normalized {
        Some(v) => if v == "image/gif"@ {
            AttachmentKind::Gif
        } else if starts_with(v, "image/"@) {
            AttachmentKind::Photo
        } else if starts_with(v, "audio/"@) {
            AttachmentKind::Audio
        } else if starts_with(v, "video/"@) {
            AttachmentKind::Video
        } else {
            spec_kind_from_filename(filename)
        },
        None => spec_kind_from_filename(filename),
    }
}

pub open spec fn opt_str_view(s: Option<&str>) -> Option<Seq<char>> {
    match s {
        Some(x) => Some(x@),
        None => None,
    }
}

pub fn attachment_kind_from_mime_or_filename(media_type: Option<&str>, filename: &str) -> (k:
    AttachmentKind)
    ensures
        k == spec_kind_from_mime_or_filename(opt_str_view(media_type), filename@),
{
    let normalized: Option<Vec<char>> = match media_type {
        Some(m) => {
            let mc = chars_of(m);
            let t = trim(mc.as_slice());
            if t.len() == 0 {
                None
            } else {
                Some(lower_vec(t.as_slice()))
            }
        },
        None => None,
    };
    match normalized {
        Some(v) => {
            let v = v.as_slice();
            let image = chars_of("image/");
            let audio = chars_of("audio/");
            let video = chars_of("video/");
            if eq_str(v, "image/gif") {
                AttachmentKind::Gif
            } else if starts_with_exec(v, image.as_slice()) {
                AttachmentKind::Photo
            } else if starts_with_exec(v, audio.as_slice()) {
                AttachmentKind::Audio
            } else if starts_with_exec(v, video.as_slice()) {
                AttachmentKind::Video
            } else {
                attachment_kind_from_filename(filename)
            }
        },
        None => attachment_kind_from_filename(filename),
    }
}

// ---------------------------------------------------------------------------
// Browser media types
// ---------------------------------------------------------------------------

pub open spec fn image_media_type(e: Seq<char>) -> Option<Seq<char>> {
    if e == "gif"@ {
        Some("image/gif"@)
    } else if e == "heic"@ {
        Some("image/heic"@)
    } else if e == "jpg"@ || e == "jpeg"@ {
        Some("image/jpeg"@)
    } else if e == "png"@ {
        Some("image/png"@)
    } else if e == "webp"@ {
        Some("image/webp"@)
    } else {
        None
    }
}

pub open spec fn audio_media_type(e: Seq<char>) -> Option<Seq<char>> {
    if e == "m4a"@ {
        Some("audio/mp4"@)
    } else if e == "mp3"@ {
        Some("audio/mpeg"@)
    } else if e == "ogg"@ || e == "opus"@ {
        Some("audio/ogg"@)
    } else if e == "wav"@ {
        Some("audio/wav"@)
    } else {
        None
    }
}

pub open spec fn video_media_type(e: Seq<char>) -> Option<Seq<char>> {
    if e == "mov"@ {
        Some("video/quicktime"@)
    } else if e == "mp4"@ {
        Some("video/mp4"@)
    } else if e == "webm"@ {
        Some("video/webm"@)
    } else {
        None
    }
}

pub open spec fn fallback_media_type(e: Seq<char>) -> Option<Seq<char>> {
    if e == "pdf"@ {
        Some("application/pdf"@)
    } else {
        None
    }
}

/// The browser media type for an attachment of a kind with a file name.
pub open spec fn spec_media_type(kind: AttachmentKind, filename: Seq<char>) -> Option<Seq<char>> {
    let e = lower_extension(filename);
    match kind {
        AttachmentKind::Audio => audio_media_type(e),
        AttachmentKind::Gif => Some("image/gif"@),
        AttachmentKind::Photo | AttachmentKind::Sticker => image_media_type(e),
        AttachmentKind::Video => video_media_type(e),
        AttachmentKind::Unknown => fallback_media_type(e),
    }
}

fn image_media_type_exec(e: &[char]) -> (r: Option<&'static str>)
    ensures
        opt_str_view(r) == image_media_type(e@),
{
    if eq_str(e, "gif") {
        Some("image/gif")
    } else if eq_str(e, "heic") {
        Some("image/heic")
    } else if eq_str(e, "jpg") || eq_str(e, "jpeg") {
        Some("image/jpeg")
    } else if eq_str(e, "png") {
        Some("image/png")
    } else if eq_str(e, "webp") {
        Some("image/webp")
    } else {
        None
    }
}

fn audio_media_type_exec(e: &[char]) -> (r: Option<&'static str>)
    ensures
        opt_str_view(r) == audio_media_type(e@),
{
    if eq_str(e, "m4a") {
        Some("audio/mp4")
    } else if eq_str(e, "mp3") {
        Some("audio/mpeg")
    } else if eq_str(e, "ogg") || eq_str(e, "opus") {
        Some("audio/ogg")
    } else if eq_str(e, "wav") {
        Some("audio/wav")
    } else {
        None
    }
}

fn video_media_type_exec(e: &[char]) -> (r: Option<&'static str>)
    ensures
        opt_str_view(r) == video_media_type(e@),
{
    if eq_str(e, "mov") {
        Some("video/quicktime")
    } else if eq_str(e, "mp4") {
        Some("video/mp4")
    } else if eq_str(e, "webm") {
        Some("video/webm")
    } else {
        None
    }
}

fn fallback_media_type_exec(e: &[char]) -> (r: Option<&'static str>)
    ensures
        opt_str_view(r) == fallback_media_type(e@),
{
    if eq_str(e, "pdf") {
        Some("application/pdf")
    } else {
        None
    }
}

pub fn media_type_chars(kind: AttachmentKind, filename: &[char]) -> (r: Option<&'static str>)
    ensures
        opt_str_view(r) == spec_media_type(kind, filename@),
{
    let e = lower_extension_exec(filename);
    let e = e.as_slice();
    match kind {
        AttachmentKind::Audio => audio_media_type_exec(e),
        AttachmentKind::Gif => Some("image/gif"),
        AttachmentKind::Photo | AttachmentKind::Sticker => image_media_type_exec(e),
        AttachmentKind::Video => video_media_type_exec(e),
        AttachmentKind::Unknown => fallback_media_type_exec(e),
    }
}

/// The browser media type for an attachment, when the browser can show it.
pub fn attachment_media_type(kind: AttachmentKind, filename: &str) -> (r: Option<&'static str>)
    ensures
        opt_str_view(r) == spec_media_type(kind, filename@),
{
    let f = chars_of(filename);
    media_type_chars(kind, f.as_slice())
}

pub open spec fn spec_display_label(kind: AttachmentKind) -> Seq<char> {
    match kind {
        AttachmentKind::Audio => "Voice message"@,
        AttachmentKind::Gif => "GIF"@,
        AttachmentKind::Photo => "Photo"@,
        AttachmentKind::Sticker => "Sticker"@,
        AttachmentKind::Video => "Video"@,
        AttachmentKind::Unknown => "Attachment"@,
    }
}

/// A short human label for an attachment in chat previews.
pub fn attachment_display_label(kind: AttachmentKind) -> (r: &'static str)
    ensures
        r@ == spec_display_label(kind),
{
    match kind {
        AttachmentKind::Audio => "Voice message",
        AttachmentKind::Gif => "GIF",
        AttachmentKind::Photo => "Photo",
        AttachmentKind::Sticker => "Sticker",
        AttachmentKind::Video => "Video",
        AttachmentKind::Unknown => "Attachment",
    }
}

} // verus!
