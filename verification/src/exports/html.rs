//! A standalone HTML page for an imported chat, with media embedded as data URLs.
use crate::media::{attachment_media_type, eq_str, spec_media_type};
use crate::model::{
    attachments_view, messages_view, Attachment, AttachmentKind, AttachmentV, ChatImport,
    ChatImportV, Message, MessageV,
};
use crate::text::{
    chars_of, decimal, decimal_exec, lower_seq, lower_vec, push_str, string_of, trim,
    trim_ws,
};
use vstd::prelude::*;

verus! {

#[derive(Debug, Clone, PartialEq, Eq)]
pub struct HtmlExportOptions {
    pub title: String,
}

#[derive(Debug, Clone, PartialEq, Eq)]
pub struct EmbeddedAttachment {
    pub attachment_id: String,
    pub media_type: String,
    pub base64_data: String,
}

pub struct EmbeddedV {
    pub attachment_id: Seq<char>,
    pub media_type: Seq<char>,
    pub base64_data: Seq<char>,
}

impl View for EmbeddedAttachment {
    type V = EmbeddedV;

    open spec fn view(&self) -> EmbeddedV {
        EmbeddedV {
            attachment_id: self.attachment_id@,
            media_type: self.media_type@,
            base64_data: self.base64_data@,
        }
    }
}

pub open spec fn embedded_view(v: Seq<EmbeddedAttachment>) -> Seq<EmbeddedV> {
    v.map_values(|e: EmbeddedAttachment| e@)
}

// ---------------------------------------------------------------------------
// Escaping
// ---------------------------------------------------------------------------

pub open spec fn amp_entity() -> Seq<char> {
    seq!['&', 'a', 'm', 'p', ';']
}

pub open spec fn lt_entity() -> Seq<char> {
    seq!['&', 'l', 't', ';']
}

pub open spec fn gt_entity() -> Seq<char> {
    seq!['&', 'g', 't', ';']
}

pub open spec fn quot_entity() -> Seq<char> {
    seq!['&', 'q', 'u', 'o', 't', ';']
}

pub open spec fn apos_entity() -> Seq<char> {
    seq!['&', '#', '3', '9', ';']
}

/// The characters that would start or end markup, or close an attribute.
pub open spec fn is_markup_char(c: char) -> bool {
    c == '<' || c == '>' || c == '"' || c == '\''
}

/// What one character becomes in escaped HTML text.
pub open spec fn escape_char(c: char) -> Seq<char> {
    if c == '&' {
        amp_entity()
    } else if c == '<' {
        lt_entity()
    } else if c == '>' {
        gt_entity()
    } else if c == '"' {
        quot_entity()
    } else if c == '\'' {
        apos_entity()
    } else {
        seq![c]
    }
}

/// Text escaped for HTML content and attribute values.
pub open spec fn escape_html(s: Seq<char>) -> Seq<char>
    decreases s.len(),
{
    if s.len() == 0 {
        seq![]
    } else {
        escape_html(s.drop_last()) + escape_char(s.last())
    }
}

/// Reads escaped text back, decoding the five entities that escaping writes.
pub open spec fn unescape_html(t: Seq<char>) -> Seq<char>
    decreases t.len(),
{
    if t.len() == 0 {
        seq![]
    } else if t.len() >= 5 && t.take(5) == amp_entity() {
        seq!['&'] + unescape_html(t.skip(5))
    } else if t.len() >= 4 && t.take(4) == lt_entity() {
        seq!['<'] + unescape_html(t.skip(4))
    } else if t.len() >= 4 && t.take(4) == gt_entity() {
        seq!['>'] + unescape_html(t.skip(4))
    } else if t.len() >= 6 && t.take(6) == quot_entity() {
        seq!['"'] + unescape_html(t.skip(6))
    } else if t.len() >= 5 && t.take(5) == apos_entity() {
        seq!['\''] + unescape_html(t.skip(5))
    } else {
        seq![t[0]] + unescape_html(t.skip(1))
    }
}

proof fn lemma_escape_html_front(s: Seq<char>)
    requires
        s.len() > 0,
    ensures
        escape_html(s) == escape_char(s[0]) + escape_html(s.drop_first()),
    decreases s.len(),
{
    if s.len() > 1 {
        lemma_escape_html_front(s.drop_last());
        assert(s.drop_last().drop_first() =~= s.drop_first().drop_last());
        assert(s.drop_first().last() == s.last());
        assert(s.drop_last()[0] == s[0]);
    } else {
        assert(s.drop_last() =~= Seq::<char>::empty());
        assert(s.drop_first() =~= Seq::<char>::empty());
    }
}

proof fn lemma_unescape_step(c: char, rest: Seq<char>)
    ensures
        unescape_html(escape_char(c) + rest) == seq![c] + unescape_html(rest),
{
    let t = escape_char(c) + rest;
    let n = escape_char(c).len();
    assert(t.skip(n as int) =~= rest);
    assert(t.take(n as int) =~= escape_char(c));
    assert(amp_entity()[1] == 'a' && lt_entity()[1] == 'l' && gt_entity()[1] == 'g'
        && quot_entity()[1] == 'q');
    if c == '&' {
    } else if c == '<' {
        assert(t[1] == 'l');
        assert(t.len() >= 5 ==> t.take(5)[1] == 'l');
    } else if c == '>' {
        assert(t[1] == 'g');
        assert(t.len() >= 5 ==> t.take(5)[1] == 'g');
        assert(t.take(4)[1] == 'g');
    } else if c == '"' {
        assert(t[1] == 'q');
        assert(t.take(5)[1] == 'q');
        assert(t.take(4)[1] == 'q');
    } else if c == '\'' {
        assert(t[1] == '#');
        assert(t.take(5)[1] == '#');
        assert(t.take(4)[1] == '#');
        assert(t.len() >= 6 ==> t.take(6)[1] == '#');
    } else {
        assert(t[0] == c);
        assert(amp_entity()[0] == '&' && lt_entity()[0] == '&' && gt_entity()[0] == '&'
            && quot_entity()[0] == '&' && apos_entity()[0] == '&');
        assert(t.len() >= 4 ==> t.take(4)[0] == c);
        assert(t.len() >= 5 ==> t.take(5)[0] == c);
        assert(t.len() >= 6 ==> t.take(6)[0] == c);
        assert(t.skip(1) =~= rest);
    }
}

/// Escaping loses nothing: the escaped text reads back as the original.
pub proof fn lemma_escape_html_lossless(s: Seq<char>)
    ensures
        unescape_html(escape_html(s)) == s,
    decreases s.len(),
{
    if s.len() == 0 {
    } else {
        lemma_escape_html_front(s);
        lemma_escape_html_lossless(s.drop_first());
        lemma_unescape_step(s[0], escape_html(s.drop_first()));
        assert(seq![s[0]] + s.drop_first() =~= s);
    }
}

/// Escaped text holds no character that could open or close markup or an
/// attribute value, whatever the input.
pub proof fn lemma_escape_html_no_markup(s: Seq<char>)
    ensures
        forall|i: int| 0 <= i < escape_html(s).len() ==> !is_markup_char(#[trigger] escape_html(s)[i]),
    decreases s.len(),
{
    if s.len() > 0 {
        lemma_escape_html_no_markup(s.drop_last());
        let a = escape_html(s.drop_last());
        let b = escape_char(s.last());
        assert forall|i: int| 0 <= i < escape_html(s).len() implies !is_markup_char(
            #[trigger] escape_html(s)[i],
        ) by {
            if i < a.len() {
                assert(escape_html(s)[i] == a[i]);
            } else {
                assert(escape_html(s)[i] == b[i - a.len()]);
            }
        }
    }
}

/// `escape_html` on a character slice.
pub fn escape_html_exec(s: &[char]) -> (r: Vec<char>)
    ensures
        r@ == escape_html(s@),
{
    let mut r: Vec<char> = Vec::new();
    let mut i: usize = 0;
    while i < s.len()
        invariant
            i <= s@.len(),
            r@ == escape_html(s@.take(i as int)),
        decreases s@.len() - i,
    {
        let c = s[i];
        let ghost before = r@;
        if c == '&' {
            push_str(&mut r, "&amp;");
            proof {
                reveal_strlit("&amp;");
            }
        } else if c == '<' {
            push_str(&mut r, "&lt;");
            proof {
                reveal_strlit("&lt;");
            }
        } else if c == '>' {
            push_str(&mut r, "&gt;");
            proof {
                reveal_strlit("&gt;");
            }
        } else if c == '"' {
            push_str(&mut r, "&quot;");
            proof {
                reveal_strlit("&quot;");
            }
        } else if c == '\'' {
            push_str(&mut r, "&#39;");
            proof {
                reveal_strlit("&#39;");
            }
        } else {
            r.push(c);
        }
        assert(r@ =~= before + escape_char(c));
        assert(s@.take(i + 1).drop_last() =~= s@.take(i as int));
        i += 1;
    }
    assert(s@.take(s@.len() as int) =~= s@);
    r
}

/// Newlines turned into line breaks.
pub open spec fn newline_breaks(t: Seq<char>) -> Seq<char>
    decreases t.len(),
{
    if t.len() == 0 {
        seq![]
    } else {
        newline_breaks(t.drop_last()) + if t.last() == '\n' {
            seq!['<', 'b', 'r', '>']
        } else {
            seq![t.last()]
        }
    }
}

fn newline_breaks_exec(s: &[char]) -> (r: Vec<char>)
    ensures
        r@ == newline_breaks(s@),
{
    let mut r: Vec<char> = Vec::new();
    let mut i: usize = 0;
    while i < s.len()
        invariant
            i <= s@.len(),
            r@ == newline_breaks(s@.take(i as int)),
        decreases s@.len() - i,
    {
        let ghost before = r@;
        if s[i] == '\n' {
            push_str(&mut r, "<br>");
            proof {
                reveal_strlit("<br>");
            }
        } else {
            r.push(s[i]);
        }
        assert(s@.take(i + 1).drop_last() =~= s@.take(i as int));
        i += 1;
    }
    assert(s@.take(s@.len() as int) =~= s@);
    r
}

/// A message body: escaped, with its line breaks kept.
pub open spec fn body_html(body: Seq<char>) -> Seq<char> {
    newline_breaks(escape_html(body))
}

// ---------------------------------------------------------------------------
// Lookups by id (a later entry with the same id wins)
// ---------------------------------------------------------------------------

pub open spec fn attachment_by_id(atts: Seq<AttachmentV>, id: Seq<char>) -> Option<AttachmentV>
    decreases atts.len(),
{
    if atts.len() == 0 {
        None
    } else if atts.last().id == id {
        Some(atts.last())
    } else {
        attachment_by_id(atts.drop_last(), id)
    }
}

pub open spec fn embedded_by_id(emb: Seq<EmbeddedV>, id: Seq<char>) -> Option<EmbeddedV>
    decreases emb.len(),
{
    if emb.len() == 0 {
        None
    } else if emb.last().attachment_id == id {
        Some(emb.last())
    } else {
        embedded_by_id(emb.drop_last(), id)
    }
}

fn attachment_index(atts: &[Attachment], id: &String) -> (r: Option<usize>)
    ensures
        match r {
            Some(i) => i < atts@.len() && attachment_by_id(attachments_view(atts@), id@) == Some(
                atts@[i as int]@,
            ),
            None => attachment_by_id(attachments_view(atts@), id@) is None,
        },
{
    let ghost av = attachments_view(atts@);
    let mut i: usize = atts.len();
    assert(av.take(i as int) =~= av);
    while i > 0
        invariant
            i <= atts@.len(),
            av == attachments_view(atts@),
            attachment_by_id(av, id@) == attachment_by_id(av.take(i as int), id@),
        decreases i,
    {
        let ghost t = av.take(i as int);
        assert(t.last() == atts@[i - 1]@);
        assert(t.drop_last() =~= av.take(i - 1));
        if atts[i - 1].id == *id {
            return Some(i - 1);
        }
        i -= 1;
    }
    None
}

fn embedded_index(emb: &[EmbeddedAttachment], id: &String) -> (r: Option<usize>)
    ensures
        match r {
            Some(i) => i < emb@.len() && embedded_by_id(embedded_view(emb@), id@) == Some(
                emb@[i as int]@,
            ),
            None => embedded_by_id(embedded_view(emb@), id@) is None,
        },
{
    let ghost ev = embedded_view(emb@);
    let mut i: usize = emb.len();
    assert(ev.take(i as int) =~= ev);
    while i > 0
        invariant
            i <= emb@.len(),
            ev == embedded_view(emb@),
            embedded_by_id(ev, id@) == embedded_by_id(ev.take(i as int), id@),
        decreases i,
    {
        let ghost t = ev.take(i as int);
        assert(t.last() == emb@[i - 1]@);
        assert(t.drop_last() =~= ev.take(i - 1));
        if emb[i - 1].attachment_id == *id {
            return Some(i - 1);
        }
        i -= 1;
    }
    None
}

// ---------------------------------------------------------------------------
// The page
// ---------------------------------------------------------------------------

pub const EXPORT_CSS: &'static str = "
:root {
  color-scheme: light;
  --page: #efeae2;
  --ink: #17201b;
  --muted: #65716b;
  --incoming: #ffffff;
  --outgoing: #d7fdd2;
  --accent: #008b4f;
}
* { box-sizing: border-box; }
body {
  margin: 0;
  color: var(--ink);
  background:
    radial-gradient(circle at 20px 20px, rgba(120, 96, 66, 0.14) 0 1.5px, transparent 2px),
    linear-gradient(45deg, transparent 0 48px, rgba(120, 96, 66, 0.06) 49px 50px, transparent 51px),
    var(--page);
  background-size: 88px 88px, 122px 122px, auto;
  font-family: -apple-system, BlinkMacSystemFont, \"Segoe UI\", sans-serif;
}
.export-shell {
  width: min(980px, 100%);
  margin: 0 auto;
  padding: 24px clamp(14px, 4vw, 40px) 56px;
}
.export-header {
  position: sticky;
  top: 0;
  z-index: 1;
  margin: -24px calc(clamp(14px, 4vw, 40px) * -1) 24px;
  padding: 18px clamp(14px, 4vw, 40px);
  background: rgba(251, 251, 250, 0.96);
  border-bottom: 1px solid rgba(0, 0, 0, 0.12);
  backdrop-filter: blur(12px);
}
.export-header h1 {
  margin: 0 0 4px;
  font-size: clamp(22px, 4vw, 32px);
  line-height: 1.1;
}
.export-header p {
  margin: 0;
  color: var(--muted);
  font-weight: 700;
}
.timeline {
  display: grid;
  gap: 5px;
}
.message-row {
  display: flex;
  width: 100%;
}
.message-row.incoming { justify-content: flex-start; }
.message-row.outgoing { justify-content: flex-end; }
.message-bubble {
  max-width: min(680px, 82%);
  padding: 8px 11px;
  border-radius: 10px;
  box-shadow: 0 1px 2px rgba(18, 20, 19, 0.14);
  font-size: 16px;
  line-height: 1.32;
}
.incoming .message-bubble {
  background: var(--incoming);
  border-top-left-radius: 3px;
}
.outgoing .message-bubble {
  background: var(--outgoing);
  border-top-right-radius: 3px;
}
.message-sender {
  margin-bottom: 3px;
  color: var(--accent);
  font-size: 13px;
  font-weight: 800;
}
.message-body {
  margin: 0;
  overflow-wrap: anywhere;
}
.message-time {
  display: block;
  margin-top: 5px;
  color: var(--muted);
  font-size: 12px;
  font-weight: 700;
  text-align: right;
}
.attachment {
  max-width: min(420px, 72vw);
  margin: 0 0 7px;
}
.attachment img,
.attachment video {
  display: block;
  max-width: 100%;
  max-height: 560px;
  border-radius: 8px;
}
.attachment audio {
  width: min(360px, 70vw);
}
.attachment figcaption,
.attachment-missing,
.attachment-file {
  margin: 5px 0 0;
  color: var(--muted);
  font-size: 12px;
  font-weight: 700;
}
.attachment-file a {
  color: var(--accent);
}
";

/// Everything before the first message.
pub open spec fn page_head(title: Seq<char>, message_count: nat, attachment_count: nat) -> Seq<char> {
    let t = escape_html(title);
    "<!doctype html>\n<html lang=\"en\">\n<head>\n"@ + "<meta charset=\"utf-8\">\n"@
        + "<meta name=\"viewport\" content=\"width=device-width, initial-scale=1\">\n"@
        + "<title>"@ + t + "</title>\n"@ + "<style>\n"@ + EXPORT_CSS@
        + "</style>\n</head>\n<body>\n<main class=\"export-shell\">\n"@
        + "<header class=\"export-header\">\n"@ + "<h1>"@ + t + "</h1>\n"@ + "<p>"@
        + decimal(message_count) + " messages · "@ + decimal(attachment_count)
        + " media files · exported by WhatsVault</p>\n"@
        + "</header>\n<section class=\"timeline\">\n"@
}

/// Everything after the last message.
pub open spec fn page_tail() -> Seq<char> {
    "</section>\n</main>\n</body>\n</html>\n"@
}

/// A sender counts as the exporting user when, trimmed and lower-cased, it
/// reads "you", "me", "voce" or "você".
pub open spec fn is_outgoing_sender(sender: Option<Seq<char>>) -> bool {
    match sender {
        Some(s) => {
            let n = lower_seq(trim_ws(s));
            n == "you"@ || n == "me"@ || n == "voce"@ || n == "você"@
        },
        None => false,
    }
}

pub open spec fn data_url(e: EmbeddedV) -> Seq<char> {
    "data:"@ + e.media_type + ";base64,"@ + e.base64_data
}

/// One attachment of a message: the media inline when its data is embedded,
/// else a note that it was left out.
pub open spec fn attachment_html(a: AttachmentV, embedded: Option<EmbeddedV>) -> Seq<char> {
    let name = escape_html(a.filename);
    match embedded {
        Some(e) => {
            let url = escape_html(data_url(e));
            match a.kind {
                AttachmentKind::Audio => "<figure class=\"attachment\"><audio controls src=\""@ + url
                    + "\"></audio><figcaption>"@ + name + "</figcaption></figure>\n"@,
                AttachmentKind::Video => "<figure class=\"attachment\"><video controls src=\""@ + url
                    + "\"></video><figcaption>"@ + name + "</figcaption></figure>\n"@,
                AttachmentKind::Unknown => "<p class=\"attachment-file\"><a href=\""@ + url
                    + "\" download=\""@ + name + "\">"@ + name + "</a></p>\n"@,
                _ => "<figure class=\"attachment\"><img src=\""@ + url + "\" alt=\""@ + name
                    + "\"><figcaption>"@ + name + "</figcaption></figure>\n"@,
            }
        },
        None => {
            let hint = match spec_media_type(a.kind, a.filename) {
                Some(m) => m,
                None => "attachment"@,
            };
            "<p class=\"attachment-missing\">"@ + name + " · "@ + escape_html(hint)
                + " not embedded</p>\n"@
        },
    }
}

/// The attachments of a message, in the order of its ids; an id that names no
/// attachment of the chat shows nothing.
pub open spec fn attachments_html(
    ids: Seq<Seq<char>>,
    atts: Seq<AttachmentV>,
    emb: Seq<EmbeddedV>,
) -> Seq<char>
    decreases ids.len(),
{
    if ids.len() == 0 {
        seq![]
    } else {
        attachments_html(ids.drop_last(), atts, emb) + match attachment_by_id(atts, ids.last()) {
            Some(a) => attachment_html(a, embedded_by_id(emb, ids.last())),
            None => seq![],
        }
    }
}

pub open spec fn sender_html(sender: Option<Seq<char>>) -> Seq<char> {
    if !is_outgoing_sender(sender) && (sender matches Some(s) && s.len() > 0) {
        "<div class=\"message-sender\">"@ + escape_html(sender->0) + "</div>\n"@
    } else {
        seq![]
    }
}

pub open spec fn body_block(body: Seq<char>) -> Seq<char> {
    if body.len() > 0 {
        "<p class=\"message-body\">"@ + body_html(body) + "</p>\n"@
    } else {
        seq![]
    }
}

#[verifier::opaque]
pub open spec fn message_html(m: MessageV, atts: Seq<AttachmentV>, emb: Seq<EmbeddedV>) -> Seq<
    char,
> {
    let direction = if is_outgoing_sender(m.sender) {
        "outgoing"@
    } else {
        "incoming"@
    };
    "<article class=\"message-row "@ + direction + "\">\n"@ + "<div class=\"message-bubble\">\n"@
        + sender_html(m.sender) + attachments_html(m.attachment_ids, atts, emb) + body_block(m.body)
        + "<time class=\"message-time\">"@ + escape_html(m.timestamp) + "</time>\n"@
        + "</div>\n</article>\n"@
}

pub open spec fn messages_html(ms: Seq<MessageV>, atts: Seq<AttachmentV>, emb: Seq<EmbeddedV>) -> Seq<
    char,
>
    decreases ms.len(),
{
    if ms.len() == 0 {
        seq![]
    } else {
        messages_html(ms.drop_last(), atts, emb) + message_html(ms.last(), atts, emb)
    }
}

/// The whole page for a chat.
pub open spec fn chat_html(imp: ChatImportV, title: Seq<char>, emb: Seq<EmbeddedV>) -> Seq<char> {
    page_head(title, imp.messages.len(), imp.attachments.len()) + messages_html(
        imp.messages,
        imp.attachments,
        emb,
    ) + page_tail()
}

fn is_outgoing_message(message: &Message) -> (b: bool)
    ensures
        b == is_outgoing_sender(message@.sender),
{
    match &message.sender {
        Some(s) => {
            let c = chars_of(s.as_str());
            let t = trim(c.as_slice());
            let n = lower_vec(t.as_slice());
            eq_str(n.as_slice(), "you") || eq_str(n.as_slice(), "me") || eq_str(n.as_slice(), "voce")
                || eq_str(n.as_slice(), "você")
        },
        None => false,
    }
}

fn push_escaped(out: &mut Vec<char>, s: &str)
    ensures
        final(out)@ == old(out)@ + escape_html(s@),
{
    let c = chars_of(s);
    let e = escape_html_exec(c.as_slice());
    let mut i: usize = 0;
    while i < e.len()
        invariant
            i <= e@.len(),
            out@ == old(out)@ + e@.take(i as int),
        decreases e@.len() - i,
    {
        out.push(e[i]);
        i += 1;
        assert(out@ =~= old(out)@ + e@.take(i as int));
    }
    assert(e@.take(e@.len() as int) =~= e@);
}

fn push_chars(out: &mut Vec<char>, s: &[char])
    ensures
        final(out)@ == old(out)@ + s@,
{
    crate::text::append_all(out, s);
}

#[verifier::spinoff_prover]
fn render_attachment(out: &mut Vec<char>, a: &Attachment, embedded: Option<&EmbeddedAttachment>)
    ensures
        final(out)@ == old(out)@ + attachment_html(
            a@,
            match embedded {
                Some(e) => Some(e@),
                None => None,
            },
        ),
{
    match embedded {
        Some(e) => {
            let mut url: Vec<char> = Vec::new();
            push_str(&mut url, "data:");
            push_str(&mut url, e.media_type.as_str());
            push_str(&mut url, ";base64,");
            push_str(&mut url, e.base64_data.as_str());
            let url = escape_html_exec(url.as_slice());
            match a.kind {
                AttachmentKind::Audio => {
                    push_str(out, "<figure class=\"attachment\"><audio controls src=\"");
                    push_chars(out, url.as_slice());
                    push_str(out, "\"></audio><figcaption>");
                    push_escaped(out, a.filename.as_str());
                    push_str(out, "</figcaption></figure>\n");
                },
                AttachmentKind::Video => {
                    push_str(out, "<figure class=\"attachment\"><video controls src=\"");
                    push_chars(out, url.as_slice());
                    push_str(out, "\"></video><figcaption>");
                    push_escaped(out, a.filename.as_str());
                    push_str(out, "</figcaption></figure>\n");
                },
                AttachmentKind::Unknown => {
                    push_str(out, "<p class=\"attachment-file\"><a href=\"");
                    push_chars(out, url.as_slice());
                    push_str(out, "\" download=\"");
                    push_escaped(out, a.filename.as_str());
                    push_str(out, "\">");
                    push_escaped(out, a.filename.as_str());
                    push_str(out, "</a></p>\n");
                },
                _ => {
                    push_str(out, "<figure class=\"attachment\"><img src=\"");
                    push_chars(out, url.as_slice());
                    push_str(out, "\" alt=\"");
                    push_escaped(out, a.filename.as_str());
                    push_str(out, "\"><figcaption>");
                    push_escaped(out, a.filename.as_str());
                    push_str(out, "</figcaption></figure>\n");
                },
            }
        },
        None => {
            let hint = match attachment_media_type(a.kind, a.filename.as_str()) {
                Some(m) => m,
                None => "attachment",
            };
            push_str(out, "<p class=\"attachment-missing\">");
            push_escaped(out, a.filename.as_str());
            push_str(out, " · ");
            push_escaped(out, hint);
            push_str(out, " not embedded</p>\n");
        },
    }
}

fn render_sender(out: &mut Vec<char>, sender: &Option<String>, outgoing: bool)
    requires
        outgoing == is_outgoing_sender(crate::model::opt_view(*sender)),
    ensures
        final(out)@ == old(out)@ + sender_html(crate::model::opt_view(*sender)),
{
    if !outgoing {
        match sender {
            Some(s) => {
                if !s.as_str().is_empty() {
                    push_str(out, "<div class=\"message-sender\">");
                    push_escaped(out, s.as_str());
                    push_str(out, "</div>\n");
                } else {
                    assert(out@ =~= old(out)@ + Seq::<char>::empty());
                }
            },
            None => {
                assert(out@ =~= old(out)@ + Seq::<char>::empty());
            },
        }
    } else {
        assert(out@ =~= old(out)@ + Seq::<char>::empty());
    }
}

#[verifier::spinoff_prover]
fn render_attachments(
    out: &mut Vec<char>,
    ids: &Vec<String>,
    atts: &[Attachment],
    embedded: &[EmbeddedAttachment],
)
    ensures
        final(out)@ == old(out)@ + attachments_html(
            crate::model::strings_view(ids@),
            attachments_view(atts@),
            embedded_view(embedded@),
        ),
{
    let ghost av = attachments_view(atts@);
    let ghost ev = embedded_view(embedded@);
    let ghost idv = crate::model::strings_view(ids@);
    let mut k: usize = 0;
    assert(idv.take(0) =~= Seq::<Seq<char>>::empty());
    assert(out@ =~= old(out)@ + attachments_html(idv.take(0), av, ev));
    while k < ids.len()
        invariant
            k <= ids@.len(),
            idv == crate::model::strings_view(ids@),
            av == attachments_view(atts@),
            ev == embedded_view(embedded@),
            out@ == old(out)@ + attachments_html(idv.take(k as int), av, ev),
        decreases ids@.len() - k,
    {
        let id = &ids[k];
        assert(idv.take(k + 1).drop_last() =~= idv.take(k as int));
        assert(idv.take(k + 1).last() == id@);
        let ghost before = out@;
        match attachment_index(atts, id) {
            Some(ai) => {
                let emb = match embedded_index(embedded, id) {
                    Some(ei) => Some(&embedded[ei]),
                    None => None,
                };
                render_attachment(out, &atts[ai], emb);
            },
            None => {
                assert(out@ =~= before + Seq::<char>::empty());
            },
        }
        assert(out@ =~= old(out)@ + attachments_html(idv.take(k + 1), av, ev));
        k += 1;
    }
    assert(idv.take(ids@.len() as int) =~= idv);
}

fn render_body(out: &mut Vec<char>, body: &String)
    ensures
        final(out)@ == old(out)@ + body_block(body@),
{
    if !body.as_str().is_empty() {
        push_str(out, "<p class=\"message-body\">");
        let c = chars_of(body.as_str());
        let e = escape_html_exec(c.as_slice());
        let b = newline_breaks_exec(e.as_slice());
        push_chars(out, b.as_slice());
        push_str(out, "</p>\n");
    } else {
        assert(out@ =~= old(out)@ + Seq::<char>::empty());
    }
}

#[verifier::spinoff_prover]
fn render_message(
    out: &mut Vec<char>,
    message: &Message,
    atts: &[Attachment],
    embedded: &[EmbeddedAttachment],
)
    ensures
        final(out)@ == old(out)@ + message_html(
            message@,
            attachments_view(atts@),
            embedded_view(embedded@),
        ),
{
    let ghost start = out@;
    let outgoing = is_outgoing_message(message);
    push_str(out, "<article class=\"message-row ");
    if outgoing {
        push_str(out, "outgoing");
    } else {
        push_str(out, "incoming");
    }
    push_str(out, "\">\n");
    push_str(out, "<div class=\"message-bubble\">\n");
    render_sender(out, &message.sender, outgoing);
    render_attachments(out, &message.attachment_ids, atts, embedded);
    render_body(out, &message.body);
    push_str(out, "<time class=\"message-time\">");
    push_escaped(out, message.timestamp.raw.as_str());
    push_str(out, "</time>\n");
    push_str(out, "</div>\n</article>\n");
    proof {
        reveal(message_html);
    }
    assert(out@ =~= start + message_html(
        message@,
        attachments_view(atts@),
        embedded_view(embedded@),
    ));
}

/// Builds the standalone HTML page of an imported chat. Embedded attachments
/// are matched by id (a later entry wins); every text taken from the chat is
/// escaped.
#[verifier::spinoff_prover]
pub fn build_chat_html_export(
    imported: &ChatImport,
    options: &HtmlExportOptions,
    embedded_attachments: &[EmbeddedAttachment],
) -> (html: String)
    ensures
        html@ == chat_html(imported@, options.title@, embedded_view(embedded_attachments@)),
{
    let ghost av = attachments_view(imported.attachments@);
    let ghost ev = embedded_view(embedded_attachments@);
    let ghost mv = messages_view(imported.messages@);
    let mut out: Vec<char> = Vec::new();
    push_str(&mut out, "<!doctype html>\n<html lang=\"en\">\n<head>\n");
    push_str(&mut out, "<meta charset=\"utf-8\">\n");
    push_str(&mut out, "<meta name=\"viewport\" content=\"width=device-width, initial-scale=1\">\n");
    push_str(&mut out, "<title>");
    push_escaped(&mut out, options.title.as_str());
    push_str(&mut out, "</title>\n");
    push_str(&mut out, "<style>\n");
    push_str(&mut out, EXPORT_CSS);
    push_str(&mut out, "</style>\n</head>\n<body>\n<main class=\"export-shell\">\n");
    push_str(&mut out, "<header class=\"export-header\">\n");
    push_str(&mut out, "<h1>");
    push_escaped(&mut out, options.title.as_str());
    push_str(&mut out, "</h1>\n");
    push_str(&mut out, "<p>");
    let n_messages = decimal_exec(imported.messages.len() as u64);
    push_chars(&mut out, n_messages.as_slice());
    push_str(&mut out, " messages · ");
    let n_attachments = decimal_exec(imported.attachments.len() as u64);
    push_chars(&mut out, n_attachments.as_slice());
    push_str(&mut out, " media files · exported by WhatsVault</p>\n");
    push_str(&mut out, "</header>\n<section class=\"timeline\">\n");
    assert(out@ == page_head(options.title@, mv.len(), av.len()));
    let ghost head = out@;
    let mut k: usize = 0;
    assert(mv.take(0) =~= Seq::<MessageV>::empty());
    while k < imported.messages.len()
        invariant
            k <= imported.messages@.len(),
            mv == messages_view(imported.messages@),
            av == attachments_view(imported.attachments@),
            ev == embedded_view(embedded_attachments@),
            out@ == head + messages_html(mv.take(k as int), av, ev),
        decreases imported.messages@.len() - k,
    {
        assert(mv.take(k + 1).drop_last() =~= mv.take(k as int));
        assert(mv.take(k + 1).last() == imported.messages@[k as int]@);
        render_message(&mut out, &imported.messages[k], imported.attachments.as_slice(), embedded_attachments);
        k += 1;
    }
    assert(mv.take(imported.messages@.len() as int) =~= mv);
    push_str(&mut out, "</section>\n</main>\n</body>\n</html>\n");
    string_of(out)
}


// ---------------------------------------------------------------------------
// The shape of a page
// ---------------------------------------------------------------------------

/// `part` stands somewhere in `whole`.
pub open spec fn occurs_in(part: Seq<char>, whole: Seq<char>) -> bool {
    exists|x: Seq<char>, y: Seq<char>| whole =~= x + part + y
}

proof fn lemma_occurs_at(part: Seq<char>, whole: Seq<char>, x: Seq<char>, y: Seq<char>)
    requires
        whole =~= x + part + y,
    ensures
        occurs_in(part, whole),
{
}

proof fn lemma_occurs_trans(a: Seq<char>, b: Seq<char>, c: Seq<char>)
    requires
        occurs_in(a, b),
        occurs_in(b, c),
    ensures
        occurs_in(a, c),
{
    let (x1, y1) = choose|x: Seq<char>, y: Seq<char>| b =~= x + a + y;
    let (x2, y2) = choose|x: Seq<char>, y: Seq<char>| c =~= x + b + y;
    assert(c =~= (x2 + x1) + a + (y1 + y2));
    lemma_occurs_at(a, c, x2 + x1, y1 + y2);
}

proof fn lemma_messages_html_append(
    a: Seq<MessageV>,
    b: Seq<MessageV>,
    atts: Seq<AttachmentV>,
    emb: Seq<EmbeddedV>,
)
    ensures
        messages_html(a + b, atts, emb) =~= messages_html(a, atts, emb) + messages_html(b, atts, emb),
    decreases b.len(),
{
    if b.len() == 0 {
        assert(a + b =~= a);
    } else {
        lemma_messages_html_append(a, b.drop_last(), atts, emb);
        assert((a + b).drop_last() =~= a + b.drop_last());
        assert((a + b).last() == b.last());
    }
}

/// A message is drawn as one article: its direction class first, then its
/// sender (for an incoming message with a named sender), its attachments in
/// the order of its ids, its body, and its time, closing the article last.
pub proof fn lemma_message_article(m: MessageV, atts: Seq<AttachmentV>, emb: Seq<EmbeddedV>)
    ensures
        message_html(m, atts, emb) =~= (if is_outgoing_sender(m.sender) {
            "<article class=\"message-row outgoing\">\n"@
        } else {
            "<article class=\"message-row incoming\">\n"@
        }) + "<div class=\"message-bubble\">\n"@ + sender_html(m.sender) + attachments_html(
            m.attachment_ids,
            atts,
            emb,
        ) + body_block(m.body) + "<time class=\"message-time\">"@ + escape_html(m.timestamp)
            + "</time>\n"@ + "</div>\n</article>\n"@,
        sender_html(m.sender).len() > 0 <==> (!is_outgoing_sender(m.sender) && (m.sender matches Some(
            s,
        ) && s.len() > 0)),
{
    reveal(message_html);
    reveal_strlit("<article class=\"message-row outgoing\">\n");
    reveal_strlit("<article class=\"message-row incoming\">\n");
    reveal_strlit("<article class=\"message-row ");
    reveal_strlit("outgoing");
    reveal_strlit("incoming");
    reveal_strlit("\">\n");
    reveal_strlit("<div class=\"message-sender\">");
}

/// A page opens with its doctype, ends by closing the timeline, body and
/// document, carries the summary line with the counts of messages and media
/// files, and draws the messages one article each, in their order.
pub proof fn lemma_page_frame(imp: ChatImportV, title: Seq<char>, emb: Seq<EmbeddedV>)
    ensures
        "<!doctype html>\n"@.is_prefix_of(chat_html(imp, title, emb)),
        page_tail().is_suffix_of(chat_html(imp, title, emb)),
        occurs_in(
            "<p>"@ + decimal(imp.messages.len()) + " messages · "@ + decimal(imp.attachments.len())
                + " media files · exported by WhatsVault</p>\n"@,
            chat_html(imp, title, emb),
        ),
        forall|k: int|
            0 <= k < imp.messages.len() ==> chat_html(imp, title, emb) =~= page_head(
                title,
                imp.messages.len(),
                imp.attachments.len(),
            ) + messages_html(imp.messages.take(k), imp.attachments, emb) + message_html(
                #[trigger] imp.messages[k],
                imp.attachments,
                emb,
            ) + messages_html(imp.messages.skip(k + 1), imp.attachments, emb) + page_tail(),
{
    let page = chat_html(imp, title, emb);
    let head = page_head(title, imp.messages.len(), imp.attachments.len());
    let body = messages_html(imp.messages, imp.attachments, emb);
    reveal_strlit("<!doctype html>\n");
    reveal_strlit("<!doctype html>\n<html lang=\"en\">\n<head>\n");
    let d = "<!doctype html>\n"@;
    let h0 = "<!doctype html>\n<html lang=\"en\">\n<head>\n"@;
    assert(h0.take(d.len() as int) =~= d);
    assert(page.take(d.len() as int) =~= d) by {
        assert(page =~= h0 + (page.skip(h0.len() as int)));
        assert(page.take(d.len() as int) =~= h0.take(d.len() as int));
    }
    assert(page.skip(page.len() - page_tail().len()) =~= page_tail());
    let t = escape_html(title);
    let summary = "<p>"@ + decimal(imp.messages.len()) + " messages · "@ + decimal(
        imp.attachments.len(),
    ) + " media files · exported by WhatsVault</p>\n"@;
    let before = "<!doctype html>\n<html lang=\"en\">\n<head>\n"@ + "<meta charset=\"utf-8\">\n"@
        + "<meta name=\"viewport\" content=\"width=device-width, initial-scale=1\">\n"@
        + "<title>"@ + t + "</title>\n"@ + "<style>\n"@ + EXPORT_CSS@
        + "</style>\n</head>\n<body>\n<main class=\"export-shell\">\n"@
        + "<header class=\"export-header\">\n"@ + "<h1>"@ + t + "</h1>\n"@;
    let after = "</header>\n<section class=\"timeline\">\n"@ + body + page_tail();
    assert(page =~= before + summary + after);
    lemma_occurs_at(summary, page, before, after);
    assert forall|k: int| 0 <= k < imp.messages.len() implies page =~= head + messages_html(
        imp.messages.take(k),
        imp.attachments,
        emb,
    ) + message_html(#[trigger] imp.messages[k], imp.attachments, emb) + messages_html(
        imp.messages.skip(k + 1),
        imp.attachments,
        emb,
    ) + page_tail() by {
        let ms = imp.messages;
        assert(ms =~= ms.take(k) + (seq![ms[k]] + ms.skip(k + 1)));
        lemma_messages_html_append(ms.take(k), seq![ms[k]] + ms.skip(k + 1), imp.attachments, emb);
        lemma_messages_html_append(seq![ms[k]], ms.skip(k + 1), imp.attachments, emb);
        assert(seq![ms[k]].drop_last() =~= Seq::<MessageV>::empty());
        assert(seq![ms[k]].last() == ms[k]);
        assert(messages_html(Seq::<MessageV>::empty(), imp.attachments, emb) =~= Seq::<char>::empty());
        assert(messages_html(seq![ms[k]], imp.attachments, emb) =~= message_html(
            ms[k],
            imp.attachments,
            emb,
        ));
    }
}

proof fn lemma_attachment_shown(
    ids: Seq<Seq<char>>,
    j: int,
    atts: Seq<AttachmentV>,
    emb: Seq<EmbeddedV>,
    a: AttachmentV,
)
    requires
        0 <= j < ids.len(),
        attachment_by_id(atts, ids[j]) == Some(a),
    ensures
        occurs_in(attachment_html(a, embedded_by_id(emb, ids[j])), attachments_html(ids, atts, emb)),
    decreases ids.len(),
{
    let whole = attachments_html(ids, atts, emb);
    if j == ids.len() - 1 {
        let part = attachment_html(a, embedded_by_id(emb, ids[j]));
        assert(whole =~= attachments_html(ids.drop_last(), atts, emb) + part + seq![]);
        lemma_occurs_at(part, whole, attachments_html(ids.drop_last(), atts, emb), seq![]);
    } else {
        assert(ids.drop_last()[j] == ids[j]);
        lemma_attachment_shown(ids.drop_last(), j, atts, emb, a);
        let prev = attachments_html(ids.drop_last(), atts, emb);
        let rest = whole.skip(prev.len() as int);
        assert(whole =~= seq![] + prev + rest);
        lemma_occurs_at(prev, whole, seq![], rest);
        lemma_occurs_trans(attachment_html(a, embedded_by_id(emb, ids[j])), prev, whole);
    }
}

proof fn lemma_attachment_in_message(
    m: MessageV,
    atts: Seq<AttachmentV>,
    emb: Seq<EmbeddedV>,
    j: int,
    a: AttachmentV,
)
    requires
        0 <= j < m.attachment_ids.len(),
        attachment_by_id(atts, m.attachment_ids[j]) == Some(a),
    ensures
        occurs_in(
            attachment_html(a, embedded_by_id(emb, m.attachment_ids[j])),
            message_html(m, atts, emb),
        ),
{
    lemma_attachment_shown(m.attachment_ids, j, atts, emb, a);
    let ah = attachments_html(m.attachment_ids, atts, emb);
    lemma_message_article(m, atts, emb);
    let x = (if is_outgoing_sender(m.sender) {
        "<article class=\"message-row outgoing\">\n"@
    } else {
        "<article class=\"message-row incoming\">\n"@
    }) + "<div class=\"message-bubble\">\n"@ + sender_html(m.sender);
    let y = body_block(m.body) + "<time class=\"message-time\">"@ + escape_html(m.timestamp)
        + "</time>\n"@ + "</div>\n</article>\n"@;
    assert(message_html(m, atts, emb) =~= x + ah + y);
    lemma_occurs_at(ah, message_html(m, atts, emb), x, y);
    lemma_occurs_trans(
        attachment_html(a, embedded_by_id(emb, m.attachment_ids[j])),
        ah,
        message_html(m, atts, emb),
    );
}

proof fn lemma_message_in_page(imp: ChatImportV, title: Seq<char>, emb: Seq<EmbeddedV>, k: int)
    requires
        0 <= k < imp.messages.len(),
    ensures
        occurs_in(message_html(imp.messages[k], imp.attachments, emb), chat_html(imp, title, emb)),
{
    lemma_page_frame(imp, title, emb);
    let atts = imp.attachments;
    let px = page_head(title, imp.messages.len(), atts.len()) + messages_html(
        imp.messages.take(k),
        atts,
        emb,
    );
    let py = messages_html(imp.messages.skip(k + 1), atts, emb) + page_tail();
    let mh = message_html(imp.messages[k], atts, emb);
    assert(chat_html(imp, title, emb) =~= px + mh + py);
    lemma_occurs_at(mh, chat_html(imp, title, emb), px, py);
}

/// An attachment of a message whose data was not embedded shows, on the
/// page, as a note with its escaped file name and media type.
pub proof fn lemma_missing_attachment_note(
    imp: ChatImportV,
    title: Seq<char>,
    emb: Seq<EmbeddedV>,
    k: int,
    j: int,
    a: AttachmentV,
)
    requires
        0 <= k < imp.messages.len(),
        0 <= j < imp.messages[k].attachment_ids.len(),
        attachment_by_id(imp.attachments, imp.messages[k].attachment_ids[j]) == Some(a),
        embedded_by_id(emb, imp.messages[k].attachment_ids[j]) is None,
    ensures
        occurs_in(
            "<p class=\"attachment-missing\">"@ + escape_html(a.filename) + " · "@ + escape_html(
                match spec_media_type(a.kind, a.filename) {
                    Some(m) => m,
                    None => "attachment"@,
                },
            ) + " not embedded</p>\n"@,
            chat_html(imp, title, emb),
        ),
{
    let m = imp.messages[k];
    lemma_attachment_in_message(m, imp.attachments, emb, j, a);
    lemma_message_in_page(imp, title, emb, k);
    lemma_occurs_trans(
        attachment_html(a, None),
        message_html(m, imp.attachments, emb),
        chat_html(imp, title, emb),
    );
}


proof fn lemma_message_parts(m: MessageV, atts: Seq<AttachmentV>, emb: Seq<EmbeddedV>)
    ensures
        occurs_in(
            "<time class=\"message-time\">"@ + escape_html(m.timestamp) + "</time>\n"@,
            message_html(m, atts, emb),
        ),
        m.body.len() > 0 ==> occurs_in(
            "<p class=\"message-body\">"@ + body_html(m.body) + "</p>\n"@,
            message_html(m, atts, emb),
        ),
        occurs_in(sender_html(m.sender), message_html(m, atts, emb)),
{
    lemma_message_article(m, atts, emb);
    let open_ = (if is_outgoing_sender(m.sender) {
        "<article class=\"message-row outgoing\">\n"@
    } else {
        "<article class=\"message-row incoming\">\n"@
    }) + "<div class=\"message-bubble\">\n"@;
    let sh = sender_html(m.sender);
    let ah = attachments_html(m.attachment_ids, atts, emb);
    let bb = body_block(m.body);
    let time = "<time class=\"message-time\">"@ + escape_html(m.timestamp) + "</time>\n"@;
    let close = "</div>\n</article>\n"@;
    let mh = message_html(m, atts, emb);
    assert(mh =~= (open_ + sh + ah + bb) + time + close);
    lemma_occurs_at(time, mh, open_ + sh + ah + bb, close);
    assert(mh =~= (open_ + sh + ah) + bb + (time + close));
    lemma_occurs_at(bb, mh, open_ + sh + ah, time + close);
    assert(mh =~= open_ + sh + (ah + bb + time + close));
    lemma_occurs_at(sh, mh, open_, ah + bb + time + close);
}

/// User text reaches the page only escaped: the title in the page's title,
/// and each message's time, body (escaped, its newlines turned into line
/// breaks) and, for an incoming message with a named sender, the sender.
pub proof fn lemma_user_text_escaped(imp: ChatImportV, title: Seq<char>, emb: Seq<EmbeddedV>)
    ensures
        occurs_in("<title>"@ + escape_html(title) + "</title>\n"@, chat_html(imp, title, emb)),
        forall|k: int|
            0 <= k < imp.messages.len() ==> occurs_in(
                "<time class=\"message-time\">"@ + escape_html((#[trigger] imp.messages[k]).timestamp)
                    + "</time>\n"@,
                chat_html(imp, title, emb),
            ),
        forall|k: int|
            0 <= k < imp.messages.len() && (#[trigger] imp.messages[k]).body.len() > 0
                ==> occurs_in(
                "<p class=\"message-body\">"@ + body_html(imp.messages[k].body) + "</p>\n"@,
                chat_html(imp, title, emb),
            ),
        forall|k: int|
            0 <= k < imp.messages.len() && !is_outgoing_sender((#[trigger] imp.messages[k]).sender)
                && (imp.messages[k].sender matches Some(s) && s.len() > 0) ==> occurs_in(
                "<div class=\"message-sender\">"@ + escape_html(imp.messages[k].sender->0)
                    + "</div>\n"@,
                chat_html(imp, title, emb),
            ),
{
    let page = chat_html(imp, title, emb);
    let t = escape_html(title);
    let tl = "<title>"@ + t + "</title>\n"@;
    let before = "<!doctype html>\n<html lang=\"en\">\n<head>\n"@ + "<meta charset=\"utf-8\">\n"@
        + "<meta name=\"viewport\" content=\"width=device-width, initial-scale=1\">\n"@;
    let after = page.skip((before + tl).len() as int);
    assert(page =~= before + tl + after);
    lemma_occurs_at(tl, page, before, after);
    assert forall|k: int| 0 <= k < imp.messages.len() implies occurs_in(
        "<time class=\"message-time\">"@ + escape_html((#[trigger] imp.messages[k]).timestamp)
            + "</time>\n"@,
        page,
    ) && (imp.messages[k].body.len() > 0 ==> occurs_in(
        "<p class=\"message-body\">"@ + body_html(imp.messages[k].body) + "</p>\n"@,
        page,
    )) && (!is_outgoing_sender(imp.messages[k].sender) && (imp.messages[k].sender matches Some(
        s,
    ) && s.len() > 0) ==> occurs_in(
        "<div class=\"message-sender\">"@ + escape_html(imp.messages[k].sender->0) + "</div>\n"@,
        page,
    )) by {
        let m = imp.messages[k];
        lemma_message_parts(m, imp.attachments, emb);
        lemma_message_in_page(imp, title, emb, k);
        let mh = message_html(m, imp.attachments, emb);
        lemma_occurs_trans(
            "<time class=\"message-time\">"@ + escape_html(m.timestamp) + "</time>\n"@,
            mh,
            page,
        );
        if m.body.len() > 0 {
            lemma_occurs_trans(
                "<p class=\"message-body\">"@ + body_html(m.body) + "</p>\n"@,
                mh,
                page,
            );
        }
        lemma_occurs_trans(sender_html(m.sender), mh, page);
    }
}


/// Embedded media is drawn by its kind, with the escaped data URL of its
/// payload as the source: a video in a `<video>` player, a voice note or
/// other audio in an `<audio>` player, an image (photo, sticker, GIF) as an
/// `<img>`, and anything else as a download link.
pub proof fn lemma_embedded_media_element(a: AttachmentV, e: EmbeddedV)
    ensures
        ({
            let url = escape_html("data:"@ + e.media_type + ";base64,"@ + e.base64_data);
            let drawn = attachment_html(a, Some(e));
            &&& a.kind == AttachmentKind::Video ==> ("<figure class=\"attachment\"><video controls src=\""@
                + url + "\"></video>"@).is_prefix_of(drawn)
            &&& a.kind == AttachmentKind::Audio ==> ("<figure class=\"attachment\"><audio controls src=\""@
                + url + "\"></audio>"@).is_prefix_of(drawn)
            &&& (a.kind == AttachmentKind::Photo || a.kind == AttachmentKind::Sticker || a.kind
                == AttachmentKind::Gif) ==> ("<figure class=\"attachment\"><img src=\""@ + url
                + "\" alt=\""@ + escape_html(a.filename) + "\">"@).is_prefix_of(drawn)
            &&& a.kind == AttachmentKind::Unknown ==> ("<p class=\"attachment-file\"><a href=\""@ + url
                + "\" download=\""@).is_prefix_of(drawn)
        }),
{
    let url = escape_html("data:"@ + e.media_type + ";base64,"@ + e.base64_data);
    let name = escape_html(a.filename);
    let drawn = attachment_html(a, Some(e));
    assert(data_url(e) == "data:"@ + e.media_type + ";base64,"@ + e.base64_data);
    reveal_strlit("\"></video><figcaption>");
    reveal_strlit("\"></video>");
    reveal_strlit("\"></audio><figcaption>");
    reveal_strlit("\"></audio>");
    reveal_strlit("<figcaption>");
    assert("\"></video><figcaption>"@ =~= "\"></video>"@ + "<figcaption>"@);
    assert("\"></audio><figcaption>"@ =~= "\"></audio>"@ + "<figcaption>"@);
    reveal_strlit("\"><figcaption>");
    reveal_strlit("\">");
    assert("\"><figcaption>"@ =~= "\">"@ + "<figcaption>"@);
    if a.kind == AttachmentKind::Video {
        let p = "<figure class=\"attachment\"><video controls src=\""@ + url + "\"></video>"@;
        assert(drawn =~= p + ("<figcaption>"@ + name + "</figcaption></figure>\n"@));
        assert(drawn.take(p.len() as int) =~= p);
    } else if a.kind == AttachmentKind::Audio {
        let p = "<figure class=\"attachment\"><audio controls src=\""@ + url + "\"></audio>"@;
        assert(drawn =~= p + ("<figcaption>"@ + name + "</figcaption></figure>\n"@));
        assert(drawn.take(p.len() as int) =~= p);
    } else if a.kind == AttachmentKind::Unknown {
        let p = "<p class=\"attachment-file\"><a href=\""@ + url + "\" download=\""@;
        assert(drawn =~= p + (name + "\">"@ + name + "</a></p>\n"@));
        assert(drawn.take(p.len() as int) =~= p);
    } else {
        let p = "<figure class=\"attachment\"><img src=\""@ + url + "\" alt=\""@ + name + "\">"@;
        assert(drawn =~= p + ("<figcaption>"@ + name + "</figcaption></figure>\n"@));
        assert(drawn.take(p.len() as int) =~= p);
    }
}

} // verus!
