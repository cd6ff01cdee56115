//! Importing a WhatsApp "Export chat" ZIP: finding the transcript, parsing its
//! lines into messages, and resolving the media files they reference.
use vstd::prelude::*;

use crate::model::{
    AttachmentKind, attachments_view, issues_view, messages_view, strings_view, Attachment, AttachmentV, ChatImport, ChatImportV, ImportIssue,
    ImportIssueCode, ImportIssueV, Message, MessageTimestamp, MessageV, SourceKind,
};
use crate::media::{
    file_name, file_name_exec, file_name_or_self, file_name_or_self_exec, kind_from_filename_chars, eq_str,
    media_type_chars, name_extension, spec_kind_from_filename, spec_media_type,
};
use crate::text::{
    all_digits, chars_of, copy_range, ends_with, ends_with_exec, find_from_exec, is_digit, is_ws,
    is_ws_exec, lemma_find_from_bounds, lemma_find_from_skip, lemma_utf8_len_concat,
    lemma_utf8_len_subrange, skip_start, split_on, split_on_exec, split_once, split_once_exec,
    trim, trim_by, trim_class, trim_end_by, trim_end_class, trim_start_by, trim_start_class,
    trim_ws, utf8_len, utf8_len_capped, vecs_view, append_all, decimal, decimal_exec, zero_pad,
    zero_pad_exec, string_of, replace_char, replace_char_exec, starts_with, starts_with_exec,
    rfind_char_exec, lower_vec, lower_seq, upper_seq, upper_vec, contains_seq, contains_exec,
    CharClass,
};

verus! {

pub const DEFAULT_WHATSAPP_EXPORT_IMPORT_MAX_MESSAGES: usize = 2000;

pub const WHATSAPP_EXPORT_MAX_MESSAGE_BYTES: usize = 1048576;

pub const WHATSAPP_EXPORT_RECENT_TEXT_BYTES: usize = 33554432;

// ---------------------------------------------------------------------------
// Timestamps
// ---------------------------------------------------------------------------

pub open spec fn all_digits_spec(p: Seq<char>) -> bool {
    forall|k: int| 0 <= k < p.len() ==> is_digit(#[trigger] p[k])
}

/// The value of a run of ASCII digits.
pub open spec fn digits_value(p: Seq<char>) -> nat
    decreases p.len(),
{
    if p.len() == 0 {
        0
    } else {
        digits_value(p.drop_last()) * 10 + ((p.last() as u32) - 48) as nat
    }
}

pub open spec fn date_part_ok(p: Seq<char>) -> bool {
    1 <= p.len() <= 4 && all_digits_spec(p)
}

/// A numeric date: three groups of one to four digits separated by `/`, `.` or `-`.
pub open spec fn date_ok(d: Seq<char>) -> bool {
    let parts = split_on(d, CharClass::DateSep);
    parts.len() == 3 && forall|k: int| 0 <= k < 3 ==> date_part_ok(#[trigger] parts[k])
}

/// The leading run of digits and `:` of the trimmed time text.
pub open spec fn clock_prefix(time: Seq<char>) -> Seq<char> {
    let t = trim_ws(time);
    t.take(t.len() - trim_start_by(t, CharClass::ClockChar).len())
}

pub open spec fn clock_part_ok(k: int, p: Seq<char>) -> bool {
    &&& if k == 0 {
        1 <= p.len() <= 2
    } else {
        p.len() == 2
    }
    &&& all_digits_spec(p)
    &&& digits_value(p) <= if k == 0 {
        23nat
    } else {
        59nat
    }
}

/// `H:MM` or `H:MM:SS` with an hour of at most 23 and minutes and seconds of at most 59.
pub open spec fn clock_ok(c: Seq<char>) -> bool {
    let parts = split_on(c, CharClass::Single(':'));
    2 <= parts.len() <= 3 && forall|k: int| 0 <= k < parts.len() ==> clock_part_ok(k, #[trigger] parts[k])
}

/// Whether a header prefix has the numeric date-and-clock shape of an export timestamp.
pub open spec fn looks_like_timestamp(value: Seq<char>) -> bool {
    let v = trim_ws(value);
    let sp = match split_once(v, seq![',']) {
        Some(x) => Some(x),
        None => split_once(v, seq![' ']),
    };
    match sp {
        None => false,
        Some((date, time)) => date_ok(date) && clock_ok(clock_prefix(time)),
    }
}

fn date_ok_exec(d: &[char]) -> (b: bool)
    ensures
        b == date_ok(d@),
{
    let parts = split_on_exec(d, CharClass::DateSep);
    let ghost sp = split_on(d@, CharClass::DateSep);
    assert(sp.len() == parts@.len());
    if parts.len() != 3 {
        return false;
    }
    let mut k: usize = 0;
    while k < 3
        invariant
            parts@.len() == 3,
            vecs_view(parts@) == sp,
            sp == split_on(d@, CharClass::DateSep),
            k <= 3,
            forall|j: int| 0 <= j < k ==> date_part_ok(#[trigger] sp[j]),
        decreases 3 - k,
    {
        let p = &parts[k];
        assert(p@ == sp[k as int]);
        if p.len() < 1 || p.len() > 4 || !all_digits(p.as_slice()) {
            assert(!date_part_ok(sp[k as int]));
            assert(!date_ok(d@));
            return false;
        }
        k += 1;
    }
    true
}

/// The value of at most two ASCII digits.
fn small_digits_value(p: &[char]) -> (v: u32)
    requires
        p@.len() <= 2,
        all_digits_spec(p@),
    ensures
        v == digits_value(p@),
{
    let mut v: u32 = 0;
    let mut i: usize = 0;
    while i < p.len()
        invariant
            i <= p@.len() <= 2,
            all_digits_spec(p@),
            v == digits_value(p@.take(i as int)),
            i == 0 ==> v == 0,
            i == 1 ==> v < 10,
        decreases p@.len() - i,
    {
        assert(p@.take(i + 1).drop_last() =~= p@.take(i as int));
        assert(is_digit(p@[i as int]));
        let d = (p[i] as u32) - 48;
        v = v * 10 + d;
        i += 1;
    }
    assert(p@.take(p@.len() as int) =~= p@);
    v
}

fn clock_ok_exec(c: &[char]) -> (b: bool)
    ensures
        b == clock_ok(c@),
{
    let parts = split_on_exec(c, CharClass::Single(':'));
    let ghost sp = split_on(c@, CharClass::Single(':'));
    assert(sp.len() == parts@.len());
    if parts.len() < 2 || parts.len() > 3 {
        return false;
    }
    let mut k: usize = 0;
    while k < parts.len()
        invariant
            2 <= parts@.len() <= 3,
            vecs_view(parts@) == sp,
            sp == split_on(c@, CharClass::Single(':')),
            k <= parts@.len(),
            forall|j: int| 0 <= j < k ==> clock_part_ok(j, #[trigger] sp[j]),
        decreases parts@.len() - k,
    {
        let p = &parts[k];
        assert(p@ == sp[k as int]);
        let width_ok = if k == 0 {
            1 <= p.len() && p.len() <= 2
        } else {
            p.len() == 2
        };
        if !width_ok || !all_digits(p.as_slice()) {
            assert(!clock_part_ok(k as int, sp[k as int]));
            assert(!clock_ok(c@));
            return false;
        }
        let v = small_digits_value(p.as_slice());
        let bound: u32 = if k == 0 {
            23
        } else {
            59
        };
        if v > bound {
            assert(!clock_part_ok(k as int, sp[k as int]));
            assert(!clock_ok(c@));
            return false;
        }
        k += 1;
    }
    true
}

/// A run of one or more ASCII digits.
pub open spec fn is_digit_run(p: Seq<char>) -> bool {
    p.len() >= 1 && all_digits_spec(p)
}

proof fn lemma_split_on_plain(a: Seq<char>, b: Seq<char>, cls: CharClass)
    requires
        forall|i: int| 0 <= i < b.len() ==> !crate::text::in_class(cls, #[trigger] b[i]),
    ensures
        split_on(a + b, cls) =~= split_on(a, cls).update(
            split_on(a, cls).len() - 1,
            split_on(a, cls).last() + b,
        ),
    decreases b.len(),
{
    crate::text::lemma_split_on_nonempty(a, cls);
    if b.len() == 0 {
        assert(a + b =~= a);
        assert(split_on(a, cls).last() + b =~= split_on(a, cls).last());
    } else {
        let b0 = b.drop_last();
        lemma_split_on_plain(a, b0, cls);
        assert((a + b).drop_last() =~= a + b0);
        assert((a + b).last() == b.last());
        assert(!crate::text::in_class(cls, b[b.len() - 1]));
        assert(split_on(a, cls).last() + b0 + seq![b.last()] =~= split_on(a, cls).last() + b);
        crate::text::lemma_split_on_nonempty(a + b0, cls);
        let sa = split_on(a, cls);
        let rest = split_on(a + b0, cls);
        assert(rest.len() == sa.len());
        assert(rest.last() == sa.last() + b0);
        assert((sa.last() + b0).push(b.last()) =~= sa.last() + b);
        assert(split_on(a + b, cls) == rest.update(rest.len() - 1, rest.last().push(b.last())));
    }
}

proof fn lemma_split_on_sep(a: Seq<char>, c: char, cls: CharClass)
    requires
        crate::text::in_class(cls, c),
    ensures
        split_on(a.push(c), cls) == split_on(a, cls).push(seq![]),
{
    assert(a.push(c).drop_last() =~= a);
}

/// `a`, a separator and `b`, split on the separator class, where neither
/// part holds a separator.
proof fn lemma_split_three(x: Seq<char>, c1: char, y: Seq<char>, c2: char, z: Seq<char>, cls: CharClass)
    requires
        crate::text::in_class(cls, c1),
        crate::text::in_class(cls, c2),
        forall|i: int| 0 <= i < x.len() ==> !crate::text::in_class(cls, #[trigger] x[i]),
        forall|i: int| 0 <= i < y.len() ==> !crate::text::in_class(cls, #[trigger] y[i]),
        forall|i: int| 0 <= i < z.len() ==> !crate::text::in_class(cls, #[trigger] z[i]),
    ensures
        split_on(x + seq![c1] + y, cls) =~= seq![x, y],
        split_on(x + seq![c1] + y + seq![c2] + z, cls) =~= seq![x, y, z],
{
    let e = Seq::<char>::empty();
    assert(split_on(e, cls) =~= seq![e]);
    lemma_split_on_plain(e, x, cls);
    assert(e + x =~= x);
    assert(split_on(x, cls) =~= seq![x]);
    lemma_split_on_sep(x, c1, cls);
    assert(x + seq![c1] =~= x.push(c1));
    lemma_split_on_plain(x + seq![c1], y, cls);
    assert(split_on(x + seq![c1] + y, cls) =~= seq![x, y]);
    lemma_split_on_sep(x + seq![c1] + y, c2, cls);
    assert(x + seq![c1] + y + seq![c2] =~= (x + seq![c1] + y).push(c2));
    lemma_split_on_plain(x + seq![c1] + y + seq![c2], z, cls);
}

proof fn lemma_digit_classes(c: char)
    requires
        is_digit(c),
    ensures
        !is_ws(c),
        c != ',',
        c != ':',
        c != ']',
        c != ' ',
        !crate::text::in_class(CharClass::DateSep, c),
        !crate::text::in_class(CharClass::Single(':'), c),
        crate::text::in_class(CharClass::ClockChar, c),
{
}

/// A clock of a one- or two-digit hour up to 23, and two-digit minutes (and
/// seconds) up to 59, has the shape of an export timestamp's clock; an hour
/// over 23 or minutes over 59 has not.
pub proof fn lemma_clock_shape(h: Seq<char>, m: Seq<char>, s: Seq<char>)
    requires
        is_digit_run(h) && h.len() <= 2,
        is_digit_run(m) && m.len() == 2,
        is_digit_run(s) && s.len() == 2,
    ensures
        clock_ok(h + seq![':'] + m) <==> digits_value(h) <= 23 && digits_value(m) <= 59,
        clock_ok(h + seq![':'] + m + seq![':'] + s) <==> digits_value(h) <= 23 && digits_value(m)
            <= 59 && digits_value(s) <= 59,
{
    let cls = CharClass::Single(':');
    assert forall|i: int| 0 <= i < h.len() implies !crate::text::in_class(cls, #[trigger] h[i]) by {
        lemma_digit_classes(h[i]);
    }
    assert forall|i: int| 0 <= i < m.len() implies !crate::text::in_class(cls, #[trigger] m[i]) by {
        lemma_digit_classes(m[i]);
    }
    assert forall|i: int| 0 <= i < s.len() implies !crate::text::in_class(cls, #[trigger] s[i]) by {
        lemma_digit_classes(s[i]);
    }
    lemma_split_three(h, ':', m, ':', s, cls);
    let p2 = split_on(h + seq![':'] + m, cls);
    let p3 = split_on(h + seq![':'] + m + seq![':'] + s, cls);
    assert(p2[0] == h && p2[1] == m);
    assert(p3[0] == h && p3[1] == m && p3[2] == s);
    assert(clock_part_ok(0, h) <==> digits_value(h) <= 23);
    assert(clock_part_ok(1, m) <==> digits_value(m) <= 59);
    assert(clock_part_ok(2, s) <==> digits_value(s) <= 59);
}

proof fn lemma_find_exact(s: Seq<char>, p: Seq<char>, i: int, k: int)
    requires
        0 <= i <= k,
        crate::text::occurs_at(s, p, k),
        forall|j: int| i <= j < k ==> !crate::text::occurs_at(s, p, j),
    ensures
        crate::text::find_from(s, p, i) == k,
    decreases k - i,
{
    if i < k {
        assert(!crate::text::occurs_at(s, p, i));
        lemma_find_exact(s, p, i + 1, k);
    }
}

proof fn lemma_trim_start_all(s: Seq<char>, cls: CharClass)
    requires
        forall|i: int| 0 <= i < s.len() ==> crate::text::in_class(cls, #[trigger] s[i]),
    ensures
        trim_start_by(s, cls) == Seq::<char>::empty(),
    decreases s.len(),
{
    if s.len() > 0 {
        assert(crate::text::in_class(cls, s[0]));
        assert forall|i: int| 0 <= i < s.drop_first().len() implies crate::text::in_class(
            cls,
            #[trigger] s.drop_first()[i],
        ) by {
            assert(s.drop_first()[i] == s[i + 1]);
        }
        lemma_trim_start_all(s.drop_first(), cls);
    }
}

/// The date `d1/d2/d3`, the groups being runs of one to four digits.
pub open spec fn numeric_date(d1: Seq<char>, d2: Seq<char>, d3: Seq<char>) -> Seq<char> {
    d1 + seq!['/'] + d2 + seq!['/'] + d3
}

/// The clock `h:m:s`.
pub open spec fn numeric_clock(h: Seq<char>, m: Seq<char>, s: Seq<char>) -> Seq<char> {
    h + seq![':'] + m + seq![':'] + s
}

/// An export timestamp `d1/d2/d3, h:m:s` is recognised exactly when its hour
/// is at most 23 and its minutes and seconds at most 59: every hour of the
/// day, afternoon and evening included, makes a message header.
pub proof fn lemma_timestamp_hours(
    d1: Seq<char>,
    d2: Seq<char>,
    d3: Seq<char>,
    h: Seq<char>,
    m: Seq<char>,
    s: Seq<char>,
)
    requires
        is_digit_run(d1) && d1.len() <= 4,
        is_digit_run(d2) && d2.len() <= 4,
        is_digit_run(d3) && d3.len() <= 4,
        is_digit_run(h) && h.len() <= 2,
        is_digit_run(m) && m.len() == 2,
        is_digit_run(s) && s.len() == 2,
    ensures
        looks_like_timestamp(numeric_date(d1, d2, d3) + seq![',', ' '] + numeric_clock(h, m, s))
            <==> digits_value(h) <= 23 && digits_value(m) <= 59 && digits_value(s) <= 59,
{
    let d = numeric_date(d1, d2, d3);
    let c = numeric_clock(h, m, s);
    let tail = seq![' '] + c;
    let v = d + seq![','] + tail;
    assert(d + seq![',', ' '] + c =~= v);
    // the date
    let dcls = CharClass::DateSep;
    assert forall|i: int| 0 <= i < d1.len() implies !crate::text::in_class(dcls, #[trigger] d1[i]) by {
        lemma_digit_classes(d1[i]);
    }
    assert forall|i: int| 0 <= i < d2.len() implies !crate::text::in_class(dcls, #[trigger] d2[i]) by {
        lemma_digit_classes(d2[i]);
    }
    assert forall|i: int| 0 <= i < d3.len() implies !crate::text::in_class(dcls, #[trigger] d3[i]) by {
        lemma_digit_classes(d3[i]);
    }
    lemma_split_three(d1, '/', d2, '/', d3, dcls);
    let dp = split_on(d, dcls);
    assert(dp[0] == d1 && dp[1] == d2 && dp[2] == d3);
    assert(date_ok(d));
    // every character of the date is a digit or '/'
    assert forall|j: int| 0 <= j < d.len() implies d[j] != ',' && !is_ws(d[j]) by {
        if j < d1.len() {
            assert(d[j] == d1[j]);
            lemma_digit_classes(d1[j]);
        } else if j == d1.len() {
            assert(d[j] == '/');
        } else if j < d1.len() + 1 + d2.len() {
            assert(d[j] == d2[j - d1.len() - 1]);
            lemma_digit_classes(d2[j - d1.len() - 1]);
        } else if j == d1.len() + 1 + d2.len() {
            assert(d[j] == '/');
        } else {
            assert(d[j] == d3[j - d1.len() - 2 - d2.len()]);
            lemma_digit_classes(d3[j - d1.len() - 2 - d2.len()]);
        }
    }
    // every character of the clock is a digit or ':'
    assert forall|j: int| 0 <= j < c.len() implies crate::text::in_class(
        CharClass::ClockChar,
        #[trigger] c[j],
    ) by {
        if j < h.len() {
            assert(c[j] == h[j]);
            lemma_digit_classes(h[j]);
        } else if j == h.len() {
            assert(c[j] == ':');
        } else if j < h.len() + 1 + m.len() {
            assert(c[j] == m[j - h.len() - 1]);
            lemma_digit_classes(m[j - h.len() - 1]);
        } else if j == h.len() + 1 + m.len() {
            assert(c[j] == ':');
        } else {
            assert(c[j] == s[j - h.len() - 2 - m.len()]);
            lemma_digit_classes(s[j - h.len() - 2 - m.len()]);
        }
    }
    // trimming leaves the value as it is
    assert(v[0] == d1[0]);
    lemma_digit_classes(d1[0]);
    assert(v.last() == s[1]);
    lemma_digit_classes(s[1]);
    assert(trim_start_by(v, CharClass::Whitespace) == v);
    assert(trim_end_by(v, CharClass::Whitespace) == v);
    assert(trim_ws(v) == v);
    // the first comma ends the date
    let comma = seq![','];
    assert(v.subrange(d.len() as int, d.len() + 1int) =~= comma);
    assert forall|j: int| 0 <= j < d.len() implies !crate::text::occurs_at(v, comma, j) by {
        assert(v[j] == d[j]);
        if crate::text::occurs_at(v, comma, j) {
            assert(v.subrange(j, j + 1)[0] == v[j]);
        }
    }
    lemma_find_exact(v, comma, 0, d.len() as int);
    assert(v.take(d.len() as int) =~= d);
    assert(v.skip(d.len() + 1int) =~= tail);
    assert(split_once(v, comma) == Some((d, tail)));
    // the clock text
    assert(tail.drop_first() =~= c);
    assert(c[0] == h[0]);
    lemma_digit_classes(h[0]);
    assert(tail[0] == ' ');
    assert(is_ws(' '));
    assert(trim_start_by(c, CharClass::Whitespace) == c);
    assert(trim_start_by(tail, CharClass::Whitespace) == trim_start_by(tail.drop_first(), CharClass::Whitespace));
    assert(trim_start_by(tail, CharClass::Whitespace) == c);
    assert(c.last() == s[1]);
    assert(trim_end_by(c, CharClass::Whitespace) == c);
    assert(trim_ws(tail) == c);
    lemma_trim_start_all(c, CharClass::ClockChar);
    assert(c.take(c.len() as int) =~= c);
    assert(clock_prefix(tail) == c);
    lemma_clock_shape(h, m, s);
}

pub fn looks_like_timestamp_exec(value: &[char]) -> (b: bool)
    ensures
        b == looks_like_timestamp(value@),
{
    let v = trim(value);
    let comma = vec![','];
    let space = vec![' '];
    assert(comma@ =~= seq![',']);
    assert(space@ =~= seq![' ']);
    let sp = match split_once_exec(v.as_slice(), comma.as_slice()) {
        Some(x) => Some(x),
        None => split_once_exec(v.as_slice(), space.as_slice()),
    };
    match sp {
        None => false,
        Some((date, time)) => {
            if !date_ok_exec(date.as_slice()) {
                return false;
            }
            let t = trim(time.as_slice());
            let k = skip_start(t.as_slice(), 0, t.len(), CharClass::ClockChar);
            assert(t@.subrange(0, t@.len() as int) =~= t@);
            let clock = copy_range(t.as_slice(), 0, k);
            assert(clock@ =~= clock_prefix(time@));
            clock_ok_exec(clock.as_slice())
        },
    }
}

// ---------------------------------------------------------------------------
// Message headers
// ---------------------------------------------------------------------------

/// A message header parsed from a transcript line, before ids are assigned.
pub struct ParsedMessage {
    pub index: usize,
    pub timestamp: Vec<char>,
    pub sender: Option<Vec<char>>,
    pub body: Vec<char>,
}

pub struct ParsedMessageV {
    pub index: usize,
    pub timestamp: Seq<char>,
    pub sender: Option<Seq<char>>,
    pub body: Seq<char>,
}

pub open spec fn opt_vec_view(v: Option<Vec<char>>) -> Option<Seq<char>> {
    match v {
        Some(x) => Some(x@),
        None => None,
    }
}

impl View for ParsedMessage {
    type V = ParsedMessageV;

    open spec fn view(&self) -> ParsedMessageV {
        ParsedMessageV {
            index: self.index,
            timestamp: self.timestamp@,
            sender: opt_vec_view(self.sender),
            body: self.body@,
        }
    }
}

/// `"[<timestamp>] <rest>"`.
pub open spec fn bracketed_header(line: Seq<char>) -> Option<(Seq<char>, Seq<char>)> {
    if line.len() > 0 && line[0] == '[' {
        match split_once(line.drop_first(), seq![']', ' ']) {
            Some((ts, rest)) => if looks_like_timestamp(ts) {
                Some((ts, rest))
            } else {
                None
            },
            None => None,
        }
    } else {
        None
    }
}

/// `"<timestamp> - <rest>"`.
pub open spec fn dash_header(line: Seq<char>) -> Option<(Seq<char>, Seq<char>)> {
    match split_once(line, seq![' ', '-', ' ']) {
        Some((ts, rest)) => if looks_like_timestamp(ts) {
            Some((ts, rest))
        } else {
            None
        },
        None => None,
    }
}

/// The sender before the first `": "` of the rest of a header, when it is not blank.
pub open spec fn split_sender(rest: Seq<char>) -> (Option<Seq<char>>, Seq<char>) {
    match split_once(rest, seq![':', ' ']) {
        None => (None, rest),
        Some((sender, body)) => if trim_ws(sender).len() == 0 {
            (None, rest)
        } else {
            (Some(trim_ws(sender)), body)
        },
    }
}

pub open spec fn message_from_header(index: usize, ts: Seq<char>, rest: Seq<char>) -> ParsedMessageV {
    let (sender, body) = split_sender(rest);
    ParsedMessageV { index, timestamp: trim_ws(ts), sender, body: trim_ws(body) }
}

/// The message that a transcript line starts, if it starts one.
pub open spec fn parse_message_line(line: Seq<char>, index: usize) -> Option<ParsedMessageV> {
    match bracketed_header(line) {
        Some((ts, rest)) => Some(message_from_header(index, ts, rest)),
        None => match dash_header(line) {
            Some((ts, rest)) => Some(message_from_header(index, ts, rest)),
            None => None,
        },
    }
}

proof fn lemma_first_pair(pre: Seq<char>, a: char, b: char, post: Seq<char>)
    requires
        forall|i: int| 0 <= i < pre.len() ==> pre[i] != a,
    ensures
        split_once(pre + seq![a, b] + post, seq![a, b]) == Some((pre, post)),
{
    let v = pre + seq![a, b] + post;
    let p = seq![a, b];
    assert(v.subrange(pre.len() as int, pre.len() + 2int) =~= p);
    assert forall|j: int| 0 <= j < pre.len() implies !crate::text::occurs_at(v, p, j) by {
        assert(v[j] == pre[j]);
        if crate::text::occurs_at(v, p, j) {
            assert(v.subrange(j, j + 2)[0] == v[j]);
        }
    }
    lemma_find_exact(v, p, 0, pre.len() as int);
    assert(v.take(pre.len() as int) =~= pre);
    assert(v.skip(pre.len() + 2int) =~= post);
}

/// A line `[timestamp] sender: body` whose bracket holds a recognised
/// timestamp starts a message from that sender: the timestamp and the body
/// trimmed, the sender trimmed, the index the one given.
pub proof fn lemma_bracketed_message(
    ts: Seq<char>,
    sender: Seq<char>,
    body: Seq<char>,
    index: usize,
)
    requires
        looks_like_timestamp(ts),
        forall|i: int| 0 <= i < ts.len() ==> ts[i] != ']',
        forall|i: int| 0 <= i < sender.len() ==> sender[i] != ':',
        trim_ws(sender).len() > 0,
    ensures
        parse_message_line(seq!['['] + ts + seq![']', ' '] + sender + seq![':', ' '] + body, index)
            == Some(
            ParsedMessageV {
                index,
                timestamp: trim_ws(ts),
                sender: Some(trim_ws(sender)),
                body: trim_ws(body),
            },
        ),
{
    let rest = sender + seq![':', ' '] + body;
    let line = seq!['['] + ts + seq![']', ' '] + sender + seq![':', ' '] + body;
    assert(line.drop_first() =~= ts + seq![']', ' '] + rest);
    lemma_first_pair(ts, ']', ' ', rest);
    lemma_first_pair(sender, ':', ' ', body);
    assert(line[0] == '[');
    assert(bracketed_header(line) == Some((ts, rest)));
}

/// A header line `[d1/d2/d3, h:m:s] sender: body` starts a message from its
/// sender exactly when its hour is at most 23 and its minutes and seconds at
/// most 59: messages of every hour of a 24-hour export are read.
pub proof fn lemma_header_at_any_hour(
    d1: Seq<char>,
    d2: Seq<char>,
    d3: Seq<char>,
    h: Seq<char>,
    m: Seq<char>,
    s: Seq<char>,
    sender: Seq<char>,
    body: Seq<char>,
    index: usize,
)
    requires
        is_digit_run(d1) && d1.len() <= 4,
        is_digit_run(d2) && d2.len() <= 4,
        is_digit_run(d3) && d3.len() <= 4,
        is_digit_run(h) && h.len() <= 2,
        is_digit_run(m) && m.len() == 2,
        is_digit_run(s) && s.len() == 2,
        digits_value(h) <= 23 && digits_value(m) <= 59 && digits_value(s) <= 59,
        forall|i: int| 0 <= i < sender.len() ==> sender[i] != ':',
        trim_ws(sender).len() > 0,
    ensures
        parse_message_line(
            seq!['['] + numeric_date(d1, d2, d3) + seq![',', ' '] + numeric_clock(h, m, s) + seq![
                ']',
                ' ',
            ] + sender + seq![':', ' '] + body,
            index,
        ) matches Some(msg) && msg.sender == Some(trim_ws(sender)) && msg.body == trim_ws(body),
{
    let ts = numeric_date(d1, d2, d3) + seq![',', ' '] + numeric_clock(h, m, s);
    lemma_timestamp_hours(d1, d2, d3, h, m, s);
    let d = numeric_date(d1, d2, d3);
    let c = numeric_clock(h, m, s);
    assert forall|i: int| 0 <= i < ts.len() implies ts[i] != ']' by {
        if i < d.len() {
            assert(ts[i] == d[i]);
            if i < d1.len() {
                assert(d[i] == d1[i]);
                lemma_digit_classes(d1[i]);
            } else if i == d1.len() {
            } else if i < d1.len() + 1 + d2.len() {
                assert(d[i] == d2[i - d1.len() - 1]);
                lemma_digit_classes(d2[i - d1.len() - 1]);
            } else if i == d1.len() + 1 + d2.len() {
            } else {
                assert(d[i] == d3[i - d1.len() - 2 - d2.len()]);
                lemma_digit_classes(d3[i - d1.len() - 2 - d2.len()]);
            }
        } else if i < d.len() + 2 {
        } else {
            let j = i - d.len() - 2;
            assert(ts[i] == c[j]);
            if j < h.len() {
                assert(c[j] == h[j]);
                lemma_digit_classes(h[j]);
            } else if j == h.len() {
            } else if j < h.len() + 1 + m.len() {
                assert(c[j] == m[j - h.len() - 1]);
                lemma_digit_classes(m[j - h.len() - 1]);
            } else if j == h.len() + 1 + m.len() {
            } else {
                assert(c[j] == s[j - h.len() - 2 - m.len()]);
                lemma_digit_classes(s[j - h.len() - 2 - m.len()]);
            }
        }
    }
    lemma_bracketed_message(ts, sender, body, index);
    assert(seq!['['] + d + seq![',', ' '] + c + seq![']', ' '] + sender + seq![':', ' '] + body
        =~= seq!['['] + ts + seq![']', ' '] + sender + seq![':', ' '] + body);
}

/// UTF-8 bytes of a parsed message's text (body, timestamp and sender).
pub open spec fn message_bytes(m: ParsedMessageV) -> nat {
    utf8_len(m.body) + utf8_len(m.timestamp) + match m.sender {
        Some(s) => utf8_len(s),
        None => 0,
    }
}

pub proof fn lemma_trim_start_len(s: Seq<char>, cls: CharClass)
    ensures
        trim_start_by(s, cls).len() <= s.len(),
        s.skip(s.len() - trim_start_by(s, cls).len()) == trim_start_by(s, cls),
    decreases s.len(),
{
    if s.len() > 0 && crate::text::in_class(cls, s[0]) {
        lemma_trim_start_len(s.drop_first(), cls);
        let t = trim_start_by(s.drop_first(), cls);
        assert(s.skip(s.len() - t.len()) =~= s.drop_first().skip(s.drop_first().len() - t.len()));
    } else {
        assert(s.skip(0) =~= s);
    }
}

pub proof fn lemma_trim_end_len(s: Seq<char>, cls: CharClass)
    ensures
        crate::text::trim_end_by(s, cls).len() <= s.len(),
        s.take(crate::text::trim_end_by(s, cls).len() as int) == crate::text::trim_end_by(s, cls),
    decreases s.len(),
{
    if s.len() > 0 && crate::text::in_class(cls, s.last()) {
        lemma_trim_end_len(s.drop_last(), cls);
        let t = crate::text::trim_end_by(s.drop_last(), cls);
        assert(s.take(t.len() as int) =~= s.drop_last().take(t.len() as int));
    } else {
        assert(s.take(s.len() as int) =~= s);
    }
}

pub proof fn lemma_trim_utf8(s: Seq<char>, cls: CharClass)
    ensures
        utf8_len(trim_by(s, cls)) <= utf8_len(s),
{
    let a = trim_start_by(s, cls);
    lemma_trim_start_len(s, cls);
    lemma_trim_end_len(a, cls);
    let b = crate::text::trim_end_by(a, cls);
    lemma_utf8_len_subrange(s, s.len() - a.len(), s.len() as int);
    assert(s.subrange(s.len() - a.len(), s.len() as int) =~= a);
    lemma_utf8_len_subrange(a, 0, b.len() as int);
    assert(a.subrange(0, b.len() as int) =~= b);
}

pub proof fn lemma_split_once_utf8(s: Seq<char>, p: Seq<char>)
    requires
        split_once(s, p) is Some,
    ensures
        ({
            let (a, b) = split_once(s, p).unwrap();
            utf8_len(a) + utf8_len(b) <= utf8_len(s)
        }),
{
    lemma_find_from_bounds(s, p, 0);
    let i = crate::text::find(s, p);
    lemma_utf8_len_subrange(s, i, i + p.len());
    assert(s.subrange(0, i) =~= s.take(i));
}

/// A parsed header never holds more text than its line.
pub proof fn lemma_message_bytes_within_line(line: Seq<char>, index: usize)
    requires
        parse_message_line(line, index) is Some,
    ensures
        message_bytes(parse_message_line(line, index).unwrap()) <= utf8_len(line),
{
    let (ts, rest) = if bracketed_header(line) is Some {
        let r = line.drop_first();
        lemma_split_once_utf8(r, seq![']', ' ']);
        lemma_utf8_len_concat(seq![line[0]], r);
        assert(seq![line[0]] + r =~= line);
        bracketed_header(line).unwrap()
    } else {
        lemma_split_once_utf8(line, seq![' ', '-', ' ']);
        dash_header(line).unwrap()
    };
    lemma_trim_utf8(ts, CharClass::Whitespace);
    match split_once(rest, seq![':', ' ']) {
        None => {
            lemma_trim_utf8(rest, CharClass::Whitespace);
        },
        Some((sender, body)) => {
            lemma_split_once_utf8(rest, seq![':', ' ']);
            lemma_trim_utf8(sender, CharClass::Whitespace);
            lemma_trim_utf8(body, CharClass::Whitespace);
            lemma_trim_utf8(rest, CharClass::Whitespace);
        },
    }
}

fn split_sender_exec(rest: Vec<char>) -> (r: (Option<Vec<char>>, Vec<char>))
    ensures
        (opt_vec_view(r.0), r.1@) == split_sender(rest@),
{
    let sep = vec![':', ' '];
    assert(sep@ =~= seq![':', ' ']);
    match split_once_exec(rest.as_slice(), sep.as_slice()) {
        None => (None, rest),
        Some((sender, body)) => {
            let s = trim(sender.as_slice());
            if s.len() == 0 {
                (None, rest)
            } else {
                (Some(s), body)
            }
        },
    }
}

fn message_from_header_exec(index: usize, ts: &[char], rest: Vec<char>) -> (m: ParsedMessage)
    ensures
        m@ == message_from_header(index, ts@, rest@),
{
    let (sender, body) = split_sender_exec(rest);
    ParsedMessage { index, timestamp: trim(ts), sender, body: trim(body.as_slice()) }
}

pub fn parse_message_line_exec(line: &[char], index: usize) -> (r: Option<ParsedMessage>)
    ensures
        match r {
            Some(m) => parse_message_line(line@, index) == Some(m@),
            None => parse_message_line(line@, index) is None,
        },
{
    if line.len() > 0 && line[0] == '[' {
        let tail = copy_range(line, 1, line.len());
        assert(tail@ =~= line@.drop_first());
        let sep = vec![']', ' '];
        assert(sep@ =~= seq![']', ' ']);
        match split_once_exec(tail.as_slice(), sep.as_slice()) {
            Some((ts, rest)) => {
                if looks_like_timestamp_exec(ts.as_slice()) {
                    return Some(message_from_header_exec(index, ts.as_slice(), rest));
                }
            },
            None => {},
        }
    }
    let sep = vec![' ', '-', ' '];
    assert(sep@ =~= seq![' ', '-', ' ']);
    match split_once_exec(line, sep.as_slice()) {
        Some((ts, rest)) => {
            if looks_like_timestamp_exec(ts.as_slice()) {
                Some(message_from_header_exec(index, ts.as_slice(), rest))
            } else {
                None
            }
        },
        None => None,
    }
}

// ---------------------------------------------------------------------------
// Media references in message text
// ---------------------------------------------------------------------------

pub open spec fn strip_cr(p: Seq<char>) -> Seq<char> {
    if p.len() > 0 && p.last() == '\r' {
        p.drop_last()
    } else {
        p
    }
}

/// `str::lines`: split at `\n` (dropping a `\r` before it), without a final empty line.
pub open spec fn text_lines(t: Seq<char>) -> Seq<Seq<char>> {
    let parts = split_on(t, CharClass::Single('\n'));
    let terminated = parts.take(parts.len() - 1).map_values(|p: Seq<char>| strip_cr(p));
    if parts.last().len() == 0 {
        terminated
    } else {
        terminated.push(parts.last())
    }
}

/// `str::split_whitespace`.
pub open spec fn words(s: Seq<char>) -> Seq<Seq<char>>
    decreases s.len(),
{
    if s.len() == 0 {
        seq![]
    } else {
        let w = words(s.drop_last());
        let c = s.last();
        if is_ws(c) {
            w
        } else if s.len() >= 2 && !is_ws(s[s.len() - 2]) {
            w.update(w.len() - 1, w.last().push(c))
        } else {
            w.push(seq![c])
        }
    }
}

/// A whitespace-separated token without the punctuation, quotes and
/// direction marks around it.
pub open spec fn clean_token(t: Seq<char>) -> Seq<char> {
    trim_by(
        trim_by(
            trim_by(
                trim_by(trim_by(t, CharClass::TokenPunct), CharClass::Single('"')),
                CharClass::Single('\''),
            ),
            CharClass::Single('\u{200e}'),
        ),
        CharClass::Single('\u{200f}'),
    )
}

/// A file name whose extension has a browser media type for its kind.
pub open spec fn has_media_extension(f: Seq<char>) -> bool {
    spec_media_type(spec_kind_from_filename(f), f) is Some
}

pub open spec fn keep_media_tokens(ws: Seq<Seq<char>>) -> Seq<Seq<char>>
    decreases ws.len(),
{
    if ws.len() == 0 {
        seq![]
    } else {
        let c = clean_token(ws.last());
        keep_media_tokens(ws.drop_last()) + if has_media_extension(c) {
            seq![c]
        } else {
            seq![]
        }
    }
}

/// The cleaned tokens of plain text that look like media file names.
pub open spec fn plain_tokens(s: Seq<char>) -> Seq<Seq<char>> {
    keep_media_tokens(words(s))
}

pub open spec fn attached_marker() -> Seq<char> {
    seq!['<', 'a', 't', 't', 'a', 'c', 'h', 'e', 'd', ':']
}

/// The file names of `<attached: NAME>` markers, with the plain media tokens around them.
pub open spec fn attached_tokens(rem: Seq<char>) -> Seq<Seq<char>>
    decreases rem.len(),
{
    match split_once(rem, attached_marker()) {
        None => plain_tokens(rem),
        Some((before, attached)) => match split_once(attached, seq!['>']) {
            None => plain_tokens(rem),
            Some((name, after)) => {
                proof {
                    lemma_find_from_bounds(rem, attached_marker(), 0);
                    lemma_find_from_bounds(attached, seq!['>'], 0);
                }
                plain_tokens(before) + if trim_ws(name).len() > 0 {
                    seq![trim_ws(name)]
                } else {
                    seq![]
                } + attached_tokens(after)
            },
        },
    }
}

/// The file names a transcript line refers to.
pub open spec fn line_tokens(line: Seq<char>) -> Seq<Seq<char>> {
    let t = trim_ws(line);
    if ends_with(t, " (file attached)"@) {
        seq![trim_ws(t.take(t.len() - " (file attached)"@.len()))]
    } else {
        attached_tokens(line)
    }
}

pub open spec fn tokens_of_lines(ls: Seq<Seq<char>>) -> Seq<Seq<char>>
    decreases ls.len(),
{
    if ls.len() == 0 {
        seq![]
    } else {
        tokens_of_lines(ls.drop_last()) + line_tokens(ls.last())
    }
}

/// Every media file name that a message text refers to, in order.
pub open spec fn media_tokens(text: Seq<char>) -> Seq<Seq<char>> {
    tokens_of_lines(text_lines(text))
}

pub fn text_lines_exec(t: &[char]) -> (r: Vec<Vec<char>>)
    ensures
        vecs_view(r@) == text_lines(t@),
{
    let parts = split_on_exec(t, CharClass::Single('\n'));
    let ghost sp = split_on(t@, CharClass::Single('\n'));
    let n = parts.len() - 1;
    let mut r: Vec<Vec<char>> = Vec::new();
    let mut i: usize = 0;
    while i < n
        invariant
            n + 1 == parts@.len(),
            vecs_view(parts@) == sp,
            i <= n,
            vecs_view(r@) == sp.take(i as int).map_values(|p: Seq<char>| strip_cr(p)),
        decreases n - i,
    {
        let p = &parts[i];
        assert(p@ == sp[i as int]);
        let q = if p.len() > 0 && p[p.len() - 1] == '\r' {
            copy_range(p.as_slice(), 0, p.len() - 1)
        } else {
            copy_range(p.as_slice(), 0, p.len())
        };
        assert(q@ =~= strip_cr(p@));
        let ghost before = vecs_view(r@);
        r.push(q);
        assert(vecs_view(r@) =~= before.push(strip_cr(sp[i as int])));
        assert(sp.take(i + 1).map_values(|p: Seq<char>| strip_cr(p)) =~= sp.take(i as int).map_values(
            |p: Seq<char>| strip_cr(p),
        ).push(strip_cr(sp[i as int])));
        i += 1;
    }
    let last = &parts[n];
    assert(last@ == sp.last());
    assert(sp.take(sp.len() - 1) =~= sp.take(n as int));
    if last.len() > 0 {
        let ghost before = vecs_view(r@);
        let c = copy_range(last.as_slice(), 0, last.len());
        assert(c@ =~= last@);
        r.push(c);
        assert(vecs_view(r@) =~= before.push(sp.last()));
    }
    r
}

pub proof fn lemma_words_nonempty(s: Seq<char>)
    requires
        s.len() > 0,
        !is_ws(s.last()),
    ensures
        words(s).len() >= 1,
    decreases s.len(),
{
    if s.len() >= 2 && !is_ws(s[s.len() - 2]) {
        lemma_words_nonempty(s.drop_last());
    }
}

/// `split_whitespace` of `s[lo..hi]`.
pub fn words_exec(s: &[char], lo: usize, hi: usize) -> (r: Vec<Vec<char>>)
    requires
        lo <= hi <= s@.len(),
    ensures
        vecs_view(r@) == words(s@.subrange(lo as int, hi as int)),
{
    let mut r: Vec<Vec<char>> = Vec::new();
    let mut i = lo;
    assert(s@.subrange(lo as int, lo as int) =~= seq![]);
    while i < hi
        invariant
            lo <= i <= hi <= s@.len(),
            vecs_view(r@) == words(s@.subrange(lo as int, i as int)),
        decreases hi - i,
    {
        let ghost prev = s@.subrange(lo as int, i as int);
        let ghost cur = s@.subrange(lo as int, i + 1);
        assert(cur.drop_last() =~= prev);
        let c = s[i];
        if is_ws_exec(c) {
        } else if i > lo && !is_ws_exec(s[i - 1]) {
            proof {
                assert(cur[cur.len() - 2] == s@[i - 1]);
                lemma_words_nonempty(prev);
                assert(prev.last() == s@[i - 1]);
            }
            let mut last = r.pop().unwrap();
            last.push(c);
            r.push(last);
            proof {
                let w = words(prev);
                assert(vecs_view(r@) =~= w.update(w.len() - 1, w.last().push(c)));
            }
        } else {
            let mut w: Vec<char> = Vec::new();
            w.push(c);
            r.push(w);
            proof {
                if i > lo {
                    assert(cur[cur.len() - 2] == s@[i - 1]);
                }
                assert(vecs_view(r@) =~= words(prev).push(seq![c]));
            }
        }
        i += 1;
    }
    r
}

pub fn clean_token_exec(t: &[char]) -> (r: Vec<char>)
    ensures
        r@ == clean_token(t@),
{
    let a = trim_class(t, CharClass::TokenPunct);
    let b = trim_class(a.as_slice(), CharClass::Single('"'));
    let c = trim_class(b.as_slice(), CharClass::Single('\''));
    let d = trim_class(c.as_slice(), CharClass::Single('\u{200e}'));
    trim_class(d.as_slice(), CharClass::Single('\u{200f}'))
}

pub fn has_media_extension_exec(f: &[char]) -> (b: bool)
    ensures
        b == has_media_extension(f@),
{
    let kind = kind_from_filename_chars(f);
    media_type_chars(kind, f).is_some()
}

/// Appends the media tokens of `s[lo..hi]`.
pub fn plain_tokens_exec(s: &[char], lo: usize, hi: usize, out: &mut Vec<Vec<char>>)
    requires
        lo <= hi <= s@.len(),
    ensures
        vecs_view(final(out)@) == vecs_view(old(out)@) + plain_tokens(
            s@.subrange(lo as int, hi as int),
        ),
{
    let ws = words_exec(s, lo, hi);
    let ghost wsv = vecs_view(ws@);
    let mut i: usize = 0;
    assert(wsv.take(0) =~= seq![]);
    assert(vecs_view(out@) =~= vecs_view(old(out)@) + keep_media_tokens(wsv.take(0)));
    while i < ws.len()
        invariant
            i <= ws@.len(),
            wsv == vecs_view(ws@),
            vecs_view(out@) == vecs_view(old(out)@) + keep_media_tokens(wsv.take(i as int)),
        decreases ws@.len() - i,
    {
        let c = clean_token_exec(ws[i].as_slice());
        assert(wsv.take(i + 1).drop_last() =~= wsv.take(i as int));
        assert(wsv.take(i + 1).last() == ws@[i as int]@);
        if has_media_extension_exec(c.as_slice()) {
            let ghost prev = vecs_view(out@);
            let ghost cv = c@;
            out.push(c);
            assert(vecs_view(out@) =~= prev.push(cv));
            assert(keep_media_tokens(wsv.take(i + 1)) =~= keep_media_tokens(wsv.take(i as int))
                + seq![cv]);
        } else {
            assert(keep_media_tokens(wsv.take(i + 1)) =~= keep_media_tokens(wsv.take(i as int)));
        }
        i += 1;
    }
    assert(wsv.take(ws@.len() as int) =~= wsv);
}

/// Appends the attachment-marker tokens of a line.
pub fn attached_tokens_exec(line: &[char], out: &mut Vec<Vec<char>>)
    ensures
        vecs_view(final(out)@) == vecs_view(old(out)@) + attached_tokens(line@),
{
    let marker = vec!['<', 'a', 't', 't', 'a', 'c', 'h', 'e', 'd', ':'];
    let gt = vec!['>'];
    assert(marker@ =~= attached_marker());
    assert(gt@ =~= seq!['>']);
    let n = line.len();
    let mut pos: usize = 0;
    assert(line@.skip(0) =~= line@);
    loop
        invariant
            n == line@.len(),
            pos <= n,
            marker@ == attached_marker(),
            gt@ == seq!['>'],
            vecs_view(out@) + attached_tokens(line@.skip(pos as int)) == vecs_view(old(out)@)
                + attached_tokens(line@),
        decreases n - pos,
    {
        let ghost rem = line@.skip(pos as int);
        proof {
            lemma_find_from_skip(line@, attached_marker(), pos as int, 0);
            lemma_find_from_bounds(line@, attached_marker(), pos as int);
        }
        match find_from_exec(line, marker.as_slice(), pos) {
            None => {
                let ghost before_out = vecs_view(out@);
                plain_tokens_exec(line, pos, n, out);
                assert(line@.subrange(pos as int, n as int) =~= rem);
                assert(vecs_view(out@) =~= before_out + attached_tokens(rem));
                return ;
            },
            Some(i) => {
                let a = i + 10;
                proof {
                    lemma_find_from_skip(line@, seq!['>'], a as int, 0);
                    lemma_find_from_bounds(line@, seq!['>'], a as int);
                }
                let ghost attached = line@.skip(a as int);
                assert(rem.skip(i - pos + 10) =~= attached);
                match find_from_exec(line, gt.as_slice(), a) {
                    None => {
                        let ghost before_out = vecs_view(out@);
                        plain_tokens_exec(line, pos, n, out);
                        assert(line@.subrange(pos as int, n as int) =~= rem);
                        assert(vecs_view(out@) =~= before_out + attached_tokens(rem));
                        return ;
                    },
                    Some(j) => {
                        let ghost before_out = vecs_view(out@);
                        plain_tokens_exec(line, pos, i, out);
                        assert(line@.subrange(pos as int, i as int) =~= rem.take(i - pos));
                        let name = copy_range(line, a, j);
                        assert(name@ =~= attached.take(j - a));
                        let tn = trim(name.as_slice());
                        let ghost mid_out = vecs_view(out@);
                        if tn.len() > 0 {
                            out.push(tn);
                        }
                        assert(attached.skip(j - a + 1) =~= line@.skip(j + 1));
                        assert(vecs_view(out@) =~= mid_out + if trim_ws(name@).len() > 0 {
                            seq![trim_ws(name@)]
                        } else {
                            seq![]
                        });
                        pos = j + 1;
                        assert(vecs_view(out@) + attached_tokens(line@.skip(pos as int)) =~= before_out
                            + attached_tokens(rem));
                    },
                }
            },
        }
    }
}

pub fn line_tokens_exec(line: &[char], out: &mut Vec<Vec<char>>)
    ensures
        vecs_view(final(out)@) == vecs_view(old(out)@) + line_tokens(line@),
{
    let t = trim(line);
    let suffix = chars_of(" (file attached)");
    if ends_with_exec(t.as_slice(), suffix.as_slice()) {
        let head = copy_range(t.as_slice(), 0, t.len() - suffix.len());
        assert(head@ =~= t@.take(t@.len() - suffix@.len()));
        out.push(trim(head.as_slice()));
        assert(vecs_view(out@) =~= vecs_view(old(out)@) + line_tokens(line@));
    } else {
        attached_tokens_exec(line, out);
    }
}

pub fn media_tokens_exec(text: &[char]) -> (r: Vec<Vec<char>>)
    ensures
        vecs_view(r@) == media_tokens(text@),
{
    let ls = text_lines_exec(text);
    let ghost lv = vecs_view(ls@);
    let mut out: Vec<Vec<char>> = Vec::new();
    let mut i: usize = 0;
    assert(lv.take(0) =~= seq![]);
    while i < ls.len()
        invariant
            i <= ls@.len(),
            lv == vecs_view(ls@),
            lv == text_lines(text@),
            vecs_view(out@) == tokens_of_lines(lv.take(i as int)),
        decreases ls@.len() - i,
    {
        line_tokens_exec(ls[i].as_slice(), &mut out);
        assert(lv.take(i + 1).drop_last() =~= lv.take(i as int));
        i += 1;
    }
    assert(lv.take(ls@.len() as int) =~= lv);
    out
}

// ---------------------------------------------------------------------------
// Transcript lines
// ---------------------------------------------------------------------------

/// What `String::from_utf8_lossy` makes of a byte string: invalid sequences
/// become U+FFFD.
pub uninterp spec fn utf8_lossy(bytes: Seq<u8>) -> Seq<char>;

/// `String::from_utf8_lossy`: the decoded text of the bytes (named by
/// `utf8_lossy`), which is their plain decoding when they are valid UTF-8.
#[verifier::external_body]
fn decode_utf8_lossy(bytes: &[u8]) -> (s: String)
    ensures
        s@ == utf8_lossy(bytes@),
        vstd::utf8::valid_utf8(bytes@) ==> s@ == vstd::utf8::decode_utf8(bytes@),
{
    String::from_utf8_lossy(bytes).into_owned()
}

/// Index of the first `\n` byte, or `-1`.
pub open spec fn first_newline(b: Seq<u8>) -> int
    decreases b.len(),
{
    if b.len() == 0 {
        -1
    } else if b[0] == 10 {
        0
    } else {
        let r = first_newline(b.drop_first());
        if r < 0 {
            -1
        } else {
            r + 1
        }
    }
}

pub proof fn lemma_first_newline(b: Seq<u8>)
    ensures
        -1 <= first_newline(b) < b.len(),
        first_newline(b) >= 0 ==> b[first_newline(b)] == 10,
        forall|k: int|
            0 <= k < b.len() && (first_newline(b) < 0 || k < first_newline(b)) ==> b[k] != 10,
    decreases b.len(),
{
    if b.len() > 0 && b[0] != 10 {
        lemma_first_newline(b.drop_first());
        assert forall|k: int|
            0 <= k < b.len() && (first_newline(b) < 0 || k < first_newline(b)) implies b[k] != 10 by {
            if k > 0 {
                assert(b.drop_first()[k - 1] == b[k]);
            }
        }
    }
}

pub proof fn lemma_first_newline_at(b: Seq<u8>, k: int)
    requires
        0 <= k <= b.len(),
        forall|j: int| 0 <= j < k ==> b[j] != 10,
        k < b.len() ==> b[k] == 10,
    ensures
        first_newline(b) == if k < b.len() {
            k
        } else {
            -1
        },
    decreases b.len(),
{
    if k > 0 {
        assert forall|j: int| 0 <= j < k - 1 implies b.drop_first()[j] != 10 by {
            assert(b.drop_first()[j] == b[j + 1]);
        }
        lemma_first_newline_at(b.drop_first(), k - 1);
    }
}

/// The lines of a transcript, each with its terminating `\n` when it has one.
pub open spec fn raw_lines(b: Seq<u8>) -> Seq<Seq<u8>>
    decreases b.len(),
{
    if b.len() == 0 {
        seq![]
    } else {
        let k = first_newline(b);
        if k < 0 {
            seq![b]
        } else {
            proof {
                lemma_first_newline(b);
            }
            seq![b.take(k + 1)] + raw_lines(b.skip(k + 1))
        }
    }
}

/// `str::trim` followed by stripping leading byte-order and direction marks.
pub open spec fn normalize_line(l: Seq<char>) -> Seq<char> {
    trim_start_by(
        trim_start_by(
            trim_start_by(trim_ws(l), CharClass::Single('\u{feff}')),
            CharClass::Single('\u{200e}'),
        ),
        CharClass::Single('\u{200f}'),
    )
}

/// The text of one transcript line.
pub open spec fn line_text(raw: Seq<u8>) -> Seq<char> {
    normalize_line(trim_end_by(utf8_lossy(raw), CharClass::LineEnd))
}

fn line_text_exec(raw: &[u8]) -> (r: Vec<char>)
    ensures
        r@ == line_text(raw@),
{
    let s = decode_utf8_lossy(raw);
    let c = chars_of(s.as_str());
    let a = trim_end_class(c.as_slice(), CharClass::LineEnd);
    let b = trim(a.as_slice());
    let d = trim_start_class(b.as_slice(), CharClass::Single('\u{feff}'));
    let e = trim_start_class(d.as_slice(), CharClass::Single('\u{200e}'));
    trim_start_class(e.as_slice(), CharClass::Single('\u{200f}'))
}

// ---------------------------------------------------------------------------
// The recent-message window
// ---------------------------------------------------------------------------

/// The parser's state between transcript lines.
pub struct ParseState {
    /// The retained (most recent) messages.
    pub msgs: Seq<ParsedMessageV>,
    /// How many message headers have been seen.
    pub total: usize,
    /// How many messages were dropped from the front of the window.
    pub skipped: usize,
    /// Whether a continuation line came before any message.
    pub orphan: bool,
}

pub open spec fn msgs_bytes(ms: Seq<ParsedMessageV>) -> nat
    decreases ms.len(),
{
    if ms.len() == 0 {
        0
    } else {
        msgs_bytes(ms.drop_last()) + message_bytes(ms.last())
    }
}

pub proof fn lemma_msgs_bytes_front(ms: Seq<ParsedMessageV>)
    requires
        ms.len() > 0,
    ensures
        msgs_bytes(ms) == message_bytes(ms[0]) + msgs_bytes(ms.drop_first()),
    decreases ms.len(),
{
    if ms.len() > 1 {
        lemma_msgs_bytes_front(ms.drop_last());
        assert(ms.drop_last().drop_first() =~= ms.drop_first().drop_last());
    } else {
        assert(ms.drop_first() =~= seq![]);
        assert(ms.drop_last() =~= seq![]);
    }
}

pub open spec fn sat_inc(x: usize) -> usize {
    if x < usize::MAX {
        (x + 1) as usize
    } else {
        x
    }
}

/// Drops messages from the front while more than `max` are retained or
/// their text exceeds the recent-text budget; returns the rest and the new
/// count of dropped messages.
pub open spec fn trim_front(m: usize, msgs: Seq<ParsedMessageV>, skipped: usize) -> (Seq<
    ParsedMessageV,
>, usize)
    decreases msgs.len(),
{
    if msgs.len() > 0 && (msgs.len() > m || msgs_bytes(msgs) > WHATSAPP_EXPORT_RECENT_TEXT_BYTES) {
        trim_front(m, msgs.drop_first(), sat_inc(skipped))
    } else {
        (msgs, skipped)
    }
}

/// The window after a change: trimmed to the limit, untouched without one.
pub open spec fn trim_window(max: Option<usize>, st: ParseState) -> ParseState {
    match max {
        None => st,
        Some(m) => {
            let (msgs, skipped) = trim_front(m, st.msgs, st.skipped);
            ParseState { msgs, total: st.total, skipped, orphan: st.orphan }
        },
    }
}

/// One transcript line, as raw bytes; `None` when the line or the message it
/// extends is too large.
pub open spec fn parse_step(max: Option<usize>, st: ParseState, raw: Seq<u8>) -> Option<ParseState> {
    if raw.len() > WHATSAPP_EXPORT_MAX_MESSAGE_BYTES {
        None
    } else {
        line_step(max, st, line_text(raw))
    }
}

/// One decoded and normalized transcript line: a message header opens a
/// message, other text extends the latest one; `None` when the line or the
/// message it extends is too large.
pub open spec fn line_step(max: Option<usize>, st: ParseState, line: Seq<char>) -> Option<ParseState> {
    if utf8_len(line) > WHATSAPP_EXPORT_MAX_MESSAGE_BYTES {
        None
    } else if line.len() == 0 {
        Some(st)
    } else {
        match parse_message_line(line, st.total) {
            Some(m) => Some(
                trim_window(
                    max,
                    ParseState {
                        msgs: st.msgs.push(m),
                        total: sat_inc(st.total),
                        skipped: st.skipped,
                        orphan: st.orphan,
                    },
                ),
            ),
            None => if st.msgs.len() > 0 {
                let last = st.msgs.last();
                if message_bytes(last) + utf8_len(line) + 1 > WHATSAPP_EXPORT_MAX_MESSAGE_BYTES {
                    None
                } else {
                    let extended = ParsedMessageV {
                        index: last.index,
                        timestamp: last.timestamp,
                        sender: last.sender,
                        body: last.body + seq!['\n'] + line,
                    };
                    Some(
                        trim_window(
                            max,
                            ParseState {
                                msgs: st.msgs.drop_last().push(extended),
                                total: st.total,
                                skipped: st.skipped,
                                orphan: st.orphan,
                            },
                        ),
                    )
                }
            } else if st.total == 0 && !st.orphan {
                Some(
                    ParseState {
                        msgs: st.msgs,
                        total: st.total,
                        skipped: st.skipped,
                        orphan: true,
                    },
                )
            } else {
                Some(st)
            },
        }
    }
}

pub open spec fn parse_lines(max: Option<usize>, st: ParseState, lines: Seq<Seq<u8>>) -> Option<
    ParseState,
>
    decreases lines.len(),
{
    if lines.len() == 0 {
        Some(st)
    } else {
        match parse_step(max, st, lines[0]) {
            None => None,
            Some(next) => parse_lines(max, next, lines.drop_first()),
        }
    }
}

pub open spec fn initial_state() -> ParseState {
    ParseState { msgs: seq![], total: 0, skipped: 0, orphan: false }
}

/// The parser's state after a whole transcript, or `None` when a line or a
/// message exceeds the per-message text limit.
pub open spec fn parse_transcript_state(max: Option<usize>, bytes: Seq<u8>) -> Option<ParseState> {
    parse_lines(max, initial_state(), raw_lines(bytes))
}

// ---------------------------------------------------------------------------
// Executable parsing
// ---------------------------------------------------------------------------

pub open spec fn pmsgs_view(s: Seq<ParsedMessage>) -> Seq<ParsedMessageV> {
    s.map_values(|m: ParsedMessage| m@)
}

pub open spec fn bytes_ok(ms: Seq<ParsedMessageV>) -> bool {
    forall|k: int| 0 <= k < ms.len() ==> message_bytes(#[trigger] ms[k]) <= WHATSAPP_EXPORT_MAX_MESSAGE_BYTES
}

fn message_bytes_exec(m: &ParsedMessage) -> (r: usize)
    requires
        message_bytes(m@) <= WHATSAPP_EXPORT_MAX_MESSAGE_BYTES,
    ensures
        r == message_bytes(m@),
{
    let cap = WHATSAPP_EXPORT_MAX_MESSAGE_BYTES;
    let b = utf8_len_capped(m.body.as_slice(), cap);
    let t = utf8_len_capped(m.timestamp.as_slice(), cap);
    let s = match &m.sender {
        Some(x) => utf8_len_capped(x.as_slice(), cap),
        None => 0,
    };
    b + t + s
}

pub proof fn lemma_trim_front_bytes(m: usize, msgs: Seq<ParsedMessageV>, skipped: usize)
    requires
        bytes_ok(msgs),
    ensures
        bytes_ok(trim_front(m, msgs, skipped).0),
        msgs_bytes(trim_front(m, msgs, skipped).0) <= WHATSAPP_EXPORT_RECENT_TEXT_BYTES || trim_front(
            m,
            msgs,
            skipped,
        ).0.len() == 0,
        trim_front(m, msgs, skipped).0.len() <= m,
    decreases msgs.len(),
{
    if msgs.len() > 0 && (msgs.len() > m || msgs_bytes(msgs) > WHATSAPP_EXPORT_RECENT_TEXT_BYTES) {
        assert(bytes_ok(msgs.drop_first())) by {
            assert forall|k: int| 0 <= k < msgs.drop_first().len() implies message_bytes(
                #[trigger] msgs.drop_first()[k],
            ) <= WHATSAPP_EXPORT_MAX_MESSAGE_BYTES by {
                assert(msgs.drop_first()[k] == msgs[k + 1]);
            }
        }
        lemma_trim_front_bytes(m, msgs.drop_first(), sat_inc(skipped));
    }
}

/// What every window that the parser keeps satisfies: each message within the
/// per-message limit, at most `m` messages and at most the recent-text budget.
pub open spec fn window_ok(m: usize, msgs: Seq<ParsedMessageV>) -> bool {
    bytes_ok(msgs) && msgs.len() <= m && msgs_bytes(msgs) <= WHATSAPP_EXPORT_RECENT_TEXT_BYTES
}

proof fn lemma_bytes_ok_push(msgs: Seq<ParsedMessageV>, x: ParsedMessageV)
    requires
        bytes_ok(msgs),
        message_bytes(x) <= WHATSAPP_EXPORT_MAX_MESSAGE_BYTES,
    ensures
        bytes_ok(msgs.push(x)),
{
    assert forall|k: int| 0 <= k < msgs.push(x).len() implies message_bytes(
        #[trigger] msgs.push(x)[k],
    ) <= WHATSAPP_EXPORT_MAX_MESSAGE_BYTES by {
        if k < msgs.len() {
            assert(msgs.push(x)[k] == msgs[k]);
        }
    }
}

proof fn lemma_step_keeps_window(m: usize, st: ParseState, raw: Seq<u8>)
    requires
        window_ok(m, st.msgs),
    ensures
        parse_step(Some(m), st, raw) matches Some(next) ==> window_ok(m, next.msgs),
{
    if raw.len() <= WHATSAPP_EXPORT_MAX_MESSAGE_BYTES {
        let line = line_text(raw);
        if utf8_len(line) <= WHATSAPP_EXPORT_MAX_MESSAGE_BYTES && line.len() > 0 {
            match parse_message_line(line, st.total) {
                Some(x) => {
                    lemma_message_bytes_within_line(line, st.total);
                    lemma_bytes_ok_push(st.msgs, x);
                    lemma_trim_front_bytes(m, st.msgs.push(x), st.skipped);
                },
                None => {
                    if st.msgs.len() > 0 {
                        let last = st.msgs.last();
                        if message_bytes(last) + utf8_len(line) + 1 <= WHATSAPP_EXPORT_MAX_MESSAGE_BYTES {
                            let extended = ParsedMessageV {
                                index: last.index,
                                timestamp: last.timestamp,
                                sender: last.sender,
                                body: last.body + seq!['\n'] + line,
                            };
                            crate::text::lemma_utf8_len_concat(last.body + seq!['\n'], line);
                            crate::text::lemma_utf8_len_concat(last.body, seq!['\n']);
                            assert(utf8_len(seq!['\n']) == 1) by {
                                assert(seq!['\n'].drop_last() =~= Seq::<char>::empty());
                                assert(seq!['\n'].drop_first() =~= Seq::<char>::empty());
                                assert(utf8_len(Seq::<char>::empty()) == 0);
                                assert(crate::text::utf8_width('\n') == 1);
                            }
                            let d = st.msgs.drop_last();
                            assert(bytes_ok(d)) by {
                                assert forall|k: int| 0 <= k < d.len() implies message_bytes(
                                    #[trigger] d[k],
                                ) <= WHATSAPP_EXPORT_MAX_MESSAGE_BYTES by {
                                    assert(d[k] == st.msgs[k]);
                                }
                            }
                            lemma_bytes_ok_push(d, extended);
                            lemma_trim_front_bytes(m, d.push(extended), st.skipped);
                        }
                    }
                },
            }
        }
    }
}

proof fn lemma_lines_keep_window(m: usize, st: ParseState, lines: Seq<Seq<u8>>)
    requires
        window_ok(m, st.msgs),
    ensures
        parse_lines(Some(m), st, lines) matches Some(end) ==> window_ok(m, end.msgs),
    decreases lines.len(),
{
    if lines.len() > 0 {
        lemma_step_keeps_window(m, st, lines[0]);
        if let Some(next) = parse_step(Some(m), st, lines[0]) {
            lemma_lines_keep_window(m, next, lines.drop_first());
        }
    }
}

/// With a recent-message limit `m`, whatever the transcript, the window kept
/// holds at most `m` messages, each within the per-message text limit, and
/// at most the recent-text budget of text in all.
pub proof fn lemma_recent_window_is_bounded(m: usize, bytes: Seq<u8>)
    ensures
        parse_transcript_state(Some(m), bytes) matches Some(st) ==> window_ok(m, st.msgs),
{
    assert(window_ok(m, initial_state().msgs)) by {
        assert(msgs_bytes(Seq::<ParsedMessageV>::empty()) == 0);
    }
    lemma_lines_keep_window(m, initial_state(), raw_lines(bytes));
}

proof fn lemma_trim_front_counts(m: usize, msgs: Seq<ParsedMessageV>, skipped: usize)
    requires
        skipped + msgs.len() <= usize::MAX,
    ensures
        trim_front(m, msgs, skipped).1 + trim_front(m, msgs, skipped).0.len() == skipped
            + msgs.len(),
    decreases msgs.len(),
{
    if msgs.len() > 0 && (msgs.len() > m || msgs_bytes(msgs) > WHATSAPP_EXPORT_RECENT_TEXT_BYTES) {
        lemma_trim_front_counts(m, msgs.drop_first(), sat_inc(skipped));
    }
}

/// Every message seen is either kept or counted as skipped (until the count
/// of messages reaches the largest `usize`).
pub open spec fn counts_add_up(st: ParseState) -> bool {
    st.total < usize::MAX ==> st.skipped + st.msgs.len() == st.total
}

proof fn lemma_step_counts(max: Option<usize>, st: ParseState, raw: Seq<u8>)
    requires
        counts_add_up(st),
    ensures
        parse_step(max, st, raw) matches Some(next) ==> counts_add_up(next),
{
    if raw.len() <= WHATSAPP_EXPORT_MAX_MESSAGE_BYTES {
        let line = line_text(raw);
        if utf8_len(line) <= WHATSAPP_EXPORT_MAX_MESSAGE_BYTES && line.len() > 0 {
            match parse_message_line(line, st.total) {
                Some(x) => {
                    if let Some(mm) = max {
                        if st.total < usize::MAX {
                            lemma_trim_front_counts(mm, st.msgs.push(x), st.skipped);
                        }
                    }
                },
                None => {
                    if st.msgs.len() > 0 {
                        let last = st.msgs.last();
                        let extended = ParsedMessageV {
                            index: last.index,
                            timestamp: last.timestamp,
                            sender: last.sender,
                            body: last.body + seq!['\n'] + line,
                        };
                        if let Some(mm) = max {
                            if st.total < usize::MAX {
                                lemma_trim_front_counts(
                                    mm,
                                    st.msgs.drop_last().push(extended),
                                    st.skipped,
                                );
                            }
                        }
                    }
                },
            }
        }
    }
}

proof fn lemma_lines_counts(max: Option<usize>, st: ParseState, lines: Seq<Seq<u8>>)
    requires
        counts_add_up(st),
    ensures
        parse_lines(max, st, lines) matches Some(end) ==> counts_add_up(end),
    decreases lines.len(),
{
    if lines.len() > 0 {
        lemma_step_counts(max, st, lines[0]);
        if let Some(next) = parse_step(max, st, lines[0]) {
            lemma_lines_counts(max, next, lines.drop_first());
        }
    }
}

/// No message header is lost: the messages kept and those counted as skipped
/// add up to the headers read.
pub proof fn lemma_skipped_count_is_exact(max: Option<usize>, bytes: Seq<u8>)
    ensures
        parse_transcript_state(max, bytes) matches Some(st) ==> counts_add_up(st),
{
    lemma_lines_counts(max, initial_state(), raw_lines(bytes));
}

/// The messages from index `j` on hold within `m` messages and the
/// recent-text budget.
pub open spec fn suffix_fits(m: usize, ms: Seq<ParsedMessageV>, j: int) -> bool {
    ms.len() - j <= m && msgs_bytes(ms.skip(j)) <= WHATSAPP_EXPORT_RECENT_TEXT_BYTES
}

/// The first index, from `j` on, from which the rest of the messages fits.
pub open spec fn first_fit(m: usize, ms: Seq<ParsedMessageV>, j: int) -> int
    decreases ms.len() - j,
{
    if j >= ms.len() || suffix_fits(m, ms, j) {
        j
    } else {
        first_fit(m, ms, j + 1)
    }
}

proof fn lemma_first_fit(m: usize, ms: Seq<ParsedMessageV>, j: int)
    requires
        0 <= j <= ms.len(),
    ensures
        j <= first_fit(m, ms, j) <= ms.len(),
        suffix_fits(m, ms, first_fit(m, ms, j)),
        forall|i: int| j <= i < first_fit(m, ms, j) ==> !suffix_fits(m, ms, i),
    decreases ms.len() - j,
{
    if j == ms.len() {
        assert(ms.skip(j) =~= Seq::<ParsedMessageV>::empty());
        assert(msgs_bytes(Seq::<ParsedMessageV>::empty()) == 0);
    } else if !suffix_fits(m, ms, j) {
        lemma_first_fit(m, ms, j + 1);
    }
}

proof fn lemma_first_fit_from(m: usize, ms: Seq<ParsedMessageV>, i: int, j: int)
    requires
        0 <= i <= j <= ms.len(),
        forall|k: int| i <= k < j ==> !suffix_fits(m, ms, k),
    ensures
        first_fit(m, ms, i) == first_fit(m, ms, j),
    decreases j - i,
{
    if i < j {
        lemma_first_fit_from(m, ms, i + 1, j);
    }
}

proof fn lemma_trim_front_is_first_fit(m: usize, ms: Seq<ParsedMessageV>, j: int, s: usize)
    requires
        0 <= j <= ms.len(),
    ensures
        trim_front(m, ms.skip(j), s).0 == ms.skip(first_fit(m, ms, j)),
    decreases ms.len() - j,
{
    let t = ms.skip(j);
    if j < ms.len() && !suffix_fits(m, ms, j) {
        assert(t.drop_first() =~= ms.skip(j + 1));
        lemma_trim_front_is_first_fit(m, ms, j + 1, sat_inc(s));
    }
}

proof fn lemma_msgs_bytes_push(ms: Seq<ParsedMessageV>, x: ParsedMessageV, i: int)
    requires
        0 <= i <= ms.len(),
    ensures
        ms.push(x).skip(i) =~= ms.skip(i).push(x),
        msgs_bytes(ms.push(x).skip(i)) == msgs_bytes(ms.skip(i)) + message_bytes(x),
{
    assert(ms.push(x).skip(i) =~= ms.skip(i).push(x));
    assert(ms.skip(i).push(x).drop_last() =~= ms.skip(i));
}

/// The window kept under a limit of `m` messages, against the state that the
/// same lines give without a limit.
pub open spec fn window_of(m: usize, w: ParseState, f: ParseState) -> bool {
    &&& w.total == f.total
    &&& w.orphan == f.orphan
    &&& f.skipped == 0
    &&& bytes_ok(f.msgs)
    &&& w.msgs == f.msgs.skip(first_fit(m, f.msgs, 0))
}

proof fn lemma_last_fits(m: usize, ms: Seq<ParsedMessageV>)
    requires
        m >= 1,
        ms.len() > 0,
        bytes_ok(ms),
    ensures
        first_fit(m, ms, 0) < ms.len(),
{
    let k = ms.len() - 1;
    assert(ms.skip(k) =~= Seq::<ParsedMessageV>::empty().push(ms[k]));
    assert(ms.skip(k).drop_last() =~= Seq::<ParsedMessageV>::empty());
    assert(msgs_bytes(Seq::<ParsedMessageV>::empty()) == 0);
    assert(message_bytes(ms[k]) <= WHATSAPP_EXPORT_MAX_MESSAGE_BYTES);
    assert(suffix_fits(m, ms, k));
    lemma_first_fit(m, ms, 0);
}

proof fn lemma_window_step(m: usize, w: ParseState, f: ParseState, raw: Seq<u8>)
    requires
        m >= 1,
        window_of(m, w, f),
    ensures
        match parse_step(Some(m), w, raw) {
            None => parse_step(None, f, raw) is None,
            Some(w2) => parse_step(None, f, raw) matches Some(f2) && window_of(m, w2, f2),
        },
{
    if raw.len() > WHATSAPP_EXPORT_MAX_MESSAGE_BYTES {
        return ;
    }
    let line = line_text(raw);
    if utf8_len(line) > WHATSAPP_EXPORT_MAX_MESSAGE_BYTES || line.len() == 0 {
        return ;
    }
    let fm = f.msgs;
    let j = first_fit(m, fm, 0);
    lemma_first_fit(m, fm, 0);
    match parse_message_line(line, f.total) {
        Some(x) => {
            lemma_message_bytes_within_line(line, f.total);
            lemma_bytes_ok_push(fm, x);
            let f2 = fm.push(x);
            lemma_msgs_bytes_push(fm, x, j);
            assert forall|i: int| 0 <= i < j implies !suffix_fits(m, f2, i) by {
                assert(!suffix_fits(m, fm, i));
                lemma_msgs_bytes_push(fm, x, i);
            }
            lemma_first_fit_from(m, f2, 0, j);
            lemma_trim_front_is_first_fit(m, f2, j, w.skipped);
        },
        None => {
            if fm.len() > 0 {
                lemma_last_fits(m, fm);
                assert(w.msgs.len() > 0);
                assert(w.msgs.last() == fm.last());
                let last = fm.last();
                if message_bytes(last) + utf8_len(line) + 1 <= WHATSAPP_EXPORT_MAX_MESSAGE_BYTES {
                    let ext = ParsedMessageV {
                        index: last.index,
                        timestamp: last.timestamp,
                        sender: last.sender,
                        body: last.body + seq!['\n'] + line,
                    };
                    crate::text::lemma_utf8_len_concat(last.body + seq!['\n'], line);
                    crate::text::lemma_utf8_len_concat(last.body, seq!['\n']);
                    assert(utf8_len(seq!['\n']) == 1) by {
                        assert(seq!['\n'].drop_last() =~= Seq::<char>::empty());
                        assert(seq!['\n'].drop_first() =~= Seq::<char>::empty());
                        assert(utf8_len(Seq::<char>::empty()) == 0);
                        assert(crate::text::utf8_width('\n') == 1);
                    }
                    assert(message_bytes(ext) >= message_bytes(last));
                    let d = fm.drop_last();
                    assert(bytes_ok(d)) by {
                        assert forall|k: int| 0 <= k < d.len() implies message_bytes(
                            #[trigger] d[k],
                        ) <= WHATSAPP_EXPORT_MAX_MESSAGE_BYTES by {
                            assert(d[k] == fm[k]);
                        }
                    }
                    lemma_bytes_ok_push(d, ext);
                    let f2 = d.push(ext);
                    assert(fm =~= d.push(last));
                    lemma_msgs_bytes_push(d, ext, j);
                    assert(w.msgs.drop_last() =~= d.skip(j));
                    assert forall|i: int| 0 <= i < j implies !suffix_fits(m, f2, i) by {
                        assert(!suffix_fits(m, fm, i));
                        lemma_msgs_bytes_push(d, ext, i);
                        lemma_msgs_bytes_push(d, last, i);
                    }
                    lemma_first_fit_from(m, f2, 0, j);
                    lemma_trim_front_is_first_fit(m, f2, j, w.skipped);
                }
            } else {
                assert(w.msgs =~= fm);
                assert(first_fit(m, fm, 0) == 0);
            }
        },
    }
}

proof fn lemma_window_lines(m: usize, w: ParseState, f: ParseState, lines: Seq<Seq<u8>>)
    requires
        m >= 1,
        window_of(m, w, f),
    ensures
        match parse_lines(Some(m), w, lines) {
            None => parse_lines(None, f, lines) is None,
            Some(w2) => parse_lines(None, f, lines) matches Some(f2) && window_of(m, w2, f2),
        },
    decreases lines.len(),
{
    if lines.len() > 0 {
        lemma_window_step(m, w, f, lines[0]);
        if let Some(w2) = parse_step(Some(m), w, lines[0]) {
            let f2 = parse_step(None, f, lines[0])->0;
            lemma_window_lines(m, w2, f2, lines.drop_first());
        }
    }
}

/// Under a limit of at least one message, the window kept is the longest run
/// of latest messages, of the transcript read without a limit, that holds
/// within the limit and the recent-text budget; the skipped count is the
/// number of messages before it; and both readings fail alike.
pub proof fn lemma_window_is_longest_fitting_suffix(m: usize, bytes: Seq<u8>)
    requires
        m >= 1,
    ensures
        match parse_transcript_state(Some(m), bytes) {
            None => parse_transcript_state(None, bytes) is None,
            Some(st) => parse_transcript_state(None, bytes) matches Some(full) && st.msgs
                == full.msgs.skip(first_fit(m, full.msgs, 0)) && suffix_fits(
                m,
                full.msgs,
                first_fit(m, full.msgs, 0),
            ) && (forall|i: int|
                0 <= i < first_fit(m, full.msgs, 0) ==> !suffix_fits(m, full.msgs, i))
                && st.total == full.total && st.orphan == full.orphan && (st.total < usize::MAX
                ==> st.skipped == first_fit(m, full.msgs, 0)),
        },
{
    let init = initial_state();
    assert(init.msgs.skip(0) =~= init.msgs);
    assert(window_of(m, init, init));
    lemma_window_lines(m, init, init, raw_lines(bytes));
    if let Some(st) = parse_transcript_state(Some(m), bytes) {
        let full = parse_transcript_state(None, bytes)->0;
        lemma_first_fit(m, full.msgs, 0);
        lemma_skipped_count_is_exact(Some(m), bytes);
        lemma_skipped_count_is_exact(None, bytes);
    }
}

proof fn lemma_lines_no_skip(st: ParseState, lines: Seq<Seq<u8>>)
    requires
        st.skipped == 0,
    ensures
        parse_lines(None, st, lines) matches Some(end) ==> end.skipped == 0,
    decreases lines.len(),
{
    if lines.len() > 0 {
        if let Some(next) = parse_step(None, st, lines[0]) {
            lemma_lines_no_skip(next, lines.drop_first());
        }
    }
}

/// Without a limit nothing is skipped: every message header read is kept
/// (until the count of headers reaches the largest `usize`).
pub proof fn lemma_no_limit_keeps_every_message(bytes: Seq<u8>)
    ensures
        parse_transcript_state(None, bytes) matches Some(st) ==> st.skipped == 0 && (st.total
            < usize::MAX ==> st.msgs.len() == st.total),
{
    lemma_lines_no_skip(initial_state(), raw_lines(bytes));
    lemma_skipped_count_is_exact(None, bytes);
}

proof fn lemma_lines_oversized(max: Option<usize>, st: ParseState, lines: Seq<Seq<u8>>, k: int)
    requires
        0 <= k < lines.len(),
        lines[k].len() > WHATSAPP_EXPORT_MAX_MESSAGE_BYTES || utf8_len(line_text(lines[k]))
            > WHATSAPP_EXPORT_MAX_MESSAGE_BYTES,
    ensures
        parse_lines(max, st, lines) is None,
    decreases k,
{
    if k > 0 {
        if let Some(next) = parse_step(max, st, lines[0]) {
            assert(lines.drop_first()[k - 1] == lines[k]);
            lemma_lines_oversized(max, next, lines.drop_first(), k - 1);
        }
    }
}

/// A transcript with a line over the per-message limit, as read or as
/// decoded, does not import, whatever the window.
pub proof fn lemma_oversized_line_fails(max: Option<usize>, bytes: Seq<u8>, k: int)
    requires
        0 <= k < raw_lines(bytes).len(),
        raw_lines(bytes)[k].len() > WHATSAPP_EXPORT_MAX_MESSAGE_BYTES || utf8_len(
            line_text(raw_lines(bytes)[k]),
        ) > WHATSAPP_EXPORT_MAX_MESSAGE_BYTES,
    ensures
        parse_transcript_state(max, bytes) is None,
{
    lemma_lines_oversized(max, initial_state(), raw_lines(bytes), k);
}

/// Trims the window in place, keeping `retained` equal to the text bytes it holds.
fn trim_front_exec(
    m: usize,
    msgs: &mut std::collections::VecDeque<ParsedMessage>,
    retained: &mut usize,
    skipped: &mut usize,
)
    requires
        *old(retained) == msgs_bytes(pmsgs_view(old(msgs)@)),
        bytes_ok(pmsgs_view(old(msgs)@)),
    ensures
        trim_front(m, pmsgs_view(old(msgs)@), *old(skipped)) == (
            pmsgs_view(final(msgs)@),
            *final(skipped),
        ),
        *final(retained) == msgs_bytes(pmsgs_view(final(msgs)@)),
        bytes_ok(pmsgs_view(final(msgs)@)),
{
    loop
        invariant
            *retained == msgs_bytes(pmsgs_view(msgs@)),
            bytes_ok(pmsgs_view(msgs@)),
            trim_front(m, pmsgs_view(old(msgs)@), *old(skipped)) == trim_front(
                m,
                pmsgs_view(msgs@),
                *skipped,
            ),
        decreases msgs@.len(),
    {
        let ghost v = pmsgs_view(msgs@);
        if !(msgs.len() > 0 && (msgs.len() > m || *retained > WHATSAPP_EXPORT_RECENT_TEXT_BYTES)) {
            return ;
        }
        let removed = msgs.pop_front().unwrap();
        proof {
            lemma_msgs_bytes_front(v);
            assert(pmsgs_view(msgs@) =~= v.drop_first());
            assert(v[0] == removed@);
            assert(bytes_ok(v.drop_first())) by {
                assert forall|k: int| 0 <= k < v.drop_first().len() implies message_bytes(
                    #[trigger] v.drop_first()[k],
                ) <= WHATSAPP_EXPORT_MAX_MESSAGE_BYTES by {
                    assert(v.drop_first()[k] == v[k + 1]);
                }
            }
            assert(message_bytes(v[0]) <= WHATSAPP_EXPORT_MAX_MESSAGE_BYTES);
        }
        let b = message_bytes_exec(&removed);
        *retained = *retained - b;
        *skipped = if *skipped < usize::MAX {
            *skipped + 1
        } else {
            *skipped
        };
    }
}

/// The parser's state between transcript lines, as the executable parser
/// keeps it.
pub struct TranscriptWindow {
    /// The retained (most recent) messages.
    pub messages: std::collections::VecDeque<ParsedMessage>,
    /// How many message headers have been seen.
    pub total: usize,
    /// How many messages were dropped from the front of the window.
    pub skipped: usize,
    /// Whether a continuation line came before any message.
    pub orphan: bool,
    /// The text bytes of the retained messages, tracked under a message limit.
    pub retained: usize,
}

impl View for TranscriptWindow {
    type V = ParseState;

    open spec fn view(&self) -> ParseState {
        ParseState {
            msgs: pmsgs_view(self.messages@),
            total: self.total,
            skipped: self.skipped,
            orphan: self.orphan,
        }
    }
}

impl TranscriptWindow {
    /// The window keeps every message within the per-message limit and, under
    /// a message limit, knows how many text bytes it retains.
    pub open spec fn wf(&self, max: Option<usize>) -> bool {
        &&& bytes_ok(pmsgs_view(self.messages@))
        &&& max is Some ==> self.retained == msgs_bytes(pmsgs_view(self.messages@))
        &&& max is Some ==> self.retained <= WHATSAPP_EXPORT_RECENT_TEXT_BYTES
        &&& max is None ==> self.retained == 0
    }

    /// The state before the first line.
    pub fn new(max: Option<usize>) -> (w: Self)
        ensures
            w@ == initial_state(),
            w.wf(max),
    {
        let w = TranscriptWindow {
            messages: std::collections::VecDeque::new(),
            total: 0,
            skipped: 0,
            orphan: false,
            retained: 0,
        };
        assert(pmsgs_view(w.messages@) =~= seq![]);
        w
    }

    /// Takes one decoded, normalized transcript line; `false`, with the window
    /// no longer to be used, when the line or the message it extends is too
    /// large.
    #[verifier::rlimit(40)]
    #[verifier::spinoff_prover]
    pub fn push_line(&mut self, line: &[char], max: Option<usize>) -> (ok: bool)
        requires
            old(self).wf(max),
        ensures
            match line_step(max, old(self)@, line@) {
                None => !ok,
                Some(next) => ok && final(self)@ == next && final(self).wf(max),
            },
    {
        let ghost st = self@;
        let line_bytes = utf8_len_capped(line, WHATSAPP_EXPORT_MAX_MESSAGE_BYTES);
        if line_bytes > WHATSAPP_EXPORT_MAX_MESSAGE_BYTES {
            return false;
        }
        if line.len() == 0 {
            return true;
        }
            match parse_message_line_exec(line, self.total) {
                Some(m) => {
                    proof {
                        lemma_message_bytes_within_line(line@, self.total);
                    }
                    let b = message_bytes_exec(&m);
                    let ghost mv = m@;
                    self.messages.push_back(m);
                    self.total = if self.total < usize::MAX {
                        self.total + 1
                    } else {
                        self.total
                    };
                    proof {
                        assert(pmsgs_view(self.messages@) =~= st.msgs.push(mv));
                        assert(pmsgs_view(self.messages@).drop_last() =~= st.msgs);
                        assert(bytes_ok(pmsgs_view(self.messages@))) by {
                            assert forall|k: int| 0 <= k < pmsgs_view(self.messages@).len() implies message_bytes(
                                #[trigger] pmsgs_view(self.messages@)[k],
                            ) <= WHATSAPP_EXPORT_MAX_MESSAGE_BYTES by {
                                if k < st.msgs.len() {
                                    assert(pmsgs_view(self.messages@)[k] == st.msgs[k]);
                                }
                            }
                        }
                    }
                    match max {
                        Some(mx) => {
                            self.retained = self.retained + b;
                            trim_front_exec(mx, &mut self.messages, &mut self.retained, &mut self.skipped);
                            proof {
                                lemma_trim_front_bytes(mx, st.msgs.push(mv), st.skipped);
                            }
                        },
                        None => {},
                    }
                },
                None => {
                    if self.messages.len() > 0 {
                        let mut last = self.messages.pop_back().unwrap();
                        let ghost lv = last@;
                        proof {
                            assert(st.msgs.last() == lv);
                            assert(pmsgs_view(self.messages@) =~= st.msgs.drop_last());
                        }
                        let lb = message_bytes_exec(&last);
                        if lb + line_bytes + 1 > WHATSAPP_EXPORT_MAX_MESSAGE_BYTES {
                            return false;
                        }
                        last.body.push('\n');
                        append_all(&mut last.body, line);
                        proof {
                            lemma_utf8_len_concat(lv.body + seq!['\n'], line@);
                            lemma_utf8_len_concat(lv.body, seq!['\n']);
                            assert(utf8_len(seq!['\n']) == 1) by {
                                assert(seq!['\n'].drop_last() =~= Seq::<char>::empty());
                                assert(utf8_len(Seq::<char>::empty()) == 0);
                                assert(('\n' as u32) < 0x80);
                                assert(seq!['\n'].last() == '\n');
                            }
                            assert(last.body@ =~= lv.body + seq!['\n'] + line@);
                        }
                        let ghost ext = last@;
                        self.messages.push_back(last);
                        proof {
                            assert(pmsgs_view(self.messages@) =~= st.msgs.drop_last().push(ext));
                            assert(pmsgs_view(self.messages@).drop_last() =~= st.msgs.drop_last());
                            assert(bytes_ok(pmsgs_view(self.messages@))) by {
                                assert forall|k: int| 0 <= k < pmsgs_view(self.messages@).len() implies message_bytes(
                                    #[trigger] pmsgs_view(self.messages@)[k],
                                ) <= WHATSAPP_EXPORT_MAX_MESSAGE_BYTES by {
                                    if k < st.msgs.len() - 1 {
                                        assert(pmsgs_view(self.messages@)[k] == st.msgs[k]);
                                    }
                                }
                            }
                        }
                        match max {
                            Some(mx) => {
                                proof {
                                    assert(st.msgs =~= st.msgs.drop_last().push(lv));
                                }
                                self.retained = self.retained - lb + (lb + line_bytes + 1);
                                trim_front_exec(mx, &mut self.messages, &mut self.retained, &mut self.skipped);
                                proof {
                                    lemma_trim_front_bytes(mx, st.msgs.drop_last().push(ext), st.skipped);
                                }
                            },
                            None => {},
                        }
                    } else if self.total == 0 && !self.orphan {
                        self.orphan = true;
                    }
                },
            }
        true
    }
}

/// Parses a whole transcript into its recent-message window.
#[verifier::spinoff_prover]
pub fn parse_transcript_window(bytes: &[u8], max: Option<usize>) -> (r: Option<
    (std::collections::VecDeque<ParsedMessage>, usize, usize, bool),
>)
    ensures
        match r {
            None => parse_transcript_state(max, bytes@) is None,
            Some((ms, total, skipped, orphan)) => parse_transcript_state(max, bytes@) == Some(
                ParseState { msgs: pmsgs_view(ms@), total, skipped, orphan },
            ),
        },
{
    let n = bytes.len();
    let mut window = TranscriptWindow::new(max);
    let mut pos: usize = 0;
    assert(bytes@.skip(0) =~= bytes@);
    while pos < n
        invariant
            n == bytes@.len(),
            pos <= n,
            window.wf(max),
            parse_lines(max, window@, raw_lines(bytes@.skip(pos as int))) == parse_transcript_state(
                max,
                bytes@,
            ),
        decreases n - pos,
    {
        let ghost rest = bytes@.skip(pos as int);
        let mut j = pos;
        while j < n && bytes[j] != 10
            invariant
                pos <= j <= n,
                n == bytes@.len(),
                forall|k: int| pos <= k < j ==> bytes@[k] != 10,
            decreases n - j,
        {
            j += 1;
        }
        let end = if j < n {
            j + 1
        } else {
            n
        };
        proof {
            lemma_first_newline_at(rest, j - pos);
            lemma_first_newline(rest);
            assert(rest.take(end - pos) =~= bytes@.subrange(pos as int, end as int));
            assert(rest.skip(end - pos) =~= bytes@.skip(end as int));
            assert(raw_lines(rest) =~= seq![bytes@.subrange(pos as int, end as int)] + raw_lines(
                bytes@.skip(end as int),
            ));
            assert((seq![bytes@.subrange(pos as int, end as int)] + raw_lines(
                bytes@.skip(end as int),
            )).drop_first() =~= raw_lines(bytes@.skip(end as int)));
        }
        let raw = &bytes[pos..end];
        assert(raw@ == bytes@.subrange(pos as int, end as int));
        if raw.len() > WHATSAPP_EXPORT_MAX_MESSAGE_BYTES {
            return None;
        }
        let line = line_text_exec(raw);
        if !window.push_line(line.as_slice(), max) {
            return None;
        }
        pos = end;
    }
    Some((window.messages, window.total, window.skipped, window.orphan))
}

// ---------------------------------------------------------------------------
// Resolving media references
// ---------------------------------------------------------------------------

/// The last attachment with the given file name.
pub open spec fn find_by_filename(atts: Seq<AttachmentV>, name: Seq<char>) -> Option<AttachmentV>
    decreases atts.len(),
{
    if atts.len() == 0 {
        None
    } else if atts.last().filename == name {
        Some(atts.last())
    } else {
        find_by_filename(atts.drop_last(), name)
    }
}

/// The ids of the attachments that tokens name, each once, in order of first reference.
pub open spec fn add_attachment_ids(
    ids: Seq<Seq<char>>,
    tokens: Seq<Seq<char>>,
    atts: Seq<AttachmentV>,
) -> Seq<Seq<char>>
    decreases tokens.len(),
{
    if tokens.len() == 0 {
        ids
    } else {
        let next = match find_by_filename(atts, tokens[0]) {
            Some(a) => if ids.contains(a.id) {
                ids
            } else {
                ids.push(a.id)
            },
            None => ids,
        };
        add_attachment_ids(next, tokens.drop_first(), atts)
    }
}

/// Whether some token names no attachment.
pub open spec fn has_missing(tokens: Seq<Seq<char>>, atts: Seq<AttachmentV>) -> bool {
    exists|k: int| 0 <= k < tokens.len() && find_by_filename(atts, #[trigger] tokens[k]) is None
}

pub open spec fn export_message_id(index: usize) -> Seq<char> {
    "export-message-"@ + zero_pad(decimal(index as nat), 8)
}

/// A retained message with its id and the attachments its text refers to.
pub open spec fn final_message(m: ParsedMessageV, atts: Seq<AttachmentV>) -> MessageV {
    MessageV {
        id: export_message_id(m.index),
        timestamp: m.timestamp,
        sender: m.sender,
        body: m.body,
        attachment_ids: add_attachment_ids(seq![], media_tokens(m.body), atts),
    }
}

pub open spec fn final_messages(ms: Seq<ParsedMessageV>, atts: Seq<AttachmentV>) -> Seq<MessageV> {
    ms.map_values(|m: ParsedMessageV| final_message(m, atts))
}

pub open spec fn is_referenced(msgs: Seq<MessageV>, id: Seq<char>) -> bool {
    exists|k: int| 0 <= k < msgs.len() && (#[trigger] msgs[k]).attachment_ids.contains(id)
}

/// The attachments that some message refers to, in archive order.
pub open spec fn referenced_attachments(atts: Seq<AttachmentV>, msgs: Seq<MessageV>) -> Seq<
    AttachmentV,
>
    decreases atts.len(),
{
    if atts.len() == 0 {
        seq![]
    } else {
        referenced_attachments(atts.drop_last(), msgs) + if is_referenced(msgs, atts.last().id) {
            seq![atts.last()]
        } else {
            seq![]
        }
    }
}

proof fn lemma_find_by_filename_in(atts: Seq<AttachmentV>, name: Seq<char>)
    ensures
        find_by_filename(atts, name) matches Some(a) ==> atts.contains(a),
    decreases atts.len(),
{
    if atts.len() > 0 && atts.last().filename != name {
        lemma_find_by_filename_in(atts.drop_last(), name);
        if let Some(a) = find_by_filename(atts.drop_last(), name) {
            let k = choose|k: int| 0 <= k < atts.drop_last().len() && atts.drop_last()[k] == a;
            assert(atts[k] == a);
        }
    } else if atts.len() > 0 {
        assert(atts[atts.len() - 1] == atts.last());
    }
}

pub open spec fn names_an_attachment(atts: Seq<AttachmentV>, id: Seq<char>) -> bool {
    exists|k: int| 0 <= k < atts.len() && (#[trigger] atts[k]).id == id
}

proof fn lemma_added_ids_name_attachments(ids: Seq<Seq<char>>, tokens: Seq<Seq<char>>, atts: Seq<AttachmentV>)
    requires
        forall|j: int| 0 <= j < ids.len() ==> names_an_attachment(atts, #[trigger] ids[j]),
    ensures
        forall|j: int|
            0 <= j < add_attachment_ids(ids, tokens, atts).len() ==> names_an_attachment(
                atts,
                #[trigger] add_attachment_ids(ids, tokens, atts)[j],
            ),
    decreases tokens.len(),
{
    if tokens.len() > 0 {
        lemma_find_by_filename_in(atts, tokens[0]);
        let next = match find_by_filename(atts, tokens[0]) {
            Some(a) => if ids.contains(a.id) {
                ids
            } else {
                ids.push(a.id)
            },
            None => ids,
        };
        assert forall|j: int| 0 <= j < next.len() implies names_an_attachment(atts, #[trigger] next[j]) by {
            if j < ids.len() {
                assert(next[j] == ids[j]);
            } else {
                let a = find_by_filename(atts, tokens[0])->0;
                let k = choose|k: int| 0 <= k < atts.len() && atts[k] == a;
                assert(atts[k].id == next[j]);
            }
        }
        lemma_added_ids_name_attachments(next, tokens.drop_first(), atts);
        assert(add_attachment_ids(ids, tokens, atts) == add_attachment_ids(
            next,
            tokens.drop_first(),
            atts,
        ));
    }
}

/// The id of the attachment a token names, if it names one.
pub open spec fn token_target(atts: Seq<AttachmentV>, token: Seq<char>) -> Option<Seq<char>> {
    match find_by_filename(atts, token) {
        Some(a) => Some(a.id),
        None => None,
    }
}

proof fn lemma_add_ids_links(ids: Seq<Seq<char>>, tokens: Seq<Seq<char>>, atts: Seq<AttachmentV>)
    requires
        ids.no_duplicates(),
    ensures
        add_attachment_ids(ids, tokens, atts).no_duplicates(),
        ids.is_prefix_of(add_attachment_ids(ids, tokens, atts)),
        forall|k: int|
            0 <= k < tokens.len() && token_target(atts, #[trigger] tokens[k]) is Some
                ==> add_attachment_ids(ids, tokens, atts).contains(
                token_target(atts, tokens[k])->0,
            ),
        forall|j: int|
            ids.len() <= j < add_attachment_ids(ids, tokens, atts).len() ==> exists|k: int|
                0 <= k < tokens.len() && token_target(atts, #[trigger] tokens[k]) == Some(
                    #[trigger] add_attachment_ids(ids, tokens, atts)[j],
                ),
    decreases tokens.len(),
{
    if tokens.len() > 0 {
        let next = match find_by_filename(atts, tokens[0]) {
            Some(a) => if ids.contains(a.id) {
                ids
            } else {
                ids.push(a.id)
            },
            None => ids,
        };
        let rest = tokens.drop_first();
        let r = add_attachment_ids(ids, tokens, atts);
        assert(r == add_attachment_ids(next, rest, atts));
        assert(next.no_duplicates()) by {
            if next.len() > ids.len() {
                assert forall|a: int, b: int| 0 <= a < b < next.len() implies next[a] != next[b] by {
                    if b == ids.len() {
                        assert(!ids.contains(next[b]));
                        assert(ids[a] == next[a]);
                    } else {
                        assert(ids[a] == next[a] && ids[b] == next[b]);
                    }
                }
            }
        }
        lemma_add_ids_links(next, rest, atts);
        assert(ids.is_prefix_of(next));
        assert(ids.is_prefix_of(r)) by {
            assert forall|i: int| 0 <= i < ids.len() implies ids[i] == r[i] by {
                assert(next[i] == ids[i]);
                assert(r[i] == next[i]);
            }
        }
        assert forall|k: int|
            0 <= k < tokens.len() && token_target(atts, #[trigger] tokens[k]) is Some implies r.contains(
            token_target(atts, tokens[k])->0,
        ) by {
            if k == 0 {
                let x = token_target(atts, tokens[0])->0;
                let i = if ids.contains(x) {
                    choose|i: int| 0 <= i < ids.len() && ids[i] == x
                } else {
                    ids.len() as int
                };
                assert(next[i] == x);
                assert(r[i] == next[i]);
            } else {
                assert(tokens[k] == rest[k - 1]);
            }
        }
        assert forall|j: int| ids.len() <= j < r.len() implies exists|k: int|
            0 <= k < tokens.len() && token_target(atts, #[trigger] tokens[k]) == Some(#[trigger] r[j]) by {
            if j < next.len() {
                assert(r[j] == next[j]);
                assert(token_target(atts, tokens[0]) == Some(r[j]));
            } else {
                let k = choose|k: int|
                    0 <= k < rest.len() && token_target(atts, #[trigger] rest[k]) == Some(r[j]);
                assert(tokens[k + 1] == rest[k]);
            }
        }
    }
}

/// The attachments a message links to are named by the media tokens of its
/// text: each token that names an attachment links it, each link comes from
/// such a token, and no attachment is linked twice.
pub proof fn lemma_attachment_links(text: Seq<char>, atts: Seq<AttachmentV>)
    ensures
        add_attachment_ids(seq![], media_tokens(text), atts).no_duplicates(),
        forall|k: int|
            0 <= k < media_tokens(text).len() && token_target(atts, #[trigger] media_tokens(text)[k])
                is Some ==> add_attachment_ids(seq![], media_tokens(text), atts).contains(
                token_target(atts, media_tokens(text)[k])->0,
            ),
        forall|j: int|
            0 <= j < add_attachment_ids(seq![], media_tokens(text), atts).len() ==> exists|k: int|
                0 <= k < media_tokens(text).len() && token_target(atts, #[trigger] media_tokens(text)[k])
                    == Some(#[trigger] add_attachment_ids(seq![], media_tokens(text), atts)[j]),
{
    lemma_add_ids_links(seq![], media_tokens(text), atts);
}

proof fn lemma_referenced_keeps(atts: Seq<AttachmentV>, msgs: Seq<MessageV>, k: int)
    requires
        0 <= k < atts.len(),
        is_referenced(msgs, atts[k].id),
    ensures
        names_an_attachment(referenced_attachments(atts, msgs), atts[k].id),
    decreases atts.len(),
{
    let r = referenced_attachments(atts, msgs);
    if k == atts.len() - 1 {
        assert(r[r.len() - 1] == atts.last());
    } else {
        lemma_referenced_keeps(atts.drop_last(), msgs, k);
        assert(atts.drop_last()[k] == atts[k]);
        let p = referenced_attachments(atts.drop_last(), msgs);
        let j = choose|j: int| 0 <= j < p.len() && (#[trigger] p[j]).id == atts[k].id;
        assert(r[j] == p[j]);
    }
}

proof fn lemma_referenced_are_referenced(atts: Seq<AttachmentV>, msgs: Seq<MessageV>)
    ensures
        forall|j: int|
            0 <= j < referenced_attachments(atts, msgs).len() ==> is_referenced(
                msgs,
                (#[trigger] referenced_attachments(atts, msgs)[j]).id,
            ),
    decreases atts.len(),
{
    if atts.len() > 0 {
        lemma_referenced_are_referenced(atts.drop_last(), msgs);
        let p = referenced_attachments(atts.drop_last(), msgs);
        let r = referenced_attachments(atts, msgs);
        assert forall|j: int| 0 <= j < r.len() implies is_referenced(msgs, (#[trigger] r[j]).id) by {
            if j < p.len() {
                assert(r[j] == p[j]);
            }
        }
    }
}

/// In an imported export, references close up: every attachment id of every
/// message names an attachment of the import, and every attachment of the
/// import is referenced by some message.
pub proof fn lemma_import_references_are_closed(st: ParseState, atts: Seq<AttachmentV>)
    ensures
        ({
            let imp = transcript_import(st, atts);
            &&& forall|k: int, j: int|
                0 <= k < imp.messages.len() && 0 <= j < imp.messages[k].attachment_ids.len()
                    ==> names_an_attachment(
                    imp.attachments,
                    #[trigger] imp.messages[k].attachment_ids[j],
                )
            &&& forall|j: int|
                0 <= j < imp.attachments.len() ==> is_referenced(
                    imp.messages,
                    (#[trigger] imp.attachments[j]).id,
                )
        }),
{
    let imp = transcript_import(st, atts);
    let msgs = imp.messages;
    lemma_referenced_are_referenced(atts, msgs);
    assert forall|k: int, j: int|
        0 <= k < msgs.len() && 0 <= j < msgs[k].attachment_ids.len() implies names_an_attachment(
        imp.attachments,
        #[trigger] msgs[k].attachment_ids[j],
    ) by {
        let m = st.msgs[k];
        assert(msgs[k] == final_message(m, atts));
        lemma_added_ids_name_attachments(seq![], media_tokens(m.body), atts);
        let id = msgs[k].attachment_ids[j];
        assert(names_an_attachment(atts, id));
        let i = choose|i: int| 0 <= i < atts.len() && (#[trigger] atts[i]).id == id;
        assert(msgs[k].attachment_ids.contains(id));
        assert(is_referenced(msgs, id));
        lemma_referenced_keeps(atts, msgs, i);
    }
}

pub open spec fn orphan_issue() -> ImportIssueV {
    ImportIssueV {
        code: ImportIssueCode::ContinuationWithoutMessage,
        message: "Transcript contains a continuation line before the first message"@,
    }
}

pub open spec fn missing_issue() -> ImportIssueV {
    ImportIssueV {
        code: ImportIssueCode::MissingAttachmentReference,
        message: "Transcript references media that is not present in the archive"@,
    }
}

pub open spec fn truncated_issue(n: nat) -> ImportIssueV {
    ImportIssueV {
        code: ImportIssueCode::MessageWindowTruncated,
        message: "Only the latest "@ + decimal(n)
            + " messages were loaded; older messages were skipped for performance"@,
    }
}

pub open spec fn any_missing(ms: Seq<ParsedMessageV>, atts: Seq<AttachmentV>) -> bool {
    exists|k: int| 0 <= k < ms.len() && has_missing(media_tokens((#[trigger] ms[k]).body), atts)
}

/// The issues of a parsed transcript: an orphan continuation, missing media,
/// and a truncated window, in that order.
pub open spec fn transcript_issues(st: ParseState, atts: Seq<AttachmentV>) -> Seq<ImportIssueV> {
    (if st.orphan {
        seq![orphan_issue()]
    } else {
        seq![]
    }) + (if any_missing(st.msgs, atts) {
        seq![missing_issue()]
    } else {
        seq![]
    }) + (if st.skipped > 0 {
        seq![truncated_issue(st.msgs.len())]
    } else {
        seq![]
    })
}

/// An import names each kind of issue at most once: a missing-media notice
/// exactly when some kept message names media the archive lacks, and a
/// truncation notice exactly when messages were skipped.
pub proof fn lemma_transcript_issue_kinds(st: ParseState, atts: Seq<AttachmentV>)
    ensures
        forall|i: int, j: int|
            0 <= i < j < transcript_issues(st, atts).len() ==> (#[trigger] transcript_issues(
                st,
                atts,
            )[i]).code != (#[trigger] transcript_issues(st, atts)[j]).code,
        (exists|i: int|
            0 <= i < transcript_issues(st, atts).len() && (#[trigger] transcript_issues(
                st,
                atts,
            )[i]).code == ImportIssueCode::MissingAttachmentReference) <==> any_missing(
            st.msgs,
            atts,
        ),
        (exists|i: int|
            0 <= i < transcript_issues(st, atts).len() && (#[trigger] transcript_issues(
                st,
                atts,
            )[i]).code == ImportIssueCode::MessageWindowTruncated) <==> st.skipped > 0,
{
    let is = transcript_issues(st, atts);
    let a: Seq<ImportIssueV> = if st.orphan {
        seq![orphan_issue()]
    } else {
        seq![]
    };
    let b: Seq<ImportIssueV> = if any_missing(st.msgs, atts) {
        seq![missing_issue()]
    } else {
        seq![]
    };
    let c: Seq<ImportIssueV> = if st.skipped > 0 {
        seq![truncated_issue(st.msgs.len())]
    } else {
        seq![]
    };
    assert(is =~= a + b + c);
    assert forall|i: int| 0 <= i < is.len() implies (i < a.len() ==> is[i] == orphan_issue()) && (
    a.len() <= i < a.len() + b.len() ==> is[i] == missing_issue()) && (a.len() + b.len() <= i
        ==> is[i] == truncated_issue(st.msgs.len())) by {
        if i < a.len() {
            assert(is[i] == a[i]);
        } else if i < a.len() + b.len() {
            assert(is[i] == b[i - a.len()]);
        } else {
            assert(is[i] == c[i - a.len() - b.len()]);
        }
    }
    if any_missing(st.msgs, atts) {
        assert(is[a.len() as int].code == ImportIssueCode::MissingAttachmentReference);
    }
    if st.skipped > 0 {
        assert(is[(a.len() + b.len()) as int].code == ImportIssueCode::MessageWindowTruncated);
    }
}

/// The chat import that a parsed transcript with the archive's attachments gives.
pub open spec fn transcript_import(st: ParseState, atts: Seq<AttachmentV>) -> ChatImportV {
    let msgs = final_messages(st.msgs, atts);
    ChatImportV {
        source_kind: SourceKind::WhatsappExportZip,
        transcript_name: None,
        messages: msgs,
        attachments: referenced_attachments(atts, msgs),
        issues: transcript_issues(st, atts),
    }
}

fn chars_eq(a: &[char], b: &[char]) -> (r: bool)
    ensures
        r == (a@ == b@),
{
    if a.len() != b.len() {
        return false;
    }
    let mut i: usize = 0;
    while i < a.len()
        invariant
            i <= a@.len(),
            a@.len() == b@.len(),
            forall|k: int| 0 <= k < i ==> a@[k] == b@[k],
        decreases a@.len() - i,
    {
        if a[i] != b[i] {
            return false;
        }
        i += 1;
    }
    assert(a@ =~= b@);
    true
}

fn find_by_filename_exec(atts: &[Attachment], names: &Vec<Vec<char>>, token: &[char]) -> (r:
    Option<usize>)
    requires
        names@.len() == atts@.len(),
        forall|k: int| 0 <= k < atts@.len() ==> (#[trigger] names@[k])@ == atts@[k].filename@,
    ensures
        match r {
            Some(k) => k < atts@.len() && find_by_filename(attachments_view(atts@), token@) == Some(
                atts@[k as int]@,
            ),
            None => find_by_filename(attachments_view(atts@), token@) is None,
        },
{
    let mut j = atts.len();
    assert(attachments_view(atts@).take(j as int) =~= attachments_view(atts@));
    while j > 0
        invariant
            j <= atts@.len(),
            names@.len() == atts@.len(),
            forall|k: int| 0 <= k < atts@.len() ==> (#[trigger] names@[k])@ == atts@[k].filename@,
            find_by_filename(attachments_view(atts@), token@) == find_by_filename(
                attachments_view(atts@).take(j as int),
                token@,
            ),
        decreases j,
    {
        let ghost av = attachments_view(atts@).take(j as int);
        assert(av.drop_last() =~= attachments_view(atts@).take(j - 1));
        assert(av.last() == atts@[j - 1]@);
        assert(names@[j - 1]@ == atts@[j - 1].filename@);
        if chars_eq(names[j - 1].as_slice(), token) {
            return Some(j - 1);
        }
        j -= 1;
    }
    None
}

fn contains_string(ids: &Vec<String>, s: &String) -> (r: bool)
    ensures
        r == strings_view(ids@).contains(s@),
{
    let mut i: usize = 0;
    while i < ids.len()
        invariant
            i <= ids@.len(),
            forall|k: int| 0 <= k < i ==> ids@[k]@ != s@,
        decreases ids@.len() - i,
    {
        if ids[i] == *s {
            assert(strings_view(ids@)[i as int] == s@);
            return true;
        }
        i += 1;
    }
    assert forall|k: int| 0 <= k < strings_view(ids@).len() implies strings_view(ids@)[k] != s@ by {
        assert(strings_view(ids@)[k] == ids@[k]@);
    }
    false
}

/// The attachment ids for a message text, and whether some reference is missing.
fn resolve_tokens(text: &[char], atts: &[Attachment], names: &Vec<Vec<char>>) -> (r: (
    Vec<String>,
    bool,
))
    requires
        names@.len() == atts@.len(),
        forall|k: int| 0 <= k < atts@.len() ==> (#[trigger] names@[k])@ == atts@[k].filename@,
    ensures
        strings_view(r.0@) == add_attachment_ids(seq![], media_tokens(text@), attachments_view(atts@)),
        r.1 == has_missing(media_tokens(text@), attachments_view(atts@)),
{
    let tokens = media_tokens_exec(text);
    let ghost tv = vecs_view(tokens@);
    let ghost av = attachments_view(atts@);
    let mut ids: Vec<String> = Vec::new();
    let mut missing = false;
    let mut i: usize = 0;
    assert(tv.skip(0) =~= tv);
    assert(strings_view(ids@) =~= seq![]);
    while i < tokens.len()
        invariant
            i <= tokens@.len(),
            tv == vecs_view(tokens@),
            tv == media_tokens(text@),
            av == attachments_view(atts@),
            names@.len() == atts@.len(),
            forall|k: int| 0 <= k < atts@.len() ==> (#[trigger] names@[k])@ == atts@[k].filename@,
            add_attachment_ids(strings_view(ids@), tv.skip(i as int), av) == add_attachment_ids(
                seq![],
                tv,
                av,
            ),
            missing == exists|k: int| 0 <= k < i && find_by_filename(av, #[trigger] tv[k]) is None,
        decreases tokens@.len() - i,
    {
        let ghost before = strings_view(ids@);
        assert(tv.skip(i as int)[0] == tv[i as int]);
        assert(tv.skip(i as int).drop_first() =~= tv.skip(i + 1));
        assert(tokens@[i as int]@ == tv[i as int]);
        match find_by_filename_exec(atts, names, tokens[i].as_slice()) {
            Some(k) => {
                let id = atts[k].id.clone();
                if !contains_string(&ids, &id) {
                    ids.push(id);
                    assert(strings_view(ids@) =~= before.push(atts@[k as int].id@));
                }
            },
            None => {
                missing = true;
            },
        }
        i += 1;
    }
    (ids, missing)
}

pub fn export_message_id_exec(index: usize) -> (r: String)
    ensures
        r@ == export_message_id(index),
{
    let mut v = chars_of("export-message-");
    let d = zero_pad_exec(decimal_exec(index as u64), 8);
    append_all(&mut v, d.as_slice());
    string_of(v)
}

fn is_referenced_exec(messages: &Vec<Message>, id: &String) -> (r: bool)
    ensures
        r == is_referenced(messages_view(messages@), id@),
{
    let ghost mv = messages_view(messages@);
    let mut k: usize = 0;
    while k < messages.len()
        invariant
            k <= messages@.len(),
            mv == messages_view(messages@),
            forall|j: int| 0 <= j < k ==> !(#[trigger] mv[j]).attachment_ids.contains(id@),
        decreases messages@.len() - k,
    {
        assert(mv[k as int] == messages@[k as int]@);
        if contains_string(&messages[k].attachment_ids, id) {
            return true;
        }
        k += 1;
    }
    false
}

/// The chat import for a parsed transcript window and the archive's attachments.
#[verifier::spinoff_prover]
pub fn finish_transcript(
    mut window: std::collections::VecDeque<ParsedMessage>,
    total: usize,
    skipped: usize,
    orphan: bool,
    atts: &[Attachment],
) -> (r: ChatImport)
    ensures
        r@ == transcript_import(
            ParseState { msgs: pmsgs_view(window@), total, skipped, orphan },
            attachments_view(atts@),
        ),
{
    let ghost v = pmsgs_view(window@);
    let ghost av = attachments_view(atts@);
    let mut names: Vec<Vec<char>> = Vec::new();
    let mut a: usize = 0;
    while a < atts.len()
        invariant
            a <= atts@.len(),
            names@.len() == a,
            forall|k: int| 0 <= k < a ==> (#[trigger] names@[k])@ == atts@[k].filename@,
        decreases atts@.len() - a,
    {
        names.push(chars_of(atts[a].filename.as_str()));
        a += 1;
    }
    let mut messages: Vec<Message> = Vec::new();
    let mut missing = false;
    let mut i: usize = 0;
    let n = window.len();
    assert(v.skip(0) =~= v);
    assert(messages_view(messages@) =~= final_messages(v.take(0), av));
    while i < n
        invariant
            n == v.len(),
            i <= n,
            pmsgs_view(window@) == v.skip(i as int),
            av == attachments_view(atts@),
            names@.len() == atts@.len(),
            forall|k: int| 0 <= k < atts@.len() ==> (#[trigger] names@[k])@ == atts@[k].filename@,
            messages_view(messages@) == final_messages(v.take(i as int), av),
            missing == exists|k: int|
                0 <= k < i && has_missing(media_tokens((#[trigger] v[k]).body), av),
        decreases n - i,
    {
        let ghost w0 = window@;
        assert(pmsgs_view(w0).len() == w0.len());
        assert(v.skip(i as int).len() == n - i);
        let pm = window.pop_front().unwrap();
        assert(pmsgs_view(w0)[0] == w0[0]@);
        assert(v.skip(i as int)[0] == v[i as int]);
        assert(pm@ == v[i as int]);
        assert(window@ =~= w0.subrange(1, w0.len() as int));
        assert forall|k: int| 0 <= k < window@.len() implies pmsgs_view(window@)[k] == v.skip(i + 1)[k] by {
            assert(pmsgs_view(window@)[k] == window@[k]@);
            assert(window@[k] == w0[k + 1]);
            assert(pmsgs_view(w0)[k + 1] == w0[k + 1]@);
            assert(v.skip(i as int)[k + 1] == v.skip(i + 1)[k]);
        }
        assert(pmsgs_view(window@) =~= v.skip(i + 1));
        let (ids, miss) = resolve_tokens(pm.body.as_slice(), atts, &names);
        let id = export_message_id_exec(pm.index);
        let sender = match pm.sender {
            Some(s) => Some(string_of(s)),
            None => None,
        };
        let m = Message {
            id,
            timestamp: MessageTimestamp { raw: string_of(pm.timestamp) },
            sender,
            body: string_of(pm.body),
            attachment_ids: ids,
        };
        assert(m@ == final_message(v[i as int], av));
        let ghost before = messages_view(messages@);
        messages.push(m);
        assert(messages_view(messages@) =~= before.push(final_message(v[i as int], av)));
        assert(final_messages(v.take(i + 1), av) =~= final_messages(v.take(i as int), av).push(
            final_message(v[i as int], av),
        ));
        if miss {
            missing = true;
        }
        i += 1;
    }
    assert(v.take(n as int) =~= v);
    let ghost fm = final_messages(v, av);
    let mut issues: Vec<ImportIssue> = Vec::new();
    if orphan {
        issues.push(
            ImportIssue {
                code: ImportIssueCode::ContinuationWithoutMessage,
                message: "Transcript contains a continuation line before the first message".to_owned(),
            },
        );
    }
    if missing {
        issues.push(
            ImportIssue {
                code: ImportIssueCode::MissingAttachmentReference,
                message: "Transcript references media that is not present in the archive".to_owned(),
            },
        );
    }
    if skipped > 0 {
        let mut text = chars_of("Only the latest ");
        let count = decimal_exec(messages.len() as u64);
        append_all(&mut text, count.as_slice());
        let tail = chars_of(" messages were loaded; older messages were skipped for performance");
        append_all(&mut text, tail.as_slice());
        issues.push(ImportIssue { code: ImportIssueCode::MessageWindowTruncated, message: string_of(text) });
    }
    assert(issues_view(issues@) =~= transcript_issues(
        ParseState { msgs: v, total, skipped, orphan },
        av,
    ));
    let mut attachments: Vec<Attachment> = Vec::new();
    let mut j: usize = 0;
    assert(attachments_view(attachments@) =~= referenced_attachments(av.take(0), fm));
    while j < atts.len()
        invariant
            j <= atts@.len(),
            av == attachments_view(atts@),
            fm == messages_view(messages@),
            attachments_view(attachments@) == referenced_attachments(av.take(j as int), fm),
        decreases atts@.len() - j,
    {
        assert(av.take(j + 1).drop_last() =~= av.take(j as int));
        assert(av.take(j + 1).last() == atts@[j as int]@);
        let ghost before = attachments_view(attachments@);
        if is_referenced_exec(&messages, &atts[j].id) {
            attachments.push(atts[j].copy());
            assert(attachments_view(attachments@) =~= before.push(atts@[j as int]@));
        }
        j += 1;
    }
    assert(av.take(atts@.len() as int) =~= av);
    ChatImport {
        source_kind: SourceKind::WhatsappExportZip,
        transcript_name: None,
        messages,
        attachments,
        issues,
    }
}

// ---------------------------------------------------------------------------
// Options, results and errors
// ---------------------------------------------------------------------------

#[derive(Debug, Clone, Copy, PartialEq, Eq)]
pub struct WhatsappExportImportOptions {
    pub max_messages: Option<usize>,
}

impl WhatsappExportImportOptions {
    /// Keep only the latest `max_messages` messages.
    pub fn recent(max_messages: usize) -> (r: Self)
        ensures
            r.max_messages == Some(max_messages),
    {
        Self { max_messages: Some(max_messages) }
    }

    /// Keep every message.
    pub fn all_messages() -> (r: Self)
        ensures
            r.max_messages is None,
    {
        Self { max_messages: None }
    }
}

impl Default for WhatsappExportImportOptions {
    fn default() -> (r: Self)
        ensures
            r.max_messages == Some(DEFAULT_WHATSAPP_EXPORT_IMPORT_MAX_MESSAGES),
    {
        Self::recent(DEFAULT_WHATSAPP_EXPORT_IMPORT_MAX_MESSAGES)
    }
}

#[derive(Debug, Clone, PartialEq, Eq)]
pub struct WhatsappExportImportResult {
    pub imported: ChatImport,
    pub skipped_message_count: usize,
}

#[derive(Debug, Clone, PartialEq, Eq)]
pub struct ExportAttachmentPayload {
    pub filename: String,
    pub kind: AttachmentKind,
    pub size_bytes: u64,
    pub bytes: Vec<u8>,
}

#[verifier::external_type_specification]
#[verifier::external_body]
#[verifier::reject_recursive_types(R)]
pub struct ExZipArchive<R>(zip::ZipArchive<R>);

#[verifier::external_type_specification]
#[verifier::external_body]
pub struct ExZipError(zip::result::ZipError);

#[verifier::external_type_specification]
#[verifier::external_body]
#[verifier::reject_recursive_types(T)]
pub struct ExCursor<T>(std::io::Cursor<T>);

#[verifier::external_type_specification]
#[verifier::external_body]
pub struct ExIoError(std::io::Error);

#[derive(Debug)]
pub enum ExportZipError {
    Zip(zip::result::ZipError),
    Io(std::io::Error),
    NoTranscript,
    MultipleTranscripts(Vec<String>),
    MessageTooLarge,
}

/// `Display` of `zip::result::ZipError`, through `format!`: the error's own
/// text. Nothing is stated of that text; it only ever follows a fixed prefix
/// in an error message.
#[verifier::external_body]
fn zip_error_text(e: &zip::result::ZipError) -> String {
    format!("{e}")
}

/// `Display` of `std::io::Error`, through `format!`: the error's own text.
/// Nothing is stated of that text; it only ever follows a fixed prefix in an
/// error message.
#[verifier::external_body]
fn io_error_text(e: &std::io::Error) -> String {
    format!("{e}")
}

/// The text that `Debug` writes for a `Vec<String>` holding these texts.
pub uninterp spec fn debug_text_list(names: Seq<Seq<char>>) -> Seq<char>;

/// `Debug` of a `Vec<String>`, through `format!`: std's bracketed, quoted and
/// escaped rendering of the texts, a function of the texts alone. Nothing more
/// is stated of its characters.
#[verifier::external_body]
fn debug_of_names(names: &Vec<String>) -> (r: String)
    ensures
        r@ == debug_text_list(strings_view(names@)),
{
    format!("{names:?}")
}

impl ExportZipError {
    /// The user-facing description of the error.
    pub fn message(&self) -> (r: String)
        ensures
            self is Zip ==> starts_with(r@, "ZIP read failed: "@),
            self is Io ==> starts_with(r@, "I/O failed while reading ZIP: "@),
            self is NoTranscript ==> r@
                == "WhatsApp export ZIP does not contain a transcript file"@,
            self matches ExportZipError::MultipleTranscripts(names) ==> r@
                == "WhatsApp export ZIP contains multiple transcript files: "@
                + debug_text_list(strings_view(names@)),
            self is MessageTooLarge ==> r@
                == "A transcript line or message exceeds the 1 MiB text limit"@,
    {
        match self {
            ExportZipError::Zip(e) => {
                let prefix = chars_of("ZIP read failed: ");
                let mut v = chars_of("ZIP read failed: ");
                let d = zip_error_text(e);
                append_all(&mut v, chars_of(d.as_str()).as_slice());
                proof {
                    assert(v@.take(prefix@.len() as int) =~= prefix@);
                }
                string_of(v)
            },
            ExportZipError::Io(e) => {
                let prefix = chars_of("I/O failed while reading ZIP: ");
                let mut v = chars_of("I/O failed while reading ZIP: ");
                let d = io_error_text(e);
                append_all(&mut v, chars_of(d.as_str()).as_slice());
                proof {
                    assert(v@.take(prefix@.len() as int) =~= prefix@);
                }
                string_of(v)
            },
            ExportZipError::NoTranscript => "WhatsApp export ZIP does not contain a transcript file".to_owned(),
            ExportZipError::MultipleTranscripts(names) => {
                let mut v = chars_of("WhatsApp export ZIP contains multiple transcript files: ");
                let list = debug_of_names(names);
                append_all(&mut v, chars_of(list.as_str()).as_slice());
                string_of(v)
            },
            ExportZipError::MessageTooLarge => "A transcript line or message exceeds the 1 MiB text limit".to_owned(),
        }
    }
}

/// How reading a transcript ends.
pub enum TranscriptRead {
    /// Every line was read: the parser's final state.
    Parsed(ParseState),
    /// A line or a message exceeds the per-message text limit.
    TooLarge,
    /// Reading the transcript failed before any line was too large.
    ReadFailed,
}

/// The end of the last complete line: one past the last newline, or 0.
pub open spec fn complete_lines_end(b: Seq<u8>) -> int
    decreases b.len(),
{
    if b.len() == 0 {
        0
    } else if b.last() == 10 {
        b.len() as int
    } else {
        complete_lines_end(b.drop_last())
    }
}

/// Reading a transcript line by line, when reading its entry delivers
/// `bytes` and then ends cleanly or with an error: the lines are taken in
/// order as far as the bytes delivered reach, so a line over the per-message
/// limit ends the reading before a later read error does.
pub open spec fn transcript_read(max: Option<usize>, bytes: Seq<u8>, clean: bool) -> TranscriptRead {
    if clean {
        match parse_transcript_state(max, bytes) {
            None => TranscriptRead::TooLarge,
            Some(st) => TranscriptRead::Parsed(st),
        }
    } else {
        let k = complete_lines_end(bytes);
        match parse_transcript_state(max, bytes.take(k)) {
            None => TranscriptRead::TooLarge,
            Some(_) => if bytes.len() - k > WHATSAPP_EXPORT_MAX_MESSAGE_BYTES {
                TranscriptRead::TooLarge
            } else {
                TranscriptRead::ReadFailed
            },
        }
    }
}

fn complete_lines_end_exec(b: &[u8]) -> (k: usize)
    ensures
        k == complete_lines_end(b@),
        k <= b@.len(),
{
    let mut j = b.len();
    assert(b@.take(j as int) =~= b@);
    while j > 0 && b[j - 1] != 10
        invariant
            j <= b@.len(),
            complete_lines_end(b@) == complete_lines_end(b@.take(j as int)),
        decreases j,
    {
        assert(b@.take(j as int).drop_last() =~= b@.take(j - 1));
        j -= 1;
    }
    proof {
        if j > 0 {
            assert(b@.take(j as int).last() == b@[j - 1]);
        }
    }
    j
}

/// Parses a transcript as its entry's read delivered it: `read_error` is the
/// error the read ended with, if any, which the import reports unless a line
/// was found too large first.
pub fn read_transcript(
    bytes: &[u8],
    read_error: Option<std::io::Error>,
    attachments: &[Attachment],
    options: WhatsappExportImportOptions,
) -> (r: Result<WhatsappExportImportResult, ExportZipError>)
    ensures
        match transcript_read(options.max_messages, bytes@, read_error is None) {
            TranscriptRead::TooLarge => r is Err && r->Err_0 is MessageTooLarge,
            TranscriptRead::ReadFailed => r is Err && r->Err_0 is Io,
            TranscriptRead::Parsed(st) => r is Ok && r->Ok_0.imported@ == transcript_import(
                st,
                attachments_view(attachments@),
            ) && r->Ok_0.skipped_message_count == st.skipped,
        },
{
    match read_error {
        None => parse_transcript(bytes, attachments, options),
        Some(e) => {
            let k = complete_lines_end_exec(bytes);
            let complete = vstd::slice::slice_subrange(bytes, 0, k);
            assert(complete@ =~= bytes@.take(k as int));
            if parse_transcript_window(complete, options.max_messages).is_none() {
                return Err(ExportZipError::MessageTooLarge);
            }
            if bytes.len() - k > WHATSAPP_EXPORT_MAX_MESSAGE_BYTES {
                return Err(ExportZipError::MessageTooLarge);
            }
            Err(ExportZipError::Io(e))
        },
    }
}

/// Parses transcript bytes into a chat import, resolving media references
/// against the archive's attachments.
pub fn parse_transcript(
    bytes: &[u8],
    attachments: &[Attachment],
    options: WhatsappExportImportOptions,
) -> (r: Result<WhatsappExportImportResult, ExportZipError>)
    ensures
        match parse_transcript_state(options.max_messages, bytes@) {
            None => r is Err && r->Err_0 is MessageTooLarge,
            Some(st) => r is Ok && r->Ok_0.imported@ == transcript_import(
                st,
                attachments_view(attachments@),
            ) && r->Ok_0.skipped_message_count == st.skipped,
        },
{
    match parse_transcript_window(bytes, options.max_messages) {
        None => Err(ExportZipError::MessageTooLarge),
        Some((window, total, skipped, orphan)) => {
            let imported = finish_transcript(window, total, skipped, orphan, attachments);
            Ok(WhatsappExportImportResult { imported, skipped_message_count: skipped })
        },
    }
}

// ---------------------------------------------------------------------------
// Archive entry names
// ---------------------------------------------------------------------------

/// A ZIP entry name with `\\` turned into `/`, unless it is absolute or has a
/// `..` component.
pub open spec fn normalized_archive_name(name: Seq<char>) -> Option<Seq<char>> {
    let n = replace_char(name, '\\', '/');
    if starts_with(n, seq!['/']) || split_on(n, CharClass::Single('/')).contains(seq!['.', '.']) {
        None
    } else {
        Some(n)
    }
}

/// An accepted archive path uses `/` only, is relative, and has no `..`
/// component: it cannot point outside the archive's tree.
pub proof fn lemma_normalized_archive_name_is_contained(name: Seq<char>)
    ensures
        normalized_archive_name(name) matches Some(n) ==> !n.contains('\\') && !starts_with(
            n,
            seq!['/'],
        ) && !split_on(n, CharClass::Single('/')).contains(seq!['.', '.']),
{
    if let Some(n) = normalized_archive_name(name) {
        if n.contains('\\') {
            let k = choose|k: int| 0 <= k < n.len() && n[k] == '\\';
            assert(n[k] == replace_char(name, '\\', '/')[k]);
        }
    }
}

pub fn normalized_archive_name_exec(name: &[char]) -> (r: Option<Vec<char>>)
    ensures
        opt_vec_view(r) == normalized_archive_name(name@),
{
    let n = replace_char_exec(name, '\\', '/');
    let slash = vec!['/'];
    assert(slash@ =~= seq!['/']);
    if starts_with_exec(n.as_slice(), slash.as_slice()) {
        return None;
    }
    let parts = split_on_exec(n.as_slice(), CharClass::Single('/'));
    let ghost pv = vecs_view(parts@);
    let mut k: usize = 0;
    while k < parts.len()
        invariant
            k <= parts@.len(),
            pv == vecs_view(parts@),
            pv == split_on(n@, CharClass::Single('/')),
            n@ == replace_char(name@, '\\', '/'),
            forall|j: int| 0 <= j < k ==> pv[j] != seq!['.', '.'],
        decreases parts@.len() - k,
    {
        let p = &parts[k];
        assert(pv[k as int] == p@);
        if p.len() == 2 && p[0] == '.' && p[1] == '.' {
            assert(p@ =~= seq!['.', '.']);
            assert(pv.contains(seq!['.', '.']));
            return None;
        }
        assert(p@ != seq!['.', '.']);
        k += 1;
    }
    Some(n)
}

/// Whether an entry name ends with a directory separator (as `ZipFile::is_dir` decides).
pub open spec fn name_is_dir(name: Seq<char>) -> bool {
    name.len() > 0 && (name.last() == '/' || name.last() == '\\')
}

/// A `.txt` file name, in any letter case.
pub open spec fn is_transcript_name(n: Seq<char>) -> bool {
    match file_name(n) {
        Some(f) => match name_extension(f) {
            Some(e) => lower_seq(e) == seq!['t', 'x', 't'],
            None => false,
        },
        None => false,
    }
}

fn is_transcript_name_exec(n: &[char]) -> (b: bool)
    ensures
        b == is_transcript_name(n@),
{
    match file_name_exec(n) {
        None => false,
        Some(f) => {
            proof {
                crate::text::lemma_rfind_char(f@, '.');
            }
            match rfind_char_exec(f.as_slice(), '.') {
                None => false,
                Some(k) => {
                    if k == 0 {
                        false
                    } else {
                        let len = f.len();
                        let e = copy_range(f.as_slice(), k + 1, len);
                        assert(e@ =~= f@.skip(k + 1));
                        let l = lower_vec(e.as_slice());
                        let r = l.len() == 3 && l[0] == 't' && l[1] == 'x' && l[2] == 't';
                        proof {
                            if r {
                                assert(l@ =~= seq!['t', 'x', 't']);
                            }
                        }
                        r
                    }
                },
            }
        },
    }
}

/// The kind of an exported media file: WhatsApp's `-PHOTO-` style name
/// markers first, then the extension of the file name.
pub open spec fn spec_classify_export(filename: Seq<char>) -> AttachmentKind {
    let base = file_name_or_self(filename);
    let upper = upper_seq(base);
    if contains_seq(upper, "-GIF-"@) {
        AttachmentKind::Gif
    } else if contains_seq(upper, "-AUDIO-"@) {
        AttachmentKind::Audio
    } else if contains_seq(upper, "-PHOTO-"@) {
        AttachmentKind::Photo
    } else if contains_seq(upper, "-STICKER-"@) {
        AttachmentKind::Sticker
    } else if contains_seq(upper, "-VIDEO-"@) {
        AttachmentKind::Video
    } else {
        spec_kind_from_filename(base)
    }
}

pub fn classify_chars(filename: &[char]) -> (k: AttachmentKind)
    ensures
        k == spec_classify_export(filename@),
{
    let base = file_name_or_self_exec(filename);
    let upper = upper_vec(base.as_slice());
    let u = upper.as_slice();
    if contains_exec(u, chars_of("-GIF-").as_slice()) {
        AttachmentKind::Gif
    } else if contains_exec(u, chars_of("-AUDIO-").as_slice()) {
        AttachmentKind::Audio
    } else if contains_exec(u, chars_of("-PHOTO-").as_slice()) {
        AttachmentKind::Photo
    } else if contains_exec(u, chars_of("-STICKER-").as_slice()) {
        AttachmentKind::Sticker
    } else if contains_exec(u, chars_of("-VIDEO-").as_slice()) {
        AttachmentKind::Video
    } else {
        kind_from_filename_chars(base.as_slice())
    }
}

/// The kind of a media file in a WhatsApp export.
pub fn classify_whatsapp_export_attachment(filename: &str) -> (k: AttachmentKind)
    ensures
        k == spec_classify_export(filename@),
{
    classify_chars(chars_of(filename).as_slice())
}

// ---------------------------------------------------------------------------
// The archive
// ---------------------------------------------------------------------------

/// What the archive's central directory lists, entry by entry: `None` for an
/// entry that cannot be opened, else its name, uncompressed size, and what
/// reading its content gives: the bytes delivered, and whether the read ended
/// without an error. The whole is `None` when the bytes cannot be opened as a
/// ZIP archive.
pub uninterp spec fn zip_directory(archive_bytes: Seq<u8>) -> Option<
    Seq<Option<(Seq<char>, u64, (Seq<u8>, bool))>>,
>;

/// The entries of an open archive, as `zip_directory` describes them.
pub uninterp spec fn zip_entries(archive: zip::ZipArchive<std::io::Cursor<Vec<u8>>>) -> Seq<
    Option<(Seq<char>, u64, (Seq<u8>, bool))>,
>;

/// `ZipArchive::new` over the bytes of an archive: it fails exactly when the
/// bytes cannot be opened as an archive; on success, its entries are those that
/// the central directory of these bytes lists.
#[verifier::external_body]
fn open_zip(bytes: Vec<u8>) -> (r: Result<
    zip::ZipArchive<std::io::Cursor<Vec<u8>>>,
    zip::result::ZipError,
>)
    ensures
        match zip_directory(bytes@) {
            None => r is Err,
            Some(l) => r matches Ok(a) && zip_entries(a) == l,
        },
{
    zip::ZipArchive::new(std::io::Cursor::new(bytes))
}

/// `ZipArchive::len`: the number of entries.
#[verifier::external_body]
fn zip_len(a: &zip::ZipArchive<std::io::Cursor<Vec<u8>>>) -> (n: usize)
    ensures
        n == zip_entries(*a).len(),
{
    a.len()
}

/// `ZipArchive::by_index` with `ZipFile::name`, `is_dir` and `size`: the entry's
/// name, whether the name ends with `/` or `\\`, and its uncompressed size;
/// an error exactly for an entry that cannot be opened.
#[verifier::external_body]
fn zip_entry_meta(a: &mut zip::ZipArchive<std::io::Cursor<Vec<u8>>>, i: usize) -> (r: Result<
    (String, bool, u64),
    zip::result::ZipError,
>)
    requires
        i < zip_entries(*old(a)).len(),
    ensures
        zip_entries(*final(a)) == zip_entries(*old(a)),
        match r {
            Ok((name, is_dir, size)) => zip_entries(*old(a))[i as int] matches Some((n, s, _)) && n
                == name@ && s == size && is_dir == name_is_dir(name@),
            Err(_) => zip_entries(*old(a))[i as int] is None,
        },
{
    let file = a.by_index(i)?;
    Ok((file.name().to_owned(), file.is_dir(), file.size()))
}

/// `ZipArchive::by_index` with `Read::read_to_end`: an error exactly for an
/// entry that cannot be opened; else the bytes that the read delivered (std's
/// `read_to_end` keeps in its buffer what it read before an error) and the
/// read's error, if there was one.
#[verifier::external_body]
fn zip_entry_read(a: &mut zip::ZipArchive<std::io::Cursor<Vec<u8>>>, i: usize) -> (r: Result<
    (Vec<u8>, Option<std::io::Error>),
    zip::result::ZipError,
>)
    requires
        i < zip_entries(*old(a)).len(),
    ensures
        zip_entries(*final(a)) == zip_entries(*old(a)),
        match r {
            Ok((v, e)) => zip_entries(*old(a))[i as int] matches Some((_, _, (d, clean))) && v@ == d
                && (e is None <==> clean),
            Err(_) => zip_entries(*old(a))[i as int] is None,
        },
{
    let mut file = a.by_index(i)?;
    let mut bytes = Vec::new();
    let error = std::io::Read::read_to_end(&mut file, &mut bytes).err();
    Ok((bytes, error))
}

/// An entry's whole content: a ZIP error when the entry cannot be opened, an
/// I/O error when reading it fails.
fn zip_entry_bytes(a: &mut zip::ZipArchive<std::io::Cursor<Vec<u8>>>, i: usize) -> (r: Result<
    Vec<u8>,
    ExportZipError,
>)
    requires
        i < zip_entries(*old(a)).len(),
    ensures
        zip_entries(*final(a)) == zip_entries(*old(a)),
        match r {
            Ok(v) => zip_entries(*old(a))[i as int] matches Some((_, _, (d, true))) && v@ == d,
            Err(e) => match zip_entries(*old(a))[i as int] {
                None => e is Zip,
                Some((_, _, (_, clean))) => !clean && e is Io,
            },
        },
{
    match zip_entry_read(a, i) {
        Err(e) => Err(ExportZipError::Zip(e)),
        Ok((v, None)) => Ok(v),
        Ok((_, Some(e))) => Err(ExportZipError::Io(e)),
    }
}

pub type ZipListing = Seq<Option<(Seq<char>, u64, (Seq<u8>, bool))>>;

/// Every entry of the listing can be opened.
pub open spec fn listing_ok(l: ZipListing) -> bool {
    forall|k: int| 0 <= k < l.len() ==> (#[trigger] l[k]) is Some
}

/// The transcript files of a listing: non-directory `.txt` entries, by index
/// and normalized name.
pub open spec fn transcript_candidates(l: ZipListing) -> Seq<(int, Seq<char>)>
    decreases l.len(),
{
    if l.len() == 0 {
        seq![]
    } else {
        let k = l.len() - 1;
        transcript_candidates(l.drop_last()) + match l[k] {
            Some((name, _, _)) => if !name_is_dir(name) && normalized_archive_name(name) is Some
                && is_transcript_name(normalized_archive_name(name).unwrap()) {
                seq![(k, normalized_archive_name(name).unwrap())]
            } else {
                seq![]
            },
            None => seq![],
        }
    }
}

pub open spec fn is_canonical_transcript(name: Seq<char>) -> bool {
    file_name(name) == Some("_chat.txt"@)
}

pub open spec fn canonical_candidates(c: Seq<(int, Seq<char>)>) -> Seq<(int, Seq<char>)>
    decreases c.len(),
{
    if c.len() == 0 {
        seq![]
    } else {
        canonical_candidates(c.drop_last()) + if is_canonical_transcript(c.last().1) {
            seq![c.last()]
        } else {
            seq![]
        }
    }
}

/// The transcript: the only `.txt` entry, or else the only `_chat.txt` one.
/// `Err(None)` when there is none; `Err(Some(names))` when it is ambiguous.
pub open spec fn choose_transcript(c: Seq<(int, Seq<char>)>) -> Result<
    (int, Seq<char>),
    Option<Seq<Seq<char>>>,
> {
    if c.len() == 0 {
        Err(None)
    } else if c.len() == 1 {
        Ok(c[0])
    } else if canonical_candidates(c).len() == 1 {
        Ok(canonical_candidates(c)[0])
    } else {
        Err(Some(c.map_values(|x: (int, Seq<char>)| x.1)))
    }
}

pub open spec fn export_attachment_id(index: int) -> Seq<char> {
    "export-attachment-"@ + zero_pad(decimal(index as nat), 8)
}

/// Every non-directory entry other than the transcript, as an attachment.
pub open spec fn collected_attachments(l: ZipListing, transcript: Seq<char>) -> Seq<AttachmentV>
    decreases l.len(),
{
    if l.len() == 0 {
        seq![]
    } else {
        let k = l.len() - 1;
        collected_attachments(l.drop_last(), transcript) + match l[k] {
            Some((name, size, _)) => match normalized_archive_name(name) {
                Some(p) => if !name_is_dir(name) && p != transcript {
                    let f = file_name_or_self(p);
                    seq![
                        AttachmentV {
                            id: export_attachment_id(k),
                            archive_path: p,
                            filename: f,
                            kind: spec_classify_export(f),
                            size_bytes: size,
                        },
                    ]
                } else {
                    seq![]
                },
                None => seq![],
            },
            None => seq![],
        }
    }
}

/// What importing an archive with a given listing comes to.
pub enum ImportOutcome {
    EntryUnreadable,
    NoTranscript,
    MultipleTranscripts(Seq<Seq<char>>),
    TranscriptUnreadable,
    MessageTooLarge,
    Imported(ChatImportV, usize),
}

pub open spec fn spec_import(l: ZipListing, max: Option<usize>) -> ImportOutcome {
    if !listing_ok(l) {
        ImportOutcome::EntryUnreadable
    } else {
        match choose_transcript(transcript_candidates(l)) {
            Err(None) => ImportOutcome::NoTranscript,
            Err(Some(names)) => ImportOutcome::MultipleTranscripts(names),
            Ok((idx, name)) => match l[idx] {
                Some((_, _, (data, clean))) => match transcript_read(max, data, clean) {
                    TranscriptRead::TooLarge => ImportOutcome::MessageTooLarge,
                    TranscriptRead::ReadFailed => ImportOutcome::TranscriptUnreadable,
                    TranscriptRead::Parsed(st) => {
                        let imp = transcript_import(st, collected_attachments(l, name));
                        ImportOutcome::Imported(
                            ChatImportV {
                                source_kind: imp.source_kind,
                                transcript_name: Some(name),
                                messages: imp.messages,
                                attachments: imp.attachments,
                                issues: imp.issues,
                            },
                            st.skipped,
                        )
                    },
                },
                None => ImportOutcome::TranscriptUnreadable,
            },
        }
    }
}

pub open spec fn outcome_matches(
    o: ImportOutcome,
    r: Result<WhatsappExportImportResult, ExportZipError>,
) -> bool {
    match o {
        ImportOutcome::EntryUnreadable => r is Err && r->Err_0 is Zip,
        ImportOutcome::NoTranscript => r is Err && r->Err_0 is NoTranscript,
        ImportOutcome::MultipleTranscripts(names) => r is Err && (r->Err_0 matches ExportZipError::MultipleTranscripts(v) && strings_view(v@) == names),
        ImportOutcome::TranscriptUnreadable => r is Err && r->Err_0 is Io,
        ImportOutcome::MessageTooLarge => r is Err && r->Err_0 is MessageTooLarge,
        ImportOutcome::Imported(imp, skipped) => r is Ok && r->Ok_0.imported@ == imp
            && r->Ok_0.skipped_message_count == skipped,
    }
}

pub open spec fn meta_matches(e: Option<(Seq<char>, u64, (Seq<u8>, bool))>, m: (String, bool, u64)) -> bool {
    e matches Some((n, s, _)) && m.0@ == n && m.2 == s && m.1 == name_is_dir(n)
}

pub open spec fn cands_view(c: Seq<(usize, Vec<char>)>) -> Seq<(int, Seq<char>)> {
    c.map_values(|x: (usize, Vec<char>)| (x.0 as int, x.1@))
}

fn is_canonical_exec(p: &[char]) -> (b: bool)
    ensures
        b == is_canonical_transcript(p@),
{
    match file_name_exec(p) {
        Some(f) => eq_str(f.as_slice(), "_chat.txt"),
        None => false,
    }
}

pub fn export_attachment_id_exec(index: usize) -> (r: String)
    ensures
        r@ == export_attachment_id(index as int),
{
    let mut v = chars_of("export-attachment-");
    let d = zero_pad_exec(decimal_exec(index as u64), 8);
    append_all(&mut v, d.as_slice());
    string_of(v)
}

#[verifier::spinoff_prover]
fn choose_transcript_exec(cands: &Vec<(usize, Vec<char>)>, n: usize) -> (r: Result<
    (usize, Vec<char>),
    Option<Vec<String>>,
>)
    requires
        forall|i: int| 0 <= i < cands@.len() ==> (#[trigger] cands@[i]).0 < n,
    ensures
        match r {
            Ok((k, name)) => k < n && choose_transcript(cands_view(cands@)) == Ok::<
                (int, Seq<char>),
                Option<Seq<Seq<char>>>,
            >((k as int, name@)),
            Err(None) => choose_transcript(cands_view(cands@)) == Err::<
                (int, Seq<char>),
                Option<Seq<Seq<char>>>,
            >(None),
            Err(Some(names)) => choose_transcript(cands_view(cands@)) == Err::<
                (int, Seq<char>),
                Option<Seq<Seq<char>>>,
            >(Some(strings_view(names@))),
        },
{
    let ghost cv = cands_view(cands@);
    if cands.len() == 0 {
        return Err(None);
    }
    if cands.len() == 1 {
        let c = &cands[0];
        assert(cv[0] == (c.0 as int, c.1@));
        let copy = copy_range(c.1.as_slice(), 0, c.1.len());
        assert(copy@ =~= c.1@);
        return Ok((c.0, copy));
    }
    let mut canon: Vec<(usize, Vec<char>)> = Vec::new();
    let mut j: usize = 0;
    assert(cands_view(canon@) =~= canonical_candidates(cv.take(0)));
    while j < cands.len()
        invariant
            j <= cands@.len(),
            cv == cands_view(cands@),
            cands_view(canon@) == canonical_candidates(cv.take(j as int)),
            forall|i: int| 0 <= i < canon@.len() ==> (#[trigger] canon@[i]).0 < n,
            forall|i: int| 0 <= i < cands@.len() ==> (#[trigger] cands@[i]).0 < n,
        decreases cands@.len() - j,
    {
        assert(cv.take(j + 1).drop_last() =~= cv.take(j as int));
        assert(cv.take(j + 1).last() == cv[j as int]);
        let ghost before = cands_view(canon@);
        let c = &cands[j];
        assert(cv[j as int] == (c.0 as int, c.1@));
        if is_canonical_exec(c.1.as_slice()) {
            let copy = copy_range(c.1.as_slice(), 0, c.1.len());
            assert(copy@ =~= c.1@);
            canon.push((c.0, copy));
            assert(cands_view(canon@) =~= before.push(cv[j as int]));
        }
        j += 1;
    }
    assert(cv.take(cands@.len() as int) =~= cv);
    if canon.len() == 1 {
        let c = &canon[0];
        assert(cands_view(canon@)[0] == (c.0 as int, c.1@));
        let copy = copy_range(c.1.as_slice(), 0, c.1.len());
        assert(copy@ =~= c.1@);
        return Ok((c.0, copy));
    }
    let mut names: Vec<String> = Vec::new();
    let mut j: usize = 0;
    while j < cands.len()
        invariant
            j <= cands@.len(),
            cv == cands_view(cands@),
            strings_view(names@) == cv.take(j as int).map_values(|x: (int, Seq<char>)| x.1),
        decreases cands@.len() - j,
    {
        let ghost before = strings_view(names@);
        let c = &cands[j];
        assert(cv[j as int] == (c.0 as int, c.1@));
        let copy = copy_range(c.1.as_slice(), 0, c.1.len());
        assert(copy@ =~= c.1@);
        let s = string_of(copy);
        names.push(s);
        assert(strings_view(names@) =~= before.push(cv[j as int].1));
        assert(cv.take(j + 1).map_values(|x: (int, Seq<char>)| x.1) =~= cv.take(j as int).map_values(
            |x: (int, Seq<char>)| x.1,
        ).push(cv[j as int].1));
        j += 1;
    }
    assert(cv.take(cands@.len() as int) =~= cv);
    Err(Some(names))
}

/// Imports the chat of an open archive.
#[verifier::spinoff_prover]
fn import_from_archive(
    a: &mut zip::ZipArchive<std::io::Cursor<Vec<u8>>>,
    options: WhatsappExportImportOptions,
) -> (r: Result<WhatsappExportImportResult, ExportZipError>)
    ensures
        outcome_matches(spec_import(zip_entries(*old(a)), options.max_messages), r),
{
    let ghost l = zip_entries(*a);
    let n = zip_len(a);
    let mut metas: Vec<(String, bool, u64)> = Vec::new();
    let mut k: usize = 0;
    while k < n
        invariant
            n == l.len(),
            zip_entries(*a) == l,
            l == zip_entries(*old(a)),
            k <= n,
            metas@.len() == k,
            forall|j: int| 0 <= j < k ==> meta_matches(l[j], #[trigger] metas@[j]),
        decreases n - k,
    {
        match zip_entry_meta(a, k) {
            Err(e) => {
                assert(!listing_ok(l));
                return Err(ExportZipError::Zip(e));
            },
            Ok(m) => {
                metas.push(m);
            },
        }
        k += 1;
    }
    assert(listing_ok(l)) by {
        assert forall|j: int| 0 <= j < l.len() implies (#[trigger] l[j]) is Some by {
            assert(meta_matches(l[j], metas@[j]));
        }
    }
    // Transcript candidates.
    let mut cands: Vec<(usize, Vec<char>)> = Vec::new();
    let mut k: usize = 0;
    assert(cands_view(cands@) =~= transcript_candidates(l.take(0)));
    while k < n
        invariant
            n == l.len(),
            k <= n,
            metas@.len() == n,
            forall|j: int| 0 <= j < n ==> meta_matches(l[j], #[trigger] metas@[j]),
            cands_view(cands@) == transcript_candidates(l.take(k as int)),
            forall|j: int| 0 <= j < cands@.len() ==> (#[trigger] cands@[j]).0 < n,
        decreases n - k,
    {
        assert(l.take(k + 1).drop_last() =~= l.take(k as int));
        assert(l.take(k + 1)[k as int] == l[k as int]);
        assert(meta_matches(l[k as int], metas@[k as int]));
        let name = chars_of(metas[k].0.as_str());
        let ghost before = cands_view(cands@);
        if !metas[k].1 {
            match normalized_archive_name_exec(name.as_slice()) {
                Some(p) => {
                    if is_transcript_name_exec(p.as_slice()) {
                        cands.push((k, p));
                        assert(cands_view(cands@) =~= before.push(
                            (k as int, normalized_archive_name(name@).unwrap()),
                        ));
                    }
                },
                None => {},
            }
        }
        k += 1;
    }
    assert(l.take(n as int) =~= l);
    let (tindex, tname) = match choose_transcript_exec(&cands, n) {
        Ok(x) => x,
        Err(None) => {
            return Err(ExportZipError::NoTranscript);
        },
        Err(Some(names)) => {
            return Err(ExportZipError::MultipleTranscripts(names));
        },
    };
    // Attachments: every other file.
    let mut atts: Vec<Attachment> = Vec::new();
    let mut k: usize = 0;
    assert(attachments_view(atts@) =~= collected_attachments(l.take(0), tname@));
    while k < n
        invariant
            n == l.len(),
            k <= n,
            metas@.len() == n,
            forall|j: int| 0 <= j < n ==> meta_matches(l[j], #[trigger] metas@[j]),
            attachments_view(atts@) == collected_attachments(l.take(k as int), tname@),
        decreases n - k,
    {
        assert(l.take(k + 1).drop_last() =~= l.take(k as int));
        assert(l.take(k + 1)[k as int] == l[k as int]);
        assert(meta_matches(l[k as int], metas@[k as int]));
        let name = chars_of(metas[k].0.as_str());
        let ghost before = attachments_view(atts@);
        match normalized_archive_name_exec(name.as_slice()) {
            Some(p) => {
                if !metas[k].1 && !chars_eq(p.as_slice(), tname.as_slice()) {
                    let filename = file_name_or_self_exec(p.as_slice());
                    let kind = classify_chars(filename.as_slice());
                    let att = Attachment {
                        id: export_attachment_id_exec(k),
                        archive_path: string_of(p),
                        filename: string_of(filename),
                        kind,
                        size_bytes: metas[k].2,
                    };
                    atts.push(att);
                    assert(attachments_view(atts@) =~= collected_attachments(
                        l.take(k + 1),
                        tname@,
                    ));
                } else {
                    assert(attachments_view(atts@) =~= collected_attachments(
                        l.take(k + 1),
                        tname@,
                    ));
                }
            },
            None => {
                assert(attachments_view(atts@) =~= collected_attachments(l.take(k + 1), tname@));
            },
        }
        k += 1;
    }
    assert(l.take(n as int) =~= l);
    let (data, read_error) = match zip_entry_read(a, tindex) {
        Ok(d) => d,
        Err(e) => {
            return Err(ExportZipError::Zip(e));
        },
    };
    let mut result = read_transcript(data.as_slice(), read_error, atts.as_slice(), options)?;
    result.imported.transcript_name = Some(string_of(tname));
    Ok(result)
}

/// What importing the bytes of an archive comes to: a ZIP error when they
/// cannot be opened, else what the archive's listing gives.
pub open spec fn archive_import_matches(
    archive: Seq<u8>,
    max: Option<usize>,
    r: Result<WhatsappExportImportResult, ExportZipError>,
) -> bool {
    match zip_directory(archive) {
        None => r is Err && r->Err_0 is Zip,
        Some(l) => outcome_matches(spec_import(l, max), r),
    }
}

/// Imports a WhatsApp export ZIP, keeping the options' recent-message window.
pub fn import_whatsapp_export_zip_with_options(
    archive: Vec<u8>,
    options: WhatsappExportImportOptions,
) -> (r: Result<WhatsappExportImportResult, ExportZipError>)
    ensures
        archive_import_matches(archive@, options.max_messages, r),
{
    let mut a = match open_zip(archive) {
        Ok(a) => a,
        Err(e) => {
            return Err(ExportZipError::Zip(e));
        },
    };
    import_from_archive(&mut a, options)
}

/// Imports a WhatsApp export ZIP with the default recent-message window.
pub fn import_whatsapp_export_zip(archive: Vec<u8>) -> (r: Result<ChatImport, ExportZipError>)
    ensures
        match zip_directory(archive@) {
            None => r is Err && r->Err_0 is Zip,
            Some(l) => match spec_import(l, Some(DEFAULT_WHATSAPP_EXPORT_IMPORT_MAX_MESSAGES)) {
                ImportOutcome::Imported(imp, _) => r is Ok && r->Ok_0@ == imp,
                o => r is Err && outcome_matches(o, Err(r->Err_0)),
            },
        },
{
    let r = import_whatsapp_export_zip_with_options(archive, WhatsappExportImportOptions::default());
    match r {
        Ok(res) => Ok(res.imported),
        Err(e) => Err(e),
    }
}

// ---------------------------------------------------------------------------
// Reading attachment payloads
// ---------------------------------------------------------------------------

pub struct PayloadV {
    pub filename: Seq<char>,
    pub kind: AttachmentKind,
    pub size_bytes: u64,
    pub bytes: Seq<u8>,
}

impl View for ExportAttachmentPayload {
    type V = PayloadV;

    open spec fn view(&self) -> PayloadV {
        PayloadV {
            filename: self.filename@,
            kind: self.kind,
            size_bytes: self.size_bytes,
            bytes: self.bytes@,
        }
    }
}

pub open spec fn pairs_view(v: Seq<(String, ExportAttachmentPayload)>) -> Seq<(Seq<char>, PayloadV)> {
    v.map_values(|x: (String, ExportAttachmentPayload)| (x.0@, x.1@))
}

pub open spec fn strs_view(v: Seq<&str>) -> Seq<Seq<char>> {
    v.map_values(|s: &str| s@)
}

/// The normalized forms of the requested paths that have one.
pub open spec fn requested_paths(paths: Seq<Seq<char>>) -> Seq<Seq<char>>
    decreases paths.len(),
{
    if paths.len() == 0 {
        seq![]
    } else {
        requested_paths(paths.drop_last()) + match normalized_archive_name(paths.last()) {
            Some(p) => seq![p],
            None => seq![],
        }
    }
}

/// `s` without any occurrence of `p`.
pub open spec fn remove_all(s: Seq<Seq<char>>, p: Seq<char>) -> Seq<Seq<char>>
    decreases s.len(),
{
    if s.len() == 0 {
        seq![]
    } else {
        remove_all(s.drop_last(), p) + if s.last() == p {
            seq![]
        } else {
            seq![s.last()]
        }
    }
}

pub proof fn lemma_remove_all(s: Seq<Seq<char>>, p: Seq<char>)
    ensures
        !remove_all(s, p).contains(p),
        forall|x: Seq<char>| x != p ==> (remove_all(s, p).contains(x) <==> s.contains(x)),
        remove_all(s, p).len() <= s.len(),
    decreases s.len(),
{
    if s.len() > 0 {
        let d = s.drop_last();
        lemma_remove_all(d, p);
        let r = remove_all(d, p);
        let full = remove_all(s, p);
        assert forall|x: Seq<char>| x != p implies (full.contains(x) <==> s.contains(x)) by {
            if s.contains(x) {
                let k = choose|k: int| 0 <= k < s.len() && s[k] == x;
                if k < s.len() - 1 {
                    assert(d[k] == x);
                    assert(d.contains(x));
                    assert(r.contains(x));
                    let k2 = choose|k2: int| 0 <= k2 < r.len() && r[k2] == x;
                    assert(full[k2] == x);
                } else {
                    assert(full[r.len() as int] == x);
                }
            }
            if full.contains(x) {
                let k = choose|k: int| 0 <= k < full.len() && full[k] == x;
                if k < r.len() {
                    assert(r[k] == x);
                    assert(r.contains(x));
                    assert(d.contains(x));
                    let j = choose|j: int| 0 <= j < d.len() && d[j] == x;
                    assert(s[j] == x);
                } else {
                    assert(s[s.len() - 1] == x);
                }
            }
        }
        if full.contains(p) {
            let k = choose|k: int| 0 <= k < full.len() && full[k] == p;
            assert(k < r.len());
            assert(r[k] == p);
            assert(r.contains(p));
        }
    }
}

/// Why reading the requested payloads failed: an entry could not be opened,
/// or a requested entry's content could not be read.
pub enum PayloadFailure {
    Unopenable,
    Unreadable,
}

/// The payloads found for the requested paths, reading the archive's entries
/// in order until every request is settled, or why reading them failed.
pub open spec fn payload_fold(
    l: ZipListing,
    k: int,
    remaining: Seq<Seq<char>>,
    acc: Seq<(Seq<char>, PayloadV)>,
    max: u64,
) -> Result<Seq<(Seq<char>, PayloadV)>, PayloadFailure>
    decreases l.len() - k,
{
    if remaining.len() == 0 || k >= l.len() || k < 0 {
        Ok(acc)
    } else {
        match l[k] {
            None => Err(PayloadFailure::Unopenable),
            Some((name, size, data)) => if name_is_dir(name) {
                payload_fold(l, k + 1, remaining, acc, max)
            } else {
                match normalized_archive_name(name) {
                    None => payload_fold(l, k + 1, remaining, acc, max),
                    Some(p) => if !remaining.contains(p) {
                        payload_fold(l, k + 1, remaining, acc, max)
                    } else if size > max {
                        payload_fold(l, k + 1, remove_all(remaining, p), acc, max)
                    } else {
                        if !data.1 {
                            Err(PayloadFailure::Unreadable)
                        } else {
                            let f = file_name_or_self(p);
                            payload_fold(
                                l,
                                k + 1,
                                remove_all(remaining, p),
                                acc.push(
                                    (
                                        p,
                                        PayloadV {
                                            filename: f,
                                            kind: spec_classify_export(f),
                                            size_bytes: size,
                                            bytes: data.0,
                                        },
                                    ),
                                ),
                                max,
                            )
                        }
                    },
                }
            },
        }
    }
}

/// The first entry, from index `k` on, that is a file whose normalized name
/// is `p`.
pub open spec fn first_entry_named(l: ZipListing, k: int, p: Seq<char>) -> Option<int>
    decreases l.len() - k,
{
    if k < 0 || k >= l.len() {
        None
    } else if l[k] matches Some((name, _, _)) && !name_is_dir(name) && normalized_archive_name(name)
        == Some(p) {
        Some(k)
    } else {
        first_entry_named(l, k + 1, p)
    }
}

/// What reading one attachment out of a listing whose entries all open comes
/// to: nothing when no file bears the name or the first that does is over the
/// size limit; else that first file's payload, or a failure when it cannot be
/// read.
pub open spec fn single_payload(l: ZipListing, p: Seq<char>, max: u64) -> Option<
    Option<PayloadV>,
> {
    match first_entry_named(l, 0, p) {
        None => Some(None),
        Some(k) => match l[k] {
            Some((_, size, data)) => if size > max {
                Some(None)
            } else {
                if !data.1 {
                    None
                } else {
                    Some(
                        Some(
                            PayloadV {
                                filename: file_name_or_self(p),
                                kind: spec_classify_export(file_name_or_self(p)),
                                size_bytes: size,
                                bytes: data.0,
                            },
                        ),
                    )
                }
            },
            None => None,
        },
    }
}

proof fn lemma_single_fold(l: ZipListing, k: int, p: Seq<char>, max: u64)
    requires
        listing_ok(l),
        0 <= k <= l.len(),
    ensures
        match payload_fold(l, k, seq![p], seq![], max) {
            Err(_) => first_entry_named(l, k, p) matches Some(j) && l[j] matches Some((_, size, (_, false)))
                && size <= max,
            Ok(acc) => match first_entry_named(l, k, p) {
                None => acc.len() == 0,
                Some(j) => l[j] matches Some((_, size, data)) && if size > max {
                    acc.len() == 0
                } else {
                    data matches (d, true) && acc == seq![
                        (
                            p,
                            PayloadV {
                                filename: file_name_or_self(p),
                                kind: spec_classify_export(file_name_or_self(p)),
                                size_bytes: size,
                                bytes: d,
                            },
                        ),
                    ]
                },
            },
        },
    decreases l.len() - k,
{
    assert(seq![p].contains(p)) by {
        assert(seq![p][0] == p);
    }
    assert(remove_all(seq![p], p) =~= Seq::<Seq<char>>::empty()) by {
        assert(seq![p].drop_last() =~= Seq::<Seq<char>>::empty());
        assert(seq![p].last() == p);
        assert(remove_all(Seq::<Seq<char>>::empty(), p) =~= Seq::<Seq<char>>::empty());
        assert(remove_all(seq![p], p) =~= remove_all(seq![p].drop_last(), p) + Seq::<Seq<char>>::empty());
    }
    if k < l.len() {
        assert(l[k] is Some);
        let name = match l[k] {
            Some((n, _, _)) => n,
            None => Seq::<char>::empty(),
        };
        if !name_is_dir(name) && normalized_archive_name(name) is Some
            && normalized_archive_name(name) != Some(p) {
            let q = normalized_archive_name(name)->0;
            assert(!seq![p].contains(q)) by {
                if seq![p].contains(q) {
                    let i = choose|i: int| 0 <= i < 1 && seq![p][i] == q;
                    assert(seq![p][i] == p);
                }
            }
        }
        if !(!name_is_dir(name) && normalized_archive_name(name) == Some(p)) {
            lemma_single_fold(l, k + 1, p, max);
        } else {
            assert(first_entry_named(l, k, p) == Some(k));
            assert(payload_fold(l, k + 1, Seq::<Seq<char>>::empty(), seq![], max) == Ok::<Seq<(Seq<char>, PayloadV)>, PayloadFailure>(
                Seq::<(Seq<char>, PayloadV)>::empty(),
            ));
            if let Some((_, size, (d, true))) = l[k] {
                let x = (
                    p,
                    PayloadV {
                        filename: file_name_or_self(p),
                        kind: spec_classify_export(file_name_or_self(p)),
                        size_bytes: size,
                        bytes: d,
                    },
                );
                assert(Seq::<(Seq<char>, PayloadV)>::empty().push(x) =~= seq![x]);
                assert(payload_fold(l, k + 1, Seq::<Seq<char>>::empty(), seq![x], max) == Ok::<Seq<(Seq<char>, PayloadV)>, PayloadFailure>(
                    seq![x],
                ));
            }
        }
    }
}

/// Reading one attachment out of an archive whose entries all open gives the
/// first file bearing its name, within the size limit.
pub proof fn lemma_single_attachment_read(l: ZipListing, p: Seq<char>, max: u64)
    requires
        listing_ok(l),
    ensures
        match payload_fold(l, 0, seq![p], seq![], max) {
            Err(_) => single_payload(l, p, max) is None,
            Ok(acc) => single_payload(l, p, max) == Some(find_pair(acc, p)),
        },
{
    lemma_single_fold(l, 0, p, max);
    if let Ok(acc) = payload_fold(l, 0, seq![p], seq![], max) {
        if acc.len() == 0 {
            assert(find_pair(acc, p) is None);
        } else {
            assert(acc[0].0 == p);
        }
    }
}

fn contains_chars(v: &Vec<Vec<char>>, p: &[char]) -> (r: bool)
    ensures
        r == vecs_view(v@).contains(p@),
{
    let mut i: usize = 0;
    while i < v.len()
        invariant
            i <= v@.len(),
            forall|k: int| 0 <= k < i ==> v@[k]@ != p@,
        decreases v@.len() - i,
    {
        if chars_eq(v[i].as_slice(), p) {
            assert(vecs_view(v@)[i as int] == p@);
            return true;
        }
        i += 1;
    }
    assert forall|k: int| 0 <= k < vecs_view(v@).len() implies vecs_view(v@)[k] != p@ by {
        assert(vecs_view(v@)[k] == v@[k]@);
    }
    false
}

fn remove_all_exec(v: &Vec<Vec<char>>, p: &[char]) -> (r: Vec<Vec<char>>)
    ensures
        vecs_view(r@) == remove_all(vecs_view(v@), p@),
{
    let ghost vv = vecs_view(v@);
    let mut r: Vec<Vec<char>> = Vec::new();
    let mut i: usize = 0;
    assert(vecs_view(r@) =~= remove_all(vv.take(0), p@));
    while i < v.len()
        invariant
            i <= v@.len(),
            vv == vecs_view(v@),
            vecs_view(r@) == remove_all(vv.take(i as int), p@),
        decreases v@.len() - i,
    {
        assert(vv.take(i + 1).drop_last() =~= vv.take(i as int));
        assert(vv.take(i + 1).last() == v@[i as int]@);
        let ghost before = vecs_view(r@);
        if !chars_eq(v[i].as_slice(), p) {
            let c = copy_range(v[i].as_slice(), 0, v[i].len());
            assert(c@ =~= v@[i as int]@);
            r.push(c);
            assert(vecs_view(r@) =~= before.push(v@[i as int]@));
        } else {
            assert(remove_all(vv.take(i + 1), p@) =~= remove_all(vv.take(i as int), p@));
        }
        i += 1;
    }
    assert(vv.take(v@.len() as int) =~= vv);
    r
}

fn requested_paths_exec(paths: &[&str]) -> (r: Vec<Vec<char>>)
    ensures
        vecs_view(r@) == requested_paths(strs_view(paths@)),
{
    let ghost pv = strs_view(paths@);
    let mut r: Vec<Vec<char>> = Vec::new();
    let mut i: usize = 0;
    assert(vecs_view(r@) =~= requested_paths(pv.take(0)));
    while i < paths.len()
        invariant
            i <= paths@.len(),
            pv == strs_view(paths@),
            vecs_view(r@) == requested_paths(pv.take(i as int)),
        decreases paths@.len() - i,
    {
        assert(pv.take(i + 1).drop_last() =~= pv.take(i as int));
        assert(pv.take(i + 1).last() == paths@[i as int]@);
        let ghost before = vecs_view(r@);
        let c = chars_of(paths[i]);
        match normalized_archive_name_exec(c.as_slice()) {
            Some(p) => {
                r.push(p);
                assert(vecs_view(r@) =~= before + seq![normalized_archive_name(c@).unwrap()]);
            },
            None => {
                assert(requested_paths(pv.take(i + 1)) =~= requested_paths(pv.take(i as int)));
            },
        }
        i += 1;
    }
    assert(pv.take(paths@.len() as int) =~= pv);
    r
}

/// Reads the requested entries of an open archive.
#[verifier::spinoff_prover]
fn read_payloads_from_archive(
    a: &mut zip::ZipArchive<std::io::Cursor<Vec<u8>>>,
    requested: Vec<Vec<char>>,
    max_size_bytes: u64,
) -> (r: Result<Vec<(String, ExportAttachmentPayload)>, ExportZipError>)
    ensures
        match payload_fold(zip_entries(*old(a)), 0, vecs_view(requested@), seq![], max_size_bytes) {
            Err(PayloadFailure::Unopenable) => r is Err && r->Err_0 is Zip,
            Err(PayloadFailure::Unreadable) => r is Err && r->Err_0 is Io,
            Ok(acc) => r is Ok && pairs_view(r->Ok_0@) == acc,
        },
{
    let ghost l = zip_entries(*a);
    let ghost req = vecs_view(requested@);
    let n = zip_len(a);
    let mut remaining = requested;
    let mut out: Vec<(String, ExportAttachmentPayload)> = Vec::new();
    assert(pairs_view(out@) =~= seq![]);
    let mut k: usize = 0;
    while k < n
        invariant
            n == l.len(),
            l == zip_entries(*a),
            l == zip_entries(*old(a)),
            req == vecs_view(requested@),
            k <= n,
            payload_fold(l, k as int, vecs_view(remaining@), pairs_view(out@), max_size_bytes)
                == payload_fold(l, 0, req, seq![], max_size_bytes),
        decreases n - k,
    {
        if remaining.len() == 0 {
            assert(vecs_view(remaining@).len() == 0);
            return Ok(out);
        }
        let ghost rv = vecs_view(remaining@);
        assert(rv.len() > 0);
        let meta = zip_entry_meta(a, k);
        let (raw_name, is_dir, size) = match meta {
            Err(e) => {
                assert(payload_fold(l, k as int, rv, pairs_view(out@), max_size_bytes) == Err::<Seq<(Seq<char>, PayloadV)>, PayloadFailure>(PayloadFailure::Unopenable));
                return Err(ExportZipError::Zip(e));
            },
            Ok(m) => m,
        };
        if !is_dir {
            let name = chars_of(raw_name.as_str());
            match normalized_archive_name_exec(name.as_slice()) {
                None => {},
                Some(p) => {
                    if contains_chars(&remaining, p.as_slice()) {
                        let next = remove_all_exec(&remaining, p.as_slice());
                        if size > max_size_bytes {
                            remaining = next;
                        } else {
                            let bytes = zip_entry_bytes(a, k)?;
                            let ghost bv = bytes@;
                            let filename = file_name_or_self_exec(p.as_slice());
                            let kind = classify_chars(filename.as_slice());
                            let payload = ExportAttachmentPayload {
                                filename: string_of(filename),
                                kind,
                                size_bytes: size,
                                bytes,
                            };
                            let ghost before = pairs_view(out@);
                            let ghost pp = p@;
                            out.push((string_of(p), payload));
                            assert(pairs_view(out@) =~= before.push(
                                (
                                    pp,
                                    PayloadV {
                                        filename: file_name_or_self(pp),
                                        kind: spec_classify_export(file_name_or_self(pp)),
                                        size_bytes: size,
                                        bytes: bv,
                                    },
                                ),
                            ));
                            remaining = next;
                        }
                    }
                },
            }
        }
        k += 1;
    }
    Ok(out)
}

/// Reads the payloads of the requested attachments (paths normalized like
/// entry names), skipping those over the size limit and those not found. The
/// pairs are keyed by the normalized path.
pub fn read_whatsapp_export_attachments(
    archive: Vec<u8>,
    archive_paths: &[&str],
    max_size_bytes: u64,
) -> (r: Result<Vec<(String, ExportAttachmentPayload)>, ExportZipError>)
    ensures
        requested_paths(strs_view(archive_paths@)).len() == 0 ==> r is Ok && r->Ok_0@.len() == 0,
        requested_paths(strs_view(archive_paths@)).len() > 0 ==> match zip_directory(archive@) {
            None => r is Err && r->Err_0 is Zip,
            Some(l) => match payload_fold(
                l,
                0,
                requested_paths(strs_view(archive_paths@)),
                seq![],
                max_size_bytes,
            ) {
                Err(PayloadFailure::Unopenable) => r is Err && r->Err_0 is Zip,
                Err(PayloadFailure::Unreadable) => r is Err && r->Err_0 is Io,
                Ok(acc) => r is Ok && pairs_view(r->Ok_0@) == acc,
            },
        },
{
    let requested = requested_paths_exec(archive_paths);
    if requested.len() == 0 {
        return Ok(Vec::new());
    }
    let mut a = match open_zip(archive) {
        Ok(a) => a,
        Err(e) => {
            return Err(ExportZipError::Zip(e));
        },
    };
    read_payloads_from_archive(&mut a, requested, max_size_bytes)
}


/// The payload paired with `key`, the first such pair.
pub open spec fn find_pair(v: Seq<(Seq<char>, PayloadV)>, key: Seq<char>) -> Option<PayloadV>
    decreases v.len(),
{
    if v.len() == 0 {
        None
    } else if v[0].0 == key {
        Some(v[0].1)
    } else {
        find_pair(v.drop_first(), key)
    }
}

fn take_pair(pairs: Vec<(String, ExportAttachmentPayload)>, key: &[char]) -> (r: Option<
    ExportAttachmentPayload,
>)
    ensures
        opt_payload_view(r) == find_pair(pairs_view(pairs@), key@),
{
    let ghost pv = pairs_view(pairs@);
    let mut v = pairs;
    let mut i: usize = 0;
    assert(pv.skip(0) =~= pv);
    while i < v.len()
        invariant
            0 <= i <= v@.len(),
            pv == pairs_view(v@),
            pv == pairs_view(pairs@),
            find_pair(pv, key@) == find_pair(pv.skip(i as int), key@),
        decreases v@.len() - i,
    {
        assert(pv.skip(i as int).drop_first() =~= pv.skip(i + 1));
        assert(pv.skip(i as int)[0] == pv[i as int]);
        let k = chars_of(v[i].0.as_str());
        assert(pv[i as int] == (v@[i as int].0@, v@[i as int].1@));
        if chars_eq(k.as_slice(), key) {
            let ghost e = pv[i as int];
            assert(find_pair(pv.skip(i as int), key@) == Some(e.1));
            let (_, pl) = v.remove(i);
            assert(pl@ == e.1);
            return Some(pl);
        }
        i += 1;
    }
    None
}

pub open spec fn opt_payload_view(o: Option<ExportAttachmentPayload>) -> Option<PayloadV> {
    match o {
        Some(p) => Some(p@),
        None => None,
    }
}

/// Reads the payload of one attachment of the archive, at the given path
/// (normalized like entry names); `None` when the path normalizes to nothing,
/// when no entry has it, or when the entry is over the size limit.
pub fn read_whatsapp_export_attachment(
    archive: Vec<u8>,
    archive_path: &str,
    max_size_bytes: u64,
) -> (r: Result<Option<ExportAttachmentPayload>, ExportZipError>)
    ensures
        match normalized_archive_name(archive_path@) {
            None => r matches Ok(None),
            Some(p) => match zip_directory(archive@) {
                None => r is Err && r->Err_0 is Zip,
                Some(l) => match payload_fold(l, 0, seq![p], seq![], max_size_bytes) {
                    Err(PayloadFailure::Unopenable) => r is Err && r->Err_0 is Zip,
                    Err(PayloadFailure::Unreadable) => r is Err && r->Err_0 is Io,
                    Ok(acc) => r is Ok && opt_payload_view(r->Ok_0) == find_pair(acc, p),
                },
            },
        },
{
    let path_chars = chars_of(archive_path);
    let requested = match normalized_archive_name_exec(path_chars.as_slice()) {
        None => {
            return Ok(None);
        },
        Some(p) => p,
    };
    let paths: [&str; 1] = [archive_path];
    proof {
        let sv = strs_view(paths@);
        assert(sv =~= seq![archive_path@]);
        assert(sv.drop_last() =~= Seq::<Seq<char>>::empty());
        assert(requested_paths(sv.drop_last()) =~= Seq::<Seq<char>>::empty());
        assert(sv.last() == path_chars@);
        assert(requested_paths(sv) =~= seq![requested@]);
    }
    let pairs = read_whatsapp_export_attachments(archive, &paths, max_size_bytes)?;
    Ok(take_pair(pairs, requested.as_slice()))
}

} // verus!
