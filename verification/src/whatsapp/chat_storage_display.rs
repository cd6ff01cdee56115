//! What a chat list shows of the raw values in ChatStorage: titles, message
//! previews and sender names with the backup's internal identifiers hidden.
use vstd::prelude::*;

use crate::model::opt_view;
use crate::text::{
    chars_of, is_ascii_alnum, is_ascii_alnum_exec, is_digit, is_digit_exec, matches_at,
    occurs_at, replace_char, replace_char_exec, rfind_char, rfind_char_exec, string_of, trim,
    trim_ws, contains_seq, contains_exec, starts_with, ends_with, starts_with_exec, ends_with_exec,
    copy_range, push_str, lemma_rfind_char, has_char, all_digits,
};

verus! {

pub open spec fn opt_strs_view(v: Seq<Option<&str>>) -> Seq<Option<Seq<char>>> {
    v.map_values(
        |o: Option<&str>|
            match o {
                Some(s) => Some(s@),
                None => None,
            },
    )
}

// ---------------------------------------------------------------------------
// First usable value of a list of candidates
// ---------------------------------------------------------------------------

/// The first present value that is not blank, trimmed.
pub open spec fn first_nonempty_of(values: Seq<Option<Seq<char>>>) -> Option<Seq<char>>
    decreases values.len(),
{
    if values.len() == 0 {
        None
    } else if values[0] is Some && trim_ws(values[0]->0).len() > 0 {
        Some(trim_ws(values[0]->0))
    } else {
        first_nonempty_of(values.drop_first())
    }
}

fn trimmed(s: &str) -> (r: Vec<char>)
    ensures
        r@ == trim_ws(s@),
{
    let c = chars_of(s);
    trim(c.as_slice())
}

/// The first present value that is not blank, trimmed.
pub fn first_nonempty(values: &[Option<&str>]) -> (r: Option<String>)
    ensures
        opt_view(r) == first_nonempty_of(opt_strs_view(values@)),
{
    let ghost vs = opt_strs_view(values@);
    let mut i: usize = 0;
    assert(vs.skip(0) =~= vs);
    while i < values.len()
        invariant
            i <= values@.len(),
            vs == opt_strs_view(values@),
            first_nonempty_of(vs) == first_nonempty_of(vs.skip(i as int)),
        decreases values@.len() - i,
    {
        assert(vs.skip(i as int).drop_first() =~= vs.skip(i + 1));
        assert(vs.skip(i as int)[0] == vs[i as int]);
        match values[i] {
            Some(v) => {
                let t = trimmed(v);
                if t.len() > 0 {
                    return Some(string_of(t));
                }
            },
            None => {},
        }
        i += 1;
    }
    None
}

// ---------------------------------------------------------------------------
// Internal identifiers in message text
// ---------------------------------------------------------------------------

/// The number of ASCII digits in a row from index `i`.
pub open spec fn digit_run(s: Seq<char>, i: int) -> nat
    decreases s.len() - i,
{
    if 0 <= i < s.len() && is_digit(s[i]) {
        1 + digit_run(s, i + 1)
    } else {
        0
    }
}

proof fn lemma_digit_run(s: Seq<char>, i: int)
    requires
        0 <= i <= s.len(),
    ensures
        i + digit_run(s, i) <= s.len(),
    decreases s.len() - i,
{
    if i < s.len() && is_digit(s[i]) {
        lemma_digit_run(s, i + 1);
    }
}

fn digit_run_exec(s: &[char], i: usize) -> (r: usize)
    requires
        i <= s@.len(),
    ensures
        r == digit_run(s@, i as int),
        i + r <= s@.len(),
{
    let mut j: usize = i;
    while j < s.len() && is_digit_exec(s[j])
        invariant
            i <= j <= s@.len(),
            digit_run(s@, i as int) == (j - i) + digit_run(s@, j as int),
        decreases s@.len() - j,
    {
        j += 1;
    }
    j - i
}

/// `@` and at least eight digits: a mention of a participant by number.
pub open spec fn mention_at(s: Seq<char>, i: int) -> Option<(nat, Seq<char>)> {
    if 0 <= i < s.len() && s[i] == '@' && digit_run(s, i + 1) >= 8 {
        Some(((1 + digit_run(s, i + 1)) as nat, "@Participant"@))
    } else {
        None
    }
}

/// At least eight digits followed by a WhatsApp domain: a JID.
pub open spec fn jid_at(s: Seq<char>, i: int) -> Option<(nat, Seq<char>)> {
    let n = digit_run(s, i);
    if n < 8 {
        None
    } else if occurs_at(s, "@lid"@, i + n) {
        Some(((n + "@lid"@.len()) as nat, "Participant"@))
    } else if occurs_at(s, "@s.whatsapp.net"@, i + n) {
        Some(((n + "@s.whatsapp.net"@.len()) as nat, "Participant"@))
    } else if occurs_at(s, "@g.us"@, i + n) {
        Some(((n + "@g.us"@.len()) as nat, "Group"@))
    } else {
        None
    }
}

/// The identifier that starts at `i`, as the number of characters it spans
/// and the word that replaces it.
pub open spec fn replacement_at(s: Seq<char>, i: int) -> Option<(nat, Seq<char>)> {
    match mention_at(s, i) {
        Some(r) => Some(r),
        None => jid_at(s, i),
    }
}

proof fn lemma_replacement_at(s: Seq<char>, i: int)
    requires
        0 <= i < s.len(),
    ensures
        replacement_at(s, i) matches Some((k, _)) ==> 0 < k && i + k <= s.len(),
{
    lemma_digit_run(s, i);
    lemma_digit_run(s, i + 1);
}

/// The text from index `i` on, with every internal identifier replaced.
pub open spec fn redact_from(s: Seq<char>, i: int) -> Seq<char>
    decreases s.len() - i,
{
    if i < 0 || i >= s.len() {
        seq![]
    } else {
        match replacement_at(s, i) {
            Some((k, rep)) => if 0 < k && i + k <= s.len() {
                rep + redact_from(s, i + k)
            } else {
                seq![s[i]] + redact_from(s, i + 1)
            },
            None => seq![s[i]] + redact_from(s, i + 1),
        }
    }
}

pub open spec fn redact_identifiers(s: Seq<char>) -> Seq<char> {
    redact_from(s, 0)
}

proof fn lemma_digit_run_shift(a: Seq<char>, t: Seq<char>, p: int)
    requires
        a.len() <= p,
    ensures
        digit_run(a + t, p) == digit_run(t, p - a.len()),
    decreases (a + t).len() - p,
{
    if p < (a + t).len() && is_digit((a + t)[p]) {
        assert((a + t)[p] == t[p - a.len()]);
        lemma_digit_run_shift(a, t, p + 1);
    } else if p < (a + t).len() {
        assert((a + t)[p] == t[p - a.len()]);
    }
}

proof fn lemma_replacement_shift(a: Seq<char>, t: Seq<char>, p: int)
    requires
        a.len() <= p < a.len() + t.len(),
    ensures
        replacement_at(a + t, p) == replacement_at(t, p - a.len()),
{
    let o = a + t;
    let q = p - a.len();
    lemma_digit_run_shift(a, t, p);
    lemma_digit_run_shift(a, t, p + 1);
    assert(o[p] == t[q]);
    let n = digit_run(t, q);
    assert forall|d: Seq<char>| #[trigger] occurs_at(o, d, p + n) == occurs_at(t, d, q + n) by {
        if q + n >= 0 && q + n + d.len() <= t.len() {
            assert(o.subrange(p + n, p + n + d.len()) =~= t.subrange(q + n, q + n + d.len()));
        }
    }
}

/// The words that stand for identifiers.
pub open spec fn is_redaction_word(w: Seq<char>) -> bool {
    w == "@Participant"@ || w == "Participant"@ || w == "Group"@
}

proof fn lemma_redaction_words(w: Seq<char>)
    requires
        is_redaction_word(w),
    ensures
        w.len() >= 2,
        forall|x: int| 0 <= x < w.len() ==> !is_digit(#[trigger] w[x]),
        w[0] == '@' || w[0] == 'P' || w[0] == 'G',
        w[0] == '@' ==> w[1] == 'P',
        forall|x: int| 0 < x < w.len() ==> #[trigger] w[x] != '@',
{
    reveal_strlit("@Participant");
    reveal_strlit("Participant");
    reveal_strlit("Group");
}

proof fn lemma_replacement_word(s: Seq<char>, i: int)
    ensures
        replacement_at(s, i) matches Some((_, w)) ==> is_redaction_word(w),
{
}

proof fn lemma_word_clean(w: Seq<char>, t: Seq<char>, p: int)
    requires
        is_redaction_word(w),
        0 <= p < w.len(),
    ensures
        replacement_at(w + t, p) is None,
{
    lemma_redaction_words(w);
    let o = w + t;
    assert(o[p] == w[p]);
    assert(!is_digit(o[p]));
    if o[p] == '@' {
        assert(p == 0);
        assert(o[1] == w[1]);
        assert(!is_digit(o[1]));
    }
}

proof fn lemma_redact_digit_run(s: Seq<char>, j: int)
    requires
        0 <= j,
    ensures
        digit_run(redact_from(s, j), 0) <= digit_run(s, j),
    decreases s.len() - j,
{
    if j < s.len() {
        lemma_replacement_at(s, j);
        lemma_replacement_word(s, j);
        match replacement_at(s, j) {
            Some((k, w)) => {
                lemma_redaction_words(w);
                let out = redact_from(s, j);
                assert(out[0] == w[0]);
            },
            None => {
                let tail = redact_from(s, j + 1);
                assert(redact_from(s, j) == seq![s[j]] + tail);
                if is_digit(s[j]) {
                    lemma_redact_digit_run(s, j + 1);
                    lemma_digit_run_shift(seq![s[j]], tail, 1);
                }
            },
        }
    }
}

proof fn lemma_redact_copies(s: Seq<char>, j: int, len: int)
    requires
        0 <= j <= s.len(),
        0 <= len <= redact_from(s, j).len(),
        forall|x: int|
            0 <= x < len ==> #[trigger] redact_from(s, j)[x] != 'P' && redact_from(s, j)[x] != 'G',
        forall|x: int|
            0 <= x < len && #[trigger] redact_from(s, j)[x] == '@' ==> x + 1 < redact_from(
                s,
                j,
            ).len() && redact_from(s, j)[x + 1] != 'P',
    ensures
        j + len <= s.len(),
        forall|x: int| 0 <= x < len ==> #[trigger] redact_from(s, j)[x] == s[j + x],
    decreases len,
{
    if len > 0 {
        let out = redact_from(s, j);
        assert(out[0] != 'P' && out[0] != 'G');
        lemma_replacement_at(s, j);
        lemma_replacement_word(s, j);
        if let Some((k, w)) = replacement_at(s, j) {
            lemma_redaction_words(w);
            assert(out[0] == w[0]);
            if w[0] == '@' {
                assert(out[1] == w[1]);
            }
            assert(false);
        }
        let tail = redact_from(s, j + 1);
        assert(out == seq![s[j]] + tail);
        assert forall|x: int| 0 <= x < len - 1 implies #[trigger] tail[x] != 'P' && tail[x] != 'G' by {
            assert(tail[x] == out[x + 1]);
        }
        assert forall|x: int|
            0 <= x < len - 1 && #[trigger] tail[x] == '@' implies x + 1 < tail.len() && tail[x + 1]
                != 'P' by {
            assert(tail[x] == out[x + 1]);
            assert(tail[x + 1] == out[x + 2]);
        }
        lemma_redact_copies(s, j + 1, len - 1);
        assert forall|x: int| 0 <= x < len implies #[trigger] out[x] == s[j + x] by {
            if x > 0 {
                assert(out[x] == tail[x - 1]);
            }
        }
    }
}

proof fn lemma_digit_run_digits(s: Seq<char>, i: int)
    requires
        0 <= i,
    ensures
        forall|x: int| 0 <= x < digit_run(s, i) ==> is_digit(#[trigger] s[i + x]),
        i + digit_run(s, i) < s.len() ==> !is_digit(s[i + digit_run(s, i)]),
    decreases s.len() - i,
{
    if i < s.len() && is_digit(s[i]) {
        lemma_digit_run_digits(s, i + 1);
        assert forall|x: int| 0 <= x < digit_run(s, i) implies is_digit(#[trigger] s[i + x]) by {
            if x > 0 {
                assert(s[i + x] == s[(i + 1) + (x - 1)]);
            }
        }
    }
}

proof fn lemma_digit_run_exact(s: Seq<char>, i: int, n: int)
    requires
        0 <= i,
        0 <= n,
        i + n < s.len(),
        forall|x: int| 0 <= x < n ==> is_digit(#[trigger] s[i + x]),
        !is_digit(s[i + n]),
    ensures
        digit_run(s, i) == n,
    decreases n,
{
    if n > 0 {
        assert(is_digit(s[i + 0]));
        assert forall|x: int| 0 <= x < n - 1 implies is_digit(#[trigger] s[(i + 1) + x]) by {
            assert(s[(i + 1) + x] == s[i + (x + 1)]);
        }
        lemma_digit_run_exact(s, i + 1, n - 1);
    }
}

/// The domains a JID ends with.
pub open spec fn is_jid_domain(d: Seq<char>) -> bool {
    d == "@lid"@ || d == "@s.whatsapp.net"@ || d == "@g.us"@
}

proof fn lemma_jid_domains(d: Seq<char>)
    requires
        is_jid_domain(d),
    ensures
        d.len() >= 2,
        d[0] == '@',
        d[1] != 'P',
        forall|x: int| 0 <= x < d.len() ==> #[trigger] d[x] != 'P' && d[x] != 'G',
        forall|x: int| 0 < x < d.len() ==> #[trigger] d[x] != '@',
{
    reveal_strlit("@lid");
    reveal_strlit("@s.whatsapp.net");
    reveal_strlit("@g.us");
}

proof fn lemma_copied_jid(s: Seq<char>, j: int, d: Seq<char>)
    requires
        0 <= j < s.len(),
        is_jid_domain(d),
        digit_run(redact_from(s, j), 0) >= 8,
        occurs_at(redact_from(s, j), d, digit_run(redact_from(s, j), 0) as int),
    ensures
        jid_at(s, j) is Some,
{
    let out = redact_from(s, j);
    let n = digit_run(out, 0) as int;
    let len = n + d.len();
    lemma_jid_domains(d);
    lemma_digit_run_digits(out, 0);
    assert forall|x: int| n <= x < len implies #[trigger] out[x] == d[x - n] by {
        assert(out.subrange(n, len)[x - n] == out[x]);
    }
    assert forall|x: int| 0 <= x < len implies #[trigger] out[x] != 'P' && out[x] != 'G' by {
        if x < n {
            assert(is_digit(out[0 + x]));
        } else {
            assert(out[x] == d[x - n]);
        }
    }
    assert forall|x: int| 0 <= x < len && #[trigger] out[x] == '@' implies x + 1 < out.len()
        && out[x + 1] != 'P' by {
        if x < n {
            assert(is_digit(out[0 + x]));
        } else {
            assert(out[x] == d[x - n]);
            assert(x == n);
            assert(out[n + 1] == d[1]);
        }
    }
    lemma_redact_copies(s, j, len);
    assert forall|x: int| 0 <= x < n implies is_digit(#[trigger] s[j + x]) by {
        assert(out[x] == s[j + x]);
        assert(is_digit(out[0 + x]));
    }
    assert(s[j + n] == out[n]);
    assert(out[n] == d[0]);
    lemma_digit_run_exact(s, j, n);
    assert(s.subrange(j + n, j + len) =~= d) by {
        assert forall|x: int| 0 <= x < d.len() implies s.subrange(j + n, j + len)[x] == d[x] by {
            assert(out[n + x] == s[j + (n + x)]);
            assert(out[n + x] == d[x]);
        }
    }
    reveal_strlit("@lid");
    reveal_strlit("@s.whatsapp.net");
    reveal_strlit("@g.us");
}

proof fn lemma_first_char_clean(s: Seq<char>, j: int)
    requires
        0 <= j < s.len(),
        replacement_at(s, j) is None,
    ensures
        replacement_at(redact_from(s, j), 0) is None,
{
    let out = redact_from(s, j);
    let tail = redact_from(s, j + 1);
    assert(out == seq![s[j]] + tail);
    lemma_digit_run_shift(seq![s[j]], tail, 1);
    lemma_redact_digit_run(s, j + 1);
    let n = digit_run(out, 0);
    if n >= 8 {
        if occurs_at(out, "@lid"@, n as int) {
            lemma_copied_jid(s, j, "@lid"@);
        } else if occurs_at(out, "@s.whatsapp.net"@, n as int) {
            lemma_copied_jid(s, j, "@s.whatsapp.net"@);
        } else if occurs_at(out, "@g.us"@, n as int) {
            lemma_copied_jid(s, j, "@g.us"@);
        }
    }
}

proof fn lemma_redact_clean(s: Seq<char>, j: int)
    requires
        0 <= j,
    ensures
        forall|p: int|
            0 <= p < redact_from(s, j).len() ==> replacement_at(#[trigger] redact_from(s, j), p)
                is None,
    decreases s.len() - j,
{
    if j < s.len() {
        let out = redact_from(s, j);
        lemma_replacement_at(s, j);
        lemma_replacement_word(s, j);
        match replacement_at(s, j) {
            Some((k, w)) => {
                let tail = redact_from(s, j + k);
                lemma_redact_clean(s, j + k);
                assert(out == w + tail);
                assert forall|p: int| 0 <= p < out.len() implies replacement_at(out, p) is None by {
                    if p < w.len() {
                        lemma_word_clean(w, tail, p);
                    } else {
                        lemma_replacement_shift(w, tail, p);
                    }
                }
            },
            None => {
                let tail = redact_from(s, j + 1);
                lemma_redact_clean(s, j + 1);
                let c = seq![s[j]];
                assert(out == c + tail);
                assert forall|p: int| 0 <= p < out.len() implies replacement_at(out, p) is None by {
                    if p >= 1 {
                        lemma_replacement_shift(c, tail, p);
                    } else {
                        lemma_first_char_clean(s, j);
                    }
                }
            },
        }
    }
}

proof fn lemma_redact_without_at(s: Seq<char>, j: int)
    requires
        0 <= j <= s.len(),
        forall|x: int| 0 <= x < s.len() ==> s[x] != '@',
    ensures
        redact_from(s, j) == s.skip(j),
    decreases s.len() - j,
{
    if j < s.len() {
        let n = digit_run(s, j) as int;
        assert forall|d: Seq<char>| is_jid_domain(d) implies !occurs_at(s, d, j + n) by {
            lemma_jid_domains(d);
            if occurs_at(s, d, j + n) {
                assert(s.subrange(j + n, j + n + d.len())[0] == s[j + n]);
            }
        }
        reveal_strlit("@lid");
        reveal_strlit("@s.whatsapp.net");
        reveal_strlit("@g.us");
        assert(is_jid_domain("@lid"@) && is_jid_domain("@s.whatsapp.net"@) && is_jid_domain("@g.us"@));
        assert(replacement_at(s, j) is None);
        lemma_redact_without_at(s, j + 1);
        assert(s.skip(j) =~= seq![s[j]] + s.skip(j + 1));
    } else {
        assert(s.skip(j) =~= Seq::<char>::empty());
    }
}

/// Text without an `@` holds no identifier, and redaction leaves it as it is.
pub proof fn lemma_redaction_keeps_text_without_at(s: Seq<char>)
    requires
        forall|x: int| 0 <= x < s.len() ==> s[x] != '@',
    ensures
        redact_identifiers(s) == s,
{
    lemma_redact_without_at(s, 0);
    assert(s.skip(0) =~= s);
}

/// Redaction leaves no internal identifier behind: nowhere in the redacted
/// text does a participant mention or a JID start.
pub proof fn lemma_redaction_leaves_no_identifier(s: Seq<char>)
    ensures
        forall|p: int|
            0 <= p < redact_identifiers(s).len() ==> mention_at(redact_identifiers(s), p) is None
                && jid_at(redact_identifiers(s), p) is None,
{
    lemma_redact_clean(s, 0);
    assert forall|p: int| 0 <= p < redact_identifiers(s).len() implies mention_at(
        redact_identifiers(s),
        p,
    ) is None && jid_at(redact_identifiers(s), p) is None by {
        assert(replacement_at(redact_from(s, 0), p) is None);
    }
}

fn jid_at_exec(s: &[char], i: usize) -> (r: Option<(usize, &'static str)>)
    requires
        i <= s@.len(),
    ensures
        match jid_at(s@, i as int) {
            Some((k, rep)) => r matches Some((k2, rep2)) && k2 == k && rep2@ == rep,
            None => r is None,
        },
{
    let len = s.len();
    let n = digit_run_exec(s, i);
    if n < 8 {
        return None;
    }
    assert(i + n <= len);
    let at = i + n;
    let lid = chars_of("@lid");
    if matches_at(s, lid.as_slice(), at) {
        assert(at + lid@.len() <= len);
        return Some((n + lid.len(), "Participant"));
    }
    let direct = chars_of("@s.whatsapp.net");
    if matches_at(s, direct.as_slice(), at) {
        assert(at + direct@.len() <= len);
        return Some((n + direct.len(), "Participant"));
    }
    let group = chars_of("@g.us");
    if matches_at(s, group.as_slice(), at) {
        assert(at + group@.len() <= len);
        return Some((n + group.len(), "Group"));
    }
    None
}

fn replacement_at_exec(s: &[char], i: usize) -> (r: Option<(usize, &'static str)>)
    requires
        i < s@.len(),
    ensures
        match replacement_at(s@, i as int) {
            Some((k, rep)) => r matches Some((k2, rep2)) && k2 == k && rep2@ == rep,
            None => r is None,
        },
{
    if s[i] == '@' {
        let n = digit_run_exec(s, i + 1);
        if n >= 8 {
            return Some((1 + n, "@Participant"));
        }
    }
    jid_at_exec(s, i)
}

fn redact_identifiers_exec(s: &[char]) -> (r: Vec<char>)
    ensures
        r@ == redact_identifiers(s@),
{
    let mut out: Vec<char> = Vec::new();
    let mut i: usize = 0;
    while i < s.len()
        invariant
            i <= s@.len(),
            redact_identifiers(s@) == out@ + redact_from(s@, i as int),
        decreases s@.len() - i,
    {
        let ghost before = out@;
        proof {
            lemma_replacement_at(s@, i as int);
        }
        match replacement_at_exec(s, i) {
            Some((k, rep)) => {
                push_str(&mut out, rep);
                assert(before + redact_from(s@, i as int) =~= out@ + redact_from(s@, i + k));
                i += k;
            },
            None => {
                out.push(s[i]);
                assert(before + redact_from(s@, i as int) =~= out@ + redact_from(s@, i + 1));
                i += 1;
            },
        }
    }
    assert(out@ + redact_from(s@, i as int) =~= out@);
    out
}

/// A JSON-looking system event that WhatsApp stores as message text.
pub open spec fn structured_system_event(v: Seq<char>) -> bool {
    starts_with(v, seq!['{']) && ends_with(v, seq!['}']) && contains_seq(v, "\"reason\""@) && (
    contains_seq(v, "\"is_open_group\""@) || contains_seq(v, "\"parent_group_jid\""@)
        || contains_seq(v, "\"show_membership_string\""@))
}

fn structured_system_event_exec(v: &[char]) -> (b: bool)
    ensures
        b == structured_system_event(v@),
{
    let open = vec!['{'];
    let close = vec!['}'];
    assert(open@ =~= seq!['{']);
    assert(close@ =~= seq!['}']);
    if !starts_with_exec(v, open.as_slice()) || !ends_with_exec(v, close.as_slice()) {
        return false;
    }
    let reason = chars_of("\"reason\"");
    if !contains_exec(v, reason.as_slice()) {
        return false;
    }
    let a = chars_of("\"is_open_group\"");
    let b = chars_of("\"parent_group_jid\"");
    let c = chars_of("\"show_membership_string\"");
    contains_exec(v, a.as_slice()) || contains_exec(v, b.as_slice()) || contains_exec(
        v,
        c.as_slice(),
    )
}

/// What a message preview shows of a stored text: nothing for blank text, a
/// fixed label for structured system events, else the trimmed text with
/// internal identifiers replaced (nothing when that leaves it blank).
pub open spec fn display_message_text_of(value: Seq<char>) -> Option<Seq<char>> {
    let v = trim_ws(value);
    if v.len() == 0 {
        None
    } else if structured_system_event(v) {
        Some("System event"@)
    } else {
        let r = trim_ws(redact_identifiers(v));
        if r.len() == 0 {
            None
        } else {
            Some(r)
        }
    }
}

pub fn display_message_text(value: &str) -> (r: Option<String>)
    ensures
        opt_view(r) == display_message_text_of(value@),
{
    let v = trimmed(value);
    if v.len() == 0 {
        return None;
    }
    if structured_system_event_exec(v.as_slice()) {
        return Some("System event".to_string());
    }
    let red = redact_identifiers_exec(v.as_slice());
    let r = trim(red.as_slice());
    if r.len() == 0 {
        None
    } else {
        Some(string_of(r))
    }
}

/// The first present value that has something to show, as shown.
pub open spec fn first_display_message_text_of(values: Seq<Option<Seq<char>>>) -> Option<
    Seq<char>,
>
    decreases values.len(),
{
    if values.len() == 0 {
        None
    } else if values[0] is Some && display_message_text_of(values[0]->0) is Some {
        display_message_text_of(values[0]->0)
    } else {
        first_display_message_text_of(values.drop_first())
    }
}

pub fn first_display_message_text(values: &[Option<&str>]) -> (r: Option<String>)
    ensures
        opt_view(r) == first_display_message_text_of(opt_strs_view(values@)),
{
    let ghost vs = opt_strs_view(values@);
    let mut i: usize = 0;
    assert(vs.skip(0) =~= vs);
    while i < values.len()
        invariant
            i <= values@.len(),
            vs == opt_strs_view(values@),
            first_display_message_text_of(vs) == first_display_message_text_of(vs.skip(i as int)),
        decreases values@.len() - i,
    {
        assert(vs.skip(i as int).drop_first() =~= vs.skip(i + 1));
        assert(vs.skip(i as int)[0] == vs[i as int]);
        match values[i] {
            Some(v) => {
                let t = display_message_text(v);
                if t.is_some() {
                    return t;
                }
            },
            None => {},
        }
        i += 1;
    }
    None
}

// ---------------------------------------------------------------------------
// Chat titles
// ---------------------------------------------------------------------------

pub open spec fn all_ascii_digits(s: Seq<char>) -> bool {
    forall|k: int| 0 <= k < s.len() ==> is_digit(#[trigger] s[k])
}

/// The title of a direct chat with a phone-number JID.
pub open spec fn direct_jid_title(local: Seq<char>) -> Seq<char> {
    if local.len() >= 8 && all_ascii_digits(local) {
        seq!['+'] + local
    } else if trim_ws(local).len() == 0 {
        "Imported chat"@
    } else {
        local
    }
}

/// The title shown for a chat's stored name or JID: group and participant
/// JIDs are replaced by a label, and a phone-number JID by the number.
pub open spec fn display_chat_title_of(value: Seq<char>) -> Seq<char> {
    let v = trim_ws(value);
    let at = rfind_char(v, '@');
    if v.len() == 0 {
        "Imported chat"@
    } else if at < 0 {
        v
    } else {
        let local = v.take(at);
        let domain = v.skip(at + 1);
        if domain == "g.us"@ {
            "Group chat"@
        } else if domain == "lid"@ {
            "Participant"@
        } else if domain == "s.whatsapp.net"@ {
            direct_jid_title(local)
        } else {
            v
        }
    }
}

fn direct_jid_title_exec(local: &[char]) -> (r: String)
    ensures
        r@ == direct_jid_title(local@),
{
    if local.len() >= 8 && all_digits(local) {
        let mut out: Vec<char> = Vec::new();
        out.push('+');
        crate::text::append_all(&mut out, local);
        assert(out@ =~= seq!['+'] + local@);
        string_of(out)
    } else if trim(local).len() == 0 {
        "Imported chat".to_string()
    } else {
        string_of(copy_range(local, 0, local.len()))
    }
}

pub fn display_chat_title(value: &str) -> (r: String)
    ensures
        r@ == display_chat_title_of(value@),
{
    let v = trimmed(value);
    if v.len() == 0 {
        return "Imported chat".to_string();
    }
    proof {
        lemma_rfind_char(v@, '@');
    }
    match rfind_char_exec(v.as_slice(), '@') {
        None => string_of(v),
        Some(at) => {
            let local = copy_range(v.as_slice(), 0, at);
            let domain = copy_range(v.as_slice(), at + 1, v.len());
            assert(local@ =~= v@.take(at as int));
            assert(domain@ =~= v@.skip(at + 1));
            if crate::media::eq_str(domain.as_slice(), "g.us") {
                "Group chat".to_string()
            } else if crate::media::eq_str(domain.as_slice(), "lid") {
                "Participant".to_string()
            } else if crate::media::eq_str(domain.as_slice(), "s.whatsapp.net") {
                direct_jid_title_exec(local.as_slice())
            } else {
                string_of(v)
            }
        },
    }
}

// ---------------------------------------------------------------------------
// Senders
// ---------------------------------------------------------------------------

pub open spec fn count_digits(s: Seq<char>) -> nat
    decreases s.len(),
{
    if s.len() == 0 {
        0
    } else {
        count_digits(s.drop_last()) + if is_digit(s.last()) {
            1nat
        } else {
            0nat
        }
    }
}

pub open spec fn is_phone_separator(c: char) -> bool {
    c == '+' || c == '-' || c == '(' || c == ')' || c == ' '
}

pub open spec fn count_separators(s: Seq<char>) -> nat
    decreases s.len(),
{
    if s.len() == 0 {
        0
    } else {
        count_separators(s.drop_last()) + if is_phone_separator(s.last()) {
            1nat
        } else {
            0nat
        }
    }
}

/// At least eight digits, and nothing but digits and `+ - ( )` and spaces.
pub open spec fn looks_like_phone_number(v: Seq<char>) -> bool {
    count_digits(v) >= 8 && count_digits(v) + count_separators(v) == v.len()
}

pub open spec fn is_opaque_char(c: char) -> bool {
    is_ascii_alnum(c) || c == '+' || c == '/' || c == '='
}

/// A base64-looking token of at least sixteen characters.
pub open spec fn looks_like_opaque_sender_identifier(value: Seq<char>) -> bool {
    let v = trim_ws(value);
    v.len() >= 16 && (forall|k: int| 0 <= k < v.len() ==> is_opaque_char(#[trigger] v[k])) && (
    v.contains('=') || v.contains('+') || v.contains('/'))
}

/// A sender name that a person would recognise: not blank, no `@`, not a
/// phone number and not an opaque token.
pub open spec fn is_readable_sender(value: Seq<char>) -> bool {
    let v = trim_ws(value);
    v.len() > 0 && !v.contains('@') && !looks_like_phone_number(v)
        && !looks_like_opaque_sender_identifier(v)
}

fn phone_number_exec(v: &[char]) -> (b: bool)
    ensures
        b == looks_like_phone_number(v@),
{
    let mut digits: usize = 0;
    let mut separators: usize = 0;
    let mut i: usize = 0;
    while i < v.len()
        invariant
            i <= v@.len(),
            digits == count_digits(v@.take(i as int)),
            separators == count_separators(v@.take(i as int)),
            digits + separators <= i,
        decreases v@.len() - i,
    {
        assert(v@.take(i + 1).drop_last() =~= v@.take(i as int));
        let c = v[i];
        if is_digit_exec(c) {
            digits += 1;
        }
        if c == '+' || c == '-' || c == '(' || c == ')' || c == ' ' {
            separators += 1;
        }
        i += 1;
    }
    assert(v@.take(v@.len() as int) =~= v@);
    digits >= 8 && digits + separators == v.len()
}

fn opaque_identifier_exec(value: &[char]) -> (b: bool)
    ensures
        b == looks_like_opaque_sender_identifier(value@),
{
    let v = trim(value);
    if v.len() < 16 {
        return false;
    }
    let mut i: usize = 0;
    while i < v.len()
        invariant
            i <= v@.len(),
            v@ == trim_ws(value@),
            v@.len() >= 16,
            forall|k: int| 0 <= k < i ==> is_opaque_char(#[trigger] v@[k]),
        decreases v@.len() - i,
    {
        let c = v[i];
        if !(is_ascii_alnum_exec(c) || c == '+' || c == '/' || c == '=') {
            assert(!is_opaque_char(v@[i as int]));
            return false;
        }
        i += 1;
    }
    has_char(v.as_slice(), '=') || has_char(v.as_slice(), '+') || has_char(v.as_slice(), '/')
}

pub fn is_readable_sender_exec(value: &[char]) -> (b: bool)
    ensures
        b == is_readable_sender(value@),
{
    let v = trim(value);
    if v.len() == 0 {
        return false;
    }
    if has_char(v.as_slice(), '@') {
        return false;
    }
    if phone_number_exec(v.as_slice()) || opaque_identifier_exec(v.as_slice()) {
        return false;
    }
    true
}

/// The first present value that reads as a person's name, trimmed.
pub open spec fn first_readable_sender_of(values: Seq<Option<Seq<char>>>) -> Option<Seq<char>>
    decreases values.len(),
{
    if values.len() == 0 {
        None
    } else if values[0] is Some && is_readable_sender(trim_ws(values[0]->0)) {
        Some(trim_ws(values[0]->0))
    } else {
        first_readable_sender_of(values.drop_first())
    }
}

pub fn first_readable_sender(values: &[Option<&str>]) -> (r: Option<String>)
    ensures
        opt_view(r) == first_readable_sender_of(opt_strs_view(values@)),
{
    let ghost vs = opt_strs_view(values@);
    let mut i: usize = 0;
    assert(vs.skip(0) =~= vs);
    while i < values.len()
        invariant
            i <= values@.len(),
            vs == opt_strs_view(values@),
            first_readable_sender_of(vs) == first_readable_sender_of(vs.skip(i as int)),
        decreases values@.len() - i,
    {
        assert(vs.skip(i as int).drop_first() =~= vs.skip(i + 1));
        assert(vs.skip(i as int)[0] == vs[i as int]);
        match values[i] {
            Some(v) => {
                let t = trimmed(v);
                if is_readable_sender_exec(t.as_slice()) {
                    return Some(string_of(t));
                }
            },
            None => {},
        }
        i += 1;
    }
    None
}

// ---------------------------------------------------------------------------
// Media paths
// ---------------------------------------------------------------------------

/// The part after the last `/` (the whole text when there is none).
pub open spec fn after_last_slash(p: Seq<char>) -> Seq<char> {
    p.skip(rfind_char(p, '/') + 1)
}

/// The file name at the end of a media path (backslashes read as slashes), or
/// the path itself when that name is blank.
pub open spec fn filename_from_media_path_of(path: Seq<char>) -> Seq<char> {
    let leaf = after_last_slash(replace_char(path, '\\', '/'));
    if trim_ws(leaf).len() > 0 {
        leaf
    } else {
        path
    }
}

pub fn filename_from_media_path(path: &str) -> (r: String)
    ensures
        r@ == filename_from_media_path_of(path@),
{
    let p = chars_of(path);
    let n = replace_char_exec(p.as_slice(), '\\', '/');
    proof {
        lemma_rfind_char(n@, '/');
    }
    let len = n.len();
    let start = match rfind_char_exec(n.as_slice(), '/') {
        Some(k) => {
            assert(k < len);
            k + 1
        },
        None => 0,
    };
    let leaf = copy_range(n.as_slice(), start, n.len());
    assert(leaf@ =~= after_last_slash(n@));
    if trim(leaf.as_slice()).len() > 0 {
        string_of(leaf)
    } else {
        path.to_string()
    }
}

} // verus!
