//! Character-level text primitives shared by the parsers and renderers.
//!
//! Text is handled as sequences of Unicode scalar values (`Seq<char>` in
//! specifications, `Vec<char>` / `&[char]` in executable code).
use vstd::prelude::*;

verus! {

// ---------------------------------------------------------------------------
// Character classes
// ---------------------------------------------------------------------------

/// Unicode `White_Space`, the property behind `char::is_whitespace`.
pub open spec fn is_ws(c: char) -> bool {
    let u = c as u32;
    ||| 9 <= u && u <= 13
    ||| u == 32
    ||| u == 0x85
    ||| u == 0xa0
    ||| u == 0x1680
    ||| 0x2000 <= u && u <= 0x200a
    ||| u == 0x2028
    ||| u == 0x2029
    ||| u == 0x202f
    ||| u == 0x205f
    ||| u == 0x3000
}

pub fn is_ws_exec(c: char) -> (b: bool)
    ensures
        b == is_ws(c),
{
    let u = c as u32;
    (9 <= u && u <= 13) || u == 32 || u == 0x85 || u == 0xa0 || u == 0x1680 || (0x2000 <= u
        && u <= 0x200a) || u == 0x2028 || u == 0x2029 || u == 0x202f || u == 0x205f || u == 0x3000
}

pub open spec fn is_digit(c: char) -> bool {
    '0' <= c && c <= '9'
}

pub fn is_digit_exec(c: char) -> (b: bool)
    ensures
        b == is_digit(c),
{
    let u = c as u32;
    48 <= u && u <= 57
}

pub open spec fn is_ascii_alpha(c: char) -> bool {
    ('a' <= c && c <= 'z') || ('A' <= c && c <= 'Z')
}

pub open spec fn is_ascii_alnum(c: char) -> bool {
    is_ascii_alpha(c) || is_digit(c)
}

pub fn is_ascii_alnum_exec(c: char) -> (b: bool)
    ensures
        b == is_ascii_alnum(c),
{
    let u = c as u32;
    (48 <= u && u <= 57) || (65 <= u && u <= 90) || (97 <= u && u <= 122)
}

/// `char::to_ascii_lowercase`.
pub open spec fn lower_char(c: char) -> char {
    if 'A' <= c && c <= 'Z' {
        ((c as u32) + 32) as char
    } else {
        c
    }
}

/// `char::to_ascii_uppercase`.
pub open spec fn upper_char(c: char) -> char {
    if 'a' <= c && c <= 'z' {
        ((c as u32) - 32) as char
    } else {
        c
    }
}

pub fn lower_char_exec(c: char) -> (r: char)
    ensures
        r == lower_char(c),
{
    let u = c as u32;
    if 65 <= u && u <= 90 {
        let b: u8 = (u + 32) as u8;
        b as char
    } else {
        c
    }
}

pub fn upper_char_exec(c: char) -> (r: char)
    ensures
        r == upper_char(c),
{
    let u = c as u32;
    if 97 <= u && u <= 122 {
        let b: u8 = (u - 32) as u8;
        b as char
    } else {
        c
    }
}

/// `str::to_ascii_lowercase`.
pub open spec fn lower_seq(s: Seq<char>) -> Seq<char> {
    s.map_values(|c: char| lower_char(c))
}

/// `str::to_ascii_uppercase`.
pub open spec fn upper_seq(s: Seq<char>) -> Seq<char> {
    s.map_values(|c: char| upper_char(c))
}

pub fn lower_vec(s: &[char]) -> (r: Vec<char>)
    ensures
        r@ == lower_seq(s@),
{
    let mut r: Vec<char> = Vec::new();
    let mut i: usize = 0;
    while i < s.len()
        invariant
            i <= s@.len(),
            r@ == lower_seq(s@.take(i as int)),
        decreases s@.len() - i,
    {
        let c = lower_char_exec(s[i]);
        r.push(c);
        i += 1;
        assert(lower_seq(s@.take(i as int)) =~= lower_seq(s@.take(i - 1)).push(lower_char(s@[i - 1])));
    }
    assert(s@.take(s@.len() as int) =~= s@);
    r
}

pub fn upper_vec(s: &[char]) -> (r: Vec<char>)
    ensures
        r@ == upper_seq(s@),
{
    let mut r: Vec<char> = Vec::new();
    let mut i: usize = 0;
    while i < s.len()
        invariant
            i <= s@.len(),
            r@ == upper_seq(s@.take(i as int)),
        decreases s@.len() - i,
    {
        let c = upper_char_exec(s[i]);
        r.push(c);
        i += 1;
        assert(upper_seq(s@.take(i as int)) =~= upper_seq(s@.take(i - 1)).push(upper_char(s@[i - 1])));
    }
    assert(s@.take(s@.len() as int) =~= s@);
    r
}

// ---------------------------------------------------------------------------
// Character classes used for trimming
// ---------------------------------------------------------------------------

/// The classes of characters that the parsers strip from the ends of text.
#[derive(Clone, Copy)]
pub enum CharClass {
    /// `char::is_whitespace`.
    Whitespace,
    /// `'\r'` and `'\n'`.
    LineEnd,
    /// One given character.
    Single(char),
    /// The punctuation around a media token: `< > ( ) [ ] { } , ; :`.
    TokenPunct,
    /// The separators of a numeric date: `/`, `.` and `-`.
    DateSep,
    /// The characters of a clock reading: ASCII digits and `:`.
    ClockChar,
    /// The punctuation stripped from the ends of a file name: `-`, `.` and `_`.
    NamePunct,
}

pub open spec fn in_class(cls: CharClass, c: char) -> bool {
    match cls {
        CharClass::Whitespace => is_ws(c),
        CharClass::LineEnd => c == '\r' || c == '\n',
        CharClass::Single(x) => c == x,
        CharClass::TokenPunct => c == '<' || c == '>' || c == '(' || c == ')' || c == '[' || c
            == ']' || c == '{' || c == '}' || c == ',' || c == ';' || c == ':',
        CharClass::DateSep => c == '/' || c == '.' || c == '-',
        CharClass::ClockChar => is_digit(c) || c == ':',
        CharClass::NamePunct => c == '-' || c == '.' || c == '_',
    }
}

pub fn in_class_exec(cls: CharClass, c: char) -> (b: bool)
    ensures
        b == in_class(cls, c),
{
    match cls {
        CharClass::Whitespace => is_ws_exec(c),
        CharClass::LineEnd => c == '\r' || c == '\n',
        CharClass::Single(x) => c == x,
        CharClass::TokenPunct => c == '<' || c == '>' || c == '(' || c == ')' || c == '[' || c
            == ']' || c == '{' || c == '}' || c == ',' || c == ';' || c == ':',
        CharClass::DateSep => c == '/' || c == '.' || c == '-',
        CharClass::ClockChar => is_digit_exec(c) || c == ':',
        CharClass::NamePunct => c == '-' || c == '.' || c == '_',
    }
}

/// `trim_start_matches` for a class of characters.
pub open spec fn trim_start_by(s: Seq<char>, cls: CharClass) -> Seq<char>
    decreases s.len(),
{
    if s.len() > 0 && in_class(cls, s[0]) {
        trim_start_by(s.drop_first(), cls)
    } else {
        s
    }
}

/// `trim_end_matches` for a class of characters.
pub open spec fn trim_end_by(s: Seq<char>, cls: CharClass) -> Seq<char>
    decreases s.len(),
{
    if s.len() > 0 && in_class(cls, s.last()) {
        trim_end_by(s.drop_last(), cls)
    } else {
        s
    }
}

/// `trim_matches` for a class of characters (`str::trim` for whitespace).
pub open spec fn trim_by(s: Seq<char>, cls: CharClass) -> Seq<char> {
    trim_end_by(trim_start_by(s, cls), cls)
}

pub open spec fn trim_ws(s: Seq<char>) -> Seq<char> {
    trim_by(s, CharClass::Whitespace)
}

/// Index of the first character of `s[lo..hi]` that is not in the class.
pub fn skip_start(s: &[char], lo: usize, hi: usize, cls: CharClass) -> (r: usize)
    requires
        lo <= hi <= s@.len(),
    ensures
        lo <= r <= hi,
        trim_start_by(s@.subrange(lo as int, hi as int), cls) == s@.subrange(r as int, hi as int),
{
    let mut i = lo;
    while i < hi && in_class_exec(cls, s[i])
        invariant
            lo <= i <= hi <= s@.len(),
            trim_start_by(s@.subrange(lo as int, hi as int), cls) == trim_start_by(
                s@.subrange(i as int, hi as int),
                cls,
            ),
        decreases hi - i,
    {
        assert(s@.subrange(i as int, hi as int).drop_first() =~= s@.subrange(i + 1, hi as int));
        i += 1;
    }
    i
}

/// Index just past the last character of `s[lo..hi]` that is not in the class.
pub fn skip_end(s: &[char], lo: usize, hi: usize, cls: CharClass) -> (r: usize)
    requires
        lo <= hi <= s@.len(),
    ensures
        lo <= r <= hi,
        trim_end_by(s@.subrange(lo as int, hi as int), cls) == s@.subrange(lo as int, r as int),
{
    let mut j = hi;
    while j > lo && in_class_exec(cls, s[j - 1])
        invariant
            lo <= j <= hi <= s@.len(),
            trim_end_by(s@.subrange(lo as int, hi as int), cls) == trim_end_by(
                s@.subrange(lo as int, j as int),
                cls,
            ),
        decreases j - lo,
    {
        assert(s@.subrange(lo as int, j as int).drop_last() =~= s@.subrange(lo as int, j - 1));
        j -= 1;
    }
    j
}

pub proof fn lemma_trim_start_subrange(s: Seq<char>, cls: CharClass, i: int)
    requires
        0 <= i <= s.len(),
        forall|k: int| 0 <= k < i ==> in_class(cls, #[trigger] s[k]),
    ensures
        trim_start_by(s, cls) == trim_start_by(s.skip(i), cls),
    decreases i,
{
    if i > 0 {
        assert(s.skip(1) =~= s.drop_first());
        lemma_trim_start_subrange(s.drop_first(), cls, i - 1);
        assert(s.drop_first().skip(i - 1) =~= s.skip(i));
    } else {
        assert(s.skip(0) =~= s);
    }
}

/// A copy of `s[lo..hi]`.
pub fn copy_range(s: &[char], lo: usize, hi: usize) -> (r: Vec<char>)
    requires
        lo <= hi <= s@.len(),
    ensures
        r@ == s@.subrange(lo as int, hi as int),
{
    let mut r: Vec<char> = Vec::new();
    let mut i = lo;
    while i < hi
        invariant
            lo <= i <= hi <= s@.len(),
            r@ == s@.subrange(lo as int, i as int),
        decreases hi - i,
    {
        r.push(s[i]);
        i += 1;
        assert(r@ =~= s@.subrange(lo as int, i as int));
    }
    r
}

/// `trim_matches` of a class, as a new vector.
pub fn trim_class(s: &[char], cls: CharClass) -> (r: Vec<char>)
    ensures
        r@ == trim_by(s@, cls),
{
    let a = skip_start(s, 0, s.len(), cls);
    let b = skip_end(s, a, s.len(), cls);
    assert(s@.subrange(0, s@.len() as int) =~= s@);
    copy_range(s, a, b)
}

pub fn trim_start_class(s: &[char], cls: CharClass) -> (r: Vec<char>)
    ensures
        r@ == trim_start_by(s@, cls),
{
    let a = skip_start(s, 0, s.len(), cls);
    assert(s@.subrange(0, s@.len() as int) =~= s@);
    copy_range(s, a, s.len())
}

pub fn trim_end_class(s: &[char], cls: CharClass) -> (r: Vec<char>)
    ensures
        r@ == trim_end_by(s@, cls),
{
    let b = skip_end(s, 0, s.len(), cls);
    assert(s@.subrange(0, s@.len() as int) =~= s@);
    copy_range(s, 0, b)
}

/// `str::trim`.
pub fn trim(s: &[char]) -> (r: Vec<char>)
    ensures
        r@ == trim_ws(s@),
{
    trim_class(s, CharClass::Whitespace)
}

// ---------------------------------------------------------------------------
// Splitting
// ---------------------------------------------------------------------------

/// `str::split` on a class of separator characters.
pub open spec fn split_on(s: Seq<char>, cls: CharClass) -> Seq<Seq<char>>
    decreases s.len(),
{
    if s.len() == 0 {
        seq![seq![]]
    } else {
        let rest = split_on(s.drop_last(), cls);
        if in_class(cls, s.last()) {
            rest.push(seq![])
        } else {
            rest.update(rest.len() - 1, rest.last().push(s.last()))
        }
    }
}

pub proof fn lemma_split_on_nonempty(s: Seq<char>, cls: CharClass)
    ensures
        split_on(s, cls).len() >= 1,
    decreases s.len(),
{
    if s.len() > 0 {
        lemma_split_on_nonempty(s.drop_last(), cls);
    }
}

pub open spec fn vecs_view(v: Seq<Vec<char>>) -> Seq<Seq<char>> {
    v.map_values(|x: Vec<char>| x@)
}

pub fn split_on_exec(s: &[char], cls: CharClass) -> (r: Vec<Vec<char>>)
    ensures
        vecs_view(r@) == split_on(s@, cls),
        r@.len() >= 1,
{
    let mut parts: Vec<Vec<char>> = Vec::new();
    parts.push(Vec::new());
    assert(vecs_view(parts@) =~= split_on(s@.take(0), cls));
    let mut i: usize = 0;
    while i < s.len()
        invariant
            i <= s@.len(),
            parts@.len() >= 1,
            vecs_view(parts@) == split_on(s@.take(i as int), cls),
        decreases s@.len() - i,
    {
        let c = s[i];
        let ghost prev = s@.take(i as int);
        assert(s@.take(i + 1).drop_last() =~= prev);
        assert(s@.take(i + 1).last() == c);
        if in_class_exec(cls, c) {
            parts.push(Vec::new());
            assert(vecs_view(parts@) =~= split_on(prev, cls).push(seq![]));
        } else {
            let mut last = parts.pop().unwrap();
            last.push(c);
            parts.push(last);
            proof {
                let rest = split_on(prev, cls);
                assert(vecs_view(parts@) =~= rest.update(rest.len() - 1, rest.last().push(c)));
            }
        }
        i += 1;
    }
    assert(s@.take(s@.len() as int) =~= s@);
    parts
}

// ---------------------------------------------------------------------------
// Searching
// ---------------------------------------------------------------------------

pub open spec fn occurs_at(s: Seq<char>, p: Seq<char>, i: int) -> bool {
    0 <= i && i + p.len() <= s.len() && s.subrange(i, i + p.len()) == p
}

/// The first index `>= i` at which `p` occurs in `s`, or `-1`.
pub open spec fn find_from(s: Seq<char>, p: Seq<char>, i: int) -> int
    decreases s.len() + 1 - i,
{
    if i < 0 || i + p.len() > s.len() {
        -1
    } else if occurs_at(s, p, i) {
        i
    } else {
        find_from(s, p, i + 1)
    }
}

pub open spec fn find(s: Seq<char>, p: Seq<char>) -> int {
    find_from(s, p, 0)
}

/// `str::contains`.
pub open spec fn contains_seq(s: Seq<char>, p: Seq<char>) -> bool {
    find(s, p) >= 0
}

pub open spec fn starts_with(s: Seq<char>, p: Seq<char>) -> bool {
    p.len() <= s.len() && s.take(p.len() as int) == p
}

pub open spec fn ends_with(s: Seq<char>, p: Seq<char>) -> bool {
    p.len() <= s.len() && s.skip(s.len() - p.len()) == p
}

/// `str::split_once`.
pub open spec fn split_once(s: Seq<char>, p: Seq<char>) -> Option<(Seq<char>, Seq<char>)> {
    let i = find(s, p);
    if i < 0 {
        None
    } else {
        Some((s.take(i), s.skip(i + p.len())))
    }
}

pub proof fn lemma_find_from_bounds(s: Seq<char>, p: Seq<char>, i: int)
    ensures
        find_from(s, p, i) == -1 || (i <= find_from(s, p, i) && occurs_at(
            s,
            p,
            find_from(s, p, i),
        )),
    decreases s.len() + 1 - i,
{
    if i < 0 || i + p.len() > s.len() {
    } else if occurs_at(s, p, i) {
    } else {
        lemma_find_from_bounds(s, p, i + 1);
    }
}

/// No occurrence of `p` starts in `[i, j)` when `find_from` from `i` lands at or after `j`.
pub proof fn lemma_find_from_first(s: Seq<char>, p: Seq<char>, i: int, k: int)
    requires
        0 <= i <= k,
        find_from(s, p, i) == -1 || k < find_from(s, p, i),
    ensures
        !occurs_at(s, p, k),
    decreases k - i,
{
    if i + p.len() > s.len() {
    } else if occurs_at(s, p, i) {
    } else if i < k {
        lemma_find_from_first(s, p, i + 1, k);
    }
}

/// Searching a suffix of `s` is searching `s` from the suffix's start.
pub proof fn lemma_find_from_skip(s: Seq<char>, p: Seq<char>, i: int, j: int)
    requires
        0 <= i <= s.len(),
        0 <= j,
    ensures
        find_from(s, p, i + j) == (if find_from(s.skip(i), p, j) < 0 {
            -1
        } else {
            find_from(s.skip(i), p, j) + i
        }),
    decreases s.len() + 1 - (i + j),
{
    let t = s.skip(i);
    if i + j + p.len() > s.len() {
    } else {
        assert(s.subrange(i + j, i + j + p.len()) =~= t.subrange(j, j + p.len()));
        if !occurs_at(s, p, i + j) {
            lemma_find_from_skip(s, p, i, j + 1);
        }
    }
}

pub fn matches_at(s: &[char], p: &[char], i: usize) -> (b: bool)
    ensures
        b == occurs_at(s@, p@, i as int),
{
    let n = s.len();
    if i > n || p.len() > n - i {
        return false;
    }
    let mut k: usize = 0;
    while k < p.len()
        invariant
            n == s@.len(),
            i + p@.len() <= s@.len(),
            k <= p@.len(),
            forall|j: int| 0 <= j < k ==> s@[i + j] == p@[j],
        decreases p@.len() - k,
    {
        if s[i + k] != p[k] {
            assert(s@.subrange(i as int, i + p@.len())[k as int] != p@[k as int]);
            return false;
        }
        k += 1;
    }
    assert(s@.subrange(i as int, i + p@.len()) =~= p@);
    true
}

pub fn find_from_exec(s: &[char], p: &[char], start: usize) -> (r: Option<usize>)
    ensures
        match r {
            Some(k) => find_from(s@, p@, start as int) == k as int,
            None => find_from(s@, p@, start as int) == -1,
        },
{
    let n = s.len();
    if p.len() == 0 {
        if start > n {
            return None;
        }
        assert(s@.subrange(start as int, start as int) =~= p@);
        return Some(start);
    }
    let mut i = start;
    loop
        invariant
            n == s@.len(),
            p@.len() > 0,
            start <= i,
            find_from(s@, p@, start as int) == find_from(s@, p@, i as int),
        decreases s@.len() + 1 - i,
    {
        if i > n || p.len() > n - i {
            return None;
        }
        if matches_at(s, p, i) {
            return Some(i);
        }
        i += 1;
    }
}

/// `split_once`, returning the two parts as new vectors.
pub fn split_once_exec(s: &[char], p: &[char]) -> (r: Option<(Vec<char>, Vec<char>)>)
    ensures
        match r {
            Some((a, b)) => split_once(s@, p@) == Some((a@, b@)),
            None => split_once(s@, p@) is None,
        },
{
    match find_from_exec(s, p, 0) {
        None => None,
        Some(i) => {
            proof {
                lemma_find_from_bounds(s@, p@, 0);
            }
            let n = s.len();
            assert(i + p@.len() <= n);
            let a = copy_range(s, 0, i);
            let b = copy_range(s, i + p.len(), s.len());
            assert(a@ =~= s@.take(i as int));
            assert(b@ =~= s@.skip(i + p@.len()));
            Some((a, b))
        },
    }
}

pub fn contains_exec(s: &[char], p: &[char]) -> (b: bool)
    ensures
        b == contains_seq(s@, p@),
{
    find_from_exec(s, p, 0).is_some()
}

pub fn starts_with_exec(s: &[char], p: &[char]) -> (b: bool)
    ensures
        b == starts_with(s@, p@),
{
    let r = matches_at(s, p, 0);
    proof {
        if p@.len() <= s@.len() {
            assert(s@.subrange(0, p@.len() as int) =~= s@.take(p@.len() as int));
        }
    }
    r
}

pub fn ends_with_exec(s: &[char], p: &[char]) -> (b: bool)
    ensures
        b == ends_with(s@, p@),
{
    if p.len() > s.len() {
        return false;
    }
    let r = matches_at(s, p, s.len() - p.len());
    assert(s@.subrange(s@.len() - p@.len(), s@.len() as int) =~= s@.skip(s@.len() - p@.len()));
    r
}

/// Index of the last occurrence of `c`, or `-1`.
pub open spec fn rfind_char(s: Seq<char>, c: char) -> int
    decreases s.len(),
{
    if s.len() == 0 {
        -1
    } else if s.last() == c {
        s.len() - 1
    } else {
        rfind_char(s.drop_last(), c)
    }
}

pub proof fn lemma_rfind_char(s: Seq<char>, c: char)
    ensures
        -1 <= rfind_char(s, c) < s.len(),
        rfind_char(s, c) >= 0 ==> s[rfind_char(s, c)] == c,
        forall|k: int| rfind_char(s, c) < k < s.len() ==> s[k] != c,
    decreases s.len(),
{
    if s.len() > 0 && s.last() != c {
        lemma_rfind_char(s.drop_last(), c);
        assert forall|k: int| rfind_char(s, c) < k < s.len() implies s[k] != c by {
            if k < s.len() - 1 {
                assert(s.drop_last()[k] == s[k]);
            }
        }
    }
}

pub fn rfind_char_exec(s: &[char], c: char) -> (r: Option<usize>)
    ensures
        match r {
            Some(k) => rfind_char(s@, c) == k as int,
            None => rfind_char(s@, c) == -1,
        },
{
    let mut j = s.len();
    assert(s@.take(j as int) =~= s@);
    while j > 0
        invariant
            j <= s@.len(),
            rfind_char(s@, c) == rfind_char(s@.take(j as int), c),
        decreases j,
    {
        assert(s@.take(j as int).drop_last() =~= s@.take(j - 1));
        if s[j - 1] == c {
            return Some(j - 1);
        }
        j -= 1;
    }
    None
}

/// Whether `c` occurs in `s`.
pub fn has_char(s: &[char], c: char) -> (b: bool)
    ensures
        b == s@.contains(c),
{
    let mut i: usize = 0;
    while i < s.len()
        invariant
            i <= s@.len(),
            forall|k: int| 0 <= k < i ==> s@[k] != c,
        decreases s@.len() - i,
    {
        if s[i] == c {
            return true;
        }
        i += 1;
    }
    false
}

/// Whether every character is an ASCII digit.
pub fn all_digits(s: &[char]) -> (b: bool)
    ensures
        b == (forall|k: int| 0 <= k < s@.len() ==> is_digit(#[trigger] s@[k])),
{
    let mut i: usize = 0;
    while i < s.len()
        invariant
            i <= s@.len(),
            forall|k: int| 0 <= k < i ==> is_digit(#[trigger] s@[k]),
        decreases s@.len() - i,
    {
        if !is_digit_exec(s[i]) {
            return false;
        }
        i += 1;
    }
    true
}

/// `str::replace` of one character by another.
pub open spec fn replace_char(s: Seq<char>, from: char, to: char) -> Seq<char> {
    s.map_values(|c: char| if c == from { to } else { c })
}

pub fn replace_char_exec(s: &[char], from: char, to: char) -> (r: Vec<char>)
    ensures
        r@ == replace_char(s@, from, to),
{
    let mut r: Vec<char> = Vec::new();
    let mut i: usize = 0;
    while i < s.len()
        invariant
            i <= s@.len(),
            r@ == replace_char(s@.take(i as int), from, to),
        decreases s@.len() - i,
    {
        let c = s[i];
        r.push(if c == from { to } else { c });
        i += 1;
        assert(replace_char(s@.take(i as int), from, to) =~= replace_char(s@.take(i - 1), from, to).push(
            if s@[i - 1] == from { to } else { s@[i - 1] }));
    }
    assert(s@.take(s@.len() as int) =~= s@);
    r
}

pub fn append_all(r: &mut Vec<char>, s: &[char])
    ensures
        final(r)@ == old(r)@ + s@,
{
    let mut i: usize = 0;
    while i < s.len()
        invariant
            i <= s@.len(),
            r@ == old(r)@ + s@.take(i as int),
        decreases s@.len() - i,
    {
        r.push(s[i]);
        i += 1;
        assert(r@ =~= old(r)@ + s@.take(i as int));
    }
    assert(s@.take(s@.len() as int) =~= s@);
}

/// Whether a string holds exactly the characters of `lit`.
pub fn string_is(s: &String, lit: &str) -> (b: bool)
    ensures
        b == (s@ == lit@),
{
    let l = lit.to_string();
    *s == l
}

/// Appends the characters of a string.
pub fn push_str(r: &mut Vec<char>, s: &str)
    ensures
        final(r)@ == old(r)@ + s@,
{
    let c = chars_of(s);
    append_all(r, c.as_slice());
}

// ---------------------------------------------------------------------------
// Conversions between `str` / `String` and character vectors
// ---------------------------------------------------------------------------

pub fn chars_of(s: &str) -> (v: Vec<char>)
    ensures
        v@ == s@,
{
    let mut v: Vec<char> = Vec::new();
    for c in it: s.chars()
        invariant
            v@ == it.seq().take(it.index() as int),
    {
        v.push(c);
    }
    v
}

/// `String::from_iter` over characters: the string holds exactly these characters.
#[verifier::external_body]
pub(crate) fn string_of(v: Vec<char>) -> (s: String)
    ensures
        s@ == v@,
{
    String::from_iter(v)
}

// ---------------------------------------------------------------------------
// Decimal numbers
// ---------------------------------------------------------------------------

pub open spec fn digit_char(d: nat) -> char {
    ((('0' as u32) as nat) + d) as char
}

/// Decimal rendering of a natural number, as `u64::to_string` writes it.
pub open spec fn decimal(n: nat) -> Seq<char>
    decreases n,
{
    if n < 10 {
        seq![digit_char(n)]
    } else {
        decimal(n / 10).push(digit_char(n % 10))
    }
}

proof fn lemma_digit_char_injective(a: nat, b: nat)
    requires
        a < 10,
        b < 10,
        digit_char(a) == digit_char(b),
    ensures
        a == b,
{
    assert(digit_char(a) as u32 == 48 + a);
    assert(digit_char(b) as u32 == 48 + b);
}

pub proof fn lemma_decimal_len(n: nat)
    ensures
        decimal(n).len() >= 1,
        n >= 10 ==> decimal(n).len() >= 2,
    decreases n,
{
    if n >= 10 {
        lemma_decimal_len(n / 10);
    }
}

/// Different numbers are written differently.
pub proof fn lemma_decimal_injective(a: nat, b: nat)
    requires
        decimal(a) == decimal(b),
    ensures
        a == b,
    decreases a,
{
    lemma_decimal_len(a);
    lemma_decimal_len(b);
    if a < 10 && b < 10 {
        assert(decimal(a)[0] == digit_char(a));
        assert(decimal(b)[0] == digit_char(b));
        lemma_digit_char_injective(a, b);
    } else if a >= 10 && b >= 10 {
        assert(decimal(a).drop_last() =~= decimal(a / 10));
        assert(decimal(b).drop_last() =~= decimal(b / 10));
        lemma_decimal_injective(a / 10, b / 10);
        assert(decimal(a).last() == digit_char(a % 10));
        assert(decimal(b).last() == digit_char(b % 10));
        lemma_digit_char_injective(a % 10, b % 10);
    }
}

/// Left-padding with `'0'` up to `width` characters (`{:0width}`).
pub open spec fn zero_pad(s: Seq<char>, width: nat) -> Seq<char> {
    if s.len() >= width {
        s
    } else {
        Seq::new((width - s.len()) as nat, |i: int| '0') + s
    }
}

fn digit_exec(d: u64) -> (c: char)
    requires
        d < 10,
    ensures
        c == digit_char(d as nat),
{
    let b: u8 = (48 + d) as u8;
    b as char
}

pub fn decimal_exec(n: u64) -> (r: Vec<char>)
    ensures
        r@ == decimal(n as nat),
    decreases n,
{
    if n < 10 {
        let mut v: Vec<char> = Vec::new();
        v.push(digit_exec(n));
        assert(v@ =~= seq![digit_char(n as nat)]);
        v
    } else {
        let mut v = decimal_exec(n / 10);
        v.push(digit_exec(n % 10));
        v
    }
}

pub fn zero_pad_exec(s: Vec<char>, width: usize) -> (r: Vec<char>)
    ensures
        r@ == zero_pad(s@, width as nat),
{
    if s.len() >= width {
        return s;
    }
    let mut r: Vec<char> = Vec::new();
    let n = width - s.len();
    let mut i: usize = 0;
    while i < n
        invariant
            i <= n,
            r@ == Seq::new(i as nat, |k: int| '0'),
        decreases n - i,
    {
        r.push('0');
        i += 1;
        assert(r@ =~= Seq::new(i as nat, |k: int| '0'));
    }
    append_all(&mut r, s.as_slice());
    r
}

// ---------------------------------------------------------------------------
// UTF-8 byte lengths
// ---------------------------------------------------------------------------

/// Number of bytes in the UTF-8 encoding of `c` (`char::len_utf8`).
pub open spec fn utf8_width(c: char) -> nat {
    let u = c as u32;
    if u < 0x80 {
        1
    } else if u < 0x800 {
        2
    } else if u < 0x10000 {
        3
    } else {
        4
    }
}

/// Number of bytes in the UTF-8 encoding of `s` (`str::len`).
pub open spec fn utf8_len(s: Seq<char>) -> nat
    decreases s.len(),
{
    if s.len() == 0 {
        0
    } else {
        utf8_len(s.drop_last()) + utf8_width(s.last())
    }
}

pub fn utf8_width_exec(c: char) -> (w: usize)
    ensures
        w == utf8_width(c),
        1 <= w <= 4,
{
    let u = c as u32;
    if u < 0x80 {
        1
    } else if u < 0x800 {
        2
    } else if u < 0x10000 {
        3
    } else {
        4
    }
}

pub proof fn lemma_utf8_len_concat(a: Seq<char>, b: Seq<char>)
    ensures
        utf8_len(a + b) == utf8_len(a) + utf8_len(b),
    decreases b.len(),
{
    if b.len() == 0 {
        assert(a + b =~= a);
    } else {
        lemma_utf8_len_concat(a, b.drop_last());
        assert((a + b).drop_last() =~= a + b.drop_last());
    }
}

pub proof fn lemma_utf8_len_subrange(s: Seq<char>, lo: int, hi: int)
    requires
        0 <= lo <= hi <= s.len(),
    ensures
        utf8_len(s.subrange(lo, hi)) <= utf8_len(s),
        utf8_len(s.subrange(lo, hi)) + utf8_len(s.take(lo)) + utf8_len(s.skip(hi)) == utf8_len(s),
{
    lemma_utf8_len_concat(s.take(lo), s.subrange(lo, hi));
    lemma_utf8_len_concat(s.take(lo) + s.subrange(lo, hi), s.skip(hi));
    assert(s.take(lo) + s.subrange(lo, hi) + s.skip(hi) =~= s);
}

pub proof fn lemma_utf8_len_at_least_len(s: Seq<char>)
    ensures
        s.len() <= utf8_len(s) <= 4 * s.len(),
    decreases s.len(),
{
    if s.len() > 0 {
        lemma_utf8_len_at_least_len(s.drop_last());
    }
}

/// `utf8_len(s)`, or `cap + 1` when it exceeds `cap`.
pub fn utf8_len_capped(s: &[char], cap: usize) -> (r: usize)
    requires
        cap < usize::MAX - 4,
    ensures
        utf8_len(s@) <= cap ==> r == utf8_len(s@),
        utf8_len(s@) > cap ==> r == cap + 1,
{
    let mut acc: usize = 0;
    let mut i: usize = 0;
    while i < s.len()
        invariant
            i <= s@.len(),
            cap < usize::MAX - 4,
            acc == utf8_len(s@.take(i as int)),
            acc <= cap,
        decreases s@.len() - i,
    {
        let w = utf8_width_exec(s[i]);
        assert(s@.take(i + 1).drop_last() =~= s@.take(i as int));
        if acc + w > cap {
            proof {
                lemma_utf8_len_subrange(s@, 0, i + 1);
                assert(s@.subrange(0, i + 1) =~= s@.take(i + 1));
            }
            return cap + 1;
        }
        acc = acc + w;
        i += 1;
    }
    assert(s@.take(s@.len() as int) =~= s@);
    acc
}

} // verus!
