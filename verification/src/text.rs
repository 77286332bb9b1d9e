use vstd::prelude::*;
use vstd::string::*;

verus! {

broadcast use vstd::string::group_string_axioms;

// ---------------------------------------------------------------------------
// Character classes
// ---------------------------------------------------------------------------

/// Rust's `char::is_whitespace`: the Unicode `White_Space` property.
pub open spec fn is_ws(c: char) -> bool {
    ||| ('\u{9}' <= c && c <= '\u{d}')
    ||| c == ' '
    ||| c == '\u{85}'
    ||| c == '\u{a0}'
    ||| c == '\u{1680}'
    ||| ('\u{2000}' <= c && c <= '\u{200a}')
    ||| c == '\u{2028}'
    ||| c == '\u{2029}'
    ||| c == '\u{202f}'
    ||| c == '\u{205f}'
    ||| c == '\u{3000}'
}

pub open spec fn is_ascii_digit(c: char) -> bool {
    '0' <= c && c <= '9'
}

pub open spec fn is_ascii_upper(c: char) -> bool {
    'A' <= c && c <= 'Z'
}

pub open spec fn is_ascii_lower(c: char) -> bool {
    'a' <= c && c <= 'z'
}

pub open spec fn is_ascii_alnum(c: char) -> bool {
    is_ascii_digit(c) || is_ascii_upper(c) || is_ascii_lower(c)
}

/// `char::is_ascii_punctuation`.
pub open spec fn is_ascii_punct(c: char) -> bool {
    ||| ('!' <= c && c <= '/')
    ||| (':' <= c && c <= '@')
    ||| ('[' <= c && c <= '`')
    ||| ('{' <= c && c <= '~')
}

/// `char::is_control`: the general category `Cc`.
pub open spec fn is_control(c: char) -> bool {
    c <= '\u{1f}' || ('\u{7f}' <= c && c <= '\u{9f}')
}

pub open spec fn lower_char(c: char) -> char {
    if is_ascii_upper(c) {
        ((c as u32) + 32) as char
    } else {
        c
    }
}

pub open spec fn upper_char(c: char) -> char {
    if is_ascii_lower(c) {
        ((c as u32) - 32) as char
    } else {
        c
    }
}

/// `str::to_ascii_lowercase`, character by character.
pub open spec fn ascii_lower(s: Seq<char>) -> Seq<char> {
    s.map_values(|c: char| lower_char(c))
}

/// `str::to_ascii_uppercase`, character by character.
pub open spec fn ascii_upper(s: Seq<char>) -> Seq<char> {
    s.map_values(|c: char| upper_char(c))
}

/// `str::eq_ignore_ascii_case`.
pub open spec fn eq_ignore_case(a: Seq<char>, b: Seq<char>) -> bool {
    ascii_lower(a) == ascii_lower(b)
}

pub fn is_whitespace(c: char) -> (r: bool)
    ensures
        r == is_ws(c),
{
    ('\u{9}' <= c && c <= '\u{d}') || c == ' ' || c == '\u{85}' || c == '\u{a0}' || c
        == '\u{1680}' || ('\u{2000}' <= c && c <= '\u{200a}') || c == '\u{2028}' || c
        == '\u{2029}' || c == '\u{202f}' || c == '\u{205f}' || c == '\u{3000}'
}

pub fn is_digit(c: char) -> (r: bool)
    ensures
        r == is_ascii_digit(c),
{
    '0' <= c && c <= '9'
}

pub fn is_alnum(c: char) -> (r: bool)
    ensures
        r == is_ascii_alnum(c),
{
    ('0' <= c && c <= '9') || ('A' <= c && c <= 'Z') || ('a' <= c && c <= 'z')
}

pub fn is_punct(c: char) -> (r: bool)
    ensures
        r == is_ascii_punct(c),
{
    ('!' <= c && c <= '/') || (':' <= c && c <= '@') || ('[' <= c && c <= '`') || ('{' <= c
        && c <= '~')
}

pub fn is_control_char(c: char) -> (r: bool)
    ensures
        r == is_control(c),
{
    c <= '\u{1f}' || ('\u{7f}' <= c && c <= '\u{9f}')
}

pub fn to_lower_char(c: char) -> (r: char)
    ensures
        r == lower_char(c),
{
    if 'A' <= c && c <= 'Z' {
        let v: u32 = (c as u32) + 32;
        assert(0x61 <= v <= 0x7a);
        char_from_ascii(v)
    } else {
        c
    }
}

pub fn to_upper_char(c: char) -> (r: char)
    ensures
        r == upper_char(c),
{
    if 'a' <= c && c <= 'z' {
        let v: u32 = (c as u32) - 32;
        char_from_ascii(v)
    } else {
        c
    }
}

/// `char::from_u32` on an ASCII code point.
#[verifier::external_body]
fn char_from_ascii(v: u32) -> (c: char)
    requires
        v < 128,
    ensures
        c == v as char,
        c as u32 == v,
{
    char::from_u32(v).unwrap()
}

// ---------------------------------------------------------------------------
// Conversions between strings and character vectors
// ---------------------------------------------------------------------------

/// Collects the characters of a string slice into a vector.
pub fn chars_of(s: &str) -> (v: Vec<char>)
    ensures
        v@ == s@,
{
    let mut v: Vec<char> = Vec::new();
    for c in it: s.chars()
        invariant
            it.seq() == s@,
            v@ == it.seq().take(it.index() as int),
    {
        v.push(c);
    }
    v
}

/// `String::push`: appends one character.
#[verifier::external_body]
fn push_char(s: &mut String, c: char)
    ensures
        final(s)@ == old(s)@.push(c),
{
    s.push(c);
}

/// Builds a string holding the given characters.
pub fn string_of(v: &Vec<char>) -> (s: String)
    ensures
        s@ == v@,
{
    let mut s = String::new();
    let mut i: usize = 0;
    while i < v.len()
        invariant
            i <= v.len(),
            s@ == v@.take(i as int),
        decreases v.len() - i,
    {
        push_char(&mut s, v[i]);
        i += 1;
        assert(v@.take(i as int) == v@.take((i - 1) as int).push(v@[i - 1]));
    }
    assert(v@.take(v.len() as int) == v@);
    s
}

/// The characters `v[from..to]`.
pub fn slice_chars(v: &Vec<char>, from: usize, to: usize) -> (r: Vec<char>)
    requires
        from <= to <= v.len(),
    ensures
        r@ == v@.subrange(from as int, to as int),
{
    let mut r: Vec<char> = Vec::new();
    let mut i = from;
    while i < to
        invariant
            from <= i <= to <= v.len(),
            r@ == v@.subrange(from as int, i as int),
        decreases to - i,
    {
        r.push(v[i]);
        i += 1;
    }
    r
}

/// Appends the characters of `b` to `a`.
pub fn extend_chars(a: &mut Vec<char>, b: &Vec<char>)
    ensures
        final(a)@ == old(a)@ + b@,
{
    let mut i: usize = 0;
    while i < b.len()
        invariant
            i <= b.len(),
            a@ == old(a)@ + b@.take(i as int),
        decreases b.len() - i,
    {
        a.push(b[i]);
        i += 1;
        assert(b@.take(i as int) == b@.take((i - 1) as int).push(b@[i - 1]));
    }
    assert(b@.take(b.len() as int) == b@);
}

/// The concatenation of two strings.
pub fn concat_str(a: &str, b: &str) -> (r: String)
    ensures
        r@ == a@ + b@,
{
    let mut v = chars_of(a);
    let w = chars_of(b);
    extend_chars(&mut v, &w);
    string_of(&v)
}

pub fn seq_eq(a: &Vec<char>, b: &Vec<char>) -> (r: bool)
    ensures
        r == (a@ == b@),
{
    if a.len() != b.len() {
        return false;
    }
    let mut i: usize = 0;
    while i < a.len()
        invariant
            a.len() == b.len(),
            i <= a.len(),
            a@.take(i as int) == b@.take(i as int),
        decreases a.len() - i,
    {
        if a[i] != b[i] {
            assert(a@[i as int] != b@[i as int]);
            return false;
        }
        i += 1;
        assert(a@.take(i as int) == a@.take((i - 1) as int).push(a@[i - 1]));
        assert(b@.take(i as int) == b@.take((i - 1) as int).push(b@[i - 1]));
    }
    assert(a@.take(a.len() as int) == a@);
    assert(b@.take(b.len() as int) == b@);
    true
}

/// String equality.
pub fn str_eq(a: &str, b: &str) -> (r: bool)
    ensures
        r == (a@ == b@),
{
    seq_eq(&chars_of(a), &chars_of(b))
}

// ---------------------------------------------------------------------------
// Case mapping
// ---------------------------------------------------------------------------

pub fn lower_chars(v: &Vec<char>) -> (r: Vec<char>)
    ensures
        r@ == ascii_lower(v@),
{
    let mut r: Vec<char> = Vec::new();
    let mut i: usize = 0;
    while i < v.len()
        invariant
            i <= v.len(),
            r@ == ascii_lower(v@.take(i as int)),
        decreases v.len() - i,
    {
        r.push(to_lower_char(v[i]));
        i += 1;
        assert(v@.take(i as int) == v@.take((i - 1) as int).push(v@[i - 1]));
    }
    assert(v@.take(v.len() as int) == v@);
    r
}

pub fn upper_chars(v: &Vec<char>) -> (r: Vec<char>)
    ensures
        r@ == ascii_upper(v@),
{
    let mut r: Vec<char> = Vec::new();
    let mut i: usize = 0;
    while i < v.len()
        invariant
            i <= v.len(),
            r@ == ascii_upper(v@.take(i as int)),
        decreases v.len() - i,
    {
        r.push(to_upper_char(v[i]));
        i += 1;
        assert(v@.take(i as int) == v@.take((i - 1) as int).push(v@[i - 1]));
    }
    assert(v@.take(v.len() as int) == v@);
    r
}

/// `str::to_ascii_lowercase`.
pub fn to_ascii_lowercase(s: &str) -> (r: String)
    ensures
        r@ == ascii_lower(s@),
{
    string_of(&lower_chars(&chars_of(s)))
}

/// `str::to_ascii_uppercase`.
pub fn to_ascii_uppercase(s: &str) -> (r: String)
    ensures
        r@ == ascii_upper(s@),
{
    string_of(&upper_chars(&chars_of(s)))
}

/// `str::eq_ignore_ascii_case`.
pub fn eq_ignore_ascii_case(a: &str, b: &str) -> (r: bool)
    ensures
        r == eq_ignore_case(a@, b@),
{
    seq_eq(&lower_chars(&chars_of(a)), &lower_chars(&chars_of(b)))
}


// ---------------------------------------------------------------------------
// Character sets used by trimming, splitting and mapping
// ---------------------------------------------------------------------------

/// The sets of characters that the library trims, splits on or replaces.
#[derive(Clone, Copy, PartialEq, Eq, Structural, Debug)]
pub enum CharSet {
    /// `char::is_whitespace`.
    Whitespace,
    /// `' '` and `'.'`.
    SpaceDot,
    /// `'-'`, `'_'`, `' '` and `'.'`.
    Separators,
    /// `'/'`.
    Slash,
    /// ASCII punctuation and the CJK punctuation `：，。、《》【】`.
    MetadataPunct,
    /// `'_'` and `'.'`.
    UnderscoreDot,
    /// `'\r'` and `'\n'`.
    LineBreak,
    /// `'@'`.
    At,
    /// `'\u{a0}'` (no-break space).
    NoBreakSpace,
    /// `'.'`.
    Dot,
    /// `':'`, `'：'`, `'/'`, `','`, `'、'`, `'\n'`, `'\r'` and `'\t'`.
    NameSeparators,
}

pub open spec fn in_set(set: CharSet, c: char) -> bool {
    match set {
        CharSet::Whitespace => is_ws(c),
        CharSet::SpaceDot => c == ' ' || c == '.',
        CharSet::Separators => c == '-' || c == '_' || c == ' ' || c == '.',
        CharSet::Slash => c == '/',
        CharSet::MetadataPunct => is_ascii_punct(c) || c == '：' || c == '，' || c == '。' || c
            == '、' || c == '《' || c == '》' || c == '【' || c == '】',
        CharSet::UnderscoreDot => c == '_' || c == '.',
        CharSet::LineBreak => c == '\r' || c == '\n',
        CharSet::At => c == '@',
        CharSet::NoBreakSpace => c == '\u{a0}',
        CharSet::Dot => c == '.',
        CharSet::NameSeparators => c == ':' || c == '：' || c == '/' || c == ',' || c == '、' || c
            == '\n' || c == '\r' || c == '\t',
    }
}

pub fn is_in_set(set: CharSet, c: char) -> (r: bool)
    ensures
        r == in_set(set, c),
{
    match set {
        CharSet::Whitespace => is_whitespace(c),
        CharSet::SpaceDot => c == ' ' || c == '.',
        CharSet::Separators => c == '-' || c == '_' || c == ' ' || c == '.',
        CharSet::Slash => c == '/',
        CharSet::MetadataPunct => is_punct(c) || c == '：' || c == '，' || c == '。' || c == '、'
            || c == '《' || c == '》' || c == '【' || c == '】',
        CharSet::UnderscoreDot => c == '_' || c == '.',
        CharSet::LineBreak => c == '\r' || c == '\n',
        CharSet::At => c == '@',
        CharSet::NoBreakSpace => c == '\u{a0}',
        CharSet::Dot => c == '.',
        CharSet::NameSeparators => c == ':' || c == '：' || c == '/' || c == ',' || c == '、' || c
            == '\n' || c == '\r' || c == '\t',
    }
}

/// `str::trim_start_matches` with a set of characters.
pub open spec fn trim_start_set(s: Seq<char>, set: CharSet) -> Seq<char>
    decreases s.len(),
{
    if s.len() > 0 && in_set(set, s[0]) {
        trim_start_set(s.drop_first(), set)
    } else {
        s
    }
}

/// `str::trim_end_matches` with a set of characters.
pub open spec fn trim_end_set(s: Seq<char>, set: CharSet) -> Seq<char>
    decreases s.len(),
{
    if s.len() > 0 && in_set(set, s.last()) {
        trim_end_set(s.drop_last(), set)
    } else {
        s
    }
}

/// `str::trim_matches` with a set of characters.
pub open spec fn trim_set(s: Seq<char>, set: CharSet) -> Seq<char> {
    trim_end_set(trim_start_set(s, set), set)
}

/// `str::trim`.
pub open spec fn trim_ws(s: Seq<char>) -> Seq<char> {
    trim_set(s, CharSet::Whitespace)
}

/// Every character of `s` that lies in `set` replaced by `to`.
pub open spec fn map_set(s: Seq<char>, set: CharSet, to: char) -> Seq<char> {
    s.map_values(|c: char| if in_set(set, c) { to } else { c })
}

proof fn lemma_trim_start_skip(s: Seq<char>, set: CharSet, i: int)
    requires
        0 <= i <= s.len(),
        forall|j: int| 0 <= j < i ==> in_set(set, #[trigger] s[j]),
    ensures
        trim_start_set(s, set) == trim_start_set(s.skip(i), set),
    decreases i,
{
    if i > 0 {
        assert(s.skip(1) == s.drop_first());
        lemma_trim_start_skip(s.drop_first(), set, i - 1);
        assert(s.drop_first().skip(i - 1) == s.skip(i));
    } else {
        assert(s.skip(0) == s);
    }
}

proof fn lemma_trim_end_take(s: Seq<char>, set: CharSet, i: int)
    requires
        0 <= i <= s.len(),
        forall|j: int| i <= j < s.len() ==> in_set(set, #[trigger] s[j]),
    ensures
        trim_end_set(s, set) == trim_end_set(s.take(i), set),
    decreases s.len() - i,
{
    if i < s.len() {
        lemma_trim_end_take(s.drop_last(), set, i);
        assert(s.drop_last().take(i) == s.take(i));
    } else {
        assert(s.take(i) == s);
    }
}

/// The characters of `v` with leading and trailing characters of `set` removed.
pub fn trim_chars(v: &Vec<char>, set: CharSet) -> (r: Vec<char>)
    ensures
        r@ == trim_set(v@, set),
{
    let mut start: usize = 0;
    while start < v.len() && is_in_set(set, v[start])
        invariant
            start <= v.len(),
            forall|j: int| 0 <= j < start ==> in_set(set, #[trigger] v@[j]),
        decreases v.len() - start,
    {
        start += 1;
    }
    proof {
        lemma_trim_start_skip(v@, set, start as int);
    }
    let mut end: usize = v.len();
    while end > start && is_in_set(set, v[end - 1])
        invariant
            start <= end <= v.len(),
            forall|j: int| end <= j < v.len() ==> in_set(set, #[trigger] v@[j]),
        decreases end,
    {
        end -= 1;
    }
    let ghost t = v@.skip(start as int);
    proof {
        assert forall|j: int| (end - start) <= j < t.len() implies in_set(set, #[trigger] t[j]) by {
            assert(t[j] == v@[start + j]);
        }
        lemma_trim_end_take(t, set, end - start);
        assert(t.take(end - start) == v@.subrange(start as int, end as int));
        if end > start {
            assert(!in_set(set, v@[end - 1]));
        }
        if start < v.len() {
            assert(!in_set(set, v@[start as int]));
        }
    }
    let r = slice_chars(v, start, end);
    proof {
        let u = v@.subrange(start as int, end as int);
        if u.len() > 0 {
            assert(u[0] == v@[start as int]);
        }
        assert(trim_start_set(u, set) == u);
        assert(trim_end_set(t, set) == trim_end_set(u, set));
        if u.len() > 0 {
            assert(u.last() == v@[end - 1]);
        }
        assert(trim_end_set(u, set) == u);
    }
    r
}

/// `str::trim_matches` with a set of characters.
pub fn trim_str_set(s: &str, set: CharSet) -> (r: String)
    ensures
        r@ == trim_set(s@, set),
{
    string_of(&trim_chars(&chars_of(s), set))
}

/// `str::trim`.
pub fn trim_str(s: &str) -> (r: String)
    ensures
        r@ == trim_ws(s@),
{
    trim_str_set(s, CharSet::Whitespace)
}

/// The characters of `v` with trailing characters of `set` removed.
pub fn trim_end_chars(v: &Vec<char>, set: CharSet) -> (r: Vec<char>)
    ensures
        r@ == trim_end_set(v@, set),
{
    let mut end: usize = v.len();
    while end > 0 && is_in_set(set, v[end - 1])
        invariant
            end <= v.len(),
            forall|j: int| end <= j < v.len() ==> in_set(set, #[trigger] v@[j]),
        decreases end,
    {
        end -= 1;
    }
    proof {
        lemma_trim_end_take(v@, set, end as int);
        let u = v@.take(end as int);
        if end > 0 {
            assert(u.last() == v@[end - 1]);
        }
        assert(trim_end_set(u, set) == u);
    }
    slice_chars(v, 0, end)
}

/// The characters of `v` with leading characters of `set` removed.
pub fn trim_start_chars(v: &Vec<char>, set: CharSet) -> (r: Vec<char>)
    ensures
        r@ == trim_start_set(v@, set),
{
    let mut start: usize = 0;
    while start < v.len() && is_in_set(set, v[start])
        invariant
            start <= v.len(),
            forall|j: int| 0 <= j < start ==> in_set(set, #[trigger] v@[j]),
        decreases v.len() - start,
    {
        start += 1;
    }
    proof {
        lemma_trim_start_skip(v@, set, start as int);
        let u = v@.skip(start as int);
        if start < v.len() {
            assert(u[0] == v@[start as int]);
        }
        assert(trim_start_set(u, set) == u);
        assert(u == v@.subrange(start as int, v.len() as int));
    }
    slice_chars(v, start, v.len())
}

/// Replaces every character of `set` in `v` by `to`.
pub fn map_chars(v: &Vec<char>, set: CharSet, to: char) -> (r: Vec<char>)
    ensures
        r@ == map_set(v@, set, to),
{
    let mut r: Vec<char> = Vec::new();
    let mut i: usize = 0;
    while i < v.len()
        invariant
            i <= v.len(),
            r@ == map_set(v@.take(i as int), set, to),
        decreases v.len() - i,
    {
        let c = v[i];
        if is_in_set(set, c) {
            r.push(to);
        } else {
            r.push(c);
        }
        i += 1;
        assert(v@.take(i as int) == v@.take((i - 1) as int).push(v@[i - 1]));
    }
    assert(v@.take(v.len() as int) == v@);
    r
}

// ---------------------------------------------------------------------------
// Searching
// ---------------------------------------------------------------------------

pub open spec fn starts_with(s: Seq<char>, p: Seq<char>) -> bool {
    p.len() <= s.len() && s.take(p.len() as int) == p
}

pub open spec fn ends_with(s: Seq<char>, p: Seq<char>) -> bool {
    p.len() <= s.len() && s.skip(s.len() - p.len()) == p
}

pub open spec fn occurs_at(s: Seq<char>, p: Seq<char>, i: int) -> bool {
    0 <= i && i + p.len() <= s.len() && s.subrange(i, i + p.len()) == p
}

/// `str::contains` with a string pattern.
pub open spec fn contains(s: Seq<char>, p: Seq<char>) -> bool {
    exists|i: int| occurs_at(s, p, i)
}

/// Whether `p` occurs in `v` at position `i`.
pub fn occurs_at_exec(v: &Vec<char>, p: &Vec<char>, i: usize) -> (r: bool)
    ensures
        r == occurs_at(v@, p@, i as int),
{
    if i > v.len() || p.len() > v.len() - i {
        return false;
    }
    let mut k: usize = 0;
    while k < p.len()
        invariant
            i + p.len() <= v.len(),
            k <= p.len(),
            forall|j: int| 0 <= j < k ==> v@[i + j] == p@[j],
        decreases p.len() - k,
    {
        if v[i + k] != p[k] {
            assert(v@.subrange(i as int, i + p.len())[k as int] != p@[k as int]);
            return false;
        }
        k += 1;
    }
    assert(v@.subrange(i as int, i + p.len()) == p@);
    true
}

/// `str::starts_with` on character vectors.
pub fn has_prefix(v: &Vec<char>, p: &Vec<char>) -> (r: bool)
    ensures
        r == starts_with(v@, p@),
{
    let r = occurs_at_exec(v, p, 0);
    proof {
        if p@.len() <= v@.len() {
            assert(v@.subrange(0, p@.len() as int) == v@.take(p@.len() as int));
        }
    }
    r
}

/// `str::ends_with` on character vectors.
pub fn has_suffix(v: &Vec<char>, p: &Vec<char>) -> (r: bool)
    ensures
        r == ends_with(v@, p@),
{
    if p.len() > v.len() {
        return false;
    }
    let r = occurs_at_exec(v, p, v.len() - p.len());
    proof {
        assert(v@.subrange(v@.len() - p@.len(), v@.len() as int) == v@.skip(v@.len() - p@.len()));
    }
    r
}

/// The first position at or after `from` at which `p` occurs in `v`.
pub fn find_from(v: &Vec<char>, p: &Vec<char>, from: usize) -> (r: Option<usize>)
    ensures
        match r {
            Some(i) => from <= i && occurs_at(v@, p@, i as int) && forall|j: int|
                from <= j < i ==> !occurs_at(v@, p@, j),
            None => forall|j: int| from <= j ==> !occurs_at(v@, p@, j),
        },
{
    if from > v.len() {
        return None;
    }
    let mut i = from;
    while p.len() <= v.len() - i
        invariant
            from <= i <= v.len(),
            forall|j: int| from <= j < i ==> !occurs_at(v@, p@, j),
        decreases v.len() - i,
    {
        if occurs_at_exec(v, p, i) {
            return Some(i);
        }
        if i == v.len() {
            return None;
        }
        i += 1;
    }
    None
}

/// `str::contains` on character vectors.
pub fn contains_chars(v: &Vec<char>, p: &Vec<char>) -> (r: bool)
    ensures
        r == contains(v@, p@),
{
    match find_from(v, p, 0) {
        Some(i) => true,
        None => {
            assert forall|j: int| !occurs_at(v@, p@, j) by {
                if j >= 0 {
                    assert(!occurs_at(v@, p@, j));
                }
            }
            false
        },
    }
}

/// `str::contains`.
pub fn str_contains(s: &str, p: &str) -> (r: bool)
    ensures
        r == contains(s@, p@),
{
    contains_chars(&chars_of(s), &chars_of(p))
}

/// `str::starts_with`.
pub fn str_starts_with(s: &str, p: &str) -> (r: bool)
    ensures
        r == starts_with(s@, p@),
{
    has_prefix(&chars_of(s), &chars_of(p))
}

pub open spec fn has_char(s: Seq<char>, c: char) -> bool {
    exists|i: int| 0 <= i < s.len() && s[i] == c
}

/// Whether `c` occurs in `v`.
pub fn contains_char(v: &Vec<char>, c: char) -> (r: bool)
    ensures
        r == has_char(v@, c),
{
    let mut i: usize = 0;
    while i < v.len()
        invariant
            i <= v.len(),
            forall|j: int| 0 <= j < i ==> v@[j] != c,
        decreases v.len() - i,
    {
        if v[i] == c {
            return true;
        }
        i += 1;
    }
    false
}

/// The position of the first occurrence of `c` in `s`, if any.
pub open spec fn first_index(s: Seq<char>, c: char) -> Option<int> {
    if has_char(s, c) {
        Some(choose|i: int| 0 <= i < s.len() && s[i] == c && forall|j: int| 0 <= j < i ==> s[j] != c)
    } else {
        None
    }
}

/// The position of the last occurrence of `c` in `s`, if any.
pub open spec fn last_index(s: Seq<char>, c: char) -> Option<int> {
    if has_char(s, c) {
        Some(choose|i: int| 0 <= i < s.len() && s[i] == c && forall|j: int| i < j < s.len() ==> s[j] != c)
    } else {
        None
    }
}

/// `str::find` with a character.
pub fn find_char(v: &Vec<char>, c: char) -> (r: Option<usize>)
    ensures
        r matches Some(i) ==> first_index(v@, c) == Some(i as int) && i < v.len() && v@[i as int] == c,
        r is None ==> first_index(v@, c) is None,
{
    let mut i: usize = 0;
    while i < v.len()
        invariant
            i <= v.len(),
            forall|j: int| 0 <= j < i ==> v@[j] != c,
        decreases v.len() - i,
    {
        if v[i] == c {
            proof {
                let k = choose|k: int| 0 <= k < v@.len() && v@[k] == c && forall|j: int| 0 <= j < k ==> v@[j] != c;
                assert(k == i) by {
                    if k < i {
                        assert(v@[k] != c);
                    }
                    if k > i {
                        assert(v@[i as int] != c);
                    }
                }
            }
            return Some(i);
        }
        i += 1;
    }
    None
}

/// `str::rfind` with a character.
pub fn rfind_char(v: &Vec<char>, c: char) -> (r: Option<usize>)
    ensures
        r matches Some(i) ==> last_index(v@, c) == Some(i as int) && i < v.len() && v@[i as int] == c,
        r is None ==> last_index(v@, c) is None,
{
    let mut i: usize = v.len();
    while i > 0
        invariant
            i <= v.len(),
            forall|j: int| i <= j < v.len() ==> v@[j] != c,
        decreases i,
    {
        if v[i - 1] == c {
            proof {
                let k = choose|k: int| 0 <= k < v@.len() && v@[k] == c && forall|j: int| k < j < v@.len() ==> v@[j] != c;
                assert(k == i - 1) by {
                    if k < i - 1 {
                        assert(v@[i - 1] != c);
                    }
                    if k > i - 1 {
                        assert(v@[k] != c);
                    }
                }
            }
            return Some(i - 1);
        }
        i -= 1;
    }
    None
}

// ---------------------------------------------------------------------------
// Replacing
// ---------------------------------------------------------------------------

/// `str::replace` with a non-empty string pattern: every occurrence, scanned
/// from the left without overlap, replaced by `to`.
pub open spec fn replace_seq(s: Seq<char>, from: Seq<char>, to: Seq<char>) -> Seq<char>
    decreases s.len(),
{
    if s.len() == 0 {
        s
    } else if from.len() > 0 && starts_with(s, from) {
        to + replace_seq(s.skip(from.len() as int), from, to)
    } else {
        seq![s[0]] + replace_seq(s.drop_first(), from, to)
    }
}

/// `str::replace` on character vectors.
pub fn replace_chars(v: &Vec<char>, from: &Vec<char>, to: &Vec<char>) -> (r: Vec<char>)
    requires
        from.len() > 0,
    ensures
        r@ == replace_seq(v@, from@, to@),
{
    let mut r: Vec<char> = Vec::new();
    let mut i: usize = 0;
    assert(v@.skip(0) == v@);
    while i < v.len()
        invariant
            from.len() > 0,
            i <= v.len(),
            replace_seq(v@, from@, to@) == r@ + replace_seq(v@.skip(i as int), from@, to@),
        decreases v.len() - i,
    {
        let ghost rest = v@.skip(i as int);
        if occurs_at_exec(v, from, i) {
            proof {
                assert(rest.take(from@.len() as int) == v@.subrange(i as int, i + from@.len()));
                assert(rest.skip(from@.len() as int) == v@.skip(i + from@.len()));
            }
            extend_chars(&mut r, to);
            i += from.len();
        } else {
            proof {
                if from@.len() <= rest.len() {
                    assert(rest.take(from@.len() as int) == v@.subrange(i as int, i + from@.len()));
                }
                assert(rest.drop_first() == v@.skip(i + 1));
                assert(rest[0] == v@[i as int]);
            }
            r.push(v[i]);
            i += 1;
        }
    }
    assert(v@.skip(i as int).len() == 0);
    assert(r@ + seq![] == r@);
    r
}

/// `str::replace` with a non-empty pattern.
pub fn replace_str(s: &str, from: &str, to: &str) -> (r: String)
    requires
        from@.len() > 0,
    ensures
        r@ == replace_seq(s@, from@, to@),
{
    string_of(&replace_chars(&chars_of(s), &chars_of(from), &chars_of(to)))
}

/// `str::trim_start_matches` with a non-empty string pattern.
pub open spec fn trim_start_str(s: Seq<char>, p: Seq<char>) -> Seq<char>
    decreases s.len(),
{
    if p.len() > 0 && starts_with(s, p) {
        trim_start_str(s.skip(p.len() as int), p)
    } else {
        s
    }
}

/// `str::trim_start_matches` on character vectors.
pub fn trim_start_str_chars(v: &Vec<char>, p: &Vec<char>) -> (r: Vec<char>)
    ensures
        r@ == trim_start_str(v@, p@),
{
    if p.len() == 0 {
        return slice_chars(v, 0, v.len());
    }
    let mut i: usize = 0;
    assert(v@.skip(0) == v@);
    while occurs_at_exec(v, p, i)
        invariant
            p.len() > 0,
            i <= v.len(),
            trim_start_str(v@, p@) == trim_start_str(v@.skip(i as int), p@),
        decreases v.len() - i,
    {
        proof {
            let rest = v@.skip(i as int);
            assert(rest.take(p@.len() as int) == v@.subrange(i as int, i + p@.len()));
            assert(rest.skip(p@.len() as int) == v@.skip(i + p@.len()));
        }
        i += p.len();
    }
    proof {
        let rest = v@.skip(i as int);
        if p@.len() <= rest.len() {
            assert(rest.take(p@.len() as int) == v@.subrange(i as int, i + p@.len()));
        }
        assert(rest == v@.subrange(i as int, v.len() as int));
    }
    slice_chars(v, i, v.len())
}

/// `str::split_whitespace` followed by `join(" ")`: runs of whitespace become
/// one space, and leading and trailing whitespace is dropped.
pub open spec fn squeeze_ws(s: Seq<char>, started: bool, pending: bool) -> Seq<char>
    decreases s.len(),
{
    if s.len() == 0 {
        Seq::empty()
    } else if is_ws(s[0]) {
        squeeze_ws(s.drop_first(), started, started)
    } else if pending {
        seq![' ', s[0]] + squeeze_ws(s.drop_first(), true, false)
    } else {
        seq![s[0]] + squeeze_ws(s.drop_first(), true, false)
    }
}

pub open spec fn join_words(s: Seq<char>) -> Seq<char> {
    squeeze_ws(s, false, false)
}

/// `split_whitespace().collect::<Vec<_>>().join(" ")`.
pub fn join_words_chars(v: &Vec<char>) -> (r: Vec<char>)
    ensures
        r@ == join_words(v@),
{
    let mut r: Vec<char> = Vec::new();
    let mut started = false;
    let mut pending = false;
    let mut i: usize = 0;
    assert(v@.skip(0) == v@);
    while i < v.len()
        invariant
            i <= v.len(),
            join_words(v@) == r@ + squeeze_ws(v@.skip(i as int), started, pending),
        decreases v.len() - i,
    {
        let c = v[i];
        proof {
            let rest = v@.skip(i as int);
            assert(rest[0] == c);
            assert(rest.drop_first() == v@.skip(i + 1));
        }
        if is_whitespace(c) {
            pending = started;
        } else {
            let ghost before = r@;
            if pending {
                r.push(' ');
            }
            r.push(c);
            proof {
                if pending {
                    assert(r@ == before + seq![' ', c]);
                } else {
                    assert(r@ == before + seq![c]);
                }
            }
            started = true;
            pending = false;
        }
        i += 1;
    }
    assert(v@.skip(i as int).len() == 0);
    assert(r@ + Seq::<char>::empty() == r@);
    r
}


/// What `str::to_uppercase` returns for the text (full Unicode case mapping).
pub uninterp spec fn unicode_upper(s: Seq<char>) -> Seq<char>;

/// `str::to_uppercase`. Claims that the result is `unicode_upper` of the text.
#[verifier::external_body]
pub(crate) fn to_uppercase(s: &str) -> (r: String)
    ensures
        r@ == unicode_upper(s@),
{
    s.to_uppercase()
}


/// The position of the first occurrence of `p` in `s`, if any.
pub open spec fn first_occurrence(s: Seq<char>, p: Seq<char>) -> Option<int> {
    if contains(s, p) {
        Some(choose|i: int| occurs_at(s, p, i) && forall|j: int| 0 <= j < i ==> !occurs_at(s, p, j))
    } else {
        None
    }
}

/// `str::find` with a string pattern.
pub fn find_first(v: &Vec<char>, p: &Vec<char>) -> (r: Option<usize>)
    ensures
        r matches Some(i) ==> first_occurrence(v@, p@) == Some(i as int) && occurs_at(v@, p@, i as int),
        r is None ==> first_occurrence(v@, p@) is None,
{
    match find_from(v, p, 0) {
        Some(i) => {
            proof {
                assert(contains(v@, p@));
                let k = choose|k: int| occurs_at(v@, p@, k) && forall|j: int| 0 <= j < k ==> !occurs_at(v@, p@, j);
                assert(k == i) by {
                    if k < i {
                        assert(!occurs_at(v@, p@, k));
                    }
                    if k > i {
                        assert(!occurs_at(v@, p@, i as int));
                    }
                }
            }
            Some(i)
        },
        None => {
            assert(!contains(v@, p@)) by {
                assert forall|j: int| !occurs_at(v@, p@, j) by {
                    if j >= 0 {
                        assert(!occurs_at(v@, p@, j));
                    }
                }
            }
            None
        },
    }
}

} // verus!
