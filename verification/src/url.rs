//! Site addresses: parsing, resolving links found in pages, building the
//! search addresses of the metadata site, and recognising a detail page.
use vstd::prelude::*;
use vstd::string::StringSliceAdditionalSpecFns;

use crate::codes::{compact_code_from_text, compact_spec};
use crate::text::{
    ascii_lower, ascii_upper, chars_of, contains_char, extend_chars, find_char,
    find_first, first_index, first_occurrence, has_char, contains, occurs_at, is_ws, has_prefix, is_ascii_digit, is_digit, last_index, lower_chars, rfind_char, seq_eq, slice_chars,
    starts_with, string_of, trim_chars, trim_end_chars, trim_end_set, trim_set, trim_start_chars,
    trim_start_set, trim_ws, upper_chars, CharSet,
};

verus! {

broadcast use vstd::string::group_string_axioms;

// ---------------------------------------------------------------------------
// Decimal numbers
// ---------------------------------------------------------------------------

pub open spec fn digit_value(c: char) -> nat {
    ((c as u32) - 48) as nat
}

pub open spec fn all_digits(s: Seq<char>) -> bool {
    forall|i: int| 0 <= i < s.len() ==> is_ascii_digit(#[trigger] s[i])
}

/// The number written by a string of decimal digits.
pub open spec fn decimal_value(s: Seq<char>) -> nat
    decreases s.len(),
{
    if s.len() == 0 {
        0
    } else {
        decimal_value(s.drop_last()) * 10 + digit_value(s.last())
    }
}

/// `str::parse::<u16>`: an optional `+`, then one or more decimal digits
/// whose value fits in 16 bits.
pub open spec fn parse_u16_spec(s: Seq<char>) -> Option<u16> {
    let digits = if s.len() > 0 && s[0] == '+' {
        s.drop_first()
    } else {
        s
    };
    if digits.len() > 0 && all_digits(digits) && decimal_value(digits) <= 65535 {
        Some(decimal_value(digits) as u16)
    } else {
        None
    }
}

proof fn lemma_decimal_prefix_le(s: Seq<char>, k: int)
    requires
        0 <= k <= s.len(),
    ensures
        decimal_value(s.take(k)) <= decimal_value(s),
    decreases s.len(),
{
    if k < s.len() {
        lemma_decimal_prefix_le(s.drop_last(), k);
        assert(s.drop_last().take(k) == s.take(k));
    } else {
        assert(s.take(k) == s);
    }
}

/// `str::parse::<u16>` on characters.
pub fn parse_u16(s: &Vec<char>) -> (r: Option<u16>)
    ensures
        r == parse_u16_spec(s@),
{
    let start: usize = if s.len() > 0 && s[0] == '+' {
        1
    } else {
        0
    };
    let ghost digits = s@.skip(start as int);
    proof {
        if s.len() > 0 && s@[0] == '+' {
            assert(digits == s@.drop_first());
        } else {
            assert(digits == s@);
        }
    }
    if start == s.len() {
        return None;
    }
    let mut value: u32 = 0;
    let mut i: usize = start;
    while i < s.len()
        invariant
            start <= i <= s.len(),
            digits == s@.skip(start as int),
            digits == (if s@.len() > 0 && s@[0] == '+' {
                s@.drop_first()
            } else {
                s@
            }),
            value <= 65535,
            value == decimal_value(digits.take(i - start)),
            all_digits(digits.take(i - start)),
        decreases s.len() - i,
    {
        let c = s[i];
        if !is_digit(c) {
            proof {
                assert(digits[i - start] == c);
                assert(!all_digits(digits));
            }
            return None;
        }
        let ghost prefix = digits.take(i + 1 - start);
        proof {
            assert(prefix.drop_last() == digits.take(i - start));
            assert(prefix.last() == c);
            assert(all_digits(prefix)) by {
                assert forall|j: int| 0 <= j < prefix.len() implies is_ascii_digit(#[trigger] prefix[j]) by {
                    if j < prefix.len() - 1 {
                        assert(prefix[j] == digits.take(i - start)[j]);
                    }
                }
            }
        }
        let d: u32 = (c as u32) - 48;
        value = value * 10 + d;
        assert(value == decimal_value(prefix));
        if value > 65535 {
            proof {
                if all_digits(digits) {
                    lemma_decimal_prefix_le(digits, i + 1 - start);
                }
            }
            return None;
        }
        i += 1;
    }
    proof {
        assert(digits.take(i - start) == digits);
    }
    Some(value as u16)
}

pub open spec fn digit_char(d: nat) -> char {
    ((48 + d) as u32) as char
}

/// The decimal text of a number.
pub open spec fn decimal_text(n: nat) -> Seq<char>
    decreases n,
{
    if n < 10 {
        seq![digit_char(n)]
    } else {
        decimal_text(n / 10) + seq![digit_char(n % 10)]
    }
}

/// `char::from_digit` for a decimal digit.
#[verifier::external_body]
fn decimal_digit_char(d: u32) -> (c: char)
    requires
        d < 10,
    ensures
        c == digit_char(d as nat),
{
    char::from_digit(d, 10).unwrap()
}

pub(crate) fn decimal_chars(n: u32) -> (r: Vec<char>)
    ensures
        r@ == decimal_text(n as nat),
    decreases n,
{
    if n < 10 {
        let mut v = Vec::new();
        v.push(decimal_digit_char(n));
        v
    } else {
        let mut v = decimal_chars(n / 10);
        v.push(decimal_digit_char(n % 10));
        v
    }
}

// ---------------------------------------------------------------------------
// Parsed addresses
// ---------------------------------------------------------------------------

/// A parsed site address.
pub struct ParsedUrl {
    pub scheme: String,
    pub host: String,
    pub port: Option<u16>,
    pub path: String,
}

/// The parts of a site address as text.
pub struct UrlParts {
    pub scheme: Seq<char>,
    pub host: Seq<char>,
    pub port: Option<u16>,
    pub path: Seq<char>,
}

impl View for ParsedUrl {
    type V = UrlParts;

    open spec fn view(&self) -> UrlParts {
        UrlParts { scheme: self.scheme@, host: self.host@, port: self.port, path: self.path@ }
    }
}

/// The scheme and the rest of a trimmed address: the text before `://` in
/// lower case, or `https` when there is no `://`.
pub open spec fn split_scheme(t: Seq<char>) -> (Seq<char>, Seq<char>) {
    match first_occurrence(t, "://"@) {
        Some(i) => (ascii_lower(t.take(i)), t.skip(i + 3)),
        None => ("https"@, t),
    }
}

/// The authority and the path: split at the first `/`, the path keeping it;
/// the path is `/` when there is none.
pub open spec fn split_path(rest: Seq<char>) -> (Seq<char>, Seq<char>) {
    match first_index(rest, '/') {
        Some(i) => (rest.take(i), rest.skip(i)),
        None => (rest, seq!['/']),
    }
}

/// Host and port: split at the last `:` when what follows is a valid port,
/// otherwise the whole authority is the host.
pub open spec fn split_port(authority: Seq<char>) -> (Seq<char>, Option<u16>) {
    match last_index(authority, ':') {
        Some(i) => match parse_u16_spec(authority.skip(i + 1)) {
            Some(port) => (authority.take(i), Some(port)),
            None => (authority, None),
        },
        None => (authority, None),
    }
}

/// How an address is parsed: only `http` and `https` are accepted, and the
/// host may not be empty.
pub open spec fn parse_url_spec(url: Seq<char>) -> Option<UrlParts> {
    let t = trim_ws(url);
    let (scheme, rest) = split_scheme(t);
    if scheme != "http"@ && scheme != "https"@ {
        None
    } else {
        let (authority, path) = split_path(rest);
        let (host, port) = split_port(authority);
        if host.len() == 0 {
            None
        } else {
            Some(UrlParts { scheme, host, port, path })
        }
    }
}

/// Host and port as written in an address.
pub open spec fn authority_spec(p: UrlParts) -> Seq<char> {
    match p.port {
        Some(port) => p.host + seq![':'] + decimal_text(port as nat),
        None => p.host,
    }
}

fn split_scheme_chars(t: &Vec<char>) -> (r: (Vec<char>, Vec<char>))
    ensures
        (r.0@, r.1@) == split_scheme(t@),
{
    let sep = chars_of("://");
    proof {
        reveal_strlit("://");
        reveal_strlit("https");
    }
    match find_first(t, &sep) {
        Some(i) => (lower_chars(&slice_chars(t, 0, i)), slice_chars(t, i + 3, t.len())),
        None => (chars_of("https"), slice_chars(t, 0, t.len())),
    }
}

fn split_path_chars(rest: &Vec<char>) -> (r: (Vec<char>, Vec<char>))
    ensures
        (r.0@, r.1@) == split_path(rest@),
{
    match find_char(rest, '/') {
        Some(i) => (slice_chars(rest, 0, i), slice_chars(rest, i, rest.len())),
        None => {
            let mut p = Vec::new();
            p.push('/');
            (slice_chars(rest, 0, rest.len()), p)
        },
    }
}

fn split_port_chars(authority: &Vec<char>) -> (r: (Vec<char>, Option<u16>))
    ensures
        (r.0@, r.1) == split_port(authority@),
{
    match rfind_char(authority, ':') {
        Some(i) => match parse_u16(&slice_chars(authority, i + 1, authority.len())) {
            Some(port) => (slice_chars(authority, 0, i), Some(port)),
            None => (slice_chars(authority, 0, authority.len()), None),
        },
        None => (slice_chars(authority, 0, authority.len()), None),
    }
}

impl ParsedUrl {
    /// Parses an address; text without `://` is read as `https`.
    pub fn parse(url: &str) -> (r: Option<ParsedUrl>)
        ensures
            match r {
                Some(p) => parse_url_spec(url@) == Some(p@),
                None => parse_url_spec(url@) is None,
            },
    {
        let t = trim_chars(&chars_of(url), CharSet::Whitespace);
        let (scheme, rest) = split_scheme_chars(&t);
        proof {
            reveal_strlit("https");
            reveal_strlit("http");
        }
        if !seq_eq(&scheme, &chars_of("http")) && !seq_eq(&scheme, &chars_of("https")) {
            return None;
        }
        let (authority, path) = split_path_chars(&rest);
        let (host, port) = split_port_chars(&authority);
        if host.len() == 0 {
            return None;
        }
        Some(ParsedUrl {
            scheme: string_of(&scheme),
            host: string_of(&host),
            port,
            path: string_of(&path),
        })
    }

    /// The host, with `:port` when there is a port.
    pub fn authority(&self) -> (r: String)
        ensures
            r@ == authority_spec(self@),
    {
        match self.port {
            Some(port) => {
                let mut v = chars_of(self.host.as_str());
                v.push(':');
                let digits = decimal_chars(port as u32);
                extend_chars(&mut v, &digits);
                string_of(&v)
            },
            None => string_of(&chars_of(self.host.as_str())),
        }
    }
}


// ---------------------------------------------------------------------------
// Site addresses
// ---------------------------------------------------------------------------

/// A site as typed in the settings, as a base address: trimmed, trailing `/`
/// removed, `https://` put in front when no scheme is given.
pub open spec fn normalize_site_url_spec(site: Seq<char>) -> Seq<char> {
    let value = trim_ws(site);
    if starts_with(value, "http://"@) || starts_with(value, "https://"@) {
        trim_end_set(value, CharSet::Slash)
    } else {
        "https://"@ + trim_end_set(value, CharSet::Slash)
    }
}

/// The base address of a site as typed in the settings.
pub fn normalize_site_url(site_url: &str) -> (r: String)
    ensures
        r@ == normalize_site_url_spec(site_url@),
{
    let value = trim_chars(&chars_of(site_url), CharSet::Whitespace);
    let trimmed = trim_end_chars(&value, CharSet::Slash);
    if has_prefix(&value, &chars_of("http://")) || has_prefix(&value, &chars_of("https://")) {
        string_of(&trimmed)
    } else {
        let mut out = chars_of("https://");
        extend_chars(&mut out, &trimmed);
        string_of(&out)
    }
}

/// The host of a site, in lower case; `www.javbus.com` when the address
/// cannot be parsed.
pub open spec fn normalize_site_host_spec(site: Seq<char>) -> Seq<char> {
    match parse_url_spec(normalize_site_url_spec(site)) {
        Some(p) => ascii_lower(p.host),
        None => "www.javbus.com"@,
    }
}

/// The host of a site, in lower case, under which its session is stored.
pub fn normalize_site_host(site_url: &str) -> (r: String)
    ensures
        r@ == normalize_site_host_spec(site_url@),
{
    let normalized = normalize_site_url(site_url);
    match ParsedUrl::parse(normalized.as_str()) {
        Some(parsed) => string_of(&lower_chars(&chars_of(parsed.host.as_str()))),
        None => String::from_str("www.javbus.com"),
    }
}

/// The base of the search addresses of a site.
pub open spec fn site_base(site: Seq<char>) -> Seq<char> {
    trim_end_set(normalize_site_url_spec(site), CharSet::Slash)
}

fn site_base_chars(site_url: &str) -> (r: Vec<char>)
    ensures
        r@ == site_base(site_url@),
{
    trim_end_chars(&chars_of(normalize_site_url(site_url).as_str()), CharSet::Slash)
}

/// `<site>/search/<code>`.
pub open spec fn search_url_spec(site: Seq<char>, code: Seq<char>) -> Seq<char> {
    site_base(site) + "/search/"@ + code
}

/// The search page of a code on a site.
pub fn build_metadata_search_url(site_url: &str, code: &str) -> (r: String)
    ensures
        r@ == search_url_spec(site_url@, code@),
{
    let mut out = site_base_chars(site_url);
    extend_chars(&mut out, &chars_of("/search/"));
    extend_chars(&mut out, &chars_of(code));
    string_of(&out)
}

/// `<site>/search/<code>&type=1`.
pub open spec fn type_one_search_url_spec(site: Seq<char>, code: Seq<char>) -> Seq<char> {
    site_base(site) + "/search/"@ + code + "&type=1"@
}

/// The second search page of a code on a site, tried when the first shows no actor.
pub fn build_metadata_type_one_search_url(site_url: &str, code: &str) -> (r: String)
    ensures
        r@ == type_one_search_url_spec(site_url@, code@),
{
    let mut out = site_base_chars(site_url);
    extend_chars(&mut out, &chars_of("/search/"));
    extend_chars(&mut out, &chars_of(code));
    extend_chars(&mut out, &chars_of("&type=1"));
    string_of(&out)
}

/// Bytes that stand for themselves in a path segment: ASCII letters and
/// digits, `-`, `_`, `.`, `~`.
pub open spec fn is_unreserved_byte(b: u8) -> bool {
    ||| (48 <= b && b <= 57)
    ||| (65 <= b && b <= 90)
    ||| (97 <= b && b <= 122)
    ||| b == 45
    ||| b == 95
    ||| b == 46
    ||| b == 126
}

/// Upper-case hexadecimal digit.
pub open spec fn hex_digit(n: u8) -> char {
    if n < 10 {
        ((48 + n) as u32) as char
    } else {
        ((55 + n) as u32) as char
    }
}

/// A byte of a path segment: itself when unreserved, otherwise `%` and two
/// upper-case hexadecimal digits.
pub open spec fn encode_byte(b: u8) -> Seq<char> {
    if is_unreserved_byte(b) {
        seq![(b as u32) as char]
    } else {
        seq!['%', hex_digit(b / 16), hex_digit(b % 16)]
    }
}

/// Percent-encoding of a byte string.
pub open spec fn percent_encode(bytes: Seq<u8>) -> Seq<char>
    decreases bytes.len(),
{
    if bytes.len() == 0 {
        Seq::empty()
    } else {
        percent_encode(bytes.drop_last()) + encode_byte(bytes.last())
    }
}

/// Whether a character may appear in a percent-encoded segment: an
/// unreserved ASCII character, `%`, or an upper-case hexadecimal digit.
pub open spec fn is_encoded_char(c: char) -> bool {
    ||| ('0' <= c && c <= '9')
    ||| ('A' <= c && c <= 'Z')
    ||| ('a' <= c && c <= 'z')
    ||| c == '-'
    ||| c == '_'
    ||| c == '.'
    ||| c == '~'
    ||| c == '%'
}

/// Percent-encoding yields only unreserved ASCII characters and `%` escapes
/// with two upper-case hexadecimal digits, so the segment is safe in a path.
pub proof fn lemma_percent_encode_safe(bytes: Seq<u8>)
    ensures
        forall|i: int| 0 <= i < percent_encode(bytes).len() ==> is_encoded_char(#[trigger] percent_encode(bytes)[i]),
    decreases bytes.len(),
{
    if bytes.len() > 0 {
        lemma_percent_encode_safe(bytes.drop_last());
        let before = percent_encode(bytes.drop_last());
        let b = bytes.last();
        let e = encode_byte(b);
        assert forall|i: int| 0 <= i < e.len() implies is_encoded_char(#[trigger] e[i]) by {
            if is_unreserved_byte(b) {
                assert(e[i] == (b as u32) as char);
            } else {
                assert(b / 16 < 16 && b % 16 < 16);
            }
        }
        assert forall|i: int| 0 <= i < percent_encode(bytes).len() implies is_encoded_char(#[trigger] percent_encode(bytes)[i]) by {
            if i < before.len() {
                assert(percent_encode(bytes)[i] == before[i]);
            } else {
                assert(percent_encode(bytes)[i] == e[i - before.len()]);
            }
        }
    }
}

/// `char::from` on an ASCII byte: the character with that code.
#[verifier::external_body]
pub(crate) fn ascii_char(b: u8) -> (c: char)
    requires
        b < 128,
    ensures
        c == (b as u32) as char,
{
    char::from(b)
}

fn hex_digit_char(n: u8) -> (c: char)
    requires
        n < 16,
    ensures
        c == hex_digit(n),
{
    if n < 10 {
        ascii_char(48 + n)
    } else {
        ascii_char(55 + n)
    }
}

/// Percent-encodes the UTF-8 bytes of the text for use as one path segment.
pub fn percent_encode_path_segment(value: &str) -> (r: String)
    ensures
        r@ == percent_encode(value.spec_bytes()),
{
    let bytes = value.as_bytes();
    let mut out: Vec<char> = Vec::new();
    let mut i: usize = 0;
    while i < bytes.len()
        invariant
            i <= bytes.len(),
            bytes@ == value.spec_bytes(),
            out@ == percent_encode(bytes@.take(i as int)),
        decreases bytes.len() - i,
    {
        let b = bytes[i];
        let ghost before = out@;
        if (48 <= b && b <= 57) || (65 <= b && b <= 90) || (97 <= b && b <= 122) || b == 45 || b
            == 95 || b == 46 || b == 126 {
            out.push(ascii_char(b));
        } else {
            out.push('%');
            out.push(hex_digit_char(b / 16));
            out.push(hex_digit_char(b % 16));
        }
        proof {
            let prefix = bytes@.take(i + 1);
            assert(prefix.drop_last() == bytes@.take(i as int));
            assert(prefix.last() == b);
            assert(out@ == before + encode_byte(b));
        }
        i += 1;
    }
    assert(bytes@.take(bytes@.len() as int) == bytes@);
    string_of(&out)
}

/// `<site>/searchstar/<percent-encoded name>`.
pub open spec fn actor_search_url_spec(site: Seq<char>, name_bytes: Seq<u8>) -> Seq<char> {
    site_base(site) + "/searchstar/"@ + percent_encode(name_bytes)
}

/// The actor search page of a name on a site.
pub fn build_actor_search_url(site_url: &str, actor_name: &str) -> (r: String)
    ensures
        r@ == actor_search_url_spec(site_url@, actor_name.spec_bytes()),
{
    let mut out = site_base_chars(site_url);
    extend_chars(&mut out, &chars_of("/searchstar/"));
    extend_chars(&mut out, &chars_of(percent_encode_path_segment(actor_name).as_str()));
    string_of(&out)
}

// ---------------------------------------------------------------------------
// Links found in pages
// ---------------------------------------------------------------------------

/// The address links are resolved against when the page address cannot be parsed.
pub open spec fn default_url() -> UrlParts {
    UrlParts { scheme: "https"@, host: "www.javbus.com"@, port: None, path: "/"@ }
}

/// The directory part of a path: before its last `/`, empty when that is nothing.
pub open spec fn parent_of_path(path: Seq<char>) -> Seq<char> {
    match last_index(path, '/') {
        Some(i) => path.take(i),
        None => Seq::empty(),
    }
}

/// A link of a page as an absolute address.
pub open spec fn resolve_url_spec(base: Seq<char>, href0: Seq<char>) -> Seq<char> {
    let href = trim_ws(href0);
    if starts_with(href, "http://"@) || starts_with(href, "https://"@) {
        href
    } else {
        let p = match parse_url_spec(base) {
            Some(p) => p,
            None => default_url(),
        };
        if starts_with(href, "//"@) {
            p.scheme + seq![':'] + href
        } else if starts_with(href, "/"@) {
            p.scheme + "://"@ + authority_spec(p) + href
        } else {
            p.scheme + "://"@ + authority_spec(p) + seq!['/'] + trim_start_set(
                parent_of_path(p.path) + seq!['/'] + href,
                CharSet::Slash,
            )
        }
    }
}

fn base_or_default(base_url: &str) -> (r: ParsedUrl)
    ensures
        r@ == (match parse_url_spec(base_url@) {
            Some(p) => p,
            None => default_url(),
        }),
{
    match ParsedUrl::parse(base_url) {
        Some(p) => p,
        None => ParsedUrl {
            scheme: String::from_str("https"),
            host: String::from_str("www.javbus.com"),
            port: None,
            path: String::from_str("/"),
        },
    }
}

fn parent_chars(path: &Vec<char>) -> (r: Vec<char>)
    ensures
        r@ == parent_of_path(path@),
{
    match rfind_char(path, '/') {
        Some(i) => slice_chars(path, 0, i),
        None => Vec::new(),
    }
}

/// A link that is not absolute, resolved against a parsed address.
pub open spec fn resolve_relative_spec(p: UrlParts, href: Seq<char>) -> Seq<char> {
    if starts_with(href, "//"@) {
        p.scheme + seq![':'] + href
    } else if starts_with(href, "/"@) {
        p.scheme + "://"@ + authority_spec(p) + href
    } else {
        p.scheme + "://"@ + authority_spec(p) + seq!['/'] + trim_start_set(
            parent_of_path(p.path) + seq!['/'] + href,
            CharSet::Slash,
        )
    }
}

fn relative_tail(path: &String, href: &Vec<char>) -> (r: Vec<char>)
    ensures
        r@ == seq!['/'] + trim_start_set(parent_of_path(path@) + seq!['/'] + href@, CharSet::Slash),
{
    let parent = parent_chars(&chars_of(path.as_str()));
    let mut joined = parent_chars(&chars_of(path.as_str()));
    joined.push('/');
    assert(joined@ == parent@ + seq!['/']);
    extend_chars(&mut joined, href);
    let t = trim_start_chars(&joined, CharSet::Slash);
    let mut out = Vec::new();
    out.push('/');
    assert(out@ == seq!['/']);
    extend_chars(&mut out, &t);
    out
}

fn resolve_relative(parsed: &ParsedUrl, href: &Vec<char>) -> (r: Vec<char>)
    ensures
        r@ == resolve_relative_spec(parsed@, href@),
{
    let mut out = chars_of(parsed.scheme.as_str());
    if has_prefix(href, &chars_of("//")) {
        out.push(':');
        extend_chars(&mut out, href);
        return out;
    }
    extend_chars(&mut out, &chars_of("://"));
    extend_chars(&mut out, &chars_of(parsed.authority().as_str()));
    if has_prefix(href, &chars_of("/")) {
        extend_chars(&mut out, href);
    } else {
        extend_chars(&mut out, &relative_tail(&parsed.path, href));
    }
    out
}

/// A link found in a page, resolved against the page's address.
pub fn resolve_url(base_url: &str, href: &str) -> (r: String)
    ensures
        r@ == resolve_url_spec(base_url@, href@),
{
    let href = trim_chars(&chars_of(href), CharSet::Whitespace);
    if has_prefix(&href, &chars_of("http://")) || has_prefix(&href, &chars_of("https://")) {
        return string_of(&href);
    }
    let parsed = base_or_default(base_url);
    string_of(&resolve_relative(&parsed, &href))
}

/// Whether an address is the detail page of the code: a single path segment,
/// not a search, actor or forum page, whose letters and digits are the code's.
pub open spec fn is_detail_page_spec(url: Seq<char>, compact_code: Seq<char>) -> bool {
    match parse_url_spec(url) {
        None => false,
        Some(p) => {
            let path = trim_set(p.path, CharSet::Slash);
            let upper = ascii_upper(path);
            &&& path.len() > 0
            &&& !has_char(path, '/')
            &&& !starts_with(upper, "SEARCH"@)
            &&& !starts_with(upper, "SEARCHSTAR"@)
            &&& !starts_with(upper, "STAR"@)
            &&& !starts_with(upper, "FORUM"@)
            &&& compact_spec(path) == compact_code
        },
    }
}

/// Whether an address is the detail page of the code (given without dashes).
pub fn is_detail_page_url(url: &str, compact_code: &str) -> (r: bool)
    ensures
        r == is_detail_page_spec(url@, compact_code@),
{
    let parsed = match ParsedUrl::parse(url) {
        Some(parsed) => parsed,
        None => return false,
    };
    let path = trim_chars(&chars_of(parsed.path.as_str()), CharSet::Slash);
    if path.len() == 0 {
        return false;
    }
    if contains_char(&path, '/') {
        return false;
    }
    let upper = upper_chars(&path);
    if has_prefix(&upper, &chars_of("SEARCH")) || has_prefix(&upper, &chars_of("SEARCHSTAR"))
        || has_prefix(&upper, &chars_of("STAR")) || has_prefix(&upper, &chars_of("FORUM")) {
        return false;
    }
    let compact = compact_code_from_text(string_of(&path).as_str());
    seq_eq(&chars_of(compact.as_str()), &chars_of(compact_code))
}

// ---------------------------------------------------------------------------
// Laws of site addresses
// ---------------------------------------------------------------------------

/// Whether a text starts with `http://` or `https://`.
pub open spec fn has_scheme(s: Seq<char>) -> bool {
    starts_with(s, "http://"@) || starts_with(s, "https://"@)
}

proof fn lemma_trim_ws_fixed(s: Seq<char>)
    requires
        s.len() > 0,
        !is_ws(s[0]),
        !is_ws(s.last()),
    ensures
        trim_ws(s) == s,
{
}

proof fn lemma_scheme_texts()
    ensures
        "http://"@ == seq!['h', 't', 't', 'p', ':', '/', '/'],
        "https://"@ == seq!['h', 't', 't', 'p', 's', ':', '/', '/'],
        "http"@ == seq!['h', 't', 't', 'p'],
        "https"@ == seq!['h', 't', 't', 'p', 's'],
        "://"@ == seq![':', '/', '/'],
{
    reveal_strlit("http://");
    reveal_strlit("https://");
    reveal_strlit("http");
    reveal_strlit("https");
    reveal_strlit("://");
}

/// A normalised site address has a scheme, does not end in `/`, and is left
/// as it is when normalised again. This holds whenever the typed address,
/// trimmed and without trailing `/`, is not empty, does not end in
/// whitespace, and keeps its scheme (so `http:///` is left out: its slashes
/// all go, and with them the scheme).
pub proof fn lemma_normalized_site_url(site: Seq<char>)
    requires
        ({
            let v = trim_ws(site);
            let t = trim_end_set(v, CharSet::Slash);
            &&& t.len() > 0
            &&& !is_ws(t.last())
            &&& has_scheme(v) ==> has_scheme(t)
        }),
    ensures
        has_scheme(normalize_site_url_spec(site)),
        normalize_site_url_spec(site).last() != '/',
        normalize_site_url_spec(normalize_site_url_spec(site)) == normalize_site_url_spec(site),
{
    lemma_scheme_texts();
    let v = trim_ws(site);
    let t = trim_end_set(v, CharSet::Slash);
    crate::library::lemma_trim_end_is_prefix(v, CharSet::Slash);
    let r = normalize_site_url_spec(site);
    if has_scheme(v) {
        assert(r == t);
    } else {
        assert(r == "https://"@ + t);
        assert(r.take(8) =~= "https://"@);
        assert(r.last() == t.last());
    }
    assert(r[0] == 'h');
    assert(r.last() == t.last());
    lemma_trim_ws_fixed(r);
    assert(trim_end_set(r, CharSet::Slash) == r);
}

proof fn lemma_decimal_text_digits(n: nat)
    ensures
        decimal_text(n).len() > 0,
        all_digits(decimal_text(n)),
        decimal_value(decimal_text(n)) == n,
    decreases n,
{
    let d = decimal_text(n);
    let k = n % 10;
    assert(digit_char(k) as u32 == 48 + k);
    assert(digit_value(digit_char(k)) == k);
    if n >= 10 {
        lemma_decimal_text_digits(n / 10);
        assert(d.drop_last() == decimal_text(n / 10));
        assert(d.last() == digit_char(k));
        assert(all_digits(d)) by {
            assert forall|i: int| 0 <= i < d.len() implies is_ascii_digit(#[trigger] d[i]) by {
                if i < d.len() - 1 {
                    assert(d[i] == decimal_text(n / 10)[i]);
                }
            }
        }
        assert(decimal_value(d) == decimal_value(decimal_text(n / 10)) * 10 + k);
        assert((n / 10) * 10 + n % 10 == n);
    } else {
        assert(k == n);
        assert(d.drop_last().len() == 0);
        assert(decimal_value(d.drop_last()) == 0);
    }
}

proof fn lemma_first_occurrence_at(s: Seq<char>, p: Seq<char>, i: int)
    requires
        occurs_at(s, p, i),
        forall|j: int| 0 <= j < i ==> !occurs_at(s, p, j),
    ensures
        first_occurrence(s, p) == Some(i),
{
    assert(contains(s, p));
    let k = choose|k: int| occurs_at(s, p, k) && forall|j: int| 0 <= j < k ==> !occurs_at(s, p, j);
    if k < i {
        assert(!occurs_at(s, p, k));
    }
    if k > i {
        assert(!occurs_at(s, p, i));
    }
}

proof fn lemma_first_index_at(s: Seq<char>, c: char, i: int)
    requires
        0 <= i < s.len(),
        s[i] == c,
        forall|j: int| 0 <= j < i ==> s[j] != c,
    ensures
        first_index(s, c) == Some(i),
{
    assert(has_char(s, c));
    let k = choose|k: int| 0 <= k < s.len() && s[k] == c && forall|j: int| 0 <= j < k ==> s[j] != c;
    if k < i {
        assert(s[k] != c);
    }
    if k > i {
        assert(s[i] != c);
    }
}

proof fn lemma_last_index_at(s: Seq<char>, c: char, i: int)
    requires
        0 <= i < s.len(),
        s[i] == c,
        forall|j: int| i < j < s.len() ==> s[j] != c,
    ensures
        last_index(s, c) == Some(i),
{
    assert(has_char(s, c));
    let k = choose|k: int| 0 <= k < s.len() && s[k] == c && forall|j: int| k < j < s.len() ==> s[j] != c;
    if k < i {
        assert(s[i] != c);
    }
    if k > i {
        assert(s[k] != c);
    }
}

/// The address rebuilt from a parsed address: scheme, `://`, authority and
/// path.
pub open spec fn rebuilt_url(p: UrlParts) -> Seq<char> {
    p.scheme + "://"@ + authority_spec(p) + p.path
}

/// What parsing guarantees of the parts of an address.
pub open spec fn parts_ok(p: UrlParts) -> bool {
    &&& p.scheme == "http"@ || p.scheme == "https"@
    &&& p.host.len() > 0
    &&& forall|j: int| 0 <= j < p.host.len() ==> p.host[j] != '/'
    &&& p.path.len() > 0
    &&& p.path[0] == '/'
    &&& !is_ws(p.path.last())
    &&& p.port is None ==> split_port(p.host) == (p.host, None::<u16>)
}

proof fn lemma_min_occurrence(s: Seq<char>, p: Seq<char>, n: int)
    requires
        occurs_at(s, p, n),
    ensures
        exists|m: int| occurs_at(s, p, m) && forall|j: int| 0 <= j < m ==> !occurs_at(s, p, j),
    decreases n,
{
    if exists|j: int| 0 <= j < n && occurs_at(s, p, j) {
        let j = choose|j: int| 0 <= j < n && occurs_at(s, p, j);
        lemma_min_occurrence(s, p, j);
    } else {
        assert(forall|j: int| 0 <= j < n ==> !occurs_at(s, p, j));
    }
}

proof fn lemma_min_char(s: Seq<char>, c: char, n: int)
    requires
        0 <= n < s.len(),
        s[n] == c,
    ensures
        exists|m: int| 0 <= m < s.len() && s[m] == c && forall|j: int| 0 <= j < m ==> s[j] != c,
    decreases n,
{
    if exists|j: int| 0 <= j < n && s[j] == c {
        let j = choose|j: int| 0 <= j < n && s[j] == c;
        lemma_min_char(s, c, j);
    } else {
        assert(forall|j: int| 0 <= j < n ==> s[j] != c);
    }
}

proof fn lemma_max_char(s: Seq<char>, c: char, n: int)
    requires
        0 <= n < s.len(),
        s[n] == c,
    ensures
        exists|m: int| 0 <= m < s.len() && s[m] == c && forall|j: int| m < j < s.len() ==> s[j] != c,
    decreases s.len() - n,
{
    if exists|j: int| n < j < s.len() && s[j] == c {
        let j = choose|j: int| n < j < s.len() && s[j] == c;
        lemma_max_char(s, c, j);
    } else {
        assert(forall|j: int| n < j < s.len() ==> s[j] != c);
    }
}

proof fn lemma_split_scheme_suffix(t: Seq<char>) -> (k: int)
    ensures
        0 <= k <= t.len(),
        split_scheme(t).1 == t.skip(k),
{
    let sep = "://"@;
    if contains(t, sep) {
        let w = choose|i: int| occurs_at(t, sep, i);
        lemma_min_occurrence(t, sep, w);
        let i = choose|i: int| occurs_at(t, sep, i) && forall|j: int| 0 <= j < i ==> !occurs_at(t, sep, j);
        assert(first_occurrence(t, sep) == Some(i));
        assert(occurs_at(t, sep, i));
        lemma_scheme_texts();
        assert(sep.len() == 3);
        assert(split_scheme(t).1 == t.skip(i + 3));
        i + 3
    } else {
        assert(first_occurrence(t, sep) is None);
        assert(t.skip(0) =~= t);
        0
    }
}

proof fn lemma_split_path_shape(rest: Seq<char>)
    ensures
        forall|j: int| 0 <= j < split_path(rest).0.len() ==> split_path(rest).0[j] != '/',
        split_path(rest).1.len() > 0,
        split_path(rest).1[0] == '/',
        split_path(rest).1 == seq!['/'] || split_path(rest).1.last() == rest.last(),
{
    if has_char(rest, '/') {
        let w = choose|i: int| 0 <= i < rest.len() && rest[i] == '/';
        lemma_min_char(rest, '/', w);
        let i = choose|i: int| 0 <= i < rest.len() && rest[i] == '/' && forall|j: int| 0 <= j < i ==> rest[j] != '/';
        assert(first_index(rest, '/') == Some(i));
        let (a, path) = split_path(rest);
        assert(a == rest.take(i) && path == rest.skip(i));
        assert forall|j: int| 0 <= j < a.len() implies a[j] != '/' by {
            assert(a[j] == rest[j]);
        }
        assert(path[0] == rest[i]);
        assert(path.last() == rest.last());
    } else {
        assert(first_index(rest, '/') is None);
        let (a, path) = split_path(rest);
        assert(a == rest);
        assert forall|j: int| 0 <= j < a.len() implies a[j] != '/' by {
            assert(a[j] == rest[j]);
        }
    }
}

proof fn lemma_split_port_host(a: Seq<char>)
    requires
        forall|j: int| 0 <= j < a.len() ==> a[j] != '/',
    ensures
        forall|j: int| 0 <= j < split_port(a).0.len() ==> split_port(a).0[j] != '/',
        split_port(a).1 is None ==> split_port(a).0 == a,
{
    if has_char(a, ':') {
        let w = choose|i: int| 0 <= i < a.len() && a[i] == ':';
        lemma_max_char(a, ':', w);
        let i = choose|i: int| 0 <= i < a.len() && a[i] == ':' && forall|j: int| i < j < a.len() ==> a[j] != ':';
        assert(last_index(a, ':') == Some(i));
        let h = split_port(a).0;
        if parse_u16_spec(a.skip(i + 1)) is Some {
            assert(h == a.take(i));
            assert forall|j: int| 0 <= j < h.len() implies h[j] != '/' by {
                assert(h[j] == a[j]);
            }
        } else {
            assert(h == a);
        }
    } else {
        assert(last_index(a, ':') is None);
    }
}

proof fn lemma_path_end_from(t: Seq<char>, k: int)
    requires
        0 <= k <= t.len(),
        t.len() > 0 ==> !is_ws(t.last()),
    ensures
        !is_ws(split_path(t.skip(k)).1.last()),
{
    let rest = t.skip(k);
    let path = split_path(rest).1;
    lemma_split_path_shape(rest);
    if path != seq!['/'] {
        if rest.len() == 0 {
            assert(!has_char(rest, '/'));
            assert(first_index(rest, '/') is None);
        }
        assert(rest.last() == t.last());
    }
}

proof fn lemma_path_end(t: Seq<char>)
    requires
        t.len() > 0 ==> !is_ws(t.last()),
    ensures
        !is_ws(split_path(split_scheme(t).1).1.last()),
{
    let k = lemma_split_scheme_suffix(t);
    lemma_path_end_from(t, k);
}

proof fn lemma_parsed_path_end(url: Seq<char>)
    requires
        parse_url_spec(url) is Some,
    ensures
        !is_ws(parse_url_spec(url)->Some_0.path.last()),
{
    let t = trim_ws(url);
    crate::library::lemma_trim_set_shape(url, CharSet::Whitespace);
    lemma_path_end(t);
}

proof fn lemma_parsed_parts_ok(url: Seq<char>)
    requires
        parse_url_spec(url) is Some,
    ensures
        parts_ok(parse_url_spec(url)->Some_0),
{
    let p = parse_url_spec(url)->Some_0;
    let t = trim_ws(url);
    let rest = split_scheme(t).1;
    let a = split_path(rest).0;
    assert(p.scheme == split_scheme(t).0);
    assert(p.path == split_path(rest).1);
    assert(p.host == split_port(a).0);
    assert(p.port == split_port(a).1);
    lemma_split_path_shape(rest);
    lemma_split_port_host(a);
    lemma_parsed_path_end(url);
}

proof fn lemma_rebuilt_scheme(p: UrlParts)
    requires
        parts_ok(p),
    ensures
        trim_ws(rebuilt_url(p)) == rebuilt_url(p),
        split_scheme(rebuilt_url(p)) == (p.scheme, authority_spec(p) + p.path),
{
    lemma_scheme_texts();
    let u = rebuilt_url(p);
    let scheme = p.scheme;
    let sl = scheme.len() as int;
    assert(u[0] == scheme[0]);
    assert(u.last() == p.path.last());
    lemma_trim_ws_fixed(u);
    assert(occurs_at(u, "://"@, sl)) by {
        assert(u.subrange(sl, sl + 3) =~= "://"@);
    }
    assert forall|j: int| 0 <= j < sl implies !occurs_at(u, "://"@, j) by {
        assert(u[j] == scheme[j]);
    }
    lemma_first_occurrence_at(u, "://"@, sl);
    assert(u.take(sl) =~= scheme);
    assert(ascii_lower(scheme) =~= scheme);
    assert(u.skip(sl + 3) =~= authority_spec(p) + p.path);
}

proof fn lemma_rebuilt_authority(p: UrlParts)
    requires
        parts_ok(p),
    ensures
        forall|j: int| 0 <= j < authority_spec(p).len() ==> authority_spec(p)[j] != '/',
        split_port(authority_spec(p)) == (p.host, p.port),
{
    let auth = authority_spec(p);
    let host = p.host;
    match p.port {
        Some(n) => {
            lemma_decimal_text_digits(n as nat);
            let digits = decimal_text(n as nat);
            let hl = host.len() as int;
            assert forall|j: int| 0 <= j < auth.len() implies auth[j] != '/' by {
                if j > hl {
                    assert(auth[j] == digits[j - hl - 1]);
                    assert(is_ascii_digit(digits[j - hl - 1]));
                } else if j < hl {
                    assert(auth[j] == host[j]);
                }
            }
            assert forall|j: int| hl < j < auth.len() implies auth[j] != ':' by {
                assert(auth[j] == digits[j - hl - 1]);
                assert(is_ascii_digit(digits[j - hl - 1]));
            }
            lemma_last_index_at(auth, ':', hl);
            assert(auth.skip(hl + 1) =~= digits);
            assert(is_ascii_digit(digits[0]));
            assert(parse_u16_spec(digits) == Some(n));
            assert(auth.take(hl) =~= host);
        },
        None => {},
    }
}

/// Parsing the address rebuilt from a parsed address gives back the same
/// scheme, host, port and path; the authority is the host, with `:port`
/// when there is a port.
#[verifier::rlimit(40)]
pub proof fn lemma_parse_rebuilt_url(url: Seq<char>)
    requires
        parse_url_spec(url) is Some,
    ensures
        ({
            let p = parse_url_spec(url)->Some_0;
            &&& authority_spec(p) == match p.port {
                Some(n) => p.host + seq![':'] + decimal_text(n as nat),
                None => p.host,
            }
            &&& parse_url_spec(rebuilt_url(p)) == Some(p)
        }),
{
    let p = parse_url_spec(url)->Some_0;
    lemma_parsed_parts_ok(url);
    lemma_rebuilt_scheme(p);
    lemma_rebuilt_authority(p);
    let auth = authority_spec(p);
    let rest = auth + p.path;
    lemma_first_index_at(rest, '/', auth.len() as int);
    assert(rest.take(auth.len() as int) =~= auth);
    assert(rest.skip(auth.len() as int) =~= p.path);
    assert(split_path(rest) == (auth, p.path));
}

} // verus!
