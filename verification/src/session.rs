//! Sessions with the metadata site: the stored session's status, cookie
//! headers, the browser profiles a session is imported from, and the HTTP
//! requests made with it.
use aes_gcm::aead::{Aead, KeyInit};
use aes_gcm::{Aes256Gcm, Nonce};
use base64::engine::general_purpose::STANDARD as BASE64_STANDARD;
use base64::Engine;
use vstd::prelude::*;
use vstd::string::StringSliceAdditionalSpecFns;
use vstd::utf8::{decode_utf8, valid_utf8};

use crate::text::{
    ascii_lower, chars_of, concat_str, ends_with, extend_chars, has_suffix,
    lower_chars, map_chars, map_set, seq_eq, string_of, trim_chars, trim_start_chars, trim_start_set, trim_start_str, trim_start_str_chars, trim_ws, CharSet,
};
use crate::fspath::{join_result, path_join};
use crate::library::lemma_trim_set_shape;
use crate::text::{eq_ignore_ascii_case, eq_ignore_case, is_ws, str_eq, to_ascii_lowercase, trim_str};
use crate::url::{ascii_char, decimal_chars, decimal_text, parse_url_spec, ParsedUrl, UrlParts};

verus! {

broadcast use vstd::string::group_string_axioms;

// ---------------------------------------------------------------------------
// Stored session status
// ---------------------------------------------------------------------------

/// What the settings page shows of the stored session of a site.
pub struct MetadataSessionStatus {
    pub site_host: String,
    pub has_cookie: bool,
    pub source: Option<String>,
    pub status: String,
    pub updated_at: Option<String>,
    pub message: String,
}

/// The status shown as text.
pub struct SessionStatusView {
    pub site_host: Seq<char>,
    pub has_cookie: bool,
    pub source: Option<Seq<char>>,
    pub status: Seq<char>,
    pub updated_at: Option<Seq<char>>,
    pub message: Seq<char>,
}

impl View for MetadataSessionStatus {
    type V = SessionStatusView;

    open spec fn view(&self) -> SessionStatusView {
        SessionStatusView {
            site_host: self.site_host@,
            has_cookie: self.has_cookie,
            source: self.source.deep_view(),
            status: self.status@,
            updated_at: self.updated_at.deep_view(),
            message: self.message@,
        }
    }
}

/// The status of a stored session row `(source, status, message, updated_at)`,
/// or of a missing one.
pub open spec fn status_from_row_spec(
    site_host: Seq<char>,
    row: Option<(Seq<char>, Seq<char>, Seq<char>, Seq<char>)>,
) -> SessionStatusView {
    match row {
        Some((source, status, message, updated_at)) => SessionStatusView {
            site_host,
            has_cookie: true,
            source: Some(source),
            status,
            updated_at: Some(updated_at),
            message,
        },
        None => SessionStatusView {
            site_host,
            has_cookie: false,
            source: None,
            status: "missing"@,
            updated_at: None,
            message: "未导入浏览器会话"@,
        },
    }
}

/// The status of the stored session row of a site; `missing` when there is none.
pub fn metadata_session_status_from_row(
    site_host: &str,
    row: Option<(String, String, String, String)>,
) -> (r: MetadataSessionStatus)
    ensures
        r@ == status_from_row_spec(site_host@, row.deep_view()),
{
    let host = string_of(&chars_of(site_host));
    match row {
        Some((source, status, message, updated_at)) => MetadataSessionStatus {
            site_host: host,
            has_cookie: true,
            source: Some(source),
            status,
            updated_at: Some(updated_at),
            message,
        },
        None => MetadataSessionStatus {
            site_host: host,
            has_cookie: false,
            source: None,
            status: String::from_str("missing"),
            updated_at: None,
            message: String::from_str("未导入浏览器会话"),
        },
    }
}

// ---------------------------------------------------------------------------
// Cookies
// ---------------------------------------------------------------------------

/// A cookie header as pasted by the user: trimmed, a leading `Cookie:` or
/// `cookie:` dropped, line breaks as spaces, trimmed again.
pub open spec fn cookie_header_spec(value: Seq<char>) -> Seq<char> {
    trim_ws(
        map_set(
            trim_start_str(trim_start_str(trim_ws(value), "Cookie:"@), "cookie:"@),
            CharSet::LineBreak,
            ' ',
        ),
    )
}

/// A cookie header as pasted by the user, ready to send.
pub fn normalize_cookie_header_value(value: &str) -> (r: String)
    ensures
        r@ == cookie_header_spec(value@),
{
    let trimmed = trim_chars(&chars_of(value), CharSet::Whitespace);
    let a = trim_start_str_chars(&trimmed, &chars_of("Cookie:"));
    let b = trim_start_str_chars(&a, &chars_of("cookie:"));
    let c = map_chars(&b, CharSet::LineBreak, ' ');
    string_of(&trim_chars(&c, CharSet::Whitespace))
}

/// A normalised cookie header holds no line break and neither starts nor
/// ends with whitespace, so it fits on one header line.
pub proof fn lemma_cookie_header_one_line(value: Seq<char>)
    ensures
        forall|i: int| 0 <= i < cookie_header_spec(value).len() ==> {
            let c = #[trigger] cookie_header_spec(value)[i];
            c != '\r' && c != '\n'
        },
        cookie_header_spec(value).len() > 0 ==> !is_ws(cookie_header_spec(value)[0]) && !is_ws(cookie_header_spec(value).last()),
{
    let mapped = map_set(
        trim_start_str(trim_start_str(trim_ws(value), "Cookie:"@), "cookie:"@),
        CharSet::LineBreak,
        ' ',
    );
    lemma_trim_set_shape(mapped, CharSet::Whitespace);
    let r = cookie_header_spec(value);
    assert forall|i: int| 0 <= i < r.len() implies {
        let c = #[trigger] r[i];
        c != '\r' && c != '\n'
    } by {
        assert(mapped.contains(r[i]));
        let j = choose|j: int| 0 <= j < mapped.len() && mapped[j] == r[i];
    }
}

/// Whether a cookie's host key belongs to the site: the same host, the site
/// without `www.`, or a subdomain of it (ASCII case ignored, leading dots dropped).
pub open spec fn cookie_host_spec(host_key: Seq<char>, site_host: Seq<char>) -> bool {
    let host = ascii_lower(trim_start_set(host_key, CharSet::Dot));
    let site = ascii_lower(trim_start_set(site_host, CharSet::Dot));
    let base = trim_start_str(site, "www."@);
    host == site || host == base || ends_with(host, seq!['.'] + base)
}

/// Whether a cookie's host key belongs to the site.
pub fn cookie_host_matches(host_key: &str, site_host: &str) -> (r: bool)
    ensures
        r == cookie_host_spec(host_key@, site_host@),
{
    let host = lower_chars(&trim_start_chars(&chars_of(host_key), CharSet::Dot));
    let site = lower_chars(&trim_start_chars(&chars_of(site_host), CharSet::Dot));
    let base = trim_start_str_chars(&site, &chars_of("www."));
    let mut dotted = Vec::new();
    dotted.push('.');
    extend_chars(&mut dotted, &base);
    seq_eq(&host, &site) || seq_eq(&host, &base) || has_suffix(&host, &dotted)
}

/// Whether row `i` of the cookie rows `(name, host_key)` is sent: it belongs
/// to the site and no earlier row of the site has the same name.
pub open spec fn first_of_name(rows: Seq<(Seq<char>, Seq<char>)>, i: int, site_host: Seq<char>) -> bool {
    &&& cookie_host_spec(rows[i].1, site_host)
    &&& !(exists|k: int|
        0 <= k < i && #[trigger] rows[k].0 == rows[i].0 && cookie_host_spec(rows[k].1, site_host))
}

/// The positions below `n` of the rows that are sent, in order.
pub open spec fn selected_cookie_rows(rows: Seq<(Seq<char>, Seq<char>)>, site_host: Seq<char>, n: int) -> Seq<int>
    decreases n,
{
    if n <= 0 {
        Seq::empty()
    } else if first_of_name(rows, n - 1, site_host) {
        selected_cookie_rows(rows, site_host, n - 1).push(n - 1)
    } else {
        selected_cookie_rows(rows, site_host, n - 1)
    }
}

/// Of the cookie rows `(name, host_key)`, in the order the browser stores
/// them, the positions of those that are sent: rows of the site, the first of
/// each name.
pub fn select_cookie_rows(rows: &Vec<(String, String)>, site_host: &str) -> (r: Vec<usize>)
    ensures
        r@.map_values(|i: usize| i as int) == selected_cookie_rows(rows.deep_view(), site_host@, rows.len() as int),
{
    let ghost view = rows.deep_view();
    let mut out: Vec<usize> = Vec::new();
    let mut matched: Vec<bool> = Vec::new();
    let mut i: usize = 0;
    while i < rows.len()
        invariant
            i <= rows.len(),
            view == rows.deep_view(),
            matched.len() == i,
            forall|k: int| 0 <= k < i ==> #[trigger] matched@[k] == cookie_host_spec(view[k].1, site_host@),
            out@.map_values(|i: usize| i as int) == selected_cookie_rows(view, site_host@, i as int),
        decreases rows.len() - i,
    {
        let name = &rows[i].0;
        let matches_host = cookie_host_matches(rows[i].1.as_str(), site_host);
        let mut already = false;
        let mut j: usize = 0;
        while j < i
            invariant
                j <= i,
                i < rows.len(),
                view == rows.deep_view(),
                name@ == view[i as int].0,
                matched.len() == i,
                forall|k: int| 0 <= k < i ==> #[trigger] matched@[k] == cookie_host_spec(view[k].1, site_host@),
                already == exists|k: int|
                    0 <= k < j && #[trigger] view[k].0 == view[i as int].0 && cookie_host_spec(view[k].1, site_host@),
            decreases i - j,
        {
            if matched[j] && seq_eq(&chars_of(rows[j].0.as_str()), &chars_of(name.as_str())) {
                already = true;
            }
            proof {
                assert(view[j as int].0 == rows[j as int].0@);
                assert(matched@[j as int] == cookie_host_spec(view[j as int].1, site_host@));
            }
            j += 1;
        }
        proof {
            assert(view[i as int].1 == rows[i as int].1@);
        }
        if matches_host && !already {
            let ghost before = out@;
            out.push(i);
            assert(out@.map_values(|i: usize| i as int) == before.map_values(|i: usize| i as int).push(i as int));
        }
        matched.push(matches_host);
        i += 1;
    }
    out
}

// ---------------------------------------------------------------------------
// Errors
// ---------------------------------------------------------------------------

/// Why a session could not be imported or a request could not be made.
#[derive(Clone, Debug)]
pub enum SessionError {
    /// The requested browser is not one the library reads; holds the request
    /// as normalised.
    UnsupportedBrowser(String),
    /// The address could not be parsed.
    InvalidUrl,
    /// The site answered with a status outside `200..400`.
    HttpStatus(u32),
    /// The cookie is encrypted with the app-bound `v20` scheme.
    AppBoundCookie,
    /// An AES-GCM cookie shorter than its prefix, nonce and tag.
    CiphertextTooShort,
    /// The browser's master key is not an AES-256 key.
    InvalidMasterKey,
    /// AES-GCM refused the cookie.
    DecryptionFailed,
    /// The decrypted cookie is not UTF-8.
    InvalidUtf8,
    /// The stored master key is not Base64.
    InvalidBase64,
    /// A pasted cookie header is blank.
    EmptyCookie,
}

/// The message shown for an error.
pub open spec fn session_error_message(e: SessionError) -> Seq<char> {
    match e {
        SessionError::UnsupportedBrowser(name) => "不支持的浏览器类型: "@ + name@,
        SessionError::InvalidUrl => "URL 无效"@,
        SessionError::HttpStatus(code) => "HTTP 状态码 "@ + decimal_text(code as nat),
        SessionError::AppBoundCookie => "浏览器 cookie 使用 v20 加密，当前自动导入不可用"@,
        SessionError::CiphertextTooShort => "cookie 密文长度不足"@,
        SessionError::InvalidMasterKey => "浏览器主密钥无效"@,
        SessionError::DecryptionFailed => "AES-GCM 解密失败"@,
        SessionError::InvalidUtf8 => "cookie 不是有效 UTF-8"@,
        SessionError::InvalidBase64 => "encrypted_key 不是合法 Base64"@,
        SessionError::EmptyCookie => "cookie 不能为空"@,
    }
}

impl SessionError {
    /// The message shown for the error.
    pub fn message(&self) -> (r: String)
        ensures
            r@ == session_error_message(*self),
    {
        match self {
            SessionError::UnsupportedBrowser(name) => concat_str("不支持的浏览器类型: ", name.as_str()),
            SessionError::InvalidUrl => String::from_str("URL 无效"),
            SessionError::HttpStatus(code) => {
                let mut out = chars_of("HTTP 状态码 ");
                let digits = decimal_chars(*code);
                extend_chars(&mut out, &digits);
                string_of(&out)
            },
            SessionError::AppBoundCookie => String::from_str("浏览器 cookie 使用 v20 加密，当前自动导入不可用"),
            SessionError::CiphertextTooShort => String::from_str("cookie 密文长度不足"),
            SessionError::InvalidMasterKey => String::from_str("浏览器主密钥无效"),
            SessionError::DecryptionFailed => String::from_str("AES-GCM 解密失败"),
            SessionError::InvalidUtf8 => String::from_str("cookie 不是有效 UTF-8"),
            SessionError::InvalidBase64 => String::from_str("encrypted_key 不是合法 Base64"),
            SessionError::EmptyCookie => String::from_str("cookie 不能为空"),
        }
    }
}

// ---------------------------------------------------------------------------
// Browsers
// ---------------------------------------------------------------------------

/// A Chromium browser whose stored cookies can be imported.
#[derive(Clone, Copy, Debug, PartialEq, Eq, Structural)]
pub enum BrowserKind {
    Edge,
    Chrome,
}

/// The name of a browser as shown to the user.
pub open spec fn browser_label(b: BrowserKind) -> Seq<char> {
    match b {
        BrowserKind::Edge => "Edge"@,
        BrowserKind::Chrome => "Chrome"@,
    }
}

impl BrowserKind {
    /// The name of the browser as shown to the user.
    pub fn label(self) -> (r: &'static str)
        ensures
            r@ == browser_label(self),
    {
        match self {
            BrowserKind::Edge => "Edge",
            BrowserKind::Chrome => "Chrome",
        }
    }
}

/// The browser request as compared: trimmed and in ASCII lower case, `auto`
/// when none was given.
pub open spec fn browser_request(browser: Option<&str>) -> Seq<char> {
    ascii_lower(trim_ws(match browser {
        Some(b) => b@,
        None => "auto"@,
    }))
}

/// The browsers searched for a request: both for an empty request or `auto`,
/// one for `edge` or `chrome`, and an error for anything else.
pub open spec fn requested_browsers_spec(browser: Option<&str>) -> Option<Seq<BrowserKind>> {
    let requested = browser_request(browser);
    if requested == ""@ || requested == "auto"@ {
        Some(seq![BrowserKind::Edge, BrowserKind::Chrome])
    } else if requested == "edge"@ {
        Some(seq![BrowserKind::Edge])
    } else if requested == "chrome"@ {
        Some(seq![BrowserKind::Chrome])
    } else {
        None
    }
}

/// The browsers whose profiles are searched for the request.
pub fn requested_browser_kinds(browser: Option<&str>) -> (r: Result<Vec<BrowserKind>, SessionError>)
    ensures
        match requested_browsers_spec(browser) {
            Some(kinds) => r matches Ok(v) && v@ == kinds,
            None => r matches Err(SessionError::UnsupportedBrowser(name))
                && name@ == browser_request(browser),
        },
{
    let raw = match browser {
        Some(b) => b,
        None => "auto",
    };
    let requested = to_ascii_lowercase(trim_str(raw).as_str());
    proof {
        reveal_strlit("auto");
        assert(requested@ == browser_request(browser));
    }
    if str_eq(requested.as_str(), "") || str_eq(requested.as_str(), "auto") {
        Ok(vec![BrowserKind::Edge, BrowserKind::Chrome])
    } else if str_eq(requested.as_str(), "edge") {
        Ok(vec![BrowserKind::Edge])
    } else if str_eq(requested.as_str(), "chrome") {
        Ok(vec![BrowserKind::Chrome])
    } else {
        Err(SessionError::UnsupportedBrowser(requested))
    }
}

/// Where a profile keeps its cookie database: the newer place under
/// `Network` and the older one, in the order they are tried.
pub open spec fn cookie_db_candidates_spec(profile_dir: Seq<char>) -> (Seq<char>, Seq<char>) {
    (
        join_result(join_result(profile_dir, "Network"@), "Cookies"@),
        join_result(profile_dir, "Cookies"@),
    )
}

/// The two places where a profile may keep its cookie database, newer first.
pub fn chromium_cookie_db_candidates(profile_dir: &str) -> (r: (String, String))
    ensures
        (r.0@, r.1@) == cookie_db_candidates_spec(profile_dir@),
{
    let network_dir = path_join(profile_dir, "Network");
    (path_join(network_dir.as_str(), "Cookies"), path_join(profile_dir, "Cookies"))
}

/// The cookie database of a profile, given which of its two candidate places
/// exist: the newer one when it exists, else the older one, else none.
pub fn chromium_cookie_db_path(profile_dir: &str, network_exists: bool, legacy_exists: bool) -> (r: Option<String>)
    ensures
        network_exists ==> (r matches Some(p) && p@ == cookie_db_candidates_spec(profile_dir@).0),
        !network_exists && legacy_exists ==> (r matches Some(p) && p@ == cookie_db_candidates_spec(profile_dir@).1),
        !network_exists && !legacy_exists ==> r is None,
{
    let (network_path, legacy_path) = chromium_cookie_db_candidates(profile_dir);
    if network_exists {
        Some(network_path)
    } else if legacy_exists {
        Some(legacy_path)
    } else {
        None
    }
}

// ---------------------------------------------------------------------------
// Stable names
// ---------------------------------------------------------------------------

/// The 64-bit FNV-1a offset basis.
pub const FNV_OFFSET_BASIS: u64 = 14695981039346656037u64;

/// The 64-bit FNV prime.
pub const FNV_PRIME: u64 = 1099511628211u64;

/// The 64-bit FNV-1a hash of a byte string.
pub open spec fn fnv1a(bytes: Seq<u8>) -> u64
    decreases bytes.len(),
{
    if bytes.len() == 0 {
        FNV_OFFSET_BASIS
    } else {
        vstd::wrapping::u64_specs::wrapping_mul(fnv1a(bytes.drop_last()) ^ (bytes.last() as u64), FNV_PRIME)
    }
}

/// Lower-case hexadecimal digit.
pub open spec fn lower_hex_digit(n: nat) -> char {
    if n < 10 {
        ((48 + n) as u32) as char
    } else {
        ((87 + n) as u32) as char
    }
}

/// The last `width` hexadecimal digits of `n`, with leading zeros.
pub open spec fn hex_fixed(n: nat, width: nat) -> Seq<char>
    decreases width,
{
    if width == 0 {
        Seq::empty()
    } else {
        hex_fixed(n / 16, (width - 1) as nat).push(lower_hex_digit(n % 16))
    }
}

fn lower_hex_char(n: u64) -> (c: char)
    requires
        n < 16,
    ensures
        c == lower_hex_digit(n as nat),
{
    if n < 10 {
        ascii_char((48 + n) as u8)
    } else {
        ascii_char((87 + n) as u8)
    }
}

fn hex_fixed_chars(n: u64, width: usize) -> (r: Vec<char>)
    ensures
        r@ == hex_fixed(n as nat, width as nat),
    decreases width,
{
    if width == 0 {
        Vec::new()
    } else {
        let mut v = hex_fixed_chars(n / 16, width - 1);
        v.push(lower_hex_char(n % 16));
        v
    }
}

/// A name derived from a path that stays the same from run to run: the
/// FNV-1a hash of its UTF-8 bytes as 16 lower-case hexadecimal digits.
pub fn stable_path_hash(value: &str) -> (r: String)
    ensures
        r@ == hex_fixed(fnv1a(value.spec_bytes()) as nat, 16),
{
    let bytes = value.as_bytes();
    let mut hash: u64 = FNV_OFFSET_BASIS;
    let mut i: usize = 0;
    while i < bytes.len()
        invariant
            i <= bytes.len(),
            bytes@ == value.spec_bytes(),
            hash == fnv1a(bytes@.take(i as int)),
        decreases bytes.len() - i,
    {
        proof {
            let prefix = bytes@.take(i + 1);
            assert(prefix.drop_last() == bytes@.take(i as int));
            assert(prefix.last() == bytes@[i as int]);
        }
        hash = hash ^ (bytes[i] as u64);
        hash = hash.wrapping_mul(FNV_PRIME);
        i += 1;
    }
    assert(bytes@.take(bytes@.len() as int) == bytes@);
    string_of(&hex_fixed_chars(hash, 16))
}

/// A hexadecimal name of fixed width has that many characters, each a
/// lower-case hexadecimal digit.
pub proof fn lemma_hex_fixed_shape(n: nat, width: nat)
    ensures
        hex_fixed(n, width).len() == width,
        forall|i: int| 0 <= i < width ==> {
            let c = #[trigger] hex_fixed(n, width)[i];
            ('0' <= c <= '9') || ('a' <= c <= 'f')
        },
    decreases width,
{
    if width > 0 {
        lemma_hex_fixed_shape(n / 16, (width - 1) as nat);
    }
}

// ---------------------------------------------------------------------------
// Cookie values
// ---------------------------------------------------------------------------

/// `name=value` of a cookie.
pub open spec fn cookie_pair_text(pair: (Seq<char>, Seq<char>)) -> Seq<char> {
    pair.0 + "="@ + pair.1
}

/// The cookies that are kept: those whose value is not blank.
pub open spec fn kept_cookies(pairs: Seq<(Seq<char>, Seq<char>)>) -> Seq<(Seq<char>, Seq<char>)>
    decreases pairs.len(),
{
    if pairs.len() == 0 {
        Seq::empty()
    } else if trim_ws(pairs.last().1).len() > 0 {
        kept_cookies(pairs.drop_last()).push(pairs.last())
    } else {
        kept_cookies(pairs.drop_last())
    }
}

/// Cookies joined as a header: `name=value` pairs separated by `; `.
pub open spec fn join_cookie_pairs(pairs: Seq<(Seq<char>, Seq<char>)>) -> Seq<char>
    decreases pairs.len(),
{
    if pairs.len() == 0 {
        Seq::empty()
    } else if pairs.len() == 1 {
        cookie_pair_text(pairs[0])
    } else {
        join_cookie_pairs(pairs.drop_last()) + "; "@ + cookie_pair_text(pairs.last())
    }
}

/// The cookie header built from the values of the sent rows `(name, value)`:
/// blank values are left out, and there is no header when none is left.
pub fn cookie_header_from_values(pairs: &Vec<(String, String)>) -> (r: Option<String>)
    ensures
        kept_cookies(pairs.deep_view()).len() == 0 ==> r is None,
        kept_cookies(pairs.deep_view()).len() > 0 ==> (r matches Some(h) && h@ == join_cookie_pairs(kept_cookies(pairs.deep_view()))),
{
    let ghost view = pairs.deep_view();
    let mut out: Vec<char> = Vec::new();
    let mut count: usize = 0;
    let mut i: usize = 0;
    while i < pairs.len()
        invariant
            i <= pairs.len(),
            view == pairs.deep_view(),
            count == kept_cookies(view.take(i as int)).len(),
            count <= i,
            out@ == join_cookie_pairs(kept_cookies(view.take(i as int))),
        decreases pairs.len() - i,
    {
        let ghost kept_before = kept_cookies(view.take(i as int));
        proof {
            let prefix = view.take(i + 1);
            assert(prefix.drop_last() == view.take(i as int));
            assert(prefix.last() == view[i as int]);
        }
        let name = &pairs[i].0;
        let value = &pairs[i].1;
        let trimmed = trim_str(value.as_str());
        if !trimmed.as_str().is_empty() {
            let ghost pair = (name@, value@);
            assert(view[i as int] == pair);
            if count > 0 {
                out.push(';');
                out.push(' ');
            }
            let text = chars_of(name.as_str());
            extend_chars(&mut out, &text);
            out.push('=');
            let v = chars_of(value.as_str());
            extend_chars(&mut out, &v);
            proof {
                let kept = kept_before.push(pair);
                assert(kept.drop_last() == kept_before);
                reveal_strlit("=");
                reveal_strlit("; ");
                if count == 0 {
                    assert(kept.len() == 1);
                    assert(kept[0] == pair);
                }
                assert(out@ == join_cookie_pairs(kept));
            }
            count += 1;
        }
        i += 1;
    }
    assert(view.take(pairs.len() as int) == view);
    if count == 0 {
        None
    } else {
        Some(string_of(&out))
    }
}

// ---------------------------------------------------------------------------
// Decrypting stored cookies
// ---------------------------------------------------------------------------

/// What the AES-256-GCM decryption of a ciphertext (tag last) under a key and
/// a nonce returns; `None` when the tag does not verify.
pub uninterp spec fn aes_gcm_open_result(key: Seq<u8>, nonce: Seq<u8>, ciphertext: Seq<u8>) -> Option<Seq<u8>>;

/// `aes_gcm::Aes256Gcm::new_from_slice` with the key, then
/// `aes_gcm::aead::Aead::decrypt` with the nonce and the ciphertext. Claims,
/// as the crates' source shows, that the key is refused exactly when it is
/// not 32 bytes long; otherwise that the result is `aes_gcm_open_result` of
/// key, nonce and ciphertext, shorter by the 16-byte tag when it succeeds.
#[verifier::external_body]
fn aes256gcm_open(key: &[u8], nonce: &[u8], ciphertext: &[u8]) -> (r: Result<Vec<u8>, SessionError>)
    requires
        nonce.len() == 12,
    ensures
        key.len() != 32 ==> r matches Err(SessionError::InvalidMasterKey),
        key.len() == 32 ==> match r {
            Ok(p) => aes_gcm_open_result(key@, nonce@, ciphertext@) == Some(p@)
                && p.len() + 16 == ciphertext.len(),
            Err(e) => e is DecryptionFailed && aes_gcm_open_result(key@, nonce@, ciphertext@) is None,
        },
{
    let cipher = match Aes256Gcm::new_from_slice(key) {
        Ok(cipher) => cipher,
        Err(_) => return Err(SessionError::InvalidMasterKey),
    };
    cipher.decrypt(Nonce::from_slice(nonce), ciphertext).map_err(|_| SessionError::DecryptionFailed)
}

/// `String::from_utf8`: the text when the bytes are valid UTF-8.
#[verifier::external_body]
fn utf8_string(bytes: Vec<u8>) -> (r: Option<String>)
    ensures
        r is Some <==> valid_utf8(bytes@),
        r matches Some(s) ==> s@ == decode_utf8(bytes@),
{
    String::from_utf8(bytes).ok()
}

/// What became of an encrypted cookie value.
#[derive(Clone, Debug)]
pub enum CookieDecryption {
    /// The value as text.
    Text(String),
    /// The value is protected by the operating system (DPAPI); the caller
    /// unprotects the bytes and reads them with `cookie_text_from_bytes`.
    NeedsDpapi,
}

/// Whether `bytes` begins with the ASCII text `prefix`.
pub open spec fn bytes_start_with(bytes: Seq<u8>, prefix: Seq<u8>) -> bool {
    prefix.len() <= bytes.len() && bytes.take(prefix.len() as int) == prefix
}

/// `v10`, `v11`, `v20` as bytes.
pub open spec fn version_prefix(major: u8, minor: u8) -> Seq<u8> {
    seq![118u8, major, minor]
}

/// How an encrypted cookie value is read: empty as empty text; `v20` is
/// refused; `v10` and `v11` are AES-256-GCM with a 12-byte nonce after the
/// prefix, under the browser's master key, and must be UTF-8; anything else is
/// left to DPAPI.
pub open spec fn cookie_decryption_spec(
    encrypted: Seq<u8>,
    master_key: Seq<u8>,
) -> Result<Option<Seq<char>>, SessionError> {
    if encrypted.len() == 0 {
        Ok(Some(Seq::empty()))
    } else if bytes_start_with(encrypted, version_prefix(50, 48)) {
        Err(SessionError::AppBoundCookie)
    } else if bytes_start_with(encrypted, version_prefix(49, 48)) || bytes_start_with(encrypted, version_prefix(49, 49)) {
        if encrypted.len() < 31 {
            Err(SessionError::CiphertextTooShort)
        } else if master_key.len() != 32 {
            Err(SessionError::InvalidMasterKey)
        } else {
            match aes_gcm_open_result(master_key, encrypted.subrange(3, 15), encrypted.skip(15)) {
                None => Err(SessionError::DecryptionFailed),
                Some(plain) => if valid_utf8(plain) {
                    Ok(Some(decode_utf8(plain)))
                } else {
                    Err(SessionError::InvalidUtf8)
                },
            }
        }
    } else {
        Ok(None)
    }
}

fn starts_with_bytes(bytes: &[u8], a: u8, b: u8, c: u8) -> (r: bool)
    ensures
        r == bytes_start_with(bytes@, seq![a, b, c]),
{
    if bytes.len() < 3 {
        return false;
    }
    let r = bytes[0] == a && bytes[1] == b && bytes[2] == c;
    proof {
        if r {
            assert(bytes@.take(3) == seq![a, b, c]);
        } else {
            assert(bytes@.take(3)[0] == bytes@[0] && bytes@.take(3)[1] == bytes@[1] && bytes@.take(3)[2] == bytes@[2]);
        }
    }
    r
}

fn slice_to_vec(bytes: &[u8], from: usize, to: usize) -> (r: Vec<u8>)
    requires
        from <= to <= bytes.len(),
    ensures
        r@ == bytes@.subrange(from as int, to as int),
{
    let mut out: Vec<u8> = Vec::new();
    let mut i = from;
    while i < to
        invariant
            from <= i <= to <= bytes.len(),
            out@ == bytes@.subrange(from as int, i as int),
        decreases to - i,
    {
        out.push(bytes[i]);
        i += 1;
    }
    out
}

/// Reads an encrypted cookie value of a Chromium browser.
pub fn decrypt_chromium_cookie_value(encrypted_value: &[u8], master_key: &[u8]) -> (r: Result<CookieDecryption, SessionError>)
    ensures
        match cookie_decryption_spec(encrypted_value@, master_key@) {
            Ok(Some(text)) => r matches Ok(CookieDecryption::Text(s)) && s@ == text,
            Ok(None) => r matches Ok(CookieDecryption::NeedsDpapi),
            Err(e) => r matches Err(e2) && e2 == e,
        },
{
    if encrypted_value.len() == 0 {
        return Ok(CookieDecryption::Text(String::new()));
    }
    if starts_with_bytes(encrypted_value, 118, 50, 48) {
        return Err(SessionError::AppBoundCookie);
    }
    if starts_with_bytes(encrypted_value, 118, 49, 48) || starts_with_bytes(encrypted_value, 118, 49, 49) {
        if encrypted_value.len() < 31 {
            return Err(SessionError::CiphertextTooShort);
        }
        let nonce = slice_to_vec(encrypted_value, 3, 15);
        let ciphertext = slice_to_vec(encrypted_value, 15, encrypted_value.len());
        assert(ciphertext@ == encrypted_value@.skip(15));
        let plain = match aes256gcm_open(master_key, nonce.as_slice(), ciphertext.as_slice()) {
            Ok(plain) => plain,
            Err(e) => return Err(e),
        };
        return match utf8_string(plain) {
            Some(text) => Ok(CookieDecryption::Text(text)),
            None => Err(SessionError::InvalidUtf8),
        };
    }
    Ok(CookieDecryption::NeedsDpapi)
}

/// Reads the bytes that DPAPI returned for a cookie as text.
pub fn cookie_text_from_bytes(bytes: Vec<u8>) -> (r: Result<String, SessionError>)
    ensures
        valid_utf8(bytes@) ==> (r matches Ok(s) && s@ == decode_utf8(bytes@)),
        !valid_utf8(bytes@) ==> r matches Err(SessionError::InvalidUtf8),
{
    match utf8_string(bytes) {
        Some(text) => Ok(text),
        None => Err(SessionError::InvalidUtf8),
    }
}

/// What `base64::engine::general_purpose::STANDARD.decode` returns for a text.
pub uninterp spec fn base64_decode_result(text: Seq<char>) -> Option<Seq<u8>>;

/// `base64::Engine::decode` with the standard alphabet and padding. Claims
/// that the result is `base64_decode_result` of the text.
#[verifier::external_body]
fn base64_standard_decode(text: &str) -> (r: Option<Vec<u8>>)
    ensures
        r.deep_view() == base64_decode_result(text@),
{
    BASE64_STANDARD.decode(text).ok()
}

/// The bytes `DPAPI` that mark a key protected by the operating system.
pub open spec fn dpapi_marker() -> Seq<u8> {
    seq![68u8, 80u8, 65u8, 80u8, 73u8]
}

/// The protected master key: the Base64 text decoded, without its `DPAPI`
/// marker when it has one.
pub open spec fn master_key_payload_spec(encrypted_key: Seq<char>) -> Option<Seq<u8>> {
    match base64_decode_result(encrypted_key) {
        None => None,
        Some(decoded) => if bytes_start_with(decoded, dpapi_marker()) {
            Some(decoded.skip(5))
        } else {
            Some(decoded)
        },
    }
}

/// The master key as stored in `Local State`, ready for DPAPI.
pub fn master_key_payload(encrypted_key: &str) -> (r: Result<Vec<u8>, SessionError>)
    ensures
        match master_key_payload_spec(encrypted_key@) {
            Some(p) => r matches Ok(v) && v@ == p,
            None => r matches Err(SessionError::InvalidBase64),
        },
{
    let decoded = match base64_standard_decode(encrypted_key) {
        Some(decoded) => decoded,
        None => return Err(SessionError::InvalidBase64),
    };
    let marked = decoded.len() >= 5 && decoded[0] == 68 && decoded[1] == 80 && decoded[2] == 65
        && decoded[3] == 80 && decoded[4] == 73;
    proof {
        if decoded.len() >= 5 {
            let t = decoded@.take(5);
            assert(t[0] == decoded@[0] && t[1] == decoded@[1] && t[2] == decoded@[2] && t[3] == decoded@[3] && t[4] == decoded@[4]);
            if marked {
                assert(t == dpapi_marker());
            } else {
                let m = dpapi_marker();
                assert(m[0] == 68 && m[1] == 80 && m[2] == 65 && m[3] == 80 && m[4] == 73);
                assert(t != m);
            }
        }
        assert(base64_decode_result(encrypted_key@) == Some(decoded@));
    }
    if marked {
        let rest = slice_to_vec(decoded.as_slice(), 5, decoded.len());
        assert(rest@ == decoded@.skip(5));
        Ok(rest)
    } else {
        Ok(decoded)
    }
}

// ---------------------------------------------------------------------------
// Requests
// ---------------------------------------------------------------------------

/// A session with the metadata site: the cookie header sent with each
/// request, where it came from and when it was stored.
pub struct MetadataSession {
    pub cookie_header: String,
    pub source: String,
    pub updated_at: String,
}

/// The user agent named when the HTTP session is opened.
pub const HTTP_AGENT: &'static str = "Kawa Library/0.1";

/// The most bytes of a response body that are read.
pub const MAX_RESPONSE_BYTES: u32 = 12000000u32;

/// The headers every request carries before the session's cookies.
pub const BASE_REQUEST_HEADERS: &'static str = "Accept: text/html,application/xhtml+xml,application/xml;q=0.9,image/avif,image/webp,*/*;q=0.8\r\nAccept-Language: zh-CN,zh;q=0.9,ja;q=0.8,en;q=0.6\r\nUser-Agent: Mozilla/5.0 (Windows NT 10.0; Win64; x64) KawaLibrary/0.1\r\nCookie: existmag=all; over18=1; age=verified";

/// A GET request as it is sent.
pub struct HttpRequest {
    pub host: String,
    pub port: u16,
    pub secure: bool,
    pub path: String,
    pub headers: String,
}

/// The request headers: the fixed ones, the session's cookies (trimmed) after
/// the fixed cookies when there are any, and the referer when there is one,
/// each header line ended by CRLF.
pub open spec fn request_headers_spec(cookie: Option<Seq<char>>, referer: Option<Seq<char>>) -> Seq<char> {
    let session_part = match cookie {
        Some(c) => if trim_ws(c).len() > 0 {
            "; "@ + trim_ws(c)
        } else {
            Seq::empty()
        },
        None => Seq::empty(),
    };
    let referer_part = match referer {
        Some(r) => "Referer: "@ + r + "\r\n"@,
        None => Seq::empty(),
    };
    BASE_REQUEST_HEADERS@ + session_part + "\r\n"@ + referer_part
}

/// The cookie header of a session, if any.
pub open spec fn session_cookie(session: Option<&MetadataSession>) -> Option<Seq<char>> {
    match session {
        Some(s) => Some(s.cookie_header@),
        None => None,
    }
}

/// The referer, if any.
pub open spec fn referer_text(referer: Option<&str>) -> Option<Seq<char>> {
    match referer {
        Some(r) => Some(r@),
        None => None,
    }
}

/// The port a request goes to: the address's own, else 443 for `https` and
/// 80 otherwise.
pub open spec fn request_port(p: UrlParts) -> u16 {
    match p.port {
        Some(port) => port,
        None => if p.scheme == "https"@ {
            443u16
        } else {
            80u16
        },
    }
}

fn request_headers(session: Option<&MetadataSession>, referer: Option<&str>) -> (r: String)
    ensures
        r@ == request_headers_spec(session_cookie(session), referer_text(referer)),
{
    let mut out = chars_of(BASE_REQUEST_HEADERS);
    proof {
        reveal_strlit("; ");
        reveal_strlit("\r\n");
        reveal_strlit("Referer: ");
    }
    if let Some(session) = session {
        let cookie = trim_str(session.cookie_header.as_str());
        if !cookie.as_str().is_empty() {
            out.push(';');
            out.push(' ');
            let c = chars_of(cookie.as_str());
            extend_chars(&mut out, &c);
        }
    }
    out.push('\r');
    out.push('\n');
    if let Some(referer) = referer {
        let label = chars_of("Referer: ");
        extend_chars(&mut out, &label);
        let r = chars_of(referer);
        extend_chars(&mut out, &r);
        out.push('\r');
        out.push('\n');
    }
    string_of(&out)
}

/// The GET request for an address, with the session's cookies and the
/// referer; an error when the address does not parse.
pub fn http_get(url: &str, session: Option<&MetadataSession>, referer: Option<&str>) -> (r: Result<HttpRequest, SessionError>)
    ensures
        match parse_url_spec(url@) {
            None => r matches Err(SessionError::InvalidUrl),
            Some(p) => r matches Ok(req) && req.host@ == p.host && req.path@ == p.path
                && req.secure == (p.scheme == "https"@) && req.port == request_port(p)
                && req.headers@ == request_headers_spec(session_cookie(session), referer_text(referer)),
        },
{
    let parsed = match ParsedUrl::parse(url) {
        Some(parsed) => parsed,
        None => return Err(SessionError::InvalidUrl),
    };
    let secure = str_eq(parsed.scheme.as_str(), "https");
    let port = match parsed.port {
        Some(port) => port,
        None => if secure {
            443
        } else {
            80
        },
    };
    let headers = request_headers(session, referer);
    Ok(HttpRequest { host: parsed.host, port, secure, path: parsed.path, headers })
}

/// How many bytes the next read of a response asks for: what is available,
/// but no more than what keeps the body within `MAX_RESPONSE_BYTES`.
pub fn response_read_size(available: u32, received: u32) -> (r: u32)
    ensures
        r == if received >= MAX_RESPONSE_BYTES {
            0
        } else if available < MAX_RESPONSE_BYTES - received {
            available as int
        } else {
            MAX_RESPONSE_BYTES - received
        },
{
    let room = MAX_RESPONSE_BYTES.saturating_sub(received);
    if available < room {
        available
    } else {
        room
    }
}

/// Whether a status counts as success: `200..400`.
pub open spec fn status_ok(status: u32) -> bool {
    200 <= status < 400
}

/// What `String::from_utf8_lossy` returns for a byte string.
pub uninterp spec fn utf8_lossy_result(bytes: Seq<u8>) -> Seq<char>;

/// `String::from_utf8_lossy`. Claims that the result is `utf8_lossy_result`
/// of the bytes and, as its documentation says, the decoded text when the
/// bytes are valid UTF-8.
#[verifier::external_body]
fn utf8_lossy(bytes: &[u8]) -> (r: String)
    ensures
        r@ == utf8_lossy_result(bytes@),
        valid_utf8(bytes@) ==> r@ == decode_utf8(bytes@),
{
    String::from_utf8_lossy(bytes).to_string()
}

/// The body of a response as text: an error unless the status is in
/// `200..400`, invalid UTF-8 replaced.
pub fn http_get_text_with_session(status: u32, body: &[u8]) -> (r: Result<String, SessionError>)
    ensures
        status_ok(status) ==> (r matches Ok(text) && text@ == utf8_lossy_result(body@)),
        status_ok(status) && valid_utf8(body@) ==> (r matches Ok(text) && text@ == decode_utf8(body@)),
        !status_ok(status) ==> (r matches Err(SessionError::HttpStatus(code)) && code == status),
{
    if !(200 <= status && status < 400) {
        return Err(SessionError::HttpStatus(status));
    }
    Ok(utf8_lossy(body))
}

/// The body of a response as bytes: an error unless the status is in
/// `200..400`.
pub fn http_get_bytes_with_session(status: u32, body: Vec<u8>) -> (r: Result<Vec<u8>, SessionError>)
    ensures
        status_ok(status) ==> (r matches Ok(bytes) && bytes@ == body@),
        !status_ok(status) ==> (r matches Err(SessionError::HttpStatus(code)) && code == status),
{
    if !(200 <= status && status < 400) {
        return Err(SessionError::HttpStatus(status));
    }
    Ok(body)
}

/// The UTF-16 code units of a character.
pub open spec fn utf16_units(c: char) -> Seq<u16> {
    let v = c as u32;
    if v < 0x10000 {
        seq![v as u16]
    } else {
        let w = (v - 0x10000) as nat;
        seq![(0xD800 + w / 1024) as u16, (0xDC00 + w % 1024) as u16]
    }
}

/// The UTF-16 encoding of a text.
pub open spec fn utf16_encode(s: Seq<char>) -> Seq<u16>
    decreases s.len(),
{
    if s.len() == 0 {
        Seq::empty()
    } else {
        utf16_encode(s.drop_last()) + utf16_units(s.last())
    }
}

/// A text as a NUL-terminated UTF-16 string, as Windows calls take it.
pub fn to_wide(value: &str) -> (r: Vec<u16>)
    ensures
        r@ == utf16_encode(value@).push(0u16),
{
    let chars = chars_of(value);
    let mut out: Vec<u16> = Vec::new();
    let mut i: usize = 0;
    while i < chars.len()
        invariant
            i <= chars.len(),
            chars@ == value@,
            out@ == utf16_encode(chars@.take(i as int)),
        decreases chars.len() - i,
    {
        let c = chars[i];
        let v = c as u32;
        let ghost before = out@;
        proof {
            vstd::utf8::char_is_scalar(c);
            let prefix = chars@.take(i + 1);
            assert(prefix.drop_last() == chars@.take(i as int));
            assert(prefix.last() == c);
        }
        if v < 0x10000 {
            out.push(v as u16);
        } else {
            assert(v <= 0x10FFFF);
            let w = v - 0x10000;
            out.push((0xD800 + w / 1024) as u16);
            out.push((0xDC00 + w % 1024) as u16);
        }
        assert(out@ == before + utf16_units(c));
        i += 1;
    }
    assert(chars@.take(chars.len() as int) == chars@);
    out.push(0);
    out
}

/// Seconds since the Unix epoch as stored: `None` (a time before the epoch)
/// is 0, and values beyond `i64::MAX` are cut to it.
pub fn system_time_to_unix(seconds_since_epoch: Option<u64>) -> (r: i64)
    ensures
        r == match seconds_since_epoch {
            Some(s) => if s > i64::MAX {
                i64::MAX as int
            } else {
                s as int
            },
            None => 0,
        },
{
    match seconds_since_epoch {
        Some(s) => if s > 9223372036854775807u64 {
            9223372036854775807i64
        } else {
            s as i64
        },
        None => 0,
    }
}

/// Whether two path texts are the same up to ASCII case.
pub fn paths_same_ignore_case(left: &str, right: &str) -> (r: bool)
    ensures
        r == eq_ignore_case(left@, right@),
{
    eq_ignore_ascii_case(left, right)
}

} // verus!
