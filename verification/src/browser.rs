//! Importing a session from a local Chromium browser: which profiles are
//! tried and in what order, and the import itself as a state machine that
//! asks its caller to list profiles, read their cookies and probe the site.
use vstd::prelude::*;

use crate::html::{is_age_verification_page, is_age_wall_spec};
use crate::order::{
    is_permutation, is_sorted_order, lemma_is_the_sorted_order, reorder, sorted_order,
    the_sorted_order, uniform_keys, KeyView, SortKey,
};
use crate::session::{
    browser_label, browser_request, cookie_decryption_spec, cookie_header_spec, decrypt_chromium_cookie_value,
    normalize_cookie_header_value, requested_browser_kinds, requested_browsers_spec, BrowserKind,
    CookieDecryption, MetadataSession, MetadataSessionStatus, SessionError, SessionStatusView,
};
use crate::text::{chars_of, extend_chars, has_prefix, starts_with, str_eq, string_of};
use crate::url::{build_metadata_search_url, search_url_spec};

verus! {

broadcast use vstd::string::group_string_axioms;

// ---------------------------------------------------------------------------
// Profiles
// ---------------------------------------------------------------------------

/// Whether a folder of the browser's user data is a profile: `Default` or
/// `Profile ` followed by anything.
pub open spec fn is_profile_name(name: Seq<char>) -> bool {
    name == "Default"@ || starts_with(name, "Profile "@)
}

/// The candidate profiles: folder names with a cookie database that are
/// profiles, in the order found.
pub open spec fn profile_candidates(entries: Seq<(Seq<char>, bool)>) -> Seq<Seq<char>>
    decreases entries.len(),
{
    if entries.len() == 0 {
        Seq::empty()
    } else {
        let e = entries.last();
        let before = profile_candidates(entries.drop_last());
        if e.1 && is_profile_name(e.0) {
            before.push(e.0)
        } else {
            before
        }
    }
}

/// Sort keys of profiles: `Default` first, then by name.
pub open spec fn profile_keys(names: Seq<Seq<char>>) -> Seq<KeyView> {
    names.map_values(
        |n: Seq<char>| KeyView { first: if n == "Default"@ { 1i64 } else { 0i64 }, second: 0, text: n, text2: Seq::empty(), text_desc: false },
    )
}

/// The profiles tried, given the folders of the browser's user data as
/// `(name, has a cookie database)`: the profile folders with a cookie
/// database, `Default` first, then by name.
pub fn chromium_profiles(entries: &Vec<(String, bool)>) -> (r: Vec<String>)
    ensures
        ({
            let c = profile_candidates(entries.deep_view());
            r.deep_view() == reorder(c, the_sorted_order(profile_keys(c)))
        }),
{
    let ghost ev = entries.deep_view();
    let mut names: Vec<String> = Vec::new();
    let mut keys: Vec<SortKey> = Vec::new();
    let mut i: usize = 0;
    while i < entries.len()
        invariant
            i <= entries.len(),
            ev == entries.deep_view(),
            names.deep_view() == profile_candidates(ev.take(i as int)),
            keys.deep_view() == profile_keys(names.deep_view()),
            uniform_keys(keys.deep_view()),
        decreases entries.len() - i,
    {
        proof {
            let t = ev.take(i + 1);
            assert(t.drop_last() == ev.take(i as int));
            assert(t.last() == ev[i as int]);
            assert(ev[i as int] == (entries[i as int].0@, entries[i as int].1));
            reveal_strlit("Default");
            reveal_strlit("Profile ");
        }
        let name = &entries[i].0;
        let is_default = str_eq(name.as_str(), "Default");
        let is_numbered = has_prefix(&chars_of(name.as_str()), &chars_of("Profile "));
        if entries[i].1 && (is_default || is_numbered) {
            let ghost before_n = names.deep_view();
            let ghost before_k = keys.deep_view();
            let ghost kv = KeyView { first: if name@ == "Default"@ { 1i64 } else { 0i64 }, second: 0, text: name@, text2: Seq::empty(), text_desc: false };
            keys.push(SortKey { first: if is_default { 1 } else { 0 }, second: 0, text: chars_of(name.as_str()), text2: Vec::new(), text_desc: false });
            names.push(string_of(&chars_of(name.as_str())));
            proof {
                assert(names.deep_view() =~= before_n.push(name@));
                assert(keys.deep_view() =~= before_k.push(kv));
                assert(profile_keys(before_n.push(name@)) =~= profile_keys(before_n).push(kv));
            }
        }
        i += 1;
    }
    assert(ev.take(entries.len() as int) == ev);
    let order = sorted_order(&keys);
    let mut out: Vec<String> = Vec::new();
    let mut k: usize = 0;
    while k < order.len()
        invariant
            k <= order.len(),
            is_permutation(order@, names.len() as nat),
            names.deep_view().len() == names.len(),
            out.deep_view() == reorder(names.deep_view(), order@.take(k as int)),
        decreases order.len() - k,
    {
        let ghost before = out.deep_view();
        out.push(string_of(&chars_of(names[order[k]].as_str())));
        proof {
            assert(out.deep_view() =~= before.push(names.deep_view()[order@[k as int] as int]));
            assert(reorder(names.deep_view(), order@.take(k + 1)) =~= reorder(names.deep_view(), order@.take(k as int)).push(
                names.deep_view()[order@[k as int] as int],
            ));
        }
        k += 1;
    }
    proof {
        assert(order@.take(order.len() as int) =~= order@);
        assert(keys.deep_view().len() == keys.len());
        assert(is_sorted_order(profile_keys(names.deep_view()), order@));
        lemma_is_the_sorted_order(profile_keys(names.deep_view()), order@);
    }
    out
}

// ---------------------------------------------------------------------------
// The import as a state machine
// ---------------------------------------------------------------------------

/// The code searched to probe whether a session gets past the age check.
pub const PROBE_CODE: &'static str = "IPZZ-832";

/// A session as text: cookie header, source, time stored.
pub struct SessionView {
    pub cookie_header: Seq<char>,
    pub source: Seq<char>,
    pub updated_at: Seq<char>,
}

impl View for MetadataSession {
    type V = SessionView;

    open spec fn view(&self) -> SessionView {
        SessionView { cookie_header: self.cookie_header@, source: self.source@, updated_at: self.updated_at@ }
    }
}

/// Where an import stands: waiting for a browser's profiles, a profile's
/// cookies, the probe of the site, or finished.
#[derive(Clone, Copy, Debug, PartialEq, Eq, Structural)]
pub enum ImportPhase {
    Profiles,
    Cookies,
    Probe,
    Finished,
}

/// An import in progress.
pub struct SessionImport {
    pub site_host: String,
    pub browsers: Vec<BrowserKind>,
    pub browser_index: usize,
    pub profiles: Vec<String>,
    pub profile_index: usize,
    pub attempts: Vec<String>,
    pub pending: Option<MetadataSession>,
    pub phase: ImportPhase,
}

/// An import as values.
pub struct ImportView {
    pub site_host: Seq<char>,
    pub browsers: Seq<BrowserKind>,
    pub browser_index: usize,
    pub profiles: Seq<Seq<char>>,
    pub profile_index: usize,
    pub attempts: Seq<Seq<char>>,
    pub pending: Option<SessionView>,
    pub phase: ImportPhase,
}

impl View for SessionImport {
    type V = ImportView;

    open spec fn view(&self) -> ImportView {
        ImportView {
            site_host: self.site_host@,
            browsers: self.browsers@,
            browser_index: self.browser_index,
            profiles: self.profiles.deep_view(),
            profile_index: self.profile_index,
            attempts: self.attempts.deep_view(),
            pending: match self.pending {
                Some(s) => Some(s@),
                None => None,
            },
            phase: self.phase,
        }
    }
}

/// What the caller is asked to do next.
pub enum ImportAction {
    /// List the profiles of the browser's user data (answer with
    /// `ImportEvent::Profiles`, in the order of `chromium_profiles`).
    ListProfiles(BrowserKind),
    /// Read the cookie header of the site from a profile (answer with
    /// `ImportEvent::Cookies`).
    ReadCookies { browser: BrowserKind, profile: String },
    /// Fetch the page with the cookie header (answer with `ImportEvent::Probed`).
    Probe { url: String, cookie_header: String },
    /// The import is over: the session, or why none was found.
    Finish(Result<MetadataSession, String>),
}

/// An action as values.
pub enum ImportActionView {
    ListProfiles(BrowserKind),
    ReadCookies(BrowserKind, Seq<char>),
    Probe(Seq<char>, Seq<char>),
    Finish(Result<SessionView, Seq<char>>),
}

impl View for ImportAction {
    type V = ImportActionView;

    open spec fn view(&self) -> ImportActionView {
        match self {
            ImportAction::ListProfiles(b) => ImportActionView::ListProfiles(*b),
            ImportAction::ReadCookies { browser, profile } => ImportActionView::ReadCookies(*browser, profile@),
            ImportAction::Probe { url, cookie_header } => ImportActionView::Probe(url@, cookie_header@),
            ImportAction::Finish(Ok(s)) => ImportActionView::Finish(Ok(s@)),
            ImportAction::Finish(Err(m)) => ImportActionView::Finish(Err(m@)),
        }
    }
}

/// What came of an action.
pub enum ImportEvent {
    /// The profiles found, or why the user data could not be read.
    Profiles(Result<Vec<String>, String>),
    /// The cookie header read (none when the profile has no cookie of the
    /// site) or why it could not be read, with the time at which it was read.
    Cookies { header: Result<Option<String>, String>, now: String },
    /// The probed page, or why the request failed.
    Probed(Result<String, String>),
}

/// An event as values.
pub enum ImportEventView {
    Profiles(Result<Seq<Seq<char>>, Seq<char>>),
    Cookies(Result<Option<Seq<char>>, Seq<char>>, Seq<char>),
    Probed(Result<Seq<char>, Seq<char>>),
}

impl View for ImportEvent {
    type V = ImportEventView;

    open spec fn view(&self) -> ImportEventView {
        match self {
            ImportEvent::Profiles(Ok(v)) => ImportEventView::Profiles(Ok(v.deep_view())),
            ImportEvent::Profiles(Err(m)) => ImportEventView::Profiles(Err(m@)),
            ImportEvent::Cookies { header, now } => ImportEventView::Cookies(
                match header {
                    Ok(h) => Ok(h.deep_view()),
                    Err(m) => Err(m@),
                },
                now@,
            ),
            ImportEvent::Probed(Ok(h)) => ImportEventView::Probed(Ok(h@)),
            ImportEvent::Probed(Err(m)) => ImportEventView::Probed(Err(m@)),
        }
    }
}

/// Whether an event answers the action an import in this phase asked for.
pub open spec fn import_event_fits(phase: ImportPhase, e: ImportEventView) -> bool {
    match phase {
        ImportPhase::Profiles => e is Profiles && (e matches ImportEventView::Profiles(Ok(names)) ==> names.len() <= usize::MAX),
        ImportPhase::Cookies => e is Cookies,
        ImportPhase::Probe => e is Probed,
        ImportPhase::Finished => false,
    }
}

/// The positions of an unfinished import point at a browser, and, past the
/// listing, at a profile; a probe has its session.
pub open spec fn import_wf(s: ImportView) -> bool {
    &&& s.phase != ImportPhase::Finished ==> s.browser_index < s.browsers.len()
    &&& (s.phase == ImportPhase::Cookies || s.phase == ImportPhase::Probe) ==> s.profile_index < s.profiles.len()
    &&& s.phase == ImportPhase::Probe ==> s.pending is Some
    &&& s.phase == ImportPhase::Profiles ==> s.profile_index == 0
    &&& s.browsers.len() <= usize::MAX
    &&& s.profiles.len() <= usize::MAX
}

/// Texts joined by `；`.
pub open spec fn join_attempts(items: Seq<Seq<char>>) -> Seq<char>
    decreases items.len(),
{
    if items.len() == 0 {
        Seq::empty()
    } else if items.len() == 1 {
        items[0]
    } else {
        join_attempts(items.drop_last()) + "；"@ + items.last()
    }
}

/// The error of an import that found no usable session, listing each attempt.
pub open spec fn import_failure(attempts: Seq<Seq<char>>) -> Seq<char> {
    "未找到可用的 JavBus 浏览器会话。"@ + join_attempts(attempts)
}

/// Where a session came from: browser and profile.
pub open spec fn source_text(b: BrowserKind, profile: Seq<char>) -> Seq<char> {
    browser_label(b) + " / "@ + profile
}

/// The page fetched to probe a session.
pub open spec fn probe_url_spec(site_host: Seq<char>) -> Seq<char> {
    search_url_spec(site_host, PROBE_CODE@)
}

/// How an import starts: the first requested browser's profiles are listed;
/// a request for an unknown browser ends it at once.
pub open spec fn import_start_spec(site_host: Seq<char>, browser: Option<&str>) -> (ImportView, ImportActionView) {
    match requested_browsers_spec(browser) {
        None => (
            ImportView {
                site_host,
                browsers: Seq::empty(),
                browser_index: 0,
                profiles: Seq::empty(),
                profile_index: 0,
                attempts: Seq::empty(),
                pending: None,
                phase: ImportPhase::Finished,
            },
            ImportActionView::Finish(Err("不支持的浏览器类型: "@ + browser_request(browser))),
        ),
        Some(kinds) => (
            ImportView {
                site_host,
                browsers: kinds,
                browser_index: 0,
                profiles: Seq::empty(),
                profile_index: 0,
                attempts: Seq::empty(),
                pending: None,
                phase: ImportPhase::Profiles,
            },
            ImportActionView::ListProfiles(kinds[0]),
        ),
    }
}

/// After a browser: the next one's profiles are listed, or the import fails.
pub open spec fn next_browser_spec(s: ImportView) -> (ImportView, ImportActionView) {
    if s.browser_index + 1 < s.browsers.len() {
        (
            ImportView {
                browser_index: (s.browser_index + 1) as usize,
                profiles: Seq::empty(),
                profile_index: 0,
                pending: None,
                phase: ImportPhase::Profiles,
                ..s
            },
            ImportActionView::ListProfiles(s.browsers[s.browser_index + 1]),
        )
    } else {
        (
            ImportView { pending: None, phase: ImportPhase::Finished, ..s },
            ImportActionView::Finish(Err(import_failure(s.attempts))),
        )
    }
}

/// After a profile: the next one's cookies are read, or the next browser
/// follows.
pub open spec fn next_profile_spec(s: ImportView) -> (ImportView, ImportActionView) {
    if s.profile_index + 1 < s.profiles.len() {
        (
            ImportView { profile_index: (s.profile_index + 1) as usize, pending: None, phase: ImportPhase::Cookies, ..s },
            ImportActionView::ReadCookies(s.browsers[s.browser_index as int], s.profiles[s.profile_index + 1]),
        )
    } else {
        next_browser_spec(s)
    }
}

/// One step of an import.
pub open spec fn import_step_spec(s: ImportView, e: ImportEventView) -> (ImportView, ImportActionView) {
    let browser = s.browsers[s.browser_index as int];
    let source = source_text(browser, s.profiles[s.profile_index as int]);
    match (s.phase, e) {
        (ImportPhase::Profiles, ImportEventView::Profiles(Err(m))) => (
            ImportView { phase: ImportPhase::Finished, ..s },
            ImportActionView::Finish(Err(m)),
        ),
        (ImportPhase::Profiles, ImportEventView::Profiles(Ok(names))) => if names.len() == 0 {
            next_browser_spec(
                ImportView { attempts: s.attempts.push(browser_label(browser) + ": 未找到可读取的配置目录"@), ..s },
            )
        } else {
            (
                ImportView { profiles: names, profile_index: 0, phase: ImportPhase::Cookies, ..s },
                ImportActionView::ReadCookies(browser, names[0]),
            )
        },
        (ImportPhase::Cookies, ImportEventView::Cookies(Ok(Some(header)), now)) => (
            ImportView {
                pending: Some(SessionView { cookie_header: header, source, updated_at: now }),
                phase: ImportPhase::Probe,
                ..s
            },
            ImportActionView::Probe(probe_url_spec(s.site_host), header),
        ),
        (ImportPhase::Cookies, ImportEventView::Cookies(Ok(None), _)) => next_profile_spec(
            ImportView { attempts: s.attempts.push(source + ": 未找到 JavBus cookie"@), ..s },
        ),
        (ImportPhase::Cookies, ImportEventView::Cookies(Err(m), _)) => next_profile_spec(
            ImportView { attempts: s.attempts.push(source + ": "@ + m), ..s },
        ),
        (ImportPhase::Probe, ImportEventView::Probed(Ok(html))) => if !is_age_wall_spec(html) {
            (
                ImportView { pending: None, phase: ImportPhase::Finished, ..s },
                ImportActionView::Finish(Ok(s.pending->Some_0)),
            )
        } else {
            next_profile_spec(
                ImportView { attempts: s.attempts.push(source + ": 已读取 cookie，但站点仍返回验证页"@), ..s },
            )
        },
        (ImportPhase::Probe, ImportEventView::Probed(Err(m))) => next_profile_spec(
            ImportView { attempts: s.attempts.push(source + ": "@ + m), ..s },
        ),
        _ => (s, ImportActionView::Finish(Err(Seq::empty()))),
    }
}

/// How far an import has come: by browser, then profile, then phase.
pub open spec fn import_later(a: ImportView, b: ImportView) -> bool {
    ||| a.phase == ImportPhase::Finished && b.phase != ImportPhase::Finished
    ||| a.browser_index > b.browser_index
    ||| a.browser_index == b.browser_index && a.profile_index > b.profile_index
    ||| a.browser_index == b.browser_index && a.profile_index == b.profile_index && import_phase_rank(a.phase) > import_phase_rank(
        b.phase,
    )
}

/// The order of the phases within one profile.
pub open spec fn import_phase_rank(p: ImportPhase) -> int {
    match p {
        ImportPhase::Profiles => 0,
        ImportPhase::Cookies => 1,
        ImportPhase::Probe => 2,
        ImportPhase::Finished => 3,
    }
}

/// An import always ends: each answered step keeps the positions valid and
/// moves to a later browser, profile or phase (there are at most two
/// browsers and finitely many profiles each); it asks to finish exactly when
/// it reaches the finished phase.
pub proof fn lemma_import_step_advances(s: ImportView, e: ImportEventView)
    requires
        import_wf(s),
        import_event_fits(s.phase, e),
    ensures
        import_wf(import_step_spec(s, e).0),
        import_later(import_step_spec(s, e).0, s),
        (import_step_spec(s, e).1 is Finish) <==> import_step_spec(s, e).0.phase == ImportPhase::Finished,
{
}

/// An import hands back a session only when the site answered its probe
/// with a page that is no age check, and the session is the one probed: the
/// cookie header read from the profile, with its source and time.
pub proof fn lemma_import_session_was_probed(s: ImportView, e: ImportEventView)
    requires
        import_wf(s),
        import_event_fits(s.phase, e),
        import_step_spec(s, e).1 is Finish,
        import_step_spec(s, e).1->Finish_0 is Ok,
    ensures
        s.phase == ImportPhase::Probe,
        e matches ImportEventView::Probed(Ok(html)) && !is_age_wall_spec(html),
        Some(import_step_spec(s, e).1->Finish_0->Ok_0) == s.pending,
{
}

fn copy_text(s: &String) -> (r: String)
    ensures
        r@ == s@,
{
    string_of(&chars_of(s.as_str()))
}

fn join_attempts_text(items: &Vec<String>) -> (r: Vec<char>)
    ensures
        r@ == join_attempts(items.deep_view()),
{
    let ghost iv = items.deep_view();
    let mut out: Vec<char> = Vec::new();
    let mut i: usize = 0;
    while i < items.len()
        invariant
            i <= items.len(),
            iv == items.deep_view(),
            out@ == join_attempts(iv.take(i as int)),
        decreases items.len() - i,
    {
        proof {
            reveal_strlit("；");
            let t = iv.take(i + 1);
            assert(t.drop_last() == iv.take(i as int));
            assert(t.last() == items[i as int]@);
            if i == 0 {
                assert(t.len() == 1 && t[0] == items[0]@);
            }
        }
        if i > 0 {
            extend_chars(&mut out, &chars_of("；"));
        }
        extend_chars(&mut out, &chars_of(items[i].as_str()));
        i += 1;
    }
    assert(iv.take(items.len() as int) == iv);
    out
}

fn source_of(browser: BrowserKind, profile: &String) -> (r: String)
    ensures
        r@ == source_text(browser, profile@),
{
    let mut out = chars_of(browser.label());
    extend_chars(&mut out, &chars_of(" / "));
    extend_chars(&mut out, &chars_of(profile.as_str()));
    proof {
        reveal_strlit(" / ");
    }
    string_of(&out)
}

fn with_suffix(head: &String, tail: &str) -> (r: String)
    ensures
        r@ == head@ + tail@,
{
    let mut out = chars_of(head.as_str());
    extend_chars(&mut out, &chars_of(tail));
    string_of(&out)
}

/// Starts importing the site's session from the requested browser (`auto`,
/// `edge` or `chrome`); the caller answers each action with
/// `SessionImport::step` until it is asked to finish.
pub fn start_session_import(site_host: &str, browser: Option<&str>) -> (r: (SessionImport, ImportAction))
    ensures
        (r.0@, r.1@) == import_start_spec(site_host@, browser),
        import_wf(r.0@),
{
    match requested_browser_kinds(browser) {
        Err(e) => {
            let message = e.message();
            proof {
                reveal_strlit("不支持的浏览器类型: ");
            }
            let state = SessionImport {
                site_host: string_of(&chars_of(site_host)),
                browsers: Vec::new(),
                browser_index: 0,
                profiles: Vec::new(),
                profile_index: 0,
                attempts: Vec::new(),
                pending: None,
                phase: ImportPhase::Finished,
            };
            proof {
                assert(state.profiles.deep_view() =~= Seq::<Seq<char>>::empty());
                assert(state.attempts.deep_view() =~= Seq::<Seq<char>>::empty());
                assert(state.browsers@ =~= Seq::<BrowserKind>::empty());
            }
            (state, ImportAction::Finish(Err(message)))
        },
        Ok(kinds) => {
            let first = kinds[0];
            let state = SessionImport {
                site_host: string_of(&chars_of(site_host)),
                browsers: kinds,
                browser_index: 0,
                profiles: Vec::new(),
                profile_index: 0,
                attempts: Vec::new(),
                pending: None,
                phase: ImportPhase::Profiles,
            };
            proof {
                assert(state.profiles.deep_view() =~= Seq::<Seq<char>>::empty());
                assert(state.attempts.deep_view() =~= Seq::<Seq<char>>::empty());
            }
            (state, ImportAction::ListProfiles(first))
        },
    }
}

impl SessionImport {
    fn push_attempt(&mut self, text: String)
        ensures
            final(self)@ == (ImportView { attempts: old(self)@.attempts.push(text@), ..old(self)@ }),
    {
        let ghost before = self.attempts.deep_view();
        self.attempts.push(text);
        assert(self.attempts.deep_view() =~= before.push(text@));
    }

    fn next_browser(&mut self) -> (action: ImportAction)
        requires
            old(self).browser_index < old(self).browsers.len(),
        ensures
            (final(self)@, action@) == next_browser_spec(old(self)@),
    {
        self.pending = None;
        if self.browser_index + 1 < self.browsers.len() {
            self.browser_index = self.browser_index + 1;
            self.profiles = Vec::new();
            self.profile_index = 0;
            self.phase = ImportPhase::Profiles;
            assert(self.profiles.deep_view() =~= Seq::<Seq<char>>::empty());
            ImportAction::ListProfiles(self.browsers[self.browser_index])
        } else {
            self.phase = ImportPhase::Finished;
            let mut message = chars_of("未找到可用的 JavBus 浏览器会话。");
            extend_chars(&mut message, &join_attempts_text(&self.attempts));
            ImportAction::Finish(Err(string_of(&message)))
        }
    }

    fn next_profile(&mut self) -> (action: ImportAction)
        requires
            old(self).browser_index < old(self).browsers.len(),
            old(self).profile_index < old(self).profiles.len(),
        ensures
            (final(self)@, action@) == next_profile_spec(old(self)@),
    {
        if self.profile_index + 1 < self.profiles.len() {
            self.profile_index = self.profile_index + 1;
            self.pending = None;
            self.phase = ImportPhase::Cookies;
            let profile = copy_text(&self.profiles[self.profile_index]);
            ImportAction::ReadCookies { browser: self.browsers[self.browser_index], profile }
        } else {
            self.next_browser()
        }
    }

    /// Whether an event answers the action this import asked for last.
    pub fn accepts(&self, event: &ImportEvent) -> (r: bool)
        ensures
            r == import_event_fits(self.phase, event@),
    {
        match (self.phase, event) {
            (ImportPhase::Profiles, ImportEvent::Profiles(result)) => {
                match result {
                    Ok(names) => assert(names.deep_view().len() == names.len()),
                    Err(_) => {},
                }
                true
            },
            (ImportPhase::Cookies, ImportEvent::Cookies { .. }) => true,
            (ImportPhase::Probe, ImportEvent::Probed(_)) => true,
            _ => false,
        }
    }

    /// Takes what came of the last action and says what to do next.
    pub fn step(&mut self, event: ImportEvent) -> (action: ImportAction)
        requires
            import_wf(old(self)@),
            import_event_fits(old(self).phase, event@),
        ensures
            (final(self)@, action@) == import_step_spec(old(self)@, event@),
            import_wf(final(self)@),
    {
        proof {
            lemma_import_step_advances(self@, event@);
        }
        let browser = self.browsers[self.browser_index];
        match (self.phase, event) {
            (ImportPhase::Profiles, ImportEvent::Profiles(Err(m))) => {
                self.phase = ImportPhase::Finished;
                ImportAction::Finish(Err(m))
            },
            (ImportPhase::Profiles, ImportEvent::Profiles(Ok(names))) => {
                if names.len() == 0 {
                    proof {
                        reveal_strlit(": 未找到可读取的配置目录");
                    }
                    let mut t = chars_of(browser.label());
                    extend_chars(&mut t, &chars_of(": 未找到可读取的配置目录"));
                    self.push_attempt(string_of(&t));
                    self.next_browser()
                } else {
                    let first = copy_text(&names[0]);
                    assert(names.deep_view()[0] == names[0]@);
                    self.profiles = names;
                    self.profile_index = 0;
                    self.phase = ImportPhase::Cookies;
                    ImportAction::ReadCookies { browser, profile: first }
                }
            },
            (ImportPhase::Cookies, ImportEvent::Cookies { header, now }) => {
                assert(self.profiles.deep_view()[self.profile_index as int] == self.profiles[self.profile_index as int]@);
                let source = source_of(browser, &self.profiles[self.profile_index]);
                match header {
                    Ok(Some(h)) => {
                        let url = build_metadata_search_url(self.site_host.as_str(), PROBE_CODE);
                        let cookie = copy_text(&h);
                        self.pending = Some(MetadataSession { cookie_header: h, source, updated_at: now });
                        self.phase = ImportPhase::Probe;
                        ImportAction::Probe { url, cookie_header: cookie }
                    },
                    Ok(None) => {
                        proof {
                            reveal_strlit(": 未找到 JavBus cookie");
                        }
                        self.push_attempt(with_suffix(&source, ": 未找到 JavBus cookie"));
                        self.next_profile()
                    },
                    Err(m) => {
                        proof {
                            reveal_strlit(": ");
                        }
                        let head = with_suffix(&source, ": ");
                        self.push_attempt(with_suffix(&head, m.as_str()));
                        self.next_profile()
                    },
                }
            },
            (ImportPhase::Probe, ImportEvent::Probed(result)) => {
                assert(self.profiles.deep_view()[self.profile_index as int] == self.profiles[self.profile_index as int]@);
                let source = source_of(browser, &self.profiles[self.profile_index]);
                match result {
                    Ok(html) => {
                        if !is_age_verification_page(html.as_str()) {
                            let session = self.pending.take();
                            self.phase = ImportPhase::Finished;
                            match session {
                                Some(sess) => ImportAction::Finish(Ok(sess)),
                                None => ImportAction::Finish(Err(String::new())),
                            }
                        } else {
                            proof {
                                reveal_strlit(": 已读取 cookie，但站点仍返回验证页");
                            }
                            self.push_attempt(with_suffix(&source, ": 已读取 cookie，但站点仍返回验证页"));
                            self.next_profile()
                        }
                    },
                    Err(m) => {
                        proof {
                            reveal_strlit(": ");
                        }
                        let head = with_suffix(&source, ": ");
                        self.push_attempt(with_suffix(&head, m.as_str()));
                        self.next_profile()
                    },
                }
            },
            _ => ImportAction::Finish(Err(String::new())),
        }
    }
}

// ---------------------------------------------------------------------------
// Stored sessions
// ---------------------------------------------------------------------------

/// The page fetched to probe a session with the site.
pub fn session_probe_url(site_host: &str) -> (r: String)
    ensures
        r@ == probe_url_spec(site_host@),
{
    build_metadata_search_url(site_host, PROBE_CODE)
}

/// A session from a pasted cookie header, stored at `now`: the header as
/// normalised, from the source `manual`; an error when it is blank.
pub fn manual_session(cookie_header: &str, now: &str) -> (r: Result<MetadataSession, SessionError>)
    ensures
        cookie_header_spec(cookie_header@).len() == 0 ==> r matches Err(SessionError::EmptyCookie),
        cookie_header_spec(cookie_header@).len() > 0 ==> (r matches Ok(s) && s@ == (SessionView {
            cookie_header: cookie_header_spec(cookie_header@),
            source: "manual"@,
            updated_at: now@,
        })),
{
    let normalized = normalize_cookie_header_value(cookie_header);
    if normalized.as_str().is_empty() {
        return Err(SessionError::EmptyCookie);
    }
    Ok(MetadataSession { cookie_header: normalized, source: String::from_str("manual"), updated_at: string_of(&chars_of(now)) })
}

/// The status stored for a session of the site, given its status and message.
pub open spec fn stored_status(site_host: Seq<char>, s: SessionView, status: Seq<char>, message: Seq<char>) -> SessionStatusView {
    SessionStatusView {
        site_host,
        has_cookie: true,
        source: Some(s.source),
        status,
        updated_at: Some(s.updated_at),
        message,
    }
}

fn stored_status_of(site_host: &str, session: &MetadataSession, status: &str, message: &str) -> (r: MetadataSessionStatus)
    ensures
        r@ == stored_status(site_host@, session@, status@, message@),
{
    MetadataSessionStatus {
        site_host: string_of(&chars_of(site_host)),
        has_cookie: true,
        source: Some(copy_text(&session.source)),
        status: string_of(&chars_of(status)),
        updated_at: Some(copy_text(&session.updated_at)),
        message: string_of(&chars_of(message)),
    }
}

/// The status of a pasted session after the probe of the site: `blocked`
/// when the site still answered with its age check, else `verified`.
pub fn manual_session_status(site_host: &str, session: &MetadataSession, probe_html: &str) -> (r: MetadataSessionStatus)
    ensures
        is_age_wall_spec(probe_html@) ==> r@ == stored_status(site_host@, session@, "blocked"@, "已保存 cookie，但站点仍返回年龄验证页"@),
        !is_age_wall_spec(probe_html@) ==> r@ == stored_status(site_host@, session@, "verified"@, "手动会话保存成功，可用于 JavBus 联网识别"@),
{
    if is_age_verification_page(probe_html) {
        stored_status_of(site_host, session, "blocked", "已保存 cookie，但站点仍返回年龄验证页")
    } else {
        stored_status_of(site_host, session, "verified", "手动会话保存成功，可用于 JavBus 联网识别")
    }
}

/// The status of a session imported from a browser (the import probed it).
pub fn imported_session_status(site_host: &str, session: &MetadataSession) -> (r: MetadataSessionStatus)
    ensures
        r@ == stored_status(site_host@, session@, "verified"@, "浏览器会话导入成功，可用于 JavBus 联网识别"@),
{
    stored_status_of(site_host, session, "verified", "浏览器会话导入成功，可用于 JavBus 联网识别")
}

/// The value of a stored cookie row: its plain value when it has one, else
/// its encrypted value decrypted with the browser's master key.
pub fn cookie_row_value(plain_value: &str, encrypted_value: &[u8], master_key: &[u8]) -> (r: Result<CookieDecryption, SessionError>)
    ensures
        plain_value@.len() > 0 ==> (r matches Ok(CookieDecryption::Text(t)) && t@ == plain_value@),
        plain_value@.len() == 0 ==> match cookie_decryption_spec(encrypted_value@, master_key@) {
            Ok(Some(text)) => r matches Ok(CookieDecryption::Text(t)) && t@ == text,
            Ok(None) => r matches Ok(CookieDecryption::NeedsDpapi),
            Err(e) => r matches Err(e2) && e2 == e,
        },
{
    if !plain_value.is_empty() {
        return Ok(CookieDecryption::Text(string_of(&chars_of(plain_value))));
    }
    decrypt_chromium_cookie_value(encrypted_value, master_key)
}

} // verus!
