//! Looking a code up on the metadata site: which pages are fetched in which
//! order, which actor folder the code is filed under, and what is recorded.
//! The lookup is a state machine; the caller performs each requested action
//! (a page fetch, an avatar download, reading the clock) and hands back what
//! came of it.
use vstd::prelude::*;

use crate::html::{
    actor_names_spec, detail_url_spec, extract_actor_avatar_url, extract_actor_names,
    extract_detail_url, extract_first_image_url, extract_searchstar_avatar_url, first_image,
    image_in, is_age_verification_page, is_age_wall_spec, merge_actor_names, merge_spec,
    IMAGE_PATTERN, SEARCHSTAR_IMAGE_PATTERN, STAR_IMAGE_PATTERN,
};
use crate::codes::{is_system_folder, is_system_folder_name};
use crate::fspath::{file_name_result, join_result, path_file_name, path_join, path_starts_with, starts_with_result};
use crate::library::{
    allow_missing_dir_spec, contains_match, copy_folder, ensure_existing_file_under_root,
    ensure_target_dir_under_root_allow_missing, first_named, is_reserved_actor_dir,
    library_error_message, match_actor_folder, match_actor_folder_by_contains,
    reserved_actor_dir_spec, DirectFolder, FolderView, LibraryError,
};
use crate::patterns::{captures_all_result, captures_result};
use crate::text::{
    chars_of, contains, eq_ignore_ascii_case, eq_ignore_case, extend_chars, starts_with, str_contains,
    str_eq, str_starts_with, string_of, trim_str, trim_ws,
};
use crate::url::{
    actor_search_url_spec, build_actor_search_url, build_metadata_search_url, build_metadata_type_one_search_url, search_url_spec,
    type_one_search_url_spec,
};

verus! {

broadcast use vstd::string::group_string_axioms;

/// The message of a lookup stopped by the site's age check.
pub const AGE_WALL_MESSAGE: &'static str = "JavBus 返回年龄验证页，请先在设置中导入浏览器会话，或打开验证页完成验证后再导入";

/// Why a lookup stopped.
#[derive(Clone, Copy, Debug, PartialEq, Eq, Structural)]
pub enum LookupError {
    /// The search page could not be fetched.
    SearchRequestFailed,
    /// The site answered with its age check.
    AgeVerification,
    /// The detail page could not be fetched.
    DetailRequestFailed,
}

/// The message shown for a lookup error.
pub open spec fn lookup_error_message(e: LookupError) -> Seq<char> {
    match e {
        LookupError::SearchRequestFailed => "搜索页请求失败"@,
        LookupError::AgeVerification => AGE_WALL_MESSAGE@,
        LookupError::DetailRequestFailed => "详情页请求失败"@,
    }
}

impl LookupError {
    /// The message shown for the error.
    pub fn message(&self) -> (r: String)
        ensures
            r@ == lookup_error_message(*self),
    {
        match self {
            LookupError::SearchRequestFailed => String::from_str("搜索页请求失败"),
            LookupError::AgeVerification => String::from_str(AGE_WALL_MESSAGE),
            LookupError::DetailRequestFailed => String::from_str("详情页请求失败"),
        }
    }
}

/// What a lookup of a code found, as stored.
pub struct ArchiveLookup {
    pub code: String,
    pub status: String,
    pub actor_name: Option<String>,
    pub actor_path: Option<String>,
    pub avatar_path: Option<String>,
    pub source_url: Option<String>,
    pub message: String,
    pub searched_at: String,
}

/// A lookup result as text.
pub struct LookupView {
    pub code: Seq<char>,
    pub status: Seq<char>,
    pub actor_name: Option<Seq<char>>,
    pub actor_path: Option<Seq<char>>,
    pub avatar_path: Option<Seq<char>>,
    pub source_url: Option<Seq<char>>,
    pub message: Seq<char>,
    pub searched_at: Seq<char>,
}

impl View for ArchiveLookup {
    type V = LookupView;

    open spec fn view(&self) -> LookupView {
        LookupView {
            code: self.code@,
            status: self.status@,
            actor_name: self.actor_name.deep_view(),
            actor_path: self.actor_path.deep_view(),
            avatar_path: self.avatar_path.deep_view(),
            source_url: self.source_url.deep_view(),
            message: self.message@,
            searched_at: self.searched_at@,
        }
    }
}

// ---------------------------------------------------------------------------
// Which folder a lookup files under
// ---------------------------------------------------------------------------

/// Of the names, in order, the first that names a folder exactly (ASCII case
/// ignored), as the folder's position.
pub open spec fn first_exact_over(actors: Seq<FolderView>, names: Seq<Seq<char>>, j: int) -> Option<int>
    decreases names.len() - j,
{
    if j < 0 || j >= names.len() {
        None
    } else {
        match first_named(actors, names[j], 0) {
            Some(i) => Some(i),
            None => first_exact_over(actors, names, j + 1),
        }
    }
}

/// Of the names, in order, the first that overlaps a folder name, as the
/// folder's position.
pub open spec fn first_overlap_over(actors: Seq<FolderView>, names: Seq<Seq<char>>, j: int) -> Option<int>
    decreases names.len() - j,
{
    if j < 0 || j >= names.len() {
        None
    } else {
        match contains_match(actors, names[j]) {
            Some(i) => Some(i),
            None => first_overlap_over(actors, names, j + 1),
        }
    }
}

/// The folder a lookup files under: an exact name match for any name first,
/// else a folder whose name overlaps one of the names.
pub open spec fn matched_actor_spec(actors: Seq<FolderView>, names: Seq<Seq<char>>) -> Option<FolderView> {
    match first_exact_over(actors, names, 0) {
        Some(i) => Some(actors[i]),
        None => match first_overlap_over(actors, names, 0) {
            Some(i) => Some(actors[i]),
            None => None,
        },
    }
}

/// The folder a lookup files under, for the actor names found.
pub fn find_actor_folder(actors: &Vec<DirectFolder>, names: &Vec<String>) -> (r: Option<DirectFolder>)
    ensures
        r.deep_view() == matched_actor_spec(actors.deep_view(), names.deep_view()),
{
    let ghost av = actors.deep_view();
    let ghost nv = names.deep_view();
    let mut j: usize = 0;
    while j < names.len()
        invariant
            j <= names.len(),
            av == actors.deep_view(),
            nv == names.deep_view(),
            first_exact_over(av, nv, 0) == first_exact_over(av, nv, j as int),
        decreases names.len() - j,
    {
        assert(nv[j as int] == names[j as int]@);
        if let Some(f) = match_actor_folder(actors, names[j].as_str()) {
            return Some(f);
        }
        j += 1;
    }
    let mut k: usize = 0;
    while k < names.len()
        invariant
            k <= names.len(),
            av == actors.deep_view(),
            nv == names.deep_view(),
            first_exact_over(av, nv, 0) is None,
            first_overlap_over(av, nv, 0) == first_overlap_over(av, nv, k as int),
        decreases names.len() - k,
    {
        assert(nv[k as int] == names[k as int]@);
        if let Some(f) = match_actor_folder_by_contains(actors, names[k].as_str()) {
            return Some(f);
        }
        k += 1;
    }
    None
}

// ---------------------------------------------------------------------------
// Messages
// ---------------------------------------------------------------------------

/// Names joined by ` / `.
pub open spec fn join_names(names: Seq<Seq<char>>) -> Seq<char>
    decreases names.len(),
{
    if names.len() == 0 {
        Seq::empty()
    } else if names.len() == 1 {
        names[0]
    } else {
        join_names(names.drop_last()) + " / "@ + names.last()
    }
}

fn join_names_text(names: &Vec<String>) -> (r: Vec<char>)
    ensures
        r@ == join_names(names.deep_view()),
{
    let ghost nv = names.deep_view();
    let mut out: Vec<char> = Vec::new();
    let mut i: usize = 0;
    while i < names.len()
        invariant
            i <= names.len(),
            nv == names.deep_view(),
            out@ == join_names(nv.take(i as int)),
        decreases names.len() - i,
    {
        proof {
            reveal_strlit(" / ");
            let t = nv.take(i + 1);
            assert(t.drop_last() == nv.take(i as int));
            assert(t.last() == names[i as int]@);
            if i == 0 {
                assert(t.len() == 1 && t[0] == names[0]@);
            }
        }
        if i > 0 {
            extend_chars(&mut out, &chars_of(" / "));
        }
        extend_chars(&mut out, &chars_of(names[i].as_str()));
        i += 1;
    }
    assert(nv.take(names.len() as int) == nv);
    out
}

/// What a finished lookup stores: the filed folder with its name and path,
/// or the first name found and no folder.
pub open spec fn lookup_result_spec(
    code: Seq<char>,
    names: Seq<Seq<char>>,
    matched: Option<FolderView>,
    avatar_path: Option<Seq<char>>,
    source_url: Seq<char>,
    searched_at: Seq<char>,
) -> LookupView {
    match matched {
        Some(actor) => LookupView {
            code,
            status: "searched"@,
            actor_name: Some(actor.name),
            actor_path: Some(actor.path),
            avatar_path,
            source_url: Some(source_url),
            message: if names.len() == 0 {
                "已联网搜索，但页面未解析出演员；按本地目录兜底匹配"@
            } else {
                "已搜索："@ + join_names(names)
            },
            searched_at,
        },
        None => LookupView {
            code,
            status: "searched"@,
            actor_name: if names.len() > 0 {
                Some(names[0])
            } else {
                None
            },
            actor_path: None,
            avatar_path: None,
            source_url: Some(source_url),
            message: if names.len() == 0 {
                "已搜索，但没有解析到演员或本地没有对应目录"@
            } else {
                "已搜索到演员："@ + join_names(names) + "；本地没有对应目录"@
            },
            searched_at,
        },
    }
}

/// The name stored for a lookup is the matched folder's name when a folder
/// matched, else the first actor name the pages gave, else none; the path is
/// the matched folder's, and an avatar is kept only with a matched folder.
pub proof fn lemma_lookup_result_actor(
    code: Seq<char>,
    names: Seq<Seq<char>>,
    matched: Option<FolderView>,
    avatar_path: Option<Seq<char>>,
    source_url: Seq<char>,
    searched_at: Seq<char>,
)
    ensures
        ({
            let r = lookup_result_spec(code, names, matched, avatar_path, source_url, searched_at);
            &&& r.code == code
            &&& r.status == "searched"@
            &&& r.source_url == Some(source_url)
            &&& r.searched_at == searched_at
            &&& matched matches Some(a) ==> r.actor_name == Some(a.name) && r.actor_path == Some(a.path)
                && r.avatar_path == avatar_path
            &&& matched is None ==> r.actor_path is None && r.avatar_path is None
            &&& matched is None && names.len() > 0 ==> r.actor_name == Some(names[0])
            &&& matched is None && names.len() == 0 ==> r.actor_name is None
        }),
{
}

fn clone_text(s: &String) -> (r: String)
    ensures
        r@ == s@,
{
    s.clone()
}

fn clone_opt_text(s: &Option<String>) -> (r: Option<String>)
    ensures
        r.deep_view() == s.deep_view(),
{
    match s {
        Some(t) => Some(t.clone()),
        None => None,
    }
}

/// The stored result of a finished lookup.
pub fn lookup_result(
    code: &str,
    names: &Vec<String>,
    matched: &Option<DirectFolder>,
    avatar_path: &Option<String>,
    source_url: &str,
    searched_at: &str,
) -> (r: ArchiveLookup)
    ensures
        r@ == lookup_result_spec(
            code@,
            names.deep_view(),
            matched.deep_view(),
            avatar_path.deep_view(),
            source_url@,
            searched_at@,
        ),
{
    proof {
        reveal_strlit("searched");
        reveal_strlit("已搜索：");
        reveal_strlit("已搜索到演员：");
        reveal_strlit("；本地没有对应目录");
    }
    let joined = join_names_text(names);
    match matched {
        Some(actor) => {
            let message = if names.len() == 0 {
                String::from_str("已联网搜索，但页面未解析出演员；按本地目录兜底匹配")
            } else {
                let mut m = chars_of("已搜索：");
                extend_chars(&mut m, &joined);
                string_of(&m)
            };
            ArchiveLookup {
                code: string_of(&chars_of(code)),
                status: String::from_str("searched"),
                actor_name: Some(clone_text(&actor.name)),
                actor_path: Some(clone_text(&actor.path)),
                avatar_path: clone_opt_text(avatar_path),
                source_url: Some(string_of(&chars_of(source_url))),
                message,
                searched_at: string_of(&chars_of(searched_at)),
            }
        },
        None => {
            let message = if names.len() == 0 {
                String::from_str("已搜索，但没有解析到演员或本地没有对应目录")
            } else {
                let mut m = chars_of("已搜索到演员：");
                extend_chars(&mut m, &joined);
                extend_chars(&mut m, &chars_of("；本地没有对应目录"));
                string_of(&m)
            };
            let actor_name = if names.len() > 0 {
                assert(names.deep_view()[0] == names[0]@);
                Some(clone_text(&names[0]))
            } else {
                None
            };
            ArchiveLookup {
                code: string_of(&chars_of(code)),
                status: String::from_str("searched"),
                actor_name,
                actor_path: None,
                avatar_path: None,
                source_url: Some(string_of(&chars_of(source_url))),
                message,
                searched_at: string_of(&chars_of(searched_at)),
            }
        },
    }
}

// ---------------------------------------------------------------------------
// The lookup as a state machine
// ---------------------------------------------------------------------------

/// Where a lookup stands: waiting for the search page, the second search
/// page, the detail page, the avatar download or the clock, or finished.
#[derive(Clone, Copy, Debug, PartialEq, Eq, Structural)]
pub enum LookupPhase {
    Search,
    Fallback,
    Detail,
    Avatar,
    Clock,
    Finished,
}

/// A lookup in progress.
pub struct MetadataLookup {
    pub site_url: String,
    pub code: String,
    pub actors: Vec<DirectFolder>,
    pub phase: LookupPhase,
    pub search_url: String,
    pub search_html: String,
    pub search_names: Vec<String>,
    pub source_url: String,
    pub detail_url: Option<String>,
    pub detail_html: String,
    pub actor_names: Vec<String>,
    pub matched: Option<DirectFolder>,
    pub avatar_path: Option<String>,
}

/// A lookup in progress, as text.
pub struct LookupStateView {
    pub site_url: Seq<char>,
    pub code: Seq<char>,
    pub actors: Seq<FolderView>,
    pub phase: LookupPhase,
    pub search_url: Seq<char>,
    pub search_html: Seq<char>,
    pub search_names: Seq<Seq<char>>,
    pub source_url: Seq<char>,
    pub detail_url: Option<Seq<char>>,
    pub detail_html: Seq<char>,
    pub actor_names: Seq<Seq<char>>,
    pub matched: Option<FolderView>,
    pub avatar_path: Option<Seq<char>>,
}

impl View for MetadataLookup {
    type V = LookupStateView;

    open spec fn view(&self) -> LookupStateView {
        LookupStateView {
            site_url: self.site_url@,
            code: self.code@,
            actors: self.actors.deep_view(),
            phase: self.phase,
            search_url: self.search_url@,
            search_html: self.search_html@,
            search_names: self.search_names.deep_view(),
            source_url: self.source_url@,
            detail_url: self.detail_url.deep_view(),
            detail_html: self.detail_html@,
            actor_names: self.actor_names.deep_view(),
            matched: self.matched.deep_view(),
            avatar_path: self.avatar_path.deep_view(),
        }
    }
}

/// What the caller is asked to do next.
pub enum LookupAction {
    /// Fetch a page; answer with `LookupEvent::Page`.
    Fetch(String),
    /// Download the actor's avatar for the actor folder, sending the referer;
    /// answer with `LookupEvent::AvatarSaved`.
    DownloadAvatar { url: String, actor_path: String, referer: String },
    /// Read the time; answer with `LookupEvent::Clock`.
    ReadClock,
    /// The lookup is over.
    Finish(Result<ArchiveLookup, LookupError>),
}

/// An action as text.
pub enum ActionView {
    Fetch(Seq<char>),
    DownloadAvatar(Seq<char>, Seq<char>, Seq<char>),
    ReadClock,
    Finish(Result<LookupView, LookupError>),
}

impl View for LookupAction {
    type V = ActionView;

    open spec fn view(&self) -> ActionView {
        match self {
            LookupAction::Fetch(url) => ActionView::Fetch(url@),
            LookupAction::DownloadAvatar { url, actor_path, referer } => ActionView::DownloadAvatar(
                url@,
                actor_path@,
                referer@,
            ),
            LookupAction::ReadClock => ActionView::ReadClock,
            LookupAction::Finish(Ok(lookup)) => ActionView::Finish(Ok(lookup@)),
            LookupAction::Finish(Err(e)) => ActionView::Finish(Err(*e)),
        }
    }
}

/// What came of an action.
pub enum LookupEvent {
    /// The page's text, or none when the request failed.
    Page(Option<String>),
    /// Where the avatar was saved, or none when the download failed.
    AvatarSaved(Option<String>),
    /// The time, as stored.
    Clock(String),
}

/// An event as text.
pub enum EventView {
    Page(Option<Seq<char>>),
    AvatarSaved(Option<Seq<char>>),
    Clock(Seq<char>),
}

impl View for LookupEvent {
    type V = EventView;

    open spec fn view(&self) -> EventView {
        match self {
            LookupEvent::Page(page) => EventView::Page(page.deep_view()),
            LookupEvent::AvatarSaved(path) => EventView::AvatarSaved(path.deep_view()),
            LookupEvent::Clock(now) => EventView::Clock(now@),
        }
    }
}

/// Whether an event answers the action a lookup in this phase asked for.
pub open spec fn event_fits(phase: LookupPhase, e: EventView) -> bool {
    match phase {
        LookupPhase::Search | LookupPhase::Fallback | LookupPhase::Detail => e is Page,
        LookupPhase::Avatar => e is AvatarSaved,
        LookupPhase::Clock => e is Clock,
        LookupPhase::Finished => false,
    }
}

/// The avatar shown for a lookup: a star link's image on the detail page,
/// else an actress picture on the search page, else the first image of the
/// detail page.
pub open spec fn avatar_url_spec(
    detail_html: Seq<char>,
    source_url: Seq<char>,
    search_html: Seq<char>,
    search_url: Seq<char>,
) -> Option<Seq<char>> {
    match image_in(captures_result(STAR_IMAGE_PATTERN@, detail_html), source_url) {
        Some(u) => Some(u),
        None => match image_in(captures_result(SEARCHSTAR_IMAGE_PATTERN@, search_html), search_url) {
            Some(u) => Some(u),
            None => first_image(captures_all_result(IMAGE_PATTERN@, detail_html), source_url),
        },
    }
}

/// How a lookup starts: it fetches the search page of the code.
pub open spec fn start_spec(site_url: Seq<char>, code: Seq<char>, actors: Seq<FolderView>) -> (LookupStateView, ActionView) {
    let search_url = search_url_spec(site_url, code);
    (
        LookupStateView {
            site_url,
            code,
            actors,
            phase: LookupPhase::Search,
            search_url,
            search_html: Seq::empty(),
            search_names: Seq::empty(),
            source_url: search_url,
            detail_url: None,
            detail_html: Seq::empty(),
            actor_names: Seq::empty(),
            matched: None,
            avatar_path: None,
        },
        ActionView::Fetch(search_url),
    )
}

/// Once the search names are settled: the names, matched folder, source
/// address and avatar are worked out from both pages, and the avatar is
/// downloaded when there is one and a folder was matched.
pub open spec fn resolve_spec(s: LookupStateView) -> (LookupStateView, ActionView) {
    let detail_names = actor_names_spec(s.detail_html);
    let names = if detail_names.len() > 0 {
        merge_spec(Seq::empty(), detail_names + s.search_names)
    } else {
        s.search_names
    };
    let matched = matched_actor_spec(s.actors, names);
    let source = match s.detail_url {
        Some(u) => u,
        None => s.source_url,
    };
    let avatar = avatar_url_spec(s.detail_html, source, s.search_html, s.search_url);
    let s2 = LookupStateView { actor_names: names, matched, source_url: source, ..s };
    match (avatar, matched) {
        (Some(u), Some(m)) => (LookupStateView { phase: LookupPhase::Avatar, ..s2 }, ActionView::DownloadAvatar(u, m.path, source)),
        _ => (LookupStateView { phase: LookupPhase::Clock, avatar_path: None, ..s2 }, ActionView::ReadClock),
    }
}

/// After the search pages: the detail page linked from the first search page
/// is fetched when there is one.
pub open spec fn detail_spec(s: LookupStateView) -> (LookupStateView, ActionView) {
    match detail_url_spec(s.search_html, s.search_url, s.code) {
        Some(u) => (LookupStateView { phase: LookupPhase::Detail, detail_url: Some(u), ..s }, ActionView::Fetch(u)),
        None => resolve_spec(LookupStateView { detail_url: None, detail_html: Seq::empty(), ..s }),
    }
}

/// One step of a lookup.
pub open spec fn step_spec(s: LookupStateView, e: EventView) -> (LookupStateView, ActionView) {
    match (s.phase, e) {
        (LookupPhase::Search, EventView::Page(None)) => (
            LookupStateView { phase: LookupPhase::Finished, ..s },
            ActionView::Finish(Err(LookupError::SearchRequestFailed)),
        ),
        (LookupPhase::Search, EventView::Page(Some(html))) => if is_age_wall_spec(html) {
            (LookupStateView { phase: LookupPhase::Finished, ..s }, ActionView::Finish(Err(LookupError::AgeVerification)))
        } else {
            let names = actor_names_spec(html);
            let s2 = LookupStateView { search_html: html, search_names: names, source_url: s.search_url, ..s };
            if names.len() == 0 {
                (
                    LookupStateView { phase: LookupPhase::Fallback, ..s2 },
                    ActionView::Fetch(type_one_search_url_spec(s.site_url, s.code)),
                )
            } else {
                detail_spec(s2)
            }
        },
        (LookupPhase::Fallback, EventView::Page(page)) => {
            let fallback_url = type_one_search_url_spec(s.site_url, s.code);
            let s2 = match page {
                Some(html) => if actor_names_spec(html).len() > 0 {
                    LookupStateView { search_names: actor_names_spec(html), source_url: fallback_url, ..s }
                } else {
                    s
                },
                None => s,
            };
            detail_spec(s2)
        },
        (LookupPhase::Detail, EventView::Page(None)) => (
            LookupStateView { phase: LookupPhase::Finished, ..s },
            ActionView::Finish(Err(LookupError::DetailRequestFailed)),
        ),
        (LookupPhase::Detail, EventView::Page(Some(html))) => resolve_spec(LookupStateView { detail_html: html, ..s }),
        (LookupPhase::Avatar, EventView::AvatarSaved(path)) => (
            LookupStateView { phase: LookupPhase::Clock, avatar_path: path, ..s },
            ActionView::ReadClock,
        ),
        (LookupPhase::Clock, EventView::Clock(now)) => (
            LookupStateView { phase: LookupPhase::Finished, ..s },
            ActionView::Finish(
                Ok(lookup_result_spec(s.code, s.actor_names, s.matched, s.avatar_path, s.source_url, now)),
            ),
        ),
        _ => (s, ActionView::ReadClock),
    }
}

/// How far a lookup has come.
pub open spec fn phase_rank(p: LookupPhase) -> int {
    match p {
        LookupPhase::Search => 0,
        LookupPhase::Fallback => 1,
        LookupPhase::Detail => 2,
        LookupPhase::Avatar => 3,
        LookupPhase::Clock => 4,
        LookupPhase::Finished => 5,
    }
}

/// A lookup always ends: every step that answers the pending action moves it
/// to a later phase, so it finishes after at most five steps, and it asks to
/// finish exactly when it reaches the finished phase.
pub proof fn lemma_lookup_step_advances(s: LookupStateView, e: EventView)
    requires
        event_fits(s.phase, e),
    ensures
        phase_rank(step_spec(s, e).0.phase) > phase_rank(s.phase),
        (step_spec(s, e).1 is Finish) <==> step_spec(s, e).0.phase == LookupPhase::Finished,
{
}

/// A lookup of a code that a folder name matches exactly is filed under
/// that folder whatever else the pages show: the matched folder is the first
/// folder named as the first name that names one.
pub proof fn lemma_exact_match_preferred(actors: Seq<FolderView>, names: Seq<Seq<char>>, i: int)
    requires
        first_exact_over(actors, names, 0) == Some(i),
    ensures
        matched_actor_spec(actors, names) == Some(actors[i]),
{
}

/// When a lookup finishes with a result, the stored actor is the folder it
/// matched, or, with no folder matched, the first actor name found on the
/// pages (none only when the pages named nobody).
pub proof fn lemma_finished_lookup_keeps_found_actor(s: LookupStateView, e: EventView)
    requires
        step_spec(s, e).1 matches ActionView::Finish(Ok(_)),
    ensures
        ({
            let v = step_spec(s, e).1->Finish_0->Ok_0;
            &&& v.code == s.code
            &&& v.actor_name == match s.matched {
                Some(a) => Some(a.name),
                None => if s.actor_names.len() > 0 { Some(s.actor_names[0]) } else { None },
            }
            &&& v.actor_path == match s.matched {
                Some(a) => Some(a.path),
                None => None,
            }
        }),
{
    match (s.phase, e) {
        (LookupPhase::Clock, EventView::Clock(now)) => {
            lemma_lookup_result_actor(s.code, s.actor_names, s.matched, s.avatar_path, s.source_url, now);
        },
        _ => {},
    }
}

fn clone_names(names: &Vec<String>) -> (r: Vec<String>)
    ensures
        r.deep_view() == names.deep_view(),
{
    let mut out: Vec<String> = Vec::new();
    let mut i: usize = 0;
    while i < names.len()
        invariant
            i <= names.len(),
            out.deep_view() == names.deep_view().take(i as int),
        decreases names.len() - i,
    {
        let ghost before = out.deep_view();
        out.push(names[i].clone());
        assert(out.deep_view() =~= before.push(names[i as int]@));
        assert(names.deep_view().take(i + 1) =~= names.deep_view().take(i as int).push(names[i as int]@));
        i += 1;
    }
    assert(names.deep_view().take(names.len() as int) =~= names.deep_view());
    out
}

/// Starts the lookup of a code on the metadata site, to be filed under one
/// of the actor folders: the first action fetches the search page. The
/// caller then hands what came of each action to `MetadataLookup::step`
/// until it is asked to finish.
pub fn lookup_javbus_metadata(site_url: &str, code: &str, actors: Vec<DirectFolder>) -> (r: (MetadataLookup, LookupAction))
    ensures
        (r.0@, r.1@) == start_spec(site_url@, code@, actors.deep_view()),
{
    let search_url = build_metadata_search_url(site_url, code);
    let state = MetadataLookup {
        site_url: string_of(&chars_of(site_url)),
        code: string_of(&chars_of(code)),
        actors,
        phase: LookupPhase::Search,
        search_url: clone_text(&search_url),
        search_html: String::new(),
        search_names: Vec::new(),
        source_url: clone_text(&search_url),
        detail_url: None,
        detail_html: String::new(),
        actor_names: Vec::new(),
        matched: None,
        avatar_path: None,
    };
    proof {
        assert(state.search_names.deep_view() =~= Seq::<Seq<char>>::empty());
        assert(state.actor_names.deep_view() =~= Seq::<Seq<char>>::empty());
    }
    (state, LookupAction::Fetch(search_url))
}

impl MetadataLookup {
    fn resolve(&mut self) -> (action: LookupAction)
        ensures
            (final(self)@, action@) == resolve_spec(old(self)@),
    {
        let detail_names = extract_actor_names(self.detail_html.as_str());
        let names = if detail_names.len() > 0 {
            let secondary = clone_names(&self.search_names);
            merge_actor_names(detail_names, secondary)
        } else {
            clone_names(&self.search_names)
        };
        let matched = find_actor_folder(&self.actors, &names);
        let source = match &self.detail_url {
            Some(u) => clone_text(u),
            None => clone_text(&self.source_url),
        };
        let avatar = match extract_actor_avatar_url(self.detail_html.as_str(), source.as_str()) {
            Some(u) => Some(u),
            None => match extract_searchstar_avatar_url(self.search_html.as_str(), self.search_url.as_str()) {
                Some(u) => Some(u),
                None => extract_first_image_url(self.detail_html.as_str(), source.as_str()),
            },
        };
        let action = match (avatar, &matched) {
            (Some(u), Some(m)) => {
                self.phase = LookupPhase::Avatar;
                LookupAction::DownloadAvatar { url: u, actor_path: clone_text(&m.path), referer: clone_text(&source) }
            },
            _ => {
                self.phase = LookupPhase::Clock;
                self.avatar_path = None;
                LookupAction::ReadClock
            },
        };
        self.actor_names = names;
        self.matched = matched;
        self.source_url = source;
        action
    }

    fn detail(&mut self) -> (action: LookupAction)
        ensures
            (final(self)@, action@) == detail_spec(old(self)@),
    {
        match extract_detail_url(self.search_html.as_str(), self.search_url.as_str(), self.code.as_str()) {
            Some(u) => {
                self.phase = LookupPhase::Detail;
                self.detail_url = Some(clone_text(&u));
                LookupAction::Fetch(u)
            },
            None => {
                self.detail_url = None;
                self.detail_html = String::new();
                self.resolve()
            },
        }
    }

    /// Whether an event answers the action this lookup asked for last.
    pub fn accepts(&self, event: &LookupEvent) -> (r: bool)
        ensures
            r == event_fits(self.phase, event@),
    {
        match (self.phase, event) {
            (LookupPhase::Search, LookupEvent::Page(_)) => true,
            (LookupPhase::Fallback, LookupEvent::Page(_)) => true,
            (LookupPhase::Detail, LookupEvent::Page(_)) => true,
            (LookupPhase::Avatar, LookupEvent::AvatarSaved(_)) => true,
            (LookupPhase::Clock, LookupEvent::Clock(_)) => true,
            _ => false,
        }
    }

    /// Takes what came of the last action and says what to do next.
    pub fn step(&mut self, event: LookupEvent) -> (action: LookupAction)
        requires
            event_fits(old(self).phase, event@),
        ensures
            (final(self)@, action@) == step_spec(old(self)@, event@),
    {
        match (self.phase, event) {
            (LookupPhase::Search, LookupEvent::Page(None)) => {
                self.phase = LookupPhase::Finished;
                LookupAction::Finish(Err(LookupError::SearchRequestFailed))
            },
            (LookupPhase::Search, LookupEvent::Page(Some(html))) => {
                if is_age_verification_page(html.as_str()) {
                    self.phase = LookupPhase::Finished;
                    return LookupAction::Finish(Err(LookupError::AgeVerification));
                }
                let names = extract_actor_names(html.as_str());
                let empty = names.len() == 0;
                self.search_html = html;
                self.search_names = names;
                self.source_url = clone_text(&self.search_url);
                if empty {
                    self.phase = LookupPhase::Fallback;
                    LookupAction::Fetch(build_metadata_type_one_search_url(self.site_url.as_str(), self.code.as_str()))
                } else {
                    self.detail()
                }
            },
            (LookupPhase::Fallback, LookupEvent::Page(page)) => {
                if let Some(html) = page {
                    let names = extract_actor_names(html.as_str());
                    if names.len() > 0 {
                        self.search_names = names;
                        self.source_url = build_metadata_type_one_search_url(self.site_url.as_str(), self.code.as_str());
                    }
                }
                self.detail()
            },
            (LookupPhase::Detail, LookupEvent::Page(None)) => {
                self.phase = LookupPhase::Finished;
                LookupAction::Finish(Err(LookupError::DetailRequestFailed))
            },
            (LookupPhase::Detail, LookupEvent::Page(Some(html))) => {
                self.detail_html = html;
                self.resolve()
            },
            (LookupPhase::Avatar, LookupEvent::AvatarSaved(path)) => {
                self.phase = LookupPhase::Clock;
                self.avatar_path = path;
                LookupAction::ReadClock
            },
            (LookupPhase::Clock, LookupEvent::Clock(now)) => {
                self.phase = LookupPhase::Finished;
                let lookup = lookup_result(
                    self.code.as_str(),
                    &self.actor_names,
                    &self.matched,
                    &self.avatar_path,
                    self.source_url.as_str(),
                    now.as_str(),
                );
                LookupAction::Finish(Ok(lookup))
            },
            _ => LookupAction::ReadClock,
        }
    }
}

// ---------------------------------------------------------------------------
// Searching a code
// ---------------------------------------------------------------------------

/// The site searched when none is configured.
pub const DEFAULT_SITE: &'static str = "www.javbus.com";

/// The configured site when it is not blank, else the default one.
pub open spec fn metadata_site_spec(site_url: Option<Seq<char>>) -> Seq<char> {
    match site_url {
        Some(s) => if trim_ws(s).len() > 0 {
            s
        } else {
            DEFAULT_SITE@
        },
        None => DEFAULT_SITE@,
    }
}

/// The site to search.
pub fn metadata_site(site_url: Option<&str>) -> (r: String)
    ensures
        r@ == metadata_site_spec(match site_url { Some(s) => Some(s@), None => None }),
{
    match site_url {
        Some(s) => if !trim_str(s).as_str().is_empty() {
            string_of(&chars_of(s))
        } else {
            String::from_str(DEFAULT_SITE)
        },
        None => String::from_str(DEFAULT_SITE),
    }
}

/// The folders that may be actor folders: the direct folders that are not
/// system folders, in order.
pub open spec fn actor_candidates_spec(folders: Seq<FolderView>) -> Seq<FolderView>
    decreases folders.len(),
{
    if folders.len() == 0 {
        Seq::empty()
    } else if is_system_folder_name(folders.last().name) {
        actor_candidates_spec(folders.drop_last())
    } else {
        actor_candidates_spec(folders.drop_last()).push(folders.last())
    }
}

/// The direct folders that may be actor folders.
pub fn actor_candidates(folders: &Vec<DirectFolder>) -> (r: Vec<DirectFolder>)
    ensures
        r.deep_view() == actor_candidates_spec(folders.deep_view()),
{
    let ghost fv = folders.deep_view();
    let mut out: Vec<DirectFolder> = Vec::new();
    let mut i: usize = 0;
    while i < folders.len()
        invariant
            i <= folders.len(),
            fv == folders.deep_view(),
            out.deep_view() == actor_candidates_spec(fv.take(i as int)),
        decreases folders.len() - i,
    {
        proof {
            let t = fv.take(i + 1);
            assert(t.drop_last() == fv.take(i as int));
            assert(t.last() == folders[i as int].deep_view());
        }
        if !is_system_folder(folders[i].name.as_str()) {
            let ghost before = out.deep_view();
            out.push(copy_folder(&folders[i]));
            assert(out.deep_view() =~= before.push(folders[i as int].deep_view()));
        }
        i += 1;
    }
    assert(fv.take(folders.len() as int) == fv);
    out
}

/// The position of the first folder named `fc2` (ASCII case ignored).
pub open spec fn fc2_folder(actors: Seq<FolderView>) -> Option<int> {
    first_named(actors, "fc2"@, 0)
}

/// Whether a code is an FC2 code, which is filed without searching.
pub open spec fn is_fc2_code(code: Seq<char>) -> bool {
    starts_with(code, "FC2PPV-"@)
}

/// Whether a code is an FC2 code.
pub fn is_fc2_lookup(code: &str) -> (r: bool)
    ensures
        r == is_fc2_code(code@),
{
    str_starts_with(code, "FC2PPV-")
}

/// The stored result for an FC2 code: filed under the `fc2` folder, the
/// existing one when there is one.
pub open spec fn fc2_lookup_spec(code: Seq<char>, actors: Seq<FolderView>, root: Seq<char>, now: Seq<char>) -> LookupView {
    LookupView {
        code,
        status: "searched"@,
        actor_name: Some("fc2"@),
        actor_path: Some(
            match fc2_folder(actors) {
                Some(i) => actors[i].path,
                None => join_result(root, "fc2"@),
            },
        ),
        avatar_path: None,
        source_url: None,
        message: "FC2 番号自动归档到 fc2 文件夹"@,
        searched_at: now,
    }
}

/// The stored result for an FC2 code.
pub fn fc2_lookup(code: &str, actors: &Vec<DirectFolder>, root: &str, now: &str) -> (r: ArchiveLookup)
    ensures
        r@ == fc2_lookup_spec(code@, actors.deep_view(), root@, now@),
{
    let actor_path = match match_actor_folder(actors, "fc2") {
        Some(folder) => folder.path,
        None => path_join(root, "fc2"),
    };
    ArchiveLookup {
        code: string_of(&chars_of(code)),
        status: String::from_str("searched"),
        actor_name: Some(String::from_str("fc2")),
        actor_path: Some(actor_path),
        avatar_path: None,
        source_url: None,
        message: String::from_str("FC2 番号自动归档到 fc2 文件夹"),
        searched_at: string_of(&chars_of(now)),
    }
}

/// The stored result when a lookup failed: no actor, the search page as
/// source, and the reason.
pub open spec fn failed_lookup_spec(site_url: Seq<char>, code: Seq<char>, error: LookupError, now: Seq<char>) -> LookupView {
    LookupView {
        code,
        status: "searched"@,
        actor_name: None,
        actor_path: None,
        avatar_path: None,
        source_url: Some(search_url_spec(site_url, code)),
        message: "联网搜索失败："@ + lookup_error_message(error),
        searched_at: now,
    }
}

/// The stored result when a lookup failed.
pub fn failed_lookup(site_url: &str, code: &str, error: LookupError, now: &str) -> (r: ArchiveLookup)
    ensures
        r@ == failed_lookup_spec(site_url@, code@, error, now@),
{
    let mut message = chars_of("联网搜索失败：");
    extend_chars(&mut message, &chars_of(error.message().as_str()));
    ArchiveLookup {
        code: string_of(&chars_of(code)),
        status: String::from_str("searched"),
        actor_name: None,
        actor_path: None,
        avatar_path: None,
        source_url: Some(build_metadata_search_url(site_url, code)),
        message: string_of(&message),
        searched_at: string_of(&chars_of(now)),
    }
}

/// Whether a lookup was stopped by the age check, which marks the stored
/// session as blocked.
pub fn is_blocked_lookup(message: &str) -> (r: bool)
    ensures
        r == contains(message@, "年龄验证页"@),
{
    str_contains(message, "年龄验证页")
}

/// What is remembered about an actor folder: its avatar and where it came
/// from.
pub struct ActorProfile {
    pub actor_name: String,
    pub actor_path: String,
    pub avatar_path: Option<String>,
    pub avatar_source: Option<String>,
    pub updated_at: String,
}

/// The actor profile a lookup that found a folder leaves behind.
pub fn profile_from_lookup(lookup: &ArchiveLookup) -> (r: Option<ActorProfile>)
    ensures
        (lookup.actor_name is Some && lookup.actor_path is Some) <==> r is Some,
        r matches Some(p) ==> {
            &&& p.actor_name@ == lookup.actor_name->Some_0@
            &&& p.actor_path@ == lookup.actor_path->Some_0@
            &&& p.avatar_path.deep_view() == lookup.avatar_path.deep_view()
            &&& p.avatar_source.deep_view() == lookup.source_url.deep_view()
            &&& p.updated_at@ == lookup.searched_at@
        },
{
    match (&lookup.actor_name, &lookup.actor_path) {
        (Some(name), Some(path)) => Some(
            ActorProfile {
                actor_name: clone_text(name),
                actor_path: clone_text(path),
                avatar_path: clone_opt_text(&lookup.avatar_path),
                avatar_source: clone_opt_text(&lookup.source_url),
                updated_at: clone_text(&lookup.searched_at),
            },
        ),
        _ => None,
    }
}

// ---------------------------------------------------------------------------
// Refreshing an actor's avatar
// ---------------------------------------------------------------------------

/// Why an avatar could not be refreshed.
#[derive(Clone, Copy, Debug, PartialEq, Eq, Structural)]
pub enum AvatarError {
    ReservedFolder,
    AgeVerification,
    NoImage,
}

/// The message shown for an avatar error.
pub open spec fn avatar_error_message(e: AvatarError) -> Seq<char> {
    match e {
        AvatarError::ReservedFolder => "系统目录不能作为演员目录"@,
        AvatarError::AgeVerification => AGE_WALL_MESSAGE@,
        AvatarError::NoImage => "没有解析到头像图片"@,
    }
}

impl AvatarError {
    /// The message shown for the error.
    pub fn message(&self) -> (r: String)
        ensures
            r@ == avatar_error_message(*self),
    {
        match self {
            AvatarError::ReservedFolder => String::from_str("系统目录不能作为演员目录"),
            AvatarError::AgeVerification => String::from_str(AGE_WALL_MESSAGE),
            AvatarError::NoImage => String::from_str("没有解析到头像图片"),
        }
    }
}

/// The page searched for an actor folder's avatar: refused for a reserved
/// folder, else the site's actress search for the folder's name.
pub fn avatar_search_url(root: &str, actor_dir: &str, site_url: &str) -> (r: Result<(String, String), AvatarError>)
    ensures
        reserved_actor_dir_spec(root@, actor_dir@) ==> r == Err::<(String, String), AvatarError>(AvatarError::ReservedFolder),
        !reserved_actor_dir_spec(root@, actor_dir@) ==> (r matches Ok((name, url)) && ({
            let actor = match file_name_result(actor_dir@) {
                Some(n) => n,
                None => Seq::empty(),
            };
            name@ == actor && url@ == actor_search_url_spec(site_url@, vstd::utf8::encode_utf8(name@))
        })),
{
    if is_reserved_actor_dir(root, actor_dir) {
        return Err(AvatarError::ReservedFolder);
    }
    let name = match path_file_name(actor_dir) {
        Some(n) => n,
        None => String::new(),
    };
    let url = build_actor_search_url(site_url, name.as_str());
    Ok((name, url))
}

/// The avatar on an actress search page: an actress picture, else a star
/// link's image, else the first image.
pub open spec fn actor_page_avatar_spec(html: Seq<char>, source_url: Seq<char>) -> Result<Seq<char>, AvatarError> {
    if is_age_wall_spec(html) {
        Err(AvatarError::AgeVerification)
    } else {
        match image_in(captures_result(SEARCHSTAR_IMAGE_PATTERN@, html), source_url) {
            Some(u) => Ok(u),
            None => match image_in(captures_result(STAR_IMAGE_PATTERN@, html), source_url) {
                Some(u) => Ok(u),
                None => match first_image(captures_all_result(IMAGE_PATTERN@, html), source_url) {
                    Some(u) => Ok(u),
                    None => Err(AvatarError::NoImage),
                },
            },
        }
    }
}

/// The avatar found on an actress search page.
pub fn avatar_url_from_actor_page(html: &str, source_url: &str) -> (r: Result<String, AvatarError>)
    ensures
        match actor_page_avatar_spec(html@, source_url@) {
            Ok(u) => r matches Ok(s) && s@ == u,
            Err(e) => r == Err::<String, AvatarError>(e),
        },
{
    if is_age_verification_page(html) {
        return Err(AvatarError::AgeVerification);
    }
    match extract_searchstar_avatar_url(html, source_url) {
        Some(u) => Ok(u),
        None => match extract_actor_avatar_url(html, source_url) {
            Some(u) => Ok(u),
            None => match extract_first_image_url(html, source_url) {
                Some(u) => Ok(u),
                None => Err(AvatarError::NoImage),
            },
        },
    }
}

// ---------------------------------------------------------------------------
// Filing a video under an actor
// ---------------------------------------------------------------------------

/// Why a video cannot be filed or deleted.
#[derive(Clone, Copy, Debug, PartialEq, Eq, Structural)]
pub enum ArchiveMoveError {
    /// The appreciation folder exists but does not canonicalize.
    AppreciationUnresolved,
    /// A path check failed.
    Path(LibraryError),
    SourceOutsideAppreciation,
    ReservedActorDir,
    SourceNameInvalid,
    DeleteOutsideAppreciation,
}

/// The message shown for the error.
pub open spec fn archive_move_error_message(e: ArchiveMoveError) -> Seq<char> {
    match e {
        ArchiveMoveError::AppreciationUnresolved => "无法解析欣赏区目录"@,
        ArchiveMoveError::Path(p) => library_error_message(p),
        ArchiveMoveError::SourceOutsideAppreciation => "源文件不在欣赏区内"@,
        ArchiveMoveError::ReservedActorDir => "目标演员目录不能是系统目录"@,
        ArchiveMoveError::SourceNameInvalid => "源文件名无效"@,
        ArchiveMoveError::DeleteOutsideAppreciation => "只能删除欣赏区内的视频"@,
    }
}

impl ArchiveMoveError {
    /// The message shown for the error.
    pub fn message(&self) -> (r: String)
        ensures
            r@ == archive_move_error_message(*self),
    {
        match self {
            ArchiveMoveError::AppreciationUnresolved => String::from_str("无法解析欣赏区目录"),
            ArchiveMoveError::Path(p) => p.message(),
            ArchiveMoveError::SourceOutsideAppreciation => String::from_str("源文件不在欣赏区内"),
            ArchiveMoveError::ReservedActorDir => String::from_str("目标演员目录不能是系统目录"),
            ArchiveMoveError::SourceNameInvalid => String::from_str("源文件名无效"),
            ArchiveMoveError::DeleteOutsideAppreciation => String::from_str("只能删除欣赏区内的视频"),
        }
    }
}

/// What the file system shows of the paths of an archive move: whether the
/// appreciation folder exists and what it canonicalizes to; what the video
/// path canonicalizes to and whether that is a file; and, for the actor
/// folder, the nearest existing folder on its path, what that canonicalizes
/// to, and whether the actor path exists and is a folder.
pub struct ArchiveFacts {
    pub appreciation_exists: bool,
    pub appreciation_canonical: Option<String>,
    pub source_canonical: Option<String>,
    pub source_is_file: bool,
    pub actor_existing: Option<String>,
    pub actor_canonical_existing: Option<String>,
    pub actor_exists: bool,
    pub actor_is_dir: bool,
}

/// The facts as values.
pub struct FactsView {
    pub appreciation_exists: bool,
    pub appreciation_canonical: Option<Seq<char>>,
    pub source_canonical: Option<Seq<char>>,
    pub source_is_file: bool,
    pub actor_existing: Option<Seq<char>>,
    pub actor_canonical_existing: Option<Seq<char>>,
    pub actor_exists: bool,
    pub actor_is_dir: bool,
}

impl View for ArchiveFacts {
    type V = FactsView;

    open spec fn view(&self) -> FactsView {
        FactsView {
            appreciation_exists: self.appreciation_exists,
            appreciation_canonical: self.appreciation_canonical.deep_view(),
            source_canonical: self.source_canonical.deep_view(),
            source_is_file: self.source_is_file,
            actor_existing: self.actor_existing.deep_view(),
            actor_canonical_existing: self.actor_canonical_existing.deep_view(),
            actor_exists: self.actor_exists,
            actor_is_dir: self.actor_is_dir,
        }
    }
}

/// The checked paths of an archive move: the canonical video file, the actor
/// folder (canonical where it exists) and the target in it.
pub struct ArchivePaths {
    pub source: String,
    pub actor_dir: String,
    pub target: String,
}

/// The source of an operation as `ensure_existing_file_under_root` checks it.
pub open spec fn existing_file_spec(root: Seq<char>, canonical: Option<Seq<char>>, is_file: bool) -> Result<Seq<char>, LibraryError> {
    match canonical {
        None => Err(LibraryError::SourceMissing),
        Some(c) => if !is_file {
            Err(LibraryError::SourceNotFile)
        } else if !starts_with_result(c, root) {
            Err(LibraryError::SourceOutsideLibrary)
        } else {
            Ok(c)
        },
    }
}

/// The appreciation folder a move compares against: canonical when it
/// exists, as configured otherwise; none when it exists but does not
/// canonicalize.
pub open spec fn appreciation_spec(appreciation_dir: Seq<char>, f: FactsView) -> Option<Seq<char>> {
    if f.appreciation_exists {
        f.appreciation_canonical
    } else {
        Some(appreciation_dir)
    }
}

/// The checks of an archive move, in order: the appreciation folder
/// resolves; the video is an existing file under the root and inside the
/// appreciation folder; the actor folder passes the allow-missing check and
/// is no reserved folder; the target is the video's name in the actor
/// folder. The result is (source, actor folder, target).
pub open spec fn archive_paths_spec(
    root: Seq<char>,
    appreciation_dir: Seq<char>,
    actor_path: Seq<char>,
    f: FactsView,
) -> Result<(Seq<char>, Seq<char>, Seq<char>), ArchiveMoveError> {
    match appreciation_spec(appreciation_dir, f) {
        None => Err(ArchiveMoveError::AppreciationUnresolved),
        Some(app) => match existing_file_spec(root, f.source_canonical, f.source_is_file) {
            Err(e) => Err(ArchiveMoveError::Path(e)),
            Ok(source) => if !starts_with_result(source, app) {
                Err(ArchiveMoveError::SourceOutsideAppreciation)
            } else {
                match allow_missing_dir_spec(
                    root,
                    actor_path,
                    f.actor_existing,
                    f.actor_canonical_existing,
                    f.actor_exists,
                    f.actor_is_dir,
                ) {
                    Err(e) => Err(ArchiveMoveError::Path(e)),
                    Ok(actor_dir) => if reserved_actor_dir_spec(root, actor_dir) {
                        Err(ArchiveMoveError::ReservedActorDir)
                    } else {
                        match file_name_result(source) {
                            Some(name) => Ok((source, actor_dir, join_result(actor_dir, name))),
                            None => Err(ArchiveMoveError::SourceNameInvalid),
                        }
                    },
                }
            },
        },
    }
}

/// Checks the paths of an archive move of a video into an actor folder,
/// given what the file system shows of them (`ArchiveFacts`).
pub fn resolve_archive_move(root: &str, appreciation_dir: &str, actor_path: &str, facts: ArchiveFacts) -> (r: Result<ArchivePaths, ArchiveMoveError>)
    ensures
        match archive_paths_spec(root@, appreciation_dir@, actor_path@, facts@) {
            Ok((s, d, t)) => r matches Ok(p) && p.source@ == s && p.actor_dir@ == d && p.target@ == t,
            Err(e) => r matches Err(e2) && e2 == e,
        },
{
    let ghost fv = facts@;
    let app = if facts.appreciation_exists {
        match facts.appreciation_canonical {
            Some(c) => c,
            None => return Err(ArchiveMoveError::AppreciationUnresolved),
        }
    } else {
        string_of(&chars_of(appreciation_dir))
    };
    let source = match ensure_existing_file_under_root(root, facts.source_canonical, facts.source_is_file) {
        Ok(s) => s,
        Err(e) => return Err(ArchiveMoveError::Path(e)),
    };
    if !path_starts_with(source.as_str(), app.as_str()) {
        return Err(ArchiveMoveError::SourceOutsideAppreciation);
    }
    let existing = match &facts.actor_existing {
        Some(e) => Some(e.as_str()),
        None => None,
    };
    let actor_dir = match ensure_target_dir_under_root_allow_missing(
        root,
        actor_path,
        existing,
        facts.actor_canonical_existing,
        facts.actor_exists,
        facts.actor_is_dir,
    ) {
        Ok(d) => d,
        Err(e) => return Err(ArchiveMoveError::Path(e)),
    };
    if is_reserved_actor_dir(root, actor_dir.as_str()) {
        return Err(ArchiveMoveError::ReservedActorDir);
    }
    match path_file_name(source.as_str()) {
        Some(name) => {
            let target = path_join(actor_dir.as_str(), name.as_str());
            Ok(ArchivePaths { source, actor_dir, target })
        },
        None => Err(ArchiveMoveError::SourceNameInvalid),
    }
}

/// A planned move of a video from the appreciation folder into an actor
/// folder.
pub struct ArchiveMovePreview {
    pub source_path: String,
    pub target_path: String,
    pub actor_name: String,
    pub status: String,
    pub message: String,
}

/// Whether a move would land on another, existing file.
pub open spec fn archive_conflict(source: Seq<char>, target: Seq<char>, target_exists: bool) -> bool {
    target_exists && !eq_ignore_case(source, target)
}

/// The preview of a checked archive move, given whether its target exists:
/// a conflict when the target is another existing file, else ready.
pub fn build_archive_move_preview(paths: &ArchivePaths, target_exists: bool) -> (r: ArchiveMovePreview)
    ensures
        ({
            let conflict = archive_conflict(paths.source@, paths.target@, target_exists);
            &&& r.source_path@ == paths.source@
            &&& r.target_path@ == paths.target@
            &&& r.actor_name@ == match file_name_result(paths.actor_dir@) {
                Some(n) => n,
                None => Seq::empty(),
            }
            &&& r.status@ == if conflict { "conflict"@ } else { "ready"@ }
            &&& r.message@ == if conflict {
                "演员目录已有同名文件："@ + match file_name_result(paths.target@) {
                    Some(n) => n,
                    None => "目标文件"@,
                } + "，不会覆盖"@
            } else {
                "确认后会从欣赏区移动到演员目录"@
            }
        }),
{
    let actor_name = match path_file_name(paths.actor_dir.as_str()) {
        Some(n) => n,
        None => String::new(),
    };
    let conflict = target_exists && !eq_ignore_ascii_case(paths.source.as_str(), paths.target.as_str());
    proof {
        reveal_strlit("演员目录已有同名文件：");
        reveal_strlit("，不会覆盖");
    }
    let (status, message) = if conflict {
        let name = match path_file_name(paths.target.as_str()) {
            Some(n) => n,
            None => String::from_str("目标文件"),
        };
        let mut m = chars_of("演员目录已有同名文件：");
        extend_chars(&mut m, &chars_of(name.as_str()));
        extend_chars(&mut m, &chars_of("，不会覆盖"));
        (String::from_str("conflict"), string_of(&m))
    } else {
        (String::from_str("ready"), String::from_str("确认后会从欣赏区移动到演员目录"))
    };
    ArchiveMovePreview {
        source_path: string_of(&chars_of(paths.source.as_str())),
        target_path: string_of(&chars_of(paths.target.as_str())),
        actor_name,
        status,
        message,
    }
}

/// A move that passes the checks and is shown as ready overwrites nothing:
/// its target does not exist or is the source itself (ASCII case aside);
/// the source is the canonical video, an existing file under the root inside
/// the (canonical) appreciation folder; the nearest existing folder of the
/// actor path lies under the root and the actor folder is no reserved folder;
/// and the target is the source's name in the actor folder.
pub proof fn lemma_archive_ready_overwrites_nothing(
    root: Seq<char>,
    appreciation_dir: Seq<char>,
    actor_path: Seq<char>,
    f: FactsView,
    target_exists: bool,
)
    requires
        archive_paths_spec(root, appreciation_dir, actor_path, f) is Ok,
        !archive_conflict(
            archive_paths_spec(root, appreciation_dir, actor_path, f)->Ok_0.0,
            archive_paths_spec(root, appreciation_dir, actor_path, f)->Ok_0.2,
            target_exists,
        ),
    ensures
        ({
            let (source, actor_dir, target) = archive_paths_spec(root, appreciation_dir, actor_path, f)->Ok_0;
            &&& !target_exists || eq_ignore_case(source, target)
            &&& f.source_is_file && f.source_canonical == Some(source)
            &&& starts_with_result(source, root)
            &&& starts_with_result(source, appreciation_spec(appreciation_dir, f)->Some_0)
            &&& starts_with_result(f.actor_canonical_existing->Some_0, root)
            &&& !reserved_actor_dir_spec(root, actor_dir)
            &&& target == join_result(actor_dir, file_name_result(source)->Some_0)
        }),
{
}

/// A planned move is carried out only when it is `ready`; otherwise its
/// message is the reason.
pub fn check_archive_move(preview: &ArchiveMovePreview) -> (r: Result<(), String>)
    ensures
        preview.status@ == "ready"@ ==> r is Ok,
        preview.status@ != "ready"@ ==> (r matches Err(m) && m@ == preview.message@),
{
    if str_eq(preview.status.as_str(), "ready") {
        Ok(())
    } else {
        Err(clone_text(&preview.message))
    }
}

/// Only videos inside the appreciation folder may be deleted.
pub fn check_archive_delete(source: &str, appreciation_dir: &str) -> (r: Result<(), ArchiveMoveError>)
    ensures
        starts_with_result(source@, appreciation_dir@) ==> r is Ok,
        !starts_with_result(source@, appreciation_dir@) ==> r == Err::<(), ArchiveMoveError>(ArchiveMoveError::DeleteOutsideAppreciation),
{
    if path_starts_with(source, appreciation_dir) {
        Ok(())
    } else {
        Err(ArchiveMoveError::DeleteOutsideAppreciation)
    }
}

} // verus!
