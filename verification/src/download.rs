//! The download folder: which finished downloads are moved into the
//! appreciation folder under which name, what blocks a move, and when the
//! emptied download folder is removed; also renames and moves of single files.
use vstd::prelude::*;

use crate::codes::{
    build_target_file_name, extension_of, extension_spec, file_stem_of, file_stem_spec,
    is_incomplete_ext, is_incomplete_extension, is_video_ext, is_video_extension,
    target_file_name_spec, ProcessingOptions,
};
use crate::fspath::{
    file_name_result, join_result, parent_result, path_eq, path_eq_result, path_file_name,
    path_join, path_parent, path_starts_with, path_strip_prefix, starts_with_result,
    strip_prefix_result,
};
use crate::library::{copy_file, status_rank, status_rank_spec, LibraryFile, DOWNLOAD_FOLDER};
use crate::order::{
    is_permutation, is_sorted_order, lemma_is_the_sorted_order, reorder, sorted_order,
    the_sorted_order, uniform_keys, KeyView, SortKey,
};
use crate::text::{
    ascii_lower, chars_of, eq_ignore_ascii_case, eq_ignore_case, extend_chars, str_eq, string_of,
    to_ascii_lowercase,
};

verus! {

broadcast use vstd::string::group_string_axioms;

/// A planned move of a download into the appreciation folder.
pub struct DownloadMovePlan {
    pub id: String,
    pub source_path: String,
    pub source_name: String,
    pub item_type: String,
    pub folder: String,
    pub folder_path: String,
    pub target_file_name: String,
    pub target_path: String,
    pub target_relative: String,
    pub file_count: usize,
    pub has_xltd: bool,
    pub status: String,
    pub reason: String,
    pub files: Vec<LibraryFile>,
}

/// A plan as text (it never lists files).
pub struct PlanView {
    pub id: Seq<char>,
    pub source_path: Seq<char>,
    pub source_name: Seq<char>,
    pub item_type: Seq<char>,
    pub folder: Seq<char>,
    pub folder_path: Seq<char>,
    pub target_file_name: Seq<char>,
    pub target_path: Seq<char>,
    pub target_relative: Seq<char>,
    pub file_count: usize,
    pub has_xltd: bool,
    pub status: Seq<char>,
    pub reason: Seq<char>,
    pub file_list_len: nat,
}

impl View for DownloadMovePlan {
    type V = PlanView;

    open spec fn view(&self) -> PlanView {
        PlanView {
            id: self.id@,
            source_path: self.source_path@,
            source_name: self.source_name@,
            item_type: self.item_type@,
            folder: self.folder@,
            folder_path: self.folder_path@,
            target_file_name: self.target_file_name@,
            target_path: self.target_path@,
            target_relative: self.target_relative@,
            file_count: self.file_count,
            has_xltd: self.has_xltd,
            status: self.status@,
            reason: self.reason@,
            file_list_len: self.files@.len(),
        }
    }
}

pub(crate) fn opt_or(v: Option<String>, fallback: &str) -> (r: String)
    ensures
        r@ == match v {
            Some(s) => s@,
            None => fallback@,
        },
{
    match v {
        Some(s) => s,
        None => string_of(&chars_of(fallback)),
    }
}

pub(crate) fn opt_or_empty(v: Option<String>) -> (r: String)
    ensures
        r@ == match v {
            Some(s) => s@,
            None => Seq::<char>::empty(),
        },
{
    match v {
        Some(s) => s,
        None => String::new(),
    }
}

/// The text of an optional value, or the fallback.
pub open spec fn or_text(v: Option<Seq<char>>, fallback: Seq<char>) -> Seq<char> {
    match v {
        Some(s) => s,
        None => fallback,
    }
}

/// A file's extension in ASCII lower case, empty when it has none.
#[verifier::opaque]
pub open spec fn lower_extension(path: Seq<char>) -> Seq<char> {
    ascii_lower(or_text(extension_spec(path), Seq::empty()))
}

pub fn lower_extension_of(path: &str) -> (r: String)
    ensures
        r@ == lower_extension(path@),
{
    let ext = opt_or_empty(extension_of(path));
    let r = to_ascii_lowercase(ext.as_str());
    proof {
        reveal(lower_extension);
    }
    r
}

// ---------------------------------------------------------------------------
// Plans
// ---------------------------------------------------------------------------

/// The name a download gets in the appreciation folder.
pub open spec fn plan_target_name(source: Seq<char>, options: ProcessingOptions) -> Seq<char> {
    target_file_name_spec(or_text(file_name_result(source), Seq::empty()), options)
}

/// Where a download goes: its target name in the appreciation folder.
pub open spec fn plan_target_path(appreciation_dir: Seq<char>, source: Seq<char>, options: ProcessingOptions) -> Seq<char> {
    join_result(appreciation_dir, plan_target_name(source, options))
}

/// Where a download goes in the appreciation folder; the caller checks
/// whether a file is there before planning.
pub fn download_target_path(appreciation_dir: &str, source_file: &str, options: &ProcessingOptions) -> (r: String)
    ensures
        r@ == plan_target_path(appreciation_dir@, source_file@, *options),
{
    let name = opt_or_empty(path_file_name(source_file));
    let target_name = build_target_file_name(name.as_str(), options);
    path_join(appreciation_dir, target_name.as_str())
}

/// The status and reason of a plan: skipped when moving is off or the
/// download is unfinished, skipped or in conflict when the target exists,
/// otherwise ready.
pub open spec fn plan_status_spec(
    options: ProcessingOptions,
    extension: Seq<char>,
    has_incomplete: bool,
    target_exists: bool,
) -> (Seq<char>, Seq<char>) {
    if !options.move_to_appreciation {
        ("skipped"@, "已关闭“移动到欣赏区”"@)
    } else if is_incomplete_ext(ascii_lower(extension)) || has_incomplete {
        ("skipped"@, "检测到未完成下载文件"@)
    } else if target_exists && options.skip_if_exists {
        ("skipped"@, "欣赏区目标已存在"@)
    } else if target_exists {
        ("conflict"@, "欣赏区目标已存在，不会覆盖"@)
    } else {
        ("ready"@, "可执行"@)
    }
}

/// The plan for one downloaded file, or none when it is no video.
pub open spec fn download_plan_spec(
    download_dir: Seq<char>,
    appreciation_dir: Seq<char>,
    source: Seq<char>,
    item_type: Seq<char>,
    has_incomplete: bool,
    file_count: usize,
    options: ProcessingOptions,
    target_exists: bool,
) -> Option<PlanView> {
    let extension = lower_extension(source);
    if !is_video_ext(extension) {
        None
    } else {
        let target_name = plan_target_name(source, options);
        let (status, reason) = plan_status_spec(options, extension, has_incomplete, target_exists);
        Some(PlanView {
            id: source,
            source_path: source,
            source_name: or_text(strip_prefix_result(source, download_dir), source),
            item_type,
            folder: plan_folder_spec(source, download_dir).0,
            folder_path: plan_folder_spec(source, download_dir).1,
            target_file_name: target_name,
            target_path: join_result(appreciation_dir, target_name),
            target_relative: target_relative_spec(appreciation_dir, target_name),
            file_count,
            has_xltd: has_incomplete,
            status,
            reason,
            file_list_len: 0,
        })
    }
}

/// Where a target is shown: `<appreciation folder name>\\<name>`.
pub open spec fn target_relative_spec(appreciation_dir: Seq<char>, target_name: Seq<char>) -> Seq<char> {
    match file_name_result(appreciation_dir) {
        Some(folder) => folder + "\\"@ + target_name,
        None => target_name,
    }
}

fn plan_target_relative(appreciation_dir: &str, target_name: &str) -> (r: String)
    ensures
        r@ == target_relative_spec(appreciation_dir@, target_name@),
{
    match path_file_name(appreciation_dir) {
        Some(folder) => {
            let mut t = chars_of(folder.as_str());
            t.push('\\');
            extend_chars(&mut t, &chars_of(target_name));
            proof {
                reveal_strlit("\\");
            }
            string_of(&t)
        },
        None => string_of(&chars_of(target_name)),
    }
}

/// The folder a download came from, as name and path: its parent, else the
/// download folder.
pub open spec fn plan_folder_spec(source: Seq<char>, download_dir: Seq<char>) -> (Seq<char>, Seq<char>) {
    let fallback_folder = or_text(file_name_result(download_dir), DOWNLOAD_FOLDER@);
    (
        match parent_result(source) {
            Some(parent) => or_text(file_name_result(parent), fallback_folder),
            None => fallback_folder,
        },
        or_text(parent_result(source), download_dir),
    )
}

fn plan_folder(source: &str, download_dir: &str) -> (r: (String, String))
    ensures
        (r.0@, r.1@) == plan_folder_spec(source@, download_dir@),
{
    let fallback_folder = opt_or(path_file_name(download_dir), DOWNLOAD_FOLDER);
    let parent = path_parent(source);
    let folder = match &parent {
        Some(p) => match path_file_name(p.as_str()) {
            Some(n) => n,
            None => fallback_folder,
        },
        None => fallback_folder,
    };
    (folder, opt_or(parent, download_dir))
}

/// A download is planned as ready only when moving is on, nothing in it is
/// unfinished and its target does not exist; a plan is never ready and
/// skipped at once.
pub proof fn lemma_ready_plan_is_safe(
    options: ProcessingOptions,
    extension: Seq<char>,
    has_incomplete: bool,
    target_exists: bool,
)
    ensures
        plan_status_spec(options, extension, has_incomplete, target_exists).0 == "ready"@ <==> (
            options.move_to_appreciation && !is_incomplete_ext(ascii_lower(extension)) && !has_incomplete
                && !target_exists
        ),
{
    reveal_strlit("ready");
    reveal_strlit("skipped");
    reveal_strlit("conflict");
    assert("ready"@[0] != "skipped"@[0]);
    assert("ready"@[0] != "conflict"@[0]);
}

fn plan_status(options: &ProcessingOptions, extension: &str, has_incomplete: bool, target_exists: bool) -> (r: (String, String))
    ensures
        (r.0@, r.1@) == plan_status_spec(*options, extension@, has_incomplete, target_exists),
{
    let (status, reason) = if !options.move_to_appreciation {
        ("skipped", "已关闭“移动到欣赏区”")
    } else if is_incomplete_extension(extension) || has_incomplete {
        ("skipped", "检测到未完成下载文件")
    } else if target_exists && options.skip_if_exists {
        ("skipped", "欣赏区目标已存在")
    } else if target_exists {
        ("conflict", "欣赏区目标已存在，不会覆盖")
    } else {
        ("ready", "可执行")
    };
    (String::from_str(status), String::from_str(reason))
}

/// The plan for one downloaded file, given whether its target in the
/// appreciation folder (`download_target_path`) exists; none when it is no
/// video.
pub fn build_download_plan_for_file(
    download_dir: &str,
    appreciation_dir: &str,
    source_file: &str,
    item_type: &str,
    has_incomplete: bool,
    file_count: usize,
    options: &ProcessingOptions,
    target_exists: bool,
) -> (r: Option<DownloadMovePlan>)
    ensures
        match download_plan_spec(
            download_dir@,
            appreciation_dir@,
            source_file@,
            item_type@,
            has_incomplete,
            file_count,
            *options,
            target_exists,
        ) {
            None => r is None,
            Some(p) => r matches Some(plan) && plan@ == p,
        },
{
    let extension = lower_extension_of(source_file);
    if !is_video_extension(extension.as_str()) {
        return None;
    }
    let source_name = opt_or(path_strip_prefix(source_file, download_dir), source_file);
    let name = opt_or_empty(path_file_name(source_file));
    let target_file_name = build_target_file_name(name.as_str(), options);
    let target_path = path_join(appreciation_dir, target_file_name.as_str());
    let target_relative = plan_target_relative(appreciation_dir, target_file_name.as_str());
    let (folder, folder_path) = plan_folder(source_file, download_dir);
    let (status, reason) = plan_status(options, extension.as_str(), has_incomplete, target_exists);
    Some(
        DownloadMovePlan {
            id: string_of(&chars_of(source_file)),
            source_path: string_of(&chars_of(source_file)),
            source_name,
            item_type: string_of(&chars_of(item_type)),
            folder,
            folder_path,
            target_file_name,
            target_path,
            target_relative,
            file_count,
            has_xltd: has_incomplete,
            status,
            reason,
            files: Vec::new(),
        },
    )
}

/// The plan for a downloaded folder with no finished video: skipped, with
/// the reason.
pub open spec fn skipped_folder_plan_spec(folder: Seq<char>, has_incomplete: bool, item_type: Seq<char>) -> PlanView {
    let name = or_text(file_name_result(folder), Seq::empty());
    PlanView {
        id: folder,
        source_path: folder,
        source_name: name,
        item_type,
        folder: name,
        folder_path: folder,
        target_file_name: Seq::empty(),
        target_path: Seq::empty(),
        target_relative: "跳过"@,
        file_count: 0,
        has_xltd: has_incomplete,
        status: "skipped"@,
        reason: if has_incomplete {
            "检测到未完成下载文件"@
        } else {
            "未找到完成的视频文件"@
        },
        file_list_len: 0,
    }
}

/// The plan for a downloaded folder with no finished video.
pub fn build_skipped_download_folder_plan(folder: &str, has_incomplete: bool, item_type: &str) -> (r: DownloadMovePlan)
    ensures
        r@ == skipped_folder_plan_spec(folder@, has_incomplete, item_type@),
{
    let name = opt_or_empty(path_file_name(folder));
    DownloadMovePlan {
        id: string_of(&chars_of(folder)),
        source_path: string_of(&chars_of(folder)),
        source_name: string_of(&chars_of(name.as_str())),
        item_type: string_of(&chars_of(item_type)),
        folder: name,
        folder_path: string_of(&chars_of(folder)),
        target_file_name: String::new(),
        target_path: String::new(),
        target_relative: String::from_str("跳过"),
        file_count: 0,
        has_xltd: has_incomplete,
        status: String::from_str("skipped"),
        reason: if has_incomplete {
            String::from_str("检测到未完成下载文件")
        } else {
            String::from_str("未找到完成的视频文件")
        },
        files: Vec::new(),
    }
}

/// The plans as values.
pub open spec fn plan_views(plans: Seq<DownloadMovePlan>) -> Seq<PlanView> {
    plans.map_values(|p: DownloadMovePlan| p@)
}

/// Sort keys of plans: status first (ready, conflict, skipped), then the
/// source name, descending.
pub open spec fn plan_keys(plans: Seq<PlanView>) -> Seq<KeyView> {
    plans.map_values(
        |p: PlanView| KeyView { first: status_rank_spec(p.status) as i64, second: 0, text: p.source_name, text2: Seq::empty(), text_desc: true },
    )
}

fn copy_plan(p: &DownloadMovePlan) -> (r: DownloadMovePlan)
    ensures
        r@ == p@,
        r.files.deep_view() == p.files.deep_view(),
{
    let mut files: Vec<LibraryFile> = Vec::new();
    let mut i: usize = 0;
    while i < p.files.len()
        invariant
            i <= p.files.len(),
            files.deep_view() == p.files.deep_view().take(i as int),
        decreases p.files.len() - i,
    {
        let ghost before = files.deep_view();
        files.push(copy_file(&p.files[i]));
        assert(files.deep_view() =~= before.push(p.files[i as int].deep_view()));
        assert(p.files.deep_view().take(i + 1) =~= p.files.deep_view().take(i as int).push(p.files[i as int].deep_view()));
        i += 1;
    }
    assert(p.files.deep_view().take(p.files.len() as int) =~= p.files.deep_view());
    DownloadMovePlan {
        id: string_of(&chars_of(p.id.as_str())),
        source_path: string_of(&chars_of(p.source_path.as_str())),
        source_name: string_of(&chars_of(p.source_name.as_str())),
        item_type: string_of(&chars_of(p.item_type.as_str())),
        folder: string_of(&chars_of(p.folder.as_str())),
        folder_path: string_of(&chars_of(p.folder_path.as_str())),
        target_file_name: string_of(&chars_of(p.target_file_name.as_str())),
        target_path: string_of(&chars_of(p.target_path.as_str())),
        target_relative: string_of(&chars_of(p.target_relative.as_str())),
        file_count: p.file_count,
        has_xltd: p.has_xltd,
        status: string_of(&chars_of(p.status.as_str())),
        reason: string_of(&chars_of(p.reason.as_str())),
        files,
    }
}

/// The plans in the order they are shown: ready first, then conflicts, then
/// skipped ones; within a status by source name, descending (ties keep
/// their order).
pub fn sort_download_plans(plans: &Vec<DownloadMovePlan>) -> (r: Vec<DownloadMovePlan>)
    ensures
        plan_views(r@) == reorder(plan_views(plans@), the_sorted_order(plan_keys(plan_views(plans@)))),
        r.len() == plans.len(),
{
    let ghost pv = plan_views(plans@);
    let mut keys: Vec<SortKey> = Vec::new();
    let mut i: usize = 0;
    while i < plans.len()
        invariant
            i <= plans.len(),
            pv == plan_views(plans@),
            keys.deep_view() == plan_keys(pv.take(i as int)),
            forall|a: int| 0 <= a < keys.len() ==> (#[trigger] keys.deep_view()[a]).text_desc,
        decreases plans.len() - i,
    {
        let ghost before = keys.deep_view();
        let rank = status_rank(plans[i].status.as_str());
        keys.push(SortKey { first: rank as i64, second: 0, text: chars_of(plans[i].source_name.as_str()), text2: Vec::new(), text_desc: true });
        proof {
            assert(pv[i as int] == plans@[i as int]@);
            assert(pv.take(i + 1) =~= pv.take(i as int).push(pv[i as int]));
            assert(keys.deep_view() =~= before.push(plan_keys(pv.take(i + 1))[i as int]));
            assert(plan_keys(pv.take(i + 1)) =~= plan_keys(pv.take(i as int)).push(plan_keys(pv.take(i + 1))[i as int]));
        }
        i += 1;
    }
    assert(pv.take(plans.len() as int) =~= pv);
    assert(uniform_keys(keys.deep_view()));
    let order = sorted_order(&keys);
    let mut out: Vec<DownloadMovePlan> = Vec::new();
    let mut k: usize = 0;
    while k < order.len()
        invariant
            k <= order.len(),
            is_permutation(order@, plans.len() as nat),
            pv == plan_views(plans@),
            pv.len() == plans.len(),
            out.len() == k,
            plan_views(out@) == reorder(pv, order@.take(k as int)),
        decreases order.len() - k,
    {
        let ghost before = out@;
        out.push(copy_plan(&plans[order[k]]));
        proof {
            assert(out@ =~= before.push(out@[k as int]));
            assert(plan_views(out@) =~= plan_views(before).push(pv[order@[k as int] as int]));
            assert(reorder(pv, order@.take(k + 1)) =~= reorder(pv, order@.take(k as int)).push(pv[order@[k as int] as int]));
        }
        k += 1;
    }
    proof {
        assert(order@.take(order.len() as int) =~= order@);
        assert(keys.deep_view().len() == keys.len());
        assert(is_sorted_order(plan_keys(pv), order@));
        lemma_is_the_sorted_order(plan_keys(pv), order@);
    }
    out
}

/// The videos among the files of a downloaded folder, in order.
pub open spec fn folder_videos(paths: Seq<Seq<char>>) -> Seq<Seq<char>>
    decreases paths.len(),
{
    if paths.len() == 0 {
        Seq::empty()
    } else if is_video_ext(lower_extension(paths.last())) {
        folder_videos(paths.drop_last()).push(paths.last())
    } else {
        folder_videos(paths.drop_last())
    }
}

/// Whether any file of a downloaded folder is unfinished.
pub open spec fn folder_has_incomplete(paths: Seq<Seq<char>>) -> bool {
    exists|i: int| 0 <= i < paths.len() && is_incomplete_ext(ascii_lower(lower_extension(#[trigger] paths[i])))
}

/// Of the files found in a downloaded folder, whether any is unfinished and
/// which are videos.
pub fn scan_download_folder(paths: &Vec<String>) -> (r: (bool, Vec<String>))
    ensures
        r.0 == folder_has_incomplete(paths.deep_view()),
        r.1.deep_view() == folder_videos(paths.deep_view()),
{
    let ghost pv = paths.deep_view();
    let mut has_incomplete = false;
    let mut videos: Vec<String> = Vec::new();
    let mut i: usize = 0;
    while i < paths.len()
        invariant
            i <= paths.len(),
            pv == paths.deep_view(),
            has_incomplete == exists|k: int| 0 <= k < i && is_incomplete_ext(ascii_lower(lower_extension(#[trigger] pv[k]))),
            videos.deep_view() == folder_videos(pv.take(i as int)),
        decreases paths.len() - i,
    {
        proof {
            let t = pv.take(i + 1);
            assert(t.drop_last() == pv.take(i as int));
            assert(t.last() == paths[i as int]@);
        }
        let extension = lower_extension_of(paths[i].as_str());
        if is_incomplete_extension(extension.as_str()) {
            has_incomplete = true;
        }
        if is_video_extension(extension.as_str()) {
            let ghost before = videos.deep_view();
            videos.push(string_of(&chars_of(paths[i].as_str())));
            assert(videos.deep_view() =~= before.push(paths[i as int]@));
        }
        i += 1;
    }
    assert(pv.take(paths.len() as int) == pv);
    (has_incomplete, videos)
}

// ---------------------------------------------------------------------------
// Carrying out a move
// ---------------------------------------------------------------------------

/// Why a file operation was refused.
#[derive(Clone, Copy, Debug, PartialEq, Eq, Structural)]
pub enum MoveError {
    MoveDisabled,
    SourceOutsideDownloads,
    TargetOutsideAppreciation,
    TargetExistsSkipped,
    TargetExists,
    CleanupOutsideDownloads,
    RenameAcrossFolders,
    NotReady,
}

/// The message shown for the error.
pub open spec fn move_error_message(e: MoveError) -> Seq<char> {
    match e {
        MoveError::MoveDisabled => "已关闭“移动到欣赏区”"@,
        MoveError::SourceOutsideDownloads => "源文件不在下载区内"@,
        MoveError::TargetOutsideAppreciation => "目标文件不在欣赏区内"@,
        MoveError::TargetExistsSkipped => "目标文件已存在，跳过"@,
        MoveError::TargetExists => "目标文件已存在"@,
        MoveError::CleanupOutsideDownloads => "待删除目录不在下载区内"@,
        MoveError::RenameAcrossFolders => "重命名只能在同一目录内执行"@,
        MoveError::NotReady => "该项状态不是 ready，已跳过"@,
    }
}

impl MoveError {
    /// The message shown for the error.
    pub fn message(&self) -> (r: String)
        ensures
            r@ == move_error_message(*self),
    {
        let text = match self {
            MoveError::MoveDisabled => "已关闭“移动到欣赏区”",
            MoveError::SourceOutsideDownloads => "源文件不在下载区内",
            MoveError::TargetOutsideAppreciation => "目标文件不在欣赏区内",
            MoveError::TargetExistsSkipped => "目标文件已存在，跳过",
            MoveError::TargetExists => "目标文件已存在",
            MoveError::CleanupOutsideDownloads => "待删除目录不在下载区内",
            MoveError::RenameAcrossFolders => "重命名只能在同一目录内执行",
            MoveError::NotReady => "该项状态不是 ready，已跳过",
        };
        String::from_str(text)
    }
}

/// A request is carried out only when its plan was `ready`.
pub fn check_request_ready(status: &str) -> (r: Result<(), MoveError>)
    ensures
        status@ == "ready"@ ==> r is Ok,
        status@ != "ready"@ ==> r == Err::<(), MoveError>(MoveError::NotReady),
{
    if str_eq(status, "ready") {
        Ok(())
    } else {
        Err(MoveError::NotReady)
    }
}

/// Downloads are moved only when moving is on.
pub fn check_move_enabled(options: &ProcessingOptions) -> (r: Result<(), MoveError>)
    ensures
        options.move_to_appreciation <==> r is Ok,
        !options.move_to_appreciation ==> r == Err::<(), MoveError>(MoveError::MoveDisabled),
{
    if options.move_to_appreciation {
        Ok(())
    } else {
        Err(MoveError::MoveDisabled)
    }
}

/// The source of a move must lie in the download folder.
pub fn check_download_source(source: &str, download_dir: &str) -> (r: Result<(), MoveError>)
    ensures
        starts_with_result(source@, download_dir@) <==> r is Ok,
        !starts_with_result(source@, download_dir@) ==> r == Err::<(), MoveError>(MoveError::SourceOutsideDownloads),
{
    if path_starts_with(source, download_dir) {
        Ok(())
    } else {
        Err(MoveError::SourceOutsideDownloads)
    }
}

/// The target of a move must lie in the appreciation folder and not exist;
/// an existing target is a skip when existing targets are skipped.
pub fn check_download_target(
    target: &str,
    appreciation_dir: &str,
    target_exists: bool,
    options: &ProcessingOptions,
) -> (r: Result<(), MoveError>)
    ensures
        !starts_with_result(target@, appreciation_dir@) ==> r == Err::<(), MoveError>(MoveError::TargetOutsideAppreciation),
        starts_with_result(target@, appreciation_dir@) && target_exists ==> r == Err::<(), MoveError>(
            if options.skip_if_exists { MoveError::TargetExistsSkipped } else { MoveError::TargetExists },
        ),
        starts_with_result(target@, appreciation_dir@) && !target_exists ==> r is Ok,
{
    if !path_starts_with(target, appreciation_dir) {
        return Err(MoveError::TargetOutsideAppreciation);
    }
    if target_exists {
        if options.skip_if_exists {
            return Err(MoveError::TargetExistsSkipped);
        }
        return Err(MoveError::TargetExists);
    }
    Ok(())
}

/// The message of a finished move, with what became of the download folder.
pub fn download_move_message(cleanup_message: &str) -> (r: String)
    ensures
        cleanup_message@.len() == 0 ==> r@ == "已移动到欣赏区"@,
        cleanup_message@.len() > 0 ==> r@ == "已移动到欣赏区，"@ + cleanup_message@,
{
    if cleanup_message.is_empty() {
        String::from_str("已移动到欣赏区")
    } else {
        let mut m = chars_of("已移动到欣赏区，");
        extend_chars(&mut m, &chars_of(cleanup_message));
        proof {
            reveal_strlit("已移动到欣赏区，");
        }
        string_of(&m)
    }
}

/// What becomes of a download folder after a file left it.
#[derive(Clone, Copy, Debug, PartialEq, Eq, Structural)]
pub enum CleanupDecision {
    /// It is the download folder itself: nothing to do.
    Nothing,
    /// It lies outside the download folder.
    Refuse,
    /// An unfinished `.xltd` download remains: kept.
    KeepUnfinished,
    /// Unprocessed videos remain: kept.
    KeepVideos,
    /// Delete it.
    Delete,
}

/// The message recorded for a decision (none for a refusal, which is an
/// error).
pub open spec fn cleanup_message_spec(d: CleanupDecision) -> Seq<char> {
    match d {
        CleanupDecision::KeepUnfinished => "仍有 .xltd 未完成下载，已保留下载文件夹"@,
        CleanupDecision::KeepVideos => "仍有视频未处理，已保留下载文件夹"@,
        CleanupDecision::Delete => "未发现 .xltd，已删除下载文件夹"@,
        _ => Seq::empty(),
    }
}

impl CleanupDecision {
    /// The message recorded for the decision.
    pub fn message(&self) -> (r: String)
        ensures
            r@ == cleanup_message_spec(*self),
    {
        match self {
            CleanupDecision::KeepUnfinished => String::from_str("仍有 .xltd 未完成下载，已保留下载文件夹"),
            CleanupDecision::KeepVideos => String::from_str("仍有视频未处理，已保留下载文件夹"),
            CleanupDecision::Delete => String::from_str("未发现 .xltd，已删除下载文件夹"),
            _ => String::new(),
        }
    }
}

/// What becomes of the (canonical) folder a moved file came from, given the
/// lower-case extensions of the files left in it.
pub open spec fn cleanup_spec(folder: Seq<char>, download_dir: Seq<char>, extensions: Seq<Seq<char>>) -> CleanupDecision {
    if path_eq_result(folder, download_dir) {
        CleanupDecision::Nothing
    } else if !starts_with_result(folder, download_dir) {
        CleanupDecision::Refuse
    } else if exists|i: int| 0 <= i < extensions.len() && #[trigger] extensions[i] == "xltd"@ {
        CleanupDecision::KeepUnfinished
    } else if exists|i: int| 0 <= i < extensions.len() && is_video_ext(#[trigger] extensions[i]) {
        CleanupDecision::KeepVideos
    } else {
        CleanupDecision::Delete
    }
}

/// A download folder is deleted only when it lies inside the download
/// folder, is not the download folder itself, and holds neither an
/// unfinished `.xltd` file nor a video.
pub proof fn lemma_cleanup_keeps_unfinished(folder: Seq<char>, download_dir: Seq<char>, extensions: Seq<Seq<char>>)
    ensures
        cleanup_spec(folder, download_dir, extensions) == CleanupDecision::Delete ==> {
            &&& !path_eq_result(folder, download_dir)
            &&& starts_with_result(folder, download_dir)
            &&& forall|i: int| 0 <= i < extensions.len() ==> #[trigger] extensions[i] != "xltd"@ && !is_video_ext(extensions[i])
        },
{
}

/// What becomes of the folder a moved file came from.
pub fn cleanup_decision(folder: &str, download_dir: &str, extensions: &Vec<String>) -> (r: CleanupDecision)
    ensures
        r == cleanup_spec(folder@, download_dir@, extensions.deep_view()),
{
    if path_eq(folder, download_dir) {
        return CleanupDecision::Nothing;
    }
    if !path_starts_with(folder, download_dir) {
        return CleanupDecision::Refuse;
    }
    let ghost ev = extensions.deep_view();
    let mut has_video = false;
    let mut i: usize = 0;
    while i < extensions.len()
        invariant
            i <= extensions.len(),
            ev == extensions.deep_view(),
            !path_eq_result(folder@, download_dir@),
            starts_with_result(folder@, download_dir@),
            forall|k: int| 0 <= k < i ==> #[trigger] ev[k] != "xltd"@,
            has_video == exists|k: int| 0 <= k < i && is_video_ext(#[trigger] ev[k]),
        decreases extensions.len() - i,
    {
        assert(ev[i as int] == extensions[i as int]@);
        if str_eq(extensions[i].as_str(), "xltd") {
            assert(ev[i as int] == "xltd"@);
            return CleanupDecision::KeepUnfinished;
        }
        if is_video_extension(extensions[i].as_str()) {
            has_video = true;
        }
        i += 1;
    }
    if has_video {
        CleanupDecision::KeepVideos
    } else {
        CleanupDecision::Delete
    }
}

// ---------------------------------------------------------------------------
// Renames and single moves
// ---------------------------------------------------------------------------

/// Whether two paths have the same parent folder (both none counts as the
/// same).
pub open spec fn same_parent(source: Seq<char>, target: Seq<char>) -> bool {
    match (parent_result(source), parent_result(target)) {
        (Some(a), Some(b)) => path_eq_result(a, b),
        (None, None) => true,
        _ => false,
    }
}

/// A rename stays in its folder and does not overwrite another file (a
/// change of ASCII case alone is allowed).
pub fn check_rename(source: &str, target: &str, target_exists: bool) -> (r: Result<(), MoveError>)
    ensures
        !same_parent(source@, target@) ==> r == Err::<(), MoveError>(MoveError::RenameAcrossFolders),
        same_parent(source@, target@) && target_exists && !eq_ignore_case(source@, target@) ==> r == Err::<(), MoveError>(MoveError::TargetExists),
        same_parent(source@, target@) && !(target_exists && !eq_ignore_case(source@, target@)) ==> r is Ok,
{
    let same = match (path_parent(source), path_parent(target)) {
        (Some(a), Some(b)) => path_eq(a.as_str(), b.as_str()),
        (None, None) => true,
        _ => false,
    };
    if !same {
        return Err(MoveError::RenameAcrossFolders);
    }
    if target_exists && !eq_ignore_ascii_case(source, target) {
        return Err(MoveError::TargetExists);
    }
    Ok(())
}

/// A single move does not overwrite another file.
pub fn check_move_target(target_exists: bool) -> (r: Result<(), MoveError>)
    ensures
        target_exists ==> r == Err::<(), MoveError>(MoveError::TargetExists),
        !target_exists ==> r is Ok,
{
    if target_exists {
        Err(MoveError::TargetExists)
    } else {
        Ok(())
    }
}

/// The decimal text of a number, with a minus sign when negative.
pub open spec fn signed_decimal(n: int) -> Seq<char> {
    if n < 0 {
        seq!['-'] + unsigned_decimal((-n) as nat)
    } else {
        unsigned_decimal(n as nat)
    }
}

/// The decimal text of a natural number.
pub open spec fn unsigned_decimal(n: nat) -> Seq<char>
    decreases n,
{
    if n < 10 {
        seq![((48 + n) as u32) as char]
    } else {
        unsigned_decimal(n / 10).push(((48 + n % 10) as u32) as char)
    }
}

pub(crate) fn unsigned_decimal_chars(n: u64) -> (r: Vec<char>)
    ensures
        r@ == unsigned_decimal(n as nat),
    decreases n,
{
    let d = crate::url::ascii_char((48 + n % 10) as u8);
    if n < 10 {
        let mut v = Vec::new();
        v.push(d);
        v
    } else {
        let mut v = unsigned_decimal_chars(n / 10);
        v.push(d);
        v
    }
}

/// The decimal text of a signed number.
pub fn signed_decimal_chars(n: i64) -> (r: Vec<char>)
    ensures
        r@ == signed_decimal(n as int),
{
    if n < 0 {
        let magnitude: u64 = if n == i64::MIN {
            9223372036854775808u64
        } else {
            (-n) as u64
        };
        let mut v = Vec::new();
        v.push('-');
        extend_chars(&mut v, &unsigned_decimal_chars(magnitude));
        v
    } else {
        unsigned_decimal_chars(n as u64)
    }
}

/// The temporary name a file passes through when it is renamed (so that a
/// change of case alone also takes effect on Windows):
/// `__KAWA_TMP_<millis>_<stem><.ext>` in the same folder.
pub open spec fn rename_temp_spec(source: Seq<char>, millis: i64) -> Seq<char> {
    let stem = or_text(file_stem_spec(source), "file"@);
    let ext = match extension_spec(source) {
        Some(e) => "."@ + e,
        None => Seq::empty(),
    };
    let name = "__KAWA_TMP_"@ + signed_decimal(millis as int) + "_"@ + stem + ext;
    match parent_result(source) {
        Some(parent) => join_result(parent, name),
        None => name,
    }
}

/// The temporary name a file passes through when it is renamed.
pub fn rename_temp_path(source: &str, millis: i64) -> (r: String)
    ensures
        r@ == rename_temp_spec(source@, millis),
{
    proof {
        reveal_strlit("__KAWA_TMP_");
        reveal_strlit("_");
        reveal_strlit(".");
        reveal_strlit("file");
    }
    let stem = opt_or(file_stem_of(source), "file");
    let mut name = chars_of("__KAWA_TMP_");
    extend_chars(&mut name, &signed_decimal_chars(millis));
    name.push('_');
    extend_chars(&mut name, &chars_of(stem.as_str()));
    match extension_of(source) {
        Some(e) => {
            name.push('.');
            extend_chars(&mut name, &chars_of(e.as_str()));
        },
        None => {},
    }
    proof {
        let stem_v = or_text(file_stem_spec(source@), "file"@);
        let ext_v = match extension_spec(source@) {
            Some(e) => "."@ + e,
            None => Seq::<char>::empty(),
        };
        assert(name@ =~= "__KAWA_TMP_"@ + signed_decimal(millis as int) + "_"@ + stem_v + ext_v);
    }
    let name = string_of(&name);
    match path_parent(source) {
        Some(parent) => path_join(parent.as_str(), name.as_str()),
        None => name,
    }
}

/// Where a file sent for duplicate review goes: its name in the review
/// folder, `unknown` when it has none.
pub fn review_target(review_dir: &str, file_path: &str) -> (r: String)
    ensures
        r@ == join_result(review_dir@, or_text(file_name_result(file_path@), "unknown"@)),
{
    let name = opt_or(path_file_name(file_path), "unknown");
    path_join(review_dir, name.as_str())
}

} // verus!
