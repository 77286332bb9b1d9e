//! The library root and the folders in it: which paths may be touched, the
//! reserved folders, actor folder names, and the record of file operations.
use vstd::prelude::*;

use crate::codes::{is_system_folder, is_system_folder_name};
use crate::fspath::{
    components_result, file_name_result, first_component_result, is_absolute_result, join_result,
    parent_result, path_components, path_eq, path_eq_result, path_file_name, path_first_component,
    path_is_absolute, path_join, path_parent, path_starts_with, path_strip_prefix,
    starts_with_result, strip_prefix_result,
};
use crate::text::{
    extend_chars, has_prefix, slice_chars, starts_with, chars_of, contains, eq_ignore_ascii_case, eq_ignore_case, in_set, is_control, is_control_char,
    str_contains, str_eq, string_of, trim_chars, trim_end_set, trim_set, trim_start_set, trim_str,
    trim_ws, CharSet,
};

verus! {

broadcast use vstd::string::group_string_axioms;

/// The default download folder under the root.
pub const DOWNLOAD_FOLDER: &'static str = "_downloading";

/// The default appreciation folder under the root.
pub const APPRECIATION_FOLDER: &'static str = "_appreciation";

/// Where files sent for duplicate review go.
pub const REVIEW_FOLDER: &'static str = "_duplicates_review";

/// The narrowest the main window is kept.
pub const MIN_WINDOW_WIDTH: u32 = 1248;

/// The lowest the main window is kept.
pub const MIN_WINDOW_HEIGHT: u32 = 816;

/// The window size that is applied and stored: at least the minimum in
/// each direction.
pub fn window_size(width: u32, height: u32) -> (r: (u32, u32))
    ensures
        r.0 == (if width > MIN_WINDOW_WIDTH { width } else { MIN_WINDOW_WIDTH }),
        r.1 == (if height > MIN_WINDOW_HEIGHT { height } else { MIN_WINDOW_HEIGHT }),
{
    (if width > MIN_WINDOW_WIDTH { width } else { MIN_WINDOW_WIDTH }, if height > MIN_WINDOW_HEIGHT { height } else { MIN_WINDOW_HEIGHT })
}

// ---------------------------------------------------------------------------
// Errors
// ---------------------------------------------------------------------------

/// Why a path or an operation was refused.
#[derive(Clone, Copy, Debug, PartialEq, Eq, Structural)]
pub enum LibraryError {
    RootMissing,
    RootUnresolved,
    SourceMissing,
    SourceNotFile,
    SourceOutsideLibrary,
    DirMissing,
    NotADirectory,
    DirOutsideLibrary,
    TargetWithoutParent,
    TargetParentMissing,
    TargetOutsideLibrary,
    TargetNameInvalid,
    TargetDirRelative,
    TargetPathRelative,
    TargetDirOutsideLibrary,
    TargetNotDirectory,
    ConfiguredDirIsRoot,
    ConfiguredDirOutsideRoot,
    EmptyActorName,
    ReservedActorName,
    DirUnresolved,
    TargetParentUnresolved,
}

/// The message shown for an error.
pub open spec fn library_error_message(e: LibraryError) -> Seq<char> {
    match e {
        LibraryError::RootMissing => "根目录不存在或不是文件夹"@,
        LibraryError::RootUnresolved => "无法解析根目录"@,
        LibraryError::SourceMissing => "源文件不存在"@,
        LibraryError::SourceNotFile => "源路径不是文件"@,
        LibraryError::SourceOutsideLibrary => "源文件不在库目录内"@,
        LibraryError::DirMissing => "目录不存在"@,
        LibraryError::NotADirectory => "路径不是目录"@,
        LibraryError::DirOutsideLibrary => "目录不在库目录内"@,
        LibraryError::TargetWithoutParent => "目标路径无父目录"@,
        LibraryError::TargetParentMissing => "目标父目录不存在"@,
        LibraryError::TargetOutsideLibrary => "目标路径不在库目录内"@,
        LibraryError::TargetNameInvalid => "目标文件名无效"@,
        LibraryError::TargetDirRelative => "目标目录不能包含相对目录"@,
        LibraryError::TargetPathRelative => "目标路径不能包含相对目录"@,
        LibraryError::TargetDirOutsideLibrary => "目标目录不在库目录内"@,
        LibraryError::TargetNotDirectory => "目标路径不是目录"@,
        LibraryError::ConfiguredDirIsRoot => "指定目录不能是库根目录"@,
        LibraryError::ConfiguredDirOutsideRoot => "目录不在库根目录内"@,
        LibraryError::EmptyActorName => "演员名称为空，无法新建文件夹"@,
        LibraryError::ReservedActorName => "演员名称不能是系统目录"@,
        LibraryError::DirUnresolved => "无法解析目录"@,
        LibraryError::TargetParentUnresolved => "无法解析目标父目录"@,
    }
}

impl LibraryError {
    /// The message shown for the error.
    pub fn message(&self) -> (r: String)
        ensures
            r@ == library_error_message(*self),
    {
        let text = match self {
            LibraryError::RootMissing => "根目录不存在或不是文件夹",
            LibraryError::RootUnresolved => "无法解析根目录",
            LibraryError::SourceMissing => "源文件不存在",
            LibraryError::SourceNotFile => "源路径不是文件",
            LibraryError::SourceOutsideLibrary => "源文件不在库目录内",
            LibraryError::DirMissing => "目录不存在",
            LibraryError::NotADirectory => "路径不是目录",
            LibraryError::DirOutsideLibrary => "目录不在库目录内",
            LibraryError::TargetWithoutParent => "目标路径无父目录",
            LibraryError::TargetParentMissing => "目标父目录不存在",
            LibraryError::TargetOutsideLibrary => "目标路径不在库目录内",
            LibraryError::TargetNameInvalid => "目标文件名无效",
            LibraryError::TargetDirRelative => "目标目录不能包含相对目录",
            LibraryError::TargetPathRelative => "目标路径不能包含相对目录",
            LibraryError::TargetDirOutsideLibrary => "目标目录不在库目录内",
            LibraryError::TargetNotDirectory => "目标路径不是目录",
            LibraryError::ConfiguredDirIsRoot => "指定目录不能是库根目录",
            LibraryError::ConfiguredDirOutsideRoot => "目录不在库根目录内",
            LibraryError::EmptyActorName => "演员名称为空，无法新建文件夹",
            LibraryError::ReservedActorName => "演员名称不能是系统目录",
            LibraryError::DirUnresolved => "无法解析目录",
            LibraryError::TargetParentUnresolved => "无法解析目标父目录",
        };
        String::from_str(text)
    }
}

// ---------------------------------------------------------------------------
// Folders directly under the root
// ---------------------------------------------------------------------------

/// A folder directly under the library root.
#[derive(Clone, Debug)]
pub struct DirectFolder {
    pub name: String,
    pub path: String,
    pub modified_unix: i64,
}

/// A folder record as text.
pub struct FolderView {
    pub name: Seq<char>,
    pub path: Seq<char>,
    pub modified_unix: i64,
}

impl DeepView for DirectFolder {
    type V = FolderView;

    open spec fn deep_view(&self) -> FolderView {
        FolderView { name: self.name@, path: self.path@, modified_unix: self.modified_unix }
    }
}

/// A file found under the library root.
pub struct LibraryFile {
    pub id: i64,
    pub name: String,
    pub path: String,
    pub parent: String,
    pub extension: String,
    pub size_bytes: i64,
    pub modified: String,
    pub modified_unix: i64,
    pub depth: usize,
    pub media_code: Option<String>,
    pub cover_path: Option<String>,
    pub is_root_file: bool,
}

/// A file record as text.
pub struct FileView {
    pub id: i64,
    pub name: Seq<char>,
    pub path: Seq<char>,
    pub parent: Seq<char>,
    pub extension: Seq<char>,
    pub size_bytes: i64,
    pub modified: Seq<char>,
    pub modified_unix: i64,
    pub depth: usize,
    pub media_code: Option<Seq<char>>,
    pub cover_path: Option<Seq<char>>,
    pub is_root_file: bool,
}

impl DeepView for LibraryFile {
    type V = FileView;

    open spec fn deep_view(&self) -> FileView {
        FileView {
            id: self.id,
            name: self.name@,
            path: self.path@,
            parent: self.parent@,
            extension: self.extension@,
            size_bytes: self.size_bytes,
            modified: self.modified@,
            modified_unix: self.modified_unix,
            depth: self.depth,
            media_code: self.media_code.deep_view(),
            cover_path: self.cover_path.deep_view(),
            is_root_file: self.is_root_file,
        }
    }
}

fn copy_opt_text(s: &Option<String>) -> (r: Option<String>)
    ensures
        r.deep_view() == s.deep_view(),
{
    match s {
        Some(t) => Some(t.clone()),
        None => None,
    }
}

/// A copy of a file record.
pub fn copy_file(file: &LibraryFile) -> (r: LibraryFile)
    ensures
        r.deep_view() == file.deep_view(),
{
    LibraryFile {
        id: file.id,
        name: file.name.clone(),
        path: file.path.clone(),
        parent: file.parent.clone(),
        extension: file.extension.clone(),
        size_bytes: file.size_bytes,
        modified: file.modified.clone(),
        modified_unix: file.modified_unix,
        depth: file.depth,
        media_code: copy_opt_text(&file.media_code),
        cover_path: copy_opt_text(&file.cover_path),
        is_root_file: file.is_root_file,
    }
}

/// The name of the top-level folder, under the root, that holds a path.
pub open spec fn top_level_name_spec(root: Seq<char>, path: Seq<char>) -> Option<Seq<char>> {
    match strip_prefix_result(path, root) {
        Some(relative) => first_component_result(relative),
        None => None,
    }
}

/// The name of the folder directly under the root that holds a file.
pub fn top_level_folder_name(root: &str, file_path: &str) -> (r: Option<String>)
    ensures
        r.deep_view() == top_level_name_spec(root@, file_path@),
{
    match path_strip_prefix(file_path, root) {
        Some(relative) => path_first_component(relative.as_str()),
        None => None,
    }
}

/// The top-level folder of a file, as name and path; a file outside the root
/// counts by its own first component, and `sakana` stands in for none.
pub open spec fn top_level_key_spec(root: Seq<char>, path: Seq<char>) -> (Seq<char>, Seq<char>) {
    let relative = match strip_prefix_result(path, root) {
        Some(rel) => rel,
        None => path,
    };
    let name = match first_component_result(relative) {
        Some(n) => n,
        None => "sakana"@,
    };
    (name, join_result(root, name))
}

/// The top-level folder of a file, as name and path.
pub fn top_level_folder_key(root: &str, file_path: &str) -> (r: (String, String))
    ensures
        (r.0@, r.1@) == top_level_key_spec(root@, file_path@),
{
    let relative = match path_strip_prefix(file_path, root) {
        Some(rel) => rel,
        None => string_of(&chars_of(file_path)),
    };
    let name = match path_first_component(relative.as_str()) {
        Some(n) => n,
        None => String::from_str("sakana"),
    };
    let path = path_join(root, name.as_str());
    (name, path)
}

/// The top-level folders, by name, that hold any of the paths (each once).
pub fn configured_top_level_folders(root: &str, paths: &Vec<String>) -> (r: Vec<String>)
    ensures
        forall|n: Seq<char>| #![trigger r.deep_view().contains(n)]
            r.deep_view().contains(n) <==> exists|i: int|
                0 <= i < paths.len() && #[trigger] top_level_name_spec(root@, paths.deep_view()[i]) == Some(n),
        forall|a: int, b: int| 0 <= a < b < r.len() ==> r.deep_view()[a] != r.deep_view()[b],
{
    let ghost pv = paths.deep_view();
    let mut out: Vec<String> = Vec::new();
    let mut i: usize = 0;
    while i < paths.len()
        invariant
            i <= paths.len(),
            pv == paths.deep_view(),
            forall|n: Seq<char>| #![trigger out.deep_view().contains(n)]
                out.deep_view().contains(n) <==> exists|k: int|
                    0 <= k < i && #[trigger] top_level_name_spec(root@, pv[k]) == Some(n),
            forall|a: int, b: int| 0 <= a < b < out.len() ==> out.deep_view()[a] != out.deep_view()[b],
        decreases paths.len() - i,
    {
        let name = top_level_folder_name(root, paths[i].as_str());
        assert(pv[i as int] == paths[i as int]@);
        if let Some(name) = name {
            let mut seen = false;
            let mut j: usize = 0;
            while j < out.len()
                invariant
                    j <= out.len(),
                    seen == exists|k: int| 0 <= k < j && out.deep_view()[k] == name@,
                decreases out.len() - j,
            {
                assert(out.deep_view()[j as int] == out[j as int]@);
                if str_eq(out[j].as_str(), name.as_str()) {
                    seen = true;
                }
                j += 1;
            }
            let ghost before = out.deep_view();
            let ghost nv = name@;
            assert(top_level_name_spec(root@, pv[i as int]) == Some(nv));
            if !seen {
                out.push(name);
                proof {
                    assert(out.deep_view() =~= before.push(nv));
                    assert forall|n: Seq<char>| #![trigger out.deep_view().contains(n)]
                        out.deep_view().contains(n) <==> exists|k: int|
                            0 <= k < i + 1 && #[trigger] top_level_name_spec(root@, pv[k]) == Some(n) by {
                        if out.deep_view().contains(n) && n != nv {
                            let idx = choose|idx: int| 0 <= idx < out.deep_view().len() && out.deep_view()[idx] == n;
                            assert(idx < before.len());
                            assert(before[idx] == n);
                            assert(before.contains(n));
                        }
                        if n == nv {
                            assert(out.deep_view()[before.len() as int] == n);
                        }
                        if exists|k: int| 0 <= k < i + 1 && #[trigger] top_level_name_spec(root@, pv[k]) == Some(n) {
                            let k = choose|k: int| 0 <= k < i + 1 && #[trigger] top_level_name_spec(root@, pv[k]) == Some(n);
                            if k < i {
                                assert(before.contains(n));
                                let idx = choose|idx: int| 0 <= idx < before.len() && before[idx] == n;
                                assert(out.deep_view()[idx] == n);
                            }
                        }
                    }
                }
            } else {
                proof {
                    assert forall|n: Seq<char>| #![trigger out.deep_view().contains(n)]
                        out.deep_view().contains(n) <==> exists|k: int|
                            0 <= k < i + 1 && #[trigger] top_level_name_spec(root@, pv[k]) == Some(n) by {
                        if n == name@ {
                            let k = choose|k: int| 0 <= k < out.len() && out.deep_view()[k] == name@;
                            assert(out.deep_view()[k] == n);
                        }
                    }
                }
            }
        }
        i += 1;
    }
    out
}

// ---------------------------------------------------------------------------
// Reserved folders and actor folder names
// ---------------------------------------------------------------------------

/// Folder names that are never actor folders: system folders and the three
/// working folders, in any ASCII case.
pub open spec fn is_reserved_folder_name(name: Seq<char>) -> bool {
    ||| is_system_folder_name(name)
    ||| eq_ignore_case(name, DOWNLOAD_FOLDER@)
    ||| eq_ignore_case(name, APPRECIATION_FOLDER@)
    ||| eq_ignore_case(name, REVIEW_FOLDER@)
}

fn is_reserved_folder(name: &str) -> (r: bool)
    ensures
        r == is_reserved_folder_name(name@),
{
    is_system_folder(name) || eq_ignore_ascii_case(name, DOWNLOAD_FOLDER) || eq_ignore_ascii_case(
        name,
        APPRECIATION_FOLDER,
    ) || eq_ignore_ascii_case(name, REVIEW_FOLDER)
}

/// Whether a folder may not serve as an actor folder: the root itself, a
/// folder outside it, or one under a reserved top-level folder.
pub open spec fn reserved_actor_dir_spec(root: Seq<char>, actor_dir: Seq<char>) -> bool {
    path_eq_result(actor_dir, root) || match top_level_name_spec(root, actor_dir) {
        Some(name) => is_reserved_folder_name(name),
        None => true,
    }
}

/// Whether a folder may not serve as an actor folder.
pub fn is_reserved_actor_dir(root: &str, actor_dir: &str) -> (r: bool)
    ensures
        r == reserved_actor_dir_spec(root@, actor_dir@),
{
    if path_eq(actor_dir, root) {
        return true;
    }
    match top_level_folder_name(root, actor_dir) {
        Some(name) => is_reserved_folder(name.as_str()),
        None => true,
    }
}

/// Characters that a folder name may not hold on Windows.
pub open spec fn is_forbidden_name_char(c: char) -> bool {
    ||| c == '<'
    ||| c == '>'
    ||| c == ':'
    ||| c == '"'
    ||| c == '/'
    ||| c == '\\'
    ||| c == '|'
    ||| c == '?'
    ||| c == '*'
    ||| is_control(c)
}

/// An actor name as a folder name: trimmed, forbidden characters replaced by
/// `_`, then leading and trailing spaces and dots removed.
pub open spec fn sanitized_name(name: Seq<char>) -> Seq<char> {
    trim_set(
        trim_ws(name).map_values(|c: char| if is_forbidden_name_char(c) { '_' } else { c }),
        CharSet::SpaceDot,
    )
}

/// The folder name for an actor, or why there can be none.
pub open spec fn actor_folder_name_spec(name: Seq<char>) -> Result<Seq<char>, LibraryError> {
    let cleaned = sanitized_name(name);
    if cleaned.len() == 0 {
        Err(LibraryError::EmptyActorName)
    } else if is_reserved_folder_name(cleaned) {
        Err(LibraryError::ReservedActorName)
    } else {
        Ok(cleaned)
    }
}

/// Turns an actor name into a folder name that Windows accepts.
pub fn sanitize_actor_folder_name(actor_name: &str) -> (r: Result<String, LibraryError>)
    ensures
        match actor_folder_name_spec(actor_name@) {
            Ok(name) => r matches Ok(s) && s@ == name,
            Err(e) => r == Err::<String, LibraryError>(e),
        },
{
    let trimmed = chars_of(trim_str(actor_name).as_str());
    let mut mapped: Vec<char> = Vec::new();
    let mut i: usize = 0;
    while i < trimmed.len()
        invariant
            i <= trimmed.len(),
            mapped@ == trimmed@.take(i as int).map_values(
                |c: char| if is_forbidden_name_char(c) { '_' } else { c },
            ),
        decreases trimmed.len() - i,
    {
        let c = trimmed[i];
        let forbidden = c == '<' || c == '>' || c == ':' || c == '"' || c == '/' || c == '\\' || c
            == '|' || c == '?' || c == '*' || is_control_char(c);
        mapped.push(if forbidden { '_' } else { c });
        proof {
            assert(trimmed@.take(i + 1) == trimmed@.take(i as int).push(c));
        }
        i += 1;
    }
    assert(trimmed@.take(trimmed.len() as int) == trimmed@);
    let cleaned = string_of(&trim_chars(&mapped, CharSet::SpaceDot));
    if cleaned.as_str().is_empty() {
        return Err(LibraryError::EmptyActorName);
    }
    if is_reserved_folder(cleaned.as_str()) {
        return Err(LibraryError::ReservedActorName);
    }
    Ok(cleaned)
}

proof fn lemma_trim_start_is_suffix(s: Seq<char>, set: CharSet)
    ensures
        exists|k: int| 0 <= k <= s.len() && trim_start_set(s, set) == s.skip(k),
        trim_start_set(s, set).len() > 0 ==> !in_set(set, trim_start_set(s, set)[0]),
    decreases s.len(),
{
    if s.len() > 0 && in_set(set, s[0]) {
        lemma_trim_start_is_suffix(s.drop_first(), set);
        let k = choose|k: int| 0 <= k <= s.drop_first().len() && trim_start_set(s.drop_first(), set) == s.drop_first().skip(k);
        assert(s.drop_first().skip(k) == s.skip(k + 1));
    } else {
        assert(s.skip(0) == s);
    }
}

pub(crate) proof fn lemma_trim_end_is_prefix(s: Seq<char>, set: CharSet)
    ensures
        exists|k: int| 0 <= k <= s.len() && trim_end_set(s, set) == s.take(k),
        trim_end_set(s, set).len() > 0 ==> !in_set(set, trim_end_set(s, set).last()),
    decreases s.len(),
{
    if s.len() > 0 && in_set(set, s.last()) {
        lemma_trim_end_is_prefix(s.drop_last(), set);
        let k = choose|k: int| 0 <= k <= s.drop_last().len() && trim_end_set(s.drop_last(), set) == s.drop_last().take(k);
        assert(s.drop_last().take(k) == s.take(k));
    } else {
        assert(s.take(s.len() as int) == s);
    }
}

/// The characters of a trimmed text are characters of the text, and it
/// neither starts nor ends with a character of the trimmed set.
pub proof fn lemma_trim_set_shape(s: Seq<char>, set: CharSet)
    ensures
        forall|i: int| 0 <= i < trim_set(s, set).len() ==> s.contains(#[trigger] trim_set(s, set)[i]),
        trim_set(s, set).len() > 0 ==> !in_set(set, trim_set(s, set)[0]) && !in_set(set, trim_set(s, set).last()),
{
    lemma_trim_start_is_suffix(s, set);
    let a = trim_start_set(s, set);
    let k1 = choose|k: int| 0 <= k <= s.len() && trim_start_set(s, set) == s.skip(k);
    lemma_trim_end_is_prefix(a, set);
    let k2 = choose|k: int| 0 <= k <= a.len() && trim_end_set(a, set) == a.take(k);
    let t = trim_set(s, set);
    assert forall|i: int| 0 <= i < t.len() implies s.contains(#[trigger] t[i]) by {
        assert(t[i] == s[k1 + i]);
    }
    if t.len() > 0 {
        assert(t[0] == a[0]);
    }
}

/// An accepted actor folder name is not empty, holds no character that
/// Windows forbids in a name, neither starts nor ends with a space or a dot,
/// and is no reserved folder name.
pub proof fn lemma_actor_folder_name_is_safe(actor_name: Seq<char>)
    requires
        actor_folder_name_spec(actor_name) is Ok,
    ensures
        ({
            let name = actor_folder_name_spec(actor_name)->Ok_0;
            &&& name.len() > 0
            &&& forall|i: int| 0 <= i < name.len() ==> !is_forbidden_name_char(#[trigger] name[i])
            &&& name[0] != ' ' && name[0] != '.'
            &&& name.last() != ' ' && name.last() != '.'
            &&& !is_reserved_folder_name(name)
        }),
{
    let mapped = trim_ws(actor_name).map_values(|c: char| if is_forbidden_name_char(c) { '_' } else { c });
    lemma_trim_set_shape(mapped, CharSet::SpaceDot);
    let name = sanitized_name(actor_name);
    assert forall|i: int| 0 <= i < name.len() implies !is_forbidden_name_char(#[trigger] name[i]) by {
        assert(mapped.contains(name[i]));
        let j = choose|j: int| 0 <= j < mapped.len() && mapped[j] == name[i];
        assert(mapped[j] == (if is_forbidden_name_char(trim_ws(actor_name)[j]) { '_' } else { trim_ws(actor_name)[j] }));
    }
}

/// The folder under the root that an actor name gets; the caller checks the
/// result with the allow-missing check before creating it.
pub fn actor_dir_for_name(root: &str, actor_name: &str) -> (r: Result<String, LibraryError>)
    ensures
        match actor_folder_name_spec(actor_name@) {
            Ok(name) => r matches Ok(p) && p@ == join_result(root@, name),
            Err(e) => r == Err::<String, LibraryError>(e),
        },
{
    let name = sanitize_actor_folder_name(actor_name)?;
    Ok(path_join(root, name.as_str()))
}

// ---------------------------------------------------------------------------
// Paths that may be touched
// ---------------------------------------------------------------------------

/// The library root, given whether the path is a folder and what it
/// canonicalizes to.
pub fn canonical_root(root_is_dir: bool, canonical: Option<String>) -> (r: Result<String, LibraryError>)
    ensures
        !root_is_dir ==> r == Err::<String, LibraryError>(LibraryError::RootMissing),
        root_is_dir && canonical is None ==> r == Err::<String, LibraryError>(LibraryError::RootUnresolved),
        root_is_dir && canonical is Some ==> (r matches Ok(p) && p@ == canonical->Some_0@),
{
    if !root_is_dir {
        return Err(LibraryError::RootMissing);
    }
    match canonical {
        Some(path) => Ok(path),
        None => Err(LibraryError::RootUnresolved),
    }
}

/// A source file of an operation, given what its path canonicalizes to and
/// whether that is a file: it must exist, be a file, and lie under the root.
pub fn ensure_existing_file_under_root(root: &str, canonical: Option<String>, is_file: bool) -> (r: Result<String, LibraryError>)
    ensures
        canonical is None ==> r == Err::<String, LibraryError>(LibraryError::SourceMissing),
        canonical matches Some(c) ==> {
            if !is_file {
                r == Err::<String, LibraryError>(LibraryError::SourceNotFile)
            } else if !starts_with_result(c@, root@) {
                r == Err::<String, LibraryError>(LibraryError::SourceOutsideLibrary)
            } else {
                r matches Ok(p) && p@ == c@
            }
        },
{
    let path = match canonical {
        Some(path) => path,
        None => return Err(LibraryError::SourceMissing),
    };
    if !is_file {
        return Err(LibraryError::SourceNotFile);
    }
    if !path_starts_with(path.as_str(), root) {
        return Err(LibraryError::SourceOutsideLibrary);
    }
    Ok(path)
}

/// An existing folder of an operation, given what its path canonicalizes to
/// and whether that is a folder: it must exist, be a folder, and lie under the
/// root.
pub fn ensure_existing_dir_under_root(root: &str, canonical: Option<String>, is_dir: bool) -> (r: Result<String, LibraryError>)
    ensures
        canonical is None ==> r == Err::<String, LibraryError>(LibraryError::DirMissing),
        canonical matches Some(c) ==> {
            if !is_dir {
                r == Err::<String, LibraryError>(LibraryError::NotADirectory)
            } else if !starts_with_result(c@, root@) {
                r == Err::<String, LibraryError>(LibraryError::DirOutsideLibrary)
            } else {
                r matches Ok(p) && p@ == c@
            }
        },
{
    let path = match canonical {
        Some(path) => path,
        None => return Err(LibraryError::DirMissing),
    };
    if !is_dir {
        return Err(LibraryError::NotADirectory);
    }
    if !path_starts_with(path.as_str(), root) {
        return Err(LibraryError::DirOutsideLibrary);
    }
    Ok(path)
}

/// The parent folder of a target path, which must exist for the target to be
/// checked.
pub fn target_file_parent(path_text: &str) -> (r: Result<String, LibraryError>)
    ensures
        match parent_result(path_text@) {
            Some(p) => r matches Ok(s) && s@ == p,
            None => r == Err::<String, LibraryError>(LibraryError::TargetWithoutParent),
        },
{
    match path_parent(path_text) {
        Some(parent) => Ok(parent),
        None => Err(LibraryError::TargetWithoutParent),
    }
}

/// A target file of an operation, given what its parent folder
/// canonicalizes to: the parent must exist and lie under the root, and the
/// target keeps its file name under the canonical parent.
pub fn ensure_target_file_under_root(root: &str, path_text: &str, canonical_parent: Option<String>) -> (r: Result<String, LibraryError>)
    ensures
        parent_result(path_text@) is None ==> r == Err::<String, LibraryError>(LibraryError::TargetWithoutParent),
        parent_result(path_text@) is Some ==> match canonical_parent {
            None => r == Err::<String, LibraryError>(LibraryError::TargetParentMissing),
            Some(parent) => if !starts_with_result(parent@, root@) {
                r == Err::<String, LibraryError>(LibraryError::TargetOutsideLibrary)
            } else {
                match file_name_result(path_text@) {
                    None => r == Err::<String, LibraryError>(LibraryError::TargetNameInvalid),
                    Some(name) => r matches Ok(p) && p@ == join_result(parent@, name),
                }
            },
        },
{
    target_file_parent(path_text)?;
    let parent = match canonical_parent {
        Some(parent) => parent,
        None => return Err(LibraryError::TargetParentMissing),
    };
    if !path_starts_with(parent.as_str(), root) {
        return Err(LibraryError::TargetOutsideLibrary);
    }
    match path_file_name(path_text) {
        Some(name) => Ok(path_join(parent.as_str(), name.as_str())),
        None => Err(LibraryError::TargetNameInvalid),
    }
}

/// Whether a path names `.` or `..` among its components.
pub open spec fn has_dot_component(components: Seq<Seq<char>>) -> bool {
    exists|i: int| 0 <= i < components.len() && (#[trigger] components[i] == "."@ || components[i] == ".."@)
}

fn any_dot_component(components: &Vec<String>) -> (r: bool)
    ensures
        r == has_dot_component(components.deep_view()),
{
    let mut i: usize = 0;
    while i < components.len()
        invariant
            i <= components.len(),
            forall|k: int| 0 <= k < i ==> !(#[trigger] components.deep_view()[k] == "."@ || components.deep_view()[k] == ".."@),
        decreases components.len() - i,
    {
        assert(components.deep_view()[i as int] == components[i as int]@);
        if str_eq(components[i].as_str(), ".") || str_eq(components[i].as_str(), "..") {
            return true;
        }
        i += 1;
    }
    false
}

/// Where a folder that may not exist yet ends up, given the nearest existing
/// folder on its path (none when even the first is missing), what that
/// canonicalizes to, and whether the path itself exists and is a folder.
pub open spec fn allow_missing_dir_spec(
    root: Seq<char>,
    path: Seq<char>,
    existing: Option<Seq<char>>,
    canonical_existing: Option<Seq<char>>,
    path_exists: bool,
    path_is_dir: bool,
) -> Result<Seq<char>, LibraryError> {
    if has_dot_component(components_result(path)) {
        Err(LibraryError::TargetDirRelative)
    } else {
        match existing {
            None => Err(LibraryError::TargetParentMissing),
            Some(e) => match canonical_existing {
                None => Err(LibraryError::TargetParentUnresolved),
                Some(c) => if !starts_with_result(c, root) {
                    Err(LibraryError::TargetDirOutsideLibrary)
                } else if path_exists && !path_is_dir {
                    Err(LibraryError::TargetNotDirectory)
                } else {
                    let tail = match strip_prefix_result(path, e) {
                        Some(t) => t,
                        None => Seq::empty(),
                    };
                    Ok(join_result(c, tail))
                },
            },
        }
    }
}

/// A target folder that may not exist yet: it may name no `.` or `..`, the
/// nearest existing folder on its path must lie under the root, and an
/// existing path must be a folder. The missing part is kept below the
/// canonical existing folder.
pub fn ensure_target_dir_under_root_allow_missing(
    root: &str,
    path_text: &str,
    existing: Option<&str>,
    canonical_existing: Option<String>,
    path_exists: bool,
    path_is_dir: bool,
) -> (r: Result<String, LibraryError>)
    ensures
        match allow_missing_dir_spec(
            root@,
            path_text@,
            match existing { Some(e) => Some(e@), None => None },
            canonical_existing.deep_view(),
            path_exists,
            path_is_dir,
        ) {
            Ok(p) => r matches Ok(s) && s@ == p,
            Err(e) => r == Err::<String, LibraryError>(e),
        },
{
    if any_dot_component(&path_components(path_text)) {
        return Err(LibraryError::TargetDirRelative);
    }
    let existing = match existing {
        Some(e) => e,
        None => return Err(LibraryError::TargetParentMissing),
    };
    let canonical = match canonical_existing {
        Some(c) => c,
        None => return Err(LibraryError::TargetParentUnresolved),
    };
    if !path_starts_with(canonical.as_str(), root) {
        return Err(LibraryError::TargetDirOutsideLibrary);
    }
    if path_exists && !path_is_dir {
        return Err(LibraryError::TargetNotDirectory);
    }
    let tail = match path_strip_prefix(path_text, existing) {
        Some(t) => t,
        None => String::new(),
    };
    Ok(path_join(canonical.as_str(), tail.as_str()))
}

/// Where a target file that may not exist yet ends up, given the nearest
/// existing folder on the path of its parent and what that canonicalizes to.
pub open spec fn allow_missing_file_spec(
    root: Seq<char>,
    path: Seq<char>,
    existing: Option<Seq<char>>,
    canonical_existing: Option<Seq<char>>,
) -> Result<Seq<char>, LibraryError> {
    if has_dot_component(components_result(path)) {
        Err(LibraryError::TargetPathRelative)
    } else {
        match file_name_result(path) {
            None => Err(LibraryError::TargetNameInvalid),
            Some(name) => match parent_result(path) {
                None => Err(LibraryError::TargetWithoutParent),
                Some(parent) => match existing {
                    None => Err(LibraryError::TargetParentMissing),
                    Some(e) => match canonical_existing {
                        None => Err(LibraryError::TargetParentUnresolved),
                        Some(c) => if !starts_with_result(c, root) {
                            Err(LibraryError::TargetOutsideLibrary)
                        } else {
                            let tail = match strip_prefix_result(parent, e) {
                                Some(t) => t,
                                None => Seq::empty(),
                            };
                            Ok(join_result(join_result(c, tail), name))
                        },
                    },
                },
            },
        }
    }
}

/// A target file whose folders may not exist yet: no `.` or `..`, a file
/// name and a parent, and the nearest existing folder above it under the
/// root. The missing folders and the file name are kept below the canonical
/// existing folder.
pub fn ensure_target_file_under_root_allow_missing(
    root: &str,
    path_text: &str,
    existing: Option<&str>,
    canonical_existing: Option<String>,
) -> (r: Result<String, LibraryError>)
    ensures
        match allow_missing_file_spec(
            root@,
            path_text@,
            match existing { Some(e) => Some(e@), None => None },
            canonical_existing.deep_view(),
        ) {
            Ok(p) => r matches Ok(s) && s@ == p,
            Err(e) => r == Err::<String, LibraryError>(e),
        },
{
    if any_dot_component(&path_components(path_text)) {
        return Err(LibraryError::TargetPathRelative);
    }
    let name = match path_file_name(path_text) {
        Some(n) => n,
        None => return Err(LibraryError::TargetNameInvalid),
    };
    let parent = match path_parent(path_text) {
        Some(p) => p,
        None => return Err(LibraryError::TargetWithoutParent),
    };
    let existing = match existing {
        Some(e) => e,
        None => return Err(LibraryError::TargetParentMissing),
    };
    let canonical = match canonical_existing {
        Some(c) => c,
        None => return Err(LibraryError::TargetParentUnresolved),
    };
    if !path_starts_with(canonical.as_str(), root) {
        return Err(LibraryError::TargetOutsideLibrary);
    }
    let tail = match path_strip_prefix(parent.as_str(), existing) {
        Some(t) => t,
        None => String::new(),
    };
    let dir = path_join(canonical.as_str(), tail.as_str());
    Ok(path_join(dir.as_str(), name.as_str()))
}

/// A configured folder that lies under the root, given what the nearest
/// existing folder on its path canonicalizes to (none when nothing on the
/// path exists).
pub fn ensure_path_under_root(root: &str, canonical_existing: Option<String>) -> (r: Result<(), LibraryError>)
    ensures
        match canonical_existing {
            None => r == Err::<(), LibraryError>(LibraryError::DirMissing),
            Some(c) => if starts_with_result(c@, root@) {
                r is Ok
            } else {
                r == Err::<(), LibraryError>(LibraryError::ConfiguredDirOutsideRoot)
            },
        },
{
    let canonical = match canonical_existing {
        Some(c) => c,
        None => return Err(LibraryError::DirMissing),
    };
    if !path_starts_with(canonical.as_str(), root) {
        return Err(LibraryError::ConfiguredDirOutsideRoot);
    }
    Ok(())
}

/// The folder a setting names: the configured path when it is not blank,
/// else the default folder under the root; a relative path is taken under
/// the root.
pub open spec fn configured_dir_spec(root: Seq<char>, configured: Option<Seq<char>>, default_name: Seq<char>) -> Seq<char> {
    let candidate = match configured {
        Some(c) => if trim_ws(c).len() > 0 {
            c
        } else {
            join_result(root, default_name)
        },
        None => join_result(root, default_name),
    };
    if is_absolute_result(candidate) {
        candidate
    } else {
        join_result(root, candidate)
    }
}

/// The folder a setting names, before it is checked.
pub fn configured_dir_path(root: &str, configured: Option<&str>, default_name: &str) -> (r: String)
    ensures
        r@ == configured_dir_spec(root@, match configured { Some(c) => Some(c@), None => None }, default_name@),
{
    let candidate = match configured {
        Some(c) => if !trim_str(c).as_str().is_empty() {
            string_of(&chars_of(c))
        } else {
            path_join(root, default_name)
        },
        None => path_join(root, default_name),
    };
    if path_is_absolute(candidate.as_str()) {
        candidate
    } else {
        path_join(root, candidate.as_str())
    }
}

/// A configured folder, checked: it must lie under the root (judged by the
/// nearest existing folder on its path), and, when it exists, it is taken in
/// canonical form and may not be the root itself.
pub fn resolve_configured_dir(
    root: &str,
    path: &str,
    canonical_existing: Option<String>,
    canonical_path: Option<String>,
) -> (r: Result<String, LibraryError>)
    ensures
        match canonical_existing {
            None => r == Err::<String, LibraryError>(LibraryError::DirMissing),
            Some(c) => if !starts_with_result(c@, root@) {
                r == Err::<String, LibraryError>(LibraryError::ConfiguredDirOutsideRoot)
            } else {
                match canonical_path {
                    Some(p) => if path_eq_result(p@, root@) {
                        r == Err::<String, LibraryError>(LibraryError::ConfiguredDirIsRoot)
                    } else {
                        r matches Ok(s) && s@ == p@
                    },
                    None => r matches Ok(s) && s@ == path@,
                }
            },
        },
{
    ensure_path_under_root(root, canonical_existing)?;
    match canonical_path {
        Some(p) => if path_eq(p.as_str(), root) {
            Err(LibraryError::ConfiguredDirIsRoot)
        } else {
            Ok(p)
        },
        None => Ok(string_of(&chars_of(path))),
    }
}

/// A path as Windows Explorer shows it: without the `\\?\` prefix of
/// extended-length paths (`\\?\UNC\` becomes `\\`).
pub open spec fn shell_display_spec(path: Seq<char>) -> Seq<char> {
    if starts_with(path, "\\\\?\\UNC\\"@) {
        "\\\\"@ + path.skip(8)
    } else if starts_with(path, "\\\\?\\"@) {
        path.skip(4)
    } else {
        path
    }
}

/// A path as Windows Explorer shows it.
pub fn shell_display_path(path: &str) -> (r: String)
    ensures
        r@ == shell_display_spec(path@),
{
    let chars = chars_of(path);
    proof {
        reveal_strlit("\\\\?\\UNC\\");
        reveal_strlit("\\\\?\\");
        reveal_strlit("\\\\");
    }
    if has_prefix(&chars, &chars_of("\\\\?\\UNC\\")) {
        let mut out = chars_of("\\\\");
        let rest = slice_chars(&chars, 8, chars.len());
        extend_chars(&mut out, &rest);
        string_of(&out)
    } else if has_prefix(&chars, &chars_of("\\\\?\\")) {
        string_of(&slice_chars(&chars, 4, chars.len()))
    } else {
        string_of(&chars)
    }
}

// ---------------------------------------------------------------------------
// Matching actor folders
// ---------------------------------------------------------------------------

/// A copy of a folder record.
pub fn copy_folder(folder: &DirectFolder) -> (r: DirectFolder)
    ensures
        r.deep_view() == folder.deep_view(),
{
    DirectFolder { name: folder.name.clone(), path: folder.path.clone(), modified_unix: folder.modified_unix }
}

/// Whether a folder is the actor's by name (ASCII case ignored).
pub open spec fn name_matches(folder: FolderView, actor_name: Seq<char>) -> bool {
    eq_ignore_case(folder.name, actor_name)
}

/// Whether a folder name and an actor name (trimmed, not empty) contain one
/// another.
pub open spec fn name_overlaps(folder: FolderView, needle: Seq<char>) -> bool {
    contains(folder.name, needle) || contains(needle, folder.name)
}

/// The position, from `i` on, of the first folder named as the actor.
pub open spec fn first_named(actors: Seq<FolderView>, actor_name: Seq<char>, i: int) -> Option<int>
    decreases actors.len() - i,
{
    if i < 0 || i >= actors.len() {
        None
    } else if name_matches(actors[i], actor_name) {
        Some(i)
    } else {
        first_named(actors, actor_name, i + 1)
    }
}

/// The position, from `i` on, of the first folder whose name overlaps the
/// trimmed actor name.
pub open spec fn first_overlapping(actors: Seq<FolderView>, needle: Seq<char>, i: int) -> Option<int>
    decreases actors.len() - i,
{
    if i < 0 || i >= actors.len() {
        None
    } else if name_overlaps(actors[i], needle) {
        Some(i)
    } else {
        first_overlapping(actors, needle, i + 1)
    }
}

/// The folder matched by the contains rule, by position: none for a blank
/// name.
pub open spec fn contains_match(actors: Seq<FolderView>, actor_name: Seq<char>) -> Option<int> {
    if trim_ws(actor_name).len() == 0 {
        None
    } else {
        first_overlapping(actors, trim_ws(actor_name), 0)
    }
}

/// The folder whose name is the actor's, ASCII case ignored: the first such.
pub fn match_actor_folder(actors: &Vec<DirectFolder>, actor_name: &str) -> (r: Option<DirectFolder>)
    ensures
        match first_named(actors.deep_view(), actor_name@, 0) {
            None => r is None,
            Some(i) => r matches Some(f) && f.deep_view() == actors.deep_view()[i],
        },
{
    let mut i: usize = 0;
    while i < actors.len()
        invariant
            i <= actors.len(),
            first_named(actors.deep_view(), actor_name@, 0) == first_named(actors.deep_view(), actor_name@, i as int),
        decreases actors.len() - i,
    {
        assert(actors.deep_view()[i as int] == actors[i as int].deep_view());
        if eq_ignore_ascii_case(actors[i].name.as_str(), actor_name) {
            return Some(copy_folder(&actors[i]));
        }
        i += 1;
    }
    None
}

/// The first folder whose name contains the actor name (trimmed) or is
/// contained in it; none for a blank name.
pub fn match_actor_folder_by_contains(actors: &Vec<DirectFolder>, actor_name: &str) -> (r: Option<DirectFolder>)
    ensures
        match contains_match(actors.deep_view(), actor_name@) {
            None => r is None,
            Some(i) => r matches Some(f) && f.deep_view() == actors.deep_view()[i],
        },
{
    let needle = trim_str(actor_name);
    if needle.as_str().is_empty() {
        return None;
    }
    let mut i: usize = 0;
    while i < actors.len()
        invariant
            i <= actors.len(),
            needle@ == trim_ws(actor_name@),
            needle@.len() > 0,
            first_overlapping(actors.deep_view(), needle@, 0) == first_overlapping(actors.deep_view(), needle@, i as int),
        decreases actors.len() - i,
    {
        assert(actors.deep_view()[i as int] == actors[i as int].deep_view());
        let name = actors[i].name.as_str();
        if str_contains(name, needle.as_str()) || str_contains(needle.as_str(), name) {
            return Some(copy_folder(&actors[i]));
        }
        i += 1;
    }
    None
}

// ---------------------------------------------------------------------------
// Operation results
// ---------------------------------------------------------------------------

/// One file operation as recorded.
pub struct OperationLog {
    pub id: i64,
    pub timestamp: String,
    pub action: String,
    pub source_path: String,
    pub target_path: String,
    pub status: String,
    pub message: String,
}

/// The outcome of a batch of file operations: how many succeeded, were
/// skipped or failed, and one log entry for each.
pub struct OperationResult {
    pub success: usize,
    pub skipped: usize,
    pub failed: usize,
    pub logs: Vec<OperationLog>,
}

impl OperationResult {
    /// An empty result.
    pub fn new() -> (r: OperationResult)
        ensures
            r.success == 0 && r.skipped == 0 && r.failed == 0 && r.logs.len() == 0,
    {
        OperationResult { success: 0, skipped: 0, failed: 0, logs: Vec::new() }
    }
}

/// Whether a failure is rather a skip: its message says that the target
/// exists, the item was not ready, a same-named file is in the way, it was
/// skipped, the folder is empty, or a download is unfinished.
pub open spec fn is_skip_message(message: Seq<char>) -> bool {
    ||| contains(message, "已存在"@)
    ||| contains(message, "状态不是 ready"@)
    ||| contains(message, "同名文件"@)
    ||| contains(message, "跳过"@)
    ||| contains(message, "空目录"@)
    ||| contains(message, "未完成"@)
}

/// How an outcome is recorded: `success`, `skipped` or `failed`.
pub open spec fn outcome_status(outcome: Result<Seq<char>, Seq<char>>) -> Seq<char> {
    match outcome {
        Ok(_) => "success"@,
        Err(message) => if is_skip_message(message) {
            "skipped"@
        } else {
            "failed"@
        },
    }
}

/// The message recorded for an outcome.
pub open spec fn outcome_message(outcome: Result<Seq<char>, Seq<char>>) -> Seq<char> {
    match outcome {
        Ok(message) => message,
        Err(message) => message,
    }
}

/// The outcome as text.
pub open spec fn outcome_view(outcome: Result<String, String>) -> Result<Seq<char>, Seq<char>> {
    match outcome {
        Ok(m) => Ok(m@),
        Err(m) => Err(m@),
    }
}

/// Records the outcome of one operation at the given time: the matching
/// counter goes up by one and a log entry is added.
pub fn push_outcome(
    result: &mut OperationResult,
    action: &str,
    source_path: &str,
    target_path: &str,
    outcome: Result<String, String>,
    timestamp: &str,
)
    requires
        old(result).success < usize::MAX,
        old(result).skipped < usize::MAX,
        old(result).failed < usize::MAX,
    ensures
        ({
            let status = outcome_status(outcome_view(outcome));
            &&& final(result).success == old(result).success + if status == "success"@ { 1int } else { 0int }
            &&& final(result).skipped == old(result).skipped + if status == "skipped"@ { 1int } else { 0int }
            &&& final(result).failed == old(result).failed + if status == "failed"@ { 1int } else { 0int }
        }),
        final(result).logs.len() == old(result).logs.len() + 1,
        forall|i: int| 0 <= i < old(result).logs.len() ==> #[trigger] final(result).logs@[i] == old(result).logs@[i],
        ({
            let log = final(result).logs@[old(result).logs.len() as int];
            &&& log.id == 0
            &&& log.timestamp@ == timestamp@
            &&& log.action@ == action@
            &&& log.source_path@ == source_path@
            &&& log.target_path@ == target_path@
            &&& log.status@ == outcome_status(outcome_view(outcome))
            &&& log.message@ == outcome_message(outcome_view(outcome))
        }),
{
    proof {
        reveal_strlit("success");
        reveal_strlit("skipped");
        reveal_strlit("failed");
    }
    let ghost view = outcome_view(outcome);
    let (status, message) = match outcome {
        Ok(message) => {
            result.success = result.success + 1;
            (String::from_str("success"), message)
        },
        Err(message) => {
            let m = message.as_str();
            let skip = str_contains(m, "已存在") || str_contains(m, "状态不是 ready") || str_contains(
                m,
                "同名文件",
            ) || str_contains(m, "跳过") || str_contains(m, "空目录") || str_contains(m, "未完成");
            if skip {
                result.skipped = result.skipped + 1;
                (String::from_str("skipped"), message)
            } else {
                result.failed = result.failed + 1;
                (String::from_str("failed"), message)
            }
        },
    };
    assert("success"@ != "skipped"@ && "success"@ != "failed"@ && "skipped"@ != "failed"@) by {
        assert("success"@[1] != "skipped"@[1]);
        assert("success"@[0] != "failed"@[0]);
        assert("skipped"@[0] != "failed"@[0]);
    }
    result.logs.push(
        OperationLog {
            id: 0,
            timestamp: string_of(&chars_of(timestamp)),
            action: string_of(&chars_of(action)),
            source_path: string_of(&chars_of(source_path)),
            target_path: string_of(&chars_of(target_path)),
            status,
            message,
        },
    );
}

/// Each operation of a batch is counted exactly once: when the counters add
/// up to the number of log entries before an outcome is recorded, they still
/// do after.
pub proof fn lemma_outcome_counts_match_logs(
    before_success: int,
    before_skipped: int,
    before_failed: int,
    before_logs: int,
    outcome: Result<Seq<char>, Seq<char>>,
)
    requires
        before_success + before_skipped + before_failed == before_logs,
    ensures
        ({
            let status = outcome_status(outcome);
            (before_success + if status == "success"@ { 1int } else { 0int })
                + (before_skipped + if status == "skipped"@ { 1int } else { 0int })
                + (before_failed + if status == "failed"@ { 1int } else { 0int }) == before_logs + 1
        }),
{
    reveal_strlit("success");
    reveal_strlit("skipped");
    reveal_strlit("failed");
    assert("success"@[1] != "skipped"@[1]);
    assert("success"@[0] != "failed"@[0]);
    assert("skipped"@[0] != "failed"@[0]);
}

/// How a suggestion's confidence sorts: `high` 3, `medium` 2, anything else 1.
pub open spec fn confidence_rank_spec(value: Seq<char>) -> u8 {
    if value == "high"@ {
        3
    } else if value == "medium"@ {
        2
    } else {
        1
    }
}

/// How a suggestion's confidence sorts.
pub fn confidence_rank(value: &str) -> (r: u8)
    ensures
        r == confidence_rank_spec(value@),
{
    if str_eq(value, "high") {
        3
    } else if str_eq(value, "medium") {
        2
    } else {
        1
    }
}

/// How a plan's status sorts: `ready` 3, `conflict` 2, `skipped` 1, anything
/// else 0.
pub open spec fn status_rank_spec(value: Seq<char>) -> u8 {
    if value == "ready"@ {
        3
    } else if value == "conflict"@ {
        2
    } else if value == "skipped"@ {
        1
    } else {
        0
    }
}

/// How a plan's status sorts.
pub fn status_rank(value: &str) -> (r: u8)
    ensures
        r == status_rank_spec(value@),
{
    if str_eq(value, "ready") {
        3
    } else if str_eq(value, "conflict") {
        2
    } else if str_eq(value, "skipped") {
        1
    } else {
        0
    }
}

} // verus!
