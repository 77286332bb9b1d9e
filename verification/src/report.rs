//! The scan report: the record of each file found, the cover name of a
//! video, and the lists the report shows (files at the root, the largest
//! files, move suggestions, rename previews, stale folders, actor folders).
use sha2::{Digest, Sha256};
use vstd::prelude::*;

use crate::codes::{
    dotted_extension, extension_of, extract_media_code, file_stem_of, file_stem_spec,
    is_video_ext, is_video_extension, media_code_spec, normalize_dash, normalize_dash_spec,
    CodeRegexes,
};
use crate::download::{
    lower_extension, lower_extension_of, opt_or, opt_or_empty, or_text, signed_decimal,
    signed_decimal_chars, unsigned_decimal, unsigned_decimal_chars,
};
use crate::fspath::{
    path_starts_with, starts_with_result, components_result, file_name_result, join_result, parent_result, path_components, path_eq,
    path_eq_result, path_file_name, path_join, path_parent, path_strip_prefix, strip_prefix_result,
};
use crate::codes::{is_system_folder, is_system_folder_name};
use crate::library::{
    confidence_rank, confidence_rank_spec, copy_file, copy_folder, status_rank, status_rank_spec,
    top_level_folder_key, top_level_folder_name, top_level_key_spec, top_level_name_spec,
    DirectFolder, FileView, FolderView, LibraryFile,
};
use crate::order::{
    is_permutation, is_sorted_order, lemma_is_the_sorted_order, lemma_sorted_reorder_keeps, reorder, sorted_order,
    the_sorted_order, uniform_keys, KeyView, SortKey,
};
use crate::patterns::{captures_result, find_all_result, regex_find_all};
use crate::session::{hex_fixed, lower_hex_digit};
use crate::text::{
    ascii_upper, to_ascii_uppercase, ascii_lower, chars_of, eq_ignore_ascii_case, eq_ignore_case, extend_chars, last_index,
    rfind_char, slice_chars, str_eq, string_of, to_ascii_lowercase, to_uppercase, unicode_upper,
};

verus! {

broadcast use vstd::string::group_string_axioms;

// ---------------------------------------------------------------------------
// Cover images
// ---------------------------------------------------------------------------

/// What `sha2::Sha256::digest` returns for a byte string.
pub uninterp spec fn sha256_result(data: Seq<u8>) -> Seq<u8>;

/// `sha2::Digest::digest` for SHA-256. Claims that the result is
/// `sha256_result` of the data and, as the crate's output size says, 32
/// bytes long.
#[verifier::external_body]
fn sha256_digest(data: &[u8]) -> (r: Vec<u8>)
    ensures
        r@ == sha256_result(data@),
        r.len() == 32,
{
    Sha256::digest(data).to_vec()
}

/// Bytes as lower-case hexadecimal, two digits each.
pub open spec fn hex_bytes(bytes: Seq<u8>) -> Seq<char>
    decreases bytes.len(),
{
    if bytes.len() == 0 {
        Seq::empty()
    } else {
        hex_bytes(bytes.drop_last()) + hex_fixed(bytes.last() as nat, 2)
    }
}

fn hex_bytes_chars(bytes: &Vec<u8>) -> (r: Vec<char>)
    ensures
        r@ == hex_bytes(bytes@),
{
    let mut out: Vec<char> = Vec::new();
    let mut i: usize = 0;
    while i < bytes.len()
        invariant
            i <= bytes.len(),
            out@ == hex_bytes(bytes@.take(i as int)),
        decreases bytes.len() - i,
    {
        let b = bytes[i];
        let hi = crate::url::ascii_char(if b / 16 < 10 { 48 + b / 16 } else { 87 + b / 16 });
        let lo = crate::url::ascii_char(if b % 16 < 10 { 48 + b % 16 } else { 87 + b % 16 });
        let ghost before = out@;
        out.push(hi);
        out.push(lo);
        proof {
            let t = bytes@.take(i + 1);
            assert(t.drop_last() == bytes@.take(i as int));
            assert(t.last() == b);
            assert(hex_fixed(b as nat, 2) == hex_fixed((b / 16) as nat, 1).push(lower_hex_digit((b % 16) as nat)));
            assert(hex_fixed((b / 16) as nat, 1) == hex_fixed(((b / 16) / 16) as nat, 0).push(lower_hex_digit(((b / 16) % 16) as nat)));
            assert((b / 16) % 16 == b / 16);
            assert(out@ =~= before + hex_fixed(b as nat, 2));
        }
        i += 1;
    }
    assert(bytes@.take(bytes.len() as int) == bytes@);
    out
}

/// What a video's cover name is derived from: the lower-case path, the file
/// size, the modification time and the capture position (as text), joined by
/// `|`.
pub open spec fn cover_hash_input(path: Seq<char>, size: u64, modified_unix: i64, percent_text: Seq<char>) -> Seq<char> {
    ascii_lower(path) + "|"@ + unsigned_decimal(size as nat) + "|"@ + signed_decimal(modified_unix as int) + "|"@ + percent_text
}

/// Where a video's cover is kept: the SHA-256 of its description in
/// hexadecimal, `.jpg`, in the cover folder. A cover is made again when the
/// video or the capture position changes.
pub open spec fn cover_path_spec(
    cover_dir: Seq<char>,
    path: Seq<char>,
    size: u64,
    modified_unix: i64,
    percent_text: Seq<char>,
) -> Seq<char> {
    join_result(
        cover_dir,
        hex_bytes(sha256_result(vstd::utf8::encode_utf8(cover_hash_input(path, size, modified_unix, percent_text))))
            + ".jpg"@,
    )
}

/// A cover belongs to the video, not to how its path is spelled: paths that
/// differ only in ASCII case share a cover, and the same video at the same
/// capture position always gets the same cover.
pub proof fn lemma_cover_path_ignores_case(
    cover_dir: Seq<char>,
    p1: Seq<char>,
    p2: Seq<char>,
    size: u64,
    modified_unix: i64,
    percent_text: Seq<char>,
)
    requires
        ascii_lower(p1) == ascii_lower(p2),
    ensures
        cover_path_spec(cover_dir, p1, size, modified_unix, percent_text) == cover_path_spec(
            cover_dir,
            p2,
            size,
            modified_unix,
            percent_text,
        ),
{
}

/// Where a video's cover is kept.
pub fn cover_path_for_video(
    video_path: &str,
    size: u64,
    modified_unix: i64,
    percent_text: &str,
    cover_dir: &str,
) -> (r: String)
    ensures
        r@ == cover_path_spec(cover_dir@, video_path@, size, modified_unix, percent_text@),
{
    proof {
        reveal_strlit("|");
        reveal_strlit(".jpg");
    }
    let mut input = chars_of(to_ascii_lowercase(video_path).as_str());
    input.push('|');
    extend_chars(&mut input, &unsigned_decimal_chars(size));
    input.push('|');
    extend_chars(&mut input, &signed_decimal_chars(modified_unix));
    input.push('|');
    extend_chars(&mut input, &chars_of(percent_text));
    let text = string_of(&input);
    assert(text@ =~= cover_hash_input(video_path@, size, modified_unix, percent_text@));
    let digest = sha256_digest(text.as_str().as_bytes());
    let mut name = hex_bytes_chars(&digest);
    extend_chars(&mut name, &chars_of(".jpg"));
    path_join(cover_dir, string_of(&name).as_str())
}

// ---------------------------------------------------------------------------
// File records
// ---------------------------------------------------------------------------

/// How deep under the root a file lies: the number of folders between them
/// (0 for a file directly under the root or outside it).
pub open spec fn depth_spec(root: Seq<char>, path: Seq<char>) -> nat {
    match strip_prefix_result(path, root) {
        Some(rel) => if components_result(rel).len() >= 1 {
            (components_result(rel).len() - 1) as nat
        } else {
            0
        },
        None => 0,
    }
}

/// The record of a file found under the root, given its size, modification
/// time (as number and as shown), id and would-be cover path: the lower-case
/// extension, the name, the name of its folder (`sakana` for none), its
/// depth, its code and cover when it is a video, and whether it lies directly
/// under the root.
pub open spec fn library_file_spec(
    root: Seq<char>,
    path: Seq<char>,
    id: i64,
    size: u64,
    modified_unix: i64,
    modified: Seq<char>,
    cover_path: Seq<char>,
    regexes_fc2: Seq<char>,
    regexes_catalog: Seq<char>,
) -> FileView {
    let extension = lower_extension(path);
    let name = or_text(file_name_result(path), Seq::empty());
    let parent_path = or_text(parent_result(path), root);
    let is_video = is_video_ext(extension);
    FileView {
        id,
        name,
        path,
        parent: or_text(file_name_result(parent_path), "sakana"@),
        extension,
        size_bytes: if size > i64::MAX as u64 { i64::MAX } else { size as i64 },
        modified,
        modified_unix,
        depth: depth_spec(root, path) as usize,
        media_code: if is_video {
            media_code_spec(captures_result(regexes_fc2, name), captures_result(regexes_catalog, name))
        } else {
            None
        },
        cover_path: if is_video {
            Some(cover_path)
        } else {
            None
        },
        is_root_file: path_eq_result(parent_path, root),
    }
}

/// The record of a file found under the root.
pub fn library_file_from_path(
    root: &str,
    path: &str,
    id: i64,
    size: u64,
    modified_unix: i64,
    modified: &str,
    cover_path: &str,
    regexes: &CodeRegexes,
) -> (r: LibraryFile)
    requires
        depth_spec(root@, path@) <= usize::MAX,
    ensures
        r.deep_view() == library_file_spec(
            root@,
            path@,
            id,
            size,
            modified_unix,
            modified@,
            cover_path@,
            regexes.fc2@,
            regexes.catalog@,
        ),
{
    let extension = lower_extension_of(path);
    let name = opt_or_empty(path_file_name(path));
    let parent_path = opt_or(path_parent(path), root);
    let parent = opt_or(path_file_name(parent_path.as_str()), "sakana");
    let depth: usize = match path_strip_prefix(path, root) {
        Some(rel) => {
            let parts = path_components(rel.as_str());
            if parts.len() >= 1 {
                parts.len() - 1
            } else {
                0
            }
        },
        None => 0,
    };
    let size_bytes: i64 = if size > 9223372036854775807u64 {
        9223372036854775807i64
    } else {
        size as i64
    };
    let is_video = is_video_extension(extension.as_str());
    let media_code = if is_video {
        extract_media_code(name.as_str(), regexes)
    } else {
        None
    };
    let cover = if is_video {
        Some(string_of(&chars_of(cover_path)))
    } else {
        None
    };
    let is_root_file = path_eq(parent_path.as_str(), root);
    LibraryFile {
        id,
        name,
        path: string_of(&chars_of(path)),
        parent,
        extension,
        size_bytes,
        modified: string_of(&chars_of(modified)),
        modified_unix,
        depth,
        media_code,
        cover_path: cover,
        is_root_file,
    }
}

/// The name of the duplicate-check note kept at the root, which is no
/// library file.
pub const DUPLICATE_NOTE: &'static str = "查重.txt";

/// The files directly under the root, without the duplicate-check note.
pub open spec fn root_files_spec(files: Seq<FileView>) -> Seq<FileView>
    decreases files.len(),
{
    if files.len() == 0 {
        Seq::empty()
    } else {
        let before = root_files_spec(files.drop_last());
        let f = files.last();
        if f.is_root_file && f.name != DUPLICATE_NOTE@ {
            before.push(f)
        } else {
            before
        }
    }
}

/// The files directly under the root, without the duplicate-check note.
pub fn root_files(files: &Vec<LibraryFile>) -> (r: Vec<LibraryFile>)
    ensures
        r.deep_view() == root_files_spec(files.deep_view()),
{
    let ghost fv = files.deep_view();
    let mut out: Vec<LibraryFile> = Vec::new();
    let mut i: usize = 0;
    while i < files.len()
        invariant
            i <= files.len(),
            fv == files.deep_view(),
            out.deep_view() == root_files_spec(fv.take(i as int)),
        decreases files.len() - i,
    {
        proof {
            let t = fv.take(i + 1);
            assert(t.drop_last() == fv.take(i as int));
            assert(t.last() == files[i as int].deep_view());
        }
        if files[i].is_root_file && !str_eq(files[i].name.as_str(), DUPLICATE_NOTE) {
            let ghost before = out.deep_view();
            out.push(copy_file(&files[i]));
            assert(out.deep_view() =~= before.push(files[i as int].deep_view()));
        }
        i += 1;
    }
    assert(fv.take(files.len() as int) == fv);
    out
}

// ---------------------------------------------------------------------------
// Picking and ordering files
// ---------------------------------------------------------------------------

/// The files at the given positions, in that order.
pub fn pick_files(files: &Vec<LibraryFile>, order: &Vec<usize>) -> (r: Vec<LibraryFile>)
    requires
        forall|k: int| 0 <= k < order.len() ==> #[trigger] order@[k] < files.len(),
    ensures
        r.deep_view() == reorder(files.deep_view(), order@),
        r.len() == order.len(),
{
    let mut out: Vec<LibraryFile> = Vec::new();
    let mut k: usize = 0;
    while k < order.len()
        invariant
            k <= order.len(),
            out.len() == k,
            forall|m: int| 0 <= m < order.len() ==> #[trigger] order@[m] < files.len(),
            out.deep_view() == reorder(files.deep_view(), order@.take(k as int)),
        decreases order.len() - k,
    {
        let ghost before = out.deep_view();
        out.push(copy_file(&files[order[k]]));
        proof {
            assert(out.deep_view() =~= before.push(files.deep_view()[order@[k as int] as int]));
            assert(reorder(files.deep_view(), order@.take(k + 1)) =~= reorder(files.deep_view(), order@.take(k as int)).push(
                files.deep_view()[order@[k as int] as int],
            ));
        }
        k += 1;
    }
    assert(order@.take(order.len() as int) =~= order@);
    out
}

/// Sort keys that put larger numbers first and ignore the text.
pub open spec fn number_keys(values: Seq<i64>) -> Seq<KeyView> {
    values.map_values(|v: i64| KeyView { first: v, second: 0, text: Seq::empty(), text2: Seq::empty(), text_desc: false })
}

fn number_sort_keys(values: &Vec<i64>) -> (r: Vec<SortKey>)
    ensures
        r.deep_view() == number_keys(values@),
        uniform_keys(r.deep_view()),
{
    let mut out: Vec<SortKey> = Vec::new();
    let mut i: usize = 0;
    while i < values.len()
        invariant
            i <= values.len(),
            out.deep_view() == number_keys(values@.take(i as int)),
        decreases values.len() - i,
    {
        let ghost before = out.deep_view();
        out.push(SortKey { first: values[i], second: 0, text: Vec::new(), text2: Vec::new(), text_desc: false });
        proof {
            assert(out.deep_view() =~= before.push(
                KeyView { first: values@[i as int], second: 0, text: Seq::empty(), text2: Seq::empty(), text_desc: false },
            ));
            assert(number_keys(values@.take(i + 1)) =~= number_keys(values@.take(i as int)).push(
                KeyView { first: values@[i as int], second: 0, text: Seq::empty(), text2: Seq::empty(), text_desc: false },
            ));
        }
        i += 1;
    }
    assert(values@.take(values.len() as int) =~= values@);
    out
}

/// The sizes of the files.
pub open spec fn sizes(files: Seq<FileView>) -> Seq<i64> {
    files.map_values(|f: FileView| f.size_bytes)
}

/// The modification times of the files.
pub open spec fn modified_times(files: Seq<FileView>) -> Seq<i64> {
    files.map_values(|f: FileView| f.modified_unix)
}

fn file_sizes(files: &Vec<LibraryFile>) -> (r: Vec<i64>)
    ensures
        r@ == sizes(files.deep_view()),
{
    let mut out: Vec<i64> = Vec::new();
    let mut i: usize = 0;
    while i < files.len()
        invariant
            i <= files.len(),
            out@ == sizes(files.deep_view().take(i as int)),
        decreases files.len() - i,
    {
        out.push(files[i].size_bytes);
        assert(sizes(files.deep_view().take(i + 1)) =~= sizes(files.deep_view().take(i as int)).push(files[i as int].size_bytes));
        i += 1;
    }
    assert(files.deep_view().take(files.len() as int) =~= files.deep_view());
    out
}

fn file_times(files: &Vec<LibraryFile>) -> (r: Vec<i64>)
    ensures
        r@ == modified_times(files.deep_view()),
{
    let mut out: Vec<i64> = Vec::new();
    let mut i: usize = 0;
    while i < files.len()
        invariant
            i <= files.len(),
            out@ == modified_times(files.deep_view().take(i as int)),
        decreases files.len() - i,
    {
        out.push(files[i].modified_unix);
        assert(modified_times(files.deep_view().take(i + 1)) =~= modified_times(files.deep_view().take(i as int)).push(files[i as int].modified_unix));
        i += 1;
    }
    assert(files.deep_view().take(files.len() as int) =~= files.deep_view());
    out
}

/// The files, largest first (ties in list order).
pub fn sort_by_size_desc(files: &Vec<LibraryFile>) -> (r: Vec<LibraryFile>)
    ensures
        r.deep_view() == reorder(files.deep_view(), the_sorted_order(number_keys(sizes(files.deep_view())))),
        r.len() == files.len(),
        forall|k: int| 0 <= k < r.len() ==> files.deep_view().contains(#[trigger] r.deep_view()[k]),
{
    let keys = number_sort_keys(&file_sizes(files));
    let order = sorted_order(&keys);
    proof {
        assert(keys.deep_view().len() == keys.len());
        assert(files.deep_view().len() == files.len());
        assert forall|k: int| 0 <= k < order.len() implies #[trigger] order@[k] < files.len() by {}
        assert(is_sorted_order(number_keys(sizes(files.deep_view())), order@));
        lemma_is_the_sorted_order(number_keys(sizes(files.deep_view())), order@);
    }
    let r = pick_files(files, &order);
    proof {
        assert forall|k: int| 0 <= k < r.len() implies files.deep_view().contains(#[trigger] r.deep_view()[k]) by {
            assert(r.deep_view()[k] == files.deep_view()[order@[k] as int]);
        }
    }
    r
}

/// The files, latest first (ties in list order).
pub fn sort_by_modified_desc(files: &Vec<LibraryFile>) -> (r: Vec<LibraryFile>)
    ensures
        r.deep_view() == reorder(files.deep_view(), the_sorted_order(number_keys(modified_times(files.deep_view())))),
        r.len() == files.len(),
{
    let keys = number_sort_keys(&file_times(files));
    let order = sorted_order(&keys);
    proof {
        assert(keys.deep_view().len() == keys.len());
        assert(files.deep_view().len() == files.len());
        assert forall|k: int| 0 <= k < order.len() implies #[trigger] order@[k] < files.len() by {}
        assert(is_sorted_order(number_keys(modified_times(files.deep_view())), order@));
        lemma_is_the_sorted_order(number_keys(modified_times(files.deep_view())), order@);
    }
    pick_files(files, &order)
}

// ---------------------------------------------------------------------------
// Largest files
// ---------------------------------------------------------------------------

/// The videos directly inside top-level folders.
pub open spec fn direct_videos(files: Seq<FileView>) -> Seq<FileView>
    decreases files.len(),
{
    if files.len() == 0 {
        Seq::empty()
    } else {
        let before = direct_videos(files.drop_last());
        let f = files.last();
        if f.depth == 1 && is_video_ext(f.extension) {
            before.push(f)
        } else {
            before
        }
    }
}

fn direct_video_files(files: &Vec<LibraryFile>) -> (r: Vec<LibraryFile>)
    ensures
        r.deep_view() == direct_videos(files.deep_view()),
{
    let ghost fv = files.deep_view();
    let mut out: Vec<LibraryFile> = Vec::new();
    let mut i: usize = 0;
    while i < files.len()
        invariant
            i <= files.len(),
            fv == files.deep_view(),
            out.deep_view() == direct_videos(fv.take(i as int)),
        decreases files.len() - i,
    {
        proof {
            let t = fv.take(i + 1);
            assert(t.drop_last() == fv.take(i as int));
            assert(t.last() == files[i as int].deep_view());
        }
        if files[i].depth == 1 && is_video_extension(files[i].extension.as_str()) {
            let ghost before = out.deep_view();
            out.push(copy_file(&files[i]));
            assert(out.deep_view() =~= before.push(files[i as int].deep_view()));
        }
        i += 1;
    }
    assert(fv.take(files.len() as int) == fv);
    out
}

/// A file of the largest-files list with its place (from 1).
pub struct LargestFile {
    pub rank: usize,
    pub file: LibraryFile,
}

/// The largest videos directly inside top-level folders, at most `limit`,
/// largest first, each with its place.
pub fn largest_direct_files(files: &Vec<LibraryFile>, limit: usize) -> (r: Vec<LargestFile>)
    ensures
        ({
            let direct = direct_videos(files.deep_view());
            let sorted = reorder(direct, the_sorted_order(number_keys(sizes(direct))));
            &&& r.len() == if limit < sorted.len() { limit as int } else { sorted.len() as int }
            &&& forall|k: int| 0 <= k < r.len() ==> (#[trigger] r@[k]).rank == k + 1 && r@[k].file.deep_view() == sorted[k]
        }),
{
    let direct = direct_video_files(files);
    let sorted = sort_by_size_desc(&direct);
    let mut out: Vec<LargestFile> = Vec::new();
    let mut k: usize = 0;
    while k < sorted.len() && k < limit
        invariant
            k <= sorted.len(),
            k <= limit,
            out.len() == k,
            forall|m: int| 0 <= m < k ==> (#[trigger] out@[m]).rank == m + 1 && out@[m].file.deep_view() == sorted.deep_view()[m],
        decreases sorted.len() - k,
    {
        out.push(LargestFile { rank: k + 1, file: copy_file(&sorted[k]) });
        k += 1;
    }
    out
}

// ---------------------------------------------------------------------------
// Move suggestions for files at the root
// ---------------------------------------------------------------------------

/// The files in folders that carry the code.
pub open spec fn coded_files(files: Seq<FileView>, code: Seq<char>) -> Seq<FileView>
    decreases files.len(),
{
    if files.len() == 0 {
        Seq::empty()
    } else {
        let before = coded_files(files.drop_last(), code);
        let f = files.last();
        if !f.is_root_file && f.media_code == Some(code) {
            before.push(f)
        } else {
            before
        }
    }
}

/// How many of the files lie in a folder of the name.
pub open spec fn folder_count(files: Seq<FileView>, folder: Seq<char>) -> nat
    decreases files.len(),
{
    if files.len() == 0 {
        0
    } else {
        folder_count(files.drop_last(), folder) + if files.last().parent == folder { 1nat } else { 0nat }
    }
}

/// Of the files from position `i` on, the position of the first whose folder
/// holds more of them than the folder of `best`, scanning in order.
pub open spec fn best_folder_from(files: Seq<FileView>, i: int, best: int) -> int
    decreases files.len() - i,
{
    if i < 0 || i >= files.len() {
        best
    } else if folder_count(files, files[i].parent) > folder_count(files, files[best].parent) {
        best_folder_from(files, i + 1, i)
    } else {
        best_folder_from(files, i + 1, best)
    }
}

/// A suggestion to move a file at the root into a folder.
pub struct MoveSuggestion {
    pub file: LibraryFile,
    pub target_folder: String,
    pub reason: String,
    pub confidence: String,
}

/// A suggestion as text.
pub struct SuggestionView {
    pub file: FileView,
    pub target_folder: Seq<char>,
    pub reason: Seq<char>,
    pub confidence: Seq<char>,
}

impl DeepView for MoveSuggestion {
    type V = SuggestionView;

    open spec fn deep_view(&self) -> SuggestionView {
        SuggestionView {
            file: self.file.deep_view(),
            target_folder: self.target_folder@,
            reason: self.reason@,
            confidence: self.confidence@,
        }
    }
}

/// The suggestion for one file at the root: the folder holding most files
/// with its code (the first such folder in the scan when several hold as
/// many) with high confidence; review with medium confidence when no folder
/// has the code; review with low confidence when it has no code.
pub open spec fn suggestion_spec(file: FileView, all_files: Seq<FileView>) -> SuggestionView {
    match file.media_code {
        None => SuggestionView {
            file,
            target_folder: "_review"@,
            reason: "没有识别到稳定番号，建议人工确认"@,
            confidence: "low"@,
        },
        Some(code) => {
            let coded = coded_files(all_files, code);
            if coded.len() > 0 {
                SuggestionView {
                    file,
                    target_folder: coded[best_folder_from(coded, 0, 0)].parent,
                    reason: "库内已存在同番号 "@ + code,
                    confidence: "high"@,
                }
            } else {
                SuggestionView {
                    file,
                    target_folder: "_review"@,
                    reason: "识别到番号 "@ + code + "，但没有匹配到已有目录"@,
                    confidence: "medium"@,
                }
            }
        },
    }
}

/// How many files outside the root carry the code and lie in the folder.
pub open spec fn code_count_in(files: Seq<FileView>, code: Seq<char>, folder: Seq<char>) -> nat
    decreases files.len(),
{
    if files.len() == 0 {
        0
    } else {
        let f = files.last();
        code_count_in(files.drop_last(), code, folder)
            + if !f.is_root_file && f.media_code == Some(code) && f.parent == folder { 1nat } else { 0nat }
    }
}

proof fn lemma_coded_folder_count(files: Seq<FileView>, code: Seq<char>, folder: Seq<char>)
    ensures
        folder_count(coded_files(files, code), folder) == code_count_in(files, code, folder),
    decreases files.len(),
{
    if files.len() > 0 {
        lemma_coded_folder_count(files.drop_last(), code, folder);
        let before = coded_files(files.drop_last(), code);
        let f = files.last();
        if !f.is_root_file && f.media_code == Some(code) {
            assert(before.push(f).drop_last() =~= before);
        }
    }
}

proof fn lemma_folder_count_member(s: Seq<FileView>, folder: Seq<char>)
    requires
        folder_count(s, folder) > 0,
    ensures
        exists|j: int| 0 <= j < s.len() && s[j].parent == folder,
    decreases s.len(),
{
    if s.last().parent != folder {
        lemma_folder_count_member(s.drop_last(), folder);
        let j = choose|j: int| 0 <= j < s.drop_last().len() && s.drop_last()[j].parent == folder;
        assert(s[j] == s.drop_last()[j]);
    }
}

proof fn lemma_folder_count_of_member(s: Seq<FileView>, j: int)
    requires
        0 <= j < s.len(),
    ensures
        folder_count(s, s[j].parent) >= 1,
    decreases s.len(),
{
    if j < s.len() - 1 {
        lemma_folder_count_of_member(s.drop_last(), j);
        assert(s.drop_last()[j] == s[j]);
    }
}

proof fn lemma_best_folder_max(files: Seq<FileView>, i: int, best: int)
    requires
        0 <= best < files.len(),
        0 <= i,
    ensures
        0 <= best_folder_from(files, i, best) < files.len(),
        forall|j: int| i <= j < files.len() ==> folder_count(files, #[trigger] files[j].parent)
            <= folder_count(files, files[best_folder_from(files, i, best)].parent),
        folder_count(files, files[best].parent) <= folder_count(files, files[best_folder_from(files, i, best)].parent),
    decreases files.len() - i,
{
    if i < files.len() {
        if folder_count(files, files[i].parent) > folder_count(files, files[best].parent) {
            lemma_best_folder_max(files, i + 1, i);
        } else {
            lemma_best_folder_max(files, i + 1, best);
        }
    }
}

/// A file at the root with a code is suggested for the folder that holds
/// the most files with that code (no folder holds more), with high
/// confidence, whenever some folder holds such a file; for review with
/// medium confidence when none does.
pub proof fn lemma_suggestion_follows_most_files(file: FileView, all_files: Seq<FileView>, code: Seq<char>)
    requires
        file.media_code == Some(code),
    ensures
        ({
            let s = suggestion_spec(file, all_files);
            &&& s.file == file
            &&& (exists|folder: Seq<char>| code_count_in(all_files, code, folder) > 0) ==> {
                &&& s.confidence == "high"@
                &&& code_count_in(all_files, code, s.target_folder) > 0
                &&& forall|folder: Seq<char>| #[trigger] code_count_in(all_files, code, folder)
                    <= code_count_in(all_files, code, s.target_folder)
            }
            &&& !(exists|folder: Seq<char>| code_count_in(all_files, code, folder) > 0) ==> {
                &&& s.confidence == "medium"@
                &&& s.target_folder == "_review"@
            }
        }),
{
    let coded = coded_files(all_files, code);
    let s = suggestion_spec(file, all_files);
    if exists|folder: Seq<char>| code_count_in(all_files, code, folder) > 0 {
        let w = choose|folder: Seq<char>| code_count_in(all_files, code, folder) > 0;
        lemma_coded_folder_count(all_files, code, w);
        if coded.len() == 0 {
            assert(folder_count(coded, w) == 0);
        }
        lemma_best_folder_max(coded, 0, 0);
        let r = best_folder_from(coded, 0, 0);
        let target = coded[r].parent;
        assert(s.target_folder == target);
        lemma_folder_count_of_member(coded, r);
        lemma_coded_folder_count(all_files, code, target);
        assert forall|folder: Seq<char>| #[trigger] code_count_in(all_files, code, folder)
            <= code_count_in(all_files, code, target) by {
            lemma_coded_folder_count(all_files, code, folder);
            if folder_count(coded, folder) > 0 {
                lemma_folder_count_member(coded, folder);
                let j = choose|j: int| 0 <= j < coded.len() && coded[j].parent == folder;
                assert(folder_count(coded, coded[j].parent) <= folder_count(coded, target));
            }
        }
    } else {
        if coded.len() > 0 {
            lemma_folder_count_of_member(coded, 0);
            lemma_coded_folder_count(all_files, code, coded[0].parent);
        }
    }
}

/// The suggestions list one suggestion for each file at the root, and the
/// suggestion of every such file is among them.
pub proof fn lemma_suggestions_cover_root_files(root_files: Seq<FileView>, all_files: Seq<FileView>, i: int)
    requires
        root_files.len() <= usize::MAX,
        0 <= i < root_files.len(),
    ensures
        ({
            let u = suggestions_spec(root_files, all_files);
            let r = reorder(u, the_sorted_order(suggestion_keys(u)));
            &&& r.len() == root_files.len()
            &&& r.contains(suggestion_spec(root_files[i], all_files))
        }),
{
    let u = suggestions_spec(root_files, all_files);
    let keys = suggestion_keys(u);
    assert(uniform_keys(keys));
    lemma_sorted_reorder_keeps(u, keys, i);
}

fn coded_files_of(files: &Vec<LibraryFile>, code: &str) -> (r: Vec<LibraryFile>)
    ensures
        r.deep_view() == coded_files(files.deep_view(), code@),
{
    let ghost fv = files.deep_view();
    let mut out: Vec<LibraryFile> = Vec::new();
    let mut i: usize = 0;
    while i < files.len()
        invariant
            i <= files.len(),
            fv == files.deep_view(),
            out.deep_view() == coded_files(fv.take(i as int), code@),
        decreases files.len() - i,
    {
        proof {
            let t = fv.take(i + 1);
            assert(t.drop_last() == fv.take(i as int));
            assert(t.last() == files[i as int].deep_view());
        }
        let matches = match &files[i].media_code {
            Some(c) => str_eq(c.as_str(), code),
            None => false,
        };
        if !files[i].is_root_file && matches {
            let ghost before = out.deep_view();
            out.push(copy_file(&files[i]));
            assert(out.deep_view() =~= before.push(files[i as int].deep_view()));
        }
        i += 1;
    }
    assert(fv.take(files.len() as int) == fv);
    out
}

fn count_in_folder(files: &Vec<LibraryFile>, folder: &str) -> (r: usize)
    ensures
        r == folder_count(files.deep_view(), folder@),
{
    let ghost fv = files.deep_view();
    let mut count: usize = 0;
    let mut i: usize = 0;
    while i < files.len()
        invariant
            i <= files.len(),
            fv == files.deep_view(),
            count == folder_count(fv.take(i as int), folder@),
            count <= i,
        decreases files.len() - i,
    {
        proof {
            let t = fv.take(i + 1);
            assert(t.drop_last() == fv.take(i as int));
            assert(t.last() == files[i as int].deep_view());
        }
        if str_eq(files[i].parent.as_str(), folder) {
            count += 1;
        }
        i += 1;
    }
    assert(fv.take(files.len() as int) == fv);
    count
}

fn best_folder_index(files: &Vec<LibraryFile>) -> (r: usize)
    requires
        files.len() > 0,
    ensures
        r < files.len(),
        r as int == best_folder_from(files.deep_view(), 0, 0),
{
    let ghost fv = files.deep_view();
    let mut best: usize = 0;
    let mut best_count = count_in_folder(files, files[0].parent.as_str());
    let mut i: usize = 0;
    while i < files.len()
        invariant
            i <= files.len(),
            best < files.len(),
            fv == files.deep_view(),
            best_count == folder_count(fv, fv[best as int].parent),
            best_folder_from(fv, 0, 0) == best_folder_from(fv, i as int, best as int),
        decreases files.len() - i,
    {
        let c = count_in_folder(files, files[i].parent.as_str());
        if c > best_count {
            best = i;
            best_count = c;
        }
        i += 1;
    }
    best
}

fn suggestion_for(file: &LibraryFile, all_files: &Vec<LibraryFile>) -> (r: MoveSuggestion)
    ensures
        r.deep_view() == suggestion_spec(file.deep_view(), all_files.deep_view()),
{
    proof {
        reveal_strlit("库内已存在同番号 ");
        reveal_strlit("识别到番号 ");
        reveal_strlit("，但没有匹配到已有目录");
    }
    match &file.media_code {
        None => MoveSuggestion {
            file: copy_file(file),
            target_folder: String::from_str("_review"),
            reason: String::from_str("没有识别到稳定番号，建议人工确认"),
            confidence: String::from_str("low"),
        },
        Some(code) => {
            let coded = coded_files_of(all_files, code.as_str());
            if coded.len() > 0 {
                let best = best_folder_index(&coded);
                let mut reason = chars_of("库内已存在同番号 ");
                extend_chars(&mut reason, &chars_of(code.as_str()));
                MoveSuggestion {
                    file: copy_file(file),
                    target_folder: string_of(&chars_of(coded[best].parent.as_str())),
                    reason: string_of(&reason),
                    confidence: String::from_str("high"),
                }
            } else {
                let mut reason = chars_of("识别到番号 ");
                extend_chars(&mut reason, &chars_of(code.as_str()));
                extend_chars(&mut reason, &chars_of("，但没有匹配到已有目录"));
                MoveSuggestion {
                    file: copy_file(file),
                    target_folder: String::from_str("_review"),
                    reason: string_of(&reason),
                    confidence: String::from_str("medium"),
                }
            }
        },
    }
}

/// Sort keys of suggestions: confidence first, then the file name ascending.
pub open spec fn suggestion_keys(suggestions: Seq<SuggestionView>) -> Seq<KeyView> {
    suggestions.map_values(
        |s: SuggestionView| KeyView { first: confidence_rank_spec(s.confidence) as i64, second: 0, text: s.file.name, text2: Seq::empty(), text_desc: false },
    )
}

/// The suggestion for each file at the root, in the order of the files.
pub open spec fn suggestions_spec(root_files: Seq<FileView>, all_files: Seq<FileView>) -> Seq<SuggestionView> {
    root_files.map_values(|f: FileView| suggestion_spec(f, all_files))
}

/// Suggestions for the files at the root, most confident first, then by
/// file name.
pub fn build_move_suggestions(root_files: &Vec<LibraryFile>, all_files: &Vec<LibraryFile>) -> (r: Vec<MoveSuggestion>)
    ensures
        r.deep_view() == reorder(suggestions_spec(root_files.deep_view(), all_files.deep_view()), the_sorted_order(suggestion_keys(suggestions_spec(root_files.deep_view(), all_files.deep_view())))),
{
    let ghost unsorted_v = suggestions_spec(root_files.deep_view(), all_files.deep_view());
    let mut unsorted: Vec<MoveSuggestion> = Vec::new();
    let mut keys: Vec<SortKey> = Vec::new();
    let mut i: usize = 0;
    while i < root_files.len()
        invariant
            i <= root_files.len(),
            unsorted_v == suggestions_spec(root_files.deep_view(), all_files.deep_view()),
            unsorted.deep_view() == unsorted_v.take(i as int),
            keys.deep_view() == suggestion_keys(unsorted_v.take(i as int)),
            uniform_keys(keys.deep_view()),
        decreases root_files.len() - i,
    {
        let s = suggestion_for(&root_files[i], all_files);
        let rank = confidence_rank(s.confidence.as_str());
        let ghost before_u = unsorted.deep_view();
        let ghost before_k = keys.deep_view();
        keys.push(SortKey { first: rank as i64, second: 0, text: chars_of(s.file.name.as_str()), text2: Vec::new(), text_desc: false });
        unsorted.push(s);
        proof {
            assert(unsorted_v[i as int] == suggestion_spec(root_files.deep_view()[i as int], all_files.deep_view()));
            assert(unsorted_v.take(i + 1) =~= unsorted_v.take(i as int).push(unsorted_v[i as int]));
            assert(unsorted.deep_view() =~= before_u.push(unsorted_v[i as int]));
            assert(keys.deep_view() =~= before_k.push(suggestion_keys(unsorted_v.take(i + 1))[i as int]));
            assert(suggestion_keys(unsorted_v.take(i + 1)) =~= suggestion_keys(unsorted_v.take(i as int)).push(
                suggestion_keys(unsorted_v.take(i + 1))[i as int],
            ));
        }
        i += 1;
    }
    assert(unsorted_v.take(root_files.len() as int) =~= unsorted_v);
    let order = sorted_order(&keys);
    let mut out: Vec<MoveSuggestion> = Vec::new();
    let mut k: usize = 0;
    while k < order.len()
        invariant
            k <= order.len(),
            is_permutation(order@, unsorted.len() as nat),
            out.deep_view() == reorder(unsorted.deep_view(), order@.take(k as int)),
        decreases order.len() - k,
    {
        let s = &unsorted[order[k]];
        let ghost before = out.deep_view();
        out.push(
            MoveSuggestion {
                file: copy_file(&s.file),
                target_folder: string_of(&chars_of(s.target_folder.as_str())),
                reason: string_of(&chars_of(s.reason.as_str())),
                confidence: string_of(&chars_of(s.confidence.as_str())),
            },
        );
        proof {
            assert(out.deep_view() =~= before.push(unsorted.deep_view()[order@[k as int] as int]));
            assert(reorder(unsorted.deep_view(), order@.take(k + 1)) =~= reorder(unsorted.deep_view(), order@.take(k as int)).push(
                unsorted.deep_view()[order@[k as int] as int],
            ));
        }
        k += 1;
    }
    assert(order@.take(order.len() as int) =~= order@);
    proof {
        assert(keys.deep_view().len() == keys.len());
        assert(is_sorted_order(suggestion_keys(suggestions_spec(root_files.deep_view(), all_files.deep_view())), order@));
        lemma_is_the_sorted_order(suggestion_keys(suggestions_spec(root_files.deep_view(), all_files.deep_view())), order@);
    }
    out
}

// ---------------------------------------------------------------------------
// Rename previews
// ---------------------------------------------------------------------------

/// The base name after the rename rules that change it, with the rules
/// that did, in order: cut through the last `@`, put in the dash, upper-case.
pub open spec fn rename_steps(stem: Seq<char>) -> (Seq<char>, Seq<Seq<char>>) {
    let (b1, r1) = match last_index(stem, '@') {
        Some(i) => (stem.skip(i + 1), seq!["去 @ 前缀"@]),
        None => (stem, Seq::<Seq<char>>::empty()),
    };
    let d = normalize_dash_spec(b1);
    let (b2, r2) = if d != b1 {
        (d, r1.push("补横杠"@))
    } else {
        (b1, r1)
    };
    let u = unicode_upper(b2);
    if u != b2 {
        (u, r2.push("名称大写"@))
    } else {
        (b2, r2)
    }
}

/// `PathBuf::with_file_name`: the name in place of the last component.
pub open spec fn with_file_name_spec(path: Seq<char>, name: Seq<char>) -> Seq<char> {
    match file_name_result(path) {
        Some(_) => match parent_result(path) {
            Some(parent) => join_result(parent, name),
            None => join_result(path, name),
        },
        None => join_result(path, name),
    }
}

/// The rename a file at the root or in a top-level folder would get: the
/// new name, the rules applied, and the target path; none when no rule
/// changes it.
pub open spec fn rename_candidate_spec(file: FileView) -> Option<(Seq<char>, Seq<Seq<char>>, Seq<char>)> {
    match file_stem_spec(file.path) {
        None => None,
        Some(stem) => {
            let (base, rules) = rename_steps(stem);
            let new_name = base + dotted_extension(file.path);
            if rules.len() == 0 || new_name == file.name {
                None
            } else {
                Some((new_name, rules, with_file_name_spec(file.path, new_name)))
            }
        },
    }
}

fn with_file_name(path: &str, name: &str) -> (r: String)
    ensures
        r@ == with_file_name_spec(path@, name@),
{
    match path_file_name(path) {
        Some(_) => match path_parent(path) {
            Some(parent) => path_join(parent.as_str(), name),
            None => path_join(path, name),
        },
        None => path_join(path, name),
    }
}

/// The rename a file would get, if any: new name, rules and target path.
#[verifier::rlimit(40)]
pub fn rename_candidate(file: &LibraryFile) -> (r: Option<(String, Vec<String>, String)>)
    ensures
        match rename_candidate_spec(file.deep_view()) {
            None => r is None,
            Some((name, rules, target)) => r matches Some((n, rs, t)) && n@ == name && rs.deep_view() == rules && t@ == target,
        },
{
    let stem = match file_stem_of(file.path.as_str()) {
        Some(stem) => stem,
        None => return None,
    };
    let mut rules: Vec<String> = Vec::new();
    let ochars = chars_of(stem.as_str());
    let b1 = match rfind_char(&ochars, '@') {
        Some(i) => {
            rules.push(String::from_str("去 @ 前缀"));
            string_of(&slice_chars(&ochars, i + 1, ochars.len()))
        },
        None => stem,
    };
    let d = normalize_dash(b1.as_str());
    let b2 = if !str_eq(d.as_str(), b1.as_str()) {
        rules.push(String::from_str("补横杠"));
        d
    } else {
        b1
    };
    let u = to_uppercase(b2.as_str());
    let base = if !str_eq(u.as_str(), b2.as_str()) {
        rules.push(String::from_str("名称大写"));
        u
    } else {
        b2
    };
    proof {
        let (sb, sr) = rename_steps(stem@);
        assert(base@ == sb);
        assert(rules.deep_view() =~= sr);
    }
    if rules.len() == 0 {
        return None;
    }
    let mut new_name = chars_of(base.as_str());
    match extension_of(file.path.as_str()) {
        Some(e) => {
            new_name.push('.');
            extend_chars(&mut new_name, &chars_of(e.as_str()));
        },
        None => {},
    }
    let new_name = string_of(&new_name);
    proof {
        let (sb, sr) = rename_steps(stem@);
        assert(new_name@ =~= sb + dotted_extension(file.path@));
    }
    if str_eq(new_name.as_str(), file.name.as_str()) {
        return None;
    }
    let target = with_file_name(file.path.as_str(), new_name.as_str());
    Some((new_name, rules, target))
}

/// A proposed rename of a file.
pub struct RenamePreview {
    pub id: String,
    pub path: String,
    pub directory: String,
    pub current_name: String,
    pub new_name: String,
    pub target_path: String,
    pub rules: Vec<String>,
    pub status: String,
    pub reason: String,
}

/// A proposed rename as text.
pub struct PreviewView {
    pub id: Seq<char>,
    pub path: Seq<char>,
    pub directory: Seq<char>,
    pub current_name: Seq<char>,
    pub new_name: Seq<char>,
    pub target_path: Seq<char>,
    pub rules: Seq<Seq<char>>,
    pub status: Seq<char>,
    pub reason: Seq<char>,
}

impl DeepView for RenamePreview {
    type V = PreviewView;

    open spec fn deep_view(&self) -> PreviewView {
        PreviewView {
            id: self.id@,
            path: self.path@,
            directory: self.directory@,
            current_name: self.current_name@,
            new_name: self.new_name@,
            target_path: self.target_path@,
            rules: self.rules.deep_view(),
            status: self.status@,
            reason: self.reason@,
        }
    }
}

/// The proposed rename of a file, given whether its target exists: a
/// conflict when the target is another existing file, else ready.
pub open spec fn rename_preview_spec(file: FileView, target_exists: bool) -> Option<PreviewView> {
    match rename_candidate_spec(file) {
        None => None,
        Some((new_name, rules, target)) => {
            let conflict = target_exists && !eq_ignore_case(file.path, target);
            Some(PreviewView {
                id: file.path,
                path: file.path,
                directory: or_text(parent_result(file.path), Seq::empty()),
                current_name: file.name,
                new_name,
                target_path: target,
                rules,
                status: if conflict { "conflict"@ } else { "ready"@ },
                reason: if conflict { "目标文件已存在，默认跳过"@ } else { "可安全重命名"@ },
            })
        },
    }
}

/// The proposed rename of a file, given whether the target of
/// `rename_candidate` exists.
pub fn rename_preview_for_file(file: &LibraryFile, target_exists: bool) -> (r: Option<RenamePreview>)
    ensures
        r.deep_view() == rename_preview_spec(file.deep_view(), target_exists),
{
    let (new_name, rules, target) = match rename_candidate(file) {
        Some(c) => c,
        None => return None,
    };
    let conflict = target_exists && !eq_ignore_ascii_case(file.path.as_str(), target.as_str());
    Some(
        RenamePreview {
            id: string_of(&chars_of(file.path.as_str())),
            path: string_of(&chars_of(file.path.as_str())),
            directory: opt_or_empty(path_parent(file.path.as_str())),
            current_name: string_of(&chars_of(file.name.as_str())),
            new_name,
            target_path: target,
            rules,
            status: String::from_str(if conflict { "conflict" } else { "ready" }),
            reason: String::from_str(if conflict { "目标文件已存在，默认跳过" } else { "可安全重命名" }),
        },
    )
}

/// Sort keys of previews: status first, then the current name ascending.
pub open spec fn preview_keys(previews: Seq<PreviewView>) -> Seq<KeyView> {
    previews.map_values(
        |p: PreviewView| KeyView { first: status_rank_spec(p.status) as i64, second: 0, text: p.current_name, text2: Seq::empty(), text_desc: false },
    )
}

/// The previews of the files at the root or in top-level folders (not the
/// duplicate-check note) that a rule would rename, in file order.
pub open spec fn previews_spec(files: Seq<FileView>, target_exists: Seq<bool>) -> Seq<PreviewView>
    decreases files.len(),
{
    if files.len() == 0 {
        Seq::empty()
    } else {
        let i = files.len() - 1;
        let before = previews_spec(files.drop_last(), target_exists);
        let f = files[i];
        if f.depth <= 1 && f.name != DUPLICATE_NOTE@ {
            match rename_preview_spec(f, target_exists[i]) {
                Some(p) => before.push(p),
                None => before,
            }
        } else {
            before
        }
    }
}

/// The most previews shown.
pub const MAX_RENAME_PREVIEWS: usize = 300;

fn copy_preview(p: &RenamePreview) -> (r: RenamePreview)
    ensures
        r.deep_view() == p.deep_view(),
{
    let mut rules: Vec<String> = Vec::new();
    let mut i: usize = 0;
    while i < p.rules.len()
        invariant
            i <= p.rules.len(),
            rules.deep_view() == p.rules.deep_view().take(i as int),
        decreases p.rules.len() - i,
    {
        let ghost before = rules.deep_view();
        rules.push(string_of(&chars_of(p.rules[i].as_str())));
        assert(rules.deep_view() =~= before.push(p.rules[i as int]@));
        assert(p.rules.deep_view().take(i + 1) =~= p.rules.deep_view().take(i as int).push(p.rules[i as int]@));
        i += 1;
    }
    assert(p.rules.deep_view().take(p.rules.len() as int) =~= p.rules.deep_view());
    RenamePreview {
        id: string_of(&chars_of(p.id.as_str())),
        path: string_of(&chars_of(p.path.as_str())),
        directory: string_of(&chars_of(p.directory.as_str())),
        current_name: string_of(&chars_of(p.current_name.as_str())),
        new_name: string_of(&chars_of(p.new_name.as_str())),
        target_path: string_of(&chars_of(p.target_path.as_str())),
        rules,
        status: string_of(&chars_of(p.status.as_str())),
        reason: string_of(&chars_of(p.reason.as_str())),
    }
}

/// Rename previews for the files at the root or in top-level folders, given
/// for each file whether its candidate target exists: ready ones first, then
/// by name, at most `MAX_RENAME_PREVIEWS`.
#[verifier::rlimit(60)]
pub fn build_rename_previews(files: &Vec<LibraryFile>, target_exists: &Vec<bool>) -> (r: Vec<RenamePreview>)
    requires
        target_exists.len() == files.len(),
    ensures
        ({
            let all = previews_spec(files.deep_view(), target_exists@);
            r.deep_view() == reorder(all, the_sorted_order(preview_keys(all))).take(
                if all.len() < MAX_RENAME_PREVIEWS { all.len() as int } else { MAX_RENAME_PREVIEWS as int },
            )
        }),
{
    let ghost fv = files.deep_view();
    let mut previews: Vec<RenamePreview> = Vec::new();
    let mut keys: Vec<SortKey> = Vec::new();
    let mut i: usize = 0;
    while i < files.len()
        invariant
            i <= files.len(),
            target_exists.len() == files.len(),
            fv == files.deep_view(),
            previews.deep_view() == previews_spec(fv.take(i as int), target_exists@),
            keys.deep_view() == preview_keys(previews.deep_view()),
            uniform_keys(keys.deep_view()),
        decreases files.len() - i,
    {
        proof {
            let t = fv.take(i + 1);
            assert(t.drop_last() == fv.take(i as int));
            assert(t[i as int] == files[i as int].deep_view());
        }
        let f = &files[i];
        if f.depth <= 1 && !str_eq(f.name.as_str(), DUPLICATE_NOTE) {
            if let Some(p) = rename_preview_for_file(f, target_exists[i]) {
                let rank = status_rank(p.status.as_str());
                let ghost before_p = previews.deep_view();
                let ghost before_k = keys.deep_view();
                let ghost pv = p.deep_view();
                let ghost kv = KeyView { first: status_rank_spec(pv.status) as i64, second: 0, text: pv.current_name, text2: Seq::empty(), text_desc: false };
                keys.push(SortKey { first: rank as i64, second: 0, text: chars_of(p.current_name.as_str()), text2: Vec::new(), text_desc: false });
                previews.push(p);
                proof {
                    assert(previews.deep_view() =~= before_p.push(pv));
                    assert(keys.deep_view() =~= before_k.push(kv));
                    assert(preview_keys(before_p.push(pv)) =~= preview_keys(before_p).push(kv));
                    assert(keys.deep_view() =~= preview_keys(previews.deep_view()));
                }
            }
        }
        i += 1;
    }
    assert(fv.take(files.len() as int) == fv);
    let order = sorted_order(&keys);
    let mut out: Vec<RenamePreview> = Vec::new();
    let mut k: usize = 0;
    while k < order.len() && k < MAX_RENAME_PREVIEWS
        invariant
            k <= order.len(),
            k <= MAX_RENAME_PREVIEWS,
            is_permutation(order@, previews.len() as nat),
            previews.deep_view().len() == previews.len(),
            out.deep_view() == reorder(previews.deep_view(), order@.take(k as int)),
        decreases order.len() - k,
    {
        let ghost before = out.deep_view();
        out.push(copy_preview(&previews[order[k]]));
        proof {
            assert(out.deep_view() =~= before.push(previews.deep_view()[order@[k as int] as int]));
            assert(reorder(previews.deep_view(), order@.take(k + 1)) =~= reorder(previews.deep_view(), order@.take(k as int)).push(
                previews.deep_view()[order@[k as int] as int],
            ));
        }
        k += 1;
    }
    proof {
        assert(keys.deep_view().len() == keys.len());
        let n = if order@.len() < MAX_RENAME_PREVIEWS { order@.len() as int } else { MAX_RENAME_PREVIEWS as int };
        assert(k == n);
        assert(reorder(previews.deep_view(), order@.take(n)) =~= reorder(previews.deep_view(), order@).take(n));
        assert(is_sorted_order(preview_keys(previews_spec(files.deep_view(), target_exists@)), order@));
        lemma_is_the_sorted_order(preview_keys(previews_spec(files.deep_view(), target_exists@)), order@);
    }
    out
}

// ---------------------------------------------------------------------------
// Latest files and days
// ---------------------------------------------------------------------------

/// Of the files from position `i` on, the position of the first that is
/// later than `best`, scanning in order: the first of the latest files.
pub open spec fn latest_from(files: Seq<FileView>, i: int, best: int) -> int
    decreases files.len() - i,
{
    if i < 0 || i >= files.len() {
        best
    } else if files[i].modified_unix > files[best].modified_unix {
        latest_from(files, i + 1, i)
    } else {
        latest_from(files, i + 1, best)
    }
}

fn latest_index(files: &Vec<LibraryFile>) -> (r: usize)
    requires
        files.len() > 0,
    ensures
        r < files.len(),
        r as int == latest_from(files.deep_view(), 0, 0),
{
    let ghost fv = files.deep_view();
    let mut best: usize = 0;
    let mut i: usize = 0;
    while i < files.len()
        invariant
            i <= files.len(),
            best < files.len(),
            fv == files.deep_view(),
            latest_from(fv, 0, 0) == latest_from(fv, i as int, best as int),
        decreases files.len() - i,
    {
        assert(fv[i as int] == files[i as int].deep_view() && fv[best as int] == files[best as int].deep_view());
        if files[i].modified_unix > files[best].modified_unix {
            best = i;
        }
        i += 1;
    }
    best
}

/// Whole days from a time to now, none when it lies in the future.
pub open spec fn days_since_spec(now: i64, modified_unix: i64) -> int {
    let d = now - modified_unix;
    (if d > 0 { d } else { 0 }) / 86400
}

/// Whole days from a time to now.
pub fn days_since(now: i64, modified_unix: i64) -> (r: i64)
    ensures
        r == days_since_spec(now, modified_unix),
{
    let d: i128 = now as i128 - modified_unix as i128;
    let d = if d > 0 { d } else { 0 };
    (d / 86400) as i64
}

// ---------------------------------------------------------------------------
// Stale folders
// ---------------------------------------------------------------------------

/// A top-level folder with the age of its latest file.
pub struct StaleFolder {
    pub folder: String,
    pub path: String,
    pub latest_file: String,
    pub latest_modified: String,
    pub days_since: i64,
    pub is_stale: bool,
    pub file_count: usize,
    pub suggestion: String,
}

/// A stale-folder entry as text.
pub struct StaleView {
    pub folder: Seq<char>,
    pub path: Seq<char>,
    pub latest_file: Seq<char>,
    pub latest_modified: Seq<char>,
    pub days_since: i64,
    pub is_stale: bool,
    pub file_count: usize,
    pub suggestion: Seq<char>,
}

impl DeepView for StaleFolder {
    type V = StaleView;

    open spec fn deep_view(&self) -> StaleView {
        StaleView {
            folder: self.folder@,
            path: self.path@,
            latest_file: self.latest_file@,
            latest_modified: self.latest_modified@,
            days_since: self.days_since,
            is_stale: self.is_stale,
            file_count: self.file_count,
            suggestion: self.suggestion@,
        }
    }
}

/// The files directly inside a folder of the name.
pub open spec fn files_in_folder(files: Seq<FileView>, name: Seq<char>) -> Seq<FileView>
    decreases files.len(),
{
    if files.len() == 0 {
        Seq::empty()
    } else {
        let before = files_in_folder(files.drop_last(), name);
        let f = files.last();
        if f.depth == 1 && f.parent == name {
            before.push(f)
        } else {
            before
        }
    }
}

/// The entry of the folder at position `i`: its files are those directly
/// inside a folder of its name (none when an earlier folder has the same
/// name); a folder whose latest file is 60 days old or more, or that holds
/// none, is stale.
pub open spec fn stale_spec(files: Seq<FileView>, folders: Seq<FolderView>, i: int, now: i64) -> StaleView {
    let name = folders[i].name;
    let taken = exists|j: int| 0 <= j < i && #[trigger] folders[j].name == name;
    let ff = if taken { Seq::empty() } else { files_in_folder(files, name) };
    let days: int = if ff.len() == 0 { 9999 } else { days_since_spec(now, ff[latest_from(ff, 0, 0)].modified_unix) };
    StaleView {
        folder: name,
        path: folders[i].path,
        latest_file: if ff.len() == 0 { "(空文件夹)"@ } else { ff[latest_from(ff, 0, 0)].name },
        latest_modified: if ff.len() == 0 { "——"@ } else { ff[latest_from(ff, 0, 0)].modified },
        days_since: days as i64,
        is_stale: days >= 60,
        file_count: ff.len() as usize,
        suggestion: if days >= 60 { "归档/复查"@ } else { "观察"@ },
    }
}

/// The entries of all folders, in folder order.
pub open spec fn stale_entries(files: Seq<FileView>, folders: Seq<FolderView>, now: i64) -> Seq<StaleView> {
    Seq::new(folders.len(), |i: int| stale_spec(files, folders, i, now))
}

/// Sort keys of stale entries: oldest first, then by folder name.
pub open spec fn stale_keys(entries: Seq<StaleView>) -> Seq<KeyView> {
    entries.map_values(|e: StaleView| KeyView { first: e.days_since, second: 0, text: e.folder, text2: Seq::empty(), text_desc: false })
}

proof fn lemma_latest_from_max(files: Seq<FileView>, i: int, best: int)
    requires
        0 <= best < files.len(),
        0 <= i,
    ensures
        0 <= latest_from(files, i, best) < files.len(),
        forall|j: int| i <= j < files.len() ==> (#[trigger] files[j]).modified_unix
            <= files[latest_from(files, i, best)].modified_unix,
        files[best].modified_unix <= files[latest_from(files, i, best)].modified_unix,
    decreases files.len() - i,
{
    if i < files.len() {
        if files[i].modified_unix > files[best].modified_unix {
            lemma_latest_from_max(files, i + 1, i);
        } else {
            lemma_latest_from_max(files, i + 1, best);
        }
    }
}

/// Whether a file lies directly inside a folder of the name.
pub open spec fn directly_in(f: FileView, name: Seq<char>) -> bool {
    f.depth == 1 && f.parent == name
}

proof fn lemma_files_in_folder_members(files: Seq<FileView>, name: Seq<char>)
    ensures
        forall|k: int| 0 <= k < files_in_folder(files, name).len() ==> exists|j: int|
            0 <= j < files.len() && #[trigger] files[j] == #[trigger] files_in_folder(files, name)[k]
                && directly_in(files[j], name),
        forall|j: int| 0 <= j < files.len() && directly_in(#[trigger] files[j], name) ==> exists|k: int|
            0 <= k < files_in_folder(files, name).len() && #[trigger] files_in_folder(files, name)[k] == files[j],
    decreases files.len(),
{
    if files.len() > 0 {
        let d = files.drop_last();
        lemma_files_in_folder_members(d, name);
        let before = files_in_folder(d, name);
        let ff = files_in_folder(files, name);
        assert forall|k: int| 0 <= k < ff.len() implies exists|j: int|
            0 <= j < files.len() && #[trigger] files[j] == #[trigger] ff[k] && directly_in(files[j], name) by {
            if k < before.len() {
                assert(ff[k] == before[k]);
                let j = choose|j: int| 0 <= j < d.len() && #[trigger] d[j] == #[trigger] before[k] && directly_in(d[j], name);
                assert(files[j] == d[j]);
            } else {
                assert(files[files.len() - 1] == ff[k]);
            }
        }
        assert forall|j: int| 0 <= j < files.len() && directly_in(#[trigger] files[j], name) implies exists|k: int|
            0 <= k < ff.len() && #[trigger] ff[k] == files[j] by {
            if j < files.len() - 1 {
                assert(d[j] == files[j]);
                let k = choose|k: int| 0 <= k < before.len() && #[trigger] before[k] == d[j];
                assert(ff[k] == before[k]);
            } else {
                assert(ff[ff.len() - 1] == files[j]);
            }
        }
    }
}

/// The entry of a folder (the first of its name) that holds files names
/// its latest file: a file directly inside the folder that no other file
/// directly inside it is newer than; its age in days is counted from that
/// file's time, and the folder is stale exactly when that is 60 days or more.
/// A folder holding no file is reported empty and stale.
pub proof fn lemma_stale_entry_names_latest_file(files: Seq<FileView>, folders: Seq<FolderView>, i: int, now: i64)
    requires
        0 <= i < folders.len(),
        forall|j: int| 0 <= j < i ==> (#[trigger] folders[j]).name != folders[i].name,
    ensures
        ({
            let e = stale_spec(files, folders, i, now);
            let name = folders[i].name;
            &&& e.folder == name
            &&& e.is_stale == (e.days_since >= 60)
            &&& (exists|j: int| 0 <= j < files.len() && directly_in(#[trigger] files[j], name)) ==> exists|k: int|
                0 <= k < files.len() && directly_in(#[trigger] files[k], name)
                    && e.latest_file == files[k].name
                    && e.latest_modified == files[k].modified
                    && e.days_since as int == days_since_spec(now, files[k].modified_unix)
                    && forall|j: int| 0 <= j < files.len() && directly_in(#[trigger] files[j], name)
                        ==> files[j].modified_unix <= files[k].modified_unix
            &&& !(exists|j: int| 0 <= j < files.len() && directly_in(#[trigger] files[j], name)) ==> {
                &&& e.file_count == 0
                &&& e.is_stale
            }
        }),
{
    let name = folders[i].name;
    let ff = files_in_folder(files, name);
    lemma_files_in_folder_members(files, name);
    assert(!(exists|j: int| 0 <= j < i && #[trigger] folders[j].name == name));
    if exists|j: int| 0 <= j < files.len() && directly_in(#[trigger] files[j], name) {
        let j0 = choose|j: int| 0 <= j < files.len() && directly_in(#[trigger] files[j], name);
        assert(ff.len() > 0);
        lemma_latest_from_max(ff, 0, 0);
        let r = latest_from(ff, 0, 0);
        let k = choose|k: int| 0 <= k < files.len() && #[trigger] files[k] == #[trigger] ff[r] && directly_in(files[k], name);
        let now_days = days_since_spec(now, ff[r].modified_unix);
        assert(0 <= now_days <= i64::MAX) by {
            let d = now - ff[r].modified_unix;
            assert(d <= 18446744073709551615);
        }
        assert forall|j: int| 0 <= j < files.len() && directly_in(#[trigger] files[j], name)
            implies files[j].modified_unix <= files[k].modified_unix by {
            let m = choose|m: int| 0 <= m < ff.len() && #[trigger] ff[m] == files[j];
            assert(ff[m].modified_unix <= ff[r].modified_unix);
        }
    } else {
        if ff.len() > 0 {
            let j = choose|j: int| 0 <= j < files.len() && #[trigger] files[j] == #[trigger] ff[0] && directly_in(files[j], name);
        }
    }
}

/// The stale-folder report has one entry per folder, and the entry of every
/// folder is in it.
pub proof fn lemma_stale_report_lists_every_folder(files: Seq<FileView>, folders: Seq<FolderView>, now: i64, i: int)
    requires
        folders.len() <= usize::MAX,
        0 <= i < folders.len(),
    ensures
        ({
            let all = stale_entries(files, folders, now);
            let r = reorder(all, the_sorted_order(stale_keys(all)));
            &&& r.len() == folders.len()
            &&& r.contains(stale_spec(files, folders, i, now))
        }),
{
    let all = stale_entries(files, folders, now);
    let keys = stale_keys(all);
    assert(uniform_keys(keys));
    lemma_sorted_reorder_keeps(all, keys, i);
}

fn files_in_folder_of(files: &Vec<LibraryFile>, name: &str) -> (r: Vec<LibraryFile>)
    ensures
        r.deep_view() == files_in_folder(files.deep_view(), name@),
{
    let ghost fv = files.deep_view();
    let mut out: Vec<LibraryFile> = Vec::new();
    let mut i: usize = 0;
    while i < files.len()
        invariant
            i <= files.len(),
            fv == files.deep_view(),
            out.deep_view() == files_in_folder(fv.take(i as int), name@),
        decreases files.len() - i,
    {
        proof {
            let t = fv.take(i + 1);
            assert(t.drop_last() == fv.take(i as int));
            assert(t.last() == files[i as int].deep_view());
        }
        if files[i].depth == 1 && str_eq(files[i].parent.as_str(), name) {
            let ghost before = out.deep_view();
            out.push(copy_file(&files[i]));
            assert(out.deep_view() =~= before.push(files[i as int].deep_view()));
        }
        i += 1;
    }
    assert(fv.take(files.len() as int) == fv);
    out
}

fn stale_entry(files: &Vec<LibraryFile>, folders: &Vec<DirectFolder>, i: usize, now: i64) -> (r: StaleFolder)
    requires
        i < folders.len(),
    ensures
        r.deep_view() == stale_spec(files.deep_view(), folders.deep_view(), i as int, now),
{
    let ghost dv = folders.deep_view();
    let name = folders[i].name.as_str();
    let mut taken = false;
    let mut j: usize = 0;
    while j < i
        invariant
            j <= i,
            i < folders.len(),
            dv == folders.deep_view(),
            name@ == dv[i as int].name,
            taken == exists|k: int| 0 <= k < j && #[trigger] dv[k].name == name@,
        decreases i - j,
    {
        assert(dv[j as int] == folders[j as int].deep_view());
        assert(dv[j as int].name == folders[j as int].name@);
        if str_eq(folders[j].name.as_str(), name) {
            taken = true;
        }
        j += 1;
    }
    assert(dv[i as int] == folders[i as int].deep_view());
    let ff = if taken { Vec::new() } else { files_in_folder_of(files, name) };
    assert(ff.deep_view() =~= (if taken { Seq::<FileView>::empty() } else { files_in_folder(files.deep_view(), name@) }));
    if ff.len() == 0 {
        StaleFolder {
            folder: string_of(&chars_of(name)),
            path: string_of(&chars_of(folders[i].path.as_str())),
            latest_file: String::from_str("(空文件夹)"),
            latest_modified: String::from_str("——"),
            days_since: 9999,
            is_stale: true,
            file_count: 0,
            suggestion: String::from_str("归档/复查"),
        }
    } else {
        let latest = latest_index(&ff);
        let days = days_since(now, ff[latest].modified_unix);
        let stale = days >= 60;
        StaleFolder {
            folder: string_of(&chars_of(name)),
            path: string_of(&chars_of(folders[i].path.as_str())),
            latest_file: string_of(&chars_of(ff[latest].name.as_str())),
            latest_modified: string_of(&chars_of(ff[latest].modified.as_str())),
            days_since: days,
            is_stale: stale,
            file_count: ff.len(),
            suggestion: String::from_str(if stale { "归档/复查" } else { "观察" }),
        }
    }
}

fn copy_stale(e: &StaleFolder) -> (r: StaleFolder)
    ensures
        r.deep_view() == e.deep_view(),
{
    StaleFolder {
        folder: string_of(&chars_of(e.folder.as_str())),
        path: string_of(&chars_of(e.path.as_str())),
        latest_file: string_of(&chars_of(e.latest_file.as_str())),
        latest_modified: string_of(&chars_of(e.latest_modified.as_str())),
        days_since: e.days_since,
        is_stale: e.is_stale,
        file_count: e.file_count,
        suggestion: string_of(&chars_of(e.suggestion.as_str())),
    }
}

/// How long each top-level folder has gone without a new file, oldest
/// first, given the time now.
pub fn build_stale_folders(files: &Vec<LibraryFile>, direct_folders: &Vec<DirectFolder>, now: i64) -> (r: Vec<StaleFolder>)
    ensures
        r.deep_view() == reorder(stale_entries(files.deep_view(), direct_folders.deep_view(), now), the_sorted_order(stale_keys(stale_entries(files.deep_view(), direct_folders.deep_view(), now)))),
{
    let ghost all = stale_entries(files.deep_view(), direct_folders.deep_view(), now);
    let mut entries: Vec<StaleFolder> = Vec::new();
    let mut keys: Vec<SortKey> = Vec::new();
    let mut i: usize = 0;
    while i < direct_folders.len()
        invariant
            i <= direct_folders.len(),
            all == stale_entries(files.deep_view(), direct_folders.deep_view(), now),
            entries.deep_view() == all.take(i as int),
            keys.deep_view() == stale_keys(entries.deep_view()),
            uniform_keys(keys.deep_view()),
        decreases direct_folders.len() - i,
    {
        let e = stale_entry(files, direct_folders, i, now);
        let ghost ev = e.deep_view();
        let ghost kv = KeyView { first: ev.days_since, second: 0, text: ev.folder, text2: Seq::empty(), text_desc: false };
        let ghost before_e = entries.deep_view();
        let ghost before_k = keys.deep_view();
        keys.push(SortKey { first: e.days_since, second: 0, text: chars_of(e.folder.as_str()), text2: Vec::new(), text_desc: false });
        entries.push(e);
        proof {
            assert(all[i as int] == ev);
            assert(entries.deep_view() =~= before_e.push(ev));
            assert(all.take(i + 1) =~= all.take(i as int).push(all[i as int]));
            assert(keys.deep_view() =~= before_k.push(kv));
            assert(stale_keys(before_e.push(ev)) =~= stale_keys(before_e).push(kv));
        }
        i += 1;
    }
    assert(all.take(direct_folders.len() as int) =~= all);
    let order = sorted_order(&keys);
    let mut out: Vec<StaleFolder> = Vec::new();
    let mut k: usize = 0;
    while k < order.len()
        invariant
            k <= order.len(),
            is_permutation(order@, keys.len() as nat),
            keys.deep_view().len() == keys.len(),
            entries.deep_view().len() == entries.len(),
            keys.deep_view() == stale_keys(entries.deep_view()),
            out.deep_view() == reorder(entries.deep_view(), order@.take(k as int)),
        decreases order.len() - k,
    {
        let ghost before = out.deep_view();
        out.push(copy_stale(&entries[order[k]]));
        proof {
            assert(out.deep_view() =~= before.push(entries.deep_view()[order@[k as int] as int]));
            assert(reorder(entries.deep_view(), order@.take(k + 1)) =~= reorder(entries.deep_view(), order@.take(k as int)).push(
                entries.deep_view()[order@[k as int] as int],
            ));
        }
        k += 1;
    }
    assert(order@.take(order.len() as int) =~= order@);
    proof {
        assert(is_sorted_order(stale_keys(all), order@));
        lemma_is_the_sorted_order(stale_keys(all), order@);
    }
    out
}

// ---------------------------------------------------------------------------
// Actor folders
// ---------------------------------------------------------------------------

/// A video of an actor folder.
pub struct ActorVideo {
    pub path: String,
    pub name: String,
    pub size_bytes: i64,
    pub modified: String,
    pub modified_unix: i64,
    pub media_code: Option<String>,
    pub cover_path: Option<String>,
}

/// A video of an actor folder as text.
pub struct VideoView {
    pub path: Seq<char>,
    pub name: Seq<char>,
    pub size_bytes: i64,
    pub modified: Seq<char>,
    pub modified_unix: i64,
    pub media_code: Option<Seq<char>>,
    pub cover_path: Option<Seq<char>>,
}

impl DeepView for ActorVideo {
    type V = VideoView;

    open spec fn deep_view(&self) -> VideoView {
        VideoView {
            path: self.path@,
            name: self.name@,
            size_bytes: self.size_bytes,
            modified: self.modified@,
            modified_unix: self.modified_unix,
            media_code: self.media_code.deep_view(),
            cover_path: self.cover_path.deep_view(),
        }
    }
}

/// An actor folder: its files, size, latest change, roles and videos.
pub struct ActorSummary {
    pub name: String,
    pub path: String,
    pub file_count: usize,
    pub total_bytes: i128,
    pub modified: String,
    pub modified_unix: i64,
    pub roles: Vec<String>,
    pub videos: Vec<ActorVideo>,
}

/// An actor folder as text.
pub struct SummaryView {
    pub name: Seq<char>,
    pub path: Seq<char>,
    pub file_count: usize,
    pub total_bytes: int,
    pub modified: Seq<char>,
    pub modified_unix: i64,
    pub roles: Seq<Seq<char>>,
    pub videos: Seq<VideoView>,
}

impl DeepView for ActorSummary {
    type V = SummaryView;

    open spec fn deep_view(&self) -> SummaryView {
        SummaryView {
            name: self.name@,
            path: self.path@,
            file_count: self.file_count,
            total_bytes: self.total_bytes as int,
            modified: self.modified@,
            modified_unix: self.modified_unix,
            roles: self.roles.deep_view(),
            videos: self.videos.deep_view(),
        }
    }
}

/// The video entry of a file.
pub open spec fn video_view(f: FileView) -> VideoView {
    VideoView {
        path: f.path,
        name: f.name,
        size_bytes: f.size_bytes,
        modified: f.modified,
        modified_unix: f.modified_unix,
        media_code: f.media_code,
        cover_path: f.cover_path,
    }
}

/// The video entries of the video files, in order.
pub open spec fn videos_of(files: Seq<FileView>) -> Seq<VideoView>
    decreases files.len(),
{
    if files.len() == 0 {
        Seq::empty()
    } else if is_video_ext(files.last().extension) {
        videos_of(files.drop_last()).push(video_view(files.last()))
    } else {
        videos_of(files.drop_last())
    }
}

/// The total size of files.
pub open spec fn total_size(files: Seq<FileView>) -> int
    decreases files.len(),
{
    if files.len() == 0 {
        0
    } else {
        total_size(files.drop_last()) + files.last().size_bytes
    }
}

/// Whether a folder is large: 300 GiB or more as the report shows it, in
/// GiB rounded to two decimals (the last half-hundredth rounds up).
pub open spec fn is_large_folder(total_bytes: int) -> bool {
    200 * total_bytes >= 59999 * 1073741824
}

/// The roles of an actor folder: frequent with 50 videos or more, recent when
/// its latest file is at most 14 days old, large from 300 GiB; ordinary when
/// none applies.
pub open spec fn roles_spec(video_count: nat, total_bytes: int, modified_unix: i64, now: i64) -> Seq<Seq<char>> {
    let r1 = if video_count >= 50 { seq!["高频收藏"@] } else { Seq::<Seq<char>>::empty() };
    let r2 = if days_since_spec(now, modified_unix) <= 14 { r1.push("最近新增"@) } else { r1 };
    let r3 = if is_large_folder(total_bytes) { r2.push("大目录"@) } else { r2 };
    if r3.len() == 0 {
        seq!["普通演员"@]
    } else {
        r3
    }
}

/// The roles of an actor folder.
pub fn actor_roles(video_count: usize, total_bytes: i128, modified_unix: i64, now: i64) -> (r: Vec<String>)
    ensures
        r.deep_view() == roles_spec(video_count as nat, total_bytes as int, modified_unix, now),
{
    let mut roles: Vec<String> = Vec::new();
    if video_count >= 50 {
        roles.push(String::from_str("高频收藏"));
    }
    if days_since(now, modified_unix) <= 14 {
        roles.push(String::from_str("最近新增"));
    }
    let large = if total_bytes >= 0 {
        (total_bytes as u128) / 1073741824 >= 300 || 200 * ((total_bytes as u128) % 1073741824) + 200 * 1073741824 * ((total_bytes as u128) / 1073741824) >= 59999 * 1073741824
    } else {
        false
    };
    proof {
        if total_bytes >= 0 {
            let t = total_bytes as int;
            let q = t / 1073741824;
            let m = t % 1073741824;
            assert(t == 1073741824 * q + m);
            assert(200 * t == 200 * m + 200 * 1073741824 * q) by (nonlinear_arith)
                requires t == 1073741824 * q + m;
            if q >= 300 {
                assert(200 * 1073741824 * q >= 200 * 1073741824 * 300) by (nonlinear_arith)
                    requires q >= 300;
            }
        }
    }
    assert(large == is_large_folder(total_bytes as int));
    if large {
        roles.push(String::from_str("大目录"));
    }
    if roles.len() == 0 {
        roles.push(String::from_str("普通演员"));
    }
    proof {
        assert(roles.deep_view() =~= roles_spec(video_count as nat, total_bytes as int, modified_unix, now));
    }
    roles
}

fn total_bytes_of(files: &Vec<LibraryFile>) -> (r: i128)
    ensures
        r as int == total_size(files.deep_view()),
{
    let ghost fv = files.deep_view();
    let mut sum: i128 = 0;
    let mut i: usize = 0;
    while i < files.len()
        invariant
            i <= files.len(),
            fv == files.deep_view(),
            sum as int == total_size(fv.take(i as int)),
            -(i as int) * 9223372036854775808 <= sum <= (i as int) * 9223372036854775808,
        decreases files.len() - i,
    {
        proof {
            let t = fv.take(i + 1);
            assert(t.drop_last() == fv.take(i as int));
            assert(t.last() == files[i as int].deep_view());
            assert((i as int) * 9223372036854775808 + 9223372036854775808 == (i as int + 1) * 9223372036854775808) by (nonlinear_arith);
            assert((i as int + 1) * 9223372036854775808 <= 18446744073709551616 * 9223372036854775808) by (nonlinear_arith)
                requires i < 18446744073709551616int;
        }
        sum = sum + files[i].size_bytes as i128;
        i += 1;
    }
    assert(fv.take(files.len() as int) == fv);
    sum
}

fn video_entries(files: &Vec<LibraryFile>) -> (r: Vec<ActorVideo>)
    ensures
        r.deep_view() == videos_of(files.deep_view()),
{
    let ghost fv = files.deep_view();
    let mut out: Vec<ActorVideo> = Vec::new();
    let mut i: usize = 0;
    while i < files.len()
        invariant
            i <= files.len(),
            fv == files.deep_view(),
            out.deep_view() == videos_of(fv.take(i as int)),
        decreases files.len() - i,
    {
        proof {
            let t = fv.take(i + 1);
            assert(t.drop_last() == fv.take(i as int));
            assert(t.last() == files[i as int].deep_view());
        }
        let f = &files[i];
        if is_video_extension(f.extension.as_str()) {
            let c = copy_file(f);
            let ghost before = out.deep_view();
            out.push(
                ActorVideo {
                    path: c.path,
                    name: c.name,
                    size_bytes: c.size_bytes,
                    modified: c.modified,
                    modified_unix: c.modified_unix,
                    media_code: c.media_code,
                    cover_path: c.cover_path,
                },
            );
            assert(out.deep_view() =~= before.push(video_view(files[i as int].deep_view())));
        }
        i += 1;
    }
    assert(fv.take(files.len() as int) == fv);
    out
}

/// The files of a folder, latest first.
pub open spec fn latest_first(files: Seq<FileView>) -> Seq<FileView> {
    reorder(files, the_sorted_order(number_keys(modified_times(files))))
}

/// The summary of an actor folder from its files: none when it has no
/// files or no videos; otherwise the latest file's time, the total size, the
/// videos latest first (at most `limit` when there is a limit) and the roles.
pub open spec fn summary_spec(
    name: Seq<char>,
    path: Seq<char>,
    files: Seq<FileView>,
    limit: Option<usize>,
    now: i64,
) -> Option<SummaryView> {
    if files.len() == 0 {
        None
    } else {
        let sorted = latest_first(files);
        let all_videos = videos_of(sorted);
        let videos = match limit {
            Some(n) => if n < all_videos.len() { all_videos.take(n as int) } else { all_videos },
            None => all_videos,
        };
        if videos.len() == 0 {
            None
        } else {
            Some(SummaryView {
                name,
                path,
                file_count: sorted.len() as usize,
                total_bytes: total_size(sorted),
                modified: sorted[0].modified,
                modified_unix: sorted[0].modified_unix,
                roles: roles_spec(videos.len(), total_size(sorted), sorted[0].modified_unix, now),
                videos,
            })
        }
    }
}

/// The summary of an actor folder from its files.
pub fn summarize_actor_folder(
    name: &str,
    path: &str,
    files: &Vec<LibraryFile>,
    limit: Option<usize>,
    now: i64,
) -> (r: Option<ActorSummary>)
    ensures
        r.deep_view() == summary_spec(name@, path@, files.deep_view(), limit, now),
{
    if files.len() == 0 {
        return None;
    }
    let sorted = sort_by_modified_desc(files);
    let mut videos = video_entries(&sorted);
    if let Some(n) = limit {
        if n < videos.len() {
            videos.truncate(n);
            assert(videos.deep_view() =~= videos_of(sorted.deep_view()).take(n as int));
        }
    }
    if videos.len() == 0 {
        return None;
    }
    let total = total_bytes_of(&sorted);
    assert(sorted.deep_view()[0] == sorted[0].deep_view());
    let roles = actor_roles(videos.len(), total, sorted[0].modified_unix, now);
    Some(
        ActorSummary {
            name: string_of(&chars_of(name)),
            path: string_of(&chars_of(path)),
            file_count: sorted.len(),
            total_bytes: total,
            modified: string_of(&chars_of(sorted[0].modified.as_str())),
            modified_unix: sorted[0].modified_unix,
            roles,
            videos,
        },
    )
}

/// Whether a direct folder may be an actor folder: no system folder and not
/// one of the configured working folders.
pub open spec fn is_actor_folder(f: FolderView, excluded: Seq<Seq<char>>) -> bool {
    !is_system_folder_name(f.name) && !excluded.contains(f.name)
}

/// The direct folders that may be actor folders, in order.
pub open spec fn actor_folders(folders: Seq<FolderView>, excluded: Seq<Seq<char>>) -> Seq<FolderView>
    decreases folders.len(),
{
    if folders.len() == 0 {
        Seq::empty()
    } else if is_actor_folder(folders.last(), excluded) {
        actor_folders(folders.drop_last(), excluded).push(folders.last())
    } else {
        actor_folders(folders.drop_last(), excluded)
    }
}

fn contains_text(names: &Vec<String>, name: &str) -> (r: bool)
    ensures
        r == names.deep_view().contains(name@),
{
    let mut i: usize = 0;
    while i < names.len()
        invariant
            i <= names.len(),
            forall|k: int| 0 <= k < i ==> names.deep_view()[k] != name@,
        decreases names.len() - i,
    {
        assert(names.deep_view()[i as int] == names[i as int]@);
        if str_eq(names[i].as_str(), name) {
            return true;
        }
        i += 1;
    }
    false
}

/// The direct folders that may be actor folders.
pub fn actor_folder_list(folders: &Vec<DirectFolder>, excluded: &Vec<String>) -> (r: Vec<DirectFolder>)
    ensures
        r.deep_view() == actor_folders(folders.deep_view(), excluded.deep_view()),
{
    let ghost dv = folders.deep_view();
    let mut out: Vec<DirectFolder> = Vec::new();
    let mut i: usize = 0;
    while i < folders.len()
        invariant
            i <= folders.len(),
            dv == folders.deep_view(),
            out.deep_view() == actor_folders(dv.take(i as int), excluded.deep_view()),
        decreases folders.len() - i,
    {
        proof {
            let t = dv.take(i + 1);
            assert(t.drop_last() == dv.take(i as int));
            assert(t.last() == folders[i as int].deep_view());
        }
        let name = folders[i].name.as_str();
        if !is_system_folder(name) && !contains_text(excluded, name) {
            let ghost before = out.deep_view();
            out.push(copy_folder(&folders[i]));
            assert(out.deep_view() =~= before.push(folders[i as int].deep_view()));
        }
        i += 1;
    }
    assert(dv.take(folders.len() as int) == dv);
    out
}

/// The files under the root that lie in the top-level folder of the name.
pub open spec fn files_under_folder(root: Seq<char>, files: Seq<FileView>, name: Seq<char>) -> Seq<FileView>
    decreases files.len(),
{
    if files.len() == 0 {
        Seq::empty()
    } else if top_level_name_spec(root, files.last().path) == Some(name) {
        files_under_folder(root, files.drop_last(), name).push(files.last())
    } else {
        files_under_folder(root, files.drop_last(), name)
    }
}

fn files_under_folder_of(root: &str, files: &Vec<LibraryFile>, name: &str) -> (r: Vec<LibraryFile>)
    ensures
        r.deep_view() == files_under_folder(root@, files.deep_view(), name@),
{
    let ghost fv = files.deep_view();
    let mut out: Vec<LibraryFile> = Vec::new();
    let mut i: usize = 0;
    while i < files.len()
        invariant
            i <= files.len(),
            fv == files.deep_view(),
            out.deep_view() == files_under_folder(root@, fv.take(i as int), name@),
        decreases files.len() - i,
    {
        proof {
            let t = fv.take(i + 1);
            assert(t.drop_last() == fv.take(i as int));
            assert(t.last() == files[i as int].deep_view());
        }
        let top = top_level_folder_name(root, files[i].path.as_str());
        let same = match &top {
            Some(t) => str_eq(t.as_str(), name),
            None => false,
        };
        if same {
            let ghost before = out.deep_view();
            out.push(copy_file(&files[i]));
            assert(out.deep_view() =~= before.push(files[i as int].deep_view()));
        }
        i += 1;
    }
    assert(fv.take(files.len() as int) == fv);
    out
}

/// The most videos listed for an actor folder in a full scan.
pub const ACTOR_VIDEO_LIMIT: usize = 120;

/// The summaries of the actor folders that have videos, in folder order.
pub open spec fn summaries_unsorted(root: Seq<char>, files: Seq<FileView>, folders: Seq<FolderView>, now: i64) -> Seq<SummaryView>
    decreases folders.len(),
{
    if folders.len() == 0 {
        Seq::empty()
    } else {
        let f = folders.last();
        let before = summaries_unsorted(root, files, folders.drop_last(), now);
        match summary_spec(f.name, f.path, files_under_folder(root, files, f.name), Some(ACTOR_VIDEO_LIMIT), now) {
            Some(sv) => before.push(sv),
            None => before,
        }
    }
}

/// Sort keys of actor folders: latest first, then more videos first, then by
/// name.
pub open spec fn summary_keys(summaries: Seq<SummaryView>) -> Seq<KeyView> {
    summaries.map_values(
        |sv: SummaryView| KeyView { first: sv.modified_unix, second: sv.videos.len() as i64, text: sv.name, text2: Seq::empty(), text_desc: false },
    )
}

fn copy_summary(sv: &ActorSummary) -> (r: ActorSummary)
    ensures
        r.deep_view() == sv.deep_view(),
{
    let mut roles: Vec<String> = Vec::new();
    let mut i: usize = 0;
    while i < sv.roles.len()
        invariant
            i <= sv.roles.len(),
            roles.deep_view() == sv.roles.deep_view().take(i as int),
        decreases sv.roles.len() - i,
    {
        let ghost before = roles.deep_view();
        roles.push(string_of(&chars_of(sv.roles[i].as_str())));
        assert(roles.deep_view() =~= before.push(sv.roles[i as int]@));
        assert(sv.roles.deep_view().take(i + 1) =~= sv.roles.deep_view().take(i as int).push(sv.roles[i as int]@));
        i += 1;
    }
    assert(sv.roles.deep_view().take(sv.roles.len() as int) =~= sv.roles.deep_view());
    let mut videos: Vec<ActorVideo> = Vec::new();
    let mut k: usize = 0;
    while k < sv.videos.len()
        invariant
            k <= sv.videos.len(),
            videos.deep_view() == sv.videos.deep_view().take(k as int),
        decreases sv.videos.len() - k,
    {
        let v = &sv.videos[k];
        let ghost before = videos.deep_view();
        videos.push(
            ActorVideo {
                path: string_of(&chars_of(v.path.as_str())),
                name: string_of(&chars_of(v.name.as_str())),
                size_bytes: v.size_bytes,
                modified: string_of(&chars_of(v.modified.as_str())),
                modified_unix: v.modified_unix,
                media_code: opt_copy(&v.media_code),
                cover_path: opt_copy(&v.cover_path),
            },
        );
        assert(videos.deep_view() =~= before.push(sv.videos[k as int].deep_view()));
        assert(sv.videos.deep_view().take(k + 1) =~= sv.videos.deep_view().take(k as int).push(sv.videos[k as int].deep_view()));
        k += 1;
    }
    assert(sv.videos.deep_view().take(sv.videos.len() as int) =~= sv.videos.deep_view());
    ActorSummary {
        name: string_of(&chars_of(sv.name.as_str())),
        path: string_of(&chars_of(sv.path.as_str())),
        file_count: sv.file_count,
        total_bytes: sv.total_bytes,
        modified: string_of(&chars_of(sv.modified.as_str())),
        modified_unix: sv.modified_unix,
        roles,
        videos,
    }
}

fn opt_copy(s: &Option<String>) -> (r: Option<String>)
    ensures
        r.deep_view() == s.deep_view(),
{
    match s {
        Some(t) => Some(string_of(&chars_of(t.as_str()))),
        None => None,
    }
}

/// Sorts actor folders: latest first, then more videos first, then by name.
pub fn sort_summaries(summaries: &Vec<ActorSummary>) -> (r: Vec<ActorSummary>)
    ensures
        r.deep_view() == reorder(summaries.deep_view(), the_sorted_order(summary_keys(summaries.deep_view()))),
{
    let ghost sv = summaries.deep_view();
    let mut keys: Vec<SortKey> = Vec::new();
    let mut i: usize = 0;
    while i < summaries.len()
        invariant
            i <= summaries.len(),
            sv == summaries.deep_view(),
            keys.deep_view() == summary_keys(sv.take(i as int)),
            uniform_keys(keys.deep_view()),
        decreases summaries.len() - i,
    {
        let s = &summaries[i];
        let ghost kv = KeyView { first: sv[i as int].modified_unix, second: sv[i as int].videos.len() as i64, text: sv[i as int].name, text2: Seq::empty(), text_desc: false };
        let ghost before = keys.deep_view();
        assert(sv[i as int] == s.deep_view());
        assert(s.videos.deep_view().len() == s.videos.len());
        keys.push(SortKey { first: s.modified_unix, second: s.videos.len() as i64, text: chars_of(s.name.as_str()), text2: Vec::new(), text_desc: false });
        proof {
            assert(keys.deep_view() =~= before.push(kv));
            assert(summary_keys(sv.take(i + 1)) =~= summary_keys(sv.take(i as int)).push(kv));
        }
        i += 1;
    }
    assert(sv.take(summaries.len() as int) =~= sv);
    let order = sorted_order(&keys);
    let mut out: Vec<ActorSummary> = Vec::new();
    let mut k: usize = 0;
    while k < order.len()
        invariant
            k <= order.len(),
            sv == summaries.deep_view(),
            sv.len() == summaries.len(),
            is_permutation(order@, keys.len() as nat),
            keys.deep_view().len() == keys.len(),
            keys.deep_view() == summary_keys(sv),
            out.deep_view() == reorder(sv, order@.take(k as int)),
        decreases order.len() - k,
    {
        let ghost before = out.deep_view();
        out.push(copy_summary(&summaries[order[k]]));
        proof {
            assert(out.deep_view() =~= before.push(sv[order@[k as int] as int]));
            assert(reorder(sv, order@.take(k + 1)) =~= reorder(sv, order@.take(k as int)).push(sv[order@[k as int] as int]));
        }
        k += 1;
    }
    assert(order@.take(order.len() as int) =~= order@);
    proof {
        assert(is_sorted_order(summary_keys(sv), order@));
        lemma_is_the_sorted_order(summary_keys(sv), order@);
    }
    out
}

/// The actor folders of a full scan: each direct folder that may be an actor
/// folder and has videos, summarised from the files under it (at most
/// `ACTOR_VIDEO_LIMIT` videos listed), latest first, then more videos first,
/// then by name.
pub fn build_actor_summaries(
    root: &str,
    files: &Vec<LibraryFile>,
    direct_folders: &Vec<DirectFolder>,
    excluded: &Vec<String>,
    now: i64,
) -> (r: Vec<ActorSummary>)
    ensures
        ({
            let u = summaries_unsorted(root@, files.deep_view(), actor_folders(direct_folders.deep_view(), excluded.deep_view()), now);
            r.deep_view() == reorder(u, the_sorted_order(summary_keys(u)))
        }),
{
    let candidates = actor_folder_list(direct_folders, excluded);
    let ghost cv = candidates.deep_view();
    let mut summaries: Vec<ActorSummary> = Vec::new();
    let mut i: usize = 0;
    while i < candidates.len()
        invariant
            i <= candidates.len(),
            cv == candidates.deep_view(),
            summaries.deep_view() == summaries_unsorted(root@, files.deep_view(), cv.take(i as int), now),
        decreases candidates.len() - i,
    {
        proof {
            let t = cv.take(i + 1);
            assert(t.drop_last() == cv.take(i as int));
            assert(t.last() == candidates[i as int].deep_view());
        }
        let folder = &candidates[i];
        let folder_files = files_under_folder_of(root, files, folder.name.as_str());
        if let Some(sv) = summarize_actor_folder(
            folder.name.as_str(),
            folder.path.as_str(),
            &folder_files,
            Some(ACTOR_VIDEO_LIMIT),
            now,
        ) {
            let ghost before = summaries.deep_view();
            let ghost svv = sv.deep_view();
            summaries.push(sv);
            assert(summaries.deep_view() =~= before.push(svv));
        }
        i += 1;
    }
    assert(cv.take(candidates.len() as int) == cv);
    sort_summaries(&summaries)
}

/// The state of an actor folder when the report was made.
pub struct ActorFolderSnapshot {
    pub path: String,
    pub modified_unix: i64,
}

/// A snapshot as values.
pub struct SnapshotView {
    pub path: Seq<char>,
    pub modified_unix: i64,
}

impl DeepView for ActorFolderSnapshot {
    type V = SnapshotView;

    open spec fn deep_view(&self) -> SnapshotView {
        SnapshotView { path: self.path@, modified_unix: self.modified_unix }
    }
}

/// Sort keys of snapshots: by path.
pub open spec fn snapshot_keys(snapshots: Seq<SnapshotView>) -> Seq<KeyView> {
    snapshots.map_values(|s: SnapshotView| KeyView { first: 0, second: 0, text: s.path, text2: Seq::empty(), text_desc: false })
}

/// The snapshots of the actor folders, unsorted.
pub open spec fn snapshots_of(folders: Seq<FolderView>) -> Seq<SnapshotView> {
    folders.map_values(|f: FolderView| SnapshotView { path: f.path, modified_unix: f.modified_unix })
}

/// The state of each folder that may be an actor folder, by path.
pub fn snapshot_actor_folders(direct_folders: &Vec<DirectFolder>, excluded: &Vec<String>) -> (r: Vec<ActorFolderSnapshot>)
    ensures
        ({
            let u = snapshots_of(actor_folders(direct_folders.deep_view(), excluded.deep_view()));
            r.deep_view() == reorder(u, the_sorted_order(snapshot_keys(u)))
        }),
{
    let candidates = actor_folder_list(direct_folders, excluded);
    let ghost u = snapshots_of(candidates.deep_view());
    let mut keys: Vec<SortKey> = Vec::new();
    let mut i: usize = 0;
    while i < candidates.len()
        invariant
            i <= candidates.len(),
            u == snapshots_of(candidates.deep_view()),
            keys.deep_view() == snapshot_keys(u.take(i as int)),
            uniform_keys(keys.deep_view()),
        decreases candidates.len() - i,
    {
        let ghost kv = KeyView { first: 0, second: 0, text: u[i as int].path, text2: Seq::empty(), text_desc: false };
        let ghost before = keys.deep_view();
        assert(u[i as int].path == candidates[i as int].path@);
        keys.push(SortKey { first: 0, second: 0, text: chars_of(candidates[i].path.as_str()), text2: Vec::new(), text_desc: false });
        proof {
            assert(keys.deep_view() =~= before.push(kv));
            assert(snapshot_keys(u.take(i + 1)) =~= snapshot_keys(u.take(i as int)).push(kv));
        }
        i += 1;
    }
    assert(u.take(candidates.len() as int) =~= u);
    let order = sorted_order(&keys);
    let mut out: Vec<ActorFolderSnapshot> = Vec::new();
    let mut k: usize = 0;
    while k < order.len()
        invariant
            k <= order.len(),
            u == snapshots_of(candidates.deep_view()),
            u.len() == candidates.len(),
            is_permutation(order@, keys.len() as nat),
            keys.deep_view().len() == keys.len(),
            keys.deep_view() == snapshot_keys(u),
            out.deep_view() == reorder(u, order@.take(k as int)),
        decreases order.len() - k,
    {
        let f = &candidates[order[k]];
        let ghost before = out.deep_view();
        out.push(ActorFolderSnapshot { path: string_of(&chars_of(f.path.as_str())), modified_unix: f.modified_unix });
        proof {
            assert(out.deep_view() =~= before.push(u[order@[k as int] as int]));
            assert(reorder(u, order@.take(k + 1)) =~= reorder(u, order@.take(k as int)).push(u[order@[k as int] as int]));
        }
        k += 1;
    }
    assert(order@.take(order.len() as int) =~= order@);
    proof {
        assert(is_sorted_order(snapshot_keys(u), order@));
        lemma_is_the_sorted_order(snapshot_keys(u), order@);
    }
    out
}

// ---------------------------------------------------------------------------
// Refreshing a cached report
// ---------------------------------------------------------------------------

/// Whether an actor folder is scanned again when a cached report is loaded,
/// and whether the report changes: a cached summary is trusted when the
/// folder has not changed since the scan and its snapshot is missing or
/// from an older format (equal to the summary's time but not the folder's);
/// otherwise the folder is scanned again unless its snapshot time matches.
pub open spec fn actor_refresh_spec(
    folder_modified: i64,
    cached_actor_modified: Option<i64>,
    saved_snapshot: Option<i64>,
    cached_scan_unix: Option<i64>,
) -> (bool, bool) {
    let legacy = match (saved_snapshot, cached_actor_modified) {
        (Some(snap), Some(actor)) => snap == actor && snap != folder_modified,
        _ => false,
    };
    let unchanged = match cached_scan_unix {
        Some(t) => folder_modified <= t,
        None => false,
    };
    let trust = cached_actor_modified is Some && unchanged && (saved_snapshot is None || legacy);
    if trust {
        (false, saved_snapshot != Some(folder_modified))
    } else {
        let needs = match saved_snapshot {
            Some(v) => v != folder_modified,
            None => true,
        };
        (needs, needs)
    }
}

/// Whether an actor folder is scanned again, and whether the report changes.
pub fn actor_refresh_decision(
    folder_modified: i64,
    cached_actor_modified: Option<i64>,
    saved_snapshot: Option<i64>,
    cached_scan_unix: Option<i64>,
) -> (r: (bool, bool))
    ensures
        r == actor_refresh_spec(folder_modified, cached_actor_modified, saved_snapshot, cached_scan_unix),
{
    let legacy = match (saved_snapshot, cached_actor_modified) {
        (Some(snap), Some(actor)) => snap == actor && snap != folder_modified,
        _ => false,
    };
    let unchanged = match cached_scan_unix {
        Some(t) => folder_modified <= t,
        None => false,
    };
    let trust = cached_actor_modified.is_some() && unchanged && (saved_snapshot.is_none() || legacy);
    if trust {
        let changed = match saved_snapshot {
            Some(v) => v != folder_modified,
            None => true,
        };
        (false, changed)
    } else {
        let needs = match saved_snapshot {
            Some(v) => v != folder_modified,
            None => true,
        };
        (needs, needs)
    }
}

/// Of the summaries, the position of the last one with the path (a report
/// keeps one per path; the last wins).
pub open spec fn last_summary_with_path(actors: Seq<SummaryView>, path: Seq<char>) -> Option<int>
    decreases actors.len(),
{
    if actors.len() == 0 {
        None
    } else if actors.last().path == path {
        Some(actors.len() - 1)
    } else {
        last_summary_with_path(actors.drop_last(), path)
    }
}

/// Of the snapshots, the time of the last one with the path.
pub open spec fn last_snapshot_with_path(snapshots: Seq<SnapshotView>, path: Seq<char>) -> Option<i64>
    decreases snapshots.len(),
{
    if snapshots.len() == 0 {
        None
    } else if snapshots.last().path == path {
        Some(snapshots.last().modified_unix)
    } else {
        last_snapshot_with_path(snapshots.drop_last(), path)
    }
}

fn last_summary_index(actors: &Vec<ActorSummary>, path: &str) -> (r: Option<usize>)
    ensures
        last_summary_with_path(actors.deep_view(), path@) == match r {
            Some(k) => Some(k as int),
            None => None::<int>,
        },
        r matches Some(k) ==> k < actors.len(),
{
    let ghost av = actors.deep_view();
    let mut i: usize = actors.len();
    assert(av.take(actors.len() as int) =~= av);
    while i > 0
        invariant
            i <= actors.len(),
            av == actors.deep_view(),
            last_summary_with_path(av, path@) == last_summary_with_path(av.take(i as int), path@),
        decreases i,
    {
        proof {
            let t = av.take(i as int);
            assert(t.drop_last() == av.take(i - 1));
            assert(t.last() == actors[i - 1].deep_view());
        }
        if str_eq(actors[i - 1].path.as_str(), path) {
            return Some(i - 1);
        }
        i -= 1;
    }
    None
}

fn last_snapshot_time(snapshots: &Vec<ActorFolderSnapshot>, path: &str) -> (r: Option<i64>)
    ensures
        r == last_snapshot_with_path(snapshots.deep_view(), path@),
{
    let ghost sv = snapshots.deep_view();
    let mut i: usize = snapshots.len();
    assert(sv.take(snapshots.len() as int) =~= sv);
    while i > 0
        invariant
            i <= snapshots.len(),
            sv == snapshots.deep_view(),
            last_snapshot_with_path(sv, path@) == last_snapshot_with_path(sv.take(i as int), path@),
        decreases i,
    {
        proof {
            let t = sv.take(i as int);
            assert(t.drop_last() == sv.take(i - 1));
            assert(t.last() == snapshots[i - 1].deep_view());
        }
        if str_eq(snapshots[i - 1].path.as_str(), path) {
            return Some(snapshots[i - 1].modified_unix);
        }
        i -= 1;
    }
    None
}

/// What loading a cached report does to each actor folder: which are
/// scanned again, and whether the report changed.
pub struct RefreshPlan {
    pub needs_refresh: Vec<bool>,
    pub changed: bool,
}

/// The decision for the actor folder at position `i`.
pub open spec fn folder_refresh(
    actors: Seq<SummaryView>,
    snapshots: Seq<SnapshotView>,
    candidates: Seq<FolderView>,
    cached_scan_unix: Option<i64>,
    i: int,
) -> (bool, bool) {
    let f = candidates[i];
    let cached = match last_summary_with_path(actors, f.path) {
        Some(k) => Some(actors[k].modified_unix),
        None => None,
    };
    actor_refresh_spec(f.modified_unix, cached, last_snapshot_with_path(snapshots, f.path), cached_scan_unix)
}

/// Whether some snapshot is of a folder that is no actor folder any more.
pub open spec fn stale_snapshot(snapshots: Seq<SnapshotView>, candidates: Seq<FolderView>) -> bool {
    exists|k: int| 0 <= k < snapshots.len() && !(exists|c: int| 0 <= c < candidates.len() && #[trigger] candidates[c].path == #[trigger] snapshots[k].path)
}

/// Plans the refresh of a cached report for the current actor folders.
pub fn plan_actor_refresh(
    actors: &Vec<ActorSummary>,
    snapshots: &Vec<ActorFolderSnapshot>,
    candidates: &Vec<DirectFolder>,
    cached_scan_unix: Option<i64>,
) -> (r: RefreshPlan)
    ensures
        r.needs_refresh.len() == candidates.len(),
        forall|i: int| 0 <= i < candidates.len() ==> #[trigger] r.needs_refresh@[i] == folder_refresh(
            actors.deep_view(),
            snapshots.deep_view(),
            candidates.deep_view(),
            cached_scan_unix,
            i,
        ).0,
        r.changed == ((exists|i: int| 0 <= i < candidates.len() && #[trigger] folder_refresh(
            actors.deep_view(),
            snapshots.deep_view(),
            candidates.deep_view(),
            cached_scan_unix,
            i,
        ).1) || stale_snapshot(snapshots.deep_view(), candidates.deep_view())),
{
    let ghost av = actors.deep_view();
    let ghost sv = snapshots.deep_view();
    let ghost cv = candidates.deep_view();
    let mut needs: Vec<bool> = Vec::new();
    let mut changed = false;
    let mut i: usize = 0;
    while i < candidates.len()
        invariant
            i <= candidates.len(),
            av == actors.deep_view(),
            sv == snapshots.deep_view(),
            cv == candidates.deep_view(),
            needs.len() == i,
            forall|k: int| 0 <= k < i ==> #[trigger] needs@[k] == folder_refresh(av, sv, cv, cached_scan_unix, k).0,
            changed == exists|k: int| 0 <= k < i && #[trigger] folder_refresh(av, sv, cv, cached_scan_unix, k).1,
        decreases candidates.len() - i,
    {
        let f = &candidates[i];
        assert(cv[i as int] == f.deep_view());
        let cached = match last_summary_index(actors, f.path.as_str()) {
            Some(k) => {
                assert(av[k as int] == actors[k as int].deep_view());
                Some(actors[k].modified_unix)
            },
            None => None,
        };
        let saved = last_snapshot_time(snapshots, f.path.as_str());
        let (n, c) = actor_refresh_decision(f.modified_unix, cached, saved, cached_scan_unix);
        assert((n, c) == folder_refresh(av, sv, cv, cached_scan_unix, i as int));
        needs.push(n);
        if c {
            changed = true;
        }
        i += 1;
    }
    let mut stale = false;
    let mut k: usize = 0;
    while k < snapshots.len()
        invariant
            k <= snapshots.len(),
            sv == snapshots.deep_view(),
            cv == candidates.deep_view(),
            stale == exists|m: int| 0 <= m < k && !(exists|c: int| 0 <= c < cv.len() && #[trigger] cv[c].path == #[trigger] sv[m].path),
        decreases snapshots.len() - k,
    {
        let path = snapshots[k].path.as_str();
        assert(sv[k as int].path == path@);
        let mut found = false;
        let mut c: usize = 0;
        while c < candidates.len()
            invariant
                c <= candidates.len(),
                cv == candidates.deep_view(),
                found == exists|d: int| 0 <= d < c && #[trigger] cv[d].path == path@,
            decreases candidates.len() - c,
        {
            assert(cv[c as int].path == candidates[c as int].path@);
            if str_eq(candidates[c].path.as_str(), path) {
                found = true;
            }
            c += 1;
        }
        if !found {
            stale = true;
        }
        k += 1;
    }
    assert(stale == stale_snapshot(sv, cv));
    RefreshPlan { needs_refresh: needs, changed: changed || stale }
}

/// The actor summaries after a refresh, in candidate order before sorting:
/// a rescanned folder gets its new summary (or none), any other keeps the
/// cached summary of its path, if there is one.
pub open spec fn merged_actors(
    actors: Seq<SummaryView>,
    candidates: Seq<FolderView>,
    needs_refresh: Seq<bool>,
    refreshed: Seq<Option<SummaryView>>,
) -> Seq<SummaryView>
    decreases candidates.len(),
{
    if candidates.len() == 0 {
        Seq::empty()
    } else {
        let i = candidates.len() - 1;
        let before = merged_actors(actors, candidates.drop_last(), needs_refresh, refreshed);
        let current = if needs_refresh[i] {
            refreshed[i]
        } else {
            match last_summary_with_path(actors, candidates[i].path) {
                Some(k) => Some(actors[k]),
                None => None,
            }
        };
        match current {
            Some(a) => before.push(a),
            None => before,
        }
    }
}

/// The actor folders of a refreshed report: the rescanned summaries (from
/// `summarize_actor_folder` on each folder marked in the plan, in candidate
/// order) and the cached ones of the others, latest first, then more videos
/// first, then by name.
pub fn merge_refreshed_actors(
    actors: &Vec<ActorSummary>,
    candidates: &Vec<DirectFolder>,
    needs_refresh: &Vec<bool>,
    refreshed: Vec<Option<ActorSummary>>,
) -> (r: Vec<ActorSummary>)
    requires
        needs_refresh.len() == candidates.len(),
        refreshed.len() == candidates.len(),
    ensures
        ({
            let u = merged_actors(actors.deep_view(), candidates.deep_view(), needs_refresh@, refreshed.deep_view());
            r.deep_view() == reorder(u, the_sorted_order(summary_keys(u)))
        }),
{
    let ghost av = actors.deep_view();
    let ghost cv = candidates.deep_view();
    let ghost rv = refreshed.deep_view();
    let mut merged: Vec<ActorSummary> = Vec::new();
    let mut i: usize = 0;
    while i < candidates.len()
        invariant
            i <= candidates.len(),
            needs_refresh.len() == candidates.len(),
            refreshed.len() == candidates.len(),
            av == actors.deep_view(),
            cv == candidates.deep_view(),
            rv == refreshed.deep_view(),
            merged.deep_view() == merged_actors(av, cv.take(i as int), needs_refresh@, rv),
        decreases candidates.len() - i,
    {
        proof {
            let t = cv.take(i + 1);
            assert(t.drop_last() == cv.take(i as int));
            assert(t[i as int] == candidates[i as int].deep_view());
        }
        let current = if needs_refresh[i] {
            assert(rv[i as int] == refreshed[i as int].deep_view());
            match &refreshed[i] {
                Some(a) => Some(copy_summary(a)),
                None => None,
            }
        } else {
            match last_summary_index(actors, candidates[i].path.as_str()) {
                Some(k) => {
                    assert(av[k as int] == actors[k as int].deep_view());
                    Some(copy_summary(&actors[k]))
                },
                None => None,
            }
        };
        if let Some(a) = current {
            let ghost before = merged.deep_view();
            let ghost adv = a.deep_view();
            merged.push(a);
            assert(merged.deep_view() =~= before.push(adv));
        }
        i += 1;
    }
    assert(cv.take(candidates.len() as int) == cv);
    sort_summaries(&merged)
}

/// Whether the appreciation folder is listed again: the cached report has
/// no such folder, it is another folder (ASCII case ignored), or the folder
/// changed since.
pub fn should_refresh_appreciation(
    cached_path: &str,
    current_path: &str,
    cached_snapshot: i64,
    current_snapshot: i64,
) -> (r: bool)
    ensures
        r == (cached_path@.len() == 0 || !eq_ignore_case(cached_path@, current_path@) || cached_snapshot != current_snapshot),
{
    cached_path.is_empty() || !eq_ignore_ascii_case(cached_path, current_path) || cached_snapshot != current_snapshot
}

/// The videos in the appreciation folder among the files found, latest
/// first.
pub open spec fn appreciation_videos_spec(files: Seq<FileView>, appreciation_dir: Seq<char>) -> Seq<FileView>
    decreases files.len(),
{
    if files.len() == 0 {
        Seq::empty()
    } else {
        let f = files.last();
        let before = appreciation_videos_spec(files.drop_last(), appreciation_dir);
        if is_video_ext(f.extension) && starts_with_result(f.path, appreciation_dir) {
            before.push(f)
        } else {
            before
        }
    }
}

/// The videos in the appreciation folder, latest first.
pub fn appreciation_videos(files: &Vec<LibraryFile>, appreciation_dir: &str) -> (r: Vec<LibraryFile>)
    ensures
        r.deep_view() == latest_first(appreciation_videos_spec(files.deep_view(), appreciation_dir@)),
{
    let ghost fv = files.deep_view();
    let mut out: Vec<LibraryFile> = Vec::new();
    let mut i: usize = 0;
    while i < files.len()
        invariant
            i <= files.len(),
            fv == files.deep_view(),
            out.deep_view() == appreciation_videos_spec(fv.take(i as int), appreciation_dir@),
        decreases files.len() - i,
    {
        proof {
            let t = fv.take(i + 1);
            assert(t.drop_last() == fv.take(i as int));
            assert(t.last() == files[i as int].deep_view());
        }
        if is_video_extension(files[i].extension.as_str()) && path_starts_with(files[i].path.as_str(), appreciation_dir) {
            let ghost before = out.deep_view();
            out.push(copy_file(&files[i]));
            assert(out.deep_view() =~= before.push(files[i as int].deep_view()));
        }
        i += 1;
    }
    assert(fv.take(files.len() as int) == fv);
    sort_by_modified_desc(&out)
}

/// The videos among files, in order.
pub open spec fn videos_only(files: Seq<FileView>) -> Seq<FileView>
    decreases files.len(),
{
    if files.len() == 0 {
        Seq::empty()
    } else if is_video_ext(files.last().extension) {
        videos_only(files.drop_last()).push(files.last())
    } else {
        videos_only(files.drop_last())
    }
}

/// The appreciation list after the folder was scanned again: its videos,
/// latest first.
pub fn appreciation_from_scan(files: &Vec<LibraryFile>) -> (r: Vec<LibraryFile>)
    ensures
        r.deep_view() == latest_first(videos_only(files.deep_view())),
{
    let ghost fv = files.deep_view();
    let mut out: Vec<LibraryFile> = Vec::new();
    let mut i: usize = 0;
    while i < files.len()
        invariant
            i <= files.len(),
            fv == files.deep_view(),
            out.deep_view() == videos_only(fv.take(i as int)),
        decreases files.len() - i,
    {
        proof {
            let t = fv.take(i + 1);
            assert(t.drop_last() == fv.take(i as int));
            assert(t.last() == files[i as int].deep_view());
        }
        if is_video_extension(files[i].extension.as_str()) {
            let ghost before = out.deep_view();
            out.push(copy_file(&files[i]));
            assert(out.deep_view() =~= before.push(files[i as int].deep_view()));
        }
        i += 1;
    }
    assert(fv.take(files.len() as int) == fv);
    sort_by_modified_desc(&out)
}

// ---------------------------------------------------------------------------
// Grouping files by key
// ---------------------------------------------------------------------------

/// A file with the key pair it is grouped by.
pub struct KeyedFile {
    pub key: String,
    pub key2: String,
    pub file: LibraryFile,
}

/// A keyed file as values.
pub struct KeyedView {
    pub key: Seq<char>,
    pub key2: Seq<char>,
    pub file: FileView,
}

impl DeepView for KeyedFile {
    type V = KeyedView;

    open spec fn deep_view(&self) -> KeyedView {
        KeyedView { key: self.key@, key2: self.key2@, file: self.file.deep_view() }
    }
}

/// The key pairs of the entries, each once, in order of first appearance.
pub open spec fn distinct_pairs(entries: Seq<KeyedView>) -> Seq<(Seq<char>, Seq<char>)>
    decreases entries.len(),
{
    if entries.len() == 0 {
        Seq::empty()
    } else {
        let before = distinct_pairs(entries.drop_last());
        let pair = (entries.last().key, entries.last().key2);
        if before.contains(pair) {
            before
        } else {
            before.push(pair)
        }
    }
}

/// Sort keys of key pairs: ascending by the first key, then the second.
pub open spec fn pair_keys(pairs: Seq<(Seq<char>, Seq<char>)>) -> Seq<KeyView> {
    pairs.map_values(|p: (Seq<char>, Seq<char>)| KeyView { first: 0, second: 0, text: p.0, text2: p.1, text_desc: false })
}

/// The files of the entries with the key pair, in order.
pub open spec fn files_with_pair(entries: Seq<KeyedView>, pair: (Seq<char>, Seq<char>)) -> Seq<FileView>
    decreases entries.len(),
{
    if entries.len() == 0 {
        Seq::empty()
    } else if (entries.last().key, entries.last().key2) == pair {
        files_with_pair(entries.drop_last(), pair).push(entries.last().file)
    } else {
        files_with_pair(entries.drop_last(), pair)
    }
}

/// The entries grouped by key pair, the pairs in ascending order (as a
/// sorted map keeps them), each group's files in entry order.
pub open spec fn grouped_spec(entries: Seq<KeyedView>) -> Seq<(Seq<char>, Seq<char>, Seq<FileView>)> {
    let pairs = distinct_pairs(entries);
    let sorted = reorder(pairs, the_sorted_order(pair_keys(pairs)));
    sorted.map_values(|p: (Seq<char>, Seq<char>)| (p.0, p.1, files_with_pair(entries, p)))
}

/// A group of files sharing a key pair.
pub struct FileGroup {
    pub key: String,
    pub key2: String,
    pub files: Vec<LibraryFile>,
}

fn distinct_pairs_of(entries: &Vec<KeyedFile>) -> (r: Vec<(String, String)>)
    ensures
        r.deep_view() == distinct_pairs(entries.deep_view()),
{
    let ghost ev = entries.deep_view();
    let mut out: Vec<(String, String)> = Vec::new();
    let mut i: usize = 0;
    while i < entries.len()
        invariant
            i <= entries.len(),
            ev == entries.deep_view(),
            out.deep_view() == distinct_pairs(ev.take(i as int)),
        decreases entries.len() - i,
    {
        proof {
            let t = ev.take(i + 1);
            assert(t.drop_last() == ev.take(i as int));
            assert(t.last() == entries[i as int].deep_view());
        }
        let e = &entries[i];
        let ghost pair = (e.key@, e.key2@);
        let mut seen = false;
        let mut k: usize = 0;
        while k < out.len()
            invariant
                k <= out.len(),
                pair == (e.key@, e.key2@),
                seen == exists|m: int| 0 <= m < k && out.deep_view()[m] == pair,
            decreases out.len() - k,
        {
            assert(out.deep_view()[k as int] == (out[k as int].0@, out[k as int].1@));
            if str_eq(out[k].0.as_str(), e.key.as_str()) && str_eq(out[k].1.as_str(), e.key2.as_str()) {
                seen = true;
            }
            k += 1;
        }
        proof {
            if seen {
                let m = choose|m: int| 0 <= m < out.len() && out.deep_view()[m] == pair;
                assert(out.deep_view().contains(pair));
            } else {
                assert(!out.deep_view().contains(pair));
            }
        }
        if !seen {
            let ghost before = out.deep_view();
            out.push((string_of(&chars_of(e.key.as_str())), string_of(&chars_of(e.key2.as_str()))));
            assert(out.deep_view() =~= before.push(pair));
        }
        i += 1;
    }
    assert(ev.take(entries.len() as int) == ev);
    out
}

fn files_with_pair_of(entries: &Vec<KeyedFile>, key: &str, key2: &str) -> (r: Vec<LibraryFile>)
    ensures
        r.deep_view() == files_with_pair(entries.deep_view(), (key@, key2@)),
{
    let ghost ev = entries.deep_view();
    let mut out: Vec<LibraryFile> = Vec::new();
    let mut i: usize = 0;
    while i < entries.len()
        invariant
            i <= entries.len(),
            ev == entries.deep_view(),
            out.deep_view() == files_with_pair(ev.take(i as int), (key@, key2@)),
        decreases entries.len() - i,
    {
        proof {
            let t = ev.take(i + 1);
            assert(t.drop_last() == ev.take(i as int));
            assert(t.last() == entries[i as int].deep_view());
        }
        if str_eq(entries[i].key.as_str(), key) && str_eq(entries[i].key2.as_str(), key2) {
            let ghost before = out.deep_view();
            out.push(copy_file(&entries[i].file));
            assert(out.deep_view() =~= before.push(entries[i as int].file.deep_view()));
        }
        i += 1;
    }
    assert(ev.take(entries.len() as int) == ev);
    out
}

/// Groups entries by key pair, the pairs in ascending order.
pub fn group_by_pair(entries: &Vec<KeyedFile>) -> (r: Vec<FileGroup>)
    ensures
        r.len() == grouped_spec(entries.deep_view()).len(),
        forall|g: int| 0 <= g < r.len() ==> (#[trigger] r@[g]).key@ == grouped_spec(entries.deep_view())[g].0
            && r@[g].key2@ == grouped_spec(entries.deep_view())[g].1
            && r@[g].files.deep_view() == grouped_spec(entries.deep_view())[g].2,
{
    let pairs = distinct_pairs_of(entries);
    let ghost pv = pairs.deep_view();
    let mut keys: Vec<SortKey> = Vec::new();
    let mut i: usize = 0;
    while i < pairs.len()
        invariant
            i <= pairs.len(),
            pv == pairs.deep_view(),
            keys.deep_view() == pair_keys(pv.take(i as int)),
            uniform_keys(keys.deep_view()),
        decreases pairs.len() - i,
    {
        let ghost kv = KeyView { first: 0, second: 0, text: pv[i as int].0, text2: pv[i as int].1, text_desc: false };
        let ghost before = keys.deep_view();
        assert(pv[i as int] == (pairs[i as int].0@, pairs[i as int].1@));
        keys.push(SortKey { first: 0, second: 0, text: chars_of(pairs[i].0.as_str()), text2: chars_of(pairs[i].1.as_str()), text_desc: false });
        proof {
            assert(keys.deep_view() =~= before.push(kv));
            assert(pair_keys(pv.take(i + 1)) =~= pair_keys(pv.take(i as int)).push(kv));
        }
        i += 1;
    }
    assert(pv.take(pairs.len() as int) =~= pv);
    let order = sorted_order(&keys);
    proof {
        assert(keys.deep_view().len() == keys.len());
        assert(is_sorted_order(pair_keys(pv), order@));
        lemma_is_the_sorted_order(pair_keys(pv), order@);
    }
    let ghost spec_groups = grouped_spec(entries.deep_view());
    let mut out: Vec<FileGroup> = Vec::new();
    let mut k: usize = 0;
    while k < order.len()
        invariant
            k <= order.len(),
            pv == pairs.deep_view(),
            pv.len() == pairs.len(),
            is_permutation(order@, keys.len() as nat),
            keys.len() == pairs.len(),
            order@ == the_sorted_order(pair_keys(pv)),
            pv == distinct_pairs(entries.deep_view()),
            spec_groups == grouped_spec(entries.deep_view()),
            spec_groups.len() == order.len(),
            out.len() == k,
            forall|g: int| 0 <= g < k ==> (#[trigger] out@[g]).key@ == spec_groups[g].0
                && out@[g].key2@ == spec_groups[g].1
                && out@[g].files.deep_view() == spec_groups[g].2,
        decreases order.len() - k,
    {
        let p = &pairs[order[k]];
        let files = files_with_pair_of(entries, p.0.as_str(), p.1.as_str());
        proof {
            assert(pv[order@[k as int] as int] == (pairs[order@[k as int] as int].0@, pairs[order@[k as int] as int].1@));
        }
        out.push(FileGroup { key: string_of(&chars_of(p.0.as_str())), key2: string_of(&chars_of(p.1.as_str())), files });
        k += 1;
    }
    out
}

// ---------------------------------------------------------------------------
// Duplicate groups
// ---------------------------------------------------------------------------

/// Files that share a name or a code.
pub struct DuplicateGroup {
    pub key: String,
    pub count: usize,
    pub total_bytes: i128,
    pub files: Vec<LibraryFile>,
}

/// A duplicate group as values.
pub struct DuplicateView {
    pub key: Seq<char>,
    pub count: usize,
    pub total_bytes: int,
    pub files: Seq<FileView>,
}

impl DeepView for DuplicateGroup {
    type V = DuplicateView;

    open spec fn deep_view(&self) -> DuplicateView {
        DuplicateView {
            key: self.key@,
            count: self.count,
            total_bytes: self.total_bytes as int,
            files: self.files.deep_view(),
        }
    }
}

/// A size in hundredths of a GiB, rounded as the report shows sizes (the
/// last half-hundredth rounds up); 0 for a negative size, and capped at
/// `i64::MAX` (far beyond any size a file system reports).
pub open spec fn centi_gib(bytes: int) -> int {
    if bytes < 0 {
        0
    } else {
        let c = 100 * (bytes / 1073741824) + (200 * (bytes % 1073741824) + 1073741824) / 2147483648;
        if c > i64::MAX { i64::MAX as int } else { c }
    }
}

/// The duplicate groups of grouped files: groups of more than one file, the
/// files largest first.
pub open spec fn duplicate_groups_unsorted(groups: Seq<(Seq<char>, Seq<char>, Seq<FileView>)>) -> Seq<DuplicateView>
    decreases groups.len(),
{
    if groups.len() == 0 {
        Seq::empty()
    } else {
        let before = duplicate_groups_unsorted(groups.drop_last());
        let g = groups.last();
        if g.2.len() > 1 {
            let files = reorder(g.2, the_sorted_order(number_keys(sizes(g.2))));
            before.push(DuplicateView { key: g.0, count: g.2.len() as usize, total_bytes: total_size(files), files })
        } else {
            before
        }
    }
}

/// Sort keys of duplicate groups: more files first, then larger first.
pub open spec fn duplicate_keys(groups: Seq<DuplicateView>) -> Seq<KeyView> {
    groups.map_values(
        |g: DuplicateView| KeyView { first: g.count as i64, second: centi_gib(g.total_bytes) as i64, text: Seq::empty(), text2: Seq::empty(), text_desc: false },
    )
}

/// Whether a listed group really holds duplicates: at least two files,
/// counted right, each the file of an entry with the group's key.
pub open spec fn group_ok(d: DuplicateView, entries: Seq<KeyedView>) -> bool {
    &&& d.count >= 2
    &&& d.files.len() == d.count
    &&& forall|k: int| 0 <= k < d.files.len() ==> exists|e: int|
        0 <= e < entries.len() && #[trigger] entries[e].key == d.key && entries[e].file == #[trigger] d.files[k]
}

proof fn lemma_files_with_pair_from_entries(entries: Seq<KeyedView>, pair: (Seq<char>, Seq<char>))
    ensures
        forall|k: int| 0 <= k < files_with_pair(entries, pair).len() ==> exists|e: int|
            0 <= e < entries.len() && #[trigger] entries[e].key == pair.0 && entries[e].key2 == pair.1
                && entries[e].file == #[trigger] files_with_pair(entries, pair)[k],
    decreases entries.len(),
{
    if entries.len() > 0 {
        lemma_files_with_pair_from_entries(entries.drop_last(), pair);
        let before = files_with_pair(entries.drop_last(), pair);
        assert forall|k: int| 0 <= k < files_with_pair(entries, pair).len() implies exists|e: int|
            0 <= e < entries.len() && #[trigger] entries[e].key == pair.0 && entries[e].key2 == pair.1
                && entries[e].file == #[trigger] files_with_pair(entries, pair)[k] by {
            if k < before.len() {
                let e = choose|e: int| 0 <= e < entries.drop_last().len() && #[trigger] entries.drop_last()[e].key == pair.0
                    && entries.drop_last()[e].key2 == pair.1 && entries.drop_last()[e].file == #[trigger] before[k];
                assert(entries[e] == entries.drop_last()[e]);
            } else {
                let e = entries.len() - 1;
                assert(entries[e].key == pair.0);
            }
        }
    }
}

/// The most duplicate groups shown.
pub const MAX_DUPLICATE_GROUPS: usize = 100;

/// The duplicate groups of keyed files, as the report shows them: groups of
/// more than one file in key order, then more files first, then larger first,
/// at most `MAX_DUPLICATE_GROUPS`.
pub open spec fn duplicate_groups_spec(entries: Seq<KeyedView>) -> Seq<DuplicateView> {
    let u = duplicate_groups_unsorted(grouped_spec(entries));
    let sorted = reorder(u, the_sorted_order(duplicate_keys(u)));
    if sorted.len() > MAX_DUPLICATE_GROUPS { sorted.take(MAX_DUPLICATE_GROUPS as int) } else { sorted }
}

fn centi_gib_of(bytes: i128) -> (r: i64)
    ensures
        r as int == centi_gib(bytes as int),
{
    if bytes < 0 {
        return 0;
    }
    let q = bytes / 1073741824;
    let m = bytes % 1073741824;
    assert(q <= 158456325028528675187087900671) by (nonlinear_arith)
        requires
            q == bytes / 1073741824,
            0 <= bytes <= i128::MAX;
    let c = 100 * q + (200 * m + 1073741824) / 2147483648;
    if c > 9223372036854775807i128 {
        9223372036854775807i64
    } else {
        c as i64
    }
}

fn copy_duplicate(g: &DuplicateGroup) -> (r: DuplicateGroup)
    ensures
        r.deep_view() == g.deep_view(),
{
    let order = identity_order(g.files.len());
    let files = pick_files(&g.files, &order);
    assert(files.deep_view() =~= g.files.deep_view());
    DuplicateGroup { key: string_of(&chars_of(g.key.as_str())), count: g.count, total_bytes: g.total_bytes, files }
}

fn identity_order(n: usize) -> (r: Vec<usize>)
    ensures
        r.len() == n,
        forall|k: int| 0 <= k < n ==> #[trigger] r@[k] == k,
{
    let mut out: Vec<usize> = Vec::new();
    let mut i: usize = 0;
    while i < n
        invariant
            i <= n,
            out.len() == i,
            forall|k: int| 0 <= k < i ==> #[trigger] out@[k] == k,
        decreases n - i,
    {
        out.push(i);
        i += 1;
    }
    out
}

/// The duplicate groups of keyed files (the second key is ignored).
pub fn duplicate_groups(entries: &Vec<KeyedFile>) -> (r: Vec<DuplicateGroup>)
    ensures
        r.deep_view() == duplicate_groups_spec(entries.deep_view()),
        forall|g: int| 0 <= g < r.len() ==> group_ok(#[trigger] r.deep_view()[g], entries.deep_view()),
{
    let groups = group_by_pair(entries);
    let ghost gs = grouped_spec(entries.deep_view());
    let mut dups: Vec<DuplicateGroup> = Vec::new();
    let mut keys: Vec<SortKey> = Vec::new();
    let mut i: usize = 0;
    while i < groups.len()
        invariant
            i <= groups.len(),
            gs == grouped_spec(entries.deep_view()),
            groups.len() == gs.len(),
            forall|g: int| 0 <= g < groups.len() ==> (#[trigger] groups@[g]).key@ == gs[g].0
                && groups@[g].key2@ == gs[g].1
                && groups@[g].files.deep_view() == gs[g].2,
            dups.deep_view() == duplicate_groups_unsorted(gs.take(i as int)),
            keys.deep_view() == duplicate_keys(dups.deep_view()),
            uniform_keys(keys.deep_view()),
            forall|m: int| 0 <= m < dups.len() ==> group_ok(#[trigger] dups.deep_view()[m], entries.deep_view()),
        decreases groups.len() - i,
    {
        proof {
            let t = gs.take(i + 1);
            assert(t.drop_last() == gs.take(i as int));
            assert(t.last() == gs[i as int]);
        }
        let g = &groups[i];
        if g.files.len() > 1 {
            let files = sort_by_size_desc(&g.files);
            let total = total_bytes_of(&files);
            let centi = centi_gib_of(total);
            let ghost dv = DuplicateView {
                key: gs[i as int].0,
                count: g.files.len(),
                total_bytes: total as int,
                files: files.deep_view(),
            };
            let ghost kv = KeyView { first: g.files.len() as i64, second: centi, text: Seq::empty(), text2: Seq::empty(), text_desc: false };
            let ghost before_d = dups.deep_view();
            let ghost before_k = keys.deep_view();
            proof {
                assert(g.files.deep_view().len() == g.files.len());
                let ev = entries.deep_view();
                let pair = (gs[i as int].0, gs[i as int].1);
                assert(gs[i as int].2 == files_with_pair(ev, pair));
                lemma_files_with_pair_from_entries(ev, pair);
                assert forall|k: int| 0 <= k < dv.files.len() implies exists|e: int|
                    0 <= e < ev.len() && #[trigger] ev[e].key == dv.key && ev[e].file == #[trigger] dv.files[k] by {
                    assert(g.files.deep_view().contains(files.deep_view()[k]));
                    let j = choose|j: int| 0 <= j < g.files.deep_view().len() && g.files.deep_view()[j] == files.deep_view()[k];
                    assert(files_with_pair(ev, pair)[j] == dv.files[k]);
                }
                assert(group_ok(dv, ev));
            }
            keys.push(SortKey { first: g.files.len() as i64, second: centi, text: Vec::new(), text2: Vec::new(), text_desc: false });
            dups.push(DuplicateGroup { key: string_of(&chars_of(g.key.as_str())), count: g.files.len(), total_bytes: total, files });
            proof {
                assert(dups.deep_view() =~= before_d.push(dv));
                assert(keys.deep_view() =~= before_k.push(kv));
                assert(duplicate_keys(before_d.push(dv)) =~= duplicate_keys(before_d).push(kv));
            }
        }
        i += 1;
    }
    assert(gs.take(groups.len() as int) =~= gs);
    let order = sorted_order(&keys);
    let ghost u = dups.deep_view();
    proof {
        assert(keys.deep_view().len() == keys.len());
        assert(is_sorted_order(duplicate_keys(u), order@));
        lemma_is_the_sorted_order(duplicate_keys(u), order@);
    }
    let mut out: Vec<DuplicateGroup> = Vec::new();
    let mut k: usize = 0;
    while k < order.len() && k < MAX_DUPLICATE_GROUPS
        invariant
            k <= order.len(),
            k <= MAX_DUPLICATE_GROUPS,
            u == dups.deep_view(),
            u.len() == dups.len(),
            is_permutation(order@, keys.len() as nat),
            keys.len() == dups.len(),
            out.deep_view() == reorder(u, order@.take(k as int)),
            forall|m: int| 0 <= m < dups.len() ==> group_ok(#[trigger] u[m], entries.deep_view()),
            forall|m: int| 0 <= m < out.len() ==> group_ok(#[trigger] out.deep_view()[m], entries.deep_view()),
        decreases order.len() - k,
    {
        let ghost before = out.deep_view();
        out.push(copy_duplicate(&dups[order[k]]));
        proof {
            assert(out.deep_view() =~= before.push(u[order@[k as int] as int]));
            assert(reorder(u, order@.take(k + 1)) =~= reorder(u, order@.take(k as int)).push(u[order@[k as int] as int]));
        }
        k += 1;
    }
    proof {
        let sorted = reorder(u, order@);
        if sorted.len() > MAX_DUPLICATE_GROUPS {
            assert(reorder(u, order@.take(k as int)) =~= sorted.take(MAX_DUPLICATE_GROUPS as int));
        } else {
            assert(order@.take(k as int) =~= order@);
        }
    }
    out
}

/// The files keyed by name (ASCII upper case), videos only.
pub open spec fn name_entries(files: Seq<FileView>) -> Seq<KeyedView>
    decreases files.len(),
{
    if files.len() == 0 {
        Seq::empty()
    } else {
        let f = files.last();
        let before = name_entries(files.drop_last());
        if is_video_ext(f.extension) {
            before.push(KeyedView { key: ascii_upper(f.name), key2: Seq::empty(), file: f })
        } else {
            before
        }
    }
}

/// The files keyed by their code, files with a code only.
pub open spec fn code_entries(files: Seq<FileView>) -> Seq<KeyedView>
    decreases files.len(),
{
    if files.len() == 0 {
        Seq::empty()
    } else {
        let f = files.last();
        let before = code_entries(files.drop_last());
        match f.media_code {
            Some(code) => before.push(KeyedView { key: code, key2: Seq::empty(), file: f }),
            None => before,
        }
    }
}

/// Videos that share a name (ASCII case ignored).
pub fn name_duplicate_groups(files: &Vec<LibraryFile>) -> (r: Vec<DuplicateGroup>)
    ensures
        r.deep_view() == duplicate_groups_spec(name_entries(files.deep_view())),
        forall|g: int| 0 <= g < r.len() ==> (#[trigger] r.deep_view()[g]).count >= 2 && r.deep_view()[g].files.len() == r.deep_view()[g].count,
        forall|g: int, k: int| #![trigger r.deep_view()[g].files[k]] 0 <= g < r.len() && 0 <= k < r.deep_view()[g].files.len() ==>
            ascii_upper(r.deep_view()[g].files[k].name) == r.deep_view()[g].key && is_video_ext(r.deep_view()[g].files[k].extension),
{
    let ghost fv = files.deep_view();
    let mut entries: Vec<KeyedFile> = Vec::new();
    let mut i: usize = 0;
    while i < files.len()
        invariant
            i <= files.len(),
            fv == files.deep_view(),
            entries.deep_view() == name_entries(fv.take(i as int)),
            forall|e: int| 0 <= e < entries.len() ==> (#[trigger] entries.deep_view()[e]).key == ascii_upper(entries.deep_view()[e].file.name)
                && is_video_ext(entries.deep_view()[e].file.extension),
        decreases files.len() - i,
    {
        proof {
            let t = fv.take(i + 1);
            assert(t.drop_last() == fv.take(i as int));
            assert(t.last() == files[i as int].deep_view());
        }
        let f = &files[i];
        if is_video_extension(f.extension.as_str()) {
            let ghost before = entries.deep_view();
            entries.push(KeyedFile { key: to_ascii_uppercase(f.name.as_str()), key2: String::new(), file: copy_file(f) });
            assert(entries.deep_view() =~= before.push(
                KeyedView { key: ascii_upper(f.name@), key2: Seq::empty(), file: files[i as int].deep_view() },
            ));
        }
        i += 1;
    }
    assert(fv.take(files.len() as int) == fv);
    let r = duplicate_groups(&entries);
    proof {
        assert forall|g: int| 0 <= g < r.len() implies (#[trigger] r.deep_view()[g]).count >= 2 && r.deep_view()[g].files.len() == r.deep_view()[g].count by {
            assert(group_ok(r.deep_view()[g], entries.deep_view()));
        }
        assert forall|g: int, k: int| #![trigger r.deep_view()[g].files[k]] 0 <= g < r.len() && 0 <= k < r.deep_view()[g].files.len() implies
            ascii_upper(r.deep_view()[g].files[k].name) == r.deep_view()[g].key && is_video_ext(r.deep_view()[g].files[k].extension) by {
            let d = r.deep_view()[g];
            assert(group_ok(d, entries.deep_view()));
            let e = choose|e: int| 0 <= e < entries.deep_view().len() && #[trigger] entries.deep_view()[e].key == d.key && entries.deep_view()[e].file == #[trigger] d.files[k];
        }
    }
    r
}

proof fn lemma_pair_listed(entries: Seq<KeyedView>, pair: (Seq<char>, Seq<char>))
    requires
        files_with_pair(entries, pair).len() > 0,
    ensures
        distinct_pairs(entries).contains(pair),
    decreases entries.len(),
{
    let d = entries.drop_last();
    let before = distinct_pairs(d);
    let last = (entries.last().key, entries.last().key2);
    if last == pair {
        if !before.contains(pair) {
            assert(before.push(pair)[before.len() as int] == pair);
        }
    } else {
        lemma_pair_listed(d, pair);
        let k = choose|k: int| 0 <= k < before.len() && before[k] == pair;
        if !before.contains(last) {
            assert(before.push(last)[k] == pair);
        }
    }
}

proof fn lemma_files_with_pair_len(entries: Seq<KeyedView>, pair: (Seq<char>, Seq<char>))
    ensures
        files_with_pair(entries, pair).len() <= entries.len(),
    decreases entries.len(),
{
    if entries.len() > 0 {
        lemma_files_with_pair_len(entries.drop_last(), pair);
    }
}

proof fn lemma_distinct_pairs_len(entries: Seq<KeyedView>)
    ensures
        distinct_pairs(entries).len() <= entries.len(),
    decreases entries.len(),
{
    if entries.len() > 0 {
        lemma_distinct_pairs_len(entries.drop_last());
    }
}

proof fn lemma_unsorted_len(groups: Seq<(Seq<char>, Seq<char>, Seq<FileView>)>)
    ensures
        duplicate_groups_unsorted(groups).len() <= groups.len(),
    decreases groups.len(),
{
    if groups.len() > 0 {
        lemma_unsorted_len(groups.drop_last());
    }
}

proof fn lemma_unsorted_has(groups: Seq<(Seq<char>, Seq<char>, Seq<FileView>)>, g: int)
    requires
        0 <= g < groups.len(),
        groups[g].2.len() > 1,
    ensures
        exists|t: int| 0 <= t < duplicate_groups_unsorted(groups).len()
            && (#[trigger] duplicate_groups_unsorted(groups)[t]).key == groups[g].0
            && duplicate_groups_unsorted(groups)[t].files
                == reorder(groups[g].2, the_sorted_order(number_keys(sizes(groups[g].2)))),
    decreases groups.len(),
{
    let d = groups.drop_last();
    let before = duplicate_groups_unsorted(d);
    let u = duplicate_groups_unsorted(groups);
    if g == groups.len() - 1 {
        assert(u[before.len() as int].key == groups[g].0);
    } else {
        lemma_unsorted_has(d, g);
        let t = choose|t: int| 0 <= t < before.len() && (#[trigger] before[t]).key == d[g].0
            && before[t].files == reorder(d[g].2, the_sorted_order(number_keys(sizes(d[g].2))));
        assert(d[g] == groups[g]);
        assert(u[t] == before[t]);
    }
}

/// Every key shared by two or more entries gets a group holding the
/// entries' files, largest first, unless the list is full (as many groups as
/// are shown).
pub proof fn lemma_duplicate_groups_complete(entries: Seq<KeyedView>, pair: (Seq<char>, Seq<char>))
    requires
        files_with_pair(entries, pair).len() >= 2,
        entries.len() <= usize::MAX,
    ensures
        (exists|g: int| 0 <= g < duplicate_groups_spec(entries).len()
            && (#[trigger] duplicate_groups_spec(entries)[g]).key == pair.0
            && duplicate_groups_spec(entries)[g].files == reorder(
                files_with_pair(entries, pair),
                the_sorted_order(number_keys(sizes(files_with_pair(entries, pair)))),
            )) || duplicate_groups_spec(entries).len() == MAX_DUPLICATE_GROUPS,
{
    let pairs = distinct_pairs(entries);
    lemma_pair_listed(entries, pair);
    lemma_distinct_pairs_len(entries);
    let v = choose|v: int| 0 <= v < pairs.len() && pairs[v] == pair;
    let pk = pair_keys(pairs);
    assert(uniform_keys(pk));
    lemma_sorted_reorder_keeps(pairs, pk, v);
    let sorted = reorder(pairs, the_sorted_order(pk));
    let a = choose|a: int| 0 <= a < sorted.len() && sorted[a] == pair;
    let groups = grouped_spec(entries);
    assert(groups[a] == (pair.0, pair.1, files_with_pair(entries, pair)));
    lemma_unsorted_has(groups, a);
    lemma_unsorted_len(groups);
    let u = duplicate_groups_unsorted(groups);
    let t = choose|t: int| 0 <= t < u.len() && (#[trigger] u[t]).key == groups[a].0
        && u[t].files == reorder(groups[a].2, the_sorted_order(number_keys(sizes(groups[a].2))));
    let dk = duplicate_keys(u);
    assert(uniform_keys(dk));
    lemma_sorted_reorder_keeps(u, dk, t);
    let sorted2 = reorder(u, the_sorted_order(dk));
    let b = choose|b: int| 0 <= b < sorted2.len() && sorted2[b] == u[t];
    if sorted2.len() <= MAX_DUPLICATE_GROUPS {
        assert(duplicate_groups_spec(entries) == sorted2);
        assert(duplicate_groups_spec(entries)[b] == u[t]);
    }
}

proof fn lemma_name_entries_step(files: Seq<FileView>, pair: (Seq<char>, Seq<char>))
    requires
        files.len() > 0,
    ensures
        files_with_pair(name_entries(files), pair) == if is_video_ext(files.last().extension)
            && (ascii_upper(files.last().name), Seq::<char>::empty()) == pair {
            files_with_pair(name_entries(files.drop_last()), pair).push(files.last())
        } else {
            files_with_pair(name_entries(files.drop_last()), pair)
        },
{
    let e = name_entries(files);
    let ed = name_entries(files.drop_last());
    if is_video_ext(files.last().extension) {
        assert(e.drop_last() =~= ed);
    }
}

/// Whether a file is a video of the (upper-cased) name.
pub open spec fn video_named(f: FileView, key: Seq<char>) -> bool {
    is_video_ext(f.extension) && ascii_upper(f.name) == key
}

proof fn lemma_name_file_listed(files: Seq<FileView>, key: Seq<char>, i: int)
    requires
        0 <= i < files.len(),
        video_named(files[i], key),
    ensures
        files_with_pair(name_entries(files), (key, Seq::<char>::empty())).contains(files[i]),
    decreases files.len(),
{
    let pair = (key, Seq::<char>::empty());
    lemma_name_entries_step(files, pair);
    let before = files_with_pair(name_entries(files.drop_last()), pair);
    if i == files.len() - 1 {
        assert(before.push(files[i])[before.len() as int] == files[i]);
    } else {
        lemma_name_file_listed(files.drop_last(), key, i);
        assert(files.drop_last()[i] == files[i]);
        let k = choose|k: int| 0 <= k < before.len() && before[k] == files[i];
        assert(before.push(files.last())[k] == files[i]);
    }
}

proof fn lemma_name_two_listed(files: Seq<FileView>, key: Seq<char>, i: int, j: int)
    requires
        0 <= i < j < files.len(),
        video_named(files[i], key),
        video_named(files[j], key),
    ensures
        files_with_pair(name_entries(files), (key, Seq::<char>::empty())).len() >= 2,
    decreases files.len(),
{
    let pair = (key, Seq::<char>::empty());
    lemma_name_entries_step(files, pair);
    let d = files.drop_last();
    assert(d[i] == files[i]);
    if j == files.len() - 1 {
        lemma_name_file_listed(d, key, i);
    } else {
        assert(d[j] == files[j]);
        lemma_name_two_listed(d, key, i, j);
    }
}

proof fn lemma_video_count_le(files: Seq<FileView>)
    ensures
        video_count_spec(files) <= files.len(),
    decreases files.len(),
{
    if files.len() > 0 {
        lemma_video_count_le(files.drop_last());
    }
}

proof fn lemma_name_entries_len(files: Seq<FileView>)
    ensures
        name_entries(files).len() == video_count_spec(files),
    decreases files.len(),
{
    if files.len() > 0 {
        lemma_name_entries_len(files.drop_last());
    }
}

/// Any two videos whose names agree up to ASCII case, wherever they lie in
/// the library, end up in the same name-duplicate group, whose key is the
/// upper-cased name, unless the list of groups is full.
pub proof fn lemma_name_duplicates_complete(files: Seq<FileView>, i: int, j: int)
    requires
        0 <= i < j < files.len(),
        files.len() <= usize::MAX,
        is_video_ext(files[i].extension),
        is_video_ext(files[j].extension),
        ascii_upper(files[i].name) == ascii_upper(files[j].name),
    ensures
        (exists|g: int| 0 <= g < duplicate_groups_spec(name_entries(files)).len()
            && (#[trigger] duplicate_groups_spec(name_entries(files))[g]).key == ascii_upper(files[i].name)
            && duplicate_groups_spec(name_entries(files))[g].files.contains(files[i])
            && duplicate_groups_spec(name_entries(files))[g].files.contains(files[j]))
            || duplicate_groups_spec(name_entries(files)).len() == MAX_DUPLICATE_GROUPS,
{
    let key = ascii_upper(files[i].name);
    let pair = (key, Seq::<char>::empty());
    let entries = name_entries(files);
    lemma_name_entries_len(files);
    lemma_video_count_le(files);
    lemma_name_two_listed(files, key, i, j);
    lemma_name_file_listed(files, key, i);
    lemma_name_file_listed(files, key, j);
    lemma_duplicate_groups_complete(entries, pair);
    let groups = duplicate_groups_spec(entries);
    let fw = files_with_pair(entries, pair);
    if groups.len() < MAX_DUPLICATE_GROUPS {
        let g = choose|g: int| 0 <= g < groups.len() && (#[trigger] groups[g]).key == pair.0
            && groups[g].files == reorder(fw, the_sorted_order(number_keys(sizes(fw))));
        let nk = number_keys(sizes(fw));
        assert(uniform_keys(nk));
        lemma_files_with_pair_len(entries, pair);
        let vi = choose|v: int| 0 <= v < fw.len() && fw[v] == files[i];
        let vj = choose|v: int| 0 <= v < fw.len() && fw[v] == files[j];
        lemma_sorted_reorder_keeps(fw, nk, vi);
        lemma_sorted_reorder_keeps(fw, nk, vj);
    }
}

proof fn lemma_code_entries_step(files: Seq<FileView>, pair: (Seq<char>, Seq<char>))
    requires
        files.len() > 0,
    ensures
        files_with_pair(code_entries(files), pair) == if files.last().media_code is Some
            && (files.last().media_code->Some_0, Seq::<char>::empty()) == pair {
            files_with_pair(code_entries(files.drop_last()), pair).push(files.last())
        } else {
            files_with_pair(code_entries(files.drop_last()), pair)
        },
{
    let e = code_entries(files);
    let ed = code_entries(files.drop_last());
    if files.last().media_code is Some {
        assert(e.drop_last() =~= ed);
    }
}

proof fn lemma_code_file_listed(files: Seq<FileView>, code: Seq<char>, i: int)
    requires
        0 <= i < files.len(),
        files[i].media_code == Some(code),
    ensures
        files_with_pair(code_entries(files), (code, Seq::<char>::empty())).contains(files[i]),
    decreases files.len(),
{
    let pair = (code, Seq::<char>::empty());
    lemma_code_entries_step(files, pair);
    let before = files_with_pair(code_entries(files.drop_last()), pair);
    if i == files.len() - 1 {
        assert(before.push(files[i])[before.len() as int] == files[i]);
    } else {
        lemma_code_file_listed(files.drop_last(), code, i);
        assert(files.drop_last()[i] == files[i]);
        let k = choose|k: int| 0 <= k < before.len() && before[k] == files[i];
        assert(before.push(files.last())[k] == files[i]);
    }
}

proof fn lemma_code_two_listed(files: Seq<FileView>, code: Seq<char>, i: int, j: int)
    requires
        0 <= i < j < files.len(),
        files[i].media_code == Some(code),
        files[j].media_code == Some(code),
    ensures
        files_with_pair(code_entries(files), (code, Seq::<char>::empty())).len() >= 2,
    decreases files.len(),
{
    let pair = (code, Seq::<char>::empty());
    lemma_code_entries_step(files, pair);
    let d = files.drop_last();
    assert(d[i] == files[i]);
    if j == files.len() - 1 {
        lemma_code_file_listed(d, code, i);
    } else {
        assert(d[j] == files[j]);
        lemma_code_two_listed(d, code, i, j);
    }
}

proof fn lemma_code_entries_len(files: Seq<FileView>)
    ensures
        code_entries(files).len() <= files.len(),
    decreases files.len(),
{
    if files.len() > 0 {
        lemma_code_entries_len(files.drop_last());
    }
}

/// Any two files with the same code, wherever they lie in the library, end
/// up in the same code-duplicate group, whose key is the code, unless the
/// list of groups is full.
pub proof fn lemma_code_duplicates_complete(files: Seq<FileView>, i: int, j: int, code: Seq<char>)
    requires
        0 <= i < j < files.len(),
        files.len() <= usize::MAX,
        files[i].media_code == Some(code),
        files[j].media_code == Some(code),
    ensures
        (exists|g: int| 0 <= g < duplicate_groups_spec(code_entries(files)).len()
            && (#[trigger] duplicate_groups_spec(code_entries(files))[g]).key == code
            && duplicate_groups_spec(code_entries(files))[g].files.contains(files[i])
            && duplicate_groups_spec(code_entries(files))[g].files.contains(files[j]))
            || duplicate_groups_spec(code_entries(files)).len() == MAX_DUPLICATE_GROUPS,
{
    let pair = (code, Seq::<char>::empty());
    let entries = code_entries(files);
    lemma_code_entries_len(files);
    lemma_code_two_listed(files, code, i, j);
    lemma_code_file_listed(files, code, i);
    lemma_code_file_listed(files, code, j);
    lemma_duplicate_groups_complete(entries, pair);
    let groups = duplicate_groups_spec(entries);
    let fw = files_with_pair(entries, pair);
    if groups.len() < MAX_DUPLICATE_GROUPS {
        let g = choose|g: int| 0 <= g < groups.len() && (#[trigger] groups[g]).key == pair.0
            && groups[g].files == reorder(fw, the_sorted_order(number_keys(sizes(fw))));
        let nk = number_keys(sizes(fw));
        assert(uniform_keys(nk));
        lemma_files_with_pair_len(entries, pair);
        let vi = choose|v: int| 0 <= v < fw.len() && fw[v] == files[i];
        let vj = choose|v: int| 0 <= v < fw.len() && fw[v] == files[j];
        lemma_sorted_reorder_keeps(fw, nk, vi);
        lemma_sorted_reorder_keeps(fw, nk, vj);
    }
}

/// Files that share a code.
pub fn code_duplicate_groups(files: &Vec<LibraryFile>) -> (r: Vec<DuplicateGroup>)
    ensures
        r.deep_view() == duplicate_groups_spec(code_entries(files.deep_view())),
        forall|g: int| 0 <= g < r.len() ==> (#[trigger] r.deep_view()[g]).count >= 2 && r.deep_view()[g].files.len() == r.deep_view()[g].count,
        forall|g: int, k: int| #![trigger r.deep_view()[g].files[k]] 0 <= g < r.len() && 0 <= k < r.deep_view()[g].files.len() ==>
            r.deep_view()[g].files[k].media_code == Some(r.deep_view()[g].key),
{
    let ghost fv = files.deep_view();
    let mut entries: Vec<KeyedFile> = Vec::new();
    let mut i: usize = 0;
    while i < files.len()
        invariant
            i <= files.len(),
            fv == files.deep_view(),
            entries.deep_view() == code_entries(fv.take(i as int)),
            forall|e: int| 0 <= e < entries.len() ==> (#[trigger] entries.deep_view()[e]).file.media_code == Some(entries.deep_view()[e].key),
        decreases files.len() - i,
    {
        proof {
            let t = fv.take(i + 1);
            assert(t.drop_last() == fv.take(i as int));
            assert(t.last() == files[i as int].deep_view());
        }
        let f = &files[i];
        if let Some(code) = &f.media_code {
            let ghost before = entries.deep_view();
            entries.push(KeyedFile { key: string_of(&chars_of(code.as_str())), key2: String::new(), file: copy_file(f) });
            assert(entries.deep_view() =~= before.push(
                KeyedView { key: code@, key2: Seq::empty(), file: files[i as int].deep_view() },
            ));
        }
        i += 1;
    }
    assert(fv.take(files.len() as int) == fv);
    let r = duplicate_groups(&entries);
    proof {
        assert forall|g: int| 0 <= g < r.len() implies (#[trigger] r.deep_view()[g]).count >= 2 && r.deep_view()[g].files.len() == r.deep_view()[g].count by {
            assert(group_ok(r.deep_view()[g], entries.deep_view()));
        }
        assert forall|g: int, k: int| #![trigger r.deep_view()[g].files[k]] 0 <= g < r.len() && 0 <= k < r.deep_view()[g].files.len() implies
            r.deep_view()[g].files[k].media_code == Some(r.deep_view()[g].key) by {
            let d = r.deep_view()[g];
            assert(group_ok(d, entries.deep_view()));
            let e = choose|e: int| 0 <= e < entries.deep_view().len() && #[trigger] entries.deep_view()[e].key == d.key && entries.deep_view()[e].file == #[trigger] d.files[k];
        }
    }
    r
}

// ---------------------------------------------------------------------------
// Files in one folder sharing a number
// ---------------------------------------------------------------------------

/// A run of three or more digits in a name.
pub const NUMBER_PATTERN: &'static str = "\\d{3,}";

/// Files in one top-level folder whose names share a number.
pub struct NumericDuplicateGroup {
    pub folder: String,
    pub number: String,
    pub count: usize,
    pub files: Vec<LibraryFile>,
}

/// A numeric group as values.
pub struct NumericView {
    pub folder: Seq<char>,
    pub number: Seq<char>,
    pub count: usize,
    pub files: Seq<FileView>,
}

impl DeepView for NumericDuplicateGroup {
    type V = NumericView;

    open spec fn deep_view(&self) -> NumericView {
        NumericView { folder: self.folder@, number: self.number@, count: self.count, files: self.files.deep_view() }
    }
}

/// One entry per number found in each name.
pub open spec fn number_hits(f: FileView, hits: Seq<Seq<char>>) -> Seq<KeyedView> {
    hits.map_values(|h: Seq<char>| KeyedView { key: f.parent, key2: h, file: f })
}

/// The videos directly inside top-level folders, keyed by folder and by
/// each number in their names.
pub open spec fn numeric_entries(files: Seq<FileView>) -> Seq<KeyedView>
    decreases files.len(),
{
    if files.len() == 0 {
        Seq::empty()
    } else {
        let f = files.last();
        let before = numeric_entries(files.drop_last());
        if f.depth == 1 && is_video_ext(f.extension) {
            before + number_hits(f, find_all_result(NUMBER_PATTERN@, f.name))
        } else {
            before
        }
    }
}

/// Sort keys by name ascending.
pub open spec fn name_keys(files: Seq<FileView>) -> Seq<KeyView> {
    files.map_values(|f: FileView| KeyView { first: 0, second: 0, text: f.name, text2: Seq::empty(), text_desc: false })
}

/// The numeric groups of grouped entries: groups of more than one entry, the
/// files by name.
pub open spec fn numeric_groups_unsorted(groups: Seq<(Seq<char>, Seq<char>, Seq<FileView>)>) -> Seq<NumericView>
    decreases groups.len(),
{
    if groups.len() == 0 {
        Seq::empty()
    } else {
        let before = numeric_groups_unsorted(groups.drop_last());
        let g = groups.last();
        if g.2.len() > 1 {
            let files = reorder(g.2, the_sorted_order(name_keys(g.2)));
            before.push(NumericView { folder: g.0, number: g.1, count: g.2.len() as usize, files })
        } else {
            before
        }
    }
}

/// Sort keys of numeric groups: more files first, then by folder.
pub open spec fn numeric_keys(groups: Seq<NumericView>) -> Seq<KeyView> {
    groups.map_values(
        |g: NumericView| KeyView { first: g.count as i64, second: 0, text: g.folder, text2: Seq::empty(), text_desc: false },
    )
}

/// The most numeric groups shown.
pub const MAX_NUMERIC_GROUPS: usize = 150;

/// The numeric groups as the report shows them.
pub open spec fn numeric_groups_spec(files: Seq<FileView>) -> Seq<NumericView> {
    let u = numeric_groups_unsorted(grouped_spec(numeric_entries(files)));
    let sorted = reorder(u, the_sorted_order(numeric_keys(u)));
    if sorted.len() > MAX_NUMERIC_GROUPS { sorted.take(MAX_NUMERIC_GROUPS as int) } else { sorted }
}

fn sort_by_name(files: &Vec<LibraryFile>) -> (r: Vec<LibraryFile>)
    ensures
        r.deep_view() == reorder(files.deep_view(), the_sorted_order(name_keys(files.deep_view()))),
{
    let ghost fv = files.deep_view();
    let mut keys: Vec<SortKey> = Vec::new();
    let mut i: usize = 0;
    while i < files.len()
        invariant
            i <= files.len(),
            fv == files.deep_view(),
            keys.deep_view() == name_keys(fv.take(i as int)),
            uniform_keys(keys.deep_view()),
        decreases files.len() - i,
    {
        let ghost kv = KeyView { first: 0, second: 0, text: fv[i as int].name, text2: Seq::empty(), text_desc: false };
        let ghost before = keys.deep_view();
        assert(fv[i as int] == files[i as int].deep_view());
        keys.push(SortKey { first: 0, second: 0, text: chars_of(files[i].name.as_str()), text2: Vec::new(), text_desc: false });
        proof {
            assert(keys.deep_view() =~= before.push(kv));
            assert(name_keys(fv.take(i + 1)) =~= name_keys(fv.take(i as int)).push(kv));
        }
        i += 1;
    }
    assert(fv.take(files.len() as int) =~= fv);
    let order = sorted_order(&keys);
    proof {
        assert(keys.deep_view().len() == keys.len());
        assert(is_sorted_order(name_keys(fv), order@));
        lemma_is_the_sorted_order(name_keys(fv), order@);
        assert forall|k: int| 0 <= k < order.len() implies #[trigger] order@[k] < files.len() by {}
    }
    pick_files(files, &order)
}

fn copy_numeric(g: &NumericDuplicateGroup) -> (r: NumericDuplicateGroup)
    ensures
        r.deep_view() == g.deep_view(),
{
    let order = identity_order(g.files.len());
    let files = pick_files(&g.files, &order);
    assert(files.deep_view() =~= g.files.deep_view());
    NumericDuplicateGroup {
        folder: string_of(&chars_of(g.folder.as_str())),
        number: string_of(&chars_of(g.number.as_str())),
        count: g.count,
        files,
    }
}

fn numeric_entries_of(files: &Vec<LibraryFile>) -> (r: Vec<KeyedFile>)
    ensures
        r.deep_view() == numeric_entries(files.deep_view()),
{
    let ghost fv = files.deep_view();
    let mut entries: Vec<KeyedFile> = Vec::new();
    let mut i: usize = 0;
    while i < files.len()
        invariant
            i <= files.len(),
            fv == files.deep_view(),
            entries.deep_view() == numeric_entries(fv.take(i as int)),
        decreases files.len() - i,
    {
        proof {
            let t = fv.take(i + 1);
            assert(t.drop_last() == fv.take(i as int));
            assert(t.last() == files[i as int].deep_view());
        }
        let f = &files[i];
        if f.depth == 1 && is_video_extension(f.extension.as_str()) {
            let hits = regex_find_all(NUMBER_PATTERN, f.name.as_str());
            let ghost before = entries.deep_view();
            let ghost fview = files[i as int].deep_view();
            let mut h: usize = 0;
            while h < hits.len()
                invariant
                    h <= hits.len(),
                    fview == f.deep_view(),
                    entries.deep_view() == before + number_hits(fview, hits.deep_view().take(h as int)),
                decreases hits.len() - h,
            {
                let ghost b2 = entries.deep_view();
                entries.push(
                    KeyedFile { key: string_of(&chars_of(f.parent.as_str())), key2: string_of(&chars_of(hits[h].as_str())), file: copy_file(f) },
                );
                proof {
                    let kv = KeyedView { key: fview.parent, key2: hits[h as int]@, file: fview };
                    assert(entries.deep_view() =~= b2.push(kv));
                    assert(hits.deep_view()[h as int] == hits[h as int]@);
                    assert(number_hits(fview, hits.deep_view().take(h + 1)) =~= number_hits(fview, hits.deep_view().take(h as int)).push(kv));
                }
                h += 1;
            }
            assert(hits.deep_view().take(hits.len() as int) =~= hits.deep_view());
        }
        i += 1;
    }
    assert(fv.take(files.len() as int) == fv);
    entries
}

/// Videos directly inside top-level folders whose names share a number of
/// three or more digits within one folder: groups of more than one in
/// (folder, number) order, files by name, then more files first, then by
/// folder, at most `MAX_NUMERIC_GROUPS`.
pub fn numeric_duplicate_groups(files: &Vec<LibraryFile>) -> (r: Vec<NumericDuplicateGroup>)
    ensures
        r.deep_view() == numeric_groups_spec(files.deep_view()),
{
    let entries = numeric_entries_of(files);
    let groups = group_by_pair(&entries);
    let ghost gs = grouped_spec(entries.deep_view());
    let mut found: Vec<NumericDuplicateGroup> = Vec::new();
    let mut keys: Vec<SortKey> = Vec::new();
    let mut i: usize = 0;
    while i < groups.len()
        invariant
            i <= groups.len(),
            gs == grouped_spec(entries.deep_view()),
            groups.len() == gs.len(),
            forall|g: int| 0 <= g < groups.len() ==> (#[trigger] groups@[g]).key@ == gs[g].0
                && groups@[g].key2@ == gs[g].1
                && groups@[g].files.deep_view() == gs[g].2,
            found.deep_view() == numeric_groups_unsorted(gs.take(i as int)),
            keys.deep_view() == numeric_keys(found.deep_view()),
            uniform_keys(keys.deep_view()),
        decreases groups.len() - i,
    {
        proof {
            let t = gs.take(i + 1);
            assert(t.drop_last() == gs.take(i as int));
            assert(t.last() == gs[i as int]);
        }
        let g = &groups[i];
        if g.files.len() > 1 {
            let sorted = sort_by_name(&g.files);
            let ghost nv = NumericView { folder: gs[i as int].0, number: gs[i as int].1, count: g.files.len(), files: sorted.deep_view() };
            let ghost kv = KeyView { first: g.files.len() as i64, second: 0, text: gs[i as int].0, text2: Seq::empty(), text_desc: false };
            let ghost before_f = found.deep_view();
            let ghost before_k = keys.deep_view();
            proof {
                assert(g.files.deep_view().len() == g.files.len());
            }
            keys.push(SortKey { first: g.files.len() as i64, second: 0, text: chars_of(g.key.as_str()), text2: Vec::new(), text_desc: false });
            found.push(
                NumericDuplicateGroup {
                    folder: string_of(&chars_of(g.key.as_str())),
                    number: string_of(&chars_of(g.key2.as_str())),
                    count: g.files.len(),
                    files: sorted,
                },
            );
            proof {
                assert(found.deep_view() =~= before_f.push(nv));
                assert(keys.deep_view() =~= before_k.push(kv));
                assert(numeric_keys(before_f.push(nv)) =~= numeric_keys(before_f).push(kv));
            }
        }
        i += 1;
    }
    assert(gs.take(groups.len() as int) =~= gs);
    let order = sorted_order(&keys);
    let ghost u = found.deep_view();
    proof {
        assert(keys.deep_view().len() == keys.len());
        assert(is_sorted_order(numeric_keys(u), order@));
        lemma_is_the_sorted_order(numeric_keys(u), order@);
    }
    let mut out: Vec<NumericDuplicateGroup> = Vec::new();
    let mut k: usize = 0;
    while k < order.len() && k < MAX_NUMERIC_GROUPS
        invariant
            k <= order.len(),
            k <= MAX_NUMERIC_GROUPS,
            u == found.deep_view(),
            u.len() == found.len(),
            is_permutation(order@, keys.len() as nat),
            keys.len() == found.len(),
            out.deep_view() == reorder(u, order@.take(k as int)),
        decreases order.len() - k,
    {
        let ghost before = out.deep_view();
        out.push(copy_numeric(&found[order[k]]));
        proof {
            assert(out.deep_view() =~= before.push(u[order@[k as int] as int]));
            assert(reorder(u, order@.take(k + 1)) =~= reorder(u, order@.take(k as int)).push(u[order@[k as int] as int]));
        }
        k += 1;
    }
    proof {
        let sorted = reorder(u, order@);
        if sorted.len() > MAX_NUMERIC_GROUPS {
            assert(reorder(u, order@.take(k as int)) =~= sorted.take(MAX_NUMERIC_GROUPS as int));
        } else {
            assert(order@.take(k as int) =~= order@);
        }
    }
    out
}

// ---------------------------------------------------------------------------
// Largest folders
// ---------------------------------------------------------------------------

/// A top-level folder with the files found in it.
pub struct FolderSummary {
    pub name: String,
    pub path: String,
    pub file_count: usize,
    pub size_bytes: i128,
    pub modified: String,
    pub modified_unix: i64,
}

/// A folder summary as values.
pub struct FolderSummaryView {
    pub name: Seq<char>,
    pub path: Seq<char>,
    pub file_count: usize,
    pub size_bytes: int,
    pub modified: Seq<char>,
    pub modified_unix: i64,
}

impl DeepView for FolderSummary {
    type V = FolderSummaryView;

    open spec fn deep_view(&self) -> FolderSummaryView {
        FolderSummaryView {
            name: self.name@,
            path: self.path@,
            file_count: self.file_count,
            size_bytes: self.size_bytes as int,
            modified: self.modified@,
            modified_unix: self.modified_unix,
        }
    }
}

/// The files not directly under the root, keyed by their top-level folder
/// (name and path).
pub open spec fn folder_entries(root: Seq<char>, files: Seq<FileView>) -> Seq<KeyedView>
    decreases files.len(),
{
    if files.len() == 0 {
        Seq::empty()
    } else {
        let f = files.last();
        let before = folder_entries(root, files.drop_last());
        if !f.is_root_file {
            let (name, path) = top_level_key_spec(root, f.path);
            before.push(KeyedView { key: name, key2: path, file: f })
        } else {
            before
        }
    }
}

/// The summary of each group: file count, total size, and the first of its
/// latest files.
pub open spec fn folder_summaries_unsorted(groups: Seq<(Seq<char>, Seq<char>, Seq<FileView>)>) -> Seq<FolderSummaryView>
    decreases groups.len(),
{
    if groups.len() == 0 {
        Seq::empty()
    } else {
        let g = groups.last();
        let before = folder_summaries_unsorted(groups.drop_last());
        if g.2.len() > 0 {
            let latest = g.2[latest_from(g.2, 0, 0)];
            before.push(FolderSummaryView {
                name: g.0,
                path: g.1,
                file_count: g.2.len() as usize,
                size_bytes: total_size(g.2),
                modified: latest.modified,
                modified_unix: latest.modified_unix,
            })
        } else {
            before
        }
    }
}

/// Sort keys of folder summaries: larger first, sizes compared as the report
/// shows them.
pub open spec fn folder_keys(folders: Seq<FolderSummaryView>) -> Seq<KeyView> {
    folders.map_values(
        |f: FolderSummaryView| KeyView { first: centi_gib(f.size_bytes) as i64, second: 0, text: Seq::empty(), text2: Seq::empty(), text_desc: false },
    )
}

/// The most folders listed as largest.
pub const MAX_LARGEST_FOLDERS: usize = 20;

/// The largest top-level folders as the report shows them.
pub open spec fn largest_folders_spec(root: Seq<char>, files: Seq<FileView>) -> Seq<FolderSummaryView> {
    let u = folder_summaries_unsorted(grouped_spec(folder_entries(root, files)));
    let sorted = reorder(u, the_sorted_order(folder_keys(u)));
    if sorted.len() > MAX_LARGEST_FOLDERS { sorted.take(MAX_LARGEST_FOLDERS as int) } else { sorted }
}

fn folder_entries_of(root: &str, files: &Vec<LibraryFile>) -> (r: Vec<KeyedFile>)
    ensures
        r.deep_view() == folder_entries(root@, files.deep_view()),
{
    let ghost fv = files.deep_view();
    let mut entries: Vec<KeyedFile> = Vec::new();
    let mut i: usize = 0;
    while i < files.len()
        invariant
            i <= files.len(),
            fv == files.deep_view(),
            entries.deep_view() == folder_entries(root@, fv.take(i as int)),
        decreases files.len() - i,
    {
        proof {
            let t = fv.take(i + 1);
            assert(t.drop_last() == fv.take(i as int));
            assert(t.last() == files[i as int].deep_view());
        }
        let f = &files[i];
        if !f.is_root_file {
            let (name, path) = top_level_folder_key(root, f.path.as_str());
            let ghost before = entries.deep_view();
            let ghost kv = KeyedView { key: name@, key2: path@, file: files[i as int].deep_view() };
            entries.push(KeyedFile { key: name, key2: path, file: copy_file(f) });
            assert(entries.deep_view() =~= before.push(kv));
        }
        i += 1;
    }
    assert(fv.take(files.len() as int) == fv);
    entries
}

fn copy_folder_summary(f: &FolderSummary) -> (r: FolderSummary)
    ensures
        r.deep_view() == f.deep_view(),
{
    FolderSummary {
        name: string_of(&chars_of(f.name.as_str())),
        path: string_of(&chars_of(f.path.as_str())),
        file_count: f.file_count,
        size_bytes: f.size_bytes,
        modified: string_of(&chars_of(f.modified.as_str())),
        modified_unix: f.modified_unix,
    }
}

/// The largest top-level folders: the files not directly under the root
/// grouped by top-level folder, each with its file count, total size and the
/// time of its latest file, largest first, at most `MAX_LARGEST_FOLDERS`.
pub fn largest_folders(root: &str, files: &Vec<LibraryFile>) -> (r: Vec<FolderSummary>)
    ensures
        r.deep_view() == largest_folders_spec(root@, files.deep_view()),
{
    let entries = folder_entries_of(root, files);
    let groups = group_by_pair(&entries);
    let ghost gs = grouped_spec(entries.deep_view());
    let mut found: Vec<FolderSummary> = Vec::new();
    let mut keys: Vec<SortKey> = Vec::new();
    let mut i: usize = 0;
    while i < groups.len()
        invariant
            i <= groups.len(),
            gs == grouped_spec(entries.deep_view()),
            groups.len() == gs.len(),
            forall|g: int| 0 <= g < groups.len() ==> (#[trigger] groups@[g]).key@ == gs[g].0
                && groups@[g].key2@ == gs[g].1
                && groups@[g].files.deep_view() == gs[g].2,
            found.deep_view() == folder_summaries_unsorted(gs.take(i as int)),
            keys.deep_view() == folder_keys(found.deep_view()),
            uniform_keys(keys.deep_view()),
        decreases groups.len() - i,
    {
        proof {
            let t = gs.take(i + 1);
            assert(t.drop_last() == gs.take(i as int));
            assert(t.last() == gs[i as int]);
        }
        let g = &groups[i];
        if g.files.len() > 0 {
            let latest = latest_index(&g.files);
            let total = total_bytes_of(&g.files);
            let centi = centi_gib_of(total);
            assert(g.files.deep_view()[latest as int] == g.files[latest as int].deep_view());
            let summary = FolderSummary {
                name: string_of(&chars_of(g.key.as_str())),
                path: string_of(&chars_of(g.key2.as_str())),
                file_count: g.files.len(),
                size_bytes: total,
                modified: string_of(&chars_of(g.files[latest].modified.as_str())),
                modified_unix: g.files[latest].modified_unix,
            };
            let ghost sv = summary.deep_view();
            let ghost kv = KeyView { first: centi, second: 0, text: Seq::empty(), text2: Seq::empty(), text_desc: false };
            let ghost before_f = found.deep_view();
            let ghost before_k = keys.deep_view();
            proof {
                assert(g.files.deep_view().len() == g.files.len());
            }
            keys.push(SortKey { first: centi, second: 0, text: Vec::new(), text2: Vec::new(), text_desc: false });
            found.push(summary);
            proof {
                assert(found.deep_view() =~= before_f.push(sv));
                assert(keys.deep_view() =~= before_k.push(kv));
                assert(folder_keys(before_f.push(sv)) =~= folder_keys(before_f).push(kv));
            }
        }
        i += 1;
    }
    assert(gs.take(groups.len() as int) =~= gs);
    let order = sorted_order(&keys);
    let ghost u = found.deep_view();
    proof {
        assert(keys.deep_view().len() == keys.len());
        assert(is_sorted_order(folder_keys(u), order@));
        lemma_is_the_sorted_order(folder_keys(u), order@);
    }
    let mut out: Vec<FolderSummary> = Vec::new();
    let mut k: usize = 0;
    while k < order.len() && k < MAX_LARGEST_FOLDERS
        invariant
            k <= order.len(),
            k <= MAX_LARGEST_FOLDERS,
            u == found.deep_view(),
            u.len() == found.len(),
            is_permutation(order@, keys.len() as nat),
            keys.len() == found.len(),
            out.deep_view() == reorder(u, order@.take(k as int)),
        decreases order.len() - k,
    {
        let ghost before = out.deep_view();
        out.push(copy_folder_summary(&found[order[k]]));
        proof {
            assert(out.deep_view() =~= before.push(u[order@[k as int] as int]));
            assert(reorder(u, order@.take(k + 1)) =~= reorder(u, order@.take(k as int)).push(u[order@[k as int] as int]));
        }
        k += 1;
    }
    proof {
        let sorted = reorder(u, order@);
        if sorted.len() > MAX_LARGEST_FOLDERS {
            assert(reorder(u, order@.take(k as int)) =~= sorted.take(MAX_LARGEST_FOLDERS as int));
        } else {
            assert(order@.take(k as int) =~= order@);
        }
    }
    out
}

/// How many of the files are videos.
pub open spec fn video_count_spec(files: Seq<FileView>) -> nat
    decreases files.len(),
{
    if files.len() == 0 {
        0
    } else {
        video_count_spec(files.drop_last()) + if is_video_ext(files.last().extension) { 1nat } else { 0nat }
    }
}

/// How many of the files are videos.
pub fn count_videos(files: &Vec<LibraryFile>) -> (r: usize)
    ensures
        r == video_count_spec(files.deep_view()),
{
    let ghost fv = files.deep_view();
    let mut count: usize = 0;
    let mut i: usize = 0;
    while i < files.len()
        invariant
            i <= files.len(),
            fv == files.deep_view(),
            count == video_count_spec(fv.take(i as int)),
            count <= i,
        decreases files.len() - i,
    {
        proof {
            let t = fv.take(i + 1);
            assert(t.drop_last() == fv.take(i as int));
            assert(t.last() == files[i as int].deep_view());
        }
        if is_video_extension(files[i].extension.as_str()) {
            count += 1;
        }
        i += 1;
    }
    assert(fv.take(files.len() as int) == fv);
    count
}

/// The file and video counts of a refreshed report: those of its actor
/// folders plus the appreciation videos.
pub open spec fn refreshed_counts_spec(actors: Seq<SummaryView>, appreciation_len: nat) -> (int, int)
    decreases actors.len(),
{
    if actors.len() == 0 {
        (appreciation_len as int, appreciation_len as int)
    } else {
        let (files, videos) = refreshed_counts_spec(actors.drop_last(), appreciation_len);
        (files + actors.last().file_count, videos + actors.last().videos.len())
    }
}

/// The file and video counts of a refreshed report.
pub fn refreshed_counts(actors: &Vec<ActorSummary>, appreciation_len: usize) -> (r: (usize, usize))
    requires
        refreshed_counts_spec(actors.deep_view(), appreciation_len as nat).0 <= usize::MAX,
        refreshed_counts_spec(actors.deep_view(), appreciation_len as nat).1 <= usize::MAX,
    ensures
        r.0 as int == refreshed_counts_spec(actors.deep_view(), appreciation_len as nat).0,
        r.1 as int == refreshed_counts_spec(actors.deep_view(), appreciation_len as nat).1,
{
    let ghost av = actors.deep_view();
    let mut files: usize = appreciation_len;
    let mut videos: usize = appreciation_len;
    let mut i: usize = 0;
    while i < actors.len()
        invariant
            i <= actors.len(),
            av == actors.deep_view(),
            refreshed_counts_spec(av, appreciation_len as nat).0 <= usize::MAX,
            refreshed_counts_spec(av, appreciation_len as nat).1 <= usize::MAX,
            files as int == refreshed_counts_spec(av.take(i as int), appreciation_len as nat).0,
            videos as int == refreshed_counts_spec(av.take(i as int), appreciation_len as nat).1,
        decreases actors.len() - i,
    {
        proof {
            let t = av.take(i + 1);
            assert(t.drop_last() == av.take(i as int));
            assert(t.last() == actors[i as int].deep_view());
            lemma_counts_grow(av, appreciation_len as nat, i + 1);
            assert(actors[i as int].videos.deep_view().len() == actors[i as int].videos.len());
        }
        files = files + actors[i].file_count;
        videos = videos + actors[i].videos.len();
        i += 1;
    }
    assert(av.take(actors.len() as int) == av);
    (files, videos)
}

proof fn lemma_counts_grow(actors: Seq<SummaryView>, appreciation_len: nat, n: int)
    requires
        0 <= n <= actors.len(),
    ensures
        refreshed_counts_spec(actors.take(n), appreciation_len).0 <= refreshed_counts_spec(actors, appreciation_len).0,
        refreshed_counts_spec(actors.take(n), appreciation_len).1 <= refreshed_counts_spec(actors, appreciation_len).1,
    decreases actors.len() - n,
{
    if n < actors.len() {
        lemma_counts_grow(actors, appreciation_len, n + 1);
        let t = actors.take(n + 1);
        assert(t.drop_last() == actors.take(n));
    } else {
        assert(actors.take(n) == actors);
    }
}

/// The summary of a scan. The size in gigabytes, a float, is worked out by
/// the caller from `total_bytes`.
pub struct ScanStats {
    pub root_path: String,
    pub file_count: usize,
    pub folder_count: usize,
    pub root_file_count: usize,
    pub video_count: usize,
    pub total_bytes: i128,
    pub scanned_at: String,
}

/// The summary of a scan of the root: every file counts, the root's own
/// files without the duplicate-check note, the videos by their extension,
/// and the size is the sum of the files' sizes.
pub fn scan_stats(root_path: &str, files: &Vec<LibraryFile>, folder_count: usize, scanned_at: &str) -> (r: ScanStats)
    ensures
        r.root_path@ == root_path@,
        r.file_count == files.len(),
        r.folder_count == folder_count,
        r.root_file_count == root_files_spec(files.deep_view()).len(),
        r.video_count == video_count_spec(files.deep_view()),
        r.total_bytes as int == total_size(files.deep_view()),
        r.scanned_at@ == scanned_at@,
{
    let roots = root_files(files);
    assert(roots.deep_view().len() == roots.len());
    ScanStats {
        root_path: string_of(&chars_of(root_path)),
        file_count: files.len(),
        folder_count,
        root_file_count: roots.len(),
        video_count: count_videos(files),
        total_bytes: total_bytes_of(files),
        scanned_at: string_of(&chars_of(scanned_at)),
    }
}

/// The counts of a refreshed report and its time.
pub struct RefreshedStats {
    pub file_count: usize,
    pub video_count: usize,
    pub folder_count: usize,
    pub scanned_at: String,
}

/// The counts of a refreshed report: the actors' files and videos and the
/// videos of the appreciation folder, and as many folders as stand directly
/// under the root. The report's time is the time of this refresh when
/// anything changed, and stays as it was otherwise.
pub fn refresh_stats(
    actors: &Vec<ActorSummary>,
    appreciation_len: usize,
    folder_count: usize,
    changed: bool,
    cached_scanned_at: &str,
    now_text: &str,
) -> (r: RefreshedStats)
    requires
        refreshed_counts_spec(actors.deep_view(), appreciation_len as nat).0 <= usize::MAX,
        refreshed_counts_spec(actors.deep_view(), appreciation_len as nat).1 <= usize::MAX,
    ensures
        r.file_count as int == refreshed_counts_spec(actors.deep_view(), appreciation_len as nat).0,
        r.video_count as int == refreshed_counts_spec(actors.deep_view(), appreciation_len as nat).1,
        r.folder_count == folder_count,
        r.scanned_at@ == if changed { now_text@ } else { cached_scanned_at@ },
{
    let (file_count, video_count) = refreshed_counts(actors, appreciation_len);
    let scanned_at = if changed { string_of(&chars_of(now_text)) } else { string_of(&chars_of(cached_scanned_at)) };
    RefreshedStats { file_count, video_count, folder_count, scanned_at }
}

// ---------------------------------------------------------------------------
// Report times
// ---------------------------------------------------------------------------

/// The form of the time a report was made, in UTC.
pub const REPORT_TIME_FORMAT: &'static str = "%Y-%m-%d %H:%M:%S UTC";

/// What parsing a report time with `chrono::NaiveDateTime::parse_from_str`
/// in `REPORT_TIME_FORMAT` and reading it as UTC seconds since the epoch
/// returns; none when it does not parse.
pub uninterp spec fn report_time_result(value: Seq<char>) -> Option<i64>;

/// `chrono::NaiveDateTime::parse_from_str` with `REPORT_TIME_FORMAT`, the
/// result read as UTC (`and_utc().timestamp()`). Claims that the result is
/// `report_time_result` of the text.
#[verifier::external_body]
fn parse_report_time(value: &str) -> (r: Option<i64>)
    ensures
        r == report_time_result(value@),
{
    match chrono::NaiveDateTime::parse_from_str(value, REPORT_TIME_FORMAT) {
        Ok(datetime) => Some(datetime.and_utc().timestamp()),
        Err(_) => None,
    }
}

/// When a cached report was made, as UTC seconds since the epoch.
pub fn parse_report_scanned_at(value: &str) -> (r: Option<i64>)
    ensures
        r == report_time_result(value@),
{
    parse_report_time(value)
}

} // verus!
