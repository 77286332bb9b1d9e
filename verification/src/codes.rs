//! File-name rules: which extensions are videos or unfinished downloads,
//! how a catalogue code is recognised in a name, and how a downloaded file is
//! renamed before it moves to the appreciation folder.
use vstd::prelude::*;

use crate::fspath::{file_name_result, path_file_name};
use crate::patterns::{
    capture_group, captures_result, compiles_result, group, is_match_result, regex_captures,
    regex_compiles, regex_is_match, regex_replace_all, regex_replace_first, replace_all_result,
    replace_first_result,
};
use crate::text::{
    starts_with, ends_with,
    ascii_lower, ascii_upper, chars_of, concat_str, eq_ignore_ascii_case, eq_ignore_case, is_alnum,
    is_ascii_alnum, last_index, map_chars, map_set, rfind_char, seq_eq, slice_chars, str_eq,
    string_of, to_ascii_lowercase, to_ascii_uppercase, to_upper_char, to_uppercase, trim_set,
    trim_str_set, unicode_upper, upper_char, upper_chars, CharSet,
};

verus! {

broadcast use vstd::string::group_string_axioms;

/// Extensions that count as video files.
pub open spec fn is_video_ext(e: Seq<char>) -> bool {
    ||| e == "mp4"@
    ||| e == "mkv"@
    ||| e == "avi"@
    ||| e == "wmv"@
    ||| e == "mov"@
    ||| e == "ts"@
    ||| e == "m4v"@
}

/// Extensions (in lower case) of downloads that have not finished.
pub open spec fn is_incomplete_ext(e: Seq<char>) -> bool {
    ||| e == "xltd"@
    ||| e == "part"@
    ||| e == "tmp"@
    ||| e == "!qb"@
    ||| e == "crdownload"@
}

/// Whether the extension (exactly, case-sensitive) names a video format.
pub fn is_video_extension(extension: &str) -> (r: bool)
    ensures
        r == is_video_ext(extension@),
{
    str_eq(extension, "mp4") || str_eq(extension, "mkv") || str_eq(extension, "avi") || str_eq(
        extension,
        "wmv",
    ) || str_eq(extension, "mov") || str_eq(extension, "ts") || str_eq(extension, "m4v")
}

/// Whether the extension, in any ASCII case, marks an unfinished download.
pub fn is_incomplete_extension(extension: &str) -> (r: bool)
    ensures
        r == is_incomplete_ext(ascii_lower(extension@)),
{
    let lower = to_ascii_lowercase(extension);
    let lower = lower.as_str();
    str_eq(lower, "xltd") || str_eq(lower, "part") || str_eq(lower, "tmp") || str_eq(lower, "!qb")
        || str_eq(lower, "crdownload")
}

/// Upper-casing a text first does not change its lower-case form.
pub proof fn lemma_lower_of_upper(e: Seq<char>)
    ensures
        ascii_lower(ascii_upper(e)) == ascii_lower(e),
{
    assert(ascii_lower(ascii_upper(e)) =~= ascii_lower(e));
}

/// Whether an extension marks an unfinished download does not depend on its
/// ASCII case.
pub proof fn lemma_incomplete_extension_ignores_case(e: Seq<char>)
    ensures
        is_incomplete_ext(ascii_lower(ascii_upper(e))) == is_incomplete_ext(ascii_lower(e)),
        is_incomplete_ext(ascii_lower(ascii_lower(e))) == is_incomplete_ext(ascii_lower(e)),
{
    lemma_lower_of_upper(e);
    assert(ascii_lower(ascii_lower(e)) =~= ascii_lower(e));
}

/// Folders that are never treated as actor folders.
pub open spec fn is_system_folder_name(name: Seq<char>) -> bool {
    ||| (name.len() > 0 && name[0] == '_')
    ||| eq_ignore_case(name, "System Volume Information"@)
    ||| eq_ignore_case(name, "$RECYCLE.BIN"@)
}

/// Whether the folder name is reserved: it starts with `_`, or is the
/// Windows volume or recycle-bin folder in any ASCII case.
pub fn is_system_folder(name: &str) -> (r: bool)
    ensures
        r == is_system_folder_name(name@),
{
    let chars = chars_of(name);
    (chars.len() > 0 && chars[0] == '_') || eq_ignore_ascii_case(name, "System Volume Information")
        || eq_ignore_ascii_case(name, "$RECYCLE.BIN")
}

/// How downloaded files are processed.
#[derive(Clone, Copy, PartialEq, Eq, Structural, Debug)]
pub struct ProcessingOptions {
    pub move_to_appreciation: bool,
    pub rename_enabled: bool,
    pub uppercase: bool,
    pub normalize_dash: bool,
    pub normalize_uncensored_suffix: bool,
    pub remove_at_prefix: bool,
    pub skip_if_exists: bool,
    pub delete_source_folder_after_move: bool,
}

/// The options used when the caller gives none.
pub fn default_processing_options() -> (r: ProcessingOptions)
    ensures
        r == (ProcessingOptions {
            move_to_appreciation: true,
            rename_enabled: true,
            uppercase: true,
            normalize_dash: true,
            normalize_uncensored_suffix: false,
            remove_at_prefix: true,
            skip_if_exists: true,
            delete_source_folder_after_move: false,
        }),
{
    ProcessingOptions {
        move_to_appreciation: true,
        rename_enabled: true,
        uppercase: true,
        normalize_dash: true,
        normalize_uncensored_suffix: false,
        remove_at_prefix: true,
        skip_if_exists: true,
        delete_source_folder_after_move: false,
    }
}

// ---------------------------------------------------------------------------
// File stem and extension
// ---------------------------------------------------------------------------

/// How `Path` splits a file name at its last dot: `(before, after)`.
pub open spec fn split_at_last_dot(name: Seq<char>) -> (Option<Seq<char>>, Option<Seq<char>>) {
    if name == ".."@ {
        (Some(name), None)
    } else {
        match last_index(name, '.') {
            None => (None, Some(name)),
            Some(i) => if i == 0 {
                (Some(name), None)
            } else {
                (Some(name.take(i)), Some(name.skip(i + 1)))
            },
        }
    }
}

/// `Path::file_stem`.
pub open spec fn file_stem_spec(path: Seq<char>) -> Option<Seq<char>> {
    match file_name_result(path) {
        None => None,
        Some(name) => match split_at_last_dot(name) {
            (Some(before), _) => Some(before),
            (None, after) => after,
        },
    }
}

/// `Path::extension`.
pub open spec fn extension_spec(path: Seq<char>) -> Option<Seq<char>> {
    match file_name_result(path) {
        None => None,
        Some(name) => match split_at_last_dot(name) {
            (Some(_), after) => after,
            (None, _) => None,
        },
    }
}

fn split_name_at_last_dot(name: &Vec<char>) -> (r: (Option<Vec<char>>, Option<Vec<char>>))
    ensures
        r.0.deep_view() == split_at_last_dot(name@).0,
        r.1.deep_view() == split_at_last_dot(name@).1,
{
    let dots = chars_of("..");
    proof {
        reveal_strlit("..");
    }
    if seq_eq(name, &dots) {
        return (Some(slice_chars(name, 0, name.len())), None);
    }
    match rfind_char(name, '.') {
        None => (None, Some(slice_chars(name, 0, name.len()))),
        Some(i) => {
            if i == 0 {
                (Some(slice_chars(name, 0, name.len())), None)
            } else {
                (Some(slice_chars(name, 0, i)), Some(slice_chars(name, i + 1, name.len())))
            }
        },
    }
}

/// `Path::file_stem` of the path text.
pub fn file_stem_of(path: &str) -> (r: Option<String>)
    ensures
        r.deep_view() == file_stem_spec(path@),
{
    match path_file_name(path) {
        None => None,
        Some(name) => {
            let (before, after) = split_name_at_last_dot(&chars_of(name.as_str()));
            match before {
                Some(b) => Some(string_of(&b)),
                None => match after {
                    Some(a) => Some(string_of(&a)),
                    None => None,
                },
            }
        },
    }
}

/// `Path::extension` of the path text.
pub fn extension_of(path: &str) -> (r: Option<String>)
    ensures
        r.deep_view() == extension_spec(path@),
{
    match path_file_name(path) {
        None => None,
        Some(name) => {
            let (before, after) = split_name_at_last_dot(&chars_of(name.as_str()));
            match before {
                Some(_) => match after {
                    Some(a) => Some(string_of(&a)),
                    None => None,
                },
                None => None,
            }
        },
    }
}

// ---------------------------------------------------------------------------
// Catalogue codes
// ---------------------------------------------------------------------------

/// An FC2 code anywhere in a name.
pub const FC2_CODE_PATTERN: &'static str = "(?i)FC2[-_ ]?PPV[-_ ]?(\\d{6,8})";

/// A catalogue code (two to six letters, then three to five digits) anywhere in a name.
pub const CATALOG_CODE_PATTERN: &'static str = "(?i)([A-Z]{2,6})[-_ ]?(\\d{3,5})";

/// The two code patterns, checked to compile.
pub struct CodeRegexes {
    pub fc2: String,
    pub catalog: String,
}

/// Why a pattern set could not be built.
#[derive(Clone, Copy, PartialEq, Eq, Structural, Debug)]
pub enum PatternError {
    Fc2,
    Catalog,
}

impl PatternError {
    /// The message shown for the error.
    pub fn message(&self) -> (r: String)
        ensures
            r@ == pattern_error_message(*self),
    {
        match self {
            PatternError::Fc2 => String::from_str("failed to build FC2 regex"),
            PatternError::Catalog => String::from_str("failed to build catalog regex"),
        }
    }
}

pub open spec fn pattern_error_message(e: PatternError) -> Seq<char> {
    match e {
        PatternError::Fc2 => "failed to build FC2 regex"@,
        PatternError::Catalog => "failed to build catalog regex"@,
    }
}

/// Checks that both code patterns compile and returns them.
pub fn build_code_regexes() -> (r: Result<CodeRegexes, PatternError>)
    ensures
        r is Ok <==> (compiles_result(FC2_CODE_PATTERN@) && compiles_result(CATALOG_CODE_PATTERN@)),
        r matches Err(e) ==> (e == PatternError::Fc2 <==> !compiles_result(FC2_CODE_PATTERN@)),
        r matches Ok(res) ==> res.fc2@ == FC2_CODE_PATTERN@ && res.catalog@ == CATALOG_CODE_PATTERN@,
{
    if !regex_compiles(FC2_CODE_PATTERN) {
        return Err(PatternError::Fc2);
    }
    if !regex_compiles(CATALOG_CODE_PATTERN) {
        return Err(PatternError::Catalog);
    }
    Ok(CodeRegexes { fc2: String::from_str(FC2_CODE_PATTERN), catalog: String::from_str(CATALOG_CODE_PATTERN) })
}

/// The code built from an FC2 match: `FC2PPV-` and the digits.
pub open spec fn fc2_code(caps: Seq<Option<Seq<char>>>) -> Seq<char> {
    "FC2PPV-"@ + group(caps, 1)
}

/// The code built from a catalogue match: the letters in upper case, `-`, the digits.
pub open spec fn catalog_code(caps: Seq<Option<Seq<char>>>) -> Seq<char> {
    ascii_upper(group(caps, 1)) + "-"@ + group(caps, 2)
}

/// The code of a name, given what the FC2 and catalogue patterns capture in it.
pub open spec fn media_code_spec(
    fc2: Option<Seq<Option<Seq<char>>>>,
    catalog: Option<Seq<Option<Seq<char>>>>,
) -> Option<Seq<char>> {
    match fc2 {
        Some(caps) => Some(fc2_code(caps)),
        None => match catalog {
            Some(caps) => Some(catalog_code(caps)),
            None => None,
        },
    }
}

/// The code built from the groups of an FC2 match.
pub fn fc2_code_from_captures(caps: &Vec<Option<String>>) -> (r: String)
    ensures
        r@ == fc2_code(caps.deep_view()),
{
    let digits = capture_group(caps, 1);
    concat_str("FC2PPV-", digits.as_str())
}

/// The code built from the groups of a catalogue match.
pub fn catalog_code_from_captures(caps: &Vec<Option<String>>) -> (r: String)
    ensures
        r@ == catalog_code(caps.deep_view()),
{
    let letters = to_ascii_uppercase(capture_group(caps, 1).as_str());
    let digits = capture_group(caps, 2);
    let head = concat_str(letters.as_str(), "-");
    concat_str(head.as_str(), digits.as_str())
}

/// The catalogue code recognised in a file name: an FC2 code if there is one,
/// otherwise the first catalogue code.
pub fn extract_media_code(name: &str, regexes: &CodeRegexes) -> (r: Option<String>)
    ensures
        r.deep_view() == media_code_spec(
            captures_result(regexes.fc2@, name@),
            captures_result(regexes.catalog@, name@),
        ),
{
    match regex_captures(regexes.fc2.as_str(), name) {
        Some(caps) => Some(fc2_code_from_captures(&caps)),
        None => match regex_captures(regexes.catalog.as_str(), name) {
            Some(caps) => Some(catalog_code_from_captures(&caps)),
            None => None,
        },
    }
}


// ---------------------------------------------------------------------------
// Renaming rules
// ---------------------------------------------------------------------------

/// A name that starts with an FC2 code, split into the digits and the rest.
pub const DASH_FC2_PATTERN: &'static str = "(?i)^FC2[-_ ]?PPV[-_ ]?(\\d{6,8})(.*)$";

/// A name that starts with three digits and letters, then three to five digits.
pub const DASH_LEADING_DIGITS_PATTERN: &'static str = "(?i)^([0-9]{3}[A-Z]+)[-_ ]?(\\d{3,5})(.*)$";

/// A name that starts with two to six letters, then three to five digits.
pub const DASH_LETTERS_PATTERN: &'static str = "(?i)^([A-Z]{2,6})[-_ ]?(\\d{3,5})(.*)$";

/// Three digits directly followed by a letter.
pub const DIGIT_LETTER_PATTERN: &'static str = "(\\d{3})([A-Za-z])";

/// Replacement that puts a dash between the digits and the letter.
pub const DIGIT_LETTER_REPLACEMENT: &'static str = "$1-$2";

/// Words that mark an uncensored or restored release.
pub const UNCENSORED_MARKER_PATTERN: &'static str = "(?i)(UNCENSORED|RESTORED)";

/// The dashed code at the start of a normalised name.
pub const UNCENSORED_CODE_PATTERN: &'static str = "(?i)^((?:FC2PPV|[0-9]{3}[A-Z]+|[A-Z]{2,8})-\\d{2,8})";

/// A `C` (subtitled) tag right after the code.
pub const CENSORED_SUFFIX_PATTERN: &'static str = "^[-_ ]C(?:[-_ .]|$)";

/// The tail after a code: a dash is put in front when it starts with an ASCII
/// letter or digit.
pub open spec fn suffix_spec(s: Seq<char>) -> Seq<char> {
    if s.len() == 0 {
        s
    } else if is_ascii_alnum(s[0]) {
        seq!['-'] + s
    } else {
        s
    }
}

/// Puts a dash in front of a tail that starts with an ASCII letter or digit.
pub fn normalize_suffix(suffix: &str) -> (r: String)
    ensures
        r@ == suffix_spec(suffix@),
{
    let chars = chars_of(suffix);
    if chars.len() == 0 {
        return String::new();
    }
    if is_alnum(chars[0]) {
        proof {
            reveal_strlit("-");
            assert("-"@ == seq!['-']);
        }
        concat_str("-", suffix)
    } else {
        string_of(&chars)
    }
}

/// The dashed form built from an FC2 match: `FC2PPV-`, the digits, the rest.
pub open spec fn fc2_dash_spec(caps: Seq<Option<Seq<char>>>) -> Seq<char> {
    "FC2PPV-"@ + group(caps, 1) + group(caps, 2)
}

/// The dashed form built from a code match: prefix, `-`, digits, tail.
pub open spec fn dashed_code_spec(caps: Seq<Option<Seq<char>>>) -> Seq<char> {
    group(caps, 1) + seq!['-'] + group(caps, 2) + suffix_spec(group(caps, 3))
}

/// What `normalize_dash` makes of a base name, given what its patterns return.
pub open spec fn normalize_dash_spec(base: Seq<char>) -> Seq<char> {
    match captures_result(DASH_FC2_PATTERN@, base) {
        Some(caps) => fc2_dash_spec(caps),
        None => match captures_result(DASH_LEADING_DIGITS_PATTERN@, base) {
            Some(caps) => dashed_code_spec(caps),
            None => match captures_result(DASH_LETTERS_PATTERN@, base) {
                Some(caps) => dashed_code_spec(caps),
                None => replace_first_result(DIGIT_LETTER_PATTERN@, base, DIGIT_LETTER_REPLACEMENT@),
            },
        },
    }
}

/// The dashed form built from the groups of an FC2 match.
pub fn fc2_dash_from_captures(caps: &Vec<Option<String>>) -> (r: String)
    ensures
        r@ == fc2_dash_spec(caps.deep_view()),
{
    let head = concat_str("FC2PPV-", capture_group(caps, 1).as_str());
    concat_str(head.as_str(), capture_group(caps, 2).as_str())
}

/// The dashed form built from the groups of a code match.
pub fn dashed_code_from_captures(caps: &Vec<Option<String>>) -> (r: String)
    ensures
        r@ == dashed_code_spec(caps.deep_view()),
{
    let head = concat_str(capture_group(caps, 1).as_str(), "-");
    let head = concat_str(head.as_str(), capture_group(caps, 2).as_str());
    let tail = normalize_suffix(capture_group(caps, 3).as_str());
    let r = concat_str(head.as_str(), tail.as_str());
    assert(r@ == dashed_code_spec(caps.deep_view())) by {
        reveal_strlit("-");
        assert("-"@ == seq!['-']);
    }
    r
}

/// Puts a dash between the letters and the digits of a catalogue code at the
/// start of a base name (`SSNI025` becomes `SSNI-025`, `fc2ppv4883198` becomes
/// `FC2PPV-4883198`).
pub fn normalize_dash(base: &str) -> (r: String)
    ensures
        r@ == normalize_dash_spec(base@),
{
    if let Some(caps) = regex_captures(DASH_FC2_PATTERN, base) {
        return fc2_dash_from_captures(&caps);
    }
    if let Some(caps) = regex_captures(DASH_LEADING_DIGITS_PATTERN, base) {
        return dashed_code_from_captures(&caps);
    }
    if let Some(caps) = regex_captures(DASH_LETTERS_PATTERN, base) {
        return dashed_code_from_captures(&caps);
    }
    regex_replace_first(DIGIT_LETTER_PATTERN, base, DIGIT_LETTER_REPLACEMENT)
}

/// A name that starts with an FC2 code is dashed as `FC2PPV-`, the digits,
/// and then everything after the digits exactly as it was: the result starts
/// with `FC2PPV-` and the digits and ends with the rest of the name.
pub proof fn lemma_fc2_dash_keeps_tail(base: Seq<char>, caps: Seq<Option<Seq<char>>>)
    requires
        captures_result(DASH_FC2_PATTERN@, base) == Some(caps),
    ensures
        starts_with(normalize_dash_spec(base), "FC2PPV-"@ + group(caps, 1)),
        ends_with(normalize_dash_spec(base), group(caps, 2)),
        normalize_dash_spec(base).len() == "FC2PPV-"@.len() + group(caps, 1).len() + group(caps, 2).len(),
{
    let r = normalize_dash_spec(base);
    let head = "FC2PPV-"@ + group(caps, 1);
    assert(r == head + group(caps, 2));
    assert(r.take(head.len() as int) =~= head);
    assert(r.skip(r.len() - group(caps, 2).len()) =~= group(caps, 2));
}

/// Two names with the same FC2 digits but different text after them (the
/// parts of one video, say) are dashed to different names.
pub proof fn lemma_fc2_dash_parts_differ(
    base1: Seq<char>,
    caps1: Seq<Option<Seq<char>>>,
    base2: Seq<char>,
    caps2: Seq<Option<Seq<char>>>,
)
    requires
        captures_result(DASH_FC2_PATTERN@, base1) == Some(caps1),
        captures_result(DASH_FC2_PATTERN@, base2) == Some(caps2),
        group(caps1, 1) == group(caps2, 1),
        group(caps1, 2) != group(caps2, 2),
    ensures
        normalize_dash_spec(base1) != normalize_dash_spec(base2),
{
    lemma_fc2_dash_keeps_tail(base1, caps1);
    lemma_fc2_dash_keeps_tail(base2, caps2);
    let r1 = normalize_dash_spec(base1);
    let r2 = normalize_dash_spec(base2);
    if r1 == r2 {
        let n = ("FC2PPV-"@.len() + group(caps1, 1).len()) as int;
        assert(group(caps1, 2) =~= r1.skip(n));
        assert(group(caps2, 2) =~= r2.skip(n));
    }
}

/// A code with the uncensored tag: `-UC` when it also carries the subtitle tag,
/// `-U` otherwise.
pub open spec fn uncensored_name_spec(code: Seq<char>, subtitled: bool) -> Seq<char> {
    if subtitled {
        code + "-UC"@
    } else {
        code + "-U"@
    }
}

/// A code with the uncensored tag: `-UC` when it also carries the subtitle tag,
/// `-U` otherwise.
pub fn uncensored_name(code: &str, subtitled: bool) -> (r: String)
    ensures
        r@ == uncensored_name_spec(code@, subtitled),
{
    if subtitled {
        concat_str(code, "-UC")
    } else {
        concat_str(code, "-U")
    }
}

/// The text after the first `n` characters, empty when there are fewer.
pub open spec fn rest_after(s: Seq<char>, n: nat) -> Seq<char> {
    if n <= s.len() {
        s.skip(n as int)
    } else {
        Seq::empty()
    }
}

/// What `normalize_uncensored_suffix` makes of a base name, given what its
/// patterns return.
pub open spec fn uncensored_spec(base: Seq<char>) -> Seq<char> {
    if !is_match_result(UNCENSORED_MARKER_PATTERN@, base) {
        base
    } else {
        let normalized = normalize_dash_spec(base);
        match captures_result(UNCENSORED_CODE_PATTERN@, normalized) {
            None => trim_set(
                replace_all_result(UNCENSORED_MARKER_PATTERN@, normalized, ""@),
                CharSet::Separators,
            ),
            Some(caps) => {
                let code = unicode_upper(group(caps, 1));
                let rest = unicode_upper(rest_after(normalized, group(caps, 1).len()));
                uncensored_name_spec(code, is_match_result(CENSORED_SUFFIX_PATTERN@, rest))
            },
        }
    }
}

/// Rewrites a name marked `UNCENSORED` or `RESTORED` to its code with the `-U`
/// tag (`-UC` when a `C` tag follows the code); other names are left as they are.
pub fn normalize_uncensored_suffix(base: &str) -> (r: String)
    ensures
        r@ == uncensored_spec(base@),
{
    if !regex_is_match(UNCENSORED_MARKER_PATTERN, base) {
        return string_of(&chars_of(base));
    }
    let normalized = normalize_dash(base);
    match regex_captures(UNCENSORED_CODE_PATTERN, normalized.as_str()) {
        None => {
            let stripped = regex_replace_all(UNCENSORED_MARKER_PATTERN, normalized.as_str(), "");
            trim_str_set(stripped.as_str(), CharSet::Separators)
        },
        Some(caps) => {
            let code_group = capture_group(&caps, 1);
            let code_text = to_uppercase(code_group.as_str());
            let chars = chars_of(normalized.as_str());
            let code_len = chars_of(code_group.as_str()).len();
            let rest_chars = if code_len <= chars.len() {
                slice_chars(&chars, code_len, chars.len())
            } else {
                Vec::new()
            };
            let rest = to_uppercase(string_of(&rest_chars).as_str());
            let subtitled = regex_is_match(CENSORED_SUFFIX_PATTERN, rest.as_str());
            uncensored_name(code_text.as_str(), subtitled)
        },
    }
}

/// The part of a name after its last `@`, the whole name when it has none.
pub open spec fn after_last_at(s: Seq<char>) -> Seq<char> {
    match last_index(s, '@') {
        Some(i) => s.skip(i + 1),
        None => s,
    }
}

/// The extension of a name with its dot, empty when it has none.
pub open spec fn dotted_extension(name: Seq<char>) -> Seq<char> {
    match extension_spec(name) {
        Some(e) => seq!['.'] + e,
        None => Seq::empty(),
    }
}

/// The base name of a file name before the renaming rules: its stem, or the
/// whole name when it has none.
pub open spec fn stem_or_name(name: Seq<char>) -> Seq<char> {
    match file_stem_spec(name) {
        Some(stem) => stem,
        None => name,
    }
}

/// The base name after the renaming rules that `o` switches on, in order:
/// cut through the last `@`, put in the dash, upper-case, rewrite the
/// uncensored tag.
pub open spec fn renamed_base(base: Seq<char>, o: ProcessingOptions) -> Seq<char> {
    let b1 = if o.remove_at_prefix { after_last_at(base) } else { base };
    let b2 = if o.normalize_dash { normalize_dash_spec(b1) } else { b1 };
    let b3 = if o.uppercase { unicode_upper(b2) } else { b2 };
    if o.normalize_uncensored_suffix { uncensored_spec(b3) } else { b3 }
}

/// The name a downloaded file gets in the appreciation folder.
pub open spec fn target_file_name_spec(source: Seq<char>, o: ProcessingOptions) -> Seq<char> {
    if !o.rename_enabled {
        source
    } else {
        renamed_base(stem_or_name(source), o) + dotted_extension(source)
    }
}

/// With renaming off a download keeps its name; with it on, the new name
/// keeps the extension (with its dot) of the old one.
pub proof fn lemma_target_name_keeps_extension(source: Seq<char>, o: ProcessingOptions)
    ensures
        !o.rename_enabled ==> target_file_name_spec(source, o) == source,
        o.rename_enabled ==> target_file_name_spec(source, o).len() >= dotted_extension(source).len()
            && target_file_name_spec(source, o).skip(
                target_file_name_spec(source, o).len() - dotted_extension(source).len(),
            ) == dotted_extension(source),
{
    if o.rename_enabled {
        let base = renamed_base(stem_or_name(source), o);
        let ext = dotted_extension(source);
        assert((base + ext).skip(base.len() as int) =~= ext);
    }
}

/// The name a downloaded file gets in the appreciation folder: unchanged when
/// renaming is off, otherwise its stem passed through the enabled rules and
/// its extension put back.
pub fn build_target_file_name(source_name: &str, options: &ProcessingOptions) -> (r: String)
    ensures
        r@ == target_file_name_spec(source_name@, *options),
{
    if !options.rename_enabled {
        return string_of(&chars_of(source_name));
    }
    let extension = match extension_of(source_name) {
        Some(e) => concat_str(".", e.as_str()),
        None => String::new(),
    };
    proof {
        reveal_strlit(".");
        assert("."@ == seq!['.']);
    }
    let mut base = match file_stem_of(source_name) {
        Some(stem) => stem,
        None => string_of(&chars_of(source_name)),
    };
    if options.remove_at_prefix {
        let chars = chars_of(base.as_str());
        if let Some(index) = rfind_char(&chars, '@') {
            base = string_of(&slice_chars(&chars, index + 1, chars.len()));
        }
    }
    if options.normalize_dash {
        base = normalize_dash(base.as_str());
    }
    if options.uppercase {
        base = to_uppercase(base.as_str());
    }
    if options.normalize_uncensored_suffix {
        base = normalize_uncensored_suffix(base.as_str());
    }
    concat_str(base.as_str(), extension.as_str())
}

// ---------------------------------------------------------------------------
// Codes typed in for an archive search
// ---------------------------------------------------------------------------

/// Why no code could be read from the text.
#[derive(Clone, Copy, PartialEq, Eq, Structural, Debug)]
pub enum ArchiveCodeError {
    Pattern(PatternError),
    NoCode,
}

pub open spec fn archive_code_error_message(e: ArchiveCodeError) -> Seq<char> {
    match e {
        ArchiveCodeError::Pattern(p) => pattern_error_message(p),
        ArchiveCodeError::NoCode => "没有识别到番号"@,
    }
}

impl ArchiveCodeError {
    /// The message shown for the error.
    pub fn message(&self) -> (r: String)
        ensures
            r@ == archive_code_error_message(*self),
    {
        match self {
            ArchiveCodeError::Pattern(p) => p.message(),
            ArchiveCodeError::NoCode => String::from_str("没有识别到番号"),
        }
    }
}

/// The text searched for a code: the stem, `@` as a space, `_` and `.` as
/// dashes, in upper case.
pub open spec fn archive_search_text(value: Seq<char>) -> Seq<char> {
    let stem = match file_stem_spec(value) {
        Some(s) => s,
        None => value,
    };
    ascii_upper(map_set(map_set(stem, CharSet::At, ' '), CharSet::UnderscoreDot, '-'))
}

/// The code of a file name or typed text, with any tag after the digits left
/// off (`CJOD-138-U.mp4` gives `CJOD-138`).
pub fn normalize_archive_code(value: &str) -> (r: Result<String, ArchiveCodeError>)
    ensures
        !(compiles_result(FC2_CODE_PATTERN@) && compiles_result(CATALOG_CODE_PATTERN@)) ==> r is Err,
        (compiles_result(FC2_CODE_PATTERN@) && compiles_result(CATALOG_CODE_PATTERN@)) ==> match r {
            Ok(code) => media_code_spec(
                captures_result(FC2_CODE_PATTERN@, archive_search_text(value@)),
                captures_result(CATALOG_CODE_PATTERN@, archive_search_text(value@)),
            ) == Some(code@),
            Err(e) => e == ArchiveCodeError::NoCode && media_code_spec(
                captures_result(FC2_CODE_PATTERN@, archive_search_text(value@)),
                captures_result(CATALOG_CODE_PATTERN@, archive_search_text(value@)),
            ) is None,
        },
{
    let regexes = match build_code_regexes() {
        Ok(regexes) => regexes,
        Err(e) => return Err(ArchiveCodeError::Pattern(e)),
    };
    let stem = match file_stem_of(value) {
        Some(s) => s,
        None => string_of(&chars_of(value)),
    };
    let cleaned = upper_chars(
        &map_chars(&map_chars(&chars_of(stem.as_str()), CharSet::At, ' '), CharSet::UnderscoreDot, '-'),
    );
    let cleaned = string_of(&cleaned);
    match extract_media_code(cleaned.as_str(), &regexes) {
        Some(code) => Ok(code),
        None => Err(ArchiveCodeError::NoCode),
    }
}

/// The ASCII letters and digits of the text, in upper case.
pub open spec fn compact_spec(s: Seq<char>) -> Seq<char>
    decreases s.len(),
{
    if s.len() == 0 {
        s
    } else if is_ascii_alnum(s[0]) {
        seq![upper_char(s[0])] + compact_spec(s.drop_first())
    } else {
        compact_spec(s.drop_first())
    }
}

/// The ASCII letters and digits of the text, in upper case (`SIRO-5664`
/// gives `SIRO5664`).
pub fn compact_code_from_text(value: &str) -> (r: String)
    ensures
        r@ == compact_spec(value@),
{
    let chars = chars_of(value);
    let mut out: Vec<char> = Vec::new();
    let mut i: usize = 0;
    assert(chars@.skip(0) == chars@);
    while i < chars.len()
        invariant
            i <= chars.len(),
            compact_spec(chars@) == out@ + compact_spec(chars@.skip(i as int)),
        decreases chars.len() - i,
    {
        let c = chars[i];
        proof {
            let rest = chars@.skip(i as int);
            assert(rest[0] == c);
            assert(rest.drop_first() == chars@.skip(i + 1));
        }
        if is_alnum(c) {
            let ghost before = out@;
            out.push(to_upper_char(c));
            assert(out@ == before + seq![upper_char(c)]);
        }
        i += 1;
    }
    assert(chars@.skip(i as int).len() == 0);
    assert(out@ + Seq::<char>::empty() == out@);
    string_of(&out)
}

} // verus!
