//! Reading the metadata site's pages: actor names, the detail page link,
//! avatar images, and the age-verification wall.
use vstd::prelude::*;
use vstd::utf8::encode_utf8;

use crate::patterns::{
    capture_group, captures_all_result, captures_result, group, regex_captures,
    regex_captures_all, regex_replace_all, replace_all_result,
};
use crate::text::{
    ascii_lower, ascii_upper, chars_of, contains, contains_chars, ends_with, has_char, has_suffix, is_ascii_digit, is_digit, join_words, join_words_chars, lower_chars,
    map_chars, map_set, replace_seq, replace_str, seq_eq, starts_with, str_starts_with, string_of, trim_chars, trim_set, upper_chars, CharSet,
};
use crate::url::{is_detail_page_spec, is_detail_page_url, resolve_url, resolve_url_spec};

verus! {

broadcast use vstd::string::group_string_axioms;

// ---------------------------------------------------------------------------
// Text of a page
// ---------------------------------------------------------------------------

/// The six entities the site uses, decoded in this order.
pub open spec fn decode_entities_spec(s: Seq<char>) -> Seq<char> {
    let s1 = replace_seq(s, "&amp;"@, "&"@);
    let s2 = replace_seq(s1, "&quot;"@, "\""@);
    let s3 = replace_seq(s2, "&#39;"@, "'"@);
    let s4 = replace_seq(s3, "&lt;"@, "<"@);
    let s5 = replace_seq(s4, "&gt;"@, ">"@);
    replace_seq(s5, "&nbsp;"@, " "@)
}

/// Decodes `&amp;`, `&quot;`, `&#39;`, `&lt;`, `&gt;` and `&nbsp;`, in that order.
pub fn decode_html_entities(value: &str) -> (r: String)
    ensures
        r@ == decode_entities_spec(value@),
{
    proof {
        reveal_strlit("&amp;");
        reveal_strlit("&quot;");
        reveal_strlit("&#39;");
        reveal_strlit("&lt;");
        reveal_strlit("&gt;");
        reveal_strlit("&nbsp;");
    }
    let s1 = replace_str(value, "&amp;", "&");
    let s2 = replace_str(s1.as_str(), "&quot;", "\"");
    let s3 = replace_str(s2.as_str(), "&#39;", "'");
    let s4 = replace_str(s3.as_str(), "&lt;", "<");
    let s5 = replace_str(s4.as_str(), "&gt;", ">");
    replace_str(s5.as_str(), "&nbsp;", " ")
}

/// A piece of page text as a name: entities decoded, whitespace runs as one
/// space, punctuation trimmed from both ends.
pub open spec fn clean_text_spec(s: Seq<char>) -> Seq<char> {
    trim_set(
        join_words(map_set(decode_entities_spec(s), CharSet::NoBreakSpace, ' ')),
        CharSet::MetadataPunct,
    )
}

/// A piece of page text as a name.
pub fn clean_metadata_text(value: &str) -> (r: String)
    ensures
        r@ == clean_text_spec(value@),
{
    let decoded = chars_of(decode_html_entities(value).as_str());
    let spaced = map_chars(&decoded, CharSet::NoBreakSpace, ' ');
    let joined = join_words_chars(&spaced);
    string_of(&trim_chars(&joined, CharSet::MetadataPunct))
}

/// Any tag.
pub const TAG_PATTERN: &'static str = "(?is)<[^>]+>";

/// A script block.
pub const SCRIPT_PATTERN: &'static str = "(?is)<script[^>]*>.*?</script>";

/// A style block.
pub const STYLE_PATTERN: &'static str = "(?is)<style[^>]*>.*?</style>";

/// Text with every tag replaced by a space.
pub open spec fn strip_tags_spec(s: Seq<char>) -> Seq<char> {
    replace_all_result(TAG_PATTERN@, s, " "@)
}

/// Replaces every tag by a space.
pub fn strip_html_tags(value: &str) -> (r: String)
    ensures
        r@ == strip_tags_spec(value@),
{
    regex_replace_all(TAG_PATTERN, value, " ")
}

/// A page with its script and style blocks replaced by spaces.
pub open spec fn strip_blocks_spec(html: Seq<char>) -> Seq<char> {
    replace_all_result(STYLE_PATTERN@, replace_all_result(SCRIPT_PATTERN@, html, " "@), " "@)
}

/// Replaces the script blocks, then the style blocks, by spaces.
pub fn strip_script_and_style_blocks(html: &str) -> (r: String)
    ensures
        r@ == strip_blocks_spec(html@),
{
    let without_scripts = regex_replace_all(SCRIPT_PATTERN, html, " ");
    regex_replace_all(STYLE_PATTERN, without_scripts.as_str(), " ")
}

/// Whether the site answered with its age-verification wall instead of the page.
pub open spec fn is_age_wall_spec(html: Seq<char>) -> bool {
    let lower = ascii_lower(html);
    ||| contains(lower, "age verification javbus"@)
    ||| contains(lower, "driver-verify"@)
    ||| contains(lower, "你是否已經成年"@)
    ||| contains(lower, "我已經成年"@)
}

/// Whether the site answered with its age-verification wall instead of the page.
pub fn is_age_verification_page(html: &str) -> (r: bool)
    ensures
        r == is_age_wall_spec(html@),
{
    let lower = lower_chars(&chars_of(html));
    contains_chars(&lower, &chars_of("age verification javbus")) || contains_chars(
        &lower,
        &chars_of("driver-verify"),
    ) || contains_chars(&lower, &chars_of("你是否已經成年")) || contains_chars(
        &lower,
        &chars_of("我已經成年"),
    )
}

/// The file extension an avatar is stored with.
pub open spec fn image_extension_spec(url: Seq<char>) -> Seq<char> {
    let lower = ascii_lower(url);
    if contains(lower, ".png"@) {
        ".png"@
    } else if contains(lower, ".webp"@) {
        ".webp"@
    } else {
        ".jpg"@
    }
}

/// The file extension an avatar is stored with: `.png` or `.webp` when the
/// address mentions it, `.jpg` otherwise.
pub fn image_extension_from_url(url: &str) -> (r: &'static str)
    ensures
        r@ == image_extension_spec(url@),
{
    let lower = lower_chars(&chars_of(url));
    if contains_chars(&lower, &chars_of(".png")) {
        ".png"
    } else if contains_chars(&lower, &chars_of(".webp")) {
        ".webp"
    } else {
        ".jpg"
    }
}

// ---------------------------------------------------------------------------
// Actor names
// ---------------------------------------------------------------------------

/// Length of the text in UTF-8 bytes, as `str::len` gives it.
pub open spec fn byte_len(value: Seq<char>) -> nat {
    (encode_utf8(value).len() as usize) as nat
}

/// Whether a piece of page text can be an actor name: at least two bytes, not
/// a label, no link, no digits only, no script words.
pub open spec fn plausible_name_spec(value: Seq<char>) -> bool {
    let upper = ascii_upper(value);
    &&& byte_len(value) >= 2
    &&& upper != "演員"@
    &&& upper != "演员"@
    &&& upper != "出演者"@
    &&& upper != "ACTOR"@
    &&& upper != "ACTRESS"@
    &&& upper != "STAR"@
    &&& !contains(value, "http"@)
    &&& !has_char(value, '/')
    &&& !contains(value, "磁力"@)
    &&& !contains(value, "樣品"@)
    &&& value != "0"@
    &&& !(forall|i: int| 0 <= i < value.len() ==> is_ascii_digit(#[trigger] value[i]))
    &&& !contains(value, "function"@)
    &&& !contains(value, "searchs"@)
    &&& !contains(value, "ajax"@)
    &&& !contains(value, "searchinput"@)
    &&& !contains(value, "modal"@)
}

fn all_ascii_digits(v: &Vec<char>) -> (r: bool)
    ensures
        r == forall|i: int| 0 <= i < v@.len() ==> is_ascii_digit(#[trigger] v@[i]),
{
    let mut i: usize = 0;
    while i < v.len()
        invariant
            i <= v.len(),
            forall|j: int| 0 <= j < i ==> is_ascii_digit(#[trigger] v@[j]),
        decreases v.len() - i,
    {
        if !is_digit(v[i]) {
            return false;
        }
        i += 1;
    }
    true
}

fn is_label(upper: &Vec<char>) -> (r: bool)
    ensures
        r == (upper@ == "演員"@ || upper@ == "演员"@ || upper@ == "出演者"@ || upper@ == "ACTOR"@
            || upper@ == "ACTRESS"@ || upper@ == "STAR"@),
{
    seq_eq(upper, &chars_of("演員")) || seq_eq(upper, &chars_of("演员")) || seq_eq(
        upper,
        &chars_of("出演者"),
    ) || seq_eq(upper, &chars_of("ACTOR")) || seq_eq(upper, &chars_of("ACTRESS")) || seq_eq(
        upper,
        &chars_of("STAR"),
    )
}

fn has_noise(v: &Vec<char>) -> (r: bool)
    ensures
        r == (contains(v@, "function"@) || contains(v@, "searchs"@) || contains(v@, "ajax"@)
            || contains(v@, "searchinput"@) || contains(v@, "modal"@)),
{
    contains_chars(v, &chars_of("function")) || contains_chars(v, &chars_of("searchs"))
        || contains_chars(v, &chars_of("ajax")) || contains_chars(v, &chars_of("searchinput"))
        || contains_chars(v, &chars_of("modal"))
}

fn has_link_words(v: &Vec<char>) -> (r: bool)
    ensures
        r == (contains(v@, "http"@) || has_char(v@, '/') || contains(v@, "磁力"@) || contains(
            v@,
            "樣品"@,
        )),
{
    contains_chars(v, &chars_of("http")) || crate::text::contains_char(v, '/') || contains_chars(
        v,
        &chars_of("磁力"),
    ) || contains_chars(v, &chars_of("樣品"))
}

/// Whether a piece of page text can be an actor name.
pub fn is_plausible_actor_name(value: &str) -> (r: bool)
    ensures
        r == plausible_name_spec(value@),
{
    if value.len() < 2 {
        return false;
    }
    let chars = chars_of(value);
    let upper = upper_chars(&chars);
    if is_label(&upper) {
        return false;
    }
    if has_link_words(&chars) {
        return false;
    }
    if seq_eq(&chars, &chars_of("0")) || all_ascii_digits(&chars) {
        return false;
    }
    if has_noise(&chars) {
        return false;
    }
    true
}

/// `names` with `name` added at the end when it is not empty and not there yet.
pub open spec fn add_distinct(names: Seq<Seq<char>>, name: Seq<char>) -> Seq<Seq<char>> {
    if name.len() > 0 && !names.contains(name) {
        names.push(name)
    } else {
        names
    }
}

/// The non-empty names of `names`, each once, in order of first appearance,
/// added after `acc`.
pub open spec fn merge_spec(acc: Seq<Seq<char>>, names: Seq<Seq<char>>) -> Seq<Seq<char>>
    decreases names.len(),
{
    if names.len() == 0 {
        acc
    } else {
        add_distinct(merge_spec(acc, names.drop_last()), names.last())
    }
}

fn contains_string(names: &Vec<String>, name: &String) -> (r: bool)
    ensures
        r == names.deep_view().contains(name@),
{
    let mut i: usize = 0;
    while i < names.len()
        invariant
            i <= names.len(),
            forall|j: int| 0 <= j < i ==> names.deep_view()[j] != name@,
        decreases names.len() - i,
    {
        if seq_eq(&chars_of(names[i].as_str()), &chars_of(name.as_str())) {
            assert(names.deep_view()[i as int] == name@);
            return true;
        }
        i += 1;
    }
    false
}

fn append_distinct(out: &mut Vec<String>, names: &Vec<String>)
    ensures
        final(out).deep_view() == merge_spec(old(out).deep_view(), names.deep_view()),
{
    let ghost start = out.deep_view();
    let mut i: usize = 0;
    while i < names.len()
        invariant
            i <= names.len(),
            out.deep_view() == merge_spec(start, names.deep_view().take(i as int)),
        decreases names.len() - i,
    {
        let name = &names[i];
        proof {
            let prefix = names.deep_view().take(i + 1);
            assert(prefix.drop_last() == names.deep_view().take(i as int));
            assert(prefix.last() == name@);
        }
        if !name.as_str().is_empty() && !contains_string(out, name) {
            let ghost before = out.deep_view();
            out.push(name.clone());
            assert(out.deep_view() == before.push(name@));
        }
        i += 1;
    }
    assert(names.deep_view().take(names.len() as int) == names.deep_view());
}

/// The names of both lists, detail-page names first, each non-empty name once.
pub fn merge_actor_names(primary: Vec<String>, secondary: Vec<String>) -> (r: Vec<String>)
    ensures
        r.deep_view() == merge_spec(Seq::empty(), primary.deep_view() + secondary.deep_view()),
{
    let mut names: Vec<String> = Vec::new();
    assert(names.deep_view() =~= Seq::<Seq<char>>::empty());
    append_distinct(&mut names, &primary);
    append_distinct(&mut names, &secondary);
    proof {
        lemma_merge_concat(Seq::empty(), primary.deep_view(), secondary.deep_view());
    }
    names
}

/// Merging two lists in turn is merging their concatenation.
pub proof fn lemma_merge_concat(acc: Seq<Seq<char>>, a: Seq<Seq<char>>, b: Seq<Seq<char>>)
    ensures
        merge_spec(merge_spec(acc, a), b) == merge_spec(acc, a + b),
    decreases b.len(),
{
    if b.len() == 0 {
        assert(a + b == a);
    } else {
        lemma_merge_concat(acc, a, b.drop_last());
        assert((a + b).drop_last() == a + b.drop_last());
        assert((a + b).last() == b.last());
    }
}


/// Whether no name occurs twice.
pub open spec fn distinct_names(names: Seq<Seq<char>>) -> bool {
    forall|i: int, j: int| 0 <= i < j < names.len() ==> #[trigger] names[i] != #[trigger] names[j]
}

proof fn lemma_merge_shape(acc: Seq<Seq<char>>, names: Seq<Seq<char>>)
    requires
        distinct_names(acc),
    ensures
        distinct_names(merge_spec(acc, names)),
        merge_spec(acc, names).take(acc.len() as int) == acc,
        acc.len() <= merge_spec(acc, names).len(),
        forall|x: Seq<char>| #[trigger] merge_spec(acc, names).contains(x) <==> (acc.contains(x) || (x.len() > 0 && names.contains(x))),
    decreases names.len(),
{
    if names.len() > 0 {
        lemma_merge_shape(acc, names.drop_last());
        let before = merge_spec(acc, names.drop_last());
        let name = names.last();
        if name.len() > 0 && !before.contains(name) {
            assert(before.push(name).take(acc.len() as int) =~= before.take(acc.len() as int));
            assert forall|i: int, j: int| 0 <= i < j < before.push(name).len() implies #[trigger] before.push(name)[i] != #[trigger] before.push(name)[j] by {
                if j == before.len() {
                    assert(before.contains(before[i]));
                }
            }
        }
        assert forall|x: Seq<char>| #[trigger] merge_spec(acc, names).contains(x) <==> (acc.contains(x) || (x.len() > 0 && names.contains(x))) by {
            if names.contains(x) && !names.drop_last().contains(x) {
                let k = choose|k: int| 0 <= k < names.len() && names[k] == x;
                if k < names.len() - 1 {
                    assert(names.drop_last()[k] == x);
                }
                assert(x == name);
            }
            if names.drop_last().contains(x) {
                let k = choose|k: int| 0 <= k < names.drop_last().len() && names.drop_last()[k] == x;
                assert(names[k] == x);
            }
            if merge_spec(acc, names).contains(x) && !before.contains(x) {
                assert(x == name);
                assert(names[names.len() - 1] == x);
            }
            if before.contains(x) {
                let k = choose|k: int| 0 <= k < before.len() && before[k] == x;
                if name.len() > 0 && !before.contains(name) {
                    assert(before.push(name)[k] == x);
                }
            }
            if x == name && x.len() > 0 {
                if !before.contains(name) {
                    assert(before.push(name)[before.len() as int] == x);
                }
            }
        }
    }
}

/// How the names of a detail page and of a search page are merged: the
/// detail names come first, each name occurs once, empty names are dropped,
/// and every other name of either page is kept.
pub proof fn lemma_merge_actor_names(primary: Seq<Seq<char>>, secondary: Seq<Seq<char>>)
    ensures
        ({
            let merged = merge_spec(Seq::empty(), primary + secondary);
            let first = merge_spec(Seq::empty(), primary);
            &&& merged.take(first.len() as int) == first
            &&& distinct_names(merged)
            &&& forall|x: Seq<char>| #[trigger] merged.contains(x) <==> (x.len() > 0 && (primary.contains(x) || secondary.contains(x)))
        }),
{
    let empty = Seq::<Seq<char>>::empty();
    lemma_merge_shape(empty, primary);
    let first = merge_spec(empty, primary);
    lemma_merge_shape(first, secondary);
    lemma_merge_concat(empty, primary, secondary);
    lemma_merge_shape(empty, primary + secondary);
    assert forall|x: Seq<char>| #[trigger] merge_spec(empty, primary + secondary).contains(x) <==> (x.len() > 0 && (primary.contains(x) || secondary.contains(x))) by {
        if (primary + secondary).contains(x) {
            let k = choose|k: int| 0 <= k < (primary + secondary).len() && (primary + secondary)[k] == x;
            if k < primary.len() {
                assert(primary[k] == x);
            } else {
                assert(secondary[k - primary.len()] == x);
            }
        }
        if primary.contains(x) {
            let k = choose|k: int| 0 <= k < primary.len() && primary[k] == x;
            assert((primary + secondary)[k] == x);
        }
        if secondary.contains(x) {
            let k = choose|k: int| 0 <= k < secondary.len() && secondary[k] == x;
            assert((primary + secondary)[primary.len() + k] == x);
        }
    }
}

// ---------------------------------------------------------------------------
// Reading actor names from a page
// ---------------------------------------------------------------------------

/// An element whose class mentions `star-name`; group 1 is its content.
pub const STAR_NAME_PATTERN: &'static str = r#"(?is)<[^>]*class\s*=\s*["'][^"']*star-name[^"']*["'][^>]*>(.*?)</[^>]+>"#;

/// A link to an actor page; group 1 is its content.
pub const STAR_LINK_PATTERN: &'static str = r#"(?is)<a[^>]+href\s*=\s*["'][^"']*/star/[^"']+["'][^>]*>(.*?)</a>"#;

/// A search-result title span; group 2 is the text after the line break.
pub const TITLE_SPAN_PATTERN: &'static str = r#"(?is)<span[^>]*>\s*(.*?)\s*<br\s*/?>\s*([^<]{1,64})\s*</span>"#;

/// An `Actor:` label; group 2 is the text up to the end of the block.
pub const ACTOR_BLOCK_PATTERN: &'static str = r#"(?is)(演員|演员|出演者|Actor|Actress|Star)\s*[:：]?\s*(.*?)\s*(</p>|</div>|<br)"#;

/// `names` with `name` added when it is a plausible name not there yet.
pub open spec fn admit_name(names: Seq<Seq<char>>, name: Seq<char>) -> Seq<Seq<char>> {
    if plausible_name_spec(name) && !names.contains(name) {
        names.push(name)
    } else {
        names
    }
}

/// `names` with every candidate admitted in turn.
pub open spec fn admit_all(names: Seq<Seq<char>>, candidates: Seq<Seq<char>>) -> Seq<Seq<char>>
    decreases candidates.len(),
{
    if candidates.len() == 0 {
        names
    } else {
        admit_name(admit_all(names, candidates.drop_last()), candidates.last())
    }
}

/// The names that the matches of an element pattern offer (group 1, tags removed).
pub open spec fn element_candidates(matches: Seq<Seq<Option<Seq<char>>>>) -> Seq<Seq<char>> {
    matches.map_values(|caps: Seq<Option<Seq<char>>>| clean_text_spec(strip_tags_spec(group(caps, 1))))
}

/// The names that the matches of the title pattern offer (group 2).
pub open spec fn title_candidates(matches: Seq<Seq<Option<Seq<char>>>>) -> Seq<Seq<char>> {
    matches.map_values(|caps: Seq<Option<Seq<char>>>| clean_text_spec(group(caps, 2)))
}

/// `str::split` at every character of a set: the pieces between them, empty
/// ones included.
pub open spec fn split_set(s: Seq<char>, set: CharSet) -> Seq<Seq<char>>
    decreases s.len(),
{
    if s.len() == 0 {
        seq![Seq::<char>::empty()]
    } else {
        let r = split_set(s.drop_last(), set);
        if crate::text::in_set(set, s.last()) {
            r.push(Seq::empty())
        } else {
            r.update(r.len() - 1, r.last().push(s.last()))
        }
    }
}

proof fn lemma_split_nonempty(s: Seq<char>, set: CharSet)
    ensures
        split_set(s, set).len() >= 1,
    decreases s.len(),
{
    if s.len() > 0 {
        lemma_split_nonempty(s.drop_last(), set);
    }
}

/// The names that the matches of the label pattern offer: group 2 without
/// tags, split at separators.
pub open spec fn block_candidates(matches: Seq<Seq<Option<Seq<char>>>>) -> Seq<Seq<char>>
    decreases matches.len(),
{
    if matches.len() == 0 {
        Seq::empty()
    } else {
        block_candidates(matches.drop_last()) + split_set(
            strip_tags_spec(group(matches.last(), 2)),
            CharSet::NameSeparators,
        ).map_values(|part: Seq<char>| clean_text_spec(part))
    }
}

/// The actor names of a page: from `star-name` elements and actor links; if
/// there are none, from search-result titles; if still none, from `Actor:`
/// labels. Each plausible name once, in page order.
pub open spec fn actor_names_spec(html: Seq<char>) -> Seq<Seq<char>> {
    let page = strip_blocks_spec(html);
    let n1 = admit_all(Seq::empty(), element_candidates(captures_all_result(STAR_NAME_PATTERN@, page)));
    let n2 = admit_all(n1, element_candidates(captures_all_result(STAR_LINK_PATTERN@, page)));
    let n3 = if n2.len() == 0 {
        admit_all(n2, title_candidates(captures_all_result(TITLE_SPAN_PATTERN@, page)))
    } else {
        n2
    };
    if n3.len() == 0 {
        admit_all(n3, block_candidates(captures_all_result(ACTOR_BLOCK_PATTERN@, page)))
    } else {
        n3
    }
}

/// Adds, in order, each candidate that is a plausible name and not yet in
/// the list.
pub fn admit_candidates(names: &mut Vec<String>, candidates: &Vec<String>)
    ensures
        final(names).deep_view() == admit_all(old(names).deep_view(), candidates.deep_view()),
{
    let ghost start = names.deep_view();
    let mut i: usize = 0;
    while i < candidates.len()
        invariant
            i <= candidates.len(),
            names.deep_view() == admit_all(start, candidates.deep_view().take(i as int)),
        decreases candidates.len() - i,
    {
        let name = &candidates[i];
        proof {
            let prefix = candidates.deep_view().take(i + 1);
            assert(prefix.drop_last() == candidates.deep_view().take(i as int));
            assert(prefix.last() == name@);
        }
        if is_plausible_actor_name(name.as_str()) && !contains_string(names, name) {
            let ghost before = names.deep_view();
            names.push(name.clone());
            assert(names.deep_view() == before.push(name@));
        }
        i += 1;
    }
    assert(candidates.deep_view().take(candidates.len() as int) == candidates.deep_view());
}

/// The candidate names of element matches: group 1 without its tags, cleaned.
pub fn element_candidate_list(matches: &Vec<Vec<Option<String>>>) -> (r: Vec<String>)
    ensures
        r.deep_view() == element_candidates(matches.deep_view()),
{
    let mut out: Vec<String> = Vec::new();
    let mut i: usize = 0;
    while i < matches.len()
        invariant
            i <= matches.len(),
            out.deep_view() == element_candidates(matches.deep_view().take(i as int)),
        decreases matches.len() - i,
    {
        let inner = capture_group(&matches[i], 1);
        let name = clean_metadata_text(strip_html_tags(inner.as_str()).as_str());
        let ghost before = out.deep_view();
        out.push(name);
        proof {
            assert(out.deep_view() == before.push(name@));
            assert(matches.deep_view().take(i + 1) == matches.deep_view().take(i as int).push(matches.deep_view()[i as int]));
        }
        i += 1;
    }
    assert(matches.deep_view().take(matches.len() as int) == matches.deep_view());
    out
}

/// The candidate names of title matches: group 2, cleaned.
pub fn title_candidate_list(matches: &Vec<Vec<Option<String>>>) -> (r: Vec<String>)
    ensures
        r.deep_view() == title_candidates(matches.deep_view()),
{
    let mut out: Vec<String> = Vec::new();
    let mut i: usize = 0;
    while i < matches.len()
        invariant
            i <= matches.len(),
            out.deep_view() == title_candidates(matches.deep_view().take(i as int)),
        decreases matches.len() - i,
    {
        let name = clean_metadata_text(capture_group(&matches[i], 2).as_str());
        let ghost before = out.deep_view();
        out.push(name);
        proof {
            assert(out.deep_view() == before.push(name@));
            assert(matches.deep_view().take(i + 1) == matches.deep_view().take(i as int).push(matches.deep_view()[i as int]));
        }
        i += 1;
    }
    assert(matches.deep_view().take(matches.len() as int) == matches.deep_view());
    out
}

/// `str::split` at every character of a set.
pub fn split_at_set(text: &str, set: CharSet) -> (r: Vec<String>)
    ensures
        r.deep_view() == split_set(text@, set),
{
    let chars = chars_of(text);
    let mut pieces: Vec<String> = Vec::new();
    let mut current: Vec<char> = Vec::new();
    let mut i: usize = 0;
    assert(chars@.take(0) == Seq::<char>::empty());
    assert(pieces.deep_view().push(current@) =~= seq![Seq::<char>::empty()]);
    while i < chars.len()
        invariant
            i <= chars.len(),
            split_set(chars@.take(i as int), set) == pieces.deep_view().push(current@),
        decreases chars.len() - i,
    {
        let c = chars[i];
        let ghost prefix = chars@.take(i + 1);
        proof {
            assert(prefix.drop_last() == chars@.take(i as int));
            assert(prefix.last() == c);
        }
        if crate::text::is_in_set(set, c) {
            let ghost before = pieces.deep_view();
            let piece = string_of(&current);
            pieces.push(piece);
            current = Vec::new();
            assert(pieces.deep_view() == before.push(piece@));
            assert(split_set(prefix, set) == pieces.deep_view().push(current@));
        } else {
            let ghost old_current = current@;
            current.push(c);
            assert(split_set(prefix, set) == pieces.deep_view().push(current@)) by {
                let r = split_set(chars@.take(i as int), set);
                assert(r == pieces.deep_view().push(old_current));
                assert(r.update(r.len() - 1, r.last().push(c)) =~= pieces.deep_view().push(current@));
            }
        }
        i += 1;
    }
    assert(chars@.take(chars.len() as int) == chars@);
    let ghost before = pieces.deep_view();
    let last = string_of(&current);
    pieces.push(last);
    assert(pieces.deep_view() == before.push(last@));
    pieces
}

/// The candidate names of block matches: group 2 without its tags, split at
/// the name separators, each piece cleaned.
pub fn block_candidate_list(matches: &Vec<Vec<Option<String>>>) -> (r: Vec<String>)
    ensures
        r.deep_view() == block_candidates(matches.deep_view()),
{
    let mut out: Vec<String> = Vec::new();
    let mut i: usize = 0;
    while i < matches.len()
        invariant
            i <= matches.len(),
            out.deep_view() == block_candidates(matches.deep_view().take(i as int)),
        decreases matches.len() - i,
    {
        let text = strip_html_tags(capture_group(&matches[i], 2).as_str());
        let parts = split_at_set(text.as_str(), CharSet::NameSeparators);
        let ghost start = out.deep_view();
        let ghost cleaned = parts.deep_view().map_values(|part: Seq<char>| clean_text_spec(part));
        let mut j: usize = 0;
        while j < parts.len()
            invariant
                j <= parts.len(),
                cleaned == parts.deep_view().map_values(|part: Seq<char>| clean_text_spec(part)),
                out.deep_view() == start + cleaned.take(j as int),
            decreases parts.len() - j,
        {
            let name = clean_metadata_text(parts[j].as_str());
            let ghost before = out.deep_view();
            out.push(name);
            proof {
                assert(out.deep_view() == before.push(name@));
                assert(cleaned.take(j + 1) == cleaned.take(j as int).push(cleaned[j as int]));
            }
            j += 1;
        }
        proof {
            assert(cleaned.take(parts.len() as int) == cleaned);
            let next = matches.deep_view().take(i + 1);
            assert(next.drop_last() == matches.deep_view().take(i as int));
            assert(next.last() == matches.deep_view()[i as int]);
        }
        i += 1;
    }
    assert(matches.deep_view().take(matches.len() as int) == matches.deep_view());
    out
}

/// The actor names of a page of the metadata site.
pub fn extract_actor_names(html: &str) -> (r: Vec<String>)
    ensures
        r.deep_view() == actor_names_spec(html@),
{
    let page = strip_script_and_style_blocks(html);
    let mut names: Vec<String> = Vec::new();
    assert(names.deep_view() =~= Seq::<Seq<char>>::empty());
    let star_names = regex_captures_all(STAR_NAME_PATTERN, page.as_str());
    admit_candidates(&mut names, &element_candidate_list(&star_names));
    let star_links = regex_captures_all(STAR_LINK_PATTERN, page.as_str());
    admit_candidates(&mut names, &element_candidate_list(&star_links));
    if names.len() == 0 {
        let titles = regex_captures_all(TITLE_SPAN_PATTERN, page.as_str());
        admit_candidates(&mut names, &title_candidate_list(&titles));
    }
    if names.len() == 0 {
        let blocks = regex_captures_all(ACTOR_BLOCK_PATTERN, page.as_str());
        admit_candidates(&mut names, &block_candidate_list(&blocks));
    }
    names
}


// ---------------------------------------------------------------------------
// Links and images
// ---------------------------------------------------------------------------

/// A link; group 1 is its target.
pub const HREF_PATTERN: &'static str = r#"(?is)<a[^>]+href\s*=\s*["']([^"']+)["'][^>]*>(.*?)</a>"#;

/// An image inside an actor link; group 1 is its source.
pub const STAR_IMAGE_PATTERN: &'static str = r#"(?is)<a[^>]+href\s*=\s*["'][^"']*/star/[^"']+["'][^>]*>.*?<img[^>]+src\s*=\s*["']([^"']+)["']"#;

/// An actress portrait on an actor search page; group 1 is its source.
pub const SEARCHSTAR_IMAGE_PATTERN: &'static str = r#"(?is)<img[^>]+src\s*=\s*["']([^"']*?/pics/actress/[^"']+)["'][^>]*>"#;

/// Any image; group 1 is its source.
pub const IMAGE_PATTERN: &'static str = r#"(?is)<img[^>]+src\s*=\s*["']([^"']+)["']"#;

/// Whether group 1 took part in the match.
pub open spec fn has_group1(caps: Seq<Option<Seq<char>>>) -> bool {
    1 < caps.len() && caps[1] is Some
}

/// What one link match decides: stop with no result when it lacks its target,
/// stop with the link when it leads to the detail page of the code, go on
/// otherwise (`None`).
pub open spec fn detail_link_step(
    caps: Seq<Option<Seq<char>>>,
    base: Seq<char>,
    compact: Seq<char>,
) -> Option<Option<Seq<char>>> {
    if !has_group1(caps) {
        Some(None)
    } else {
        let href = decode_entities_spec(group(caps, 1));
        let resolved = resolve_url_spec(base, href);
        if !starts_with(href, "javascript:"@) && is_detail_page_spec(resolved, compact) {
            Some(Some(resolved))
        } else {
            None
        }
    }
}

/// The first link, among the matches, that leads to the detail page of the
/// code; none as soon as a match lacks its target.
pub open spec fn first_detail_link(
    matches: Seq<Seq<Option<Seq<char>>>>,
    base: Seq<char>,
    compact: Seq<char>,
) -> Option<Seq<char>>
    decreases matches.len(),
{
    if matches.len() == 0 {
        None
    } else {
        match detail_link_step(matches[0], base, compact) {
            Some(result) => result,
            None => first_detail_link(matches.drop_first(), base, compact),
        }
    }
}

/// The detail page of the code linked from a search page.
pub open spec fn detail_url_spec(html: Seq<char>, base: Seq<char>, code: Seq<char>) -> Option<Seq<char>> {
    first_detail_link(captures_all_result(HREF_PATTERN@, html), base, replace_seq(code, "-"@, ""@))
}

fn group1_present(caps: &Vec<Option<String>>) -> (r: bool)
    ensures
        r == has_group1(caps.deep_view()),
{
    caps.len() > 1 && caps[1].is_some()
}

/// What one link match decides (see `detail_link_step`).
pub fn detail_link_decision(caps: &Vec<Option<String>>, base_url: &str, compact: &str) -> (r: Option<Option<String>>)
    ensures
        r.deep_view() == detail_link_step(caps.deep_view(), base_url@, compact@),
{
    if !group1_present(caps) {
        return Some(None);
    }
    let href = decode_html_entities(capture_group(caps, 1).as_str());
    let resolved = resolve_url(base_url, href.as_str());
    if !str_starts_with(href.as_str(), "javascript:") && is_detail_page_url(resolved.as_str(), compact) {
        Some(Some(resolved))
    } else {
        None
    }
}

/// The first link, among the link matches of a page, that leads to the
/// detail page of the compact code.
pub fn first_detail_link_in(
    matches: &Vec<Vec<Option<String>>>,
    base_url: &str,
    compact: &str,
) -> (r: Option<String>)
    ensures
        r.deep_view() == first_detail_link(matches.deep_view(), base_url@, compact@),
{
    let ghost all = matches.deep_view();
    let mut i: usize = 0;
    assert(all.skip(0) == all);
    while i < matches.len()
        invariant
            i <= matches.len(),
            all == matches.deep_view(),
            first_detail_link(all, base_url@, compact@) == first_detail_link(all.skip(i as int), base_url@, compact@),
        decreases matches.len() - i,
    {
        let ghost rest = all.skip(i as int);
        proof {
            assert(rest[0] == all[i as int]);
            assert(rest.drop_first() == all.skip(i + 1));
        }
        let step = detail_link_decision(&matches[i], base_url, compact);
        proof {
            assert(all[i as int] == matches@[i as int].deep_view());
            assert(first_detail_link(rest, base_url@, compact@) == match detail_link_step(rest[0], base_url@, compact@) {
                Some(result) => result,
                None => first_detail_link(rest.drop_first(), base_url@, compact@),
            });
        }
        match step {
            Some(result) => {
                assert(step.deep_view() == Some(result.deep_view()));
                return result;
            },
            None => {},
        }
        i += 1;
    }
    assert(all.skip(i as int).len() == 0);
    None
}

/// The detail page of the code linked from a search page, resolved against
/// the search page's address.
pub fn extract_detail_url(html: &str, base_url: &str, code: &str) -> (r: Option<String>)
    ensures
        r.deep_view() == detail_url_spec(html@, base_url@, code@),
{
    proof {
        reveal_strlit("-");
    }
    let compact = replace_str(code, "-", "");
    let matches = regex_captures_all(HREF_PATTERN, html);
    first_detail_link_in(&matches, base_url, compact.as_str())
}

/// The image source in group 1 of a match, decoded and resolved.
pub open spec fn image_in(caps: Option<Seq<Option<Seq<char>>>>, base: Seq<char>) -> Option<Seq<char>> {
    match caps {
        Some(c) => if has_group1(c) {
            Some(resolve_url_spec(base, decode_entities_spec(group(c, 1))))
        } else {
            None
        },
        None => None,
    }
}

/// The image source in group 1 of a match, decoded and resolved against the
/// page's address.
pub fn image_from_captures(caps: Option<Vec<Option<String>>>, base_url: &str) -> (r: Option<String>)
    ensures
        r.deep_view() == image_in(caps.deep_view(), base_url@),
{
    match caps {
        Some(c) => if group1_present(&c) {
            let src = decode_html_entities(capture_group(&c, 1).as_str());
            Some(resolve_url(base_url, src.as_str()))
        } else {
            None
        },
        None => None,
    }
}

/// The avatar inside the first actor link of a detail page.
pub fn extract_actor_avatar_url(html: &str, base_url: &str) -> (r: Option<String>)
    ensures
        r.deep_view() == image_in(captures_result(STAR_IMAGE_PATTERN@, html@), base_url@),
{
    image_from_captures(regex_captures(STAR_IMAGE_PATTERN, html), base_url)
}

/// The first actress portrait of an actor search page.
pub fn extract_searchstar_avatar_url(html: &str, base_url: &str) -> (r: Option<String>)
    ensures
        r.deep_view() == image_in(captures_result(SEARCHSTAR_IMAGE_PATTERN@, html@), base_url@),
{
    image_from_captures(regex_captures(SEARCHSTAR_IMAGE_PATTERN, html), base_url)
}

/// Whether an image source is decoration: a logo, a blank, or an SVG.
pub open spec fn is_decoration(src: Seq<char>) -> bool {
    let lower = ascii_lower(src);
    contains(lower, "logo"@) || contains(lower, "blank"@) || ends_with(lower, ".svg"@)
}

/// What one image match decides: stop with no result when it lacks its
/// source, go on past decoration (`None`), stop with the image otherwise.
pub open spec fn image_step(caps: Seq<Option<Seq<char>>>, base: Seq<char>) -> Option<Option<Seq<char>>> {
    if !has_group1(caps) {
        Some(None)
    } else {
        let src = decode_entities_spec(group(caps, 1));
        if is_decoration(src) {
            None
        } else {
            Some(Some(resolve_url_spec(base, src)))
        }
    }
}

/// The first image among the matches that is not decoration; none as soon as
/// a match lacks its source.
pub open spec fn first_image(matches: Seq<Seq<Option<Seq<char>>>>, base: Seq<char>) -> Option<Seq<char>>
    decreases matches.len(),
{
    if matches.len() == 0 {
        None
    } else {
        match image_step(matches[0], base) {
            Some(result) => result,
            None => first_image(matches.drop_first(), base),
        }
    }
}

/// What one image match decides (see `image_step`).
pub fn image_decision(caps: &Vec<Option<String>>, base_url: &str) -> (r: Option<Option<String>>)
    ensures
        r.deep_view() == image_step(caps.deep_view(), base_url@),
{
    if !group1_present(caps) {
        return Some(None);
    }
    let src = decode_html_entities(capture_group(caps, 1).as_str());
    let lower = lower_chars(&chars_of(src.as_str()));
    if contains_chars(&lower, &chars_of("logo")) || contains_chars(&lower, &chars_of("blank"))
        || has_suffix(&lower, &chars_of(".svg")) {
        None
    } else {
        Some(Some(resolve_url(base_url, src.as_str())))
    }
}

/// The first image among the image matches of a page that is not
/// decoration.
pub fn first_image_in(matches: &Vec<Vec<Option<String>>>, base_url: &str) -> (r: Option<String>)
    ensures
        r.deep_view() == first_image(matches.deep_view(), base_url@),
{
    let ghost all = matches.deep_view();
    let mut i: usize = 0;
    assert(all.skip(0) == all);
    while i < matches.len()
        invariant
            i <= matches.len(),
            all == matches.deep_view(),
            first_image(all, base_url@) == first_image(all.skip(i as int), base_url@),
        decreases matches.len() - i,
    {
        let ghost rest = all.skip(i as int);
        proof {
            assert(rest[0] == all[i as int]);
            assert(rest.drop_first() == all.skip(i + 1));
        }
        let step = image_decision(&matches[i], base_url);
        proof {
            assert(all[i as int] == matches@[i as int].deep_view());
            assert(first_image(rest, base_url@) == match image_step(rest[0], base_url@) {
                Some(result) => result,
                None => first_image(rest.drop_first(), base_url@),
            });
        }
        match step {
            Some(result) => {
                assert(step.deep_view() == Some(result.deep_view()));
                return result;
            },
            None => {},
        }
        i += 1;
    }
    assert(all.skip(i as int).len() == 0);
    None
}

/// The first image of a page that is not a logo, a blank or an SVG.
pub fn extract_first_image_url(html: &str, base_url: &str) -> (r: Option<String>)
    ensures
        r.deep_view() == first_image(captures_all_result(IMAGE_PATTERN@, html@), base_url@),
{
    let matches = regex_captures_all(IMAGE_PATTERN, html);
    first_image_in(&matches, base_url)
}

} // verus!
