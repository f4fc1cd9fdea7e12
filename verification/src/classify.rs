//! Classification of a file by its extension and by its age.
//!
//! The extension decides the top-level category folder through a fixed table;
//! the match is case-insensitive, and anything unmatched or without an
//! extension falls into the catch-all `others` category. The age of a file
//! (seconds between its last modification and "now") decides an optional age
//! subfolder: sixty days or older, thirty to fifty-nine days, or none.

use vstd::prelude::*;

verus! {

/// Top-level destination folder chosen from a file's extension.
#[derive(Clone, Copy, Debug, PartialEq, Eq)]
pub enum Category {
    Images,
    Gifs,
    Videos,
    Audio,
    Documents,
    Archives,
    Others,
}

/// Age subfolder chosen from how long ago a file was last modified.
///
/// The canonical bucketing policy: sixty or more whole days old is the most
/// stale bucket, thirty to fifty-nine days the less stale one, and anything
/// younger (or dated in the future) gets no age subfolder at all.
#[derive(Clone, Copy, Debug, PartialEq, Eq)]
pub enum AgeBucket {
    SixtyDaysOrOlder,
    ThirtyToFiftyNineDays,
}

/// ASCII-lowercase of one character; every other character is unchanged.
pub open spec fn spec_lower_char(c: char) -> char {
    if 'A' <= c && c <= 'Z' {
        ((c as u8) + 32) as char
    } else {
        c
    }
}

/// ASCII-lowercase of a whole string.
pub open spec fn spec_lower(s: Seq<char>) -> Seq<char> {
    s.map_values(|c: char| spec_lower_char(c))
}

/// ASCII-lowercase of one character.
pub fn lower_char(c: char) -> (r: char)
    ensures
        r == spec_lower_char(c),
{
    if 'A' <= c && c <= 'Z' {
        ((c as u8) + 32) as char
    } else {
        c
    }
}

/// Relies on `String::push`: appends the given character to the end of the
/// string.
#[verifier::external_body]
fn push_char(s: &mut String, c: char)
    ensures
        final(s)@ == old(s)@.push(c),
{
    s.push(c);
}

/// ASCII-lowercase of a whole string. The category table holds ASCII names
/// only, so folding ASCII case is all that a case-insensitive match needs.
pub fn to_ascii_lower(s: &str) -> (r: String)
    ensures
        r@ == spec_lower(s@),
{
    let n = s.unicode_len();
    let mut r = String::new();
    let mut i: usize = 0;
    while i < n
        invariant
            i <= n,
            n == s@.len(),
            r@.len() == i,
            forall|j: int| 0 <= j < i ==> r@[j] == spec_lower_char(s@[j]),
        decreases n - i,
    {
        let c = s.get_char(i);
        push_char(&mut r, lower_char(c));
        i = i + 1;
    }
    proof {
        assert(r@ =~= spec_lower(s@));
    }
    r
}

/// Character-for-character equality of two strings.
pub(crate) fn str_eq(a: &str, b: &str) -> (r: bool)
    ensures
        r == (a@ == b@),
{
    let n = a.unicode_len();
    if n != b.unicode_len() {
        return false;
    }
    let mut i: usize = 0;
    while i < n
        invariant
            i <= n,
            n == a@.len(),
            n == b@.len(),
            forall|j: int| 0 <= j < i ==> a@[j] == b@[j],
        decreases n - i,
    {
        if a.get_char(i) != b.get_char(i) {
            return false;
        }
        i = i + 1;
    }
    proof {
        assert(a@ =~= b@);
    }
    true
}

/// Which lowercase extensions the fixed table maps to a named category.
pub open spec fn spec_is_mapped(l: Seq<char>) -> bool {
    ||| l == "jpg"@
    ||| l == "jpeg"@
    ||| l == "png"@
    ||| l == "bmp"@
    ||| l == "tiff"@
    ||| l == "gif"@
    ||| l == "mp4"@
    ||| l == "mov"@
    ||| l == "avi"@
    ||| l == "mkv"@
    ||| l == "mp3"@
    ||| l == "wav"@
    ||| l == "flac"@
    ||| l == "pdf"@
    ||| l == "docx"@
    ||| l == "txt"@
    ||| l == "zip"@
    ||| l == "rar"@
    ||| l == "7z"@
}

/// The fixed extension table, applied to the ASCII-lowercase of the extension.
pub open spec fn spec_category_of_ext(ext: Seq<char>) -> Category {
    let l = spec_lower(ext);
    if l == "jpg"@ || l == "jpeg"@ || l == "png"@ || l == "bmp"@ || l == "tiff"@ {
        Category::Images
    } else if l == "gif"@ {
        Category::Gifs
    } else if l == "mp4"@ || l == "mov"@ || l == "avi"@ || l == "mkv"@ {
        Category::Videos
    } else if l == "mp3"@ || l == "wav"@ || l == "flac"@ {
        Category::Audio
    } else if l == "pdf"@ || l == "docx"@ || l == "txt"@ {
        Category::Documents
    } else if l == "zip"@ || l == "rar"@ || l == "7z"@ {
        Category::Archives
    } else {
        Category::Others
    }
}

/// Category of one extension, matched case-insensitively against the table.
pub fn category_of_ext(ext: &str) -> (c: Category)
    ensures
        c == spec_category_of_ext(ext@),
{
    let l = to_ascii_lower(ext);
    let l = l.as_str();
    if str_eq(l, "jpg") || str_eq(l, "jpeg") || str_eq(l, "png") || str_eq(l, "bmp") || str_eq(
        l,
        "tiff",
    ) {
        Category::Images
    } else if str_eq(l, "gif") {
        Category::Gifs
    } else if str_eq(l, "mp4") || str_eq(l, "mov") || str_eq(l, "avi") || str_eq(l, "mkv") {
        Category::Videos
    } else if str_eq(l, "mp3") || str_eq(l, "wav") || str_eq(l, "flac") {
        Category::Audio
    } else if str_eq(l, "pdf") || str_eq(l, "docx") || str_eq(l, "txt") {
        Category::Documents
    } else if str_eq(l, "zip") || str_eq(l, "rar") || str_eq(l, "7z") {
        Category::Archives
    } else {
        Category::Others
    }
}

/// The extension table is case-insensitive: an extension and its
/// ASCII-lowercase form always map to the same category.
pub proof fn lemma_category_case_insensitive(ext: Seq<char>)
    ensures
        spec_category_of_ext(ext) == spec_category_of_ext(spec_lower(ext)),
{
    assert forall|j: int| 0 <= j < ext.len() implies spec_lower_char(spec_lower_char(ext[j]))
        == spec_lower_char(ext[j]) by {
        let c = ext[j];
        if 'A' <= c && c <= 'Z' {
            assert(spec_lower_char(c) == ((c as u8) + 32) as char);
        }
    }
    assert(spec_lower(spec_lower(ext)) =~= spec_lower(ext));
}

/// The table is exhaustive: an extension that matches no row of it, once
/// lowercased, is routed to the catch-all `others` category.
pub proof fn lemma_unmapped_extension_goes_to_others(ext: Seq<char>)
    requires
        !spec_is_mapped(spec_lower(ext)),
    ensures
        spec_category_of_ext(ext) == Category::Others,
{
}

/// Position of the last `.` in a file name, if any.
pub open spec fn spec_last_dot(name: Seq<char>) -> Option<int>
    decreases name.len(),
{
    if name.len() == 0 {
        None
    } else if name[name.len() - 1] == '.' {
        Some(name.len() - 1)
    } else {
        spec_last_dot(name.drop_last())
    }
}

/// The extension of a file name: everything after the last `.`, provided that
/// dot is neither absent nor the leading character. A name such as `archive`
/// has no extension, and neither has a name that starts with its only dot.
pub open spec fn spec_extension(name: Seq<char>) -> Option<Seq<char>> {
    match spec_last_dot(name) {
        Some(i) => if i >= 1 {
            Some(name.subrange(i + 1, name.len() as int))
        } else {
            None
        },
        None => None,
    }
}

proof fn lemma_last_dot_at(name: Seq<char>, k: int)
    requires
        0 <= k < name.len(),
        name[k] == '.',
        forall|j: int| k < j < name.len() ==> name[j] != '.',
    ensures
        spec_last_dot(name) == Some(k),
    decreases name.len(),
{
    if k < name.len() - 1 {
        lemma_last_dot_at(name.drop_last(), k);
    }
}

proof fn lemma_no_dot(name: Seq<char>)
    requires
        forall|j: int| 0 <= j < name.len() ==> name[j] != '.',
    ensures
        spec_last_dot(name) is None,
    decreases name.len(),
{
    if name.len() > 0 {
        lemma_no_dot(name.drop_last());
    }
}

/// The extension of a file name, as `Path::extension` reads it: the part
/// after the last dot, unless there is no dot past the leading character.
pub fn extension_of(name: &str) -> (r: Option<String>)
    ensures
        match r {
            Some(e) => spec_extension(name@) == Some(e@),
            None => spec_extension(name@) is None,
        },
{
    let n = name.unicode_len();
    let mut i: usize = n;
    while i > 0
        invariant
            i <= n,
            n == name@.len(),
            forall|j: int| i <= j < n ==> name@[j] != '.',
        decreases i,
    {
        i = i - 1;
        if name.get_char(i) == '.' {
            proof {
                lemma_last_dot_at(name@, i as int);
            }
            if i == 0 {
                return None;
            }
            let e = name.substring_char(i + 1, n);
            return Some(e.to_owned());
        }
    }
    proof {
        lemma_no_dot(name@);
    }
    None
}

/// Category of a whole file name: the category of its extension, or the
/// catch-all `others` category when the name has none.
pub open spec fn spec_category_of_name(name: Seq<char>) -> Category {
    match spec_extension(name) {
        Some(e) => spec_category_of_ext(e),
        None => Category::Others,
    }
}

/// Category of a whole file name.
pub fn category_of_name(name: &str) -> (c: Category)
    ensures
        c == spec_category_of_name(name@),
{
    match extension_of(name) {
        Some(e) => category_of_ext(e.as_str()),
        None => Category::Others,
    }
}

/// Age bucket for a file last modified at `modified` seconds since the epoch,
/// judged at `now` seconds since the epoch: sixty or more whole days of age
/// give the most stale bucket, thirty to fifty-nine days the other one, and
/// everything younger (including files dated in the future) gives none.
pub open spec fn spec_age_bucket(now: int, modified: int) -> Option<AgeBucket> {
    if modified > now {
        None
    } else {
        let days = (now - modified) / 86400;
        if days >= 60 {
            Some(AgeBucket::SixtyDaysOrOlder)
        } else if days >= 30 {
            Some(AgeBucket::ThirtyToFiftyNineDays)
        } else {
            None
        }
    }
}

/// Age bucket of a file, a pure function of the two timestamps, each in whole
/// seconds since the Unix epoch.
pub fn classify_file_age(now_secs: i64, modified_secs: i64) -> (b: Option<AgeBucket>)
    ensures
        b == spec_age_bucket(now_secs as int, modified_secs as int),
{
    if modified_secs > now_secs {
        return None;
    }
    let diff: i128 = (now_secs as i128) - (modified_secs as i128);
    let diff: u128 = diff as u128;
    let days: u128 = diff / 86400;
    if days >= 60 {
        Some(AgeBucket::SixtyDaysOrOlder)
    } else if days >= 30 {
        Some(AgeBucket::ThirtyToFiftyNineDays)
    } else {
        None
    }
}

/// Folder name of a category, as it appears under the organized root.
pub open spec fn spec_category_folder(c: Category) -> Seq<char> {
    match c {
        Category::Images => "images"@,
        Category::Gifs => "gifs"@,
        Category::Videos => "videos"@,
        Category::Audio => "audio"@,
        Category::Documents => "documents"@,
        Category::Archives => "archives"@,
        Category::Others => "others"@,
    }
}

/// Folder name of a category.
pub fn category_folder(c: Category) -> (r: String)
    ensures
        r@ == spec_category_folder(c),
{
    match c {
        Category::Images => "images".to_owned(),
        Category::Gifs => "gifs".to_owned(),
        Category::Videos => "videos".to_owned(),
        Category::Audio => "audio".to_owned(),
        Category::Documents => "documents".to_owned(),
        Category::Archives => "archives".to_owned(),
        Category::Others => "others".to_owned(),
    }
}

/// Folder name of an age bucket, as it appears under a category folder.
pub open spec fn spec_bucket_folder(b: AgeBucket) -> Seq<char> {
    match b {
        AgeBucket::SixtyDaysOrOlder => "60_days_or_older"@,
        AgeBucket::ThirtyToFiftyNineDays => "30_to_59_days_old"@,
    }
}

/// Folder name of an age bucket.
pub fn bucket_folder(b: AgeBucket) -> (r: String)
    ensures
        r@ == spec_bucket_folder(b),
{
    match b {
        AgeBucket::SixtyDaysOrOlder => "60_days_or_older".to_owned(),
        AgeBucket::ThirtyToFiftyNineDays => "30_to_59_days_old".to_owned(),
    }
}

} // verus!
