//! Helpers around the media files themselves: which files count as media,
//! which names are clean, and the name an organized file is given.
use vstd::prelude::*;

use crate::text::{matches_at, occurs_at};

verus! {

/// `s` ends with `suffix`.
pub open spec fn ends_with(s: Seq<char>, suffix: Seq<char>) -> bool {
    occurs_at(s, suffix, s.len() - suffix.len())
}

/// Whether `s` ends with `suffix`.
pub fn str_ends_with(s: &str, suffix: &str) -> (r: bool)
    ensures
        r == ends_with(s@, suffix@),
{
    let slen = s.unicode_len();
    let xlen = suffix.unicode_len();
    if xlen > slen {
        return false;
    }
    matches_at(s, suffix, slen - xlen)
}

/// A file taken along when a directory is organized: a video or a subtitle
/// file, by the name's extension.
pub fn check_file_extensions(file_name: &str) -> (r: bool)
    ensures
        r == (ends_with(file_name@, ".mkv"@) || ends_with(file_name@, ".mp4"@) || ends_with(
            file_name@,
            ".avi"@,
        ) || ends_with(file_name@, ".m4v"@) || ends_with(file_name@, ".srt"@) || ends_with(
            file_name@,
            ".ass"@,
        )),
{
    str_ends_with(file_name, ".mkv") || str_ends_with(file_name, ".mp4") || str_ends_with(
        file_name,
        ".avi",
    ) || str_ends_with(file_name, ".m4v") || str_ends_with(file_name, ".srt") || str_ends_with(
        file_name,
        ".ass",
    )
}

/// A character allowed in a clean file name: an ASCII letter or digit, a
/// dash, an underscore, or whitespace.
pub open spec fn clean_name_char(c: char) -> bool {
    (97 <= c as u32 <= 122) || (65 <= c as u32 <= 90) || (48 <= c as u32 <= 57) || c == '-' || c
        == '_' || crate::text::is_ws(c)
}

/// A clean file name: non-empty and made only of ASCII letters, digits,
/// dashes, underscores and whitespace.
pub fn check_filename_by_regex(file_name: &str) -> (r: bool)
    ensures
        r == (file_name@.len() > 0 && (forall|k: int|
            0 <= k < file_name@.len() ==> clean_name_char(#[trigger] file_name@[k]))),
{
    let len = file_name.unicode_len();
    if len == 0 {
        return false;
    }
    let mut i: usize = 0;
    while i < len
        invariant
            0 <= i <= len,
            len == file_name@.len(),
            forall|k: int| 0 <= k < i ==> clean_name_char(#[trigger] file_name@[k]),
        decreases len - i,
    {
        let c = file_name.get_char(i);
        let u = c as u32;
        let ok = (97 <= u && u <= 122) || (65 <= u && u <= 90) || (48 <= u && u <= 57) || c == '-'
            || c == '_' || crate::text::is_ws_char(c);
        if !ok {
            return false;
        }
        i = i + 1;
    }
    true
}

/// The name an organized episode file is given: the show's name, the season
/// and episode marker, and the original extension.
pub open spec fn episode_file_name_spec(
    show: Seq<char>,
    season: Seq<char>,
    episode: Seq<char>,
    ext: Seq<char>,
) -> Seq<char> {
    show + " S"@ + season + "E"@ + episode + "."@ + ext
}

/// Builds the name an organized episode file is given.
pub fn episode_file_name(show: &str, season: &str, episode: &str, ext: &str) -> (r: String)
    ensures
        r@ == episode_file_name_spec(show@, season@, episode@, ext@),
{
    let mut out = String::new();
    out.append(show);
    out.append(" S");
    out.append(season);
    out.append("E");
    out.append(episode);
    out.append(".");
    out.append(ext);
    proof {
        assert(out@ =~= episode_file_name_spec(show@, season@, episode@, ext@));
    }
    out
}

} // verus!
