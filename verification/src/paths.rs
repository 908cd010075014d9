//! Output file names of the command line tool.
use vstd::prelude::*;
use vstd::string::*;

use crate::text::str_eq;

verus! {

/// `s` ends with `suf`.
pub open spec fn ends_with(s: Seq<char>, suf: Seq<char>) -> bool {
    suf.len() <= s.len() && s.skip(s.len() - suf.len()) == suf
}

/// A path that is one plain file name: not empty, not `.` or `..`, and with
/// no `/`, `\` or `:` in it (so no directory and, on any platform, no
/// prefix).
pub open spec fn is_plain_file_name(p: Seq<char>) -> bool {
    &&& p.len() > 0
    &&& p != "."@
    &&& p != ".."@
    &&& forall|i: int| 0 <= i < p.len() ==> p[i] != '/' && p[i] != '\\' && p[i] != ':'
}

/// Index of the last `.` in `p`, or -1 when there is none.
pub open spec fn last_dot(p: Seq<char>) -> int
    decreases p.len(),
{
    if p.len() == 0 {
        -1
    } else if p.last() == '.' {
        p.len() - 1
    } else {
        last_dot(p.drop_last())
    }
}

/// The stem of a file name: the name up to its last `.`, or the whole name
/// when it has no `.` or its only `.` is its first character.
pub open spec fn file_stem(p: Seq<char>) -> Seq<char> {
    if last_dot(p) <= 0 {
        p
    } else {
        p.take(last_dot(p))
    }
}

/// Index of the last `/` in `p`, or -1 when there is none.
pub open spec fn last_slash(p: Seq<char>) -> int
    decreases p.len(),
{
    if p.len() == 0 {
        -1
    } else if p.last() == '/' {
        p.len() - 1
    } else {
        last_slash(p.drop_last())
    }
}

/// The directory part of a path: everything up to and including its last
/// `/` (nothing when it has none).
pub open spec fn dir_part(p: Seq<char>) -> Seq<char> {
    p.take(last_slash(p) + 1)
}

/// The last component of a path: everything after its last `/`.
pub open spec fn name_part(p: Seq<char>) -> Seq<char> {
    p.skip(last_slash(p) + 1)
}

/// A path whose components are separated by `/` only and whose last
/// component is a plain file name: no `\` or `:` anywhere and no leading
/// `//`, so that on any platform it has no prefix and its file name is the
/// text after the last `/`.
pub open spec fn is_simple_path(p: Seq<char>) -> bool {
    &&& is_plain_file_name(name_part(p))
    &&& forall|i: int| 0 <= i < p.len() ==> p[i] != '\\' && p[i] != ':'
    &&& !(p.len() >= 2 && p[0] == '/' && p[1] == '/')
}

/// `std::path::PathBuf::set_extension` on a path given as text, and the
/// path's display text. For a simple path, std documents the result: the
/// path up to the end of its file stem, then `.` and the extension when the
/// extension is not empty. For other paths (with `\` separators, a prefix,
/// or a last component that is no plain file name) what the file name is
/// depends on the platform, and nothing is stated.
#[verifier::external_body]
fn path_with_extension(path: &str, extension: &str) -> (r: String)
    requires
        forall|i: int| 0 <= i < extension@.len() ==> extension@[i] != '/' && extension@[i] != '\\',
    ensures
        is_simple_path(path@) ==> r@ == dir_part(path@) + file_stem(name_part(path@)) + if extension@.len() > 0 {
            "."@ + extension@
        } else {
            seq![]
        },
{
    let mut out = std::path::PathBuf::from(path);
    out.set_extension(extension);
    out.display().to_string()
}

/// The default output path of a compilation: `x.ink` becomes
/// `x.ink.json`; any other path gets the extension `ink.json`.
pub fn default_output_path(input_path: &str) -> (r: String)
    ensures
        ends_with(input_path@, ".ink"@) ==> r@ == input_path@.take(
            input_path@.len() - ".ink"@.len(),
        ) + ".ink.json"@,
        !ends_with(input_path@, ".ink"@) && is_simple_path(input_path@) ==> r@ == dir_part(
            input_path@,
        ) + file_stem(name_part(input_path@)) + ".ink.json"@,
{
    let n = input_path.unicode_len();
    let m = ".ink".unicode_len();
    if m <= n {
        let tail = input_path.substring_char(n - m, n);
        if str_eq(tail, ".ink") {
            let stem = input_path.substring_char(0, n - m);
            let mut out = String::from_str(stem);
            out.append(".ink.json");
            return out;
        }
    }
    proof {
        reveal_strlit("ink.json");
        reveal_strlit(".ink.json");
        reveal_strlit(".");
        assert("."@ + "ink.json"@ =~= ".ink.json"@);
    }
    path_with_extension(input_path, "ink.json")
}

} // verus!
