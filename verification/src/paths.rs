//! File-system paths held as text: file names, parents, extensions and joining.

use vstd::prelude::*;
use vstd::utf8::{valid_utf8, decode_utf8};

verus! {

/// The view of an optional string.
pub open spec fn opt_view(o: Option<String>) -> Option<Seq<char>> {
    match o {
        Some(s) => Some(s@),
        None => None,
    }
}

/// The final component of `path`, as `Path::file_name` computes it.
pub uninterp spec fn spec_path_file_name(path: Seq<char>) -> Option<Seq<char>>;

/// The path without its final component, as `Path::parent` computes it.
pub uninterp spec fn spec_path_parent(path: Seq<char>) -> Option<Seq<char>>;

/// The text that `String::from_utf8_lossy` makes of `bytes`.
pub uninterp spec fn spec_utf8_lossy(bytes: Seq<u8>) -> Seq<char>;

/// Index of the last `'.'` in `s`, or -1.
pub open spec fn last_dot(s: Seq<char>) -> int
    decreases s.len(),
{
    if s.len() == 0 {
        -1
    } else if s.last() == '.' {
        s.len() - 1
    } else {
        last_dot(s.drop_last())
    }
}

/// The extension of a file name, as `Path::extension` documents it: none when
/// there is no `'.'` or the only `'.'` starts the name; otherwise what follows the last `'.'`.
pub open spec fn extension_of_name(name: Seq<char>) -> Option<Seq<char>> {
    let k = last_dot(name);
    if k <= 0 { None } else { Some(name.skip(k + 1)) }
}

/// The extension of `path` per `Path::extension`.
pub open spec fn path_extension_spec(path: Seq<char>) -> Option<Seq<char>> {
    match spec_path_file_name(path) {
        Some(name) => extension_of_name(name),
        None => None,
    }
}

/// Calls `Path::file_name` on `path`. Claimed: the result is a function of
/// `path` alone (named `spec_path_file_name`); the component is valid UTF-8
/// because `path` is, so its conversion to `String` loses nothing.
#[verifier::external_body]
pub(crate) fn path_file_name(path: &str) -> (r: Option<String>)
    ensures
        opt_view(r) == spec_path_file_name(path@),
{
    std::path::Path::new(path).file_name().map(|n| n.to_string_lossy().into_owned())
}

/// Calls `Path::parent` on `path`. Claimed: the result is a function of `path`
/// alone (named `spec_path_parent`), and, as documented, the empty path has no parent.
#[verifier::external_body]
pub(crate) fn path_parent(path: &str) -> (r: Option<String>)
    ensures
        opt_view(r) == spec_path_parent(path@),
        path@.len() == 0 ==> r is None,
{
    std::path::Path::new(path).parent().map(|p| p.to_string_lossy().into_owned())
}

/// The extension of a file name (see `extension_of_name`).
fn name_extension(name: &str) -> (r: Option<String>)
    ensures
        opt_view(r) == extension_of_name(name@),
{
    let n = name.unicode_len();
    let mut k = n;
    assert(name@.take(n as int) =~= name@);
    while k > 0 && name.get_char(k - 1) != '.'
        invariant
            n == name@.len(),
            k <= n,
            last_dot(name@) == last_dot(name@.take(k as int)),
        decreases k,
    {
        assert(name@.take(k as int).drop_last() =~= name@.take(k - 1));
        k = k - 1;
    }
    proof {
        if k > 0 {
            assert(name@.take(k as int).last() == name@[k - 1]);
        } else {
            assert(name@.take(0) =~= Seq::<char>::empty());
        }
    }
    if k <= 1 {
        None
    } else {
        let ext = name.substring_char(k, n);
        assert(ext@ =~= name@.skip(k as int));
        Some(String::from_str(ext))
    }
}

/// The extension of `path`, as `Path::extension` documents it: taken from the
/// file name (`Path::file_name`) as `extension_of_name` states.
pub(crate) fn path_extension(path: &str) -> (r: Option<String>)
    ensures
        opt_view(r) == path_extension_spec(path@),
{
    match path_file_name(path) {
        Some(name) => name_extension(name.as_str()),
        None => None,
    }
}

/// Calls `String::from_utf8_lossy`. Claimed: the result is a function of the
/// bytes (named `spec_utf8_lossy`) and, as documented, valid UTF-8 is decoded unchanged.
#[verifier::external_body]
fn utf8_lossy(bytes: &[u8]) -> (s: String)
    ensures
        s@ == spec_utf8_lossy(bytes@),
        valid_utf8(bytes@) ==> s@ == decode_utf8(bytes@),
{
    String::from_utf8_lossy(bytes).into_owned()
}

/// The text of a path given by its raw bytes, invalid sequences replaced by U+FFFD.
pub fn path_to_string(path: &[u8]) -> (s: String)
    ensures
        s@ == spec_utf8_lossy(path@),
        valid_utf8(path@) ==> s@ == decode_utf8(path@),
{
    utf8_lossy(path)
}

/// ASCII lowercase of one character (other characters unchanged).
pub open spec fn ascii_lower(c: char) -> int {
    if 'A' <= c && c <= 'Z' { (c as u32) + 32 } else { c as int }
}

/// `a` and `b` are equal up to ASCII case, as `str::eq_ignore_ascii_case` states.
pub open spec fn eq_ignore_ascii_case(a: Seq<char>, b: Seq<char>) -> bool {
    a.len() == b.len() && forall|i: int| 0 <= i < a.len() ==> ascii_lower(#[trigger] a[i]) == ascii_lower(b[i])
}

fn ascii_lower_exec(c: char) -> (r: u32)
    ensures
        r as int == ascii_lower(c),
{
    if 'A' <= c && c <= 'Z' { (c as u32) + 32 } else { c as u32 }
}

/// Whether `a` and `b` are equal up to ASCII case.
pub fn str_eq_ignore_ascii_case(a: &str, b: &str) -> (r: bool)
    ensures
        r == eq_ignore_ascii_case(a@, b@),
{
    let la = a.unicode_len();
    let lb = b.unicode_len();
    if la != lb {
        return false;
    }
    let mut i: usize = 0;
    while i < la
        invariant
            la == a@.len(),
            lb == b@.len(),
            la == lb,
            i <= la,
            forall|k: int| 0 <= k < i ==> ascii_lower(#[trigger] a@[k]) == ascii_lower(b@[k]),
        decreases la - i,
    {
        if ascii_lower_exec(a.get_char(i)) != ascii_lower_exec(b.get_char(i)) {
            return false;
        }
        i = i + 1;
    }
    true
}

/// `path` names a `.sor` file: its extension is "sor" in any ASCII case.
pub open spec fn is_sor_path(path: Seq<char>) -> bool {
    match path_extension_spec(path) {
        Some(ext) => eq_ignore_ascii_case(ext, seq!['s', 'o', 'r']),
        None => false,
    }
}

/// Whether `path` has the extension `sor`, in any ASCII case.
pub fn is_sor_file(path: &str) -> (r: bool)
    ensures
        r == is_sor_path(path@),
{
    proof {
        reveal_strlit("sor");
    }
    match path_extension(path) {
        Some(ext) => str_eq_ignore_ascii_case(ext.as_str(), "sor"),
        None => false,
    }
}

/// `s` ends with the character `c`.
pub open spec fn ends_with_char(s: Seq<char>, c: char) -> bool {
    s.len() > 0 && s.last() == c
}

/// `s` contains the character `c`.
pub open spec fn has_char(s: Seq<char>, c: char) -> bool {
    exists|i: int| 0 <= i < s.len() && s[i] == c
}

/// `name` placed in folder `dir`: directly after a trailing separator,
/// after `\` when `dir` holds a `\`, otherwise after `/`.
pub open spec fn joined_path(dir: Seq<char>, name: Seq<char>) -> Seq<char> {
    if ends_with_char(dir, '/') || ends_with_char(dir, '\\') {
        dir + name
    } else if has_char(dir, '\\') {
        dir + seq!['\\'] + name
    } else {
        dir + seq!['/'] + name
    }
}

fn contains_char(s: &str, c: char) -> (r: bool)
    ensures
        r == has_char(s@, c),
{
    let n = s.unicode_len();
    let mut i: usize = 0;
    while i < n
        invariant
            n == s@.len(),
            i <= n,
            forall|k: int| 0 <= k < i ==> s@[k] != c,
        decreases n - i,
    {
        if s.get_char(i) == c {
            return true;
        }
        i = i + 1;
    }
    false
}

/// Joins a folder path and a file name.
pub fn join_path(dir: &str, name: &str) -> (r: String)
    ensures
        r@ == joined_path(dir@, name@),
{
    proof {
        reveal_strlit("\\");
        reveal_strlit("/");
    }
    let n = dir.unicode_len();
    let last_is_sep = n > 0 && (dir.get_char(n - 1) == '/' || dir.get_char(n - 1) == '\\');
    let mut r = String::from_str(dir);
    if last_is_sep {
        r.append(name);
    } else if contains_char(dir, '\\') {
        r.append("\\");
        r.append(name);
    } else {
        r.append("/");
        r.append(name);
    }
    r
}

/// Position after the last `/` or `\` in `s` (0 when there is none).
pub open spec fn last_segment_start(s: Seq<char>) -> int
    decreases s.len(),
{
    if s.len() == 0 {
        0
    } else if s.last() == '/' || s.last() == '\\' {
        s.len() as int
    } else {
        last_segment_start(s.drop_last())
    }
}

/// The part of `s` after its last `/` or `\`.
pub open spec fn last_segment(s: Seq<char>) -> Seq<char> {
    s.skip(last_segment_start(s))
}

fn last_segment_exec(s: &str) -> (r: &str)
    ensures
        r@ == last_segment(s@),
{
    let n = s.unicode_len();
    let mut k = n;
    assert(s@.take(n as int) =~= s@);
    while k > 0 && s.get_char(k - 1) != '/' && s.get_char(k - 1) != '\\'
        invariant
            n == s@.len(),
            k <= n,
            last_segment_start(s@) == last_segment_start(s@.take(k as int)),
        decreases k,
    {
        assert(s@.take(k as int).drop_last() =~= s@.take(k - 1));
        k = k - 1;
    }
    proof {
        if k > 0 {
            assert(s@.take(k as int).last() == s@[k - 1]);
        } else {
            assert(s@.take(0) =~= Seq::<char>::empty());
        }
        assert(s@.subrange(k as int, n as int) =~= s@.skip(k as int));
    }
    s.substring_char(k, n)
}

/// The path to open for the typed file name: the selected entry's path when
/// its last component is exactly `filename`, otherwise `filename` inside `current_path`.
pub open spec fn open_path(current_path: Seq<char>, filename: Seq<char>, selected: Option<Seq<char>>) -> Seq<char> {
    match selected {
        Some(p) if last_segment(p) == filename => p,
        _ => joined_path(current_path, filename),
    }
}

/// Chooses the path that the open dialog opens.
pub fn resolve_open_path(current_path: &str, filename: &str, selected_path: Option<String>) -> (r: String)
    ensures
        r@ == open_path(current_path@, filename@, opt_view(selected_path)),
{
    match selected_path {
        Some(p) => {
            let seg = last_segment_exec(p.as_str());
            let seg_owned = String::from_str(seg);
            let name_owned = String::from_str(filename);
            if seg_owned == name_owned {
                p
            } else {
                join_path(current_path, filename)
            }
        },
        None => join_path(current_path, filename),
    }
}

} // verus!
