//! The file layout of CodeHarbor (`~/.codeharbor/...`), Unix path
//! arithmetic, and the checks that keep user-given names and paths inside
//! the places they are meant for.
use vstd::prelude::*;

use crate::text::{
    ascii_lower_char, ascii_lower_seq, chars_of, copy_str, has_double_dot,
    is_ascii_alnum, is_ascii_alnum_char, range_equals, string_of,
};

verus! {

/// `Path::join` on Unix: an absolute `part` replaces `base`; otherwise
/// `part` is appended after a separator, which is added unless `base` is
/// empty or already ends with one.
pub open spec fn path_join(base: Seq<char>, part: Seq<char>) -> Seq<char> {
    if part.len() > 0 && part[0] == '/' {
        part
    } else if base.len() == 0 || base.last() == '/' {
        base + part
    } else {
        base + seq!['/'] + part
    }
}

/// `~/.codeharbor` for the home directory `home`.
pub open spec fn codeharbor_home_path(home: Seq<char>) -> Seq<char> {
    path_join(home, ".codeharbor"@)
}

/// Where the generated environments live.
pub open spec fn environments_path(home: Seq<char>) -> Seq<char> {
    path_join(codeharbor_home_path(home), "environments"@)
}

/// Where cloned Git projects live.
pub open spec fn projects_path(home: Seq<char>) -> Seq<char> {
    path_join(codeharbor_home_path(home), "projects"@)
}

/// The generated directory of one environment.
pub open spec fn environment_path(home: Seq<char>, id: Seq<char>) -> Seq<char> {
    path_join(environments_path(home), id)
}

/// The `config.json` of one environment.
pub open spec fn environment_config_file(home: Seq<char>, id: Seq<char>) -> Seq<char> {
    path_join(environment_path(home, id), "config.json"@)
}

/// The evaluation history directory of one environment.
pub open spec fn history_path(home: Seq<char>, id: Seq<char>) -> Seq<char> {
    path_join(environment_path(home, id), "history"@)
}

/// The report directory of one environment.
pub open spec fn reports_path(home: Seq<char>, id: Seq<char>) -> Seq<char> {
    path_join(environment_path(home, id), "reports"@)
}

/// The error given when the home directory is unknown.
pub open spec fn missing_home_error() -> Seq<char> {
    "Variable HOME introuvable"@
}

/// A directory under the home directory, or the missing-home error.
pub open spec fn under_home(home: Option<&str>, path: spec_fn(Seq<char>) -> Seq<char>) -> Result<
    Seq<char>,
    Seq<char>,
> {
    match home {
        Some(h) => Ok(path(h@)),
        None => Err(missing_home_error()),
    }
}

/// The view of a `Result` of strings.
pub open spec fn result_view(r: Result<String, String>) -> Result<Seq<char>, Seq<char>> {
    match r {
        Ok(s) => Ok(s@),
        Err(e) => Err(e@),
    }
}

/// Joins two paths as `Path::join` does on Unix.
pub fn path_join_str(base: &str, part: &str) -> (r: String)
    ensures
        r@ == path_join(base@, part@),
{
    let b = chars_of(base);
    let p = chars_of(part);
    if p.len() > 0 && p[0] == '/' {
        return copy_str(part);
    }
    let mut s = copy_str(base);
    if !(b.len() == 0 || b[b.len() - 1] == '/') {
        s.append("/");
        proof {
            reveal_strlit("/");
        }
    }
    s.append(part);
    s
}

fn missing_home() -> (r: String)
    ensures
        r@ == missing_home_error(),
{
    copy_str("Variable HOME introuvable")
}

/// The directory of generated environments, under the given home directory
/// (the value of `HOME`, if it is set).
pub fn environments_dir(home: Option<&str>) -> (r: Result<String, String>)
    ensures
        result_view(r) == under_home(home, |h: Seq<char>| environments_path(h)),
{
    match home {
        Some(h) => {
            let base = path_join_str(h, ".codeharbor");
            Ok(path_join_str(base.as_str(), "environments"))
        },
        None => Err(missing_home()),
    }
}

/// The directory of cloned projects, under the given home directory.
pub fn projects_dir(home: Option<&str>) -> (r: Result<String, String>)
    ensures
        result_view(r) == under_home(home, |h: Seq<char>| projects_path(h)),
{
    match home {
        Some(h) => {
            let base = path_join_str(h, ".codeharbor");
            Ok(path_join_str(base.as_str(), "projects"))
        },
        None => Err(missing_home()),
    }
}

/// The generated directory of an environment.
pub fn environment_dir(home: Option<&str>, environment_id: &str) -> (r: Result<String, String>)
    ensures
        result_view(r) == under_home(home, |h: Seq<char>| environment_path(h, environment_id@)),
{
    match environments_dir(home) {
        Ok(dir) => Ok(path_join_str(dir.as_str(), environment_id)),
        Err(e) => Err(e),
    }
}

/// The `config.json` file of an environment.
pub fn environment_config_path(home: Option<&str>, environment_id: &str) -> (r: Result<
    String,
    String,
>)
    ensures
        result_view(r) == under_home(
            home,
            |h: Seq<char>| environment_config_file(h, environment_id@),
        ),
{
    match environment_dir(home, environment_id) {
        Ok(dir) => Ok(path_join_str(dir.as_str(), "config.json")),
        Err(e) => Err(e),
    }
}

/// The evaluation history directory of an environment.
pub fn history_dir(home: Option<&str>, environment_id: &str) -> (r: Result<String, String>)
    ensures
        result_view(r) == under_home(home, |h: Seq<char>| history_path(h, environment_id@)),
{
    match environment_dir(home, environment_id) {
        Ok(dir) => Ok(path_join_str(dir.as_str(), "history")),
        Err(e) => Err(e),
    }
}

/// The report directory of an environment.
pub fn reports_dir(home: Option<&str>, environment_id: &str) -> (r: Result<String, String>)
    ensures
        result_view(r) == under_home(home, |h: Seq<char>| reports_path(h, environment_id@)),
{
    match environment_dir(home, environment_id) {
        Ok(dir) => Ok(path_join_str(dir.as_str(), "reports")),
        Err(e) => Err(e),
    }
}

/// The index of the last `'.'` of `name`, or -1 when it has none.
pub open spec fn last_dot(name: Seq<char>) -> int
    decreases name.len(),
{
    if name.len() == 0 {
        -1
    } else if name.last() == '.' {
        name.len() - 1
    } else {
        last_dot(name.drop_last())
    }
}

/// The extension of a file name, as `Path::extension` gives it: the text
/// after the last dot, unless there is no dot or the only dot leads.
pub open spec fn name_extension(name: Seq<char>) -> Option<Seq<char>> {
    if last_dot(name) <= 0 {
        None
    } else {
        Some(name.subrange(last_dot(name) + 1, name.len() as int))
    }
}

/// The characters after the last `'/'` of `p`.
pub open spec fn after_last_slash(p: Seq<char>) -> Seq<char>
    decreases p.len(),
{
    if p.len() == 0 {
        p
    } else if p.last() == '/' {
        Seq::empty()
    } else {
        after_last_slash(p.drop_last()).push(p.last())
    }
}

/// The final component of a Unix path, as `Path::file_name` gives it:
/// trailing separators and `.` components are skipped, and there is none
/// for an empty path, the root, `.` or a final `..`.
pub open spec fn path_file_name(p: Seq<char>) -> Option<Seq<char>>
    decreases p.len(),
{
    if p.len() == 0 {
        None
    } else if p.last() == '/' {
        path_file_name(p.drop_last())
    } else if after_last_slash(p) == seq!['.'] {
        if p.len() == 1 {
            None
        } else {
            path_file_name(p.drop_last())
        }
    } else if after_last_slash(p) == seq!['.', '.'] {
        None
    } else {
        Some(after_last_slash(p))
    }
}

/// The extension of a Unix path (`Path::extension`).
pub open spec fn path_extension(p: Seq<char>) -> Option<Seq<char>> {
    match path_file_name(p) {
        Some(name) => name_extension(name),
        None => None,
    }
}

proof fn lemma_after_last_slash(p: Seq<char>, start: int, end: int)
    requires
        0 <= start <= end <= p.len(),
        forall|k: int| start <= k < end ==> p[k] != '/',
        start == 0 || p[start - 1] == '/',
    ensures
        after_last_slash(p.take(end)) == p.subrange(start, end),
    decreases end - start,
{
    if end > start {
        lemma_after_last_slash(p, start, end - 1);
        assert(p.take(end).drop_last() =~= p.take(end - 1));
        assert(p.subrange(start, end) =~= p.subrange(start, end - 1).push(p[end - 1]));
    } else if start == 0 {
        assert(p.take(end) =~= Seq::<char>::empty());
        assert(p.subrange(start, end) =~= Seq::<char>::empty());
    } else {
        assert(p.take(end).last() == '/');
        assert(p.subrange(start, end) =~= Seq::<char>::empty());
    }
}

/// Bounds of the file name of the path `v`, if it has one.
fn file_name_bounds(v: &Vec<char>) -> (r: Option<(usize, usize)>)
    ensures
        match r {
            None => path_file_name(v@) is None,
            Some((a, b)) => a <= b <= v.len() && path_file_name(v@) == Some(
                v@.subrange(a as int, b as int),
            ),
        },
{
    let mut end = v.len();
    assert(v@.take(end as int) =~= v@);
    loop
        invariant
            end <= v.len(),
            path_file_name(v@) == path_file_name(v@.take(end as int)),
        decreases end,
    {
        if end == 0 {
            return None;
        }
        let ghost p = v@.take(end as int);
        if v[end - 1] == '/' {
            assert(p.drop_last() =~= v@.take(end - 1));
            end = end - 1;
        } else {
            let mut start = end;
            while start > 0 && v[start - 1] != '/'
                invariant
                    start <= end <= v.len(),
                    forall|k: int| start <= k < end ==> v@[k] != '/',
                decreases start,
            {
                start = start - 1;
            }
            proof {
                lemma_after_last_slash(v@, start as int, end as int);
            }
            let ghost seg = v@.subrange(start as int, end as int);
            if end - start == 1 && v[start] == '.' {
                assert(seg =~= seq!['.']);
                if end == 1 {
                    return None;
                }
                assert(p.drop_last() =~= v@.take(end - 1));
                end = end - 1;
            } else if end - start == 2 && v[start] == '.' && v[start + 1] == '.' {
                assert(seg =~= seq!['.', '.']);
                return None;
            } else {
                assert(seg != seq!['.']) by {
                    if seg.len() == 1 {
                        assert(seg[0] == v@[start as int]);
                    }
                }
                assert(seg != seq!['.', '.']) by {
                    if seg.len() == 2 {
                        assert(seg[0] == v@[start as int]);
                        assert(seg[1] == v@[start + 1]);
                    }
                }
                return Some((start, end));
            }
        }
    }
}

/// Index of the last dot of characters `a..b` of `v`, relative to `a`, or
/// -1 when there is none.
fn last_dot_in(v: &Vec<char>, a: usize, b: usize) -> (r: Option<usize>)
    requires
        a <= b <= v.len(),
    ensures
        match r {
            None => last_dot(v@.subrange(a as int, b as int)) == -1,
            Some(d) => d == last_dot(v@.subrange(a as int, b as int)) && a + d < b,
        },
{
    let mut end = b;
    loop
        invariant
            a <= end <= b <= v.len(),
            last_dot(v@.subrange(a as int, b as int)) == last_dot(
                v@.subrange(a as int, end as int),
            ),
        decreases end,
    {
        let ghost n = v@.subrange(a as int, end as int);
        if end == a {
            return None;
        }
        if v[end - 1] == '.' {
            return Some(end - 1 - a);
        }
        assert(n.drop_last() =~= v@.subrange(a as int, end - 1));
        end = end - 1;
    }
}

/// The file name and extension of a path, as bounds into `v`.
fn name_and_extension(v: &Vec<char>) -> (r: (Option<(usize, usize)>, Option<(usize, usize)>))
    ensures
        match r.0 {
            None => path_file_name(v@) is None,
            Some((a, b)) => a <= b <= v.len() && path_file_name(v@) == Some(
                v@.subrange(a as int, b as int),
            ),
        },
        match r.1 {
            None => path_extension(v@) is None,
            Some((a, b)) => a <= b <= v.len() && path_extension(v@) == Some(
                v@.subrange(a as int, b as int),
            ),
        },
{
    match file_name_bounds(v) {
        None => (None, None),
        Some((a, b)) => {
            let d = match last_dot_in(v, a, b) {
                None => 0,
                Some(d) => d,
            };
            if d == 0 {
                (Some((a, b)), None)
            } else {
                let ghost name = v@.subrange(a as int, b as int);
                let start = a + d + 1;
                assert(name.subrange(d + 1, name.len() as int) =~= v@.subrange(
                    start as int,
                    b as int,
                ));
                (Some((a, b)), Some((start, b)))
            }
        },
    }
}

/// The file name of a path, if it has one.
pub fn file_name(path: &str) -> (r: Option<String>)
    ensures
        match r {
            None => path_file_name(path@) is None,
            Some(n) => path_file_name(path@) == Some(n@),
        },
{
    let v = chars_of(path);
    match file_name_bounds(&v) {
        None => None,
        Some((a, b)) => Some(string_of(&v, a, b)),
    }
}

/// The extension of a path, if it has one.
pub fn extension(path: &str) -> (r: Option<String>)
    ensures
        match r {
            None => path_extension(path@) is None,
            Some(e) => path_extension(path@) == Some(e@),
        },
{
    let v = chars_of(path);
    match name_and_extension(&v).1 {
        None => None,
        Some((a, b)) => Some(string_of(&v, a, b)),
    }
}

/// Whether the ASCII-lowercased characters `a..b` of `v` spell `lit`.
fn lower_range_equals(v: &Vec<char>, a: usize, b: usize, lit: &str) -> (r: bool)
    requires
        a <= b <= v.len(),
    ensures
        r == (ascii_lower_seq(v@.subrange(a as int, b as int)) == lit@),
{
    let mut w: Vec<char> = Vec::new();
    let mut i = a;
    while i < b
        invariant
            a <= i <= b <= v.len(),
            w@ == ascii_lower_seq(v@.subrange(a as int, i as int)),
        decreases b - i,
    {
        w.push(ascii_lower_char(v[i]));
        i = i + 1;
        assert(w@ =~= ascii_lower_seq(v@.subrange(a as int, i as int)));
    }
    assert(w@.subrange(0, w@.len() as int) =~= w@);
    range_equals(&w, 0, w.len(), lit)
}

/// File names that are never taken for executables.
pub open spec fn is_non_executable_name(lower: Seq<char>) -> bool {
    ||| lower == "makefile"@
    ||| lower == "readme"@
    ||| lower == "readme.md"@
    ||| lower == "dockerfile"@
}

/// Extensions of sources, objects, libraries, data and media files.
pub open spec fn is_non_executable_extension(lower: Seq<char>) -> bool {
    ||| lower == "a"@
    ||| lower == "c"@
    ||| lower == "cc"@
    ||| lower == "cpp"@
    ||| lower == "cxx"@
    ||| lower == "gcda"@
    ||| lower == "gcno"@
    ||| lower == "gcov"@
    ||| lower == "h"@
    ||| lower == "hpp"@
    ||| lower == "jpeg"@
    ||| lower == "jpg"@
    ||| lower == "js"@
    ||| lower == "json"@
    ||| lower == "log"@
    ||| lower == "md"@
    ||| lower == "o"@
    ||| lower == "ogg"@
    ||| lower == "png"@
    ||| lower == "py"@
    ||| lower == "rs"@
    ||| lower == "so"@
    ||| lower == "toml"@
    ||| lower == "ttf"@
    ||| lower == "ts"@
    ||| lower == "txt"@
    ||| lower == "wav"@
    ||| lower == "yaml"@
    ||| lower == "yml"@
}

/// Whether a path may name an executable program: its file name is not a
/// Makefile, README or Dockerfile, and it has no extension or one that is
/// not a known source, object, data or media extension (compared without
/// ASCII case).
pub open spec fn plausible_executable(path: Seq<char>) -> bool {
    let name = match path_file_name(path) {
        Some(n) => n,
        None => Seq::empty(),
    };
    if is_non_executable_name(ascii_lower_seq(name)) {
        false
    } else {
        match path_extension(path) {
            None => true,
            Some(e) => !is_non_executable_extension(ascii_lower_seq(e)),
        }
    }
}

fn names_non_executable(v: &Vec<char>, a: usize, b: usize) -> (r: bool)
    requires
        a <= b <= v.len(),
    ensures
        r == is_non_executable_name(ascii_lower_seq(v@.subrange(a as int, b as int))),
{
    lower_range_equals(v, a, b, "makefile") || lower_range_equals(v, a, b, "readme")
        || lower_range_equals(v, a, b, "readme.md") || lower_range_equals(v, a, b, "dockerfile")
}

fn extension_non_executable(v: &Vec<char>, a: usize, b: usize) -> (r: bool)
    requires
        a <= b <= v.len(),
    ensures
        r == is_non_executable_extension(ascii_lower_seq(v@.subrange(a as int, b as int))),
{
    lower_range_equals(v, a, b, "a") || lower_range_equals(v, a, b, "c") || lower_range_equals(
        v,
        a,
        b,
        "cc",
    ) || lower_range_equals(v, a, b, "cpp") || lower_range_equals(v, a, b, "cxx")
        || lower_range_equals(v, a, b, "gcda") || lower_range_equals(v, a, b, "gcno")
        || lower_range_equals(v, a, b, "gcov") || lower_range_equals(v, a, b, "h")
        || lower_range_equals(v, a, b, "hpp") || lower_range_equals(v, a, b, "jpeg")
        || lower_range_equals(v, a, b, "jpg") || lower_range_equals(v, a, b, "js")
        || lower_range_equals(v, a, b, "json") || lower_range_equals(v, a, b, "log")
        || lower_range_equals(v, a, b, "md") || lower_range_equals(v, a, b, "o")
        || lower_range_equals(v, a, b, "ogg") || lower_range_equals(v, a, b, "png")
        || lower_range_equals(v, a, b, "py") || lower_range_equals(v, a, b, "rs")
        || lower_range_equals(v, a, b, "so") || lower_range_equals(v, a, b, "toml")
        || lower_range_equals(v, a, b, "ttf") || lower_range_equals(v, a, b, "ts")
        || lower_range_equals(v, a, b, "txt") || lower_range_equals(v, a, b, "wav")
        || lower_range_equals(v, a, b, "yaml") || lower_range_equals(v, a, b, "yml")
}

/// Whether a file path may be an executable program (before its
/// permissions are looked at).
pub fn is_plausible_executable_path(path: &str) -> (r: bool)
    ensures
        r == plausible_executable(path@),
{
    let v = chars_of(path);
    let (name, ext) = name_and_extension(&v);
    let name_blocked = match name {
        Some((a, b)) => names_non_executable(&v, a, b),
        None => {
            assert(v@.subrange(0, 0) =~= Seq::<char>::empty());
            names_non_executable(&v, 0, 0)
        },
    };
    if name_blocked {
        return false;
    }
    match ext {
        None => true,
        Some((a, b)) => !extension_non_executable(&v, a, b),
    }
}

/// Characters allowed in a path relative to `/workspace`.
pub open spec fn is_workspace_path_char(c: char) -> bool {
    is_ascii_alnum(c) || c == '/' || c == '.' || c == '_' || c == '-'
}

/// A path that stays inside `/workspace`: it is not empty, is relative,
/// contains no `..` anywhere and uses only ASCII letters, digits and `/._-`.
pub open spec fn valid_workspace_relative_path(p: Seq<char>) -> bool {
    &&& forall|i: int| 0 <= i < p.len() ==> is_workspace_path_char(#[trigger] p[i])
    &&& p.len() > 0
    &&& p[0] != '/'
    &&& !has_double_dot(p)
}

/// The error given for a rejected path.
pub open spec fn invalid_binary_path_error() -> Seq<char> {
    "Chemin de binaire invalide"@
}

/// Checks that a path chosen for Valgrind stays inside `/workspace` and is
/// safe to put in a shell command. Every non-empty relative path of ASCII
/// letters, digits, `/`, `.`, `_` and `-` without `..` is accepted.
pub fn validate_workspace_relative_path(path: &str) -> (r: Result<(), String>)
    ensures
        r is Ok <==> valid_workspace_relative_path(path@),
        r matches Err(e) ==> e@ == invalid_binary_path_error(),
        r is Ok ==> ({
            let p = path@;
            &&& p.len() > 0
            &&& p[0] != '/'
            &&& !has_double_dot(p)
            &&& forall|i: int|
                0 <= i < p.len() ==> {
                    let u = #[trigger] p[i] as u32;
                    ||| 0x61 <= u && u <= 0x7a
                    ||| 0x41 <= u && u <= 0x5a
                    ||| 0x30 <= u && u <= 0x39
                    ||| p[i] == '/'
                    ||| p[i] == '.'
                    ||| p[i] == '_'
                    ||| p[i] == '-'
                }
        }),
        ({
            let p = path@;
            &&& p.len() > 0
            &&& p[0] != '/'
            &&& !has_double_dot(p)
            &&& forall|i: int|
                0 <= i < p.len() ==> {
                    let u = #[trigger] p[i] as u32;
                    ||| 0x61 <= u && u <= 0x7a
                    ||| 0x41 <= u && u <= 0x5a
                    ||| 0x30 <= u && u <= 0x39
                    ||| p[i] == '/'
                    ||| p[i] == '.'
                    ||| p[i] == '_'
                    ||| p[i] == '-'
                }
        }) ==> r is Ok,
{
    let v = chars_of(path);
    let n = v.len();
    let mut i: usize = 0;
    while i < n
        invariant
            i <= n == v.len(),
            v@ == path@,
            forall|k: int| 0 <= k < i ==> is_workspace_path_char(#[trigger] v@[k]),
        decreases n - i,
    {
        let c = v[i];
        if !(is_ascii_alnum_char(c) || c == '/' || c == '.' || c == '_' || c == '-') {
            return Err(copy_str("Chemin de binaire invalide"));
        }
        i = i + 1;
    }
    if n == 0 || v[0] == '/' {
        return Err(copy_str("Chemin de binaire invalide"));
    }
    let mut k: usize = 0;
    while k + 1 < n
        invariant
            k < n == v.len(),
            v@ == path@,
            forall|j: int| 0 <= j < k && j + 1 < n ==> !(#[trigger] v@[j] == '.' && v@[j + 1] == '.'),
        decreases n - k,
    {
        if v[k] == '.' && v[k + 1] == '.' {
            return Err(copy_str("Chemin de binaire invalide"));
        }
        k = k + 1;
    }
    Ok(())
}

/// A report file name that is a single plain component ending in `.md`:
/// not empty, no `/` or `\`, no `..`, and with a stem before `.md`.
pub open spec fn valid_report_name(name: Seq<char>) -> bool {
    &&& structurally_valid_report_name(name)
    &&& name_extension(name) == Some("md"@)
}

/// A report name that is one plain path component.
pub open spec fn structurally_valid_report_name(name: Seq<char>) -> bool {
    &&& name.len() > 0
    &&& !has_double_dot(name)
    &&& forall|i: int| 0 <= i < name.len() ==> #[trigger] name[i] != '/' && name[i] != '\\'
}

/// The error for a report name that is not one plain component.
pub open spec fn invalid_report_name_error() -> Seq<char> {
    "Nom de rapport invalide"@
}

/// The error for a report name that is not a Markdown file.
pub open spec fn non_markdown_report_error() -> Seq<char> {
    "Le rapport doit être un fichier Markdown .md"@
}

/// Checks that a report name is a plain Markdown file name, so that it
/// cannot point outside the report directory.
pub fn validate_report_name(report_name: &str) -> (r: Result<(), String>)
    ensures
        r is Ok <==> valid_report_name(report_name@),
        r matches Err(e) ==> (e@ == if structurally_valid_report_name(report_name@) {
            non_markdown_report_error()
        } else {
            invalid_report_name_error()
        }),
{
    let v = chars_of(report_name);
    let n = v.len();
    if n == 0 {
        return Err(copy_str("Nom de rapport invalide"));
    }
    let mut i: usize = 0;
    while i < n
        invariant
            i <= n == v.len(),
            v@ == report_name@,
            forall|k: int| 0 <= k < i ==> #[trigger] v@[k] != '/' && v@[k] != '\\',
            forall|k: int| 0 <= k && k + 1 < n && k < i ==> !(#[trigger] v@[k] == '.' && v@[k
                + 1] == '.'),
        decreases n - i,
    {
        if v[i] == '/' || v[i] == '\\' || (i + 1 < n && v[i] == '.' && v[i + 1] == '.') {
            return Err(copy_str("Nom de rapport invalide"));
        }
        i = i + 1;
    }
    assert(!has_double_dot(report_name@));
    assert(v@.subrange(0, n as int) =~= v@);
    let d = match last_dot_in(&v, 0, n) {
        None => 0,
        Some(d) => d,
    };
    if d == 0 {
        return Err(copy_str("Le rapport doit être un fichier Markdown .md"));
    }
    let start = d + 1;
    if range_equals(&v, start, n, "md") {
        Ok(())
    } else {
        Err(copy_str("Le rapport doit être un fichier Markdown .md"))
    }
}

/// The path of a report of an environment, once its name is checked.
pub fn report_path(home: Option<&str>, environment_id: &str, report_name: &str) -> (r: Result<
    String,
    String,
>)
    ensures
        r is Ok <==> valid_report_name(report_name@) && home is Some,
        r matches Ok(p) ==> p@ == path_join(
            reports_path(home->0@, environment_id@),
            report_name@,
        ),
        r matches Err(e) ==> (e@ == if !structurally_valid_report_name(report_name@) {
            invalid_report_name_error()
        } else if !valid_report_name(report_name@) {
            non_markdown_report_error()
        } else {
            missing_home_error()
        }),
{
    match validate_report_name(report_name) {
        Err(e) => Err(e),
        Ok(()) => match reports_dir(home, environment_id) {
            Ok(dir) => Ok(path_join_str(dir.as_str(), report_name)),
            Err(e) => Err(e),
        },
    }
}

proof fn lemma_join_child(base: Seq<char>, part: Seq<char>)
    requires
        part.len() > 0,
        part[0] != '/',
    ensures
        path_join(base, part).last() == part.last(),
        path_join(base, part).last() != '/' <== part.last() != '/',
{
    let j = path_join(base, part);
    if base.len() == 0 || base.last() == '/' {
        assert(j[j.len() - 1] == part[part.len() - 1]);
    } else {
        assert(j[j.len() - 1] == part[part.len() - 1]);
    }
}

/// The directory of an environment with a dashed-word identifier lies
/// directly inside the directory of environments: no identifier that the
/// library produces or accepts can point elsewhere.
pub proof fn lemma_environment_dir_is_child(home: Seq<char>, id: Seq<char>)
    requires
        crate::environment::is_dashed_word(id),
        id.len() > 0,
    ensures
        environment_path(home, id) == environments_path(home) + seq!['/'] + id,
{
    reveal_strlit("environments");
    lemma_join_child(codeharbor_home_path(home), "environments"@);
    assert(id[0] != '/') by {
        assert(is_ascii_alnum(id[0]) || id[0] == '-');
    }
}

/// A report with a valid name lies directly inside the report directory of
/// its environment.
pub proof fn lemma_report_path_is_child(home: Seq<char>, id: Seq<char>, name: Seq<char>)
    requires
        valid_report_name(name),
    ensures
        path_join(reports_path(home, id), name) == reports_path(home, id) + seq!['/'] + name,
        forall|i: int| 0 <= i < name.len() ==> name[i] != '/',
{
    reveal_strlit("reports");
    lemma_join_child(environment_path(home, id), "reports"@);
    assert(name[0] != '/');
}

/// The check `check` was asked about the path `path` and answered `answer`.
pub open spec fn answered<F: Fn(&str) -> bool>(check: F, path: Seq<char>, answer: bool) -> bool {
    exists|q: &str| q@ == path && #[trigger] check.ensures((q,), answer)
}

/// What `Path::strip_prefix` leaves of `path` when `base` is a prefix of
/// it, component by component.
pub uninterp spec fn path_strip_prefix(path: Seq<char>, base: Seq<char>) -> Option<Seq<char>>;

/// `Path::strip_prefix`, with the rest as a string.
#[verifier::external_body]
fn strip_path_prefix(path: &str, base: &str) -> (r: Option<String>)
    ensures
        match r {
            Some(rest) => path_strip_prefix(path@, base@) == Some(rest@),
            None => path_strip_prefix(path@, base@) is None,
        },
{
    std::path::Path::new(path).strip_prefix(base).ok().map(|rest| rest.to_string_lossy().into_owned())
}

/// `s` with every `\` replaced by `/`.
pub open spec fn forward_slashes(s: Seq<char>) -> Seq<char> {
    s.map_values(|c: char| if c == '\\' { '/' } else { c })
}

/// How a path under a project is shown: relative to the project root when
/// it lies under it, with `/` separators.
pub open spec fn display_path(root: Seq<char>, path: Seq<char>) -> Seq<char> {
    forward_slashes(
        match path_strip_prefix(path, root) {
            Some(rest) => rest,
            None => path,
        },
    )
}

/// The path of `path` relative to `root` (or `path` itself when it is not
/// under `root`), with `/` separators.
pub fn relative_display_path(root: &str, path: &str) -> (r: String)
    ensures
        r@ == display_path(root@, path@),
{
    let rel = match strip_path_prefix(path, root) {
        Some(rest) => rest,
        None => copy_str(path),
    };
    let v = chars_of(rel.as_str());
    let mut w: Vec<char> = Vec::new();
    let mut i: usize = 0;
    while i < v.len()
        invariant
            i <= v.len(),
            w@ == forward_slashes(v@.take(i as int)),
        decreases v.len() - i,
    {
        if v[i] == '\\' {
            w.push('/');
        } else {
            w.push(v[i]);
        }
        i = i + 1;
        assert(w@ =~= forward_slashes(v@.take(i as int)));
    }
    assert(v@.take(i as int) =~= v@);
    string_of(&w, 0, w.len())
}

/// The parent of a path, as `Path::parent` gives it.
pub uninterp spec fn path_parent(path: Seq<char>) -> Option<Seq<char>>;

/// `Path::parent`, as a string. The parent is the path without its final
/// component, a proper prefix of it, hence shorter.
#[verifier::external_body]
fn parent_path(path: &str) -> (r: Option<String>)
    ensures
        match r {
            Some(parent) => path_parent(path@) == Some(parent@) && parent@.len() < path@.len(),
            None => path_parent(path@) is None,
        },
{
    std::path::Path::new(path).parent().map(|parent| parent.to_string_lossy().into_owned())
}

/// The `k`-th ancestor of a path (`Path::ancestors`): the path itself, its
/// parent, and so on, until there is no parent.
pub open spec fn ancestor(path: Seq<char>, k: nat) -> Option<Seq<char>>
    decreases k,
{
    if k == 0 {
        Some(path)
    } else {
        match ancestor(path, (k - 1) as nat) {
            Some(p) => path_parent(p),
            None => None,
        }
    }
}

/// The error for a directory under which no repository root was found.
pub open spec fn unresolved_root_error(current_dir: Seq<char>) -> Seq<char> {
    "Impossible de résoudre la racine du projet depuis "@ + current_dir
}

/// The repository root from a working directory: its nearest ancestor
/// (itself included) for which `is_dir` says that the prototype directory
/// exists under it.
pub fn repo_root_from_current_dir(current_dir: &str, is_dir: impl Fn(&str) -> bool) -> (r: Result<
    String,
    String,
>)
    requires
        forall|p: &str| is_dir.requires((p,)),
    ensures
        r matches Ok(root) ==> exists|k: nat|
            {
                &&& ancestor(current_dir@, k) == Some(root@)
                &&& answered(is_dir, prototype_path(root@), true)
                &&& forall|j: nat|
                    j < k ==> (#[trigger] ancestor(current_dir@, j) matches Some(a) && answered(
                        is_dir,
                        prototype_path(a),
                        false,
                    ))
            },
        r matches Err(e) ==> {
            &&& e@ == unresolved_root_error(current_dir@)
            &&& exists|k: nat|
                {
                    &&& ancestor(current_dir@, k) is None
                    &&& forall|j: nat|
                        j < k ==> (#[trigger] ancestor(current_dir@, j) matches Some(a)
                            && answered(is_dir, prototype_path(a), false))
                }
        },
{
    let mut candidate = copy_str(current_dir);
    let ghost mut k: nat = 0;
    loop
        invariant
            forall|p: &str| is_dir.requires((p,)),
            ancestor(current_dir@, k) == Some(candidate@),
            forall|j: nat|
                j < k ==> (#[trigger] ancestor(current_dir@, j) matches Some(a) && answered(
                    is_dir,
                    prototype_path(a),
                    false,
                )),
        decreases candidate@.len(),
    {
        let base = path_join_str(candidate.as_str(), "prototype");
        let dir = path_join_str(base.as_str(), "docker-workspace");
        let q = dir.as_str();
        let found = is_dir(q);
        assert(answered(is_dir, prototype_path(candidate@), found)) by {
            assert(q@ == prototype_path(candidate@));
            assert(is_dir.ensures((q,), found));
        }
        if found {
            return Ok(candidate);
        }
        match parent_path(candidate.as_str()) {
            Some(parent) => {
                proof {
                    assert forall|j: nat| j < k + 1 implies (#[trigger] ancestor(
                        current_dir@,
                        j,
                    ) matches Some(a) && answered(is_dir, prototype_path(a), false)) by {
                        if j == k {
                            assert(ancestor(current_dir@, j) == Some(candidate@));
                        }
                    }
                    assert(ancestor(current_dir@, k + 1) == Some(parent@));
                    k = k + 1;
                }
                candidate = parent;
            },
            None => {
                proof {
                    assert forall|j: nat| j < k + 1 implies (#[trigger] ancestor(
                        current_dir@,
                        j,
                    ) matches Some(a) && answered(is_dir, prototype_path(a), false)) by {
                        if j == k {
                            assert(ancestor(current_dir@, j) == Some(candidate@));
                        }
                    }
                    assert(ancestor(current_dir@, k + 1) is None);
                }
                let mut e = copy_str("Impossible de résoudre la racine du projet depuis ");
                e.append(current_dir);
                return Err(e);
            },
        }
    }
}

/// Where the Docker workspace prototype lies under a repository root.
pub open spec fn prototype_path(root: Seq<char>) -> Seq<char> {
    path_join(path_join(root, "prototype"@), "docker-workspace"@)
}

/// The error for a missing prototype directory.
pub open spec fn missing_prototype_error(root: Seq<char>) -> Seq<char> {
    "Prototype Docker introuvable: "@ + prototype_path(root)
}

/// The prototype directory under `root`, when `is_dir` says that it is a
/// directory.
pub fn prototype_dir_from_root(root: &str, is_dir: impl Fn(&str) -> bool) -> (r: Result<
    String,
    String,
>)
    requires
        forall|p: &str| is_dir.requires((p,)),
    ensures
        answered(is_dir, prototype_path(root@), r is Ok),
        r matches Ok(d) ==> d@ == prototype_path(root@),
        r matches Err(e) ==> e@ == missing_prototype_error(root@),
{
    let base = path_join_str(root, "prototype");
    let dir = path_join_str(base.as_str(), "docker-workspace");
    let found = is_dir(dir.as_str());
    if found {
        Ok(dir)
    } else {
        let mut e = copy_str("Prototype Docker introuvable: ");
        e.append(dir.as_str());
        Err(e)
    }
}

} // verus!
