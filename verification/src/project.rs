//! Project inspection: Makefile targets, language counts, executables and
//! coverage or log artifacts of a project folder.
use vstd::prelude::*;

use crate::paths::{display_path, path_extension, plausible_executable, relative_display_path};
use crate::sorting::{ascending, insert_sorted_unique, sort_strings, strictly_ascending};
use crate::text::{
    ascii_lower_char, ascii_lower_seq, before_newline, chars_of, is_ascii_alnum,
    is_ascii_alnum_char, lemma_lex_lt_irreflexive, lemma_lex_total,
    lemma_prefix_before, lex_lt, prefix_before, range_equals, string_lt, string_of, trim,
    trim_bounds, views,
};

verus! {

/// What an inspection of a project folder found.
///
/// `language_counts` holds one entry per language (file extension), in
/// increasing order of the extension, as a `BTreeMap` would list them.
#[derive(Debug, Clone, PartialEq, Eq)]
pub struct ProjectInspection {
    pub has_makefile: bool,
    pub make_targets: Vec<String>,
    pub language_counts: Vec<(String, usize)>,
    pub executables: Vec<String>,
    pub artifacts: Vec<String>,
}

/// A regular file found under a project folder.
#[derive(Debug, Clone, PartialEq, Eq)]
pub struct ProjectFile {
    /// Its path as found on disk under the project folder; its name and
    /// extension classify it, and it is shown relative to the folder.
    pub path: String,
    /// Whether some execute permission bit is set on it.
    pub has_execute_permission: bool,
}

/// Characters allowed in a Makefile target that is listed.
pub open spec fn is_target_char(c: char) -> bool {
    is_ascii_alnum(c) || c == '_' || c == '-'
}

/// The target that a Makefile line declares, if it is listed: the line
/// starts with neither a tab, a space nor `#`, has a `:`, and the trimmed
/// text before its first `:` is a non-empty word of ASCII letters, digits,
/// `_` and `-`.
pub open spec fn line_target(line: Seq<char>) -> Option<Seq<char>> {
    if line.len() > 0 && (line[0] == '\t' || line[0] == ' ' || line[0] == '#') {
        None
    } else if prefix_before(line, ':').len() == line.len() {
        None
    } else {
        let t = trim(prefix_before(line, ':'));
        if t.len() > 0 && (forall|i: int| 0 <= i < t.len() ==> is_target_char(#[trigger] t[i])) {
            Some(t)
        } else {
            None
        }
    }
}

/// The targets declared by the lines of a Makefile, in line order.
pub open spec fn makefile_targets(content: Seq<char>) -> Seq<Seq<char>>
    decreases content.len(),
{
    let line = before_newline(content);
    let here = match line_target(line) {
        Some(t) => seq![t],
        None => Seq::empty(),
    };
    if line.len() < content.len() {
        here + makefile_targets(content.skip(line.len() + 1int))
    } else {
        here
    }
}

proof fn lemma_before_newline_len(s: Seq<char>)
    ensures
        before_newline(s).len() <= s.len(),
    decreases s.len(),
{
    if s.len() > 0 && s[0] != '\n' {
        lemma_before_newline_len(s.drop_first());
    }
}

proof fn lemma_prefix_before_facts(s: Seq<char>, c: char)
    ensures
        prefix_before(s, c).len() <= s.len(),
        s.take(prefix_before(s, c).len() as int) == prefix_before(s, c),
        prefix_before(s, c).len() < s.len() ==> s[prefix_before(s, c).len() as int] == c,
        forall|k: int| 0 <= k < s.len() && s[k] == c ==> prefix_before(s, c).len() <= k,
    decreases s.len(),
{
    if s.len() > 0 && s[0] != c {
        let t = s.drop_first();
        lemma_prefix_before_facts(t, c);
        assert(s.take(prefix_before(s, c).len() as int) =~= seq![s[0]] + t.take(
            prefix_before(t, c).len() as int,
        ));
        assert forall|k: int| 0 <= k < s.len() && s[k] == c implies prefix_before(s, c).len()
            <= k by {
            assert(k > 0);
            assert(t[k - 1] == c);
        }
    } else if s.len() > 0 {
        assert(s.take(0) =~= Seq::<char>::empty());
    }
}

proof fn lemma_prefix_before_append(a: Seq<char>, b: Seq<char>, c: char)
    requires
        forall|i: int| 0 <= i < a.len() ==> a[i] != c,
    ensures
        prefix_before(a + b, c) == a + prefix_before(b, c),
    decreases a.len(),
{
    if a.len() > 0 {
        lemma_prefix_before_append(a.drop_first(), b, c);
        assert((a + b).drop_first() =~= a.drop_first() + b);
        assert(a + prefix_before(b, c) =~= seq![a[0]] + (a.drop_first() + prefix_before(b, c)));
    } else {
        assert(a + b =~= b);
        assert(a + prefix_before(b, c) =~= prefix_before(b, c));
    }
}

/// A line that starts with a word of ASCII letters, digits, `_` and `-`
/// followed by `:` declares that word as a target.
proof fn lemma_word_line_target(word: Seq<char>, after: Seq<char>)
    requires
        word.len() > 0,
        forall|i: int|
            0 <= i < word.len() ==> is_ascii_alnum(#[trigger] word[i]) || word[i] == '_'
                || word[i] == '-',
    ensures
        line_target(before_newline(word + ":"@ + after)) == Some(word),
{
    reveal_strlit(":");
    let colon = ":"@;
    lemma_prefix_before_append(word + colon, after, '\n');
    let line = word + colon + prefix_before(after, '\n');
    assert(before_newline(word + colon + after) == line);
    lemma_prefix_before_append(word, colon + prefix_before(after, '\n'), ':');
    assert(word + colon + prefix_before(after, '\n') =~= word + (colon + prefix_before(
        after,
        '\n',
    )));
    assert(prefix_before(colon + prefix_before(after, '\n'), ':') =~= Seq::<char>::empty());
    assert(prefix_before(line, ':') =~= word);
    assert(line[0] == word[0]);
    assert(!crate::text::is_white_space(word[0]));
    assert(crate::text::trim_start(word) == word);
    assert(word.last() == word[word.len() - 1]);
    assert(!crate::text::is_white_space(word.last()));
    assert(crate::text::trim_end(word) == word);
    assert(trim(word) == word);
    assert(forall|i: int| 0 <= i < word.len() ==> is_target_char(#[trigger] word[i]));
}

/// Every target declared at the start of a line of a Makefile, as a word of
/// ASCII letters, digits, `_` and `-` followed by `:`, is among the targets
/// listed for it, whatever precedes and follows that line; `targets` is
/// what `make_targets` lists for the Makefile.
pub proof fn lemma_declared_target_is_listed(
    before: Seq<char>,
    word: Seq<char>,
    after: Seq<char>,
    targets: Seq<Seq<char>>,
)
    requires
        before.len() == 0 || before.last() == '\n',
        word.len() > 0,
        forall|i: int|
            0 <= i < word.len() ==> is_ascii_alnum(#[trigger] word[i]) || word[i] == '_'
                || word[i] == '-',
        targets.to_set() == makefile_targets(before + word + ":"@ + after).to_set(),
    ensures
        targets.contains(word),
{
    lemma_declared_target_in_text(before, word, after);
    let all = makefile_targets(before + word + ":"@ + after);
    assert(all.to_set().contains(word));
    assert(targets.to_set().contains(word));
}

proof fn lemma_declared_target_in_text(before: Seq<char>, word: Seq<char>, after: Seq<char>)
    requires
        before.len() == 0 || before.last() == '\n',
        word.len() > 0,
        forall|i: int|
            0 <= i < word.len() ==> is_ascii_alnum(#[trigger] word[i]) || word[i] == '_'
                || word[i] == '-',
    ensures
        makefile_targets(before + word + ":"@ + after).contains(word),
    decreases before.len(),
{
    let content = before + word + ":"@ + after;
    let line = before_newline(content);
    if before.len() == 0 {
        assert(content =~= word + ":"@ + after);
        lemma_word_line_target(word, after);
        let here = seq![word];
        assert(here[0] == word);
        if line.len() < content.len() {
            let rest = makefile_targets(content.skip(line.len() + 1int));
            assert((here + rest)[0] == word);
        }
    } else {
        lemma_prefix_before_facts(content, '\n');
        assert(content[before.len() - 1] == '\n');
        let n = line.len();
        assert(n < before.len());
        let here = match line_target(line) {
            Some(t) => seq![t],
            None => Seq::<Seq<char>>::empty(),
        };
        let b2 = before.skip(n + 1int);
        assert(content.skip(n + 1int) =~= b2 + word + ":"@ + after);
        if b2.len() > 0 {
            assert(b2.last() == before.last());
        }
        lemma_declared_target_in_text(b2, word, after);
        let rest = makefile_targets(content.skip(n + 1int));
        assert(makefile_targets(content) == here + rest);
        let k = choose|k: int| 0 <= k < rest.len() && rest[k] == word;
        assert((here + rest)[here.len() + k] == word);
    }
}

/// Every target listed for a Makefile is a non-empty word of ASCII letters,
/// digits, `_` and `-` declared by one of its lines; `targets` is what
/// `make_targets` lists for the Makefile.
pub proof fn lemma_listed_targets_are_words(content: Seq<char>, targets: Seq<Seq<char>>)
    requires
        targets.to_set() == makefile_targets(content).to_set(),
    ensures
        forall|k: int|
            0 <= k < targets.len() ==> #[trigger] targets[k].len() > 0 && forall|i: int|
                0 <= i < targets[k].len() ==> is_ascii_alnum(#[trigger] targets[k][i])
                    || targets[k][i] == '_' || targets[k][i] == '-',
{
    lemma_makefile_targets_are_words(content);
    assert forall|k: int| 0 <= k < targets.len() implies #[trigger] targets[k].len() > 0
        && forall|i: int|
        0 <= i < targets[k].len() ==> is_ascii_alnum(#[trigger] targets[k][i]) || targets[k][i]
            == '_' || targets[k][i] == '-' by {
        assert(targets.to_set().contains(targets[k]));
        assert(makefile_targets(content).contains(targets[k]));
        let j = choose|j: int|
            0 <= j < makefile_targets(content).len() && makefile_targets(content)[j]
                == targets[k];
        assert(is_word(makefile_targets(content)[j]));
    }
}

spec fn is_word(t: Seq<char>) -> bool {
    t.len() > 0 && forall|i: int|
        0 <= i < t.len() ==> is_ascii_alnum(#[trigger] t[i]) || t[i] == '_' || t[i] == '-'
}

proof fn lemma_makefile_targets_are_words(content: Seq<char>)
    ensures
        forall|j: int|
            0 <= j < makefile_targets(content).len() ==> is_word(
                #[trigger] makefile_targets(content)[j],
            ),
    decreases content.len(),
{
    let line = before_newline(content);
    let here = match line_target(line) {
        Some(t) => seq![t],
        None => Seq::<Seq<char>>::empty(),
    };
    if let Some(t) = line_target(line) {
        assert(is_word(t)) by {
            assert forall|i: int| 0 <= i < t.len() implies is_ascii_alnum(#[trigger] t[i])
                || t[i] == '_' || t[i] == '-' by {
                assert(is_target_char(t[i]));
            }
        }
    }
    lemma_before_newline_len(content);
    if line.len() < content.len() {
        lemma_makefile_targets_are_words(content.skip(line.len() + 1int));
        let rest = makefile_targets(content.skip(line.len() + 1int));
        assert(makefile_targets(content) == here + rest);
        assert forall|j: int| 0 <= j < (here + rest).len() implies is_word(
            #[trigger] (here + rest)[j],
        ) by {
            if j >= here.len() {
                assert((here + rest)[j] == rest[j - here.len()]);
            }
        }
    }
}

/// The target declared by characters `a..b` of `v`, if any.
#[verifier::loop_isolation(false)]
fn line_target_of(v: &Vec<char>, a: usize, b: usize) -> (r: Option<String>)
    requires
        a <= b <= v.len(),
    ensures
        match r {
            Some(t) => line_target(v@.subrange(a as int, b as int)) == Some(t@),
            None => line_target(v@.subrange(a as int, b as int)) is None,
        },
{
    let ghost line = v@.subrange(a as int, b as int);
    if a < b && (v[a] == '\t' || v[a] == ' ' || v[a] == '#') {
        return None;
    }
    let mut c = a;
    while c < b && v[c] != ':'
        invariant
            a <= c <= b <= v.len(),
            forall|k: int| a <= k < c ==> v@[k] != ':',
        decreases b - c,
    {
        c = c + 1;
    }
    proof {
        lemma_prefix_before(line, ':', c - a);
    }
    if c == b {
        return None;
    }
    let mut w: Vec<char> = Vec::new();
    let mut i = a;
    while i < c
        invariant
            a <= i <= c <= b <= v.len(),
            w@ == v@.subrange(a as int, i as int),
        decreases c - i,
    {
        w.push(v[i]);
        i = i + 1;
        assert(w@ =~= v@.subrange(a as int, i as int));
    }
    assert(w@ =~= line.take(c - a));
    let (s, e) = trim_bounds(&w);
    if s == e {
        return None;
    }
    let mut k = s;
    while k < e
        invariant
            s <= k <= e <= w.len(),
            forall|j: int| s <= j < k ==> is_target_char(#[trigger] w@[j]),
        decreases e - k,
    {
        let ch = w[k];
        if !(is_ascii_alnum_char(ch) || ch == '_' || ch == '-') {
            let ghost t = w@.subrange(s as int, e as int);
            assert(t == trim(prefix_before(line, ':')));
            assert(!is_target_char(t[k - s]));
            assert(!(forall|i: int| 0 <= i < t.len() ==> is_target_char(#[trigger] t[i])));
            return None;
        }
        k = k + 1;
    }
    let t = string_of(&w, s, e);
    assert forall|j: int| 0 <= j < t@.len() implies is_target_char(#[trigger] t@[j]) by {
        assert(t@[j] == w@[s + j]);
    }
    Some(t)
}

/// The targets declared in a Makefile, sorted, each once.
pub fn make_targets(makefile_content: &str) -> (r: Vec<String>)
    ensures
        strictly_ascending(views(r@)),
        views(r@).to_set() == makefile_targets(makefile_content@).to_set(),
{
    let v = chars_of(makefile_content);
    let n = v.len();
    let mut out: Vec<String> = Vec::new();
    let ghost mut seen: Seq<Seq<char>> = Seq::empty();
    let mut pos: usize = 0;
    assert(v@.skip(0) =~= v@);
    assert(views(out@) =~= Seq::<Seq<char>>::empty());
    assert(seen + makefile_targets(v@.skip(0)) =~= makefile_targets(v@));
    loop
        invariant
            pos <= n == v.len(),
            v@ == makefile_content@,
            makefile_targets(v@) == seen + makefile_targets(v@.skip(pos as int)),
            strictly_ascending(views(out@)),
            views(out@).to_set() == seen.to_set(),
        decreases n - pos,
    {
        let mut e = pos;
        while e < n && v[e] != '\n'
            invariant
                pos <= e <= n == v.len(),
                forall|k: int| pos <= k < e ==> v@[k] != '\n',
            decreases n - e,
        {
            e = e + 1;
        }
        let ghost rest = v@.skip(pos as int);
        proof {
            lemma_prefix_before(rest, '\n', e - pos);
            assert(rest.take(e - pos) =~= v@.subrange(pos as int, e as int));
        }
        let found = line_target_of(&v, pos, e);
        let ghost here = match line_target(v@.subrange(pos as int, e as int)) {
            Some(t) => seq![t],
            None => Seq::<Seq<char>>::empty(),
        };
        let ghost old_out = views(out@);
        match found {
            Some(t) => {
                let ghost tv = t@;
                insert_sorted_unique(&mut out, t);
                proof {
                    assert(here == seq![tv]);
                    assert((seen + here).to_set() =~= seen.to_set().insert(tv)) by {
                        assert forall|x: Seq<char>| (seen + here).contains(x) <==> seen.to_set().insert(tv).contains(x) by {
                            if (seen + here).contains(x) {
                                let k = choose|k: int| 0 <= k < (seen + here).len() && (seen + here)[k] == x;
                                if k < seen.len() {
                                    assert(seen[k] == x);
                                }
                            }
                            if seen.contains(x) {
                                let k = choose|k: int| 0 <= k < seen.len() && seen[k] == x;
                                assert((seen + here)[k] == x);
                            }
                            if x == tv {
                                assert((seen + here)[seen.len() as int] == x);
                            }
                        }
                    }
                }
            },
            None => {
                proof {
                    assert(here =~= Seq::<Seq<char>>::empty());
                    assert(seen + here =~= seen);
                }
            },
        }
        if e == n {
            proof {
                assert(makefile_targets(rest) == here);
                assert(makefile_targets(v@) =~= seen + here);
            }
            return out;
        }
        proof {
            assert(rest.skip(e - pos + 1) =~= v@.skip(e + 1));
            assert(makefile_targets(rest) == here + makefile_targets(v@.skip(e + 1)));
            assert(seen + makefile_targets(rest) =~= (seen + here) + makefile_targets(
                v@.skip(e + 1),
            ));
            seen = seen + here;
        }
        pos = e + 1;
    }
}

/// The extension of a path with its ASCII letters in lower case.
///
/// Extensions are only compared with ASCII names, for which ASCII folding
/// and full Unicode lowercasing select the same files.
pub open spec fn lowered_extension(path: Seq<char>) -> Option<Seq<char>> {
    match path_extension(path) {
        Some(e) => Some(ascii_lower_seq(e)),
        None => None,
    }
}

/// Extensions counted as source files of a language.
pub open spec fn is_language_extension(ext: Seq<char>) -> bool {
    ||| ext == "c"@
    ||| ext == "cpp"@
    ||| ext == "cc"@
    ||| ext == "cxx"@
    ||| ext == "h"@
    ||| ext == "hpp"@
    ||| ext == "js"@
    ||| ext == "ts"@
    ||| ext == "py"@
    ||| ext == "rs"@
}

/// Extensions of coverage files and logs.
pub open spec fn is_artifact_extension(ext: Seq<char>) -> bool {
    ||| ext == "gcov"@
    ||| ext == "gcda"@
    ||| ext == "gcno"@
    ||| ext == "log"@
}

/// How many of the files have the given (lowered) extension.
pub open spec fn files_with_extension(files: Seq<ProjectFile>, ext: Seq<char>) -> nat
    decreases files.len(),
{
    if files.len() == 0 {
        0
    } else {
        files_with_extension(files.drop_last(), ext) + if lowered_extension(
            files.last().path@,
        ) == Some(ext) {
            1nat
        } else {
            0nat
        }
    }
}

/// The shown paths (relative to `root`) of the files that may be
/// executables: a plausible name and an execute permission.
pub open spec fn executable_paths(root: Seq<char>, files: Seq<ProjectFile>) -> Seq<Seq<char>>
    decreases files.len(),
{
    if files.len() == 0 {
        Seq::empty()
    } else {
        let f = files.last();
        let rest = executable_paths(root, files.drop_last());
        if f.has_execute_permission && plausible_executable(f.path@) {
            rest.push(display_path(root, f.path@))
        } else {
            rest
        }
    }
}

/// The shown paths (relative to `root`) of coverage files and logs.
pub open spec fn artifact_paths(root: Seq<char>, files: Seq<ProjectFile>) -> Seq<Seq<char>>
    decreases files.len(),
{
    if files.len() == 0 {
        Seq::empty()
    } else {
        let f = files.last();
        let rest = artifact_paths(root, files.drop_last());
        if lowered_extension(f.path@) matches Some(e) && is_artifact_extension(e) {
            rest.push(display_path(root, f.path@))
        } else {
            rest
        }
    }
}

/// The extensions of a list of language counts.
pub open spec fn count_keys(counts: Seq<(String, usize)>) -> Seq<Seq<char>> {
    counts.map_values(|p: (String, usize)| p.0@)
}

/// `counts` lists, in increasing order, each language extension that some
/// of the files have, with the number of those files.
pub open spec fn counts_languages(counts: Seq<(String, usize)>, files: Seq<ProjectFile>) -> bool {
    &&& strictly_ascending(count_keys(counts))
    &&& forall|i: int|
        0 <= i < counts.len() ==> {
            &&& is_language_extension(#[trigger] counts[i].0@)
            &&& counts[i].1 as nat == files_with_extension(files, counts[i].0@)
            &&& counts[i].1 > 0
        }
    &&& forall|ext: Seq<char>|
        is_language_extension(ext) && files_with_extension(files, ext) > 0 ==> count_keys(
            counts,
        ).contains(ext)
}

/// What the inspection of a project finds from its files and its Makefile.
pub open spec fn inspects(
    r: ProjectInspection,
    root: Seq<char>,
    files: Seq<ProjectFile>,
    has_makefile: bool,
    makefile_content: Seq<char>,
) -> bool {
    &&& r.has_makefile == has_makefile
    &&& strictly_ascending(views(r.make_targets@))
    &&& has_makefile ==> views(r.make_targets@).to_set() == makefile_targets(makefile_content).to_set()
    &&& !has_makefile ==> r.make_targets@.len() == 0
    &&& counts_languages(r.language_counts@, files)
    &&& ascending(views(r.executables@))
    &&& views(r.executables@).to_multiset() == executable_paths(root, files).to_multiset()
    &&& ascending(views(r.artifacts@))
    &&& views(r.artifacts@).to_multiset() == artifact_paths(root, files).to_multiset()
}

/// An inspection counts every C, C++, JavaScript, TypeScript, Python and
/// Rust source file: for each of the extensions `c`, `cpp`, `cc`, `cxx`,
/// `h`, `hpp`, `js`, `ts`, `py` and `rs` that some file has (in any case),
/// the counts list that extension with the number of those files; and they
/// list no other extension.
pub proof fn lemma_source_files_are_counted(
    r: ProjectInspection,
    root: Seq<char>,
    files: Seq<ProjectFile>,
    has_makefile: bool,
    makefile_content: Seq<char>,
    ext: Seq<char>,
)
    requires
        inspects(r, root, files, has_makefile, makefile_content),
    ensures
        (ext == "c"@ || ext == "cpp"@ || ext == "cc"@ || ext == "cxx"@ || ext == "h"@ || ext
            == "hpp"@ || ext == "js"@ || ext == "ts"@ || ext == "py"@ || ext == "rs"@)
            && files_with_extension(files, ext) > 0 ==> exists|i: int|
            0 <= i < r.language_counts@.len() && #[trigger] r.language_counts@[i].0@ == ext
                && r.language_counts@[i].1 as nat == files_with_extension(files, ext),
        forall|i: int|
            0 <= i < r.language_counts@.len() ==> {
                let key = #[trigger] r.language_counts@[i].0@;
                key == "c"@ || key == "cpp"@ || key == "cc"@ || key == "cxx"@ || key == "h"@
                    || key == "hpp"@ || key == "js"@ || key == "ts"@ || key == "py"@ || key
                    == "rs"@
            },
{
    let counts = r.language_counts@;
    if (ext == "c"@ || ext == "cpp"@ || ext == "cc"@ || ext == "cxx"@ || ext == "h"@ || ext
        == "hpp"@ || ext == "js"@ || ext == "ts"@ || ext == "py"@ || ext == "rs"@)
        && files_with_extension(files, ext) > 0 {
        assert(is_language_extension(ext));
        assert(count_keys(counts).contains(ext));
        let i = choose|i: int| 0 <= i < count_keys(counts).len() && count_keys(counts)[i] == ext;
        assert(counts[i].0@ == ext);
    }
}

/// The extension of a path, ASCII-lowercased, as characters.
fn lowered_extension_of(path: &str) -> (r: Option<Vec<char>>)
    ensures
        match r {
            Some(e) => lowered_extension(path@) == Some(e@),
            None => lowered_extension(path@) is None,
        },
{
    match crate::paths::extension(path) {
        None => None,
        Some(e) => {
            let v = chars_of(e.as_str());
            let mut w: Vec<char> = Vec::new();
            let mut i: usize = 0;
            while i < v.len()
                invariant
                    i <= v.len(),
                    w@ == ascii_lower_seq(v@.take(i as int)),
                decreases v.len() - i,
            {
                w.push(ascii_lower_char(v[i]));
                i = i + 1;
                assert(w@ =~= ascii_lower_seq(v@.take(i as int)));
            }
            assert(v@.take(i as int) =~= v@);
            Some(w)
        },
    }
}

fn is_language_ext(e: &Vec<char>) -> (r: bool)
    ensures
        r == is_language_extension(e@),
{
    let n = e.len();
    assert(e@.subrange(0, n as int) =~= e@);
    range_equals(e, 0, n, "c") || range_equals(e, 0, n, "cpp") || range_equals(e, 0, n, "cc")
        || range_equals(e, 0, n, "cxx") || range_equals(e, 0, n, "h") || range_equals(
        e,
        0,
        n,
        "hpp",
    ) || range_equals(e, 0, n, "js") || range_equals(e, 0, n, "ts") || range_equals(
        e,
        0,
        n,
        "py",
    ) || range_equals(e, 0, n, "rs")
}

fn is_artifact_ext(e: &Vec<char>) -> (r: bool)
    ensures
        r == is_artifact_extension(e@),
{
    let n = e.len();
    assert(e@.subrange(0, n as int) =~= e@);
    range_equals(e, 0, n, "gcov") || range_equals(e, 0, n, "gcda") || range_equals(
        e,
        0,
        n,
        "gcno",
    ) || range_equals(e, 0, n, "log")
}

proof fn lemma_files_with_extension_bound(files: Seq<ProjectFile>, ext: Seq<char>)
    ensures
        files_with_extension(files, ext) <= files.len(),
    decreases files.len(),
{
    if files.len() > 0 {
        lemma_files_with_extension_bound(files.drop_last(), ext);
    }
}

/// Adds one file of language `ext` to the counts.
fn count_language(
    counts: &mut Vec<(String, usize)>,
    ext: &Vec<char>,
    Ghost(files): Ghost<Seq<ProjectFile>>,
    Ghost(file): Ghost<ProjectFile>,
)
    requires
        counts_languages(old(counts)@, files),
        is_language_extension(ext@),
        lowered_extension(file.path@) == Some(ext@),
        files.len() < usize::MAX,
    ensures
        counts_languages(final(counts)@, files.push(file)),
{
    let key = string_of(ext, 0, ext.len());
    assert(ext@.subrange(0, ext@.len() as int) =~= ext@);
    let ghost all = files.push(file);
    proof {
        assert(all.drop_last() =~= files);
        assert forall|x: Seq<char>| x != ext@ implies files_with_extension(all, x)
            == files_with_extension(files, x) by {}
        assert(files_with_extension(all, ext@) == files_with_extension(files, ext@) + 1);
        lemma_files_with_extension_bound(files, ext@);
    }
    let mut p: usize = 0;
    while p < counts.len() && string_lt(&counts[p].0, &key)
        invariant
            p <= counts.len(),
            key@ == ext@,
            forall|k: int| 0 <= k < p ==> lex_lt(count_keys(counts@)[k], key@),
        decreases counts.len() - p,
    {
        p = p + 1;
    }
    let ghost before = counts@;
    if p < counts.len() && !string_lt(&key, &counts[p].0) {
        proof {
            lemma_lex_total(key@, counts@[p as int].0@);
        }
        let (k, c) = counts.remove(p);
        proof {
            assert(k@ == ext@);
            assert(c as nat == files_with_extension(files, ext@));
        }
        counts.insert(p, (k, c + 1));
        proof {
            assert(count_keys(counts@) =~= count_keys(before));
            assert forall|i: int| 0 <= i < counts@.len() implies {
                &&& is_language_extension(#[trigger] counts@[i].0@)
                &&& counts@[i].1 as nat == files_with_extension(all, counts@[i].0@)
                &&& counts@[i].1 > 0
            } by {
                if i != p {
                    assert(counts@[i] == before[i]);
                    assert(count_keys(before)[i] != count_keys(before)[p as int]) by {
                        lemma_lex_lt_irreflexive(count_keys(before)[i]);
                    }
                }
            }
            assert forall|x: Seq<char>|
                is_language_extension(x) && files_with_extension(all, x) > 0 implies count_keys(
                counts@,
            ).contains(x) by {
                if x != ext@ {
                    assert(count_keys(before).contains(x));
                } else {
                    assert(count_keys(counts@)[p as int] == x);
                }
            }
        }
    } else {
        proof {
            assert(files_with_extension(files, ext@) == 0) by {
                if files_with_extension(files, ext@) > 0 {
                    assert(count_keys(before).contains(ext@));
                    let i = choose|i: int| 0 <= i < before.len() && count_keys(before)[i] == ext@;
                    if i < p {
                        lemma_lex_lt_irreflexive(ext@);
                    } else {
                        assert(lex_lt(ext@, count_keys(before)[p as int]));
                        if i > p {
                            crate::text::lemma_lex_lt_transitive(
                                ext@,
                                count_keys(before)[p as int],
                                count_keys(before)[i],
                            );
                        }
                        lemma_lex_lt_irreflexive(ext@);
                    }
                }
            }
        }
        counts.insert(p, (key, 1));
        proof {
            let now = count_keys(counts@);
            assert(now =~= count_keys(before).insert(p as int, ext@));
            assert forall|i: int, j: int| 0 <= i < j < now.len() implies lex_lt(now[i], now[j]) by {
                if i == p && j > p && j - 1 > p {
                    crate::text::lemma_lex_lt_transitive(
                        ext@,
                        count_keys(before)[p as int],
                        count_keys(before)[j - 1],
                    );
                }
            }
            assert forall|i: int| 0 <= i < counts@.len() implies {
                &&& is_language_extension(#[trigger] counts@[i].0@)
                &&& counts@[i].1 as nat == files_with_extension(all, counts@[i].0@)
                &&& counts@[i].1 > 0
            } by {
                if i < p {
                    assert(counts@[i] == before[i]);
                    assert(count_keys(before)[i] != ext@) by {
                        lemma_lex_lt_irreflexive(ext@);
                    }
                } else if i > p {
                    assert(counts@[i] == before[i - 1]);
                    assert(count_keys(before)[i - 1] != ext@) by {
                        lemma_lex_lt_irreflexive(ext@);
                        if i - 1 > p {
                            crate::text::lemma_lex_lt_transitive(
                                ext@,
                                count_keys(before)[p as int],
                                count_keys(before)[i - 1],
                            );
                        }
                    }
                }
            }
            assert forall|x: Seq<char>|
                is_language_extension(x) && files_with_extension(all, x) > 0 implies now.contains(
                x,
            ) by {
                if x != ext@ {
                    let i = choose|i: int| 0 <= i < before.len() && count_keys(before)[i] == x;
                    if i < p {
                        assert(now[i] == x);
                    } else {
                        assert(now[i + 1] == x);
                    }
                } else {
                    assert(now[p as int] == x);
                }
            }
        }
    }
}

/// Inspects the project in folder `root` from the list of its files,
/// whether it has a `Makefile`, and that Makefile's text (empty when it
/// could not be read). Files are shown relative to `root`; without a
/// Makefile no target is listed.
pub fn detect_project(
    root: &str,
    files: &Vec<ProjectFile>,
    has_makefile: bool,
    makefile_content: &str,
) -> (r: ProjectInspection)
    ensures
        inspects(r, root@, files@, has_makefile, makefile_content@),
{
    let mut counts: Vec<(String, usize)> = Vec::new();
    let mut executables: Vec<String> = Vec::new();
    let mut artifacts: Vec<String> = Vec::new();
    let mut i: usize = 0;
    assert(files@.take(0) =~= Seq::<ProjectFile>::empty());
    assert(views(executables@) =~= Seq::<Seq<char>>::empty());
    assert(views(artifacts@) =~= Seq::<Seq<char>>::empty());
    assert(count_keys(counts@) =~= Seq::<Seq<char>>::empty());
    while i < files.len()
        invariant
            i <= files.len(),
            counts_languages(counts@, files@.take(i as int)),
            views(executables@) == executable_paths(root@, files@.take(i as int)),
            views(artifacts@) == artifact_paths(root@, files@.take(i as int)),
        decreases files.len() - i,
    {
        let file = &files[i];
        let ghost prefix = files@.take(i as int);
        proof {
            assert(files@.take(i + 1) =~= prefix.push(files@[i as int]));
            assert(files@.take(i + 1).drop_last() =~= prefix);
        }
        let ext = lowered_extension_of(file.path.as_str());
        match &ext {
            Some(e) => {
                if is_language_ext(e) {
                    count_language(&mut counts, e, Ghost(prefix), Ghost(files@[i as int]));
                } else {
                    proof {
                        assert forall|x: Seq<char>| is_language_extension(x) implies files_with_extension(
                            files@.take(i + 1),
                            x,
                        ) == files_with_extension(prefix, x) by {}
                    }
                }
                if is_artifact_ext(e) {
                    artifacts.push(relative_display_path(root, file.path.as_str()));
                    assert(views(artifacts@) =~= artifact_paths(root@, prefix).push(
                        display_path(root@, file.path@),
                    ));
                }
            },
            None => {
                proof {
                    assert forall|x: Seq<char>| is_language_extension(x) implies files_with_extension(
                        files@.take(i + 1),
                        x,
                    ) == files_with_extension(prefix, x) by {}
                }
            },
        }
        if file.has_execute_permission && crate::paths::is_plausible_executable_path(
            file.path.as_str(),
        ) {
            executables.push(relative_display_path(root, file.path.as_str()));
            assert(views(executables@) =~= executable_paths(root@, prefix).push(
                display_path(root@, file.path@),
            ));
        }
        i = i + 1;
    }
    assert(files@.take(i as int) =~= files@);
    ProjectInspection {
        has_makefile,
        make_targets: if has_makefile {
            make_targets(makefile_content)
        } else {
            Vec::new()
        },
        language_counts: counts,
        executables: sort_strings(executables),
        artifacts: sort_strings(artifacts),
    }
}

} // verus!
