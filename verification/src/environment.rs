//! Environments: identifiers, generated Docker Compose files, IDE ports and
//! runtime status.
use vstd::prelude::*;

use crate::text::{
    trim_start, ascii_lower, ascii_lower_char, chars_of, copy_str, decimal, escape_quotes, is_ascii_alnum,
    is_ascii_alnum_char, is_white_space, push_decimal, push_escaped_quotes,
    str_is_empty, string_of, trim, trim_bounds, trim_str,
};
use crate::sorting::{key_is, stable_sort, SortKey};
use crate::paths::{
    answered, missing_home_error, path_join, path_join_str, projects_dir, projects_path,
};

verus! {

/// The stored description of one workspace environment (`config.json`).
#[derive(Debug, Clone, PartialEq, Eq)]
pub struct EnvironmentConfig {
    pub id: String,
    pub name: String,
    pub profile: String,
    pub host_path: String,
    pub container_path: String,
    pub ide_port: u16,
    pub created_at: u64,
}

/// Whether the container of an environment runs.
#[derive(Debug, Clone, PartialEq, Eq)]
pub struct EnvironmentRuntimeStatus {
    pub environment_id: String,
    pub status: String,
    pub container_name: String,
}

/// The lowercase mapping of a character, as `char::to_lowercase` yields it.
pub uninterp spec fn char_lowercase(c: char) -> Seq<char>;

/// `char::to_lowercase`, collected: the result is the named mapping
/// `char_lowercase` of `c` and nothing more is claimed of it. In particular
/// no clause says that the mapping of a non-ASCII character holds no ASCII
/// capital letter: the documentation refers to the Unicode tables for it
/// and does not state it.
#[verifier::external_body]
fn char_to_lowercase(c: char) -> (r: Vec<char>)
    ensures
        r@ == char_lowercase(c),
{
    c.to_lowercase().collect()
}

/// The lowercase form of one character: ASCII folding for ASCII characters,
/// the Unicode mapping for the others.
pub open spec fn lowercase_char(c: char) -> Seq<char> {
    if (c as u32) < 0x80 {
        seq![ascii_lower(c)]
    } else {
        char_lowercase(c)
    }
}

/// The lowercase form of a string, character by character.
pub open spec fn lowercase(s: Seq<char>) -> Seq<char>
    decreases s.len(),
{
    if s.len() == 0 {
        s
    } else {
        lowercase(s.drop_last()) + lowercase_char(s.last())
    }
}

/// The identifier built from a lowercase name, before dashes are trimmed,
/// and whether it ends with a dash: ASCII letters and digits are kept, and
/// each run of other characters after some kept character becomes one dash.
pub open spec fn dashed(s: Seq<char>) -> (Seq<char>, bool)
    decreases s.len(),
{
    if s.len() == 0 {
        (Seq::empty(), false)
    } else {
        let (id, last_dash) = dashed(s.drop_last());
        let c = s.last();
        if is_ascii_alnum(c) {
            (id.push(c), false)
        } else if !last_dash && id.len() > 0 {
            (id.push('-'), true)
        } else {
            (id, last_dash)
        }
    }
}

/// `s` without leading dashes.
pub open spec fn trim_start_dashes(s: Seq<char>) -> Seq<char>
    decreases s.len(),
{
    if s.len() > 0 && s[0] == '-' {
        trim_start_dashes(s.drop_first())
    } else {
        s
    }
}

/// `s` without trailing dashes.
pub open spec fn trim_end_dashes(s: Seq<char>) -> Seq<char>
    decreases s.len(),
{
    if s.len() > 0 && s.last() == '-' {
        trim_end_dashes(s.drop_last())
    } else {
        s
    }
}

/// `s.trim_matches('-')`.
pub open spec fn trim_dashes(s: Seq<char>) -> Seq<char> {
    trim_end_dashes(trim_start_dashes(s))
}

/// The identifier of an environment named `name`: the trimmed, lowercase
/// name with each run of characters other than ASCII letters and digits
/// replaced by one dash, and no dash at either end.
pub open spec fn sanitized_id(name: Seq<char>) -> Seq<char> {
    trim_dashes(dashed(lowercase(trim(name))).0)
}

/// An identifier of lowercase ASCII letters, digits and inner single
/// dashes.
pub open spec fn is_plain_id(id: Seq<char>) -> bool {
    &&& forall|i: int|
        0 <= i < id.len() ==> is_ascii_alnum(#[trigger] id[i]) && !(0x41 <= (id[i] as u32) && (
        id[i] as u32) <= 0x5a) || id[i] == '-'
    &&& id.len() > 0 ==> id[0] != '-' && id.last() != '-'
    &&& forall|i: int| 0 <= i && i + 1 < id.len() ==> !(#[trigger] id[i] == '-' && id[i + 1] == '-')
}

/// Turns a display name into an identifier usable in file names and
/// container names.
pub fn sanitize_environment_id(name: &str) -> (r: String)
    ensures
        r@ == sanitized_id(name@),
{
    let v = chars_of(name);
    let (a, b) = trim_bounds(&v);
    let mut lower: Vec<char> = Vec::new();
    let mut i = a;
    assert(v@.subrange(a as int, a as int) =~= Seq::<char>::empty());
    while i < b
        invariant
            a <= i <= b <= v.len(),
            lower@ == lowercase(v@.subrange(a as int, i as int)),
        decreases b - i,
    {
        let c = v[i];
        let ghost before = lower@;
        if (c as u32) < 0x80 {
            lower.push(ascii_lower_char(c));
        } else {
            let mut m = char_to_lowercase(c);
            lower.append(&mut m);
        }
        assert(v@.subrange(a as int, i + 1).drop_last() =~= v@.subrange(a as int, i as int));
        i = i + 1;
        assert(lower@ =~= lowercase(v@.subrange(a as int, i as int)));
    }
    let mut id: Vec<char> = Vec::new();
    let mut last_dash = false;
    let mut j: usize = 0;
    assert(lower@.take(0) =~= Seq::<char>::empty());
    while j < lower.len()
        invariant
            j <= lower.len(),
            (id@, last_dash) == dashed(lower@.take(j as int)),
        decreases lower.len() - j,
    {
        let c = lower[j];
        assert(lower@.take(j + 1).drop_last() =~= lower@.take(j as int));
        if is_ascii_alnum_char(c) {
            id.push(c);
            last_dash = false;
        } else if !last_dash && id.len() > 0 {
            id.push('-');
            last_dash = true;
        }
        j = j + 1;
    }
    assert(lower@.take(j as int) =~= lower@);
    let mut s: usize = 0;
    let n = id.len();
    assert(id@.subrange(0, n as int) =~= id@);
    while s < n && id[s] == '-'
        invariant
            s <= n == id.len(),
            trim_start_dashes(id@) == trim_start_dashes(id@.subrange(s as int, n as int)),
        decreases n - s,
    {
        assert(id@.subrange(s as int, n as int).drop_first() =~= id@.subrange(s + 1, n as int));
        s = s + 1;
    }
    let ghost ts = id@.subrange(s as int, n as int);
    let mut e = n;
    assert(id@.subrange(s as int, e as int) == ts);
    while e > s && id[e - 1] == '-'
        invariant
            s <= e <= n == id.len(),
            trim_end_dashes(ts) == trim_end_dashes(id@.subrange(s as int, e as int)),
        decreases e,
    {
        assert(id@.subrange(s as int, e as int).drop_last() =~= id@.subrange(s as int, e - 1));
        e = e - 1;
    }
    string_of(&id, s, e)
}

/// The error given for an identifier that is not its own sanitized form.
pub open spec fn invalid_environment_id_error() -> Seq<char> {
    "Identifiant d'environnement invalide"@
}

/// Checks that an environment identifier is one that
/// `sanitize_environment_id` could have produced, before it is used in a
/// path: it is not empty and is its own sanitized form.
pub fn validate_environment_id(environment_id: &str) -> (r: Result<(), String>)
    ensures
        r is Ok <==> environment_id@.len() > 0 && sanitized_id(environment_id@)
            == environment_id@,
        r matches Err(e) ==> e@ == invalid_environment_id_error(),
{
    let v = chars_of(environment_id);
    let sanitized = sanitize_environment_id(environment_id);
    let w = chars_of(sanitized.as_str());
    if v.len() == 0 || !crate::text::chars_equal(&w, &v) {
        Err(copy_str("Identifiant d'environnement invalide"))
    } else {
        Ok(())
    }
}

/// An identifier made of ASCII letters, digits and dashes, with no dash at
/// either end and no two dashes in a row.
pub open spec fn is_dashed_word(id: Seq<char>) -> bool {
    &&& forall|i: int| 0 <= i < id.len() ==> is_ascii_alnum(#[trigger] id[i]) || id[i] == '-'
    &&& id.len() > 0 ==> id[0] != '-' && id.last() != '-'
    &&& forall|i: int| 0 <= i && i + 1 < id.len() ==> !(#[trigger] id[i] == '-' && id[i + 1] == '-')
}

proof fn lemma_dashed_shape(s: Seq<char>)
    ensures
        ({
            let (id, last_dash) = dashed(s);
            &&& forall|i: int|
                0 <= i < id.len() ==> #[trigger] id[i] == '-' || (is_ascii_alnum(id[i])
                    && s.contains(id[i]))
            &&& id.len() > 0 ==> id[0] != '-'
            &&& forall|i: int| 0 <= i && i + 1 < id.len() ==> !(#[trigger] id[i] == '-' && id[i + 1] == '-')
            &&& last_dash <==> (id.len() > 0 && id.last() == '-')
        }),
    decreases s.len(),
{
    if s.len() > 0 {
        lemma_dashed_shape(s.drop_last());
        let (id, _) = dashed(s.drop_last());
        assert forall|x: char| s.drop_last().contains(x) implies s.contains(x) by {
            let k = choose|k: int| 0 <= k < s.drop_last().len() && s.drop_last()[k] == x;
            assert(s[k] == x);
        }
        assert(s.contains(s.last())) by {
            assert(s[s.len() - 1] == s.last());
        }
    }
}

proof fn lemma_trim_dashes_of_dashed(id: Seq<char>, last_dash: bool)
    requires
        id.len() > 0 ==> id[0] != '-',
        forall|i: int| 0 <= i && i + 1 < id.len() ==> !(#[trigger] id[i] == '-' && id[i + 1] == '-'),
    ensures
        trim_dashes(id) == if id.len() > 0 && id.last() == '-' {
            id.drop_last()
        } else {
            id
        },
{
    assert(trim_start_dashes(id) == id);
    if id.len() > 0 && id.last() == '-' {
        let d = id.drop_last();
        if d.len() > 0 {
            assert(!(id[id.len() - 2] == '-' && id[id.len() - 1] == '-'));
            assert(d.last() != '-');
        }
        assert(trim_end_dashes(d) == d);
    }
}

/// Every sanitized identifier is a dashed word: ASCII letters, digits and
/// single inner dashes.
pub proof fn lemma_sanitized_id_is_dashed_word(name: Seq<char>)
    ensures
        is_dashed_word(sanitized_id(name)),
{
    let s = lowercase(trim(name));
    lemma_dashed_shape(s);
    let (id, last_dash) = dashed(s);
    lemma_trim_dashes_of_dashed(id, last_dash);
    let r = sanitized_id(name);
    if id.len() > 0 && id.last() == '-' {
        assert(r == id.drop_last());
        assert forall|i: int| 0 <= i < r.len() implies is_ascii_alnum(#[trigger] r[i]) || r[i]
            == '-' by {
            assert(r[i] == id[i]);
        }
        if r.len() > 0 {
            assert(!(id[r.len() - 1] == '-' && id[r.len() as int] == '-'));
        }
        assert forall|i: int| 0 <= i && i + 1 < r.len() implies !(#[trigger] r[i] == '-' && r[i
            + 1] == '-') by {
            assert(r[i] == id[i] && r[i + 1] == id[i + 1]);
        }
    }
}

proof fn lemma_trim_plain(id: Seq<char>)
    requires
        is_plain_id(id),
    ensures
        trim(id) == id,
{
    if id.len() > 0 {
        assert(!crate::text::is_white_space(id[0]));
        assert(!crate::text::is_white_space(id.last())) by {
            assert(id.last() == id[id.len() - 1]);
        }
    }
}

proof fn lemma_lowercase_plain(id: Seq<char>)
    requires
        forall|i: int|
            0 <= i < id.len() ==> is_ascii_alnum(#[trigger] id[i]) && !(0x41 <= (id[i] as u32)
                && (id[i] as u32) <= 0x5a) || id[i] == '-',
    ensures
        lowercase(id) == id,
    decreases id.len(),
{
    if id.len() > 0 {
        lemma_lowercase_plain(id.drop_last());
        assert(id.last() == id[id.len() - 1]);
        assert(lowercase_char(id.last()) =~= seq![id.last()]);
        assert(id =~= id.drop_last() + seq![id.last()]);
    }
}

proof fn lemma_dashed_plain(id: Seq<char>, k: int)
    requires
        is_plain_id(id),
        0 <= k <= id.len(),
    ensures
        dashed(id.take(k)) == (id.take(k), k > 0 && id[k - 1] == '-'),
    decreases k,
{
    if k > 0 {
        lemma_dashed_plain(id, k - 1);
        assert(id.take(k).drop_last() =~= id.take(k - 1));
        assert(id.take(k).last() == id[k - 1]);
        assert(id.take(k - 1).push(id[k - 1]) =~= id.take(k));
        if id[k - 1] == '-' {
            assert(k - 1 > 0);
            assert(!(id[k - 2] == '-' && id[k - 1] == '-'));
        }
    } else {
        assert(id.take(0) =~= Seq::<char>::empty());
    }
}

/// A plain identifier (lowercase ASCII letters, digits, single inner
/// dashes) is its own sanitized form, so it is accepted as an environment
/// identifier.
pub proof fn lemma_plain_id_is_fixed_point(id: Seq<char>)
    requires
        is_plain_id(id),
    ensures
        sanitized_id(id) == id,
{
    lemma_trim_plain(id);
    lemma_lowercase_plain(id);
    lemma_dashed_plain(id, id.len() as int);
    assert(id.take(id.len() as int) =~= id);
    assert(trim_start_dashes(id) == id);
    if id.len() > 0 {
        assert(id.last() == id[id.len() - 1]);
    }
    assert(trim_end_dashes(id) == id);
}

/// Whether a character is an ASCII capital letter.
pub open spec fn is_ascii_capital(c: char) -> bool {
    0x41 <= (c as u32) && (c as u32) <= 0x5a
}

/// Whether the lowercase mapping of every non-ASCII character of `name` is
/// free of ASCII capital letters (ASCII characters are folded by the
/// library itself).
pub open spec fn lowercases_without_capitals(name: Seq<char>) -> bool {
    forall|i: int|
        0 <= i < name.len() && (#[trigger] name[i] as u32) >= 0x80 ==> forall|j: int|
            0 <= j < char_lowercase(name[i]).len() ==> !is_ascii_capital(
                #[trigger] char_lowercase(name[i])[j],
            )
}

proof fn lemma_lowercase_without_capitals(s: Seq<char>)
    requires
        lowercases_without_capitals(s),
    ensures
        forall|i: int| 0 <= i < lowercase(s).len() ==> !is_ascii_capital(#[trigger] lowercase(s)[i]),
    decreases s.len(),
{
    if s.len() > 0 {
        let p = s.drop_last();
        assert forall|i: int| 0 <= i < p.len() && (#[trigger] p[i] as u32) >= 0x80 implies forall|
            j: int,
        | 0 <= j < char_lowercase(p[i]).len() ==> !is_ascii_capital(
            #[trigger] char_lowercase(p[i])[j],
        ) by {
            assert(p[i] == s[i]);
        }
        lemma_lowercase_without_capitals(p);
        let c = s.last();
        assert(c == s[s.len() - 1]);
        let l = lowercase(s);
        let lp = lowercase(p);
        assert forall|i: int| 0 <= i < l.len() implies !is_ascii_capital(#[trigger] l[i]) by {
            if i < lp.len() {
                assert(l[i] == lp[i]);
            } else {
                assert(l[i] == lowercase_char(c)[i - lp.len()]);
                if (c as u32) >= 0x80 {
                    assert(l[i] == char_lowercase(c)[i - lp.len()]);
                }
            }
        }
    }
}

/// Sanitizing a name gives a plain identifier, which the environment
/// identifier check accepts when it is not empty, and sanitizing it again
/// changes nothing, for every name whose non-ASCII characters lowercase to
/// no ASCII capital letter. Names written in ASCII always qualify.
pub proof fn lemma_sanitize_is_idempotent(name: Seq<char>)
    ensures
        lowercases_without_capitals(name) ==> is_plain_id(sanitized_id(name)),
        lowercases_without_capitals(name) ==> sanitized_id(sanitized_id(name)) == sanitized_id(
            name,
        ),
        (forall|i: int| 0 <= i < name.len() ==> (#[trigger] name[i] as u32) < 0x80)
            ==> lowercases_without_capitals(name),
{
    if lowercases_without_capitals(name) {
        let t = trim(name);
        lemma_trim_keeps_chars(name);
        assert forall|i: int| 0 <= i < t.len() && (#[trigger] t[i] as u32) >= 0x80 implies forall|
            j: int,
        | 0 <= j < char_lowercase(t[i]).len() ==> !is_ascii_capital(
            #[trigger] char_lowercase(t[i])[j],
        ) by {
            assert(name.contains(t[i]));
            let k = choose|k: int| 0 <= k < name.len() && name[k] == t[i];
            assert((name[k] as u32) >= 0x80);
        }
        lemma_lowercase_without_capitals(t);
        let s = lowercase(t);
        lemma_dashed_shape(s);
        lemma_sanitized_id_is_dashed_word(name);
        let (id, last_dash) = dashed(s);
        lemma_trim_dashes_of_dashed(id, last_dash);
        let r = sanitized_id(name);
        assert forall|i: int| 0 <= i < r.len() implies is_ascii_alnum(#[trigger] r[i]) && !(0x41
            <= (r[i] as u32) && (r[i] as u32) <= 0x5a) || r[i] == '-' by {
            assert(r[i] == id[i]);
            if id[i] != '-' {
                let k = choose|k: int| 0 <= k < s.len() && s[k] == id[i];
                assert(!is_ascii_capital(s[k]));
            }
        }
        lemma_plain_id_is_fixed_point(r);
    }
}

proof fn lemma_trim_start_keeps_chars(s: Seq<char>)
    ensures
        forall|i: int| 0 <= i < trim_start(s).len() ==> s.contains(#[trigger] trim_start(s)[i]),
    decreases s.len(),
{
    if s.len() > 0 && crate::text::is_white_space(s[0]) {
        lemma_trim_start_keeps_chars(s.drop_first());
        assert forall|i: int| 0 <= i < trim_start(s).len() implies s.contains(
            #[trigger] trim_start(s)[i],
        ) by {
            let x = trim_start(s)[i];
            assert(trim_start(s) == trim_start(s.drop_first()));
            assert(s.drop_first().contains(trim_start(s.drop_first())[i]));
            let k = choose|k: int| 0 <= k < s.drop_first().len() && s.drop_first()[k] == x;
            assert(s[k + 1] == x);
        }
    } else {
        assert forall|i: int| 0 <= i < trim_start(s).len() implies s.contains(
            #[trigger] trim_start(s)[i],
        ) by {
            assert(s[i] == trim_start(s)[i]);
        }
    }
}

proof fn lemma_trim_end_keeps_chars(s: Seq<char>)
    ensures
        forall|i: int| 0 <= i < crate::text::trim_end(s).len() ==> s.contains(
            #[trigger] crate::text::trim_end(s)[i],
        ),
    decreases s.len(),
{
    if s.len() > 0 && crate::text::is_white_space(s.last()) {
        lemma_trim_end_keeps_chars(s.drop_last());
        assert forall|i: int| 0 <= i < crate::text::trim_end(s).len() implies s.contains(
            #[trigger] crate::text::trim_end(s)[i],
        ) by {
            let x = crate::text::trim_end(s)[i];
            assert(crate::text::trim_end(s) == crate::text::trim_end(s.drop_last()));
            assert(s.drop_last().contains(crate::text::trim_end(s.drop_last())[i]));
            let k = choose|k: int| 0 <= k < s.drop_last().len() && s.drop_last()[k] == x;
            assert(s[k] == x);
        }
    } else {
        assert forall|i: int| 0 <= i < crate::text::trim_end(s).len() implies s.contains(
            #[trigger] crate::text::trim_end(s)[i],
        ) by {
            assert(s[i] == crate::text::trim_end(s)[i]);
        }
    }
}

proof fn lemma_trim_keeps_chars(s: Seq<char>)
    ensures
        forall|i: int| 0 <= i < trim(s).len() ==> s.contains(#[trigger] trim(s)[i]),
{
    lemma_trim_start_keeps_chars(s);
    let a = crate::text::trim_start(s);
    lemma_trim_end_keeps_chars(a);
    assert forall|i: int| 0 <= i < trim(s).len() implies s.contains(#[trigger] trim(s)[i]) by {
        let x = trim(s)[i];
        let k = choose|k: int| 0 <= k < a.len() && a[k] == x;
        assert(s.contains(a[k]));
    }
}

/// `"codeharbor-"` followed by the identifier.
pub open spec fn container_name_of(environment_id: Seq<char>) -> Seq<char> {
    "codeharbor-"@ + environment_id
}

/// The name of the Docker container of an environment.
pub fn container_name(environment_id: &str) -> (r: String)
    ensures
        r@ == container_name_of(environment_id@),
{
    let mut s = copy_str("codeharbor-");
    s.append(environment_id);
    s
}

/// The status shown for an environment, from the status column of
/// `docker ps`: nothing means that the container was never created, and a
/// status that starts with `Up ` means that it runs.
pub open spec fn environment_status(docker_status: Seq<char>) -> Seq<char> {
    let status = trim(docker_status);
    if status.len() == 0 {
        "not_created"@
    } else if status.len() >= 3 && status[0] == 'U' && status[1] == 'p' && status[2] == ' ' {
        "running"@
    } else {
        "stopped"@
    }
}

/// Maps the status column of `docker ps` to the status of an environment.
pub fn environment_status_from_docker_status(status: &str) -> (r: String)
    ensures
        r@ == environment_status(status@),
{
    let v = chars_of(status);
    let (a, b) = trim_bounds(&v);
    if a == b {
        copy_str("not_created")
    } else if b - a >= 3 && v[a] == 'U' && v[a + 1] == 'p' && v[a + 2] == ' ' {
        copy_str("running")
    } else {
        copy_str("stopped")
    }
}

/// The `--filter` argument of `docker ps` that selects exactly the
/// container of an environment.
pub fn container_status_filter(environment_id: &str) -> (r: String)
    ensures
        r@ == "name=^/"@ + container_name_of(environment_id@) + "$"@,
{
    let name = container_name(environment_id);
    let mut s = copy_str("name=^/");
    s.append(name.as_str());
    s.append("$");
    s
}

/// The runtime status of an environment from the output of `docker ps`
/// for its container (a failed `docker ps` counts as no output).
pub fn environment_runtime_status(
    config: &EnvironmentConfig,
    docker_status: Result<String, String>,
) -> (r: EnvironmentRuntimeStatus)
    ensures
        r.environment_id@ == config.id@,
        r.container_name@ == container_name_of(config.id@),
        r.status@ == environment_status(
            match docker_status {
                Ok(s) => s@,
                Err(_) => Seq::empty(),
            },
        ),
{
    let name = container_name(config.id.as_str());
    let status = match &docker_status {
        Ok(s) => environment_status_from_docker_status(s.as_str()),
        Err(_) => environment_status_from_docker_status(""),
    };
    proof {
        reveal_strlit("");
    }
    EnvironmentRuntimeStatus {
        environment_id: copy_str(config.id.as_str()),
        status,
        container_name: name,
    }
}

/// The first IDE port that is tried.
pub const FIRST_IDE_PORT: u16 = 8080;

/// Ports are looked for below this one.
pub const IDE_PORT_END: u16 = 9000;

/// The error given when every port is taken.
pub open spec fn no_free_port_error() -> Seq<char> {
    "Aucun port IDE libre entre 8080 et 8999"@
}

/// What a port search with the availability check `is_available` returned
/// when it started at `start` and skipped `used`: the first port below 9000
/// that is not used and was found available, after every earlier unused
/// port was found unavailable; or an error when there was none.
pub open spec fn port_search_result<F: Fn(u16) -> bool>(
    start: u16,
    used: Seq<u16>,
    is_available: F,
    r: Result<u16, String>,
) -> bool {
    &&& r matches Ok(p) ==> {
        &&& start <= p < IDE_PORT_END
        &&& !used.contains(p)
        &&& is_available.ensures((p,), true)
        &&& forall|q: u16|
            start <= q < p ==> used.contains(q) || #[trigger] is_available.ensures((q,), false)
    }
    &&& r matches Err(e) ==> {
        &&& e@ == no_free_port_error()
        &&& forall|q: u16|
            start <= q < IDE_PORT_END ==> used.contains(q) || #[trigger] is_available.ensures(
                (q,),
                false,
            )
    }
}

/// The first port from `start_port` up to 8999 that is not in `used_ports`
/// and that `is_available` accepts (it is asked only about unused ports).
pub fn select_available_port(
    start_port: u16,
    used_ports: &[u16],
    is_available: impl Fn(u16) -> bool,
) -> (r: Result<u16, String>)
    requires
        forall|p: u16| is_available.requires((p,)),
    ensures
        port_search_result(start_port, used_ports@, is_available, r),
{
    let mut port = start_port;
    while port < IDE_PORT_END
        invariant
            start_port <= port,
            forall|p: u16| is_available.requires((p,)),
            forall|q: u16|
                start_port <= q < port ==> used_ports@.contains(q) || #[trigger] is_available.ensures(
                    (q,),
                    false,
                ),
        decreases IDE_PORT_END - port,
    {
        let mut used = false;
        let mut k: usize = 0;
        while k < used_ports.len()
            invariant
                k <= used_ports@.len(),
                used == (exists|j: int| 0 <= j < k && used_ports@[j] == port),
            decreases used_ports@.len() - k,
        {
            if used_ports[k] == port {
                used = true;
            }
            k = k + 1;
        }
        assert(used == used_ports@.contains(port));
        if !used {
            if is_available(port) {
                return Ok(port);
            }
        }
        port = port + 1;
    }
    Err(copy_str("Aucun port IDE libre entre 8080 et 8999"))
}

/// The IDE ports of the environments, leaving out the one with the given
/// identifier.
pub open spec fn used_ide_ports(configs: Seq<EnvironmentConfig>, exclude: Option<&str>) -> Seq<u16>
    decreases configs.len(),
{
    if configs.len() == 0 {
        Seq::empty()
    } else {
        let rest = used_ide_ports(configs.drop_last(), exclude);
        let c = configs.last();
        if exclude matches Some(x) && c.id@ == x@ {
            rest
        } else {
            rest.push(c.ide_port)
        }
    }
}

/// The first free IDE port from 8080, skipping the ports of the given
/// environments other than `exclude_environment_id`.
pub fn next_available_ide_port(
    configs: &Vec<EnvironmentConfig>,
    exclude_environment_id: Option<&str>,
    is_available: impl Fn(u16) -> bool,
) -> (r: Result<u16, String>)
    requires
        forall|p: u16| is_available.requires((p,)),
    ensures
        port_search_result(
            FIRST_IDE_PORT,
            used_ide_ports(configs@, exclude_environment_id),
            is_available,
            r,
        ),
{
    let mut used: Vec<u16> = Vec::new();
    let mut i: usize = 0;
    assert(configs@.take(0) =~= Seq::<EnvironmentConfig>::empty());
    while i < configs.len()
        invariant
            i <= configs.len(),
            used@ == used_ide_ports(configs@.take(i as int), exclude_environment_id),
        decreases configs.len() - i,
    {
        let c = &configs[i];
        let excluded = match exclude_environment_id {
            Some(x) => {
                let a = chars_of(c.id.as_str());
                let b = chars_of(x);
                crate::text::chars_equal(&a, &b)
            },
            None => false,
        };
        assert(configs@.take(i + 1).drop_last() =~= configs@.take(i as int));
        if !excluded {
            used.push(c.ide_port);
        }
        i = i + 1;
    }
    assert(configs@.take(i as int) =~= configs@);
    select_available_port(FIRST_IDE_PORT, used.as_slice(), is_available)
}

/// Whether the environments are in increasing order of creation time.
pub open spec fn oldest_first(configs: Seq<EnvironmentConfig>) -> bool {
    forall|i: int, j: int| 0 <= i < j < configs.len() ==> configs[i].created_at <= configs[j].created_at
}

/// Whether an environment was created at time `t`.
pub open spec fn created_at_is(t: u64) -> spec_fn(EnvironmentConfig) -> bool {
    |c: EnvironmentConfig| c.created_at == t
}

/// Orders environments by creation time, oldest first; environments
/// created at the same time keep their order.
pub fn sort_environments_by_creation(configs: Vec<EnvironmentConfig>) -> (r: Vec<
    EnvironmentConfig,
>)
    ensures
        oldest_first(r@),
        r@.to_multiset() == configs@.to_multiset(),
        forall|t: u64| #[trigger] r@.filter(created_at_is(t)) == configs@.filter(created_at_is(t)),
{
    let r = stable_sort(configs);
    proof {
        assert forall|i: int, j: int| 0 <= i < j < r@.len() implies r@[i].created_at
            <= r@[j].created_at by {
            assert(!EnvironmentConfig::key_before(r@[j].sort_key(), r@[i].sort_key()));
        }
        assert forall|t: u64| #[trigger] r@.filter(created_at_is(t)) == configs@.filter(
            created_at_is(t),
        ) by {
            assert(created_at_is(t) =~= key_is::<EnvironmentConfig>(t));
        }
    }
    r
}

/// Environments are listed by creation time, oldest first.
impl SortKey for EnvironmentConfig {
    type Key = u64;

    open spec fn sort_key(&self) -> u64 {
        self.created_at
    }

    open spec fn key_before(a: u64, b: u64) -> bool {
        a < b
    }

    proof fn lemma_key_irreflexive(a: u64) {
    }

    proof fn lemma_key_transitive(a: u64, b: u64, c: u64) {
    }

    fn goes_before(&self, other: &Self) -> (r: bool) {
        self.created_at < other.created_at
    }
}

/// The Docker Compose file of an environment: one `linux/amd64` workspace
/// service in the container `codeharbor-<id>`, its IDE published on
/// `127.0.0.1:<ide_port>`, and the project folder mounted on `/workspace`.
pub open spec fn compose_text(config: EnvironmentConfig) -> Seq<char> {
    r#"services:
  workspace:
    platform: linux/amd64

    build:
      context: .
      platforms:
        - linux/amd64

    container_name: "#@ + container_name_of(config.id@) + r#"

    ports:
      - "127.0.0.1:"#@
        + decimal(config.ide_port as nat) + r#":8080"

    volumes:
      - ""#@ + escape_quotes(
        config.host_path@,
    ) + r#":/workspace"
      - vscode-data:/home/dev/.local/share/code-server
      - vscode-config:/home/dev/.config/code-server
      - shell-history:/command-history

    environment:
      PASSWORD: dev
      DEFAULT_WORKSPACE: /workspace
      HISTFILE: /command-history/.bash_history

    working_dir: /workspace
    init: true
    tty: true

volumes:
  vscode-data:
  vscode-config:
  shell-history:
"#@
}

/// Generates the Docker Compose file of an environment.
pub fn compose_yaml(config: &EnvironmentConfig) -> (r: String)
    ensures
        r@ == compose_text(*config),
{
    let mut s = copy_str(r#"services:
  workspace:
    platform: linux/amd64

    build:
      context: .
      platforms:
        - linux/amd64

    container_name: "#);
    let name = container_name(config.id.as_str());
    s.append(name.as_str());
    s.append(r#"

    ports:
      - "127.0.0.1:"#);
    push_decimal(&mut s, config.ide_port as u128);
    s.append(r#":8080"

    volumes:
      - ""#);
    push_escaped_quotes(&mut s, config.host_path.as_str());
    s.append(r#":/workspace"
      - vscode-data:/home/dev/.local/share/code-server
      - vscode-config:/home/dev/.config/code-server
      - shell-history:/command-history

    environment:
      PASSWORD: dev
      DEFAULT_WORKSPACE: /workspace
      HISTFILE: /command-history/.bash_history

    working_dir: /workspace
    init: true
    tty: true

volumes:
  vscode-data:
  vscode-config:
  shell-history:
"#);
    s
}

/// The compose file names the container `container_name` gives, which is
/// the one whose status `container_status_filter` selects.
pub proof fn lemma_compose_names_the_container(config: EnvironmentConfig)
    ensures
        ({
            let name = container_name_of(config.id@);
            let text = compose_text(config);
            exists|i: int|
                0 <= i && i + name.len() <= text.len() && #[trigger] text.subrange(
                    i,
                    i + name.len(),
                ) == name
        }),
{
    let name = container_name_of(config.id@);
    let head = r#"services:
  workspace:
    platform: linux/amd64

    build:
      context: .
      platforms:
        - linux/amd64

    container_name: "#@;
    let text = compose_text(config);
    assert(text.subrange(head.len() as int, (head.len() + name.len()) as int) =~= name);
}

/// Where the project of a new environment comes from.
#[derive(Debug, Clone, PartialEq, Eq)]
pub enum EnvironmentSource {
    /// A folder of this machine, mounted as it is.
    LocalFolder { path: String },
    /// A Git repository, to be cloned into `path` first.
    GitClone { url: String, path: String },
}

pub open spec fn invalid_environment_name_error() -> Seq<char> {
    "Nom d'environnement invalide"@
}

pub open spec fn missing_source_error() -> Seq<char> {
    "Renseigne un dossier local ou une URL Git"@
}

pub open spec fn missing_folder_error(path: Seq<char>) -> Seq<char> {
    "Dossier local introuvable: "@ + path
}

pub open spec fn existing_clone_error(path: Seq<char>) -> Seq<char> {
    "Le dossier de clone existe déjà: "@ + path
}

/// The identifier given to a new environment named `name`: its sanitized
/// form, which must not be empty.
pub fn environment_id_for_name(name: &str) -> (r: Result<String, String>)
    ensures
        r is Ok <==> sanitized_id(name@).len() > 0,
        r matches Ok(id) ==> id@ == sanitized_id(name@),
        r matches Err(e) ==> e@ == invalid_environment_name_error(),
{
    let id = sanitize_environment_id(name);
    if str_is_empty(id.as_str()) {
        Err(copy_str("Nom d'environnement invalide"))
    } else {
        Ok(id)
    }
}

/// Where a repository is cloned: the folder given, or else a folder named
/// after the environment in the projects directory.
pub open spec fn clone_destination(home: Option<&str>, id: Seq<char>, host: Seq<char>) -> Result<
    Seq<char>,
    Seq<char>,
> {
    if host.len() > 0 {
        Ok(host)
    } else {
        match home {
            Some(h) => Ok(path_join(projects_path(h@), id)),
            None => Err(missing_home_error()),
        }
    }
}

/// Decides where the project of a new environment `id` comes from. With no
/// Git URL, the (trimmed) local folder must be given and be a directory;
/// with one, the clone destination must not exist yet. `is_dir` and
/// `path_exists` answer for the file system.
pub fn environment_source<F: Fn(&str) -> bool, G: Fn(&str) -> bool>(
    home: Option<&str>,
    id: &str,
    host_path: &str,
    github_url: &str,
    is_dir: F,
    path_exists: G,
) -> (r: Result<EnvironmentSource, String>)
    requires
        forall|p: &str| is_dir.requires((p,)),
        forall|p: &str| path_exists.requires((p,)),
    ensures
        trim(github_url@).len() == 0 && trim(host_path@).len() == 0 ==> (r matches Err(e)
            && e@ == missing_source_error()),
        trim(github_url@).len() == 0 && trim(host_path@).len() > 0 ==> {
            &&& answered(is_dir, trim(host_path@), r is Ok)
            &&& match r {
                Ok(EnvironmentSource::LocalFolder { path }) => path@ == trim(host_path@),
                Ok(EnvironmentSource::GitClone { .. }) => false,
                Err(e) => e@ == missing_folder_error(trim(host_path@)),
            }
        },
        trim(github_url@).len() > 0 ==> match clone_destination(home, id@, trim(host_path@)) {
            Err(message) => (r matches Err(e) && e@ == message),
            Ok(dest) => {
                &&& answered(path_exists, dest, r is Err)
                &&& match r {
                    Ok(EnvironmentSource::GitClone { url, path }) => url@ == trim(github_url@)
                        && path@ == dest,
                    Ok(EnvironmentSource::LocalFolder { .. }) => false,
                    Err(e) => e@ == existing_clone_error(dest),
                }
            },
        },
{
    let url = trim_str(github_url);
    let host = trim_str(host_path);
    if str_is_empty(url.as_str()) {
        if str_is_empty(host.as_str()) {
            return Err(copy_str("Renseigne un dossier local ou une URL Git"));
        }
        let found = is_dir(host.as_str());
        if found {
            Ok(EnvironmentSource::LocalFolder { path: host })
        } else {
            let mut e = copy_str("Dossier local introuvable: ");
            e.append(host.as_str());
            Err(e)
        }
    } else {
        let dest = if str_is_empty(host.as_str()) {
            match projects_dir(home) {
                Ok(dir) => path_join_str(dir.as_str(), id),
                Err(e) => return Err(e),
            }
        } else {
            host
        };
        let taken = path_exists(dest.as_str());
        if taken {
            let mut e = copy_str("Le dossier de clone existe déjà: ");
            e.append(dest.as_str());
            Err(e)
        } else {
            Ok(EnvironmentSource::GitClone { url, path: dest })
        }
    }
}

/// The configuration of a new environment: the C/C++ profile, the project
/// mounted at `/workspace`, and the name as typed, trimmed.
pub fn new_environment_config(
    id: String,
    name: &str,
    host_path: String,
    ide_port: u16,
    created_at: u64,
) -> (c: EnvironmentConfig)
    ensures
        c.id@ == id@,
        c.name@ == trim(name@),
        c.profile@ == "epitech-cpp"@,
        c.host_path@ == host_path@,
        c.container_path@ == "/workspace"@,
        c.ide_port == ide_port,
        c.created_at == created_at,
{
    EnvironmentConfig {
        id,
        name: trim_str(name),
        profile: copy_str("epitech-cpp"),
        host_path,
        container_path: copy_str("/workspace"),
        ide_port,
        created_at,
    }
}

} // verus!
