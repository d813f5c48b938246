use vstd::prelude::*;

use crate::VatError;
use crate::manifest::Package;
use crate::strutil::{chars_of, string_from_chars, str_eq, find_char, lemma_find_char_first, lemma_find_char_none, vec_range};
use crate::version::{Version, semver_of, parse_semver};

verus! {

/// Which concrete source a reference selects: the newest published
/// version, one exact version, or the live workspace.
#[derive(Debug, Clone, Copy, PartialEq, Eq, Structural)]
pub enum PackageFrom {
    Latest,
    Version(Version),
    Main,
}

/// A parsed package reference, later filled in with the resolved path
/// and manifest.
#[derive(Debug, Clone)]
pub struct PackageResolver {
    pub package_name: String,
    pub from: PackageFrom,
    pub package_path: Option<String>,
    pub package: Option<Package>,
    pub env: Option<Vec<String>>,
}

/// A package name character: ASCII letters, digits, `-` and `_`.
pub open spec fn is_name_char(c: char) -> bool {
    let u = c as u32;
    (48 <= u && u <= 57) || (65 <= u && u <= 90) || (97 <= u && u <= 122) || u == 45 || u == 95
}

/// A selector character: ASCII letters, digits, `.` and `-`.
pub open spec fn is_selector_char(c: char) -> bool {
    let u = c as u32;
    (48 <= u && u <= 57) || (65 <= u && u <= 90) || (97 <= u && u <= 122) || u == 46 || u == 45
}

/// ASCII whitespace.
pub open spec fn is_ascii_space(c: char) -> bool {
    let u = c as u32;
    u == 32 || u == 9 || u == 10 || u == 12 || u == 13
}

pub open spec fn all_name_chars(s: Seq<char>) -> bool {
    forall|i: int| 0 <= i < s.len() ==> is_name_char(s[i])
}

pub open spec fn all_selector_chars(s: Seq<char>) -> bool {
    forall|i: int| 0 <= i < s.len() ==> is_selector_char(s[i])
}

/// `s` cut at every comma; always one part more than there are commas.
pub open spec fn split_commas(s: Seq<char>) -> Seq<Seq<char>>
    decreases s.len(),
{
    match find_char(s, ',') {
        Some(i) => if 0 <= i < s.len() {
            seq![s.take(i)] + split_commas(s.skip(i + 1))
        } else {
            seq![s]
        },
        None => seq![s],
    }
}

/// The comma-separated parts of `s`, each without surrounding
/// whitespace.
pub open spec fn trimmed_parts(s: Seq<char>) -> Seq<Seq<char>> {
    split_commas(s).map_values(|p: Seq<char>| trim_spec(p))
}

/// `s` without leading and trailing ASCII whitespace.
pub open spec fn trim_spec(s: Seq<char>) -> Seq<char>
    decreases s.len(),
{
    if s.len() == 0 {
        s
    } else if is_ascii_space(s[0]) {
        trim_spec(s.skip(1))
    } else if is_ascii_space(s[s.len() - 1]) {
        trim_spec(s.take(s.len() - 1))
    } else {
        s
    }
}

proof fn lemma_trim_skip_front(s: Seq<char>, i: int)
    requires
        0 <= i <= s.len(),
        forall|j: int| 0 <= j < i ==> is_ascii_space(s[j]),
    ensures
        trim_spec(s) == trim_spec(s.skip(i)),
    decreases i,
{
    if i == 0 {
        assert(s.skip(0) =~= s);
    } else {
        lemma_trim_skip_front(s.skip(1), i - 1);
        assert(s.skip(1).skip(i - 1) =~= s.skip(i));
    }
}

proof fn lemma_trim_take_back(s: Seq<char>, e: int)
    requires
        0 <= e <= s.len(),
        s.len() == 0 || !is_ascii_space(s[0]),
        forall|j: int| e <= j < s.len() ==> is_ascii_space(s[j]),
    ensures
        trim_spec(s) == trim_spec(s.take(e)),
    decreases s.len() - e,
{
    if e == s.len() {
        assert(s.take(e) =~= s);
    } else {
        assert(s.len() > 0);
        assert(is_ascii_space(s[s.len() - 1]));
        lemma_trim_take_back(s.take(s.len() - 1), e);
        assert(s.take(s.len() - 1).take(e) =~= s.take(e));
    }
}

/// What a reference string denotes, where it parses.
pub ghost struct RefShape {
    pub name: Seq<char>,
    pub from: PackageFrom,
    pub env: Option<Seq<Seq<char>>>,
}

/// The selector's meaning: the literal `latest`, an exact semantic
/// version, or — where neither — a fallback to the live workspace.
pub open spec fn selector_from(sel: Seq<char>) -> PackageFrom {
    if sel == "latest"@ {
        PackageFrom::Latest
    } else {
        match semver_of(sel) {
            Some(t) => PackageFrom::Version(Version { major: t.0, minor: t.1, patch: t.2 }),
            None => PackageFrom::Main,
        }
    }
}

/// Parses `NAME[/SELECTOR]`, the part before any environment list.
pub open spec fn parse_pkg_part(pkg: Seq<char>, env: Option<Seq<Seq<char>>>) -> Option<RefShape> {
    match find_char(pkg, '/') {
        Some(i) => {
            let name = pkg.take(i);
            let sel = pkg.skip(i + 1);
            if name.len() > 0 && all_name_chars(name) && sel.len() > 0 && all_selector_chars(sel) {
                Some(RefShape { name, from: selector_from(sel), env })
            } else {
                None
            }
        },
        None => {
            if pkg.len() > 0 && all_name_chars(pkg) {
                Some(RefShape { name: pkg, from: PackageFrom::Latest, env })
            } else {
                None
            }
        },
    }
}

/// Parses a whole reference `NAME[/SELECTOR][[ENV(,ENV)*]]`. A trailing
/// bracket pair carries the environment list; a closing bracket before
/// its opening one, or a lone bracket, fails (brackets are not name
/// characters).
pub open spec fn parse_reference_spec(s: Seq<char>) -> Option<RefShape> {
    let bo = find_char(s, '[');
    let bc = find_char(s, ']');
    if bo is Some && bc is Some && bo->0 < bc->0 && 0 <= bo->0 && bc->0 < s.len() {
        let envs = trimmed_parts(s.subrange(bo->0 + 1, bc->0));
        parse_pkg_part(s.take(bo->0), Some(envs))
    } else {
        parse_pkg_part(s, None)
    }
}

fn is_name_char_exec(c: char) -> (r: bool)
    ensures
        r == is_name_char(c),
{
    let u = c as u32;
    (48 <= u && u <= 57) || (65 <= u && u <= 90) || (97 <= u && u <= 122) || u == 45 || u == 95
}

fn is_selector_char_exec(c: char) -> (r: bool)
    ensures
        r == is_selector_char(c),
{
    let u = c as u32;
    (48 <= u && u <= 57) || (65 <= u && u <= 90) || (97 <= u && u <= 122) || u == 46 || u == 45
}

fn is_ascii_space_exec(c: char) -> (r: bool)
    ensures
        r == is_ascii_space(c),
{
    let u = c as u32;
    u == 32 || u == 9 || u == 10 || u == 12 || u == 13
}

/// The first occurrence of `c` in `v` at or after `from`.
fn find_char_from(v: &Vec<char>, from: usize, c: char) -> (r: Option<usize>)
    requires
        from <= v@.len(),
    ensures
        match r {
            Some(i) => from <= i < v@.len() && v@[i as int] == c && (forall|j: int|
                from <= j < i ==> v@[j] != c),
            None => forall|j: int| from <= j < v@.len() ==> v@[j] != c,
        },
{
    let mut i: usize = from;
    while i < v.len()
        invariant
            from <= i <= v@.len(),
            forall|j: int| from <= j < i ==> v@[j] != c,
        decreases v@.len() - i,
    {
        if v[i] == c {
            return Some(i);
        }
        i = i + 1;
    }
    None
}

fn all_name_chars_exec(v: &Vec<char>) -> (r: bool)
    ensures
        r == all_name_chars(v@),
{
    let mut i: usize = 0;
    while i < v.len()
        invariant
            i <= v@.len(),
            forall|j: int| 0 <= j < i ==> is_name_char(v@[j]),
        decreases v@.len() - i,
    {
        if !is_name_char_exec(v[i]) {
            return false;
        }
        i = i + 1;
    }
    true
}

fn all_selector_chars_exec(v: &Vec<char>) -> (r: bool)
    ensures
        r == all_selector_chars(v@),
{
    let mut i: usize = 0;
    while i < v.len()
        invariant
            i <= v@.len(),
            forall|j: int| 0 <= j < i ==> is_selector_char(v@[j]),
        decreases v@.len() - i,
    {
        if !is_selector_char_exec(v[i]) {
            return false;
        }
        i = i + 1;
    }
    true
}

/// The slice of `v` from `a` to `b`, without surrounding whitespace,
/// as a string.
#[verifier::rlimit(50)]
fn trimmed_string(v: &Vec<char>, a: usize, b: usize) -> (r: String)
    requires
        a <= b <= v@.len(),
    ensures
        r@ == trim_spec(v@.subrange(a as int, b as int)),
{
    let ghost part = v@.subrange(a as int, b as int);
    let mut s: usize = a;
    while s < b && is_ascii_space_exec(v[s])
        invariant
            a <= s <= b <= v@.len(),
            forall|j: int| a <= j < s ==> is_ascii_space(v@[j]),
        decreases b - s,
    {
        s = s + 1;
    }
    proof {
        assert forall|j: int| 0 <= j < s - a implies is_ascii_space(part[j]) by {
            assert(part[j] == v@[a + j]);
        }
        lemma_trim_skip_front(part, s - a);
        assert(part.skip(s - a) =~= v@.subrange(s as int, b as int));
    }
    let ghost mid = v@.subrange(s as int, b as int);
    let mut e: usize = b;
    while e > s && is_ascii_space_exec(v[e - 1])
        invariant
            s <= e <= b <= v@.len(),
            forall|j: int| e <= j < b ==> is_ascii_space(v@[j]),
        decreases e,
    {
        e = e - 1;
    }
    proof {
        assert(mid.len() == 0 || !is_ascii_space(mid[0]));
        assert forall|j: int| e - s <= j < mid.len() implies is_ascii_space(mid[j]) by {
            assert(mid[j] == v@[s + j]);
        }
        lemma_trim_take_back(mid, e - s);
        assert(mid.take(e - s) =~= v@.subrange(s as int, e as int));
    }
    let out = vec_range(v, s, e);
    let r = string_from_chars(&out);
    proof {
        assert(trim_spec(v@.subrange(s as int, e as int)) =~= v@.subrange(s as int, e as int));
    }
    r
}

impl PackageResolver {
    pub fn new(package_name: String, from: PackageFrom) -> (r: PackageResolver)
        ensures
            r.package_name == package_name,
            r.from == from,
            r.package_path is None,
            r.package is None,
            r.env is None,
    {
        PackageResolver { package_name, from, package_path: None, package: None, env: None }
    }

    pub fn from_package(
        package: Package,
        package_path: String,
        from: PackageFrom,
        env: Option<Vec<String>>,
    ) -> (r: PackageResolver)
        ensures
            r.package_name@ == package.package_info.name@,
            r.from == from,
            r.package_path == Some(package_path),
            r.package == Some(package),
            r.env == env,
    {
        let package_name = package.package_info.name.clone();
        proof {
            assert(package_name@ == package.package_info.name@);
        }
        PackageResolver {
            package_name,
            from,
            package_path: Some(package_path),
            package: Some(package),
            env,
        }
    }

    /// Parses a reference string `NAME[/SELECTOR][[ENV(,ENV)*]]`.
    ///
    /// The name must be nonempty over `[A-Za-z0-9_-]`; a selector reads
    /// as `latest`, an exact semantic version, or falls back to the
    /// workspace; a trailing bracket pair lists environment names.
    pub fn parse_package_string(package_string: &str) -> (r: Result<PackageResolver, VatError>)
        ensures
            match parse_reference_spec(package_string@) {
                Some(sh) => r matches Ok(pr) && pr.package_name@ == sh.name && pr.from == sh.from
                    && (match sh.env {
                    Some(sv) => pr.env matches Some(v) && v.deep_view() == sv,
                    None => pr.env is None,
                }) && pr.package_path is None && pr.package is None,
                None => r == Err::<PackageResolver, VatError>(VatError::ReferenceParseError),
            },
    {
        let cs = chars_of(package_string);
        let bo = find_char_from(&cs, 0, '[');
        let bc = find_char_from(&cs, 0, ']');
        proof {
            match bo {
                Some(i) => lemma_find_char_first(cs@, '[', i as int),
                None => lemma_find_char_none(cs@, '['),
            }
            match bc {
                Some(i) => lemma_find_char_first(cs@, ']', i as int),
                None => lemma_find_char_none(cs@, ']'),
            }
        }
        let mut env_out: Option<Vec<String>> = None;
        let mut pkg_end: usize = cs.len();
        if let (Some(b0), Some(b1)) = (bo, bc) {
            if b0 < b1 {
                env_out = Some(split_env_list(&cs, b0 + 1, b1));
                pkg_end = b0;
            }
        }
        let pkg = vec_range(&cs, 0, pkg_end);
        proof {
            if env_out is Some {
                assert(pkg@ =~= cs@.take(bo->0 as int));
            } else {
                assert(pkg@ =~= cs@);
            }
        }
        let slash = find_char_from(&pkg, 0, '/');
        proof {
            match slash {
                Some(i) => lemma_find_char_first(pkg@, '/', i as int),
                None => lemma_find_char_none(pkg@, '/'),
            }
        }
        match slash {
            Some(i) => {
                let name = vec_range(&pkg, 0, i);
                let sel = vec_range(&pkg, i + 1, pkg.len());
                proof {
                    assert(name@ =~= pkg@.take(i as int));
                    assert(sel@ =~= pkg@.skip(i as int + 1));
                }
                if name.len() == 0 || !all_name_chars_exec(&name) || sel.len() == 0
                    || !all_selector_chars_exec(&sel) {
                    return Err(VatError::ReferenceParseError);
                }
                let sel_str = string_from_chars(&sel);
                let from = if str_eq(sel_str.as_str(), "latest") {
                    PackageFrom::Latest
                } else {
                    match parse_semver(sel_str.as_str()) {
                        Some(v) => PackageFrom::Version(v),
                        None => PackageFrom::Main,
                    }
                };
                Ok(PackageResolver {
                    package_name: string_from_chars(&name),
                    from,
                    package_path: None,
                    package: None,
                    env: env_out,
                })
            },
            None => {
                if pkg.len() == 0 || !all_name_chars_exec(&pkg) {
                    return Err(VatError::ReferenceParseError);
                }
                Ok(PackageResolver {
                    package_name: string_from_chars(&pkg),
                    from: PackageFrom::Latest,
                    package_path: None,
                    package: None,
                    env: env_out,
                })
            },
        }
    }
}

/// Splits `v[a..b]` at commas and trims each part.
fn split_env_list(v: &Vec<char>, a: usize, b: usize) -> (r: Vec<String>)
    requires
        a <= b <= v@.len(),
    ensures
        r.deep_view() == trimmed_parts(v@.subrange(a as int, b as int)),
{
    let ghost whole = v@.subrange(a as int, b as int);
    let ghost target = trimmed_parts(whole);
    let mut out: Vec<String> = Vec::new();
    let mut pos: usize = a;
    loop
        invariant
            a <= pos <= b <= v@.len(),
            target == trimmed_parts(v@.subrange(a as int, b as int)),
            target == out.deep_view() + trimmed_parts(v@.subrange(pos as int, b as int)),
        decreases b - pos,
    {
        let ghost rest = v@.subrange(pos as int, b as int);
        let mut k: usize = pos;
        while k < b && v[k] != ','
            invariant
                pos <= k <= b <= v@.len(),
                forall|j: int| pos <= j < k ==> v@[j] != ',',
            decreases b - k,
        {
            k = k + 1;
        }
        let ghost prev_dv = out.deep_view();
        let part = trimmed_string(v, pos, k);
        let ghost part_view = part@;
        out.push(part);
        proof {
            assert(out.deep_view() =~= prev_dv.push(part_view));
        }
        if k < b {
            proof {
                assert(rest[k - pos] == ',');
                assert forall|j: int| 0 <= j < k - pos implies rest[j] != ',' by {
                    assert(rest[j] == v@[pos + j]);
                }
                lemma_find_char_first(rest, ',', k - pos);
                assert(rest.take(k - pos) =~= v@.subrange(pos as int, k as int));
                assert(rest.skip(k - pos + 1) =~= v@.subrange(k as int + 1, b as int));
                assert(split_commas(rest) == seq![rest.take(k - pos)] + split_commas(
                    rest.skip(k - pos + 1),
                ));
                assert(trimmed_parts(rest) =~= seq![trim_spec(rest.take(k - pos))]
                    + trimmed_parts(rest.skip(k - pos + 1)));
                assert(part_view == trim_spec(rest.take(k - pos)));
                assert(out.deep_view() + trimmed_parts(v@.subrange(k as int + 1, b as int))
                    =~= target);
            }
            pos = k + 1;
        } else {
            proof {
                assert forall|j: int| 0 <= j < rest.len() implies rest[j] != ',' by {
                    assert(rest[j] == v@[pos + j]);
                }
                lemma_find_char_none(rest, ',');
                assert(split_commas(rest) == seq![rest]);
                assert(trimmed_parts(rest) =~= seq![trim_spec(rest)]);
                assert(rest =~= v@.subrange(pos as int, k as int));
                assert(out.deep_view() =~= target);
            }
            return out;
        }
    }
}

} // verus!
