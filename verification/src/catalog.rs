use vstd::prelude::*;

use crate::VatError;
use crate::strutil::{chars_of, string_from_chars, vec_range};
use crate::vat_repository::{RepoPackage, RepoPackageInfo, VatRepo};
use crate::version::{Version, dec_rep, digit_char, push_dec_chars};

verus! {

// ---------------------------------------------------------------------
// The catalog document: a plain character framing of the catalog, so
// that what is written can be read back, and proved to read back.
//
//   catalog  := count pkg*           count   := digits ','
//   pkg      := str entry            str     := digits ':' chars
//   entry    := str opt count ver*   opt     := 'n' | 's' str
//   ver      := num num num info     num     := digits ','
//   info     := inum opt             inum    := ['-'] digits ','
// ---------------------------------------------------------------------
/// What the document records of one version: the timestamp and the
/// optional comment, as plain values.
pub ghost struct InfoShape {
    pub published_on: i64,
    pub version_comment: Option<Seq<char>>,
}

/// One package's record: versions, workspace path, source URL.
pub ghost struct EntryShape {
    pub versions: Seq<(Version, InfoShape)>,
    pub main_branch_path: Seq<char>,
    pub git_url: Option<Seq<char>>,
}

/// The whole catalog, as plain values.
pub ghost struct CatalogShape {
    pub packages: Seq<(Seq<char>, EntryShape)>,
}

impl View for RepoPackageInfo {
    type V = InfoShape;

    open spec fn view(&self) -> InfoShape {
        InfoShape {
            published_on: self.published_on,
            version_comment: match self.version_comment {
                Some(c) => Some(c@),
                None => None,
            },
        }
    }
}

impl View for RepoPackage {
    type V = EntryShape;

    open spec fn view(&self) -> EntryShape {
        EntryShape {
            versions: self.versions@.map_values(|p: (Version, RepoPackageInfo)| (p.0, p.1@)),
            main_branch_path: self.main_branch_path@,
            git_url: match self.git_url {
                Some(u) => Some(u@),
                None => None,
            },
        }
    }
}

impl View for VatRepo {
    type V = CatalogShape;

    open spec fn view(&self) -> CatalogShape {
        CatalogShape {
            packages: self.packages@.map_values(|p: (String, RepoPackage)| (p.0@, p.1@)),
        }
    }
}

/// Every count and string length fits the document's number width.
pub open spec fn info_bounded(i: InfoShape) -> bool {
    match i.version_comment {
        Some(c) => c.len() <= u64::MAX,
        None => true,
    }
}

pub open spec fn entry_bounded(e: EntryShape) -> bool {
    &&& e.versions.len() <= u64::MAX
    &&& e.main_branch_path.len() <= u64::MAX
    &&& match e.git_url {
        Some(u) => u.len() <= u64::MAX,
        None => true,
    }
    &&& forall|i: int| 0 <= i < e.versions.len() ==> info_bounded(#[trigger] e.versions[i].1)
}

pub open spec fn catalog_bounded(c: CatalogShape) -> bool {
    &&& c.packages.len() <= u64::MAX
    &&& forall|i: int|
        0 <= i < c.packages.len() ==> (#[trigger] c.packages[i].0).len() <= u64::MAX
            && entry_bounded(c.packages[i].1)
}

// ------------------------------ rendering ------------------------------
pub open spec fn enc_num(n: int) -> Seq<char> {
    dec_rep(n) + ","@
}

pub open spec fn enc_inum(n: i64) -> Seq<char> {
    if n >= 0 {
        enc_num(n as int)
    } else {
        "-"@ + enc_num(-(n as int))
    }
}

pub open spec fn enc_str(s: Seq<char>) -> Seq<char> {
    dec_rep(s.len() as int) + ":"@ + s
}

pub open spec fn enc_opt(o: Option<Seq<char>>) -> Seq<char> {
    match o {
        None => "n"@,
        Some(s) => "s"@ + enc_str(s),
    }
}

pub open spec fn enc_info(i: InfoShape) -> Seq<char> {
    enc_inum(i.published_on) + enc_opt(i.version_comment)
}

pub open spec fn enc_ver(p: (Version, InfoShape)) -> Seq<char> {
    enc_num(p.0.major as int) + enc_num(p.0.minor as int) + enc_num(p.0.patch as int) + enc_info(
        p.1,
    )
}

pub open spec fn enc_vers(s: Seq<(Version, InfoShape)>) -> Seq<char>
    decreases s.len(),
{
    if s.len() == 0 {
        Seq::empty()
    } else {
        enc_ver(s[0]) + enc_vers(s.skip(1))
    }
}

pub open spec fn enc_entry(e: EntryShape) -> Seq<char> {
    enc_str(e.main_branch_path) + enc_opt(e.git_url) + enc_num(e.versions.len() as int) + enc_vers(
        e.versions,
    )
}

pub open spec fn enc_pkgs(s: Seq<(Seq<char>, EntryShape)>) -> Seq<char>
    decreases s.len(),
{
    if s.len() == 0 {
        Seq::empty()
    } else {
        enc_str(s[0].0) + enc_entry(s[0].1) + enc_pkgs(s.skip(1))
    }
}

pub open spec fn enc_catalog(c: CatalogShape) -> Seq<char> {
    enc_num(c.packages.len() as int) + enc_pkgs(c.packages)
}

// ------------------------------ parsing ------------------------------
pub open spec fn is_digit(c: char) -> bool {
    48 <= (c as u32) && (c as u32) <= 57
}

pub open spec fn digit_val(c: char) -> int {
    (c as u32) - 48
}

/// How many digits stand at the head of `s`.
pub open spec fn digit_prefix_len(s: Seq<char>) -> int
    decreases s.len(),
{
    if s.len() == 0 || !is_digit(s[0]) {
        0
    } else {
        1 + digit_prefix_len(s.skip(1))
    }
}

/// The number that a digit sequence denotes.
pub open spec fn digits_val(ds: Seq<char>) -> int
    decreases ds.len(),
{
    if ds.len() == 0 {
        0
    } else {
        digits_val(ds.drop_last()) * 10 + digit_val(ds.last())
    }
}

/// Reads the maximal digit prefix as a number.
pub open spec fn parse_num(s: Seq<char>) -> Option<(int, Seq<char>)> {
    let k = digit_prefix_len(s);
    if k == 0 {
        None
    } else {
        Some((digits_val(s.take(k)), s.skip(k)))
    }
}

pub open spec fn expect(s: Seq<char>, c: char) -> Option<Seq<char>> {
    if s.len() > 0 && s[0] == c {
        Some(s.skip(1))
    } else {
        None
    }
}

/// `digits ','`, bounded by the number width.
pub open spec fn parse_count(s: Seq<char>) -> Option<(u64, Seq<char>)> {
    match parse_num(s) {
        Some((v, rest)) => if v <= u64::MAX {
            match expect(rest, ',') {
                Some(r2) => Some((v as u64, r2)),
                None => None,
            }
        } else {
            None
        },
        None => None,
    }
}

/// `['-'] digits ','`, within the signed width.
pub open spec fn parse_inum(s: Seq<char>) -> Option<(i64, Seq<char>)> {
    if s.len() > 0 && s[0] == '-' {
        match parse_num(s.skip(1)) {
            Some((v, rest)) => if v <= 0x8000000000000000 {
                match expect(rest, ',') {
                    Some(r2) => Some(((-v) as i64, r2)),
                    None => None,
                }
            } else {
                None
            },
            None => None,
        }
    } else {
        match parse_num(s) {
            Some((v, rest)) => if v <= i64::MAX {
                match expect(rest, ',') {
                    Some(r2) => Some((v as i64, r2)),
                    None => None,
                }
            } else {
                None
            },
            None => None,
        }
    }
}

/// `digits ':' chars`: a length-framed string.
pub open spec fn parse_str(s: Seq<char>) -> Option<(Seq<char>, Seq<char>)> {
    match parse_num(s) {
        Some((v, rest)) => if v <= u64::MAX {
            match expect(rest, ':') {
                Some(r2) => if v <= r2.len() {
                    Some((r2.take(v), r2.skip(v)))
                } else {
                    None
                },
                None => None,
            }
        } else {
            None
        },
        None => None,
    }
}

pub open spec fn parse_opt(s: Seq<char>) -> Option<(Option<Seq<char>>, Seq<char>)> {
    if s.len() > 0 && s[0] == 'n' {
        Some((None, s.skip(1)))
    } else if s.len() > 0 && s[0] == 's' {
        match parse_str(s.skip(1)) {
            Some((v, rest)) => Some((Some(v), rest)),
            None => None,
        }
    } else {
        None
    }
}

pub open spec fn parse_info(s: Seq<char>) -> Option<(InfoShape, Seq<char>)> {
    match parse_inum(s) {
        Some((t, r1)) => match parse_opt(r1) {
            Some((c, r2)) => Some((InfoShape { published_on: t, version_comment: c }, r2)),
            None => None,
        },
        None => None,
    }
}

pub open spec fn parse_ver(s: Seq<char>) -> Option<((Version, InfoShape), Seq<char>)> {
    match parse_count(s) {
        Some((major, r1)) => match parse_count(r1) {
            Some((minor, r2)) => match parse_count(r2) {
                Some((patch, r3)) => match parse_info(r3) {
                    Some((info, r4)) => Some(((Version { major, minor, patch }, info), r4)),
                    None => None,
                },
                None => None,
            },
            None => None,
        },
        None => None,
    }
}

pub open spec fn parse_vers(s: Seq<char>, k: int) -> Option<(Seq<(Version, InfoShape)>, Seq<char>)>
    decreases k,
{
    if k <= 0 {
        Some((Seq::empty(), s))
    } else {
        match parse_ver(s) {
            Some((p, r1)) => match parse_vers(r1, k - 1) {
                Some((rest_list, r2)) => Some((seq![p] + rest_list, r2)),
                None => None,
            },
            None => None,
        }
    }
}

pub open spec fn parse_entry(s: Seq<char>) -> Option<(EntryShape, Seq<char>)> {
    match parse_str(s) {
        Some((path, r1)) => match parse_opt(r1) {
            Some((url, r2)) => match parse_count(r2) {
                Some((k, r3)) => match parse_vers(r3, k as int) {
                    Some((vers, r4)) => Some(
                        (
                            EntryShape {
                                versions: vers,
                                main_branch_path: path,
                                git_url: url,
                            },
                            r4,
                        ),
                    ),
                    None => None,
                },
                None => None,
            },
            None => None,
        },
        None => None,
    }
}

pub open spec fn parse_pkgs(s: Seq<char>, k: int) -> Option<
    (Seq<(Seq<char>, EntryShape)>, Seq<char>),
>
    decreases k,
{
    if k <= 0 {
        Some((Seq::empty(), s))
    } else {
        match parse_str(s) {
            Some((name, r1)) => match parse_entry(r1) {
                Some((e, r2)) => match parse_pkgs(r2, k - 1) {
                    Some((rest_list, r3)) => Some((seq![(name, e)] + rest_list, r3)),
                    None => None,
                },
                None => None,
            },
            None => None,
        }
    }
}

/// The whole document; it must be consumed to its end.
pub open spec fn parse_catalog_shape(s: Seq<char>) -> Option<CatalogShape> {
    match parse_count(s) {
        Some((k, r1)) => match parse_pkgs(r1, k as int) {
            Some((pkgs, r2)) => if r2.len() == 0 {
                Some(CatalogShape { packages: pkgs })
            } else {
                None
            },
            None => None,
        },
        None => None,
    }
}

// ------------------------- reading back what was written -------------------------
proof fn lemma_dec_rep_digits(n: int)
    requires
        n >= 0,
    ensures
        dec_rep(n).len() >= 1,
        forall|i: int| 0 <= i < dec_rep(n).len() ==> is_digit(#[trigger] dec_rep(n)[i]),
    decreases n,
{
    if n < 10 {
        assert(is_digit(digit_char(n)));
    } else {
        lemma_dec_rep_digits(n / 10);
        assert(is_digit(digit_char(n % 10)));
        assert forall|i: int| 0 <= i < dec_rep(n).len() implies is_digit(
            #[trigger] dec_rep(n)[i],
        ) by {
            if i < dec_rep(n / 10).len() {
                assert(dec_rep(n)[i] == dec_rep(n / 10)[i]);
            } else {
                assert(dec_rep(n)[i] == digit_char(n % 10));
            }
        }
    }
}

proof fn lemma_dec_rep_val(n: int)
    requires
        n >= 0,
    ensures
        digits_val(dec_rep(n)) == n,
    decreases n,
{
    if n < 10 {
        let ds = dec_rep(n);
        assert(ds.drop_last() =~= Seq::<char>::empty());
        assert(ds.last() == digit_char(n));
        assert(digits_val(Seq::<char>::empty()) == 0);
        assert(digits_val(ds) == digits_val(ds.drop_last()) * 10 + digit_val(ds.last()));
        assert(digit_val(digit_char(n)) == n);
    } else {
        lemma_dec_rep_val(n / 10);
        let ds = dec_rep(n);
        assert(ds.drop_last() =~= dec_rep(n / 10));
        assert(ds.last() == digit_char(n % 10));
        assert(digits_val(ds) == digits_val(ds.drop_last()) * 10 + digit_val(ds.last()));
        assert(digit_val(digit_char(n % 10)) == n % 10);
        assert(digits_val(ds) == (n / 10) * 10 + n % 10);
    }
}

proof fn lemma_digit_prefix_exact(s: Seq<char>, k: int)
    requires
        0 <= k <= s.len(),
        forall|j: int| 0 <= j < k ==> is_digit(s[j]),
        k == s.len() || !is_digit(s[k]),
    ensures
        digit_prefix_len(s) == k,
    decreases k,
{
    if k == 0 {
    } else {
        assert(is_digit(s[0]));
        lemma_digit_prefix_exact(s.skip(1), k - 1);
        assert forall|j: int| 0 <= j < k - 1 implies is_digit(s.skip(1)[j]) by {
            assert(s.skip(1)[j] == s[j + 1]);
        }
    }
}

proof fn lemma_parse_num_of(ds: Seq<char>, rest: Seq<char>)
    requires
        ds.len() > 0,
        forall|j: int| 0 <= j < ds.len() ==> is_digit(ds[j]),
        rest.len() == 0 || !is_digit(rest[0]),
    ensures
        parse_num(ds + rest) == Some((digits_val(ds), rest)),
{
    let s = ds + rest;
    let k = ds.len() as int;
    assert forall|j: int| 0 <= j < k implies is_digit(s[j]) by {
        assert(s[j] == ds[j]);
    }
    if k < s.len() {
        assert(s[k] == rest[0]);
    }
    lemma_digit_prefix_exact(s, k);
    assert(s.take(k) =~= ds);
    assert(s.skip(k) =~= rest);
}

proof fn lemma_parse_count_of(n: u64, rest: Seq<char>)
    ensures
        parse_count(enc_num(n as int) + rest) == Some((n, rest)),
{
    let ds = dec_rep(n as int);
    lemma_dec_rep_digits(n as int);
    lemma_dec_rep_val(n as int);
    assert(enc_num(n as int) + rest =~= ds + (","@ + rest));
    reveal_strlit(",");
    assert((","@ + rest)[0] == ',');
    assert(!is_digit(','));
    lemma_parse_num_of(ds, ","@ + rest);
    assert((","@ + rest).skip(1) =~= rest);
}

proof fn lemma_parse_inum_of(n: i64, rest: Seq<char>)
    ensures
        parse_inum(enc_inum(n) + rest) == Some((n, rest)),
{
    reveal_strlit(",");
    reveal_strlit("-");
    if n >= 0 {
        let ds = dec_rep(n as int);
        lemma_dec_rep_digits(n as int);
        lemma_dec_rep_val(n as int);
        let s = enc_inum(n) + rest;
        assert(s =~= ds + (","@ + rest));
        assert(s[0] == ds[0]);
        assert(is_digit(ds[0]));
        assert(s[0] != '-');
        assert((","@ + rest)[0] == ',');
        assert(!is_digit(','));
        lemma_parse_num_of(ds, ","@ + rest);
        assert((","@ + rest).skip(1) =~= rest);
    } else {
        let m = -(n as int);
        let ds = dec_rep(m);
        lemma_dec_rep_digits(m);
        lemma_dec_rep_val(m);
        let s = enc_inum(n) + rest;
        assert(s =~= "-"@ + (ds + (","@ + rest)));
        assert(s[0] == '-');
        assert(s.skip(1) =~= ds + (","@ + rest));
        assert((","@ + rest)[0] == ',');
        assert(!is_digit(','));
        lemma_parse_num_of(ds, ","@ + rest);
        assert(m <= 0x8000000000000000);
        assert((","@ + rest).skip(1) =~= rest);
        assert((-m) as i64 == n);
    }
}

proof fn lemma_parse_str_of(v: Seq<char>, rest: Seq<char>)
    requires
        v.len() <= u64::MAX,
    ensures
        parse_str(enc_str(v) + rest) == Some((v, rest)),
{
    let ds = dec_rep(v.len() as int);
    lemma_dec_rep_digits(v.len() as int);
    lemma_dec_rep_val(v.len() as int);
    let tail = ":"@ + (v + rest);
    assert(enc_str(v) + rest =~= ds + tail);
    reveal_strlit(":");
    assert(tail[0] == ':');
    assert(!is_digit(':'));
    lemma_parse_num_of(ds, tail);
    assert(tail.skip(1) =~= v + rest);
    assert((v + rest).take(v.len() as int) =~= v);
    assert((v + rest).skip(v.len() as int) =~= rest);
}

proof fn lemma_parse_opt_of(o: Option<Seq<char>>, rest: Seq<char>)
    requires
        match o {
            Some(v) => v.len() <= u64::MAX,
            None => true,
        },
    ensures
        parse_opt(enc_opt(o) + rest) == Some((o, rest)),
{
    reveal_strlit("n");
    reveal_strlit("s");
    match o {
        None => {
            let s = enc_opt(o) + rest;
            assert(s[0] == 'n');
            assert(s.skip(1) =~= rest);
        },
        Some(v) => {
            let s = enc_opt(o) + rest;
            assert(s =~= "s"@ + (enc_str(v) + rest));
            assert(s[0] == 's');
            assert(s[0] != 'n');
            assert(s.skip(1) =~= enc_str(v) + rest);
            lemma_parse_str_of(v, rest);
        },
    }
}

proof fn lemma_parse_info_of(i: InfoShape, rest: Seq<char>)
    requires
        info_bounded(i),
    ensures
        parse_info(enc_info(i) + rest) == Some((i, rest)),
{
    assert(enc_info(i) + rest =~= enc_inum(i.published_on) + (enc_opt(i.version_comment) + rest));
    lemma_parse_inum_of(i.published_on, enc_opt(i.version_comment) + rest);
    lemma_parse_opt_of(i.version_comment, rest);
}

proof fn lemma_parse_ver_of(p: (Version, InfoShape), rest: Seq<char>)
    requires
        info_bounded(p.1),
    ensures
        parse_ver(enc_ver(p) + rest) == Some((p, rest)),
{
    let r3 = enc_info(p.1) + rest;
    let r2 = enc_num(p.0.patch as int) + r3;
    let r1 = enc_num(p.0.minor as int) + r2;
    assert(enc_ver(p) + rest =~= enc_num(p.0.major as int) + r1);
    lemma_parse_count_of(p.0.major, r1);
    assert(r1 =~= enc_num(p.0.minor as int) + r2);
    lemma_parse_count_of(p.0.minor, r2);
    lemma_parse_count_of(p.0.patch, r3);
    lemma_parse_info_of(p.1, rest);
    assert(Version { major: p.0.major, minor: p.0.minor, patch: p.0.patch } == p.0);
}

proof fn lemma_parse_vers_of(s: Seq<(Version, InfoShape)>, rest: Seq<char>)
    requires
        forall|i: int| 0 <= i < s.len() ==> info_bounded(#[trigger] s[i].1),
    ensures
        parse_vers(enc_vers(s) + rest, s.len() as int) == Some((s, rest)),
    decreases s.len(),
{
    if s.len() == 0 {
        assert(enc_vers(s) + rest =~= rest);
        assert(parse_vers(rest, 0) == Some((Seq::<(Version, InfoShape)>::empty(), rest)));
        assert(Seq::<(Version, InfoShape)>::empty() =~= s);
    } else {
        assert(enc_vers(s) + rest =~= enc_ver(s[0]) + (enc_vers(s.skip(1)) + rest));
        lemma_parse_ver_of(s[0], enc_vers(s.skip(1)) + rest);
        assert forall|i: int| 0 <= i < s.skip(1).len() implies info_bounded(
            #[trigger] s.skip(1)[i].1,
        ) by {
            assert(s.skip(1)[i] == s[i + 1]);
        }
        lemma_parse_vers_of(s.skip(1), rest);
        assert(seq![s[0]] + s.skip(1) =~= s);
    }
}

proof fn lemma_parse_entry_of(e: EntryShape, rest: Seq<char>)
    requires
        entry_bounded(e),
    ensures
        parse_entry(enc_entry(e) + rest) == Some((e, rest)),
{
    let r3 = enc_vers(e.versions) + rest;
    let r2 = enc_num(e.versions.len() as int) + r3;
    let r1 = enc_opt(e.git_url) + r2;
    assert(enc_entry(e) + rest =~= enc_str(e.main_branch_path) + r1);
    lemma_parse_str_of(e.main_branch_path, r1);
    assert(r1 =~= enc_opt(e.git_url) + r2);
    lemma_parse_opt_of(e.git_url, r2);
    lemma_parse_count_of(e.versions.len() as u64, r3);
    lemma_parse_vers_of(e.versions, rest);
    assert(EntryShape {
        versions: e.versions,
        main_branch_path: e.main_branch_path,
        git_url: e.git_url,
    } == e);
}

proof fn lemma_parse_pkgs_of(s: Seq<(Seq<char>, EntryShape)>, rest: Seq<char>)
    requires
        forall|i: int|
            0 <= i < s.len() ==> (#[trigger] s[i].0).len() <= u64::MAX && entry_bounded(s[i].1),
    ensures
        parse_pkgs(enc_pkgs(s) + rest, s.len() as int) == Some((s, rest)),
    decreases s.len(),
{
    if s.len() == 0 {
        assert(enc_pkgs(s) + rest =~= rest);
        assert(parse_pkgs(rest, 0) == Some((Seq::<(Seq<char>, EntryShape)>::empty(), rest)));
        assert(Seq::<(Seq<char>, EntryShape)>::empty() =~= s);
    } else {
        let r1 = enc_entry(s[0].1) + (enc_pkgs(s.skip(1)) + rest);
        assert(enc_pkgs(s) + rest =~= enc_str(s[0].0) + r1);
        lemma_parse_str_of(s[0].0, r1);
        lemma_parse_entry_of(s[0].1, enc_pkgs(s.skip(1)) + rest);
        assert forall|i: int| 0 <= i < s.skip(1).len() implies (#[trigger] s.skip(1)[i].0).len()
            <= u64::MAX && entry_bounded(s.skip(1)[i].1) by {
            assert(s.skip(1)[i] == s[i + 1]);
        }
        lemma_parse_pkgs_of(s.skip(1), rest);
        assert(seq![(s[0].0, s[0].1)] + s.skip(1) =~= s);
    }
}

// ------------------------------ the renderer ------------------------------
fn push_str_chars(out: &mut Vec<char>, s: &str)
    ensures
        final(out)@ == old(out)@ + s@,
{
    let n = s.unicode_len();
    let mut i: usize = 0;
    while i < n
        invariant
            i <= n,
            n == s@.len(),
            out@ == old(out)@ + s@.take(i as int),
        decreases n - i,
    {
        out.push(s.get_char(i));
        i = i + 1;
        assert(out@ =~= old(out)@ + s@.take(i as int));
    }
    assert(out@ =~= old(out)@ + s@);
}

fn push_num(out: &mut Vec<char>, n: u64)
    ensures
        final(out)@ == old(out)@ + enc_num(n as int),
{
    push_dec_chars(out, n);
    out.push(',');
    proof {
        reveal_strlit(",");
        assert(out@ =~= old(out)@ + enc_num(n as int));
    }
}

fn push_inum(out: &mut Vec<char>, n: i64)
    ensures
        final(out)@ == old(out)@ + enc_inum(n),
{
    if n >= 0 {
        push_num(out, n as u64);
    } else {
        out.push('-');
        let m: u64 = ((-(n + 1)) as u64) + 1;
        proof {
            assert(m as int == -(n as int));
        }
        push_num(out, m);
        proof {
            reveal_strlit("-");
            assert(out@ =~= old(out)@ + enc_inum(n));
        }
    }
}

fn push_len_str(out: &mut Vec<char>, s: &str)
    ensures
        final(out)@ == old(out)@ + enc_str(s@),
{
    let n = s.unicode_len();
    push_dec_chars(out, n as u64);
    out.push(':');
    push_str_chars(out, s);
    proof {
        reveal_strlit(":");
        assert(out@ =~= old(out)@ + enc_str(s@));
    }
}

fn push_opt(out: &mut Vec<char>, o: &Option<String>)
    ensures
        final(out)@ == old(out)@ + enc_opt(
            match *o {
                Some(s) => Some(s@),
                None => None,
            },
        ),
{
    match o {
        None => {
            out.push('n');
            proof {
                reveal_strlit("n");
                assert(out@ =~= old(out)@ + "n"@);
            }
        },
        Some(s) => {
            out.push('s');
            push_len_str(out, s.as_str());
            proof {
                reveal_strlit("s");
                assert(out@ =~= old(out)@ + ("s"@ + enc_str(s@)));
            }
        },
    }
}

fn push_info(out: &mut Vec<char>, info: &RepoPackageInfo)
    ensures
        final(out)@ == old(out)@ + enc_info(info@),
{
    push_inum(out, info.published_on);
    push_opt(out, &info.version_comment);
    assert(out@ =~= old(out)@ + enc_info(info@));
}

fn push_entry(out: &mut Vec<char>, e: &RepoPackage)
    ensures
        final(out)@ == old(out)@ + enc_entry(e@),
{
    push_len_str(out, e.main_branch_path.as_str());
    push_opt(out, &e.git_url);
    push_num(out, e.versions.len() as u64);
    let ghost vers = e@.versions;
    let ghost mid = out@;
    proof {
        assert(vers.skip(0) =~= vers);
        assert(mid + Seq::<char>::empty() =~= mid);
        assert(enc_vers(vers.skip(vers.len() as int)) =~= Seq::<char>::empty());
    }
    let mut i: usize = 0;
    while i < e.versions.len()
        invariant
            i <= e.versions@.len(),
            vers == e@.versions,
            vers.len() == e.versions@.len(),
            mid + enc_vers(vers) == out@ + enc_vers(vers.skip(i as int)),
        decreases e.versions@.len() - i,
    {
        let ghost rest = vers.skip(i as int);
        proof {
            assert(rest[0] == vers[i as int]);
            assert(rest.skip(1) =~= vers.skip(i as int + 1));
            assert(vers[i as int] == (e.versions@[i as int].0, e.versions@[i as int].1@));
        }
        let p = &e.versions[i];
        push_num(out, p.0.major);
        push_num(out, p.0.minor);
        push_num(out, p.0.patch);
        push_info(out, &p.1);
        proof {
            assert(mid + enc_vers(vers) =~= out@ + enc_vers(vers.skip(i as int + 1)));
        }
        i = i + 1;
    }
    proof {
        assert(enc_vers(vers.skip(vers.len() as int)) =~= Seq::<char>::empty());
        assert(out@ =~= mid + enc_vers(vers));
        assert(out@ =~= old(out)@ + enc_entry(e@));
    }
}

impl VatRepo {
    /// Writes the catalog out as its document.
    pub fn to_document(&self) -> (r: String)
        ensures
            r@ == enc_catalog(self@),
    {
        let mut out: Vec<char> = Vec::new();
        push_num(&mut out, self.packages.len() as u64);
        let ghost pkgs = self@.packages;
        let ghost mid = out@;
        proof {
            assert(pkgs.skip(0) =~= pkgs);
            assert(enc_pkgs(pkgs.skip(pkgs.len() as int)) =~= Seq::<char>::empty());
        }
        let mut i: usize = 0;
        while i < self.packages.len()
            invariant
                i <= self.packages@.len(),
                pkgs == self@.packages,
                pkgs.len() == self.packages@.len(),
                mid + enc_pkgs(pkgs) == out@ + enc_pkgs(pkgs.skip(i as int)),
            decreases self.packages@.len() - i,
        {
            let ghost rest = pkgs.skip(i as int);
            proof {
                assert(rest[0] == pkgs[i as int]);
                assert(rest.skip(1) =~= pkgs.skip(i as int + 1));
                assert(pkgs[i as int] == (self.packages@[i as int].0@, self.packages@[i as int]
                    .1@));
            }
            let p = &self.packages[i];
            push_len_str(&mut out, p.0.as_str());
            push_entry(&mut out, &p.1);
            proof {
                assert(mid + enc_pkgs(pkgs) =~= out@ + enc_pkgs(pkgs.skip(i as int + 1)));
            }
            i = i + 1;
        }
        proof {
            assert(enc_pkgs(pkgs.skip(pkgs.len() as int)) =~= Seq::<char>::empty());
            assert(out@ =~= mid + enc_pkgs(pkgs));
            assert(out@ =~= enc_catalog(self@));
        }
        string_from_chars(&out)
    }
}

// ------------------------------ the reader ------------------------------
proof fn lemma_digits_val_nonneg(ds: Seq<char>)
    requires
        forall|j: int| 0 <= j < ds.len() ==> is_digit(ds[j]),
    ensures
        digits_val(ds) >= 0,
    decreases ds.len(),
{
    if ds.len() > 0 {
        assert forall|j: int| 0 <= j < ds.drop_last().len() implies is_digit(
            ds.drop_last()[j],
        ) by {
            assert(ds.drop_last()[j] == ds[j]);
        }
        lemma_digits_val_nonneg(ds.drop_last());
        assert(is_digit(ds.last()));
    }
}

proof fn lemma_digits_val_mono(ds: Seq<char>, i: int)
    requires
        0 <= i <= ds.len(),
        forall|j: int| 0 <= j < ds.len() ==> is_digit(ds[j]),
    ensures
        digits_val(ds) >= digits_val(ds.take(i)),
    decreases ds.len() - i,
{
    if i == ds.len() {
        assert(ds.take(i) =~= ds);
    } else {
        assert forall|j: int| 0 <= j < ds.drop_last().len() implies is_digit(
            ds.drop_last()[j],
        ) by {
            assert(ds.drop_last()[j] == ds[j]);
        }
        lemma_digits_val_nonneg(ds.drop_last());
        assert(is_digit(ds.last()));
        lemma_digits_val_mono(ds.drop_last(), i);
        assert(ds.drop_last().take(i) =~= ds.take(i));
        assert(digits_val(ds) >= digits_val(ds.drop_last()));
    }
}

proof fn lemma_digit_prefix_ge(s: Seq<char>, m: int)
    requires
        0 <= m <= s.len(),
        forall|j: int| 0 <= j < m ==> is_digit(s[j]),
    ensures
        digit_prefix_len(s) >= m,
    decreases m,
{
    if m > 0 {
        assert(is_digit(s[0]));
        assert forall|j: int| 0 <= j < m - 1 implies is_digit(s.skip(1)[j]) by {
            assert(s.skip(1)[j] == s[j + 1]);
        }
        lemma_digit_prefix_ge(s.skip(1), m - 1);
        assert(digit_prefix_len(s) == 1 + digit_prefix_len(s.skip(1)));
    } else {
        lemma_digit_prefix_le(s);
    }
}

proof fn lemma_digit_prefix_le(s: Seq<char>)
    ensures
        0 <= digit_prefix_len(s) <= s.len(),
    decreases s.len(),
{
    if s.len() > 0 && is_digit(s[0]) {
        lemma_digit_prefix_le(s.skip(1));
    }
}

proof fn lemma_digit_prefix_digits(s: Seq<char>)
    ensures
        forall|j: int| 0 <= j < digit_prefix_len(s) ==> is_digit(#[trigger] s[j]),
    decreases s.len(),
{
    lemma_digit_prefix_le(s);
    if s.len() > 0 && is_digit(s[0]) {
        lemma_digit_prefix_digits(s.skip(1));
        assert forall|j: int| 0 <= j < digit_prefix_len(s) implies is_digit(#[trigger] s[j]) by {
            if j > 0 {
                assert(s.skip(1)[j - 1] == s[j]);
            }
        }
    }
}

fn digit_exec(c: char) -> (r: bool)
    ensures
        r == is_digit(c),
{
    let u = c as u32;
    48 <= u && u <= 57
}

/// Reads the digit prefix at `pos` as a number within the document's
/// width; refused where no digit stands there or the number is too
/// wide.
fn p_digits(v: &Vec<char>, pos: usize) -> (r: Result<(u64, usize), VatError>)
    requires
        pos <= v@.len(),
    ensures
        ({
            let s = v@.skip(pos as int);
            match r {
                Ok(p) => pos <= p.1 <= v@.len() && parse_num(s) == Some(
                    (p.0 as int, v@.skip(p.1 as int)),
                ),
                Err(e) => e == VatError::CatalogCorrupt && (match parse_num(s) {
                    Some(q) => q.0 > u64::MAX,
                    None => true,
                }),
            }
        }),
{
    let ghost s = v@.skip(pos as int);
    let n = v.len();
    if pos >= n || !digit_exec(v[pos]) {
        proof {
            if s.len() > 0 {
                assert(s[0] == v@[pos as int]);
            }
            assert(digit_prefix_len(s) == 0);
        }
        return Err(VatError::CatalogCorrupt);
    }
    let mut k: usize = pos;
    let mut val: u64 = 0;
    while k < n && digit_exec(v[k])
        invariant
            pos <= k <= n,
            n == v@.len(),
            s == v@.skip(pos as int),
            forall|j: int| pos <= j < k ==> is_digit(v@[j]),
            val as int == digits_val(v@.subrange(pos as int, k as int)),
        decreases n - k,
    {
        let d: u64 = ((v[k] as u32) - 48) as u64;
        proof {
            assert(d < 10);
        }
        if val > (u64::MAX - d) / 10 {
            proof {
                let t = v@.subrange(pos as int, k as int + 1);
                assert(t.drop_last() =~= v@.subrange(pos as int, k as int));
                assert(t.last() == v@[k as int]);
                assert(digits_val(t) == val as int * 10 + d);
                assert(digits_val(t) > u64::MAX);
                assert forall|j: int| 0 <= j < k + 1 - pos implies is_digit(s[j]) by {
                    assert(s[j] == v@[pos + j]);
                }
                lemma_digit_prefix_ge(s, k as int + 1 - pos);
                lemma_digit_prefix_le(s);
                lemma_digit_prefix_digits(s);
                let kk = digit_prefix_len(s);
                assert forall|j: int| 0 <= j < kk implies is_digit(s.take(kk)[j]) by {
                    assert(s.take(kk)[j] == s[j]);
                }
                lemma_digits_val_mono(s.take(kk), k as int + 1 - pos);
                assert(s.take(kk).take(k as int + 1 - pos) =~= t);
                assert(digits_val(s.take(kk)) > u64::MAX);
            }
            return Err(VatError::CatalogCorrupt);
        }
        val = val * 10 + d;
        k = k + 1;
        proof {
            let t = v@.subrange(pos as int, k as int);
            assert(t.drop_last() =~= v@.subrange(pos as int, k as int - 1));
            assert(t.last() == v@[k as int - 1]);
        }
    }
    proof {
        assert forall|j: int| 0 <= j < k - pos implies is_digit(s[j]) by {
            assert(s[j] == v@[pos + j]);
        }
        if k < n {
            assert(s[k - pos] == v@[k as int]);
        }
        lemma_digit_prefix_exact(s, k as int - pos);
        assert(s.take(k as int - pos) =~= v@.subrange(pos as int, k as int));
        assert(s.skip(k as int - pos) =~= v@.skip(k as int));
    }
    Ok((val, k))
}

/// `digits ','`.
fn p_count(v: &Vec<char>, pos: usize) -> (r: Result<(u64, usize), VatError>)
    requires
        pos <= v@.len(),
    ensures
        ({
            let s = v@.skip(pos as int);
            match r {
                Ok(p) => pos <= p.1 <= v@.len() && parse_count(s) == Some(
                    (p.0, v@.skip(p.1 as int)),
                ),
                Err(e) => e == VatError::CatalogCorrupt && parse_count(s) is None,
            }
        }),
{
    let (val, k) = match p_digits(v, pos) {
        Ok(p) => p,
        Err(e) => {
            return Err(e);
        },
    };
    if k < v.len() && v[k] == ',' {
        proof {
            assert(v@.skip(k as int)[0] == v@[k as int]);
            assert(v@.skip(k as int).skip(1) =~= v@.skip(k as int + 1));
        }
        Ok((val, k + 1))
    } else {
        proof {
            if k < v@.len() {
                assert(v@.skip(k as int)[0] == v@[k as int]);
            }
        }
        Err(VatError::CatalogCorrupt)
    }
}

/// `['-'] digits ','`.
fn p_inum(v: &Vec<char>, pos: usize) -> (r: Result<(i64, usize), VatError>)
    requires
        pos <= v@.len(),
    ensures
        ({
            let s = v@.skip(pos as int);
            match r {
                Ok(p) => pos <= p.1 <= v@.len() && parse_inum(s) == Some(
                    (p.0, v@.skip(p.1 as int)),
                ),
                Err(e) => e == VatError::CatalogCorrupt && parse_inum(s) is None,
            }
        }),
{
    let ghost s = v@.skip(pos as int);
    if pos < v.len() && v[pos] == '-' {
        proof {
            assert(s[0] == v@[pos as int]);
            assert(s.skip(1) =~= v@.skip(pos as int + 1));
        }
        let (mag, k) = match p_digits(v, pos + 1) {
            Ok(p) => p,
            Err(e) => {
                return Err(e);
            },
        };
        if mag > 0x8000000000000000u64 {
            return Err(VatError::CatalogCorrupt);
        }
        if k < v.len() && v[k] == ',' {
            proof {
                assert(v@.skip(k as int)[0] == v@[k as int]);
                assert(v@.skip(k as int).skip(1) =~= v@.skip(k as int + 1));
            }
            let out: i64 = (-(mag as i128)) as i64;
            proof {
                assert(out as int == -(mag as int));
            }
            Ok((out, k + 1))
        } else {
            proof {
                if k < v@.len() {
                    assert(v@.skip(k as int)[0] == v@[k as int]);
                }
            }
            Err(VatError::CatalogCorrupt)
        }
    } else {
        proof {
            if s.len() > 0 {
                assert(s[0] == v@[pos as int]);
            }
        }
        let (val, k) = match p_digits(v, pos) {
            Ok(p) => p,
            Err(e) => {
                return Err(e);
            },
        };
        if val > 0x7fffffffffffffffu64 {
            return Err(VatError::CatalogCorrupt);
        }
        if k < v.len() && v[k] == ',' {
            proof {
                assert(v@.skip(k as int)[0] == v@[k as int]);
                assert(v@.skip(k as int).skip(1) =~= v@.skip(k as int + 1));
            }
            Ok((val as i64, k + 1))
        } else {
            proof {
                if k < v@.len() {
                    assert(v@.skip(k as int)[0] == v@[k as int]);
                }
            }
            Err(VatError::CatalogCorrupt)
        }
    }
}

/// `digits ':' chars`.
fn p_str(v: &Vec<char>, pos: usize) -> (r: Result<(String, usize), VatError>)
    requires
        pos <= v@.len(),
    ensures
        ({
            let s = v@.skip(pos as int);
            match r {
                Ok(p) => pos <= p.1 <= v@.len() && parse_str(s) == Some(
                    (p.0@, v@.skip(p.1 as int)),
                ),
                Err(e) => e == VatError::CatalogCorrupt && parse_str(s) is None,
            }
        }),
{
    let (len64, k) = match p_digits(v, pos) {
        Ok(p) => p,
        Err(e) => {
            return Err(e);
        },
    };
    if !(k < v.len() && v[k] == ':') {
        proof {
            if k < v@.len() {
                assert(v@.skip(k as int)[0] == v@[k as int]);
            }
        }
        return Err(VatError::CatalogCorrupt);
    }
    proof {
        assert(v@.skip(k as int)[0] == v@[k as int]);
        assert(v@.skip(k as int).skip(1) =~= v@.skip(k as int + 1));
    }
    let k1 = k + 1;
    let remaining: u64 = (v.len() - k1) as u64;
    if len64 > remaining {
        return Err(VatError::CatalogCorrupt);
    }
    let m = len64 as usize;
    let out = vec_range(v, k1, k1 + m);
    proof {
        assert(v@.skip(k1 as int).take(len64 as int) =~= v@.subrange(k1 as int, k1 + m));
        assert(v@.skip(k1 as int).skip(len64 as int) =~= v@.skip(k1 as int + m));
    }
    Ok((string_from_chars(&out), k1 + m))
}

/// `'n' | 's' str`.
fn p_opt(v: &Vec<char>, pos: usize) -> (r: Result<(Option<String>, usize), VatError>)
    requires
        pos <= v@.len(),
    ensures
        ({
            let s = v@.skip(pos as int);
            match r {
                Ok(p) => pos <= p.1 <= v@.len() && parse_opt(s) == Some(
                    (
                        match p.0 {
                            Some(x) => Some(x@),
                            None => None,
                        },
                        v@.skip(p.1 as int),
                    ),
                ),
                Err(e) => e == VatError::CatalogCorrupt && parse_opt(s) is None,
            }
        }),
{
    let ghost s = v@.skip(pos as int);
    if pos < v.len() && v[pos] == 'n' {
        proof {
            assert(s[0] == v@[pos as int]);
            assert(s.skip(1) =~= v@.skip(pos as int + 1));
        }
        Ok((None, pos + 1))
    } else if pos < v.len() && v[pos] == 's' {
        proof {
            assert(s[0] == v@[pos as int]);
            assert(s.skip(1) =~= v@.skip(pos as int + 1));
        }
        match p_str(v, pos + 1) {
            Ok((x, k)) => Ok((Some(x), k)),
            Err(e) => Err(e),
        }
    } else {
        proof {
            if s.len() > 0 {
                assert(s[0] == v@[pos as int]);
            }
        }
        Err(VatError::CatalogCorrupt)
    }
}

/// `inum opt`.
fn p_info(v: &Vec<char>, pos: usize) -> (r: Result<(RepoPackageInfo, usize), VatError>)
    requires
        pos <= v@.len(),
    ensures
        ({
            let s = v@.skip(pos as int);
            match r {
                Ok(p) => pos <= p.1 <= v@.len() && parse_info(s) == Some(
                    (p.0@, v@.skip(p.1 as int)),
                ),
                Err(e) => e == VatError::CatalogCorrupt && parse_info(s) is None,
            }
        }),
{
    let (t, k1) = match p_inum(v, pos) {
        Ok(p) => p,
        Err(e) => {
            return Err(e);
        },
    };
    let (c, k2) = match p_opt(v, k1) {
        Ok(p) => p,
        Err(e) => {
            return Err(e);
        },
    };
    Ok((RepoPackageInfo { published_on: t, version_comment: c }, k2))
}

/// `num num num info`.
fn p_ver(v: &Vec<char>, pos: usize) -> (r: Result<((Version, RepoPackageInfo), usize), VatError>)
    requires
        pos <= v@.len(),
    ensures
        ({
            let s = v@.skip(pos as int);
            match r {
                Ok(p) => pos <= p.1 <= v@.len() && parse_ver(s) == Some(
                    ((p.0.0, p.0.1@), v@.skip(p.1 as int)),
                ),
                Err(e) => e == VatError::CatalogCorrupt && parse_ver(s) is None,
            }
        }),
{
    let (major, k1) = match p_count(v, pos) {
        Ok(p) => p,
        Err(e) => {
            return Err(e);
        },
    };
    let (minor, k2) = match p_count(v, k1) {
        Ok(p) => p,
        Err(e) => {
            return Err(e);
        },
    };
    let (patch, k3) = match p_count(v, k2) {
        Ok(p) => p,
        Err(e) => {
            return Err(e);
        },
    };
    let (info, k4) = match p_info(v, k3) {
        Ok(p) => p,
        Err(e) => {
            return Err(e);
        },
    };
    Ok(((Version { major, minor, patch }, info), k4))
}

/// `k` version records.
fn p_vers(v: &Vec<char>, pos: usize, count: u64) -> (r: Result<
    (Vec<(Version, RepoPackageInfo)>, usize),
    VatError,
>)
    requires
        pos <= v@.len(),
    ensures
        ({
            let s = v@.skip(pos as int);
            match r {
                Ok(p) => pos <= p.1 <= v@.len() && parse_vers(s, count as int) == Some(
                    (p.0@.map_values(|q: (Version, RepoPackageInfo)| (q.0, q.1@)), v@.skip(
                        p.1 as int,
                    )),
                ),
                Err(e) => e == VatError::CatalogCorrupt && parse_vers(s, count as int) is None,
            }
        }),
{
    let mut out: Vec<(Version, RepoPackageInfo)> = Vec::new();
    let mut cur: usize = pos;
    let mut i: u64 = 0;
    proof {
        assert(out@.map_values(|q: (Version, RepoPackageInfo)| (q.0, q.1@)) =~= Seq::<
            (Version, InfoShape),
        >::empty());
    }
    while i < count
        invariant
            i <= count,
            pos <= cur <= v@.len(),
            ({
                let done = out@.map_values(|q: (Version, RepoPackageInfo)| (q.0, q.1@));
                parse_vers(v@.skip(pos as int), count as int) == (match parse_vers(
                    v@.skip(cur as int),
                    count as int - i as int,
                ) {
                    Some(p) => Some((done + p.0, p.1)),
                    None => None::<(Seq<(Version, InfoShape)>, Seq<char>)>,
                })
            }),
        decreases count - i,
    {
        let ghost done0 = out@.map_values(|q: (Version, RepoPackageInfo)| (q.0, q.1@));
        let (p, k) = match p_ver(v, cur) {
            Ok(p) => p,
            Err(e) => {
                return Err(e);
            },
        };
        let ghost pv = (p.0, p.1@);
        out.push(p);
        proof {
            assert(out@.map_values(|q: (Version, RepoPackageInfo)| (q.0, q.1@)) =~= done0.push(
                pv,
            ));
            assert forall|l: Seq<(Version, InfoShape)>| true implies done0 + (seq![pv] + l)
                =~= done0.push(pv) + l by {}
        }
        cur = k;
        i = i + 1;
    }
    proof {
        assert(parse_vers(v@.skip(cur as int), 0) == Some(
            (Seq::<(Version, InfoShape)>::empty(), v@.skip(cur as int)),
        ));
        assert(out@.map_values(|q: (Version, RepoPackageInfo)| (q.0, q.1@)) + Seq::<
            (Version, InfoShape),
        >::empty() =~= out@.map_values(|q: (Version, RepoPackageInfo)| (q.0, q.1@)));
    }
    Ok((out, cur))
}

/// `str opt count ver*`: one package's record.
fn p_entry(v: &Vec<char>, pos: usize) -> (r: Result<(RepoPackage, usize), VatError>)
    requires
        pos <= v@.len(),
    ensures
        ({
            let s = v@.skip(pos as int);
            match r {
                Ok(p) => pos <= p.1 <= v@.len() && parse_entry(s) == Some(
                    (p.0@, v@.skip(p.1 as int)),
                ),
                Err(e) => e == VatError::CatalogCorrupt && parse_entry(s) is None,
            }
        }),
{
    let (path, k1) = match p_str(v, pos) {
        Ok(p) => p,
        Err(e) => {
            return Err(e);
        },
    };
    let (url, k2) = match p_opt(v, k1) {
        Ok(p) => p,
        Err(e) => {
            return Err(e);
        },
    };
    let (count, k3) = match p_count(v, k2) {
        Ok(p) => p,
        Err(e) => {
            return Err(e);
        },
    };
    let (vers, k4) = match p_vers(v, k3, count) {
        Ok(p) => p,
        Err(e) => {
            return Err(e);
        },
    };
    Ok((RepoPackage { versions: vers, main_branch_path: path, git_url: url }, k4))
}

fn vers_distinct(entries: &Vec<(Version, RepoPackageInfo)>) -> (r: bool)
    ensures
        r == crate::assoc::keys_distinct(entries@),
{
    let n = entries.len();
    let mut i: usize = 0;
    while i < n
        invariant
            i <= n,
            n == entries@.len(),
            forall|a: int, b: int| 0 <= a < b < entries@.len() && a < i ==> entries@[a].0@
                != entries@[b].0@,
        decreases n - i,
    {
        let mut j: usize = i + 1;
        while j < n
            invariant
                i < j <= n,
                n == entries@.len(),
                forall|a: int, b: int| 0 <= a < b < entries@.len() && a < i ==> entries@[a].0@
                    != entries@[b].0@,
                forall|b: int| i < b < j ==> entries@[i as int].0@ != entries@[b].0@,
            decreases n - j,
        {
            if entries[i].0 == entries[j].0 {
                return false;
            }
            j = j + 1;
        }
        i = i + 1;
    }
    true
}

fn names_distinct(entries: &Vec<(String, RepoPackage)>) -> (r: bool)
    ensures
        r == crate::assoc::keys_distinct(entries@),
{
    let n = entries.len();
    let mut i: usize = 0;
    while i < n
        invariant
            i <= n,
            n == entries@.len(),
            forall|a: int, b: int| 0 <= a < b < entries@.len() && a < i ==> entries@[a].0@
                != entries@[b].0@,
        decreases n - i,
    {
        let mut j: usize = i + 1;
        while j < n
            invariant
                i < j <= n,
                n == entries@.len(),
                forall|a: int, b: int| 0 <= a < b < entries@.len() && a < i ==> entries@[a].0@
                    != entries@[b].0@,
                forall|b: int| i < b < j ==> entries@[i as int].0@ != entries@[b].0@,
            decreases n - j,
        {
            if crate::strutil::str_eq(entries[i].0.as_str(), entries[j].0.as_str()) {
                return false;
            }
            j = j + 1;
        }
        i = i + 1;
    }
    true
}

/// Whether the document's content can stand as a catalog: names are
/// unique, and so is each package's version list.
pub open spec fn shape_distinct(c: CatalogShape) -> bool {
    &&& (forall|a: int, b: int|
        0 <= a < b < c.packages.len() ==> (#[trigger] c.packages[a].0)
            != (#[trigger] c.packages[b].0))
    &&& (forall|i: int, a: int, b: int|
        0 <= i < c.packages.len() && 0 <= a < b < c.packages[i].1.versions.len() ==> (
        #[trigger] c.packages[i].1.versions[a].0) != (#[trigger] c.packages[i].1.versions[b].0))
}

impl VatRepo {
    /// Reads a catalog back from its document. A document that does not
    /// parse, carries junk at its end, or repeats a name or a version
    /// is corrupt.
    pub fn from_document(s: &str) -> (r: Result<VatRepo, VatError>)
        ensures
            match r {
                Ok(c) => parse_catalog_shape(s@) == Some(c@) && c.wf(),
                Err(e) => e == VatError::CatalogCorrupt && (match parse_catalog_shape(s@) {
                    Some(sh) => !shape_distinct(sh),
                    None => true,
                }),
            },
    {
        let v = chars_of(s);
        let (count, k1) = match p_count(&v, 0) {
            Ok(p) => p,
            Err(e) => {
                proof {
                    assert(v@.skip(0) =~= s@);
                }
                return Err(e);
            },
        };
        proof {
            assert(v@.skip(0) =~= s@);
        }
        let mut out: Vec<(String, RepoPackage)> = Vec::new();
        let mut cur: usize = k1;
        let mut i: u64 = 0;
        proof {
            assert(out@.map_values(|q: (String, RepoPackage)| (q.0@, q.1@)) =~= Seq::<
                (Seq<char>, EntryShape),
            >::empty());
        }
        while i < count
            invariant
                i <= count,
                cur <= v@.len(),
                v@ == s@,
                parse_count(s@) == Some((count, v@.skip(k1 as int))),
                k1 <= v@.len(),
                ({
                    let done = out@.map_values(|q: (String, RepoPackage)| (q.0@, q.1@));
                    parse_pkgs(v@.skip(k1 as int), count as int) == (match parse_pkgs(
                        v@.skip(cur as int),
                        count as int - i as int,
                    ) {
                        Some(p) => Some((done + p.0, p.1)),
                        None => None::<(Seq<(Seq<char>, EntryShape)>, Seq<char>)>,
                    })
                }),
            decreases count - i,
        {
            let ghost done0 = out@.map_values(|q: (String, RepoPackage)| (q.0@, q.1@));
            let (name, ka) = match p_str(&v, cur) {
                Ok(p) => p,
                Err(e) => {
                    return Err(e);
                },
            };
            let (entry, kb) = match p_entry(&v, ka) {
                Ok(p) => p,
                Err(e) => {
                    return Err(e);
                },
            };
            let ghost pv = (name@, entry@);
            out.push((name, entry));
            proof {
                assert(out@.map_values(|q: (String, RepoPackage)| (q.0@, q.1@)) =~= done0.push(
                    pv,
                ));
                assert forall|l: Seq<(Seq<char>, EntryShape)>| true implies done0 + (seq![pv] + l)
                    =~= done0.push(pv) + l by {}
            }
            cur = kb;
            i = i + 1;
        }
        if cur < v.len() {
            proof {
                assert(parse_pkgs(v@.skip(cur as int), 0) == Some(
                    (Seq::<(Seq<char>, EntryShape)>::empty(), v@.skip(cur as int)),
                ));
                assert(out@.map_values(|q: (String, RepoPackage)| (q.0@, q.1@)) + Seq::<
                    (Seq<char>, EntryShape),
                >::empty() =~= out@.map_values(|q: (String, RepoPackage)| (q.0@, q.1@)));
                assert(v@.skip(cur as int).len() > 0);
            }
            return Err(VatError::CatalogCorrupt);
        }
        proof {
            assert(parse_pkgs(v@.skip(cur as int), 0) == Some(
                (Seq::<(Seq<char>, EntryShape)>::empty(), v@.skip(cur as int)),
            ));
            assert(out@.map_values(|q: (String, RepoPackage)| (q.0@, q.1@)) + Seq::<
                (Seq<char>, EntryShape),
            >::empty() =~= out@.map_values(|q: (String, RepoPackage)| (q.0@, q.1@)));
            assert(v@.skip(cur as int).len() == 0);
        }
        if !names_distinct(&out) {
            proof {
                let sh = parse_catalog_shape(s@)->0;
                let bad = choose|a: int, b: int|
                    0 <= a < b < out@.len() && out@[a].0@ == out@[b].0@;
                assert(sh.packages[bad.0].0 == sh.packages[bad.1].0);
            }
            return Err(VatError::CatalogCorrupt);
        }
        let mut j: usize = 0;
        while j < out.len()
            invariant
                j <= out@.len(),
                v@ == s@,
                parse_catalog_shape(s@) == Some(
                    CatalogShape {
                        packages: out@.map_values(|q: (String, RepoPackage)| (q.0@, q.1@)),
                    },
                ),
                crate::assoc::keys_distinct(out@),
                forall|t: int| 0 <= t < j ==> crate::assoc::keys_distinct(
                    (#[trigger] out@[t].1).versions@,
                ),
            decreases out@.len() - j,
        {
            if !vers_distinct(&out[j].1.versions) {
                proof {
                    let sh = parse_catalog_shape(s@)->0;
                    let bad = choose|a: int, b: int|
                        0 <= a < b < out@[j as int].1.versions@.len() && out@[j as int]
                            .1.versions@[a].0@ == out@[j as int].1.versions@[b].0@;
                    assert(sh.packages[j as int].1.versions[bad.0].0 == sh.packages[
                        j as int].1.versions[bad.1].0);
                }
                return Err(VatError::CatalogCorrupt);
            }
            j = j + 1;
        }
        let repo = VatRepo { packages: out };
        proof {
            assert forall|n: Seq<char>| #[trigger] repo.packages_map().dom().contains(n) implies
                repo.packages_map()[n].wf() by {
                crate::vat_repository::lemma_assoc_dom_has_index(repo.packages@, n);
                let t = choose|t: int|
                    0 <= t < repo.packages@.len() && repo.packages@[t].0@ == n;
                crate::assoc::lemma_assoc_value_at(repo.packages@, t);
            }
        }
        Ok(repo)
    }
}

/// The catalog codec round-trips: a catalog written out by the renderer
/// reads back as the very same catalog, field for field.
pub proof fn lemma_catalog_round_trip(c: CatalogShape)
    requires
        catalog_bounded(c),
    ensures
        parse_catalog_shape(enc_catalog(c)) == Some(c),
{
    let r1 = enc_pkgs(c.packages);
    assert(enc_catalog(c) =~= enc_num(c.packages.len() as int) + r1);
    lemma_parse_count_of(c.packages.len() as u64, r1);
    assert(r1 =~= enc_pkgs(c.packages) + Seq::<char>::empty());
    lemma_parse_pkgs_of(c.packages, Seq::empty());
    assert(CatalogShape { packages: c.packages } == c);
}

} // verus!
