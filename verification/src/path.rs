//! Paths as the standard library reads them, on strings: the components of a
//! path, its file name and parent, joining a name onto a base, and
//! component-wise equality and order. Windows paths take both `\` and `/` as
//! separators and may start with a prefix: a drive (`C:`), a share
//! (`\\server\share`), a device (`\\.\name`) or a verbatim prefix
//! (`\\?\name`, `\\?\UNC\server\share`, `\\?\C:`), after which only `\`
//! separates and `.` is kept as a component. Unix paths take `/` only.
use vstd::prelude::*;
use vstd::string::*;

use crate::lex::{
    char_order, lemma_char_order_strict_total, lemma_lex_first_difference, lemma_lex_prefix,
    lemma_lex_irreflexive, lemma_lex_total, lemma_lex_transitive, lemma_lex_trichotomy, lex_lt,
    strict_total,
};

verus! {

/// Which syntax a path string is read with.
#[derive(PartialEq, Eq, Structural, Clone, Copy, Debug)]
pub enum PathStyle {
    Windows,
    Unix,
}

pub open spec fn is_sep(c: char, style: PathStyle) -> bool {
    c == '/' || (style == PathStyle::Windows && c == '\\')
}

pub open spec fn is_ascii_alpha(c: char) -> bool {
    (65 <= (c as int) <= 90) || (97 <= (c as int) <= 122)
}

pub open spec fn upper_code(c: char) -> int {
    if 97 <= (c as int) <= 122 {
        (c as int) - 32
    } else {
        c as int
    }
}

/// The characters that separate the components of one path.
#[derive(PartialEq, Eq, Structural, Clone, Copy, Debug)]
pub enum SepSet {
    /// `/` only: Unix paths.
    Slash,
    /// `/` and `\`: Windows paths without a verbatim prefix.
    Both,
    /// `\` only: Windows paths with a verbatim prefix.
    Backslash,
}

pub open spec fn in_set(c: char, m: SepSet) -> bool {
    match m {
        SepSet::Slash => c == '/',
        SepSet::Both => c == '/' || c == '\\',
        SepSet::Backslash => c == '\\',
    }
}

/// A Windows path prefix, as the standard library parses it; drive letters
/// by the code of the letter in upper case.
pub enum WinPrefix {
    Verbatim(Seq<char>),
    VerbatimUNC(Seq<char>, Seq<char>),
    VerbatimDisk(int),
    DeviceNS(Seq<char>),
    UNC(Seq<char>, Seq<char>),
    Disk(int),
}

pub open spec fn win_sep(c: char) -> bool {
    c == '\\' || c == '/'
}

/// The first position at or after `i` that holds a separator (only `\` when
/// `verbatim`), or the end of `s`.
pub open spec fn scan_sep(s: Seq<char>, i: int, verbatim: bool) -> int
    decreases s.len() - i,
{
    if i >= s.len() {
        s.len() as int
    } else if s[i] == '\\' || (!verbatim && s[i] == '/') {
        i
    } else {
        scan_sep(s, i + 1, verbatim)
    }
}

/// A drive letter and `:` at position `i`.
pub open spec fn drive_at(s: Seq<char>, i: int) -> bool {
    s.len() >= i + 2 && is_ascii_alpha(s[i]) && s[i + 1] == ':'
}

/// `\\?\UNC\server\share`: the server ends at the first `\`, the share at
/// the next one.
pub open spec fn verbatim_unc_prefix(s: Seq<char>) -> (WinPrefix, int) {
    let e1 = scan_sep(s, 8, true);
    let e2 = if e1 < s.len() {
        scan_sep(s, e1 + 1, true)
    } else {
        e1
    };
    let share = if e1 < s.len() {
        s.subrange(e1 + 1, e2)
    } else {
        Seq::<char>::empty()
    };
    (WinPrefix::VerbatimUNC(s.subrange(8, e1), share), if share.len() > 0 {
        e2
    } else {
        e1
    })
}

/// The prefix of a Windows path and its length, where it has one.
pub open spec fn win_prefix(s: Seq<char>) -> Option<(WinPrefix, int)> {
    if s.len() >= 2 && win_sep(s[0]) && win_sep(s[1]) {
        if s.len() >= 4 && s[0] == '\\' && s[1] == '\\' && s[2] == '?' && s[3] == '\\' {
            if s.len() >= 8 && s[4] == 'U' && s[5] == 'N' && s[6] == 'C' && win_sep(s[7]) {
                Some(verbatim_unc_prefix(s))
            } else if drive_at(s, 4) && (s.len() == 6 || s[6] == '\\') {
                Some((WinPrefix::VerbatimDisk(upper_code(s[4])), 6))
            } else {
                let e = scan_sep(s, 4, true);
                Some((WinPrefix::Verbatim(s.subrange(4, e)), e))
            }
        } else if s.len() >= 4 && s[2] == '.' && win_sep(s[3]) {
            let e = scan_sep(s, 4, false);
            Some((WinPrefix::DeviceNS(s.subrange(4, e)), e))
        } else {
            let e1 = scan_sep(s, 2, false);
            let e2 = if e1 < s.len() {
                scan_sep(s, e1 + 1, false)
            } else {
                e1
            };
            if e1 > 2 && e1 < s.len() && e2 > e1 + 1 {
                Some((WinPrefix::UNC(s.subrange(2, e1), s.subrange(e1 + 1, e2)), e2))
            } else {
                None
            }
        }
    } else if drive_at(s, 0) {
        Some((WinPrefix::Disk(upper_code(s[0])), 2))
    } else {
        None
    }
}

/// The prefix of a path; only Windows paths have one.
pub open spec fn prefix_of(s: Seq<char>, style: PathStyle) -> Option<(WinPrefix, int)> {
    if style == PathStyle::Windows {
        win_prefix(s)
    } else {
        None
    }
}

/// Length of the prefix, 0 without one.
pub open spec fn prefix_len(s: Seq<char>, style: PathStyle) -> int {
    match prefix_of(s, style) {
        Some(p) => p.1,
        None => 0,
    }
}

pub open spec fn is_verbatim_prefix(p: WinPrefix) -> bool {
    p is Verbatim || p is VerbatimUNC || p is VerbatimDisk
}

/// The path starts with a verbatim prefix.
pub open spec fn is_verbatim(s: Seq<char>, style: PathStyle) -> bool {
    prefix_of(s, style) matches Some(p) && is_verbatim_prefix(p.0)
}

/// The separators of a path.
pub open spec fn sep_set(s: Seq<char>, style: PathStyle) -> SepSet {
    if style == PathStyle::Unix {
        SepSet::Slash
    } else if is_verbatim(s, style) {
        SepSet::Backslash
    } else {
        SepSet::Both
    }
}

/// A separator right after the prefix.
pub open spec fn phys_root(s: Seq<char>, style: PathStyle) -> bool {
    s.len() > prefix_len(s, style) && in_set(s[prefix_len(s, style)], sep_set(s, style))
}

/// The path is rooted: by a separator after the prefix, or by a prefix other
/// than a drive.
pub open spec fn has_root(s: Seq<char>, style: PathStyle) -> bool {
    phys_root(s, style) || (prefix_of(s, style) matches Some(p) && !(p.0 is Disk))
}

/// The path has a root component: a separator after the prefix, or a share
/// or device prefix.
pub open spec fn root_component(s: Seq<char>, style: PathStyle) -> bool {
    phys_root(s, style) || (prefix_of(s, style) matches Some(p) && (p.0 is UNC || p.0 is DeviceNS))
}

/// Where the components after prefix and root begin.
pub open spec fn body_start(s: Seq<char>, style: PathStyle) -> int {
    prefix_len(s, style) + if phys_root(s, style) {
        1int
    } else {
        0int
    }
}

/// A path without root whose first segment is `.` keeps that `.` as a
/// component of its own.
pub open spec fn has_cur_dir(s: Seq<char>, style: PathStyle) -> bool {
    let p = prefix_len(s, style);
    &&& !has_root(s, style)
    &&& s.len() > p
    &&& s[p] == '.'
    &&& (s.len() == p + 1 || in_set(s[p + 1], sep_set(s, style)))
}

/// Start of the separator-free segment that ends at `n`, looking no further
/// back than `b`.
pub open spec fn segment_start(s: Seq<char>, m: SepSet, b: int, n: int) -> int
    decreases n - b,
{
    if n <= b {
        b
    } else if in_set(s[n - 1], m) {
        n
    } else {
        segment_start(s, m, b, n - 1)
    }
}

/// The segment `s[a..e]` is a component: it is not empty, and not `.`
/// unless `.` is kept (after a verbatim prefix).
pub open spec fn keeps_name(s: Seq<char>, a: int, e: int, m: SepSet) -> bool {
    e > a && (m == SepSet::Backslash || !(e == a + 1 && s[a] == '.'))
}

/// Spans of the components among the segments of `s[b..n]` that a separator
/// before `n` closes, in order.
pub open spec fn closed_names(s: Seq<char>, m: SepSet, b: int, n: int) -> Seq<(int, int)>
    decreases n - b,
{
    if n <= b {
        seq![]
    } else {
        let r = closed_names(s, m, b, n - 1);
        let a = segment_start(s, m, b, n - 1);
        if in_set(s[n - 1], m) && keeps_name(s, a, n - 1, m) {
            r.push((a, n - 1))
        } else {
            r
        }
    }
}

/// Spans of the names of a path: the segments after prefix and root,
/// split at separators, without the empty ones and (but after a verbatim
/// prefix) without `.`.
pub open spec fn name_spans(s: Seq<char>, style: PathStyle) -> Seq<(int, int)> {
    let m = sep_set(s, style);
    let b = body_start(s, style);
    let n = s.len() as int;
    let r = closed_names(s, m, b, n);
    let a = segment_start(s, m, b, n);
    if keeps_name(s, a, n, m) {
        r.push((a, n))
    } else {
        r
    }
}

pub open spec fn span_text(s: Seq<char>, sp: (int, int)) -> Seq<char> {
    s.subrange(sp.0, sp.1)
}

/// One component of a path.
pub enum PathComp {
    Prefix(WinPrefix),
    RootDir,
    CurDir,
    ParentDir,
    Normal(Seq<char>),
}

pub open spec fn name_component(t: Seq<char>) -> PathComp {
    if t == seq!['.', '.'] {
        PathComp::ParentDir
    } else if t == seq!['.'] {
        PathComp::CurDir
    } else {
        PathComp::Normal(t)
    }
}

/// The components of a path, in order: the prefix, the root, a leading `.`,
/// then one per name (`..` as the parent directory, `.` after a verbatim
/// prefix as the current one).
#[verifier::opaque]
pub open spec fn path_components(s: Seq<char>, style: PathStyle) -> Seq<PathComp> {
    let pre = match prefix_of(s, style) {
        Some(p) => seq![PathComp::Prefix(p.0)],
        None => Seq::<PathComp>::empty(),
    };
    let root = if root_component(s, style) {
        seq![PathComp::RootDir]
    } else {
        Seq::<PathComp>::empty()
    };
    let cur = if has_cur_dir(s, style) {
        seq![PathComp::CurDir]
    } else {
        Seq::<PathComp>::empty()
    };
    pre + root + cur + name_spans(s, style).map_values(
        |sp: (int, int)| name_component(span_text(s, sp)),
    )
}

/// The last component, when it is a name other than `.` and `..`.
pub open spec fn path_file_name(s: Seq<char>, style: PathStyle) -> Option<Seq<char>> {
    let ns = name_spans(s, style);
    if ns.len() > 0 && span_text(s, ns.last()) != seq!['.', '.'] && span_text(s, ns.last())
        != seq!['.'] {
        Some(span_text(s, ns.last()))
    } else {
        None
    }
}

/// The path without its last component, with the separators and `.`
/// segments that end up trailing cut off; none when the path is only a
/// prefix and root, or empty.
pub open spec fn path_parent(s: Seq<char>, style: PathStyle) -> Option<Seq<char>> {
    let ns = name_spans(s, style);
    if ns.len() > 1 {
        Some(s.take(ns[ns.len() - 2].1))
    } else if ns.len() == 1 {
        Some(
            s.take(
                body_start(s, style) + if has_cur_dir(s, style) {
                    1int
                } else {
                    0int
                },
            ),
        )
    } else if has_cur_dir(s, style) {
        Some(s.take(prefix_len(s, style)))
    } else {
        None
    }
}

/// `scan_sep` stops at a separator or the end, past no separator.
pub proof fn lemma_scan_sep(s: Seq<char>, i: int, verbatim: bool)
    requires
        0 <= i <= s.len(),
    ensures
        i <= scan_sep(s, i, verbatim) <= s.len(),
        scan_sep(s, i, verbatim) < s.len() ==> (s[scan_sep(s, i, verbatim)] == '\\' || (!verbatim
            && s[scan_sep(s, i, verbatim)] == '/')),
        forall|j: int|
            i <= j < scan_sep(s, i, verbatim) ==> !(#[trigger] s[j] == '\\' || (!verbatim && s[j]
                == '/')),
    decreases s.len() - i,
{
    if i < s.len() && !(s[i] == '\\' || (!verbatim && s[i] == '/')) {
        lemma_scan_sep(s, i + 1, verbatim);
    }
}

/// A prefix is at least two characters long and lies within the path.
pub proof fn lemma_prefix_bounds(s: Seq<char>, style: PathStyle)
    ensures
        0 <= prefix_len(s, style) <= s.len(),
        prefix_of(s, style) is Some ==> prefix_len(s, style) >= 2,
        prefix_of(s, style) is None ==> prefix_len(s, style) == 0,
{
    if s.len() >= 2 {
        lemma_scan_sep(s, 2, false);
    }
    if s.len() >= 4 {
        lemma_scan_sep(s, 4, true);
        lemma_scan_sep(s, 4, false);
    }
    if s.len() >= 8 {
        lemma_scan_sep(s, 8, true);
        let e1 = scan_sep(s, 8, true);
        if e1 < s.len() {
            lemma_scan_sep(s, e1 + 1, true);
        }
    }
    let e1 = scan_sep(s, 2, false);
    if 2 <= e1 < s.len() {
        lemma_scan_sep(s, e1 + 1, false);
    }
}


pub open spec fn spans_view(v: Seq<(usize, usize)>) -> Seq<(int, int)> {
    v.map_values(|p: (usize, usize)| (p.0 as int, p.1 as int))
}

/// The spans that `closed_names` collects are separator-free names in
/// `s[b..n]`, in increasing order, each ended by a separator, all before the
/// segment that is still open at `n`.
proof fn lemma_closed_names_shape(s: Seq<char>, m: SepSet, b: int, n: int)
    requires
        0 <= b <= n <= s.len(),
    ensures
        b <= segment_start(s, m, b, n) <= n,
        segment_start(s, m, b, n) == b || in_set(s[segment_start(s, m, b, n) - 1], m),
        forall|i: int|
            segment_start(s, m, b, n) <= i < n ==> !in_set(#[trigger] s[i], m),
        forall|k: int|
            0 <= k < closed_names(s, m, b, n).len() ==> {
                let sp = #[trigger] closed_names(s, m, b, n)[k];
                &&& b <= sp.0 < sp.1 < segment_start(s, m, b, n)
                &&& keeps_name(s, sp.0, sp.1, m)
                &&& in_set(s[sp.1], m)
                &&& (sp.0 == b || in_set(s[sp.0 - 1], m))
                &&& forall|i: int| sp.0 <= i < sp.1 ==> !in_set(#[trigger] s[i], m)
            },
        forall|k1: int, k2: int|
            0 <= k1 < k2 < closed_names(s, m, b, n).len() ==> (#[trigger] closed_names(
                s,
                m,
                b,
                n,
            )[k1]).1 < (#[trigger] closed_names(s, m, b, n)[k2]).0,
    decreases n - b,
{
    if n > b {
        lemma_closed_names_shape(s, m, b, n - 1);
        let r = closed_names(s, m, b, n - 1);
        let a = segment_start(s, m, b, n - 1);
        let c = closed_names(s, m, b, n);
        if in_set(s[n - 1], m) && keeps_name(s, a, n - 1, m) {
            assert(c == r.push((a, n - 1)));
            assert forall|k: int| 0 <= k < c.len() implies {
                let sp = #[trigger] c[k];
                &&& b <= sp.0 < sp.1 < segment_start(s, m, b, n)
                &&& keeps_name(s, sp.0, sp.1, m)
                &&& in_set(s[sp.1], m)
                &&& (sp.0 == b || in_set(s[sp.0 - 1], m))
                &&& forall|i: int| sp.0 <= i < sp.1 ==> !in_set(#[trigger] s[i], m)
            } by {
                if k < r.len() {
                    assert(c[k] == r[k]);
                }
            }
            assert forall|k1: int, k2: int| 0 <= k1 < k2 < c.len() implies (#[trigger] c[k1]).1 < (
            #[trigger] c[k2]).0 by {
                assert(c[k1] == r[k1]);
                if k2 < r.len() {
                    assert(c[k2] == r[k2]);
                }
            }
        } else {
            assert(c == r);
        }
    }
}

/// The spans of the names: separator-free, in increasing order, between the
/// body's start and the end of the path; a span that does not end the path
/// is followed by a separator.
pub proof fn lemma_name_spans_shape(s: Seq<char>, style: PathStyle)
    ensures
        forall|k: int|
            0 <= k < name_spans(s, style).len() ==> {
                let sp = #[trigger] name_spans(s, style)[k];
                &&& body_start(s, style) <= sp.0 < sp.1 <= s.len()
                &&& keeps_name(s, sp.0, sp.1, sep_set(s, style))
                &&& (sp.1 == s.len() || in_set(s[sp.1], sep_set(s, style)))
                &&& (sp.0 == body_start(s, style) || in_set(s[sp.0 - 1], sep_set(s, style)))
                &&& forall|i: int| sp.0 <= i < sp.1 ==> !in_set(#[trigger] s[i], sep_set(s, style))
            },
        forall|k1: int, k2: int|
            0 <= k1 < k2 < name_spans(s, style).len() ==> (#[trigger] name_spans(s, style)[k1]).1
                < (#[trigger] name_spans(s, style)[k2]).0,
{
    lemma_prefix_bounds(s, style);
    let b = body_start(s, style);
    let n = s.len() as int;
    lemma_closed_names_shape(s, sep_set(s, style), b, n);
}

/// The parent of a path is shorter than the path.
pub proof fn lemma_parent_shorter(s: Seq<char>, style: PathStyle)
    ensures
        path_parent(s, style) matches Some(q) ==> q.len() < s.len(),
{
    lemma_name_spans_shape(s, style);
    lemma_prefix_bounds(s, style);
    let ns = name_spans(s, style);
    let p = prefix_len(s, style);
    if ns.len() > 1 {
        assert(ns[ns.len() - 2].1 < ns[ns.len() - 1].0);
    } else if ns.len() == 1 {
        let sp = ns[0];
        if has_cur_dir(s, style) {
            assert(body_start(s, style) == p);
            if sp.0 == p {
                if sp.1 > p + 1 {
                    assert(!in_set(s[p + 1], sep_set(s, style)));
                }
                assert(!keeps_name(s, sp.0, sp.1, sep_set(s, style)));
            }
        }
    }
}

pub fn is_separator(c: char, style: PathStyle) -> (r: bool)
    ensures
        r == is_sep(c, style),
{
    c == '/' || (style == PathStyle::Windows && c == '\\')
}

/// The characters of a string, in a vector.
pub fn chars_of(s: &str) -> (v: Vec<char>)
    ensures
        v@ == s@,
{
    let n = s.unicode_len();
    let mut v: Vec<char> = Vec::new();
    let mut i: usize = 0;
    while i < n
        invariant
            n == s@.len(),
            i <= n,
            v@ == s@.take(i as int),
        decreases n - i,
    {
        let c = s.get_char(i);
        v.push(c);
        i += 1;
        assert(v@ =~= s@.take(i as int));
    }
    assert(s@.take(n as int) =~= s@);
    v
}


fn sub_chars(v: &Vec<char>, a: usize, e: usize) -> (r: Vec<char>)
    requires
        a <= e <= v.len(),
    ensures
        r@ == v@.subrange(a as int, e as int),
{
    let mut r: Vec<char> = Vec::new();
    let mut i: usize = a;
    while i < e
        invariant
            a <= i <= e <= v.len(),
            r@ == v@.subrange(a as int, i as int),
        decreases e - i,
    {
        r.push(v[i]);
        i += 1;
        assert(r@ =~= v@.subrange(a as int, i as int));
    }
    r
}


pub fn in_sep_set(c: char, m: SepSet) -> (r: bool)
    ensures
        r == in_set(c, m),
{
    match m {
        SepSet::Slash => c == '/',
        SepSet::Both => c == '/' || c == '\\',
        SepSet::Backslash => c == '\\',
    }
}

/// A path prefix, as a value.
pub enum Prefix {
    Verbatim(Vec<char>),
    VerbatimUNC(Vec<char>, Vec<char>),
    VerbatimDisk(u32),
    DeviceNS(Vec<char>),
    UNC(Vec<char>, Vec<char>),
    Disk(u32),
}

impl View for Prefix {
    type V = WinPrefix;

    open spec fn view(&self) -> WinPrefix {
        match self {
            Prefix::Verbatim(x) => WinPrefix::Verbatim(x@),
            Prefix::VerbatimUNC(x, y) => WinPrefix::VerbatimUNC(x@, y@),
            Prefix::VerbatimDisk(d) => WinPrefix::VerbatimDisk(*d as int),
            Prefix::DeviceNS(x) => WinPrefix::DeviceNS(x@),
            Prefix::UNC(x, y) => WinPrefix::UNC(x@, y@),
            Prefix::Disk(d) => WinPrefix::Disk(*d as int),
        }
    }
}

fn scan_sep_at(v: &Vec<char>, i: usize, verbatim: bool) -> (r: usize)
    requires
        i <= v.len(),
    ensures
        r as int == scan_sep(v@, i as int, verbatim),
        i <= r <= v.len(),
{
    proof {
        lemma_scan_sep(v@, i as int, verbatim);
    }
    let mut j: usize = i;
    while j < v.len() && !(v[j] == '\\' || (!verbatim && v[j] == '/'))
        invariant
            i <= j <= v.len(),
            scan_sep(v@, j as int, verbatim) == scan_sep(v@, i as int, verbatim),
        decreases v.len() - j,
    {
        j += 1;
    }
    j
}

fn is_alpha(c: char) -> (r: bool)
    ensures
        r == is_ascii_alpha(c),
{
    ('a' <= c && c <= 'z') || ('A' <= c && c <= 'Z')
}

fn upper(c: char) -> (r: u32)
    ensures
        r as int == upper_code(c),
{
    let code = c as u32;
    if 97 <= code && code <= 122 {
        code - 32
    } else {
        code
    }
}

/// The prefix of a path and its length (see `prefix_of`).
fn parse_prefix(v: &Vec<char>, style: PathStyle) -> (r: (Option<Prefix>, usize))
    ensures
        match prefix_of(v@, style) {
            Some(p) => r.0 matches Some(x) && x@ == p.0 && r.1 as int == p.1,
            None => r.0 is None && r.1 == 0,
        },
{
    let n = v.len();
    if style == PathStyle::Unix {
        return (None, 0);
    }
    if n >= 2 && (v[0] == '\\' || v[0] == '/') && (v[1] == '\\' || v[1] == '/') {
        if n >= 4 && v[0] == '\\' && v[1] == '\\' && v[2] == '?' && v[3] == '\\' {
            if n >= 8 && v[4] == 'U' && v[5] == 'N' && v[6] == 'C' && (v[7] == '\\' || v[7]
                == '/') {
                let e1 = scan_sep_at(v, 8, true);
                let server = sub_chars(v, 8, e1);
                if e1 < n {
                    let e2 = scan_sep_at(v, e1 + 1, true);
                    let share = sub_chars(v, e1 + 1, e2);
                    if e2 > e1 + 1 {
                        return (Some(Prefix::VerbatimUNC(server, share)), e2);
                    }
                    return (Some(Prefix::VerbatimUNC(server, share)), e1);
                }
                let share: Vec<char> = Vec::new();
                return (Some(Prefix::VerbatimUNC(server, share)), e1);
            }
            if n >= 6 && is_alpha(v[4]) && v[5] == ':' && (n == 6 || v[6] == '\\') {
                return (Some(Prefix::VerbatimDisk(upper(v[4]))), 6);
            }
            let e = scan_sep_at(v, 4, true);
            return (Some(Prefix::Verbatim(sub_chars(v, 4, e))), e);
        }
        if n >= 4 && v[2] == '.' && (v[3] == '\\' || v[3] == '/') {
            let e = scan_sep_at(v, 4, false);
            return (Some(Prefix::DeviceNS(sub_chars(v, 4, e))), e);
        }
        let e1 = scan_sep_at(v, 2, false);
        if e1 > 2 && e1 < n {
            let e2 = scan_sep_at(v, e1 + 1, false);
            if e2 > e1 + 1 {
                return (Some(Prefix::UNC(sub_chars(v, 2, e1), sub_chars(v, e1 + 1, e2))), e2);
            }
        }
        return (None, 0);
    }
    if n >= 2 && is_alpha(v[0]) && v[1] == ':' {
        return (Some(Prefix::Disk(upper(v[0]))), 2);
    }
    (None, 0)
}

fn prefix_is_verbatim(k: &Option<Prefix>) -> (r: bool)
    ensures
        r == (k matches Some(x) && is_verbatim_prefix(x@)),
{
    match k {
        Some(Prefix::Verbatim(_)) => true,
        Some(Prefix::VerbatimUNC(_, _)) => true,
        Some(Prefix::VerbatimDisk(_)) => true,
        _ => false,
    }
}

/// A path split up: its characters, its prefix and the prefix's length, its
/// separators, whether a separator follows the prefix, whether it has a root
/// component, whether it starts with `.`, and the spans of its names.
struct Parsed {
    chars: Vec<char>,
    kind: Option<Prefix>,
    prefix: usize,
    seps: SepSet,
    root: bool,
    root_comp: bool,
    cur_dir: bool,
    names: Vec<(usize, usize)>,
}

spec fn parsed_from(p: Parsed, s: Seq<char>, style: PathStyle) -> bool {
    &&& p.chars@ == s
    &&& match prefix_of(s, style) {
        Some(q) => p.kind matches Some(x) && x@ == q.0,
        None => p.kind is None,
    }
    &&& p.prefix as int == prefix_len(s, style)
    &&& p.seps == sep_set(s, style)
    &&& p.root == phys_root(s, style)
    &&& p.root_comp == root_component(s, style)
    &&& p.cur_dir == has_cur_dir(s, style)
    &&& spans_view(p.names@) == name_spans(s, style)
    &&& forall|k: int| 0 <= k < p.names@.len() ==> #[trigger] p.names@[k].0 <= p.names@[k].1 <= s.len()
}

fn keeps(v: &Vec<char>, a: usize, e: usize, m: SepSet) -> (r: bool)
    requires
        a <= e <= v.len(),
    ensures
        r == keeps_name(v@, a as int, e as int, m),
{
    e > a && (m == SepSet::Backslash || !(e == a + 1 && v[a] == '.'))
}


proof fn lemma_spans_view_push(v: Seq<(usize, usize)>, x: (usize, usize))
    ensures
        spans_view(v.push(x)) == spans_view(v).push((x.0 as int, x.1 as int)),
{
    assert(spans_view(v.push(x)) =~= spans_view(v).push((x.0 as int, x.1 as int)));
}


#[verifier::spinoff_prover]
#[verifier::rlimit(40)]
fn parse(s: &str, style: PathStyle) -> (p: Parsed)
    ensures
        parsed_from(p, s@, style),
{
    let v = chars_of(s);
    let n = v.len();
    let (kind, prefix) = parse_prefix(&v, style);
    proof {
        lemma_prefix_bounds(v@, style);
    }
    let verbatim = prefix_is_verbatim(&kind);
    let seps = if style == PathStyle::Unix {
        SepSet::Slash
    } else if verbatim {
        SepSet::Backslash
    } else {
        SepSet::Both
    };
    let (implicit, device_or_share) = match &kind {
        Some(Prefix::Disk(_)) => (false, false),
        Some(Prefix::UNC(_, _)) => (true, true),
        Some(Prefix::DeviceNS(_)) => (true, true),
        Some(_) => (true, false),
        None => (false, false),
    };
    let root = n > prefix && in_sep_set(v[prefix], seps);
    let root_comp = root || device_or_share;
    let cur_dir = !(root || implicit) && n > prefix && v[prefix] == '.' && (n == prefix + 1
        || in_sep_set(v[prefix + 1], seps));
    let b: usize = if root {
        prefix + 1
    } else {
        prefix
    };
    let ghost sv = v@;
    let mut names: Vec<(usize, usize)> = Vec::new();
    let mut seg: usize = b;
    let mut i: usize = b;
    while i < n
        invariant
            v@ == sv,
            n == v.len(),
            b <= seg <= i <= n,
            seg as int == segment_start(sv, seps, b as int, i as int),
            spans_view(names@) == closed_names(sv, seps, b as int, i as int),
            forall|k: int| 0 <= k < names@.len() ==> #[trigger] names@[k].0 <= names@[k].1 <= n,
        decreases n - i,
    {
        if in_sep_set(v[i], seps) {
            if keeps(&v, seg, i, seps) {
                proof {
                    lemma_spans_view_push(names@, (seg, i));
                }
                names.push((seg, i));
            }
            seg = i + 1;
        }
        i += 1;
    }
    let ghost closed = names@;
    assert(forall|k: int| 0 <= k < closed.len() ==> #[trigger] closed[k].0 <= closed[k].1 <= n) by {
        assert(closed == names@);
    }
    if keeps(&v, seg, n, seps) {
        proof {
            lemma_spans_view_push(names@, (seg, n));
        }
        names.push((seg, n));
    }
    assert(forall|k: int| 0 <= k < names@.len() ==> #[trigger] names@[k].0 <= names@[k].1 <= n) by {
        assert forall|k: int| 0 <= k < names@.len() implies #[trigger] names@[k].0 <= names@[k].1
            <= n by {
            if k < closed.len() {
                assert(names@[k] == closed[k]);
                assert(closed[k].0 <= closed[k].1 <= n);
            } else {
                assert(names@[k] == (seg, n));
            }
        }
    }
    proof {
        let ss = v@;
        assert(prefix as int == prefix_len(ss, style));
        assert(seps == sep_set(ss, style));
        assert(root == phys_root(ss, style));
        assert(root_comp == root_component(ss, style));
        assert(cur_dir == has_cur_dir(ss, style));
        assert(b as int == body_start(ss, style));
        assert(spans_view(names@) == name_spans(ss, style));
        assert(v@ == s@);
        assert(match prefix_of(ss, style) {
            Some(q) => kind matches Some(x) && x@ == q.0,
            None => kind is None,
        });
        assert(n == ss.len());
    }
    let p = Parsed { chars: v, kind, prefix, seps, root, root_comp, cur_dir, names };
    proof {
        assert(parsed_from(p, s@, style));
    }
    p
}

/// The file name of a path: its last component, when that is a name other
/// than `.` and `..`.
pub fn file_name(path: &str, style: PathStyle) -> (r: Option<String>)
    ensures
        r matches Some(x) ==> path_file_name(path@, style) == Some(x@),
        r is None ==> path_file_name(path@, style) is None,
{
    let p = parse(path, style);
    let k = p.names.len();
    if k == 0 {
        return None;
    }
    let (a, e) = p.names[k - 1];
    proof {
        assert(spans_view(p.names@)[k - 1] == (a as int, e as int));
        assert(p.names@[k - 1].0 <= p.names@[k - 1].1 <= path@.len());
    }
    if e - a == 2 && p.chars[a] == '.' && p.chars[a + 1] == '.' {
        proof {
            assert(span_text(path@, (a as int, e as int)) =~= seq!['.', '.']);
        }
        return None;
    }
    if e - a == 1 && p.chars[a] == '.' {
        proof {
            assert(span_text(path@, (a as int, e as int)) =~= seq!['.']);
        }
        return None;
    }
    proof {
        let t = span_text(path@, (a as int, e as int));
        if t == seq!['.', '.'] {
            assert(t.len() == 2);
            assert(t[0] == path@[a as int]);
            assert(t[1] == path@[a + 1]);
        }
        if t == seq!['.'] {
            assert(t.len() == 1);
            assert(t[0] == path@[a as int]);
        }
    }
    Some(path.substring_char(a, e).to_owned())
}

/// The parent of a path: the path without its last component (see
/// `path_parent`).
pub fn parent(path: &str, style: PathStyle) -> (r: Option<String>)
    ensures
        r matches Some(x) ==> path_parent(path@, style) == Some(x@),
        r is None ==> path_parent(path@, style) is None,
{
    let p = parse(path, style);
    let k = p.names.len();
    proof {
        lemma_prefix_bounds(path@, style);
        lemma_name_spans_shape(path@, style);
    }
    if k > 1 {
        let (a, e) = p.names[k - 2];
        proof {
            assert(spans_view(p.names@)[k - 2] == (a as int, e as int));
        }
        Some(path.substring_char(0, e).to_owned())
    } else if k == 1 {
        let b: usize = p.prefix + (if p.root {
            1usize
        } else {
            0usize
        }) + (if p.cur_dir {
            1usize
        } else {
            0usize
        });
        Some(path.substring_char(0, b).to_owned())
    } else if p.cur_dir {
        Some(path.substring_char(0, p.prefix).to_owned())
    } else {
        None
    }
}

/// The separator that joining inserts.
pub open spec fn main_sep(style: PathStyle) -> char {
    if style == PathStyle::Windows {
        '\\'
    } else {
        '/'
    }
}

/// A path with neither prefix nor root, which joining appends rather than
/// substitutes.
pub open spec fn is_plain_relative(rel: Seq<char>, style: PathStyle) -> bool {
    prefix_len(rel, style) == 0 && !has_root(rel, style)
}

/// A separator goes between base and appended path unless the base is
/// empty, already ends in a separator, or is a bare drive prefix such as
/// `C:`.
pub open spec fn join_needs_sep(base: Seq<char>, style: PathStyle) -> bool {
    base.len() > 0 && !is_sep(base.last(), style) && !(prefix_len(base, style) == 2 && base.len()
        == 2)
}

/// The names of a path put back together: each preceded by `\`, but the
/// first when the path is rooted.
pub open spec fn render_names(s: Seq<char>, ns: Seq<(int, int)>, rooted: bool) -> Seq<char>
    decreases ns.len(),
{
    if ns.len() == 0 {
        Seq::<char>::empty()
    } else {
        render_names(s, ns.drop_last(), rooted) + (if ns.len() == 1 && rooted {
            Seq::<char>::empty()
        } else {
            seq!['\\']
        }) + span_text(s, ns.last())
    }
}

/// Joining onto a path with a verbatim prefix rebuilds it from its
/// components: the prefix, `\` for a root, the names separated by `\`,
/// then `\` and the new name (no `\` right after a bare root).
pub open spec fn verbatim_join(base: Seq<char>, name: Seq<char>) -> Seq<char> {
    let w = PathStyle::Windows;
    let rooted = phys_root(base, w);
    let ns = name_spans(base, w);
    base.take(prefix_len(base, w)) + (if rooted {
        seq!['\\']
    } else {
        Seq::<char>::empty()
    }) + render_names(base, ns, rooted) + (if rooted && ns.len() == 0 {
        Seq::<char>::empty()
    } else {
        seq!['\\']
    }) + name
}

/// Joining a relative path onto a base: after a verbatim prefix the base is
/// rebuilt from its components; otherwise the path is appended, with a
/// separator where `join_needs_sep` asks for one.
pub open spec fn path_join(base: Seq<char>, rel: Seq<char>, style: PathStyle) -> Seq<char> {
    if is_verbatim(base, style) && rel.len() > 0 {
        verbatim_join(base, rel)
    } else if join_needs_sep(base, style) {
        base + seq![main_sep(style)] + rel
    } else {
        base + rel
    }
}

fn join_verbatim(p: &Parsed, base: &str, rel: &str) -> (r: String)
    requires
        parsed_from(*p, base@, PathStyle::Windows),
    ensures
        r@ == verbatim_join(base@, rel@),
{
    let ghost s = base@;
    let ghost ns = name_spans(s, PathStyle::Windows);
    proof {
        lemma_prefix_bounds(s, PathStyle::Windows);
        reveal_strlit("\\");
    }
    let mut r = base.substring_char(0, p.prefix).to_owned();
    if p.root {
        r.append("\\");
    }
    let ghost head = r@;
    let k = p.names.len();
    let mut j: usize = 0;
    while j < k
        invariant
            parsed_from(*p, s, PathStyle::Windows),
            s == base@,
            ns == name_spans(s, PathStyle::Windows),
            k == p.names.len(),
            j <= k,
            r@ == head + render_names(s, ns.take(j as int), p.root),
        decreases k - j,
    {
        let (a, e) = p.names[j];
        proof {
            assert(spans_view(p.names@)[j as int] == (a as int, e as int));
            assert(p.names@[j as int].0 <= p.names@[j as int].1 <= s.len());
        }
        let piece = base.substring_char(a, e);
        proof {
            reveal_strlit("\\");
        }
        let ghost before = r@;
        let ghost sep: Seq<char> = if j == 0 && p.root {
            Seq::<char>::empty()
        } else {
            seq!['\\']
        };
        if !(j == 0 && p.root) {
            r.append("\\");
        }
        assert(r@ =~= before + sep);
        r.append(piece);
        j += 1;
        proof {
            let t = ns.take(j as int);
            assert(t.drop_last() =~= ns.take(j - 1));
            assert(t.last() == (a as int, e as int));
            assert(piece@ == span_text(s, t.last()));
            assert(render_names(s, t, p.root) == render_names(s, ns.take(j - 1), p.root) + sep
                + span_text(s, t.last()));
            assert(r@ =~= head + render_names(s, t, p.root));
        }
    }
    proof {
        assert(ns.take(k as int) =~= ns);
    }
    if !(p.root && k == 0) {
        r.append("\\");
    }
    r.append(rel);
    proof {
        assert(r@ =~= verbatim_join(s, rel@));
    }
    r
}

/// Joins a name onto a base (see `path_join`).
pub fn join(base: &str, rel: &str, style: PathStyle) -> (r: String)
    requires
        is_plain_relative(rel@, style),
        style == PathStyle::Windows ==> is_plain_name(rel@, style),
    ensures
        r@ == path_join(base@, rel@, style),
{
    let p = parse(base, style);
    if p.seps == SepSet::Backslash && rel.unicode_len() > 0 {
        return join_verbatim(&p, base, rel);
    }
    let n = p.chars.len();
    let drive_only = p.prefix == 2 && n == 2;
    let need_sep = n > 0 && !is_separator(p.chars[n - 1], style) && !drive_only;
    let mut r = String::from_str(base);
    if need_sep {
        if style == PathStyle::Windows {
            proof {
                reveal_strlit("\\");
            }
            r.append("\\");
        } else {
            proof {
                reveal_strlit("/");
            }
            r.append("/");
        }
    }
    r.append(rel);
    proof {
        if need_sep {
            assert(r@ =~= base@ + seq![main_sep(style)] + rel@);
        }
    }
    r
}


/// Position of the last `.` among the first `n` characters, or -1.
pub open spec fn last_dot(f: Seq<char>, n: int) -> int
    decreases n,
{
    if n <= 0 {
        -1
    } else if f[n - 1] == '.' {
        n - 1
    } else {
        last_dot(f, n - 1)
    }
}

/// The extension of a file name: what follows its last `.`, unless that
/// `.` is its first character or there is none.
pub open spec fn name_extension(f: Seq<char>) -> Option<Seq<char>> {
    let d = last_dot(f, f.len() as int);
    if d > 0 {
        Some(f.skip(d + 1))
    } else {
        None
    }
}

pub open spec fn path_extension(s: Seq<char>, style: PathStyle) -> Option<Seq<char>> {
    match path_file_name(s, style) {
        Some(f) => name_extension(f),
        None => None,
    }
}

proof fn lemma_last_dot_bounds(f: Seq<char>, n: int)
    requires
        0 <= n <= f.len(),
    ensures
        -1 <= last_dot(f, n) < n,
        last_dot(f, n) >= 0 ==> f[last_dot(f, n)] == '.',
    decreases n,
{
    if n > 0 && f[n - 1] != '.' {
        lemma_last_dot_bounds(f, n - 1);
    }
}

/// The extension of a path's file name.
pub fn extension(path: &str, style: PathStyle) -> (r: Option<String>)
    ensures
        r matches Some(x) ==> path_extension(path@, style) == Some(x@),
        r is None ==> path_extension(path@, style) is None,
{
    let name = match file_name(path, style) {
        Some(f) => f,
        None => return None,
    };
    let v = chars_of(name.as_str());
    let n = v.len();
    let mut i: usize = n;
    while i > 0 && v[i - 1] != '.'
        invariant
            i <= n == v.len(),
            last_dot(v@, n as int) == last_dot(v@, i as int),
        decreases i,
    {
        i -= 1;
    }
    proof {
        lemma_last_dot_bounds(v@, n as int);
    }
    if i <= 1 {
        None
    } else {
        Some(name.as_str().substring_char(i, n).to_owned())
    }
}


/// Rank of a component's kind, in the order the kinds compare.
pub open spec fn comp_rank(c: PathComp) -> int {
    match c {
        PathComp::Prefix(_) => 0,
        PathComp::RootDir => 1,
        PathComp::CurDir => 2,
        PathComp::ParentDir => 3,
        PathComp::Normal(_) => 4,
    }
}

/// Rank of a prefix's kind, in the order the kinds compare.
pub open spec fn prefix_rank(p: WinPrefix) -> int {
    match p {
        WinPrefix::Verbatim(_) => 0,
        WinPrefix::VerbatimUNC(_, _) => 1,
        WinPrefix::VerbatimDisk(_) => 2,
        WinPrefix::DeviceNS(_) => 3,
        WinPrefix::UNC(_, _) => 4,
        WinPrefix::Disk(_) => 5,
    }
}

/// Pairs of names in lexicographic order.
pub open spec fn pair_lt(a1: Seq<char>, a2: Seq<char>, b1: Seq<char>, b2: Seq<char>) -> bool {
    lex_lt(a1, b1, char_order()) || (a1 == b1 && lex_lt(a2, b2, char_order()))
}

/// Order on prefixes: by kind, then by their names or drive letter.
pub open spec fn prefix_lt(x: WinPrefix, y: WinPrefix) -> bool {
    if prefix_rank(x) != prefix_rank(y) {
        prefix_rank(x) < prefix_rank(y)
    } else {
        match (x, y) {
            (WinPrefix::Verbatim(a), WinPrefix::Verbatim(b)) => lex_lt(a, b, char_order()),
            (WinPrefix::VerbatimUNC(a1, a2), WinPrefix::VerbatimUNC(b1, b2)) => pair_lt(
                a1,
                a2,
                b1,
                b2,
            ),
            (WinPrefix::VerbatimDisk(a), WinPrefix::VerbatimDisk(b)) => a < b,
            (WinPrefix::DeviceNS(a), WinPrefix::DeviceNS(b)) => lex_lt(a, b, char_order()),
            (WinPrefix::UNC(a1, a2), WinPrefix::UNC(b1, b2)) => pair_lt(a1, a2, b1, b2),
            (WinPrefix::Disk(a), WinPrefix::Disk(b)) => a < b,
            _ => false,
        }
    }
}

/// Order on components: by kind (prefix, root, `.`, `..`, name), then
/// prefixes by `prefix_lt` and names by their characters.
pub open spec fn comp_lt(x: PathComp, y: PathComp) -> bool {
    if comp_rank(x) != comp_rank(y) {
        comp_rank(x) < comp_rank(y)
    } else {
        match (x, y) {
            (PathComp::Prefix(a), PathComp::Prefix(b)) => prefix_lt(a, b),
            (PathComp::Normal(a), PathComp::Normal(b)) => lex_lt(a, b, char_order()),
            _ => false,
        }
    }
}

pub open spec fn comp_order() -> spec_fn(PathComp, PathComp) -> bool {
    |x: PathComp, y: PathComp| comp_lt(x, y)
}

/// Two paths are the same when their components are.
pub open spec fn same_path(a: Seq<char>, b: Seq<char>, style: PathStyle) -> bool {
    path_components(a, style) == path_components(b, style)
}

/// Paths are ordered by their components, lexicographically.
pub open spec fn path_lt(a: Seq<char>, b: Seq<char>, style: PathStyle) -> bool {
    lex_lt(path_components(a, style), path_components(b, style), comp_order())
}

proof fn lemma_pair_order(a1: Seq<char>, a2: Seq<char>, b1: Seq<char>, b2: Seq<char>, c1: Seq<char>, c2: Seq<char>)
    ensures
        !pair_lt(a1, a2, a1, a2),
        pair_lt(a1, a2, b1, b2) && pair_lt(b1, b2, c1, c2) ==> pair_lt(a1, a2, c1, c2),
        (a1, a2) != (b1, b2) ==> pair_lt(a1, a2, b1, b2) || pair_lt(b1, b2, a1, a2),
{
    lemma_char_order_strict_total();
    lemma_lex_irreflexive(a1, char_order());
    lemma_lex_irreflexive(a2, char_order());
    lemma_lex_total(a1, b1, char_order());
    lemma_lex_total(a2, b2, char_order());
    if pair_lt(a1, a2, b1, b2) && pair_lt(b1, b2, c1, c2) {
        if lex_lt(a1, b1, char_order()) && lex_lt(b1, c1, char_order()) {
            lemma_lex_transitive(a1, b1, c1, char_order());
        }
        if a1 == b1 && b1 == c1 {
            lemma_lex_transitive(a2, b2, c2, char_order());
        }
    }
}

proof fn lemma_prefix_order_strict_total()
    ensures
        forall|x: WinPrefix| !#[trigger] prefix_lt(x, x),
        forall|x: WinPrefix, y: WinPrefix, z: WinPrefix| #[trigger]
            prefix_lt(x, y) && #[trigger] prefix_lt(y, z) ==> prefix_lt(x, z),
        forall|x: WinPrefix, y: WinPrefix| x != y ==> #[trigger] prefix_lt(x, y) || #[trigger] prefix_lt(y, x),
{
    lemma_char_order_strict_total();
    assert forall|x: WinPrefix| !#[trigger] prefix_lt(x, x) by {
        match x {
            WinPrefix::Verbatim(a) => lemma_lex_irreflexive(a, char_order()),
            WinPrefix::DeviceNS(a) => lemma_lex_irreflexive(a, char_order()),
            WinPrefix::VerbatimUNC(a1, a2) => lemma_pair_order(a1, a2, a1, a2, a1, a2),
            WinPrefix::UNC(a1, a2) => lemma_pair_order(a1, a2, a1, a2, a1, a2),
            _ => {},
        }
    }
    assert forall|x: WinPrefix, y: WinPrefix, z: WinPrefix| #[trigger]
        prefix_lt(x, y) && #[trigger] prefix_lt(y, z) implies prefix_lt(x, z) by {
        if prefix_rank(x) == prefix_rank(y) && prefix_rank(y) == prefix_rank(z) {
            match (x, y, z) {
                (WinPrefix::Verbatim(a), WinPrefix::Verbatim(b), WinPrefix::Verbatim(c)) => {
                    lemma_lex_transitive(a, b, c, char_order());
                },
                (WinPrefix::DeviceNS(a), WinPrefix::DeviceNS(b), WinPrefix::DeviceNS(c)) => {
                    lemma_lex_transitive(a, b, c, char_order());
                },
                (
                    WinPrefix::VerbatimUNC(a1, a2),
                    WinPrefix::VerbatimUNC(b1, b2),
                    WinPrefix::VerbatimUNC(c1, c2),
                ) => {
                    lemma_pair_order(a1, a2, b1, b2, c1, c2);
                },
                (WinPrefix::UNC(a1, a2), WinPrefix::UNC(b1, b2), WinPrefix::UNC(c1, c2)) => {
                    lemma_pair_order(a1, a2, b1, b2, c1, c2);
                },
                _ => {},
            }
        }
    }
    assert forall|x: WinPrefix, y: WinPrefix| x != y implies #[trigger] prefix_lt(x, y)
        || #[trigger] prefix_lt(y, x) by {
        match (x, y) {
            (WinPrefix::Verbatim(a), WinPrefix::Verbatim(b)) => {
                lemma_lex_total(a, b, char_order());
            },
            (WinPrefix::DeviceNS(a), WinPrefix::DeviceNS(b)) => {
                lemma_lex_total(a, b, char_order());
            },
            (WinPrefix::VerbatimUNC(a1, a2), WinPrefix::VerbatimUNC(b1, b2)) => {
                lemma_pair_order(a1, a2, b1, b2, a1, a2);
            },
            (WinPrefix::UNC(a1, a2), WinPrefix::UNC(b1, b2)) => {
                lemma_pair_order(a1, a2, b1, b2, a1, a2);
            },
            _ => {},
        }
    }
}

pub proof fn lemma_comp_order_strict_total()
    ensures
        strict_total(comp_order()),
{
    lemma_char_order_strict_total();
    lemma_prefix_order_strict_total();
    let lt = comp_order();
    assert forall|x: PathComp| !#[trigger] lt(x, x) by {
        if let PathComp::Normal(t) = x {
            lemma_lex_irreflexive(t, char_order());
        }
        if let PathComp::Prefix(p) = x {
            assert(!prefix_lt(p, p));
        }
    }
    assert forall|x: PathComp, y: PathComp, z: PathComp| #[trigger]
        lt(x, y) && #[trigger] lt(y, z) implies lt(x, z) by {
        if comp_rank(x) == comp_rank(y) && comp_rank(y) == comp_rank(z) {
            if let (PathComp::Normal(a), PathComp::Normal(b), PathComp::Normal(c)) = (x, y, z) {
                lemma_lex_transitive(a, b, c, char_order());
            }
            if let (PathComp::Prefix(a), PathComp::Prefix(b), PathComp::Prefix(c)) = (x, y, z) {
                assert(prefix_lt(a, b) && prefix_lt(b, c));
                assert(prefix_lt(a, c));
            }
        }
    }
    assert forall|x: PathComp, y: PathComp| x != y implies #[trigger] lt(x, y) || #[trigger] lt(
        y,
        x,
    ) by {
        if let (PathComp::Normal(a), PathComp::Normal(b)) = (x, y) {
            lemma_lex_total(a, b, char_order());
        }
        if let (PathComp::Prefix(a), PathComp::Prefix(b)) = (x, y) {
            assert(prefix_lt(a, b) || prefix_lt(b, a));
        }
    }
}


/// Path order is a strict total order on the paths' components.
pub proof fn lemma_path_order(a: Seq<char>, b: Seq<char>, c: Seq<char>, style: PathStyle)
    ensures
        !path_lt(a, a, style),
        path_lt(a, b, style) && path_lt(b, c, style) ==> path_lt(a, c, style),
        path_lt(a, b, style) || same_path(a, b, style) || path_lt(b, a, style),
        path_lt(a, b, style) ==> !same_path(a, b, style) && !path_lt(b, a, style),
{
    lemma_comp_order_strict_total();
    let (ca, cb, cc) = (
        path_components(a, style),
        path_components(b, style),
        path_components(c, style),
    );
    lemma_lex_trichotomy(ca, cb, comp_order());
    lemma_lex_irreflexive(ca, comp_order());
    if path_lt(a, b, style) && path_lt(b, c, style) {
        lemma_lex_transitive(ca, cb, cc, comp_order());
    }
}

/// One component of a path, as a value.
pub enum Component {
    Prefix(Prefix),
    RootDir,
    CurDir,
    ParentDir,
    Normal(Vec<char>),
}

impl View for Component {
    type V = PathComp;

    open spec fn view(&self) -> PathComp {
        match self {
            Component::Prefix(p) => PathComp::Prefix(p@),
            Component::RootDir => PathComp::RootDir,
            Component::CurDir => PathComp::CurDir,
            Component::ParentDir => PathComp::ParentDir,
            Component::Normal(t) => PathComp::Normal(t@),
        }
    }
}

pub open spec fn comps_view(v: Seq<Component>) -> Seq<PathComp> {
    v.map_values(|c: Component| c@)
}

/// Result of a three-way comparison.
#[derive(PartialEq, Eq, Structural, Clone, Copy, Debug)]
pub enum Order {
    Less,
    Equal,
    Greater,
}


/// The components of a path (see `path_components`).
pub fn components(path: &str, style: PathStyle) -> (r: Vec<Component>)
    ensures
        comps_view(r@) == path_components(path@, style),
{
    let p = parse(path, style);
    let ghost s = path@;
    let ghost ns = name_spans(s, style);
    proof {
        lemma_prefix_bounds(s, style);
    }
    let Parsed { chars, kind, root_comp, cur_dir, names, .. } = p;
    let mut r: Vec<Component> = Vec::new();
    let ghost pre = match prefix_of(s, style) {
        Some(q) => seq![PathComp::Prefix(q.0)],
        None => Seq::<PathComp>::empty(),
    };
    match kind {
        Some(k) => {
            r.push(Component::Prefix(k));
        },
        None => {},
    }
    proof {
        assert(comps_view(r@) =~= pre);
    }
    if root_comp {
        r.push(Component::RootDir);
    }
    if cur_dir {
        r.push(Component::CurDir);
    }
    let ghost head = comps_view(r@);
    let ghost f = |sp: (int, int)| name_component(span_text(s, sp));
    proof {
        let root_s = if root_component(s, style) {
            seq![PathComp::RootDir]
        } else {
            Seq::<PathComp>::empty()
        };
        let cur = if has_cur_dir(s, style) {
            seq![PathComp::CurDir]
        } else {
            Seq::<PathComp>::empty()
        };
        assert(head =~= pre + root_s + cur);
    }
    let k = names.len();
    let mut j: usize = 0;
    while j < k
        invariant
            chars@ == s,
            spans_view(names@) == ns,
            ns == name_spans(s, style),
            forall|q: int| 0 <= q < names@.len() ==> #[trigger] names@[q].0 <= names@[q].1 <= s.len(),
            f == (|sp: (int, int)| name_component(span_text(s, sp))),
            k == names.len(),
            j <= k,
            comps_view(r@) == head + ns.take(j as int).map_values(f),
        decreases k - j,
    {
        let (a, e) = names[j];
        proof {
            assert(spans_view(names@)[j as int] == (a as int, e as int));
            assert(names@[j as int].0 <= names@[j as int].1 <= s.len());
        }
        let t = sub_chars(&chars, a, e);
        let comp = if t.len() == 2 && t[0] == '.' && t[1] == '.' {
            proof {
                assert(t@ =~= seq!['.', '.']);
            }
            Component::ParentDir
        } else if t.len() == 1 && t[0] == '.' {
            proof {
                assert(t@ =~= seq!['.']);
            }
            Component::CurDir
        } else {
            proof {
                if t@ == seq!['.', '.'] {
                    assert(t@[0] == '.' && t@[1] == '.');
                }
                if t@ == seq!['.'] {
                    assert(t@[0] == '.');
                }
            }
            Component::Normal(t)
        };
        proof {
            assert(ns[j as int] == (a as int, e as int));
            assert(span_text(s, (a as int, e as int)) == t@);
            assert(comp@ == name_component(t@));
            assert(comp@ == f(ns[j as int]));
        }
        let ghost old_r = r@;
        let ghost cv = comp@;
        r.push(comp);
        j += 1;
        proof {
            assert(comps_view(r@) =~= comps_view(old_r).push(cv));
            assert(ns.take(j as int) =~= ns.take(j - 1).push(ns[j - 1]));
            assert(ns.take(j as int).map_values(f) =~= ns.take(j - 1).map_values(f).push(
                f(ns[j - 1]),
            ));
            assert(comps_view(r@) =~= head + ns.take(j as int).map_values(f));
        }
    }
    proof {
        assert(ns.take(k as int) =~= ns);
        reveal(path_components);
    }
    r
}


fn compare_chars(a: &Vec<char>, b: &Vec<char>) -> (r: Order)
    ensures
        (r == Order::Less) == lex_lt(a@, b@, char_order()),
        (r == Order::Equal) == (a@ == b@),
        (r == Order::Greater) == lex_lt(b@, a@, char_order()),
{
    proof {
        lemma_char_order_strict_total();
        lemma_lex_trichotomy(a@, b@, char_order());
    }
    let mut i: usize = 0;
    while i < a.len() && i < b.len()
        invariant
            i <= a.len(),
            i <= b.len(),
            a@.take(i as int) == b@.take(i as int),
        decreases a.len() - i,
    {
        if a[i] != b[i] {
            proof {
                lemma_lex_first_difference(a@, b@, i as int, char_order());
                lemma_lex_first_difference(b@, a@, i as int, char_order());
            }
            if a[i] < b[i] {
                return Order::Less;
            } else {
                return Order::Greater;
            }
        }
        i += 1;
        assert(a@.take(i as int) =~= a@.take(i - 1).push(a@[i - 1]));
        assert(b@.take(i as int) =~= b@.take(i - 1).push(b@[i - 1]));
    }
    if a.len() < b.len() {
        proof {
            assert(a@.take(a.len() as int) =~= a@);
            lemma_lex_prefix(a@, b@, char_order());
        }
        Order::Less
    } else if b.len() < a.len() {
        proof {
            assert(b@.take(b.len() as int) =~= b@);
            lemma_lex_prefix(b@, a@, char_order());
        }
        Order::Greater
    } else {
        proof {
            assert(a@ =~= a@.take(i as int));
            assert(b@ =~= b@.take(i as int));
        }
        Order::Equal
    }
}


fn prefix_rank_of(p: &Prefix) -> (r: u8)
    ensures
        r as int == prefix_rank(p@),
{
    match p {
        Prefix::Verbatim(_) => 0,
        Prefix::VerbatimUNC(_, _) => 1,
        Prefix::VerbatimDisk(_) => 2,
        Prefix::DeviceNS(_) => 3,
        Prefix::UNC(_, _) => 4,
        Prefix::Disk(_) => 5,
    }
}

fn compare_pairs(a1: &Vec<char>, a2: &Vec<char>, b1: &Vec<char>, b2: &Vec<char>) -> (r: Order)
    ensures
        (r == Order::Less) == pair_lt(a1@, a2@, b1@, b2@),
        (r == Order::Equal) == (a1@ == b1@ && a2@ == b2@),
        (r == Order::Greater) == pair_lt(b1@, b2@, a1@, a2@),
{
    proof {
        lemma_pair_order(a1@, a2@, b1@, b2@, a1@, a2@);
        lemma_char_order_strict_total();
        lemma_lex_trichotomy(a1@, b1@, char_order());
        lemma_lex_trichotomy(a2@, b2@, char_order());
    }
    match compare_chars(a1, b1) {
        Order::Equal => compare_chars(a2, b2),
        o => o,
    }
}

fn compare_codes(a: u32, b: u32) -> (r: Order)
    ensures
        (r == Order::Less) == (a < b),
        (r == Order::Equal) == (a == b),
        (r == Order::Greater) == (b < a),
{
    if a < b {
        Order::Less
    } else if b < a {
        Order::Greater
    } else {
        Order::Equal
    }
}

fn compare_prefix(x: &Prefix, y: &Prefix) -> (r: Order)
    ensures
        (r == Order::Less) == prefix_lt(x@, y@),
        (r == Order::Equal) == (x@ == y@),
        (r == Order::Greater) == prefix_lt(y@, x@),
{
    proof {
        lemma_char_order_strict_total();
        lemma_prefix_order_strict_total();
    }
    let rx = prefix_rank_of(x);
    let ry = prefix_rank_of(y);
    if rx < ry {
        return Order::Less;
    }
    if ry < rx {
        return Order::Greater;
    }
    match (x, y) {
        (Prefix::Verbatim(a), Prefix::Verbatim(b)) => compare_chars(a, b),
        (Prefix::VerbatimUNC(a1, a2), Prefix::VerbatimUNC(b1, b2)) => compare_pairs(a1, a2, b1, b2),
        (Prefix::VerbatimDisk(a), Prefix::VerbatimDisk(b)) => compare_codes(*a, *b),
        (Prefix::DeviceNS(a), Prefix::DeviceNS(b)) => compare_chars(a, b),
        (Prefix::UNC(a1, a2), Prefix::UNC(b1, b2)) => compare_pairs(a1, a2, b1, b2),
        (Prefix::Disk(a), Prefix::Disk(b)) => compare_codes(*a, *b),
        _ => Order::Equal,
    }
}


fn rank_of(c: &Component) -> (r: u8)
    ensures
        r as int == comp_rank(c@),
{
    match c {
        Component::Prefix(_) => 0,
        Component::RootDir => 1,
        Component::CurDir => 2,
        Component::ParentDir => 3,
        Component::Normal(_) => 4,
    }
}

fn compare_component(x: &Component, y: &Component) -> (r: Order)
    ensures
        (r == Order::Less) == comp_lt(x@, y@),
        (r == Order::Equal) == (x@ == y@),
        (r == Order::Greater) == comp_lt(y@, x@),
{
    proof {
        lemma_char_order_strict_total();
        lemma_prefix_order_strict_total();
    }
    let rx = rank_of(x);
    let ry = rank_of(y);
    if rx < ry {
        return Order::Less;
    }
    if ry < rx {
        return Order::Greater;
    }
    match (x, y) {
        (Component::Prefix(a), Component::Prefix(b)) => compare_prefix(a, b),
        (Component::Normal(a), Component::Normal(b)) => compare_chars(a, b),
        _ => Order::Equal,
    }
}


fn compare_component_seqs(a: &Vec<Component>, b: &Vec<Component>) -> (r: Order)
    ensures
        (r == Order::Less) == lex_lt(comps_view(a@), comps_view(b@), comp_order()),
        (r == Order::Equal) == (comps_view(a@) == comps_view(b@)),
        (r == Order::Greater) == lex_lt(comps_view(b@), comps_view(a@), comp_order()),
{
    let ghost va = comps_view(a@);
    let ghost vb = comps_view(b@);
    proof {
        lemma_comp_order_strict_total();
        lemma_lex_trichotomy(va, vb, comp_order());
    }
    let mut i: usize = 0;
    while i < a.len() && i < b.len()
        invariant
            va == comps_view(a@),
            vb == comps_view(b@),
            i <= a.len(),
            i <= b.len(),
            va.take(i as int) == vb.take(i as int),
        decreases a.len() - i,
    {
        let o = compare_component(&a[i], &b[i]);
        proof {
            assert(va[i as int] == a@[i as int]@);
            assert(vb[i as int] == b@[i as int]@);
        }
        match o {
            Order::Less => {
                proof {
                    lemma_lex_first_difference(va, vb, i as int, comp_order());
                    lemma_lex_first_difference(vb, va, i as int, comp_order());
                }
                return Order::Less;
            },
            Order::Greater => {
                proof {
                    lemma_lex_first_difference(va, vb, i as int, comp_order());
                    lemma_lex_first_difference(vb, va, i as int, comp_order());
                }
                return Order::Greater;
            },
            Order::Equal => {},
        }
        i += 1;
        assert(va.take(i as int) =~= va.take(i - 1).push(va[i - 1]));
        assert(vb.take(i as int) =~= vb.take(i - 1).push(vb[i - 1]));
    }
    if a.len() < b.len() {
        proof {
            assert(va.take(va.len() as int) =~= va);
            lemma_lex_prefix(va, vb, comp_order());
        }
        Order::Less
    } else if b.len() < a.len() {
        proof {
            assert(vb.take(vb.len() as int) =~= vb);
            lemma_lex_prefix(vb, va, comp_order());
        }
        Order::Greater
    } else {
        proof {
            assert(va =~= va.take(i as int));
            assert(vb =~= vb.take(i as int));
        }
        Order::Equal
    }
}

/// Compares two paths by their components.
pub fn compare_paths(a: &str, b: &str, style: PathStyle) -> (r: Order)
    ensures
        (r == Order::Less) == path_lt(a@, b@, style),
        (r == Order::Equal) == same_path(a@, b@, style),
        (r == Order::Greater) == path_lt(b@, a@, style),
{
    let ca = components(a, style);
    let cb = components(b, style);
    compare_component_seqs(&ca, &cb)
}

/// Whether two paths have the same components.
pub fn paths_same(a: &str, b: &str, style: PathStyle) -> (r: bool)
    ensures
        r == same_path(a@, b@, style),
{
    compare_paths(a, b, style) == Order::Equal
}

/// A path in its canonical form where one could be had, else as given.
pub open spec fn resolved(path: Seq<char>, canonical: Option<String>) -> Seq<char> {
    match canonical {
        Some(c) => c@,
        None => path,
    }
}

/// Whether two paths name the same place: each is taken in its canonical
/// form where one could be had, and the two are compared by components.
pub fn same_location(
    a: &str,
    a_canonical: Option<String>,
    b: &str,
    b_canonical: Option<String>,
    style: PathStyle,
) -> (r: bool)
    ensures
        r == same_path(resolved(a@, a_canonical), resolved(b@, b_canonical), style),
{
    let ra = match a_canonical {
        Some(c) => c,
        None => String::from_str(a),
    };
    let rb = match b_canonical {
        Some(c) => c,
        None => String::from_str(b),
    };
    paths_same(ra.as_str(), rb.as_str(), style)
}

/// Whether two strings hold the same characters.
pub fn same_text(a: &str, b: &str) -> (r: bool)
    ensures
        r == (a@ == b@),
{
    let va = chars_of(a);
    let vb = chars_of(b);
    compare_chars(&va, &vb) == Order::Equal
}

/// A single name: not empty, not `.` or `..`, without separators, and not
/// read as a drive prefix.
pub open spec fn is_plain_name(t: Seq<char>, style: PathStyle) -> bool {
    &&& t.len() > 0
    &&& t != seq!['.']
    &&& t != seq!['.', '.']
    &&& forall|i: int| 0 <= i < t.len() ==> !is_sep(#[trigger] t[i], style)
    &&& prefix_len(t, style) == 0
}


proof fn lemma_segment_start_after(s: Seq<char>, m0: SepSet, b: int, m: int, n: int)
    requires
        b <= m <= n <= s.len(),
        m == b || in_set(s[m - 1], m0),
        forall|i: int| m <= i < n ==> !in_set(#[trigger] s[i], m0),
    ensures
        segment_start(s, m0, b, n) == m,
    decreases n - m,
{
    if n > m {
        lemma_segment_start_after(s, m0, b, m, n - 1);
    } else if n > b {
        assert(in_set(s[n - 1], m0));
    }
}


/// Names are found from the characters before a position alone.
proof fn lemma_closed_names_prefix(s1: Seq<char>, s2: Seq<char>, m: SepSet, b: int, n: int)
    requires
        0 <= b <= n <= s1.len(),
        n <= s2.len(),
        forall|i: int| 0 <= i < n ==> #[trigger] s1[i] == s2[i],
    ensures
        segment_start(s1, m, b, n) == segment_start(s2, m, b, n),
        closed_names(s1, m, b, n) == closed_names(s2, m, b, n),
    decreases n - b,
{
    if n > b {
        lemma_closed_names_prefix(s1, s2, m, b, n - 1);
        lemma_closed_names_shape(s1, m, b, n - 1);
        assert(s1[n - 1] == s2[n - 1]);
        let a = segment_start(s1, m, b, n - 1);
        if a < n - 1 {
            assert(s1[a] == s2[a]);
        }
    }
}

/// Characters other than separators close no name.
proof fn lemma_closed_names_no_sep(s: Seq<char>, ms: SepSet, b: int, m: int, n: int)
    requires
        0 <= b <= m <= n <= s.len(),
        forall|i: int| m <= i < n ==> !in_set(#[trigger] s[i], ms),
    ensures
        closed_names(s, ms, b, n) == closed_names(s, ms, b, m),
    decreases n - m,
{
    if n > m {
        lemma_closed_names_no_sep(s, ms, b, m, n - 1);
    }
}


/// Joining a name onto `base` neither goes through a verbatim prefix nor
/// changes the prefix: `\\server` joined with `share` reads as the share
/// `\\server\share`, which has no file name.
pub open spec fn join_keeps_prefix(base: Seq<char>, name: Seq<char>, style: PathStyle) -> bool {
    &&& !is_verbatim(base, style)
    &&& prefix_of(path_join(base, name, style), style) == prefix_of(base, style)
}

/// Where the parent of a name joined onto `base` ends, when `base` has no
/// names of its own.
pub open spec fn join_cut(base: Seq<char>, style: PathStyle) -> int {
    if base.len() == prefix_len(base, style) && join_needs_sep(base, style) {
        prefix_len(base, style) + 1
    } else {
        body_start(base, style) + if has_cur_dir(base, style) {
            1int
        } else {
            0int
        }
    }
}

/// Joining a single name onto a base keeps the base's names and adds the
/// new one at the end.
pub proof fn lemma_join_name_spans(base: Seq<char>, name: Seq<char>, style: PathStyle)
    requires
        is_plain_name(name, style),
        join_keeps_prefix(base, name, style),
    ensures
        name_spans(path_join(base, name, style), style) == name_spans(base, style).push(
            (
                path_join(base, name, style).len() - name.len(),
                path_join(base, name, style).len() as int,
            ),
        ),
        body_start(path_join(base, name, style), style) + (if has_cur_dir(
            path_join(base, name, style),
            style,
        ) {
            1int
        } else {
            0int
        }) == join_cut(base, style),
        join_cut(base, style) <= path_join(base, name, style).len() - name.len(),
        forall|j: int|
            0 <= j < path_join(base, name, style).len() - name.len() ==> #[trigger] path_join(
                base,
                name,
                style,
            )[j] == if j < base.len() {
                base[j]
            } else {
                main_sep(style)
            },
{
    let s = path_join(base, name, style);
    let need_sep = join_needs_sep(base, style);
    let ms = sep_set(s, style);
    lemma_prefix_bounds(base, style);
    lemma_prefix_bounds(s, style);
    assert(sep_set(base, style) == ms);
    assert forall|c: char| in_set(c, ms) == is_sep(c, style) by {}
    let m: int = if need_sep {
        base.len() + 1int
    } else {
        base.len() as int
    };
    let n = s.len() as int;
    assert(n == m + name.len());
    assert forall|i: int| 0 <= i < base.len() implies #[trigger] s[i] == base[i] by {}
    assert forall|i: int| m <= i < n implies !in_set(#[trigger] s[i], ms) by {
        assert(s[i] == name[i - m]);
    }
    let p = prefix_len(base, style);
    assert(prefix_len(s, style) == p);
    let special = base.len() == p && need_sep;
    if special {
        assert(s[p] == main_sep(style));
        assert(phys_root(s, style));
        assert(!phys_root(base, style));
        assert(body_start(s, style) == p + 1);
        assert(p > 0);
        assert(has_root(s, style));
        assert(!has_cur_dir(s, style));
        assert(closed_names(s, ms, p + 1, m) =~= Seq::<(int, int)>::empty());
        assert(segment_start(base, ms, p, p) == p);
        assert(!keeps_name(base, p, p, ms));
        assert(closed_names(base, ms, p, p) =~= Seq::<(int, int)>::empty());
        assert(name_spans(base, style) =~= Seq::<(int, int)>::empty());
    } else {
        // prefix, root and body start are those of the base
        if base.len() > p {
            assert(s[p] == base[p]);
            assert(phys_root(s, style) == phys_root(base, style));
        } else {
            assert(!need_sep);
            assert(s[p] == name[0]);
            assert(!phys_root(s, style));
        }
        assert(has_root(s, style) == has_root(base, style));
        // a leading `.` stays as it was
        if base.len() >= p + 2 {
            assert(s[p + 1] == base[p + 1]);
        } else if base.len() == p + 1 {
            if base[p] == '.' {
                assert(need_sep);
                assert(s[p + 1] == main_sep(style));
            }
        } else {
            if s[p] == '.' {
                assert(name[0] == '.');
                if name.len() == 1 {
                    assert(name =~= seq!['.']);
                }
                assert(s[p + 1] == name[1]);
            }
        }
        assert(has_cur_dir(s, style) == has_cur_dir(base, style));
        let b = body_start(base, style);
        assert(body_start(s, style) == b);
        assert(b <= m);
        // the names closed before the new one are those of the base
        lemma_closed_names_prefix(s, base, ms, b, base.len() as int);
        if need_sep {
            assert(in_set(s[base.len() as int], ms));
            assert(closed_names(s, ms, b, m) == name_spans(base, style));
        } else if base.len() == 0 || base.len() == p {
            assert(closed_names(s, ms, b, m) =~= Seq::<(int, int)>::empty());
            assert(name_spans(base, style) =~= Seq::<(int, int)>::empty());
        } else {
            assert(is_sep(base.last(), style));
            if b < base.len() {
                assert(segment_start(base, ms, b, base.len() as int) == base.len());
            }
            assert(!keeps_name(base, base.len() as int, base.len() as int, ms));
            assert(closed_names(s, ms, b, m) == name_spans(base, style));
        }
        if has_cur_dir(s, style) {
            assert(m >= p + 1) by {
                if m == p {
                    assert(s[p] == name[0]);
                    if name.len() == 1 {
                        assert(name =~= seq!['.']);
                    } else {
                        assert(s[p + 1] == name[1]);
                    }
                }
            }
        }
    }
    let b = body_start(s, style);
    lemma_closed_names_no_sep(s, ms, b, m, n);
    if m > b {
        assert(in_set(s[m - 1], ms));
    }
    lemma_segment_start_after(s, ms, b, m, n);
    assert(keeps_name(s, m, n, ms)) by {
        if n == m + 1 {
            assert(s[m] == name[0]);
            assert(name =~= seq![name[0]]);
        }
    }
}

/// Joining a single name onto a base gives a path whose file name is that
/// name.
pub proof fn lemma_join_file_name(base: Seq<char>, name: Seq<char>, style: PathStyle)
    requires
        is_plain_name(name, style),
        join_keeps_prefix(base, name, style),
    ensures
        path_file_name(path_join(base, name, style), style) == Some(name),
{
    let s = path_join(base, name, style);
    lemma_join_name_spans(base, name, style);
    let m = s.len() - name.len();
    assert(span_text(s, (m, s.len() as int)) =~= name);
}

/// Joining a name onto a path that ends in a name, then taking the parent,
/// gives that path back.
pub proof fn lemma_parent_of_join(base: Seq<char>, name: Seq<char>, style: PathStyle)
    requires
        is_plain_name(name, style),
        join_keeps_prefix(base, name, style),
        name_spans(base, style).len() > 0,
        name_spans(base, style).last().1 == base.len(),
    ensures
        path_parent(path_join(base, name, style), style) == Some(base),
{
    let s = path_join(base, name, style);
    lemma_join_name_spans(base, name, style);
    let ns = name_spans(s, style);
    assert(ns[ns.len() - 2] == name_spans(base, style).last());
    assert(s.take(base.len() as int) =~= base);
}

/// After joining a name, the path ends in that name.
pub proof fn lemma_join_ends_in_name(base: Seq<char>, name: Seq<char>, style: PathStyle)
    requires
        is_plain_name(name, style),
        join_keeps_prefix(base, name, style),
    ensures
        name_spans(path_join(base, name, style), style).len() > 0,
        name_spans(path_join(base, name, style), style).last().1 == path_join(
            base,
            name,
            style,
        ).len(),
{
    lemma_join_name_spans(base, name, style);
}

/// Joining two names onto the same base gives paths with the same parent.
pub proof fn lemma_join_same_parent(
    base: Seq<char>,
    name1: Seq<char>,
    name2: Seq<char>,
    style: PathStyle,
)
    requires
        is_plain_name(name1, style),
        is_plain_name(name2, style),
        join_keeps_prefix(base, name1, style),
        join_keeps_prefix(base, name2, style),
    ensures
        path_parent(path_join(base, name1, style), style) == path_parent(
            path_join(base, name2, style),
            style,
        ),
{
    let s1 = path_join(base, name1, style);
    let s2 = path_join(base, name2, style);
    lemma_join_name_spans(base, name1, style);
    lemma_join_name_spans(base, name2, style);
    lemma_name_spans_shape(base, style);
    lemma_prefix_bounds(base, style);
    let ns = name_spans(base, style);
    let m = s1.len() - name1.len();
    assert(m == s2.len() - name2.len());
    let ns1 = name_spans(s1, style);
    let ns2 = name_spans(s2, style);
    let k: int = if ns.len() > 0 {
        ns.last().1
    } else {
        join_cut(base, style)
    };
    if ns.len() > 0 {
        assert(ns1[ns1.len() - 2] == ns.last());
        assert(ns2[ns2.len() - 2] == ns.last());
        assert(k <= base.len());
    } else {
        assert(ns1.len() == 1 && ns2.len() == 1);
    }
    assert(path_parent(s1, style) == Some(s1.take(k)));
    assert(path_parent(s2, style) == Some(s2.take(k)));
    assert(k <= m);
    assert(s1.take(k) =~= s2.take(k)) by {
        assert forall|j: int| 0 <= j < k implies s1.take(k)[j] == s2.take(k)[j] by {
            assert(j < m);
            assert(s1[j] == (if j < base.len() {
                base[j]
            } else {
                main_sep(style)
            }));
            assert(s2[j] == (if j < base.len() {
                base[j]
            } else {
                main_sep(style)
            }));
        }
    }
}

} // verus!
