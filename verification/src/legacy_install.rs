//! Moving off the legacy Windows install folder ("Clash Verge for v2free")
//! onto the unified one ("Clash Verge"): which directories to look at, which
//! of them to remove, when to relaunch from the unified install, and how a
//! folder removal proceeds. The file system, processes and the registry are
//! touched by the caller, which hands the outcomes back.
use vstd::prelude::*;
use vstd::string::*;

use crate::path::{
    file_name, is_plain_name, is_plain_relative, join, join_keeps_prefix, lemma_join_ends_in_name,
    lemma_join_file_name, lemma_join_same_parent, lemma_parent_of_join, parent,
    lemma_path_order, path_file_name, path_join, path_lt, path_parent, resolved, same_location,
    same_path, same_text,
    PathStyle,
};
use crate::path_list::{
    is_sorted_dedup, lemma_sorted_dedup_nonempty, lemma_sorted_dedup_of_one,
    lemma_sorted_dedup_of_two, sort_dedup_paths, sorted_dedup, views,
};

verus! {

/// Name of the unified install folder.
pub const CURRENT_DIR_NAME: &'static str = "Clash Verge";

/// Name of the legacy install folder.
pub const LEGACY_DIR_NAME: &'static str = "Clash Verge for v2free";

/// The application's executable in an install folder.
pub const MAIN_BINARY: &'static str = "clash-verge.exe";

/// Where programs are installed when the environment does not say.
pub const DEFAULT_PROGRAM_FILES: &'static str = "C:\\Program Files";

pub const DEFAULT_PROGRAM_FILES_X86: &'static str = "C:\\Program Files (x86)";

/// The folder that holds the executable `exe`.
pub fn install_dir(exe: &str) -> (r: Option<String>)
    ensures
        r matches Some(d) ==> path_parent(exe@, PathStyle::Windows) == Some(d@),
        r is None ==> path_parent(exe@, PathStyle::Windows) is None,
{
    parent(exe, PathStyle::Windows)
}

pub open spec fn dir_is_named(dir: Seq<char>, name: Seq<char>) -> bool {
    path_file_name(dir, PathStyle::Windows) == Some(name)
}

fn dir_named(dir: &str, name: &str) -> (r: bool)
    ensures
        r == dir_is_named(dir@, name@),
{
    match file_name(dir, PathStyle::Windows) {
        Some(n) => same_text(n.as_str(), name),
        None => false,
    }
}

/// Whether `dir` is the unified install folder (by its last component).
pub fn is_unified_install_dir(dir: &str) -> (r: bool)
    ensures
        r == dir_is_named(dir@, CURRENT_DIR_NAME@),
{
    dir_named(dir, CURRENT_DIR_NAME)
}

/// Whether `dir` is the legacy install folder (by its last component).
pub fn is_legacy_install_dir(dir: &str) -> (r: bool)
    ensures
        r == dir_is_named(dir@, LEGACY_DIR_NAME@),
{
    dir_named(dir, LEGACY_DIR_NAME)
}

/// No folder is both the unified and the legacy install folder.
pub proof fn lemma_install_dir_kinds_exclusive(dir: Seq<char>)
    ensures
        !(dir_is_named(dir, CURRENT_DIR_NAME@) && dir_is_named(dir, LEGACY_DIR_NAME@)),
{
    reveal_strlit("Clash Verge");
    reveal_strlit("Clash Verge for v2free");
    assert(CURRENT_DIR_NAME@.len() != LEGACY_DIR_NAME@.len());
}

pub open spec fn opt_entry(v: Option<String>) -> Seq<Seq<char>> {
    match v {
        Some(s) => seq![s@],
        None => Seq::empty(),
    }
}

/// The program folders named by the environment (`ProgramFiles`, then
/// `ProgramFiles(x86)`), or the two usual ones when it names neither.
pub open spec fn program_files_entries(
    program_files: Option<String>,
    program_files_x86: Option<String>,
) -> Seq<Seq<char>> {
    let found = opt_entry(program_files) + opt_entry(program_files_x86);
    if found.len() == 0 {
        seq![DEFAULT_PROGRAM_FILES@, DEFAULT_PROGRAM_FILES_X86@]
    } else {
        found
    }
}

/// The program folders to search, sorted by path order without repeats.
pub open spec fn program_files_dirs_of(
    program_files: Option<String>,
    program_files_x86: Option<String>,
) -> Seq<Seq<char>> {
    sorted_dedup(program_files_entries(program_files, program_files_x86), PathStyle::Windows)
}

/// The program folders to search: those the environment names (the values
/// of `ProgramFiles` and `ProgramFiles(x86)`, where set), or the two usual
/// ones, sorted by path order and without repeats.
pub fn program_files_dirs(program_files: Option<String>, program_files_x86: Option<String>) -> (r:
    Vec<String>)
    ensures
        views(r@) == program_files_dirs_of(program_files, program_files_x86),
        is_sorted_dedup(
            views(r@),
            program_files_entries(program_files, program_files_x86),
            PathStyle::Windows,
        ),
        r@.len() >= 1,
{
    let ghost entries = program_files_entries(program_files, program_files_x86);
    let mut paths: Vec<String> = Vec::new();
    let some_pf = program_files.is_some();
    let some_pf86 = program_files_x86.is_some();
    if let Some(pf) = program_files {
        paths.push(pf);
    }
    if let Some(pf86) = program_files_x86 {
        paths.push(pf86);
    }
    if paths.len() == 0 {
        paths.push(String::from_str(DEFAULT_PROGRAM_FILES));
        paths.push(String::from_str(DEFAULT_PROGRAM_FILES_X86));
    }
    proof {
        assert(views(paths@) =~= entries);
    }
    let r = sort_dedup_paths(&paths, PathStyle::Windows);
    proof {
        if r@.len() == 0 {
            lemma_sorted_dedup_nonempty(views(r@), entries, PathStyle::Windows);
        }
    }
    r
}

/// Every program folder that the environment names is searched: the list
/// has an entry that is the same path as `ProgramFiles` when it is set, and
/// one that is the same path as `ProgramFiles(x86)` when it is set; each
/// entry is one of the named folders as given; and when both are set to
/// different paths, both are in the list.
pub proof fn lemma_program_files_dirs_keep_named(
    program_files: Option<String>,
    program_files_x86: Option<String>,
)
    ensures
        ({
            let r = program_files_dirs_of(program_files, program_files_x86);
            &&& program_files matches Some(a) ==> exists|m: int|
                0 <= m < r.len() && same_path(a@, #[trigger] r[m], PathStyle::Windows)
            &&& program_files_x86 matches Some(b) ==> exists|m: int|
                0 <= m < r.len() && same_path(b@, #[trigger] r[m], PathStyle::Windows)
            &&& (program_files is Some || program_files_x86 is Some) ==> forall|m: int|
                0 <= m < r.len() ==> (program_files matches Some(a) && #[trigger] r[m] == a@) || (
                program_files_x86 matches Some(b) && r[m] == b@)
            &&& (program_files matches Some(a) && program_files_x86 matches Some(b) && !same_path(
                a@,
                b@,
                PathStyle::Windows,
            )) ==> r.len() == 2
        }),
{
    let w = PathStyle::Windows;
    let r = program_files_dirs_of(program_files, program_files_x86);
    match (program_files, program_files_x86) {
        (Some(a), Some(b)) => {
            assert(program_files_entries(program_files, program_files_x86) =~= seq![a@, b@]);
            lemma_sorted_dedup_of_two(a@, b@, w);
            lemma_path_order(a@, b@, a@, w);
            lemma_path_order(a@, a@, a@, w);
            lemma_path_order(b@, b@, b@, w);
            if same_path(a@, b@, w) {
                assert(r == seq![a@]);
                assert(same_path(a@, r[0], w));
                assert(same_path(b@, r[0], w));
            } else if path_lt(a@, b@, w) {
                assert(r == seq![a@, b@]);
                assert(same_path(a@, r[0], w));
                assert(same_path(b@, r[1], w));
            } else {
                assert(r == seq![b@, a@]);
                assert(same_path(a@, r[1], w));
                assert(same_path(b@, r[0], w));
            }
        },
        (Some(a), None) => {
            assert(program_files_entries(program_files, program_files_x86) =~= seq![a@]);
            lemma_sorted_dedup_of_one(a@, w);
            assert(r == seq![a@]);
            assert(same_path(a@, r[0], w));
        },
        (None, Some(b)) => {
            assert(program_files_entries(program_files, program_files_x86) =~= seq![b@]);
            lemma_sorted_dedup_of_one(b@, w);
            assert(r == seq![b@]);
            assert(same_path(b@, r[0], w));
        },
        (None, None) => {},
    }
}

fn join_each(dirs: &Vec<String>, name: &str) -> (r: Vec<String>)
    requires
        is_plain_relative(name@, PathStyle::Windows),
        is_plain_name(name@, PathStyle::Windows),
    ensures
        r@.len() == dirs@.len(),
        forall|i: int|
            0 <= i < r@.len() ==> #[trigger] r@[i]@ == path_join(
                dirs@[i]@,
                name@,
                PathStyle::Windows,
            ),
{
    let mut r: Vec<String> = Vec::new();
    let mut i: usize = 0;
    while i < dirs.len()
        invariant
            is_plain_relative(name@, PathStyle::Windows),
            is_plain_name(name@, PathStyle::Windows),
            i <= dirs.len(),
            r@.len() == i,
            forall|k: int|
                0 <= k < i ==> #[trigger] r@[k]@ == path_join(dirs@[k]@, name@, PathStyle::Windows),
        decreases dirs.len() - i,
    {
        r.push(join(dirs[i].as_str(), name, PathStyle::Windows));
        i += 1;
    }
    r
}

proof fn lemma_legacy_name_is_plain()
    ensures
        is_plain_name(LEGACY_DIR_NAME@, PathStyle::Windows),
{
    reveal_strlit("Clash Verge for v2free");
    assert(LEGACY_DIR_NAME@ =~= seq!['C', 'l', 'a', 's', 'h', ' ', 'V', 'e', 'r', 'g', 'e', ' ', 'f', 'o', 'r', ' ', 'v', '2', 'f', 'r', 'e', 'e']);
}

proof fn lemma_current_name_is_plain()
    ensures
        is_plain_name(CURRENT_DIR_NAME@, PathStyle::Windows),
{
    reveal_strlit("Clash Verge");
    assert(CURRENT_DIR_NAME@ =~= seq!['C', 'l', 'a', 's', 'h', ' ', 'V', 'e', 'r', 'g', 'e']);
}

proof fn lemma_binary_name_is_plain()
    ensures
        is_plain_name(MAIN_BINARY@, PathStyle::Windows),
{
    reveal_strlit("clash-verge.exe");
    assert(MAIN_BINARY@ =~= seq!['c', 'l', 'a', 's', 'h', '-', 'v', 'e', 'r', 'g', 'e', '.', 'e', 'x', 'e']);
}

proof fn lemma_names_are_plain()
    ensures
        is_plain_name(LEGACY_DIR_NAME@, PathStyle::Windows),
        is_plain_name(CURRENT_DIR_NAME@, PathStyle::Windows),
        is_plain_name(MAIN_BINARY@, PathStyle::Windows),
{
    lemma_legacy_name_is_plain();
    lemma_current_name_is_plain();
    lemma_binary_name_is_plain();
}

/// The candidate folders named `name`, one in each program folder, in the
/// order of the program folders.
pub open spec fn install_candidates_of(
    program_files: Option<String>,
    program_files_x86: Option<String>,
    name: Seq<char>,
) -> Seq<Seq<char>> {
    program_files_dirs_of(program_files, program_files_x86).map_values(
        |d: Seq<char>| path_join(d, name, PathStyle::Windows),
    )
}

/// Where a legacy install could be: the legacy folder name in each program
/// folder.
pub fn legacy_install_candidates(
    program_files: Option<String>,
    program_files_x86: Option<String>,
) -> (r: Vec<String>)
    ensures
        r@.len() == program_files_dirs_of(program_files, program_files_x86).len(),
        forall|i: int|
            0 <= i < r@.len() ==> #[trigger] r@[i]@ == path_join(
                program_files_dirs_of(program_files, program_files_x86)[i],
                LEGACY_DIR_NAME@,
                PathStyle::Windows,
            ),
        views(r@) == install_candidates_of(program_files, program_files_x86, LEGACY_DIR_NAME@),
{
    let ghost dirs_of = program_files_dirs_of(program_files, program_files_x86);
    let dirs = program_files_dirs(program_files, program_files_x86);
    proof {
        lemma_names_are_plain();
    }
    let r = join_each(&dirs, LEGACY_DIR_NAME);
    proof {
        assert forall|i: int| 0 <= i < r@.len() implies #[trigger] r@[i]@ == path_join(
            dirs_of[i],
            LEGACY_DIR_NAME@,
            PathStyle::Windows,
        ) by {
            assert(views(dirs@)[i] == dirs@[i]@);
        }
        assert(views(r@) =~= install_candidates_of(program_files, program_files_x86, LEGACY_DIR_NAME@));
    }
    r
}

/// Where the unified install could be: the unified folder name in each
/// program folder.
pub fn unified_install_candidates(
    program_files: Option<String>,
    program_files_x86: Option<String>,
) -> (r: Vec<String>)
    ensures
        r@.len() == program_files_dirs_of(program_files, program_files_x86).len(),
        forall|i: int|
            0 <= i < r@.len() ==> #[trigger] r@[i]@ == path_join(
                program_files_dirs_of(program_files, program_files_x86)[i],
                CURRENT_DIR_NAME@,
                PathStyle::Windows,
            ),
        views(r@) == install_candidates_of(program_files, program_files_x86, CURRENT_DIR_NAME@),
{
    let ghost dirs_of = program_files_dirs_of(program_files, program_files_x86);
    let dirs = program_files_dirs(program_files, program_files_x86);
    proof {
        lemma_names_are_plain();
    }
    let r = join_each(&dirs, CURRENT_DIR_NAME);
    proof {
        assert forall|i: int| 0 <= i < r@.len() implies #[trigger] r@[i]@ == path_join(
            dirs_of[i],
            CURRENT_DIR_NAME@,
            PathStyle::Windows,
        ) by {
            assert(views(dirs@)[i] == dirs@[i]@);
        }
        assert(views(r@) =~= install_candidates_of(program_files, program_files_x86, CURRENT_DIR_NAME@));
    }
    r
}

/// Both candidate names join onto `program_dir` without changing its
/// prefix, and the folder has no verbatim prefix (see `join_keeps_prefix`).
pub open spec fn joins_plainly(program_dir: Seq<char>) -> bool {
    &&& join_keeps_prefix(program_dir, CURRENT_DIR_NAME@, PathStyle::Windows)
    &&& join_keeps_prefix(program_dir, LEGACY_DIR_NAME@, PathStyle::Windows)
}

/// Every candidate folder is recognised by the matching test: a legacy
/// candidate is a legacy install folder and a unified candidate a unified
/// one, in a program folder onto which the names join plainly.
pub proof fn lemma_candidates_are_recognised(program_dir: Seq<char>)
    requires
        joins_plainly(program_dir),
    ensures
        dir_is_named(path_join(program_dir, LEGACY_DIR_NAME@, PathStyle::Windows), LEGACY_DIR_NAME@),
        dir_is_named(
            path_join(program_dir, CURRENT_DIR_NAME@, PathStyle::Windows),
            CURRENT_DIR_NAME@,
        ),
{
    lemma_names_are_plain();
    lemma_join_file_name(program_dir, LEGACY_DIR_NAME@, PathStyle::Windows);
    lemma_join_file_name(program_dir, CURRENT_DIR_NAME@, PathStyle::Windows);
}

/// The unified and the legacy candidate of one program folder pair up:
/// they have the same parent, and each is recognised as its own kind and
/// not as the other. With `unified_install_candidates` and
/// `legacy_install_candidates` taken from the same environment, the entries
/// at one index come from the same program folder.
pub proof fn lemma_candidates_pair_up(program_dir: Seq<char>)
    requires
        joins_plainly(program_dir),
    ensures
        ({
            let unified = path_join(program_dir, CURRENT_DIR_NAME@, PathStyle::Windows);
            let legacy = path_join(program_dir, LEGACY_DIR_NAME@, PathStyle::Windows);
            &&& path_parent(unified, PathStyle::Windows) == path_parent(legacy, PathStyle::Windows)
            &&& dir_is_named(unified, CURRENT_DIR_NAME@)
            &&& !dir_is_named(unified, LEGACY_DIR_NAME@)
            &&& dir_is_named(legacy, LEGACY_DIR_NAME@)
            &&& !dir_is_named(legacy, CURRENT_DIR_NAME@)
        }),
{
    lemma_names_are_plain();
    lemma_candidates_are_recognised(program_dir);
    lemma_join_same_parent(program_dir, CURRENT_DIR_NAME@, LEGACY_DIR_NAME@, PathStyle::Windows);
    lemma_install_dir_kinds_exclusive(path_join(program_dir, CURRENT_DIR_NAME@, PathStyle::Windows));
    lemma_install_dir_kinds_exclusive(path_join(program_dir, LEGACY_DIR_NAME@, PathStyle::Windows));
}

/// The unified and legacy candidate lists pair up: they are equally long,
/// and the entries at one index have the same parent, each recognised as
/// its own kind and not as the other.
pub proof fn lemma_candidate_lists_pair_up(
    program_files: Option<String>,
    program_files_x86: Option<String>,
)
    requires
        forall|i: int|
            0 <= i < program_files_dirs_of(program_files, program_files_x86).len()
                ==> joins_plainly(#[trigger] program_files_dirs_of(program_files, program_files_x86)[i]),
    ensures
        ({
            let unified = install_candidates_of(program_files, program_files_x86, CURRENT_DIR_NAME@);
            let legacy = install_candidates_of(program_files, program_files_x86, LEGACY_DIR_NAME@);
            &&& unified.len() == legacy.len()
            &&& forall|i: int|
                0 <= i < unified.len() ==> {
                    &&& path_parent(#[trigger] unified[i], PathStyle::Windows) == path_parent(
                        legacy[i],
                        PathStyle::Windows,
                    )
                    &&& dir_is_named(unified[i], CURRENT_DIR_NAME@)
                    &&& !dir_is_named(unified[i], LEGACY_DIR_NAME@)
                    &&& dir_is_named(legacy[i], LEGACY_DIR_NAME@)
                    &&& !dir_is_named(legacy[i], CURRENT_DIR_NAME@)
                }
        }),
{
    let dirs = program_files_dirs_of(program_files, program_files_x86);
    let unified = install_candidates_of(program_files, program_files_x86, CURRENT_DIR_NAME@);
    let legacy = install_candidates_of(program_files, program_files_x86, LEGACY_DIR_NAME@);
    assert forall|i: int| 0 <= i < unified.len() implies {
        &&& path_parent(#[trigger] unified[i], PathStyle::Windows) == path_parent(
            legacy[i],
            PathStyle::Windows,
        )
        &&& dir_is_named(unified[i], CURRENT_DIR_NAME@)
        &&& !dir_is_named(unified[i], LEGACY_DIR_NAME@)
        &&& dir_is_named(legacy[i], LEGACY_DIR_NAME@)
        &&& !dir_is_named(legacy[i], CURRENT_DIR_NAME@)
    } by {
        lemma_candidates_pair_up(dirs[i]);
    }
}

/// The executable in a candidate folder lies in that folder: from the
/// unified candidate's executable the start-up clean-up sees a unified
/// folder (and removes legacy copies), from the legacy candidate's a legacy
/// folder (and relaunches), in a program folder onto which the names join
/// plainly.
pub proof fn lemma_candidate_executables(program_dir: Seq<char>)
    requires
        joins_plainly(program_dir),
        join_keeps_prefix(
            path_join(program_dir, CURRENT_DIR_NAME@, PathStyle::Windows),
            MAIN_BINARY@,
            PathStyle::Windows,
        ),
        join_keeps_prefix(
            path_join(program_dir, LEGACY_DIR_NAME@, PathStyle::Windows),
            MAIN_BINARY@,
            PathStyle::Windows,
        ),
    ensures
        ({
            let dir = path_join(program_dir, CURRENT_DIR_NAME@, PathStyle::Windows);
            &&& path_parent(path_join(dir, MAIN_BINARY@, PathStyle::Windows), PathStyle::Windows)
                == Some(dir)
            &&& dir_is_named(dir, CURRENT_DIR_NAME@)
        }),
        ({
            let dir = path_join(program_dir, LEGACY_DIR_NAME@, PathStyle::Windows);
            &&& path_parent(path_join(dir, MAIN_BINARY@, PathStyle::Windows), PathStyle::Windows)
                == Some(dir)
            &&& dir_is_named(dir, LEGACY_DIR_NAME@)
        }),
{
    lemma_names_are_plain();
    lemma_candidates_are_recognised(program_dir);
    let unified = path_join(program_dir, CURRENT_DIR_NAME@, PathStyle::Windows);
    let legacy = path_join(program_dir, LEGACY_DIR_NAME@, PathStyle::Windows);
    lemma_join_ends_in_name(program_dir, CURRENT_DIR_NAME@, PathStyle::Windows);
    lemma_join_ends_in_name(program_dir, LEGACY_DIR_NAME@, PathStyle::Windows);
    lemma_parent_of_join(unified, MAIN_BINARY@, PathStyle::Windows);
    lemma_parent_of_join(legacy, MAIN_BINARY@, PathStyle::Windows);
}

/// The executable inside an install folder.
pub fn main_binary_path(dir: &str) -> (r: String)
    ensures
        r@ == path_join(dir@, MAIN_BINARY@, PathStyle::Windows),
{
    proof {
        lemma_names_are_plain();
    }
    join(dir, MAIN_BINARY, PathStyle::Windows)
}

/// Whether two paths name the same place: each is taken in its canonical
/// form where one could be had, and the two are compared by components.
pub fn paths_equal(
    a: &str,
    a_canonical: Option<String>,
    b: &str,
    b_canonical: Option<String>,
) -> (r: bool)
    ensures
        r == same_path(resolved(a@, a_canonical), resolved(b@, b_canonical), PathStyle::Windows),
{
    same_location(a, a_canonical, b, b_canonical, PathStyle::Windows)
}

/// A legacy folder is removed when it is a directory, is not the folder
/// the application runs from, and holds the application's executable.
pub fn should_remove_legacy(
    legacy_is_dir: bool,
    legacy_is_current_dir: bool,
    legacy_has_main_binary: bool,
) -> (r: bool)
    ensures
        r == (legacy_is_dir && !legacy_is_current_dir && legacy_has_main_binary),
{
    if !legacy_is_dir {
        return false;
    }
    if legacy_is_current_dir {
        return false;
    }
    legacy_has_main_binary
}

/// The unified install's executable is started when it exists and is not
/// the executable already running.
pub fn should_relaunch_from(unified_exe_is_file: bool, unified_exe_is_current: bool) -> (r: bool)
    ensures
        r == (unified_exe_is_file && !unified_exe_is_current),
{
    unified_exe_is_file && !unified_exe_is_current
}

/// The next thing to do while going through the legacy candidates, in
/// order, removing each that should go.
pub enum LegacySweepStep {
    /// Is candidate `i` a directory?
    CheckIsDir(usize),
    /// Is candidate `i` the folder the application runs from? The caller
    /// finds the canonical forms of both.
    CheckIsCurrent(usize),
    /// Is there a file at `binary`, candidate `index`'s executable?
    CheckMainBinary { index: usize, binary: String },
    /// Remove candidate `i`'s folder (the tree removal steps).
    RemoveTree(usize),
    /// Candidate `i` was removed: delete the legacy registry keys.
    CleanupRegistry(usize),
    /// Done, with the outcome.
    Finished(Result<(), String>),
}

/// Where the sweep stands once the candidates before `i` are behind.
pub open spec fn sweep_at(candidates: Seq<String>, i: int) -> LegacySweepStep {
    if i < candidates.len() {
        LegacySweepStep::CheckIsDir(i as usize)
    } else {
        LegacySweepStep::Finished(Ok(()))
    }
}

fn sweep_step_at(candidates: &Vec<String>, i: usize) -> (r: LegacySweepStep)
    requires
        i <= candidates@.len(),
    ensures
        r == sweep_at(candidates@, i as int),
{
    if i < candidates.len() {
        LegacySweepStep::CheckIsDir(i)
    } else {
        LegacySweepStep::Finished(Ok(()))
    }
}

/// The sweep begins with the first candidate.
pub fn legacy_sweep_start(candidates: &Vec<String>) -> (r: LegacySweepStep)
    ensures
        r == sweep_at(candidates@, 0),
{
    sweep_step_at(candidates, 0)
}

/// A candidate that is not a directory is passed over; one that is, is
/// compared with the running folder.
pub fn after_sweep_dir_check(candidates: &Vec<String>, i: usize, is_dir: bool) -> (r:
    LegacySweepStep)
    requires
        i < candidates.len(),
    ensures
        is_dir ==> r == LegacySweepStep::CheckIsCurrent(i),
        !is_dir ==> r == sweep_at(candidates@, i + 1),
{
    if is_dir {
        LegacySweepStep::CheckIsCurrent(i)
    } else {
        sweep_step_at(candidates, i + 1)
    }
}

/// The running folder is passed over; any other candidate's executable is
/// looked for.
pub fn after_sweep_current_check(
    candidates: &Vec<String>,
    i: usize,
    candidate_canonical: Option<String>,
    current_dir: &str,
    current_canonical: Option<String>,
) -> (r: LegacySweepStep)
    requires
        i < candidates.len(),
    ensures
        ({
            let same = same_path(
                resolved(candidates@[i as int]@, candidate_canonical),
                resolved(current_dir@, current_canonical),
                PathStyle::Windows,
            );
            &&& same ==> r == sweep_at(candidates@, i + 1)
            &&& !same ==> (r matches LegacySweepStep::CheckMainBinary { index, binary } && index == i
                && binary@ == path_join(candidates@[i as int]@, MAIN_BINARY@, PathStyle::Windows))
        }),
{
    let same = paths_equal(
        candidates[i].as_str(),
        candidate_canonical,
        current_dir,
        current_canonical,
    );
    if same {
        sweep_step_at(candidates, i + 1)
    } else {
        LegacySweepStep::CheckMainBinary { index: i, binary: main_binary_path(candidates[i].as_str()) }
    }
}

/// A candidate folder that holds the executable is removed; one that does
/// not is passed over.
pub fn after_sweep_binary_check(candidates: &Vec<String>, i: usize, binary_is_file: bool) -> (r:
    LegacySweepStep)
    requires
        i < candidates.len(),
    ensures
        binary_is_file ==> r == LegacySweepStep::RemoveTree(i),
        !binary_is_file ==> r == sweep_at(candidates@, i + 1),
{
    if should_remove_legacy(true, false, binary_is_file) {
        LegacySweepStep::RemoveTree(i)
    } else {
        sweep_step_at(candidates, i + 1)
    }
}

/// A failed removal ends the sweep with its error; after a removal the
/// registry keys are deleted.
pub fn after_sweep_removal(i: usize, removed: Result<(), String>) -> (r: LegacySweepStep)
    ensures
        match removed {
            Ok(()) => r == LegacySweepStep::CleanupRegistry(i),
            Err(e) => r == LegacySweepStep::Finished(Err(e)),
        },
{
    match removed {
        Ok(()) => LegacySweepStep::CleanupRegistry(i),
        Err(e) => LegacySweepStep::Finished(Err(e)),
    }
}

/// After the registry keys, the sweep goes on with the next candidate.
pub fn after_registry_cleanup(candidates: &Vec<String>, i: usize) -> (r: LegacySweepStep)
    requires
        i < candidates.len(),
    ensures
        r == sweep_at(candidates@, i + 1),
{
    sweep_step_at(candidates, i + 1)
}

/// Moving on to a candidate never skips its checks: the step that begins a
/// candidate is the directory check, never a later check or a removal.
pub proof fn lemma_sweep_removes_only_checked(candidates: Seq<String>, i: int)
    ensures
        !(sweep_at(candidates, i) is RemoveTree),
        !(sweep_at(candidates, i) is CheckMainBinary),
        !(sweep_at(candidates, i) is CheckIsCurrent),
{
}

/// The next thing to do while looking for the unified install to start
/// instead.
pub enum RelaunchStep {
    /// Is there a file at `exe`, candidate `index`'s executable?
    CheckExecutable { index: usize, exe: String },
    /// Is `exe` the running executable? The caller finds the canonical forms.
    CheckIsCurrent { index: usize, exe: String },
    /// Start `exe`.
    Relaunch { exe: String },
    /// The unified install was started: end this process.
    Exit,
    /// Done, with the outcome.
    Finished(Result<(), String>),
}

/// Where the search stands once the candidates before `i` are behind: the
/// executable of candidate `i` is looked for, or nothing was found.
pub open spec fn relaunch_at(candidates: Seq<String>, i: int, r: RelaunchStep) -> bool {
    if i < candidates.len() {
        r matches RelaunchStep::CheckExecutable { index, exe } && index == i && exe@ == path_join(
            candidates[i]@,
            MAIN_BINARY@,
            PathStyle::Windows,
        )
    } else {
        r == RelaunchStep::Finished(Ok(()))
    }
}

fn relaunch_step_at(candidates: &Vec<String>, i: usize) -> (r: RelaunchStep)
    requires
        i <= candidates@.len(),
    ensures
        relaunch_at(candidates@, i as int, r),
{
    if i < candidates.len() {
        RelaunchStep::CheckExecutable { index: i, exe: main_binary_path(candidates[i].as_str()) }
    } else {
        RelaunchStep::Finished(Ok(()))
    }
}

/// The search begins with the first candidate.
pub fn relaunch_start(candidates: &Vec<String>) -> (r: RelaunchStep)
    ensures
        relaunch_at(candidates@, 0, r),
{
    relaunch_step_at(candidates, 0)
}

/// Without an executable the candidate is passed over; with one, it is
/// compared with the running executable.
pub fn after_executable_check(candidates: &Vec<String>, i: usize, exe_is_file: bool) -> (r:
    RelaunchStep)
    requires
        i < candidates.len(),
    ensures
        exe_is_file ==> (r matches RelaunchStep::CheckIsCurrent { index, exe } && index == i && exe@
            == path_join(candidates@[i as int]@, MAIN_BINARY@, PathStyle::Windows)),
        !exe_is_file ==> relaunch_at(candidates@, i + 1, r),
{
    if exe_is_file {
        RelaunchStep::CheckIsCurrent { index: i, exe: main_binary_path(candidates[i].as_str()) }
    } else {
        relaunch_step_at(candidates, i + 1)
    }
}

/// The running executable is passed over; any other is started.
pub fn after_relaunch_current_check(
    candidates: &Vec<String>,
    i: usize,
    exe_canonical: Option<String>,
    current_exe: &str,
    current_canonical: Option<String>,
) -> (r: RelaunchStep)
    requires
        i < candidates.len(),
    ensures
        ({
            let exe = path_join(candidates@[i as int]@, MAIN_BINARY@, PathStyle::Windows);
            let same = same_path(
                resolved(exe, exe_canonical),
                resolved(current_exe@, current_canonical),
                PathStyle::Windows,
            );
            &&& same ==> relaunch_at(candidates@, i + 1, r)
            &&& !same ==> (r matches RelaunchStep::Relaunch { exe: e } && e@ == exe)
        }),
{
    let exe = main_binary_path(candidates[i].as_str());
    let same = paths_equal(exe.as_str(), exe_canonical, current_exe, current_canonical);
    if should_relaunch_from(true, same) {
        RelaunchStep::Relaunch { exe }
    } else {
        relaunch_step_at(candidates, i + 1)
    }
}

/// Once the unified executable started this process ends; when it could
/// not be started the search ends with that error.
pub fn after_relaunch(started: bool) -> (r: RelaunchStep)
    ensures
        started ==> r == RelaunchStep::Exit,
        !started ==> (r matches RelaunchStep::Finished(Err(e)) && e@ == "relaunch unified"@),
{
    if started {
        RelaunchStep::Exit
    } else {
        RelaunchStep::Finished(Err(String::from_str("relaunch unified")))
    }
}

/// What the start-up clean-up does, given where the application runs from.
pub enum InstallCleanup {
    /// Running from the legacy folder: start the unified install instead.
    RelaunchFromUnified,
    /// Running from the unified folder: remove the legacy copies, which
    /// must not be this folder.
    RemoveLegacyCopies { current_dir: String },
    /// Running from elsewhere: nothing to do.
    LeaveAlone,
}

/// Why the start-up clean-up could not proceed.
#[derive(PartialEq, Eq, Structural, Clone, Copy, Debug)]
pub enum CleanupError {
    /// The executable's path has no folder.
    NoInstallDir,
}

impl CleanupError {
    pub fn message(&self) -> (r: &'static str)
        ensures
            r@ == "resolve install dir"@,
    {
        match self {
            CleanupError::NoInstallDir => "resolve install dir",
        }
    }
}

/// Decides the start-up clean-up from the running executable's path.
pub fn plan_install_cleanup(exe: &str) -> (r: Result<InstallCleanup, CleanupError>)
    ensures
        (r is Err) == (path_parent(exe@, PathStyle::Windows) is None),
        r matches Ok(p) ==> {
            let d = path_parent(exe@, PathStyle::Windows).unwrap();
            &&& (p is RelaunchFromUnified) == dir_is_named(d, LEGACY_DIR_NAME@)
            &&& (p is RemoveLegacyCopies) == dir_is_named(d, CURRENT_DIR_NAME@)
            &&& (p matches InstallCleanup::RemoveLegacyCopies { current_dir } ==> current_dir@ == d)
        },
{
    let current_dir = match install_dir(exe) {
        Some(d) => d,
        None => return Err(CleanupError::NoInstallDir),
    };
    proof {
        lemma_install_dir_kinds_exclusive(current_dir@);
    }
    if is_legacy_install_dir(current_dir.as_str()) {
        return Ok(InstallCleanup::RelaunchFromUnified);
    }
    if !is_unified_install_dir(current_dir.as_str()) {
        return Ok(InstallCleanup::LeaveAlone);
    }
    Ok(InstallCleanup::RemoveLegacyCopies { current_dir })
}

/// How a command that was run ended.
pub enum CommandOutcome {
    /// It ran to the end, successfully or not.
    Exited { success: bool },
    /// It could not be started for want of permission.
    PermissionDenied,
    /// It could not be started for another reason, given as text.
    Failed(String),
}

/// Reads the outcome of the `rmdir` command: `Ok(true)` when it removed
/// the folder, `Ok(false)` when it did not or was not allowed to run, and
/// the error when it could not be started otherwise.
pub fn try_rmdir(outcome: CommandOutcome) -> (r: Result<bool, String>)
    ensures
        match outcome {
            CommandOutcome::Exited { success } => r == Ok::<bool, String>(success),
            CommandOutcome::PermissionDenied => r == Ok::<bool, String>(false),
            CommandOutcome::Failed(m) => r matches Err(e) && e@ == m@,
        },
{
    match outcome {
        CommandOutcome::Exited { success } => Ok(success),
        CommandOutcome::PermissionDenied => Ok(false),
        CommandOutcome::Failed(m) => Err(m),
    }
}

pub open spec fn rmdir_args_of(path: Seq<char>) -> Seq<Seq<char>> {
    seq!["/C"@, "rmdir"@, "/S"@, "/Q"@, path]
}

/// `cmd` is told to remove, quietly and with everything in it, exactly the
/// folder given: the last of the five arguments is the folder's text
/// unchanged.
pub proof fn lemma_rmdir_targets_given_folder(path: Seq<char>)
    ensures
        rmdir_args_of(path).len() == 5,
        rmdir_args_of(path).take(4) == seq!["/C"@, "rmdir"@, "/S"@, "/Q"@],
        rmdir_args_of(path)[4] == path,
{
    assert(rmdir_args_of(path).take(4) =~= seq!["/C"@, "rmdir"@, "/S"@, "/Q"@]);
}

/// Arguments for `cmd` that remove the folder `path` with everything in it,
/// quietly.
pub fn rmdir_args(path: &str) -> (r: Vec<String>)
    ensures
        views(r@) == rmdir_args_of(path@),
{
    let mut r: Vec<String> = Vec::new();
    r.push(String::from_str("/C"));
    r.push(String::from_str("rmdir"));
    r.push(String::from_str("/S"));
    r.push(String::from_str("/Q"));
    r.push(String::from_str(path));
    proof {
        assert(views(r@) =~= rmdir_args_of(path@));
    }
    r
}

/// The next thing to do while removing a legacy folder.
pub enum TreeRemovalStep {
    /// Run `cmd` with these arguments.
    RunRmdir { args: Vec<String> },
    /// Find out whether the process runs with raised privileges.
    CheckPrivilege,
    /// Run `cmd` with these arguments, elevated and without a window.
    RunElevatedRmdir { args: Vec<String> },
    /// Remove the folder and its contents directly.
    RemoveDirAll,
    /// Done, with the outcome.
    Finished(Result<(), String>),
}

/// What was learnt of the process's privileges.
pub enum PrivilegeCheck {
    NotPrivileged,
    Privileged,
    /// The process token could not be had.
    TokenUnavailable,
    /// The privilege level could not be read, for the reason given.
    LevelUnknown(String),
}

/// Removing the folder `path` starts with `cmd /C rmdir /S /Q path`.
pub fn remove_legacy_tree_start(path: &str) -> (r: TreeRemovalStep)
    ensures
        r matches TreeRemovalStep::RunRmdir { args } && views(args@) == rmdir_args_of(path@),
{
    TreeRemovalStep::RunRmdir { args: rmdir_args(path) }
}

/// After `rmdir`: done when it removed the folder or failed to start;
/// otherwise check privileges where elevation is available, else remove the
/// folder directly.
pub fn after_rmdir(outcome: CommandOutcome, can_elevate: bool) -> (r: TreeRemovalStep)
    ensures
        match outcome {
            CommandOutcome::Exited { success: true } => r matches TreeRemovalStep::Finished(Ok(())),
            CommandOutcome::Failed(m) => r matches TreeRemovalStep::Finished(Err(e)) && e@ == m@,
            _ => if can_elevate {
                r is CheckPrivilege
            } else {
                r is RemoveDirAll
            },
        },
{
    match try_rmdir(outcome) {
        Err(e) => TreeRemovalStep::Finished(Err(e)),
        Ok(true) => TreeRemovalStep::Finished(Ok(())),
        Ok(false) => if can_elevate {
            TreeRemovalStep::CheckPrivilege
        } else {
            TreeRemovalStep::RemoveDirAll
        },
    }
}

/// After the privilege check: an unprivileged process retries `rmdir`
/// elevated; a privileged one removes the folder directly; a failed check
/// ends the removal with its error.
pub fn after_privilege_check(check: PrivilegeCheck, path: &str) -> (r: TreeRemovalStep)
    ensures
        match check {
            PrivilegeCheck::NotPrivileged => r matches TreeRemovalStep::RunElevatedRmdir { args }
                && views(args@) == rmdir_args_of(path@),
            PrivilegeCheck::Privileged => r is RemoveDirAll,
            PrivilegeCheck::TokenUnavailable => r matches TreeRemovalStep::Finished(Err(e)) && e@
                == "current process token"@,
            PrivilegeCheck::LevelUnknown(m) => r matches TreeRemovalStep::Finished(Err(e)) && e@
                == m@,
        },
{
    match check {
        PrivilegeCheck::NotPrivileged => TreeRemovalStep::RunElevatedRmdir { args: rmdir_args(path) },
        PrivilegeCheck::Privileged => TreeRemovalStep::RemoveDirAll,
        PrivilegeCheck::TokenUnavailable => TreeRemovalStep::Finished(
            Err(String::from_str("current process token")),
        ),
        PrivilegeCheck::LevelUnknown(m) => TreeRemovalStep::Finished(Err(m)),
    }
}

/// After the elevated `rmdir` (`Ok` with whether it succeeded, `Err` when it
/// could not be run): done on success, an error when it could not run,
/// otherwise remove the folder directly.
pub fn after_elevated_rmdir(ran: Result<bool, ()>) -> (r: TreeRemovalStep)
    ensures
        match ran {
            Ok(true) => r matches TreeRemovalStep::Finished(Ok(())),
            Ok(false) => r is RemoveDirAll,
            Err(()) => r matches TreeRemovalStep::Finished(Err(e)) && e@ == "elevated rmdir"@,
        },
{
    match ran {
        Ok(true) => TreeRemovalStep::Finished(Ok(())),
        Ok(false) => TreeRemovalStep::RemoveDirAll,
        Err(()) => TreeRemovalStep::Finished(Err(String::from_str("elevated rmdir"))),
    }
}

/// After removing the folder directly: the removal's outcome, with the
/// error named.
pub fn after_remove_dir_all(removed: Result<(), ()>) -> (r: TreeRemovalStep)
    ensures
        match removed {
            Ok(()) => r matches TreeRemovalStep::Finished(Ok(())),
            Err(()) => r matches TreeRemovalStep::Finished(Err(e)) && e@
                == "remove legacy install dir"@,
        },
{
    match removed {
        Ok(()) => TreeRemovalStep::Finished(Ok(())),
        Err(()) => TreeRemovalStep::Finished(Err(String::from_str("remove legacy install dir"))),
    }
}

/// A registry root.
#[derive(PartialEq, Eq, Structural, Clone, Copy, Debug)]
pub enum RegistryHive {
    CurrentUser,
    LocalMachine,
}

/// A registry key to delete with everything below it.
pub struct RegistryKey {
    pub hive: RegistryHive,
    pub path: String,
}

pub open spec fn legacy_uninstall_key() -> Seq<char> {
    "Software\\Microsoft\\Windows\\CurrentVersion\\Uninstall\\Clash Verge for v2free"@
}

pub open spec fn legacy_vendor_key() -> Seq<char> {
    "Software\\v2free\\Clash Verge for v2free"@
}

/// The legacy install's registry keys, per hive (current user, then local
/// machine): its uninstall entry, then its vendor key.
pub open spec fn legacy_registry_keys() -> Seq<(RegistryHive, Seq<char>)> {
    seq![
        (RegistryHive::CurrentUser, legacy_uninstall_key()),
        (RegistryHive::CurrentUser, legacy_vendor_key()),
        (RegistryHive::LocalMachine, legacy_uninstall_key()),
        (RegistryHive::LocalMachine, legacy_vendor_key()),
    ]
}

/// The keys deleted are the legacy install's uninstall entry and its vendor
/// key, each under both the current user and the local machine: four keys,
/// one for each such pair.
pub proof fn lemma_registry_keys_cover_both_hives()
    ensures
        legacy_registry_keys().len() == 4,
        legacy_registry_keys().contains(
            (
                RegistryHive::CurrentUser,
                "Software\\Microsoft\\Windows\\CurrentVersion\\Uninstall\\Clash Verge for v2free"@,
            ),
        ),
        legacy_registry_keys().contains(
            (RegistryHive::CurrentUser, "Software\\v2free\\Clash Verge for v2free"@),
        ),
        legacy_registry_keys().contains(
            (
                RegistryHive::LocalMachine,
                "Software\\Microsoft\\Windows\\CurrentVersion\\Uninstall\\Clash Verge for v2free"@,
            ),
        ),
        legacy_registry_keys().contains(
            (RegistryHive::LocalMachine, "Software\\v2free\\Clash Verge for v2free"@),
        ),
{
    let k = legacy_registry_keys();
    assert(k[0] == (RegistryHive::CurrentUser, legacy_uninstall_key()));
    assert(k[1] == (RegistryHive::CurrentUser, legacy_vendor_key()));
    assert(k[2] == (RegistryHive::LocalMachine, legacy_uninstall_key()));
    assert(k[3] == (RegistryHive::LocalMachine, legacy_vendor_key()));
}

fn registry_key(hive: RegistryHive, path: &str) -> (r: RegistryKey)
    ensures
        r.hive == hive,
        r.path@ == path@,
{
    RegistryKey { hive, path: String::from_str(path) }
}

/// The registry keys that the legacy install left, in the order they are
/// deleted.
pub fn cleanup_legacy_registry() -> (r: Vec<RegistryKey>)
    ensures
        r@.len() == legacy_registry_keys().len(),
        forall|i: int|
            0 <= i < r@.len() ==> (#[trigger] r@[i]).hive == legacy_registry_keys()[i].0
                && r@[i].path@ == legacy_registry_keys()[i].1,
{
    let uninstall = "Software\\Microsoft\\Windows\\CurrentVersion\\Uninstall\\Clash Verge for v2free";
    let vendor = "Software\\v2free\\Clash Verge for v2free";
    let mut r: Vec<RegistryKey> = Vec::new();
    r.push(registry_key(RegistryHive::CurrentUser, uninstall));
    r.push(registry_key(RegistryHive::CurrentUser, vendor));
    r.push(registry_key(RegistryHive::LocalMachine, uninstall));
    r.push(registry_key(RegistryHive::LocalMachine, vendor));
    r
}

} // verus!
