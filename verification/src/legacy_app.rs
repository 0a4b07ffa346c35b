//! Retiring the legacy macOS app bundle ("Clash Verge for v2free.app") when
//! the application runs from the unified bundle ("Clash Verge.app"): finding
//! the running bundle, the places a legacy bundle may sit, how a bundle is
//! recognised as the legacy one, and how it is moved to the Trash. The file
//! system and processes are touched by the caller, which hands the outcomes
//! back.
use vstd::prelude::*;
use vstd::string::*;

use crate::path::{
    extension, file_name, is_plain_name, join, last_dot, lemma_join_ends_in_name,
    lemma_join_file_name, lemma_parent_of_join, lemma_parent_shorter, name_extension, parent,
    path_extension, path_file_name, path_join, path_parent, resolved, same_location, same_path,
    same_text, PathStyle,
};
use crate::path_list::views;
use crate::text::{decode_utf8_lossy, escape_double_quotes, escape_quotes, trim, trim_white_space,
    utf8_lossy,
};

verus! {

/// Name of the unified app bundle.
pub const CURRENT_APP_BUNDLE: &'static str = "Clash Verge.app";

/// Name of the legacy app bundle.
pub const LEGACY_APP_BUNDLE: &'static str = "Clash Verge for v2free.app";

/// The application's executable inside `Contents/MacOS`.
pub const MAIN_BINARY: &'static str = "clash-verge";

/// The system-wide applications folder.
pub const APPLICATIONS_DIR: &'static str = "/Applications";

pub open spec fn opt_view(o: Option<String>) -> Option<Seq<char>> {
    match o {
        Some(s) => Some(s@),
        None => None,
    }
}

/// The nearest folder above `p` whose extension is `app`.
pub open spec fn nearest_app_bundle(p: Seq<char>) -> Option<Seq<char>>
    decreases p.len(),
{
    match path_parent(p, PathStyle::Unix) {
        None => None,
        Some(q) => if q.len() < p.len() {
            if path_extension(q, PathStyle::Unix) == Some("app"@) {
                Some(q)
            } else {
                nearest_app_bundle(q)
            }
        } else {
            None
        },
    }
}

/// Going up from a path: the first ancestor with extension `app` is the
/// bundle; with no parent there is none.
pub proof fn lemma_nearest_app_bundle_steps(p: Seq<char>)
    ensures
        nearest_app_bundle(p) == match path_parent(p, PathStyle::Unix) {
            None => None,
            Some(q) => if path_extension(q, PathStyle::Unix) == Some("app"@) {
                Some(q)
            } else {
                nearest_app_bundle(q)
            },
        },
{
    lemma_parent_shorter(p, PathStyle::Unix);
}

/// The `.app` bundle that holds the executable `exe`: its nearest ancestor
/// folder with extension `app`.
pub fn app_bundle_path(exe: &str) -> (r: Option<String>)
    ensures
        opt_view(r) == nearest_app_bundle(exe@),
{
    let mut path = String::from_str(exe);
    proof {
        reveal_strlit("app");
    }
    loop
        invariant
            nearest_app_bundle(exe@) == nearest_app_bundle(path@),
            "app"@ == seq!['a', 'p', 'p'],
        decreases path@.len(),
    {
        proof {
            lemma_nearest_app_bundle_steps(path@);
            lemma_parent_shorter(path@, PathStyle::Unix);
        }
        match parent(path.as_str(), PathStyle::Unix) {
            None => {
                return None;
            },
            Some(q) => {
                let is_app = match extension(q.as_str(), PathStyle::Unix) {
                    Some(e) => same_text(e.as_str(), "app"),
                    None => false,
                };
                if is_app {
                    return Some(q);
                }
                path = q;
            },
        }
    }
}

pub open spec fn bundle_is_named(bundle: Seq<char>, name: Seq<char>) -> bool {
    path_file_name(bundle, PathStyle::Unix) == Some(name)
}

fn bundle_named(bundle: &str, name: &str) -> (r: bool)
    ensures
        r == bundle_is_named(bundle@, name@),
{
    match file_name(bundle, PathStyle::Unix) {
        Some(n) => same_text(n.as_str(), name),
        None => false,
    }
}

/// Whether a bundle is the unified one, by its name.
pub fn is_current_bundle(bundle: &str) -> (r: bool)
    ensures
        r == bundle_is_named(bundle@, CURRENT_APP_BUNDLE@),
{
    bundle_named(bundle, CURRENT_APP_BUNDLE)
}

proof fn lemma_legacy_bundle_name_is_plain()
    ensures
        is_plain_name(LEGACY_APP_BUNDLE@, PathStyle::Unix),
{
    reveal_strlit("Clash Verge for v2free.app");
    assert(LEGACY_APP_BUNDLE@ =~= seq![
        'C', 'l', 'a', 's', 'h', ' ', 'V', 'e', 'r', 'g', 'e', ' ', 'f', 'o', 'r', ' ', 'v', '2',
        'f', 'r', 'e', 'e', '.', 'a', 'p', 'p',
    ]);
}

proof fn lemma_applications_is_plain()
    ensures
        is_plain_name("Applications"@, PathStyle::Unix),
{
    reveal_strlit("Applications");
    assert("Applications"@ =~= seq!['A', 'p', 'p', 'l', 'i', 'c', 'a', 't', 'i', 'o', 'n', 's']);
}

/// Where a legacy bundle may sit: in `/Applications`, and in the
/// `Applications` folder of the home folder when there is one.
pub open spec fn legacy_bundle_candidates_of(home: Option<String>) -> Seq<Seq<char>> {
    let system = path_join(APPLICATIONS_DIR@, LEGACY_APP_BUNDLE@, PathStyle::Unix);
    match home {
        Some(h) => seq![
            system,
            path_join(
                path_join(h@, "Applications"@, PathStyle::Unix),
                LEGACY_APP_BUNDLE@,
                PathStyle::Unix,
            ),
        ],
        None => seq![system],
    }
}

/// The places a legacy bundle may sit, given the home folder.
pub fn legacy_bundle_candidates(home: Option<String>) -> (r: Vec<String>)
    ensures
        views(r@) == legacy_bundle_candidates_of(home),
{
    proof {
        lemma_legacy_bundle_name_is_plain();
        lemma_applications_is_plain();
    }
    let mut paths: Vec<String> = Vec::new();
    paths.push(join(APPLICATIONS_DIR, LEGACY_APP_BUNDLE, PathStyle::Unix));
    if let Some(h) = home {
        let apps = join(h.as_str(), "Applications", PathStyle::Unix);
        paths.push(join(apps.as_str(), LEGACY_APP_BUNDLE, PathStyle::Unix));
    }
    proof {
        assert(views(paths@) =~= legacy_bundle_candidates_of(home));
    }
    paths
}

/// Every place searched for a legacy bundle carries the legacy bundle's
/// name, so the name check of `bundle_check_start` passes for it.
pub proof fn lemma_candidates_carry_legacy_name(home: Option<String>, i: int)
    requires
        0 <= i < legacy_bundle_candidates_of(home).len(),
    ensures
        bundle_is_named(legacy_bundle_candidates_of(home)[i], LEGACY_APP_BUNDLE@),
{
    lemma_legacy_bundle_name_is_plain();
    let c = legacy_bundle_candidates_of(home);
    if i == 0 {
        lemma_join_file_name(APPLICATIONS_DIR@, LEGACY_APP_BUNDLE@, PathStyle::Unix);
    } else {
        let h = home.unwrap();
        lemma_join_file_name(
            path_join(h@, "Applications"@, PathStyle::Unix),
            LEGACY_APP_BUNDLE@,
            PathStyle::Unix,
        );
    }
}

proof fn lemma_bundle_parts_are_relative()
    ensures
        crate::path::is_plain_relative("Contents/MacOS"@, PathStyle::Unix),
        crate::path::is_plain_relative("Contents/Info.plist"@, PathStyle::Unix),
        crate::path::is_plain_relative(MAIN_BINARY@, PathStyle::Unix),
{
    reveal_strlit("Contents/MacOS");
    reveal_strlit("Contents/Info.plist");
    reveal_strlit("clash-verge");
}

/// The executable inside a bundle: `Contents/MacOS/clash-verge`.
pub open spec fn bundle_binary_of(bundle: Seq<char>) -> Seq<char> {
    path_join(
        path_join(bundle, "Contents/MacOS"@, PathStyle::Unix),
        MAIN_BINARY@,
        PathStyle::Unix,
    )
}

/// The property list inside a bundle: `Contents/Info.plist`.
pub open spec fn bundle_plist_of(bundle: Seq<char>) -> Seq<char> {
    path_join(bundle, "Contents/Info.plist"@, PathStyle::Unix)
}

pub fn bundle_binary(bundle: &str) -> (r: String)
    ensures
        r@ == bundle_binary_of(bundle@),
{
    proof {
        lemma_bundle_parts_are_relative();
    }
    let macos = join(bundle, "Contents/MacOS", PathStyle::Unix);
    join(macos.as_str(), MAIN_BINARY, PathStyle::Unix)
}

pub fn bundle_plist(bundle: &str) -> (r: String)
    ensures
        r@ == bundle_plist_of(bundle@),
{
    proof {
        lemma_bundle_parts_are_relative();
    }
    join(bundle, "Contents/Info.plist", PathStyle::Unix)
}

proof fn lemma_bundle_names()
    ensures
        is_plain_name(CURRENT_APP_BUNDLE@, PathStyle::Unix),
        is_plain_name("Contents"@, PathStyle::Unix),
        is_plain_name("MacOS"@, PathStyle::Unix),
        is_plain_name(MAIN_BINARY@, PathStyle::Unix),
        name_extension(CURRENT_APP_BUNDLE@) == Some("app"@),
        name_extension("Contents"@) is None,
        name_extension("MacOS"@) is None,
        name_extension(MAIN_BINARY@) is None,
{
    reveal_strlit("Clash Verge.app");
    reveal_strlit("Contents");
    reveal_strlit("MacOS");
    reveal_strlit("clash-verge");
    reveal_strlit("app");
    let cur = CURRENT_APP_BUNDLE@;
    assert(cur =~= seq![
        'C', 'l', 'a', 's', 'h', ' ', 'V', 'e', 'r', 'g', 'e', '.', 'a', 'p', 'p',
    ]);
    assert("Contents"@ =~= seq!['C', 'o', 'n', 't', 'e', 'n', 't', 's']);
    assert("MacOS"@ =~= seq!['M', 'a', 'c', 'O', 'S']);
    assert(MAIN_BINARY@ =~= seq!['c', 'l', 'a', 's', 'h', '-', 'v', 'e', 'r', 'g', 'e']);
    reveal_with_fuel(last_dot, 16);
    assert(last_dot(cur, 15) == 11);
    assert(cur.skip(12) =~= "app"@);
    assert(last_dot("Contents"@, 8) == -1);
    assert(last_dot("MacOS"@, 5) == -1);
    assert(last_dot(MAIN_BINARY@, 11) == -1);
}

/// Running from the unified bundle, wherever it sits: the executable's
/// bundle is found to be that bundle, which carries the unified name, so the
/// clean-up looks for legacy bundles.
pub proof fn lemma_running_bundle_is_found(dir: Seq<char>)
    ensures
        ({
            let bundle = path_join(dir, CURRENT_APP_BUNDLE@, PathStyle::Unix);
            &&& nearest_app_bundle(bundle_binary_of(bundle)) == Some(bundle)
            &&& bundle_is_named(bundle, CURRENT_APP_BUNDLE@)
        }),
{
    let u = PathStyle::Unix;
    lemma_bundle_names();
    let bundle = path_join(dir, CURRENT_APP_BUNDLE@, u);
    let contents = path_join(bundle, "Contents"@, u);
    let macos = path_join(contents, "MacOS"@, u);
    let exe = path_join(macos, MAIN_BINARY@, u);
    reveal_strlit("Contents/MacOS");
    reveal_strlit("Contents");
    reveal_strlit("MacOS");
    lemma_join_ends_in_name(dir, CURRENT_APP_BUNDLE@, u);
    lemma_join_ends_in_name(bundle, "Contents"@, u);
    lemma_join_ends_in_name(contents, "MacOS"@, u);
    assert(bundle.len() > 0 && bundle.last() != '/');
    assert(path_join(bundle, "Contents/MacOS"@, u) =~= macos);
    assert(bundle_binary_of(bundle) == exe);
    lemma_parent_of_join(macos, MAIN_BINARY@, u);
    lemma_parent_of_join(contents, "MacOS"@, u);
    lemma_parent_of_join(bundle, "Contents"@, u);
    lemma_join_file_name(dir, CURRENT_APP_BUNDLE@, u);
    lemma_join_file_name(bundle, "Contents"@, u);
    lemma_join_file_name(contents, "MacOS"@, u);
    lemma_nearest_app_bundle_steps(exe);
    lemma_nearest_app_bundle_steps(macos);
    lemma_nearest_app_bundle_steps(contents);
}

pub open spec fn plutil_args_of(plist: Seq<char>) -> Seq<Seq<char>> {
    seq!["-extract"@, "CFBundleIdentifier"@, "raw"@, "-o"@, "-"@, plist]
}

/// Arguments for `/usr/bin/plutil` that print a property list's bundle
/// identifier.
pub fn plutil_args(plist: &str) -> (r: Vec<String>)
    ensures
        views(r@) == plutil_args_of(plist@),
{
    let mut r: Vec<String> = Vec::new();
    r.push(String::from_str("-extract"));
    r.push(String::from_str("CFBundleIdentifier"));
    r.push(String::from_str("raw"));
    r.push(String::from_str("-o"));
    r.push(String::from_str("-"));
    r.push(String::from_str(plist));
    proof {
        assert(views(r@) =~= plutil_args_of(plist@));
    }
    r
}

/// What a finished command left.
pub struct CommandOutput {
    pub success: bool,
    pub stdout: Vec<u8>,
    pub stderr: Vec<u8>,
}

/// The next thing to do while deciding whether a bundle is the legacy one.
pub enum BundleCheck {
    /// Is there a file at this path (the bundle's executable)?
    CheckBinary(String),
    /// Is there a file at this path (the bundle's property list)?
    CheckPlist(String),
    /// Run `/usr/bin/plutil` with these arguments.
    ReadBundleId { args: Vec<String> },
    /// Decided.
    Verdict(bool),
}

/// A bundle is considered only when it carries the legacy name; then its
/// executable is looked for.
pub fn bundle_check_start(bundle: &str) -> (r: BundleCheck)
    ensures
        if bundle_is_named(bundle@, LEGACY_APP_BUNDLE@) {
            r matches BundleCheck::CheckBinary(p) && p@ == bundle_binary_of(bundle@)
        } else {
            r == BundleCheck::Verdict(false)
        },
{
    if !bundle_named(bundle, LEGACY_APP_BUNDLE) {
        return BundleCheck::Verdict(false);
    }
    BundleCheck::CheckBinary(bundle_binary(bundle))
}

/// Without its executable a bundle is not the legacy one; with it, its
/// property list is looked for.
pub fn after_binary_check(bundle: &str, binary_is_file: bool) -> (r: BundleCheck)
    ensures
        if binary_is_file {
            r matches BundleCheck::CheckPlist(p) && p@ == bundle_plist_of(bundle@)
        } else {
            r == BundleCheck::Verdict(false)
        },
{
    if !binary_is_file {
        return BundleCheck::Verdict(false);
    }
    BundleCheck::CheckPlist(bundle_plist(bundle))
}

/// Without its property list a bundle is not the legacy one; with it, the
/// bundle identifier is read from it.
pub fn after_plist_check(bundle: &str, plist_is_file: bool) -> (r: BundleCheck)
    ensures
        if plist_is_file {
            r matches BundleCheck::ReadBundleId { args } && views(args@) == plutil_args_of(
                bundle_plist_of(bundle@),
            )
        } else {
            r == BundleCheck::Verdict(false)
        },
{
    if !plist_is_file {
        return BundleCheck::Verdict(false);
    }
    let plist = bundle_plist(bundle);
    BundleCheck::ReadBundleId { args: plutil_args(plist.as_str()) }
}

/// Whether what `plutil` printed, decoded, names the application: it is
/// `app_id` once the white space around it is dropped.
pub fn bundle_id_matches(printed: &str, app_id: &str) -> (r: bool)
    ensures
        r == (trim_white_space(printed@) == app_id@),
{
    let id = trim(printed);
    same_text(id.as_str(), app_id)
}

/// The verdict from reading the bundle identifier: `plutil` could not be
/// run is an error; a failed run says no; otherwise the bundle is the legacy
/// one when its identifier, decoded and trimmed, is `app_id`.
pub fn after_bundle_id_read(output: Option<CommandOutput>, app_id: &str) -> (r: Result<
    bool,
    String,
>)
    ensures
        match output {
            None => r matches Err(e) && e@ == "read CFBundleIdentifier"@,
            Some(out) => r == Ok::<bool, String>(
                out.success && trim_white_space(utf8_lossy(out.stdout@)) == app_id@,
            ),
        },
{
    match output {
        None => Err(String::from_str("read CFBundleIdentifier")),
        Some(out) => {
            if !out.success {
                return Ok(false);
            }
            let printed = decode_utf8_lossy(out.stdout.as_slice());
            Ok(bundle_id_matches(printed.as_str(), app_id))
        },
    }
}

/// What the bundle clean-up does, given the running executable.
pub enum BundleCleanup {
    /// Running from the unified bundle: look for legacy bundles.
    RemoveLegacyBundles { current_bundle: String },
    /// Running from another bundle: nothing to do.
    LeaveAlone,
}

/// Why the bundle clean-up could not proceed.
#[derive(PartialEq, Eq, Structural, Clone, Copy, Debug)]
pub enum BundleError {
    /// The executable is not inside an `.app` bundle.
    NoAppBundle,
}

impl BundleError {
    pub fn message(&self) -> (r: &'static str)
        ensures
            r@ == "resolve current .app bundle"@,
    {
        match self {
            BundleError::NoAppBundle => "resolve current .app bundle",
        }
    }
}

/// Decides the bundle clean-up from the running executable's path.
pub fn plan_bundle_cleanup(exe: &str) -> (r: Result<BundleCleanup, BundleError>)
    ensures
        (r is Err) == (nearest_app_bundle(exe@) is None),
        r matches Ok(p) ==> {
            let b = nearest_app_bundle(exe@).unwrap();
            &&& (p is RemoveLegacyBundles) == bundle_is_named(b, CURRENT_APP_BUNDLE@)
            &&& (p matches BundleCleanup::RemoveLegacyBundles { current_bundle }
                ==> current_bundle@ == b)
        },
{
    let current_bundle = match app_bundle_path(exe) {
        Some(b) => b,
        None => return Err(BundleError::NoAppBundle),
    };
    if !is_current_bundle(current_bundle.as_str()) {
        return Ok(BundleCleanup::LeaveAlone);
    }
    Ok(BundleCleanup::RemoveLegacyBundles { current_bundle })
}

/// Whether a legacy bundle is the running bundle itself: both are taken in
/// their canonical form where one could be had and compared by components.
pub fn is_running_bundle(
    legacy: &str,
    legacy_canonical: Option<String>,
    current: &str,
    current_canonical: Option<String>,
) -> (r: bool)
    ensures
        r == same_path(
            resolved(legacy@, legacy_canonical),
            resolved(current@, current_canonical),
            PathStyle::Unix,
        ),
{
    same_location(legacy, legacy_canonical, current, current_canonical, PathStyle::Unix)
}

/// A candidate goes to the Trash when it is a folder, is the legacy bundle,
/// and is not the running bundle.
pub fn should_trash_bundle(is_dir: bool, is_legacy: bool, is_running: bool) -> (r: bool)
    ensures
        r == (is_dir && is_legacy && !is_running),
{
    is_dir && is_legacy && !is_running
}

/// The next thing to do while going through the candidate bundles, in
/// order, moving each legacy bundle to the Trash.
pub enum BundleSweepStep {
    /// Is candidate `i` a folder?
    CheckIsDir(usize),
    /// Is candidate `i` the legacy bundle (the bundle check steps)?
    CheckIsLegacy(usize),
    /// Is candidate `i` the running bundle? The caller finds the canonical
    /// forms of both.
    CheckIsRunning(usize),
    /// Move candidate `i` to the Trash.
    Trash(usize),
    /// Done, with the outcome.
    Finished(Result<(), String>),
}

/// Where the sweep stands once the candidates before `i` are behind.
pub open spec fn bundle_sweep_at(candidates: Seq<String>, i: int) -> BundleSweepStep {
    if i < candidates.len() {
        BundleSweepStep::CheckIsDir(i as usize)
    } else {
        BundleSweepStep::Finished(Ok(()))
    }
}

fn bundle_sweep_step_at(candidates: &Vec<String>, i: usize) -> (r: BundleSweepStep)
    requires
        i <= candidates@.len(),
    ensures
        r == bundle_sweep_at(candidates@, i as int),
{
    if i < candidates.len() {
        BundleSweepStep::CheckIsDir(i)
    } else {
        BundleSweepStep::Finished(Ok(()))
    }
}

/// The sweep begins with the first candidate.
pub fn bundle_sweep_start(candidates: &Vec<String>) -> (r: BundleSweepStep)
    ensures
        r == bundle_sweep_at(candidates@, 0),
{
    bundle_sweep_step_at(candidates, 0)
}

/// A candidate that is not a folder is passed over; one that is, is checked
/// for being the legacy bundle.
pub fn after_bundle_dir_check(candidates: &Vec<String>, i: usize, is_dir: bool) -> (r:
    BundleSweepStep)
    requires
        i < candidates.len(),
    ensures
        is_dir ==> r == BundleSweepStep::CheckIsLegacy(i),
        !is_dir ==> r == bundle_sweep_at(candidates@, i + 1),
{
    if is_dir {
        BundleSweepStep::CheckIsLegacy(i)
    } else {
        bundle_sweep_step_at(candidates, i + 1)
    }
}

/// A failed bundle check ends the sweep with its error; a bundle that is
/// not the legacy one is passed over; the legacy one is compared with the
/// running bundle.
pub fn after_legacy_verdict(candidates: &Vec<String>, i: usize, verdict: Result<bool, String>) -> (r:
    BundleSweepStep)
    requires
        i < candidates.len(),
    ensures
        match verdict {
            Ok(true) => r == BundleSweepStep::CheckIsRunning(i),
            Ok(false) => r == bundle_sweep_at(candidates@, i + 1),
            Err(e) => r == BundleSweepStep::Finished(Err(e)),
        },
{
    match verdict {
        Ok(true) => BundleSweepStep::CheckIsRunning(i),
        Ok(false) => {
            bundle_sweep_step_at(candidates, i + 1)
        },
        Err(e) => BundleSweepStep::Finished(Err(e)),
    }
}

/// The running bundle is passed over; any other legacy bundle goes to the
/// Trash.
pub fn after_running_check(
    candidates: &Vec<String>,
    i: usize,
    candidate_canonical: Option<String>,
    current_bundle: &str,
    current_canonical: Option<String>,
) -> (r: BundleSweepStep)
    requires
        i < candidates.len(),
    ensures
        ({
            let running = same_path(
                resolved(candidates@[i as int]@, candidate_canonical),
                resolved(current_bundle@, current_canonical),
                PathStyle::Unix,
            );
            &&& running ==> r == bundle_sweep_at(candidates@, i + 1)
            &&& !running ==> r == BundleSweepStep::Trash(i)
        }),
{
    let running = is_running_bundle(
        candidates[i].as_str(),
        candidate_canonical,
        current_bundle,
        current_canonical,
    );
    if should_trash_bundle(true, true, running) {
        BundleSweepStep::Trash(i)
    } else {
        bundle_sweep_step_at(candidates, i + 1)
    }
}

/// A failed move to the Trash ends the sweep with its error; otherwise the
/// sweep goes on with the next candidate.
pub fn after_bundle_trashed(candidates: &Vec<String>, i: usize, trashed: Result<(), String>) -> (r:
    BundleSweepStep)
    requires
        i < candidates.len(),
    ensures
        match trashed {
            Ok(()) => r == bundle_sweep_at(candidates@, i + 1),
            Err(e) => r == BundleSweepStep::Finished(Err(e)),
        },
{
    match trashed {
        Ok(()) => {
            bundle_sweep_step_at(candidates, i + 1)
        },
        Err(e) => BundleSweepStep::Finished(Err(e)),
    }
}

pub open spec fn trash_script_of(path: Seq<char>) -> Seq<char> {
    "tell application \"Finder\" to delete POSIX file \""@ + escape_quotes(path) + "\""@
}

/// The AppleScript that has the Finder move `path` to the Trash, with the
/// double quotes in the path escaped.
pub fn trash_script(path: &str) -> (r: String)
    ensures
        r@ == trash_script_of(path@),
{
    let mut r = String::from_str("tell application \"Finder\" to delete POSIX file \"");
    let escaped = escape_double_quotes(path);
    r.append(escaped.as_str());
    r.append("\"");
    r
}

/// Arguments for `/usr/bin/osascript` that run `script`.
pub fn osascript_args(script: &str) -> (r: Vec<String>)
    ensures
        views(r@) == seq!["-e"@, script@],
{
    let mut r: Vec<String> = Vec::new();
    r.push(String::from_str("-e"));
    r.push(String::from_str(script));
    proof {
        assert(views(r@) =~= seq!["-e"@, script@]);
    }
    r
}

/// The error reported when the Finder did not move a bundle, given what
/// `osascript` wrote to its error stream, decoded.
pub fn trash_failure_message(stderr: &str) -> (r: String)
    ensures
        r@ == "Finder trash failed: "@ + stderr@,
{
    let mut msg = String::from_str("Finder trash failed: ");
    msg.append(stderr);
    msg
}

/// The outcome of moving a bundle to the Trash: `osascript` could not be
/// run, or it failed with what it wrote to its error stream.
pub fn after_trash(output: Option<CommandOutput>) -> (r: Result<(), String>)
    ensures
        match output {
            None => r matches Err(e) && e@ == "osascript trash"@,
            Some(out) => if out.success {
                r is Ok
            } else {
                r matches Err(e) && e@ == "Finder trash failed: "@ + utf8_lossy(out.stderr@)
            },
        },
{
    match output {
        None => Err(String::from_str("osascript trash")),
        Some(out) => {
            if out.success {
                return Ok(());
            }
            let stderr = decode_utf8_lossy(out.stderr.as_slice());
            Err(trash_failure_message(stderr.as_str()))
        },
    }
}

} // verus!
