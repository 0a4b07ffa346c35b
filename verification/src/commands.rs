//! The decisions behind the application's commands: which folder to open,
//! how the browser is started with the proxy, what the developer tools
//! toggle does, and the update and portable flags. Opening folders, starting
//! processes and reading the configuration are left to the caller.
use vstd::prelude::*;
use vstd::string::*;

use crate::path::{
    is_plain_name, join, join_keeps_prefix, lemma_join_file_name, parent, path_file_name, path_join,
    path_parent, PathStyle,
};
use crate::path_list::views;
use crate::text::{decimal, decimal_string, decimal_value, lemma_decimal_round_trip};

verus! {

/// The platform the application runs on, as far as the commands care.
#[derive(PartialEq, Eq, Structural, Clone, Copy, Debug)]
pub enum TargetOs {
    Windows,
    MacOs,
    Other,
}

/// The portable flag: as recorded, or off when it was never recorded.
pub fn get_portable_flag(recorded: Option<bool>) -> (r: bool)
    ensures
        r == match recorded {
            Some(b) => b,
            None => false,
        },
{
    match recorded {
        Some(b) => b,
        None => false,
    }
}

/// The folder that holds the core executable `exe`, or the error the
/// command reports when there is none.
pub fn core_dir(exe: &str, style: PathStyle) -> (r: Result<String, String>)
    ensures
        match path_parent(exe@, style) {
            Some(d) => r matches Ok(x) && x@ == d,
            None => r matches Err(e) && e@ == "failed to get core dir"@,
        },
{
    match parent(exe, style) {
        Some(d) => Ok(d),
        None => Err(String::from_str("failed to get core dir")),
    }
}

/// What the developer-tools command does to the main window.
#[derive(PartialEq, Eq, Structural, Clone, Copy, Debug)]
pub enum DevtoolsAction {
    Open,
    Close,
}

/// The label of the main window.
pub const MAIN_WINDOW_LABEL: &'static str = "main";

/// Toggles the main window's developer tools: opens them when closed,
/// closes them when open, and does nothing without a main window
/// (`devtools_open` is `None` then).
pub fn open_devtools(devtools_open: Option<bool>) -> (r: Option<DevtoolsAction>)
    ensures
        r == match devtools_open {
            None => None,
            Some(false) => Some(DevtoolsAction::Open),
            Some(true) => Some(DevtoolsAction::Close),
        },
{
    match devtools_open {
        None => None,
        Some(open) => if !open {
            Some(DevtoolsAction::Open)
        } else {
            Some(DevtoolsAction::Close)
        },
    }
}

/// The application's update state: whether an in-app update is under way,
/// and whether the application may exit without being held back.
#[derive(PartialEq, Eq, Structural, Clone, Copy, Debug)]
pub struct UpdateFlags {
    pub updating: bool,
    pub exiting: bool,
}

/// What `prepare_for_update` leaves for the caller to do, in order.
#[derive(PartialEq, Eq, Structural, Clone, Copy, Debug)]
pub enum UpdateChore {
    ShutdownEmbeddedServer,
    StopCore,
}

/// The flags once an update is prepared: under way, exiting allowed.
pub open spec fn prepared(flags: UpdateFlags) -> UpdateFlags {
    UpdateFlags { updating: true, exiting: true }
}

/// The flags once a failed update is cleared: neither under way nor
/// exiting.
pub open spec fn cleared(flags: UpdateFlags) -> UpdateFlags {
    UpdateFlags { updating: false, exiting: false }
}

/// The process exits for the installer only while an update is under way.
pub open spec fn exits_for_update(flags: UpdateFlags) -> bool {
    flags.updating
}

/// Before an in-app update: mark the update as under way and let the
/// application exit; the embedded server is then shut down and the core
/// stopped.
pub fn prepare_for_update(flags: &mut UpdateFlags) -> (r: Vec<UpdateChore>)
    ensures
        *final(flags) == prepared(*old(flags)),
        r@ == seq![UpdateChore::ShutdownEmbeddedServer, UpdateChore::StopCore],
{
    flags.updating = true;
    flags.exiting = true;
    let mut r: Vec<UpdateChore> = Vec::new();
    r.push(UpdateChore::ShutdownEmbeddedServer);
    r.push(UpdateChore::StopCore);
    r
}

/// After a failed in-app update: the update is no longer under way and
/// exiting is held back again.
pub fn clear_prepare_for_update(flags: &mut UpdateFlags)
    ensures
        *final(flags) == cleared(*old(flags)),
{
    flags.updating = false;
    flags.exiting = false;
}

/// Whether the process exits for the installer.
pub fn exit_for_update(flags: &UpdateFlags) -> (r: bool)
    ensures
        r == exits_for_update(*flags),
{
    flags.updating
}

/// Clearing undoes preparing: once an update is prepared the process exits
/// for the installer; clearing it afterwards leaves the flags as clearing
/// alone would, and the process no longer exits.
pub proof fn lemma_clear_undoes_prepare(flags: UpdateFlags)
    ensures
        exits_for_update(prepared(flags)),
        cleared(prepared(flags)) == cleared(flags),
        !exits_for_update(cleared(prepared(flags))),
{
}

/// The mixed port the browser is pointed at: the application's own setting
/// when there is one, else the core's.
pub fn mixed_port(verge_mixed_port: Option<u16>, clash_mixed_port: u16) -> (r: u16)
    ensures
        r == match verge_mixed_port {
            Some(p) => p,
            None => clash_mixed_port,
        },
{
    match verge_mixed_port {
        Some(p) => p,
        None => clash_mixed_port,
    }
}

/// The page the browser opens.
pub const BROWSER_START_URL: &'static str = "https://www.google.com";

pub open spec fn proxy_server_arg_of(port: u16) -> Seq<char> {
    "--proxy-server=http://127.0.0.1:"@ + decimal(port as nat)
}

/// The proxy argument points the browser at the local mixed port: it is
/// `--proxy-server=http://127.0.0.1:` followed by digits that read back as
/// the port.
pub proof fn lemma_proxy_arg_names_port(port: u16)
    ensures
        proxy_server_arg_of(port).take(32) == "--proxy-server=http://127.0.0.1:"@,
        decimal_value(proxy_server_arg_of(port).skip(32)) == port,
{
    reveal_strlit("--proxy-server=http://127.0.0.1:");
    let r = proxy_server_arg_of(port);
    assert(r.take(32) =~= "--proxy-server=http://127.0.0.1:"@);
    assert(r.skip(32) =~= decimal(port as nat));
    lemma_decimal_round_trip(port as nat);
}

/// The browser argument that routes it through the local mixed port.
pub fn proxy_server_arg(port: u16) -> (r: String)
    ensures
        r@ == proxy_server_arg_of(port),
{
    let mut r = String::from_str("--proxy-server=http://127.0.0.1:");
    let digits = decimal_string(port);
    r.append(digits.as_str());
    r
}

/// The folder the browser keeps its profile in, under the application's
/// home: named for Edge on Windows and for Chrome elsewhere.
pub open spec fn browser_profile_dir_name_of(os: TargetOs) -> Seq<char> {
    if os == TargetOs::Windows {
        "clash-verge-edge"@
    } else {
        "clash-verge-chrome"@
    }
}

pub fn browser_profile_dir_name(os: TargetOs) -> (r: &'static str)
    ensures
        r@ == browser_profile_dir_name_of(os),
{
    if os == TargetOs::Windows {
        "clash-verge-edge"
    } else {
        "clash-verge-chrome"
    }
}

proof fn lemma_profile_names_are_plain(style: PathStyle)
    ensures
        is_plain_name("clash-verge-edge"@, style),
        is_plain_name("clash-verge-chrome"@, style),
{
    reveal_strlit("clash-verge-edge");
    reveal_strlit("clash-verge-chrome");
    assert("clash-verge-edge"@ =~= seq![
        'c', 'l', 'a', 's', 'h', '-', 'v', 'e', 'r', 'g', 'e', '-', 'e', 'd', 'g', 'e',
    ]);
    assert("clash-verge-chrome"@ =~= seq![
        'c', 'l', 'a', 's', 'h', '-', 'v', 'e', 'r', 'g', 'e', '-', 'c', 'h', 'r', 'o', 'm', 'e',
    ]);
}

/// The profile folder is named for the browser that uses it:
/// `clash-verge-edge` on Windows, `clash-verge-chrome` elsewhere, as the
/// last component of the folder under the application's home.
pub proof fn lemma_profile_dir_named_for_browser(app_home: Seq<char>, os: TargetOs, style: PathStyle)
    requires
        join_keeps_prefix(app_home, browser_profile_dir_name_of(os), style),
    ensures
        path_file_name(path_join(app_home, browser_profile_dir_name_of(os), style), style) == Some(
            if os == TargetOs::Windows {
                "clash-verge-edge"@
            } else {
                "clash-verge-chrome"@
            },
        ),
{
    lemma_profile_names_are_plain(style);
    lemma_join_file_name(app_home, browser_profile_dir_name_of(os), style);
}

/// The browser's profile folder under the application's home.
pub fn browser_profile_dir(app_home: &str, os: TargetOs, style: PathStyle) -> (r: String)
    ensures
        r@ == path_join(app_home@, browser_profile_dir_name_of(os), style),
{
    proof {
        lemma_profile_names_are_plain(style);
    }
    join(app_home, browser_profile_dir_name(os), style)
}

pub open spec fn user_data_dir_arg_of(profile_dir: Seq<char>) -> Seq<char> {
    "--user-data-dir="@ + profile_dir
}

/// The profile argument names the folder as it is: `--user-data-dir=`
/// followed by the folder's characters unchanged, whatever they are.
pub proof fn lemma_user_data_dir_arg_names_folder(profile_dir: Seq<char>)
    ensures
        user_data_dir_arg_of(profile_dir).len() == profile_dir.len() + 16,
        user_data_dir_arg_of(profile_dir).take(16) == "--user-data-dir="@,
        user_data_dir_arg_of(profile_dir).skip(16) == profile_dir,
{
    reveal_strlit("--user-data-dir=");
    let r = user_data_dir_arg_of(profile_dir);
    assert(r.take(16) =~= "--user-data-dir="@);
    assert(r.skip(16) =~= profile_dir);
}

/// The browser argument that gives it its own profile folder.
pub fn user_data_dir_arg(profile_dir: &str) -> (r: String)
    ensures
        r@ == user_data_dir_arg_of(profile_dir@),
{
    let mut r = String::from_str("--user-data-dir=");
    r.append(profile_dir);
    r
}

/// One way of starting the browser.
pub struct LaunchAttempt {
    pub program: String,
    pub args: Vec<String>,
    /// Only tried when a file exists at `program`.
    pub needs_existing_program: bool,
}

/// The ways of starting the browser, tried in order, and the error reported
/// when none of them starts it. Every attempt carries the proxy and profile
/// arguments, so the launch succeeds only with a browser that uses the proxy.
pub struct LaunchPlan {
    pub attempts: Vec<LaunchAttempt>,
    pub failure: String,
}

pub open spec fn attempt_view(a: LaunchAttempt) -> (Seq<char>, Seq<Seq<char>>, bool) {
    (a.program@, views(a.args@), a.needs_existing_program)
}

pub open spec fn attempts_view(v: Seq<LaunchAttempt>) -> Seq<(Seq<char>, Seq<Seq<char>>, bool)> {
    v.map_values(|a: LaunchAttempt| attempt_view(a))
}

/// The arguments a browser binary is started with.
pub open spec fn browser_args_of(user_data_arg: Seq<char>, proxy_arg: Seq<char>) -> Seq<Seq<char>> {
    seq!["--new-window"@, user_data_arg, proxy_arg, BROWSER_START_URL@]
}

pub open spec fn edge_x86_path() -> Seq<char> {
    "C:\\Program Files (x86)\\Microsoft\\Edge\\Application\\msedge.exe"@
}

pub open spec fn edge_path() -> Seq<char> {
    "C:\\Program Files\\Microsoft\\Edge\\Application\\msedge.exe"@
}

/// Edge under the user's local application data folder.
pub open spec fn local_edge_path(local_app_data: Seq<char>) -> Seq<char> {
    path_join(
        path_join(
            path_join(
                path_join(local_app_data, "Microsoft"@, PathStyle::Windows),
                "Edge"@,
                PathStyle::Windows,
            ),
            "Application"@,
            PathStyle::Windows,
        ),
        "msedge.exe"@,
        PathStyle::Windows,
    )
}

pub open spec fn launch_attempts_of(
    os: TargetOs,
    user_data_arg: Seq<char>,
    proxy_arg: Seq<char>,
    local_app_data: Option<String>,
) -> Seq<(Seq<char>, Seq<Seq<char>>, bool)> {
    let args = browser_args_of(user_data_arg, proxy_arg);
    if os == TargetOs::Windows {
        let installed = seq![(edge_x86_path(), args, true), (edge_path(), args, true)];
        let local = match local_app_data {
            Some(l) => if l@.len() > 0 {
                seq![(local_edge_path(l@), args, true)]
            } else {
                Seq::empty()
            },
            None => Seq::empty(),
        };
        let shell = seq![
            (
                "cmd"@,
                seq!["/c"@, "start"@, ""@, "msedge"@] + args,
                false,
            ),
        ];
        installed + local + shell
    } else if os == TargetOs::MacOs {
        seq![
            (
                "open"@,
                seq!["-n"@, "-a"@, "Google Chrome"@, "--args"@] + args,
                false,
            ),
        ]
    } else {
        seq![
            ("google-chrome"@, args, false),
            ("google-chrome-stable"@, args, false),
            ("chromium-browser"@, args, false),
            ("chromium"@, args, false),
        ]
    }
}

/// Every way of starting the browser, on every platform, hands it the
/// profile and proxy arguments it was given: the arguments of each attempt
/// end with `--new-window`, the profile argument, the proxy argument and
/// the start page.
pub proof fn lemma_every_attempt_uses_proxy(
    os: TargetOs,
    user_data_arg: Seq<char>,
    proxy_arg: Seq<char>,
    local_app_data: Option<String>,
)
    ensures
        forall|i: int|
            0 <= i < launch_attempts_of(os, user_data_arg, proxy_arg, local_app_data).len() ==> {
                let args = (#[trigger] launch_attempts_of(
                    os,
                    user_data_arg,
                    proxy_arg,
                    local_app_data,
                )[i]).1;
                &&& args.len() >= 4
                &&& args.subrange(args.len() - 4, args.len() as int) == seq![
                    "--new-window"@,
                    user_data_arg,
                    proxy_arg,
                    "https://www.google.com"@,
                ]
                &&& args.contains(user_data_arg)
                &&& args.contains(proxy_arg)
            },
{
    let attempts = launch_attempts_of(os, user_data_arg, proxy_arg, local_app_data);
    let tail = seq!["--new-window"@, user_data_arg, proxy_arg, "https://www.google.com"@];
    assert(browser_args_of(user_data_arg, proxy_arg) == tail);
    assert forall|i: int| 0 <= i < attempts.len() implies {
        let args = (#[trigger] attempts[i]).1;
        &&& args.len() >= 4
        &&& args.subrange(args.len() - 4, args.len() as int) == tail
        &&& args.contains(user_data_arg)
        &&& args.contains(proxy_arg)
    } by {
        let args = attempts[i].1;
        let pre = args.take(args.len() - 4);
        if args == tail {
            assert(args.subrange(0, 4) =~= tail);
        } else if os == TargetOs::Windows {
            assert(args == seq!["/c"@, "start"@, ""@, "msedge"@] + tail);
            assert(args.subrange(4, 8) =~= tail);
        } else {
            assert(args == seq!["-n"@, "-a"@, "Google Chrome"@, "--args"@] + tail);
            assert(args.subrange(4, 8) =~= tail);
        }
        assert(args.subrange(args.len() - 4, args.len() as int)[1] == user_data_arg);
        assert(args[args.len() - 3] == user_data_arg);
        assert(args[args.len() - 2] == proxy_arg);
    }
}

/// The error reported when no attempt started a browser.
pub open spec fn launch_failure_of(os: TargetOs) -> Seq<char> {
    if os == TargetOs::Windows {
        "Could not start browser (tried Edge). Install Microsoft Edge."@
    } else if os == TargetOs::MacOs {
        "Could not start browser (tried Google Chrome). Install Google Chrome."@
    } else {
        "Could not start browser (tried Chrome and Chromium). Install Google Chrome or Chromium."@
    }
}

fn browser_args(user_data_arg: &str, proxy_arg: &str) -> (r: Vec<String>)
    ensures
        views(r@) == browser_args_of(user_data_arg@, proxy_arg@),
{
    let mut r: Vec<String> = Vec::new();
    r.push(String::from_str("--new-window"));
    r.push(String::from_str(user_data_arg));
    r.push(String::from_str(proxy_arg));
    r.push(String::from_str(BROWSER_START_URL));
    proof {
        assert(views(r@) =~= browser_args_of(user_data_arg@, proxy_arg@));
    }
    r
}

fn prefixed_args(prefix: Vec<String>, user_data_arg: &str, proxy_arg: &str) -> (r: Vec<String>)
    ensures
        views(r@) == views(prefix@) + browser_args_of(user_data_arg@, proxy_arg@),
{
    let mut r = prefix;
    let ghost p = views(r@);
    let mut tail = browser_args(user_data_arg, proxy_arg);
    let ghost t = views(tail@);
    r.append(&mut tail);
    proof {
        assert(views(r@) =~= p + t);
    }
    r
}

fn attempt(program: &str, args: Vec<String>, needs_existing_program: bool) -> (r: LaunchAttempt)
    ensures
        attempt_view(r) == (program@, views(args@), needs_existing_program),
{
    LaunchAttempt { program: String::from_str(program), args, needs_existing_program }
}

proof fn lemma_edge_parts_are_plain()
    ensures
        is_plain_name("Microsoft"@, PathStyle::Windows),
        is_plain_name("Edge"@, PathStyle::Windows),
        is_plain_name("Application"@, PathStyle::Windows),
        is_plain_name("msedge.exe"@, PathStyle::Windows),
{
    reveal_strlit("Microsoft");
    reveal_strlit("Edge");
    reveal_strlit("Application");
    reveal_strlit("msedge.exe");
    assert("Microsoft"@ =~= seq!['M', 'i', 'c', 'r', 'o', 's', 'o', 'f', 't']);
    assert("Edge"@ =~= seq!['E', 'd', 'g', 'e']);
    assert("Application"@ =~= seq!['A', 'p', 'p', 'l', 'i', 'c', 'a', 't', 'i', 'o', 'n']);
    assert("msedge.exe"@ =~= seq!['m', 's', 'e', 'd', 'g', 'e', '.', 'e', 'x', 'e']);
}

fn local_edge(local_app_data: &str) -> (r: String)
    ensures
        r@ == local_edge_path(local_app_data@),
{
    proof {
        lemma_edge_parts_are_plain();
    }
    let a = join(local_app_data, "Microsoft", PathStyle::Windows);
    let b = join(a.as_str(), "Edge", PathStyle::Windows);
    let c = join(b.as_str(), "Application", PathStyle::Windows);
    join(c.as_str(), "msedge.exe", PathStyle::Windows)
}

fn push_attempt(v: &mut Vec<LaunchAttempt>, a: LaunchAttempt)
    ensures
        attempts_view(final(v)@) == attempts_view(old(v)@).push(attempt_view(a)),
{
    let ghost before = v@;
    v.push(a);
    proof {
        assert(attempts_view(v@) =~= attempts_view(before).push(attempt_view(a)));
    }
}

/// How the browser is started on each platform, with its own profile folder
/// and the proxy: on Windows Edge from its usual places (and from the user's
/// local application data when that is known), then through `start`; on
/// macOS Chrome through `open`; elsewhere the usual Chrome and Chromium
/// binaries. When none starts, the launch fails with the platform's message.
pub fn browser_launch_plan(
    os: TargetOs,
    user_data_arg: &str,
    proxy_arg: &str,
    local_app_data: Option<String>,
) -> (r: LaunchPlan)
    ensures
        attempts_view(r.attempts@) == launch_attempts_of(
            os,
            user_data_arg@,
            proxy_arg@,
            local_app_data,
        ),
        r.failure@ == launch_failure_of(os),
{
    let ghost args = browser_args_of(user_data_arg@, proxy_arg@);
    let mut attempts: Vec<LaunchAttempt> = Vec::new();
    if os == TargetOs::Windows {
        push_attempt(
            &mut attempts,
            attempt(
                "C:\\Program Files (x86)\\Microsoft\\Edge\\Application\\msedge.exe",
                browser_args(user_data_arg, proxy_arg),
                true,
            ),
        );
        push_attempt(
            &mut attempts,
            attempt(
                "C:\\Program Files\\Microsoft\\Edge\\Application\\msedge.exe",
                browser_args(user_data_arg, proxy_arg),
                true,
            ),
        );
        let ghost installed = attempts_view(attempts@);
        let mut has_local = false;
        if let Some(local) = local_app_data {
            if local.as_str().unicode_len() > 0 {
                let exe = local_edge(local.as_str());
                push_attempt(
                    &mut attempts,
                    attempt(exe.as_str(), browser_args(user_data_arg, proxy_arg), true),
                );
                has_local = true;
            }
        }
        let ghost with_local = attempts_view(attempts@);
        let mut prefix: Vec<String> = Vec::new();
        prefix.push(String::from_str("/c"));
        prefix.push(String::from_str("start"));
        prefix.push(String::from_str(""));
        prefix.push(String::from_str("msedge"));
        proof {
            assert(views(prefix@) =~= seq!["/c"@, "start"@, ""@, "msedge"@]);
        }
        push_attempt(
            &mut attempts,
            attempt("cmd", prefixed_args(prefix, user_data_arg, proxy_arg), false),
        );
        proof {
            assert(attempts_view(attempts@) =~= launch_attempts_of(
                os,
                user_data_arg@,
                proxy_arg@,
                local_app_data,
            ));
        }
        LaunchPlan {
            attempts,
            failure: String::from_str(
                "Could not start browser (tried Edge). Install Microsoft Edge.",
            ),
        }
    } else if os == TargetOs::MacOs {
        let mut prefix: Vec<String> = Vec::new();
        prefix.push(String::from_str("-n"));
        prefix.push(String::from_str("-a"));
        prefix.push(String::from_str("Google Chrome"));
        prefix.push(String::from_str("--args"));
        proof {
            assert(views(prefix@) =~= seq!["-n"@, "-a"@, "Google Chrome"@, "--args"@]);
        }
        push_attempt(
            &mut attempts,
            attempt("open", prefixed_args(prefix, user_data_arg, proxy_arg), false),
        );
        proof {
            assert(attempts_view(attempts@) =~= launch_attempts_of(
                os,
                user_data_arg@,
                proxy_arg@,
                local_app_data,
            ));
        }
        LaunchPlan {
            attempts,
            failure: String::from_str(
                "Could not start browser (tried Google Chrome). Install Google Chrome.",
            ),
        }
    } else {
        push_attempt(
            &mut attempts,
            attempt("google-chrome", browser_args(user_data_arg, proxy_arg), false),
        );
        push_attempt(
            &mut attempts,
            attempt("google-chrome-stable", browser_args(user_data_arg, proxy_arg), false),
        );
        push_attempt(
            &mut attempts,
            attempt("chromium-browser", browser_args(user_data_arg, proxy_arg), false),
        );
        push_attempt(
            &mut attempts,
            attempt("chromium", browser_args(user_data_arg, proxy_arg), false),
        );
        proof {
            assert(attempts_view(attempts@) =~= launch_attempts_of(
                os,
                user_data_arg@,
                proxy_arg@,
                local_app_data,
            ));
        }
        LaunchPlan {
            attempts,
            failure: String::from_str(
                "Could not start browser (tried Chrome and Chromium). Install Google Chrome or Chromium.",
            ),
        }
    }
}

/// The next thing to do while starting the browser.
pub enum LaunchStep {
    /// Is there a file at the program of attempt `i`?
    CheckExists(usize),
    /// Start attempt `i`'s program with its arguments.
    Spawn(usize),
    /// Finished, with the command's outcome.
    Done(Result<(), String>),
}

/// Where the plan stands once the attempts before `i` are behind: attempt
/// `i` (after an existence check when it needs one), or the failure once all
/// were tried.
pub open spec fn step_at_spec(plan: LaunchPlan, i: int) -> LaunchStep {
    if i < plan.attempts@.len() {
        if plan.attempts@[i].needs_existing_program {
            LaunchStep::CheckExists(i as usize)
        } else {
            LaunchStep::Spawn(i as usize)
        }
    } else {
        LaunchStep::Done(Err(plan.failure))
    }
}

/// Two steps agree, comparing the texts they carry by their characters.
pub open spec fn same_step(a: LaunchStep, b: LaunchStep) -> bool {
    match (a, b) {
        (LaunchStep::CheckExists(i), LaunchStep::CheckExists(j)) => i == j,
        (LaunchStep::Spawn(i), LaunchStep::Spawn(j)) => i == j,
        (LaunchStep::Done(Ok(())), LaunchStep::Done(Ok(()))) => true,
        (LaunchStep::Done(Err(m)), LaunchStep::Done(Err(n))) => m@ == n@,
        _ => false,
    }
}

fn step_at(plan: &LaunchPlan, i: usize) -> (r: LaunchStep)
    requires
        i <= plan.attempts@.len(),
    ensures
        same_step(r, step_at_spec(*plan, i as int)),
{
    if i < plan.attempts.len() {
        if plan.attempts[i].needs_existing_program {
            LaunchStep::CheckExists(i)
        } else {
            LaunchStep::Spawn(i)
        }
    } else {
        LaunchStep::Done(Err(plan.failure.clone()))
    }
}

/// Starting the browser begins with the first attempt.
pub fn launch_start(plan: &LaunchPlan) -> (r: LaunchStep)
    ensures
        same_step(r, step_at_spec(*plan, 0)),
{
    step_at(plan, 0)
}

/// After checking for attempt `i`'s program: start it when it exists, else
/// move on to the next attempt.
pub fn after_exists_check(plan: &LaunchPlan, i: usize, exists: bool) -> (r: LaunchStep)
    requires
        i < plan.attempts.len(),
    ensures
        exists ==> r == LaunchStep::Spawn(i),
        !exists ==> same_step(r, step_at_spec(*plan, i + 1)),
{
    if exists {
        LaunchStep::Spawn(i)
    } else {
        step_at(plan, i + 1)
    }
}

/// After starting attempt `i`: done when it started, else move on to the
/// next attempt.
pub fn after_spawn(plan: &LaunchPlan, i: usize, started: bool) -> (r: LaunchStep)
    requires
        i < plan.attempts.len(),
    ensures
        started ==> r == LaunchStep::Done(Ok(())),
        !started ==> same_step(r, step_at_spec(*plan, i + 1)),
{
    if started {
        LaunchStep::Done(Ok(()))
    } else {
        step_at(plan, i + 1)
    }
}

/// The launch ends in success only right after an attempt started its
/// browser: wherever the plan stands before that, success is not among the
/// next steps, and once every attempt was tried it ends in the failure.
pub proof fn lemma_success_only_after_start(plan: LaunchPlan, i: int)
    requires
        0 <= i,
    ensures
        !(step_at_spec(plan, i) matches LaunchStep::Done(Ok(()))),
        i >= plan.attempts@.len() ==> step_at_spec(plan, i) == LaunchStep::Done(
            Err::<(), String>(plan.failure),
        ),
{
}

} // verus!
