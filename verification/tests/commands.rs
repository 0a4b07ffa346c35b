use clash_verge::commands::{
    after_exists_check, after_spawn, browser_launch_plan, browser_profile_dir,
    browser_profile_dir_name, clear_prepare_for_update, core_dir, exit_for_update,
    get_portable_flag, launch_start, mixed_port, open_devtools, prepare_for_update,
    proxy_server_arg, user_data_dir_arg, DevtoolsAction, LaunchStep, TargetOs,
    UpdateChore, UpdateFlags, BROWSER_START_URL,
};
use clash_verge::path::PathStyle;

#[test]
fn portable_flag_defaults_off() {
    assert!(!get_portable_flag(None));
    assert!(get_portable_flag(Some(true)));
    assert!(!get_portable_flag(Some(false)));
}

#[test]
fn core_dir_is_the_executables_folder() {
    assert_eq!(
        core_dir("/opt/clash/verge-mihomo", PathStyle::Unix),
        Ok("/opt/clash".to_string())
    );
    assert_eq!(core_dir("/", PathStyle::Unix), Err("failed to get core dir".to_string()));
    assert_eq!(
        core_dir(r"C:\Program Files\Clash Verge\clash-verge.exe", PathStyle::Windows),
        Ok(r"C:\Program Files\Clash Verge".to_string())
    );
}

#[test]
fn devtools_toggle() {
    assert_eq!(open_devtools(Some(false)), Some(DevtoolsAction::Open));
    assert_eq!(open_devtools(Some(true)), Some(DevtoolsAction::Close));
    assert_eq!(open_devtools(None), None);
}

#[test]
fn clearing_undoes_preparing() {
    let mut flags = UpdateFlags { updating: false, exiting: false };
    assert!(!exit_for_update(&flags));
    let chores = prepare_for_update(&mut flags);
    assert_eq!(chores, vec![UpdateChore::ShutdownEmbeddedServer, UpdateChore::StopCore]);
    assert!(exit_for_update(&flags));
    assert!(flags.exiting);
    clear_prepare_for_update(&mut flags);
    assert!(!exit_for_update(&flags));
    assert_eq!(flags, UpdateFlags { updating: false, exiting: false });
}

#[test]
fn mixed_port_prefers_app_setting() {
    assert_eq!(mixed_port(Some(7899), 7897), 7899);
    assert_eq!(mixed_port(None, 7897), 7897);
}

#[test]
fn proxy_and_profile_arguments() {
    assert_eq!(proxy_server_arg(7897), "--proxy-server=http://127.0.0.1:7897");
    assert_eq!(proxy_server_arg(0), "--proxy-server=http://127.0.0.1:0");
    assert_eq!(proxy_server_arg(65535), "--proxy-server=http://127.0.0.1:65535");
    assert_eq!(proxy_server_arg(10), "--proxy-server=http://127.0.0.1:10");
    assert_eq!(browser_profile_dir_name(TargetOs::Windows), "clash-verge-edge");
    assert_eq!(browser_profile_dir_name(TargetOs::MacOs), "clash-verge-chrome");
    assert_eq!(
        browser_profile_dir("/home/u/.local/share/app", TargetOs::Other, PathStyle::Unix),
        "/home/u/.local/share/app/clash-verge-chrome"
    );
    assert_eq!(
        browser_profile_dir(r"C:\Users\u\AppData\app", TargetOs::Windows, PathStyle::Windows),
        r"C:\Users\u\AppData\app\clash-verge-edge"
    );
    assert_eq!(user_data_dir_arg("/p"), "--user-data-dir=/p");
}

#[test]
fn windows_launch_plan() {
    let plan = browser_launch_plan(
        TargetOs::Windows,
        "--user-data-dir=D",
        "--proxy-server=P",
        Some(r"C:\Users\u\AppData\Local".to_string()),
    );
    let programs: Vec<&str> = plan.attempts.iter().map(|a| a.program.as_str()).collect();
    assert_eq!(
        programs,
        vec![
            r"C:\Program Files (x86)\Microsoft\Edge\Application\msedge.exe",
            r"C:\Program Files\Microsoft\Edge\Application\msedge.exe",
            r"C:\Users\u\AppData\Local\Microsoft\Edge\Application\msedge.exe",
            "cmd",
        ]
    );
    assert_eq!(
        plan.attempts[0].args,
        vec!["--new-window", "--user-data-dir=D", "--proxy-server=P", BROWSER_START_URL]
    );
    assert_eq!(
        plan.attempts[3].args,
        vec![
            "/c",
            "start",
            "",
            "msedge",
            "--new-window",
            "--user-data-dir=D",
            "--proxy-server=P",
            "https://www.google.com"
        ]
    );
    assert!(plan.attempts[0].needs_existing_program);
    assert!(!plan.attempts[3].needs_existing_program);
    assert_eq!(plan.failure, "Could not start browser (tried Edge). Install Microsoft Edge.");
    let without_local = browser_launch_plan(TargetOs::Windows, "u", "p", Some(String::new()));
    assert_eq!(without_local.attempts.len(), 3);
}

#[test]
fn other_launch_plans() {
    let mac = browser_launch_plan(TargetOs::MacOs, "u", "p", None);
    assert_eq!(mac.attempts.len(), 1);
    assert_eq!(mac.attempts[0].program, "open");
    assert_eq!(
        mac.attempts[0].args,
        vec!["-n", "-a", "Google Chrome", "--args", "--new-window", "u", "p", BROWSER_START_URL]
    );
    assert_eq!(mac.failure, "Could not start browser (tried Google Chrome). Install Google Chrome.");
    let linux = browser_launch_plan(TargetOs::Other, "u", "p", Some("ignored".to_string()));
    let programs: Vec<&str> = linux.attempts.iter().map(|a| a.program.as_str()).collect();
    assert_eq!(programs, vec!["google-chrome", "google-chrome-stable", "chromium-browser", "chromium"]);
    assert_eq!(
        linux.failure,
        "Could not start browser (tried Chrome and Chromium). Install Google Chrome or Chromium."
    );
}

#[test]
fn launch_stops_at_first_started_browser() {
    let plan = browser_launch_plan(TargetOs::Windows, "u", "p", None);
    let mut step = launch_start(&plan);
    assert!(matches!(step, LaunchStep::CheckExists(0)));
    step = after_exists_check(&plan, 0, false);
    assert!(matches!(step, LaunchStep::CheckExists(1)));
    step = after_exists_check(&plan, 1, true);
    assert!(matches!(step, LaunchStep::Spawn(1)));
    step = after_spawn(&plan, 1, false);
    assert!(matches!(step, LaunchStep::Spawn(2)));
    step = after_spawn(&plan, 2, true);
    assert!(matches!(step, LaunchStep::Done(Ok(()))));
    match after_spawn(&plan, 2, false) {
        LaunchStep::Done(Err(m)) => {
            assert_eq!(m, "Could not start browser (tried Edge). Install Microsoft Edge.")
        }
        _ => panic!("expected the failure"),
    }
    // Without a browser that starts with the proxy, the launch fails.
    let linux = browser_launch_plan(TargetOs::Other, "u", "p", None);
    let mut step = launch_start(&linux);
    for i in 0..4 {
        assert!(matches!(step, LaunchStep::Spawn(j) if j == i));
        step = after_spawn(&linux, i, false);
    }
    match step {
        LaunchStep::Done(Err(m)) => assert_eq!(
            m,
            "Could not start browser (tried Chrome and Chromium). Install Google Chrome or Chromium."
        ),
        _ => panic!("expected the failure"),
    }
    let mac = browser_launch_plan(TargetOs::MacOs, "u", "p", None);
    assert!(matches!(after_spawn(&mac, 0, false), LaunchStep::Done(Err(_))));
    assert!(matches!(after_spawn(&mac, 0, true), LaunchStep::Done(Ok(()))));
}
