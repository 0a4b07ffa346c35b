use clash_verge::legacy_app::{
    after_binary_check, after_bundle_id_read, after_plist_check, after_trash, app_bundle_path,
    bundle_binary, bundle_check_start, bundle_id_matches, bundle_plist, is_current_bundle,
    is_running_bundle,
    legacy_bundle_candidates, osascript_args, plan_bundle_cleanup, plutil_args,
    should_trash_bundle, trash_failure_message, trash_script, BundleCheck, BundleCleanup, BundleError, CommandOutput,
};
use std::path::Path;

#[test]
fn app_bundle_path_finds_parent_app() {
    let exe = "/Applications/Clash Verge.app/Contents/MacOS/clash-verge";
    let bundle = app_bundle_path(exe).expect("bundle");
    assert_eq!(Path::new(&bundle), Path::new("/Applications/Clash Verge.app"));
}

#[test]
fn app_bundle_path_returns_none_outside_app() {
    assert!(app_bundle_path("/usr/bin/clash-verge").is_none());
}

#[test]
fn app_bundle_path_takes_nearest_bundle() {
    assert_eq!(
        app_bundle_path("/A.app/Contents/Helpers/B.app/Contents/MacOS/b"),
        Some("/A.app/Contents/Helpers/B.app".to_string())
    );
    assert_eq!(app_bundle_path("/Applications/.app/x"), None);
    assert_eq!(app_bundle_path("rel.app/bin"), Some("rel.app".to_string()));
}

#[test]
fn bundle_names() {
    assert!(is_current_bundle("/Applications/Clash Verge.app"));
    assert!(!is_current_bundle("/Applications/Clash Verge for v2free.app"));
}

#[test]
fn legacy_candidates_with_and_without_home() {
    assert_eq!(
        legacy_bundle_candidates(Some("/Users/me".to_string())),
        vec![
            "/Applications/Clash Verge for v2free.app".to_string(),
            "/Users/me/Applications/Clash Verge for v2free.app".to_string()
        ]
    );
    assert_eq!(
        legacy_bundle_candidates(None),
        vec!["/Applications/Clash Verge for v2free.app".to_string()]
    );
    for c in legacy_bundle_candidates(Some("/Users/me/".to_string())) {
        assert!(matches!(bundle_check_start(&c), BundleCheck::CheckBinary(_)));
    }
}

#[test]
fn bundle_check_walks_through_probes() {
    let bundle = "/Applications/Clash Verge for v2free.app";
    match bundle_check_start(bundle) {
        BundleCheck::CheckBinary(p) => assert_eq!(
            p,
            "/Applications/Clash Verge for v2free.app/Contents/MacOS/clash-verge"
        ),
        _ => panic!("expected the binary check"),
    }
    assert!(matches!(
        bundle_check_start("/Applications/Other.app"),
        BundleCheck::Verdict(false)
    ));
    assert!(matches!(after_binary_check(bundle, false), BundleCheck::Verdict(false)));
    match after_binary_check(bundle, true) {
        BundleCheck::CheckPlist(p) => {
            assert_eq!(p, "/Applications/Clash Verge for v2free.app/Contents/Info.plist")
        }
        _ => panic!("expected the plist check"),
    }
    assert!(matches!(after_plist_check(bundle, false), BundleCheck::Verdict(false)));
    match after_plist_check(bundle, true) {
        BundleCheck::ReadBundleId { args } => assert_eq!(
            args,
            vec![
                "-extract",
                "CFBundleIdentifier",
                "raw",
                "-o",
                "-",
                "/Applications/Clash Verge for v2free.app/Contents/Info.plist"
            ]
        ),
        _ => panic!("expected the identifier read"),
    }
    assert_eq!(bundle_binary("/X.app"), "/X.app/Contents/MacOS/clash-verge");
    assert_eq!(bundle_plist("/X.app/"), "/X.app/Contents/Info.plist");
    assert_eq!(plutil_args("p").len(), 6);
}

#[test]
fn bundle_identifier_verdict() {
    let id = "io.github.clash-verge-rev.clash-verge-rev";
    let out = |success: bool, stdout: &str| {
        Some(CommandOutput { success, stdout: stdout.as_bytes().to_vec(), stderr: Vec::new() })
    };
    assert_eq!(after_bundle_id_read(out(true, " io.github.clash-verge-rev.clash-verge-rev\n"), id), Ok(true));
    assert_eq!(after_bundle_id_read(out(true, "com.other"), id), Ok(false));
    assert_eq!(after_bundle_id_read(out(false, id), id), Ok(false));
    assert_eq!(after_bundle_id_read(None, id), Err("read CFBundleIdentifier".to_string()));
}

#[test]
fn cleanup_plan_follows_running_bundle() {
    match plan_bundle_cleanup("/Applications/Clash Verge.app/Contents/MacOS/clash-verge") {
        Ok(BundleCleanup::RemoveLegacyBundles { current_bundle }) => {
            assert_eq!(current_bundle, "/Applications/Clash Verge.app")
        }
        _ => panic!("expected a removal"),
    }
    assert!(matches!(
        plan_bundle_cleanup("/Applications/Clash Verge for v2free.app/Contents/MacOS/clash-verge"),
        Ok(BundleCleanup::LeaveAlone)
    ));
    match plan_bundle_cleanup("/usr/local/bin/clash-verge") {
        Err(e) => {
            assert_eq!(e, BundleError::NoAppBundle);
            assert_eq!(e.message(), "resolve current .app bundle");
        }
        _ => panic!("expected an error"),
    }
}

#[test]
fn trash_decisions() {
    assert!(should_trash_bundle(true, true, false));
    assert!(!should_trash_bundle(false, true, false));
    assert!(!should_trash_bundle(true, false, false));
    assert!(!should_trash_bundle(true, true, true));
    assert!(is_running_bundle("/A/b.app", None, "/A//b.app/", None));
    assert!(is_running_bundle("/x", Some("/A/b.app".to_string()), "/A/b.app", None));
    assert!(!is_running_bundle("/A/b.app", None, "/A/c.app", None));
}

#[test]
fn trash_script_escapes_quotes() {
    assert_eq!(
        trash_script("/Applications/Clash Verge for v2free.app"),
        "tell application \"Finder\" to delete POSIX file \"/Applications/Clash Verge for v2free.app\""
    );
    assert_eq!(
        trash_script("/tmp/a\"b"),
        "tell application \"Finder\" to delete POSIX file \"/tmp/a\\\"b\""
    );
    assert_eq!(osascript_args("s"), vec!["-e", "s"]);
}

#[test]
fn trash_outcomes() {
    assert_eq!(after_trash(None), Err("osascript trash".to_string()));
    assert_eq!(
        after_trash(Some(CommandOutput { success: true, stdout: Vec::new(), stderr: Vec::new() })),
        Ok(())
    );
    assert_eq!(
        after_trash(Some(CommandOutput {
            success: false,
            stdout: Vec::new(),
            stderr: b"no access".to_vec()
        })),
        Err("Finder trash failed: no access".to_string())
    );
}

#[test]
fn decoded_output_is_read() {
    assert!(bundle_id_matches("\tcom.example.app\r\n", "com.example.app"));
    assert!(!bundle_id_matches("com.example.app2", "com.example.app"));
    assert_eq!(trash_failure_message("denied"), "Finder trash failed: denied");
    assert_eq!(
        after_trash(Some(CommandOutput { success: false, stdout: Vec::new(), stderr: vec![b'x', 0xFF] })),
        Err("Finder trash failed: x\u{FFFD}".to_string())
    );
    assert_eq!(
        after_bundle_id_read(
            Some(CommandOutput { success: true, stdout: vec![b'a', 0xFF], stderr: Vec::new() }),
            "a\u{FFFD}"
        ),
        Ok(true)
    );
}
