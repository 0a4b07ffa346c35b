use clash_verge::legacy_app::{
    after_bundle_dir_check, after_bundle_trashed, after_legacy_verdict, after_running_check,
    bundle_sweep_start, BundleSweepStep,
};
use clash_verge::legacy_install::{
    after_executable_check, after_registry_cleanup, after_relaunch, after_relaunch_current_check,
    after_sweep_binary_check, after_sweep_current_check, after_sweep_dir_check,
    after_sweep_removal, legacy_sweep_start, relaunch_start, LegacySweepStep, RelaunchStep,
};

fn owned(items: &[&str]) -> Vec<String> {
    items.iter().map(|s| s.to_string()).collect()
}

#[test]
fn legacy_sweep_walks_each_candidate() {
    let c = owned(&[
        r"C:\Program Files\Clash Verge for v2free",
        r"D:\Apps\Clash Verge for v2free",
    ]);
    assert!(matches!(legacy_sweep_start(&c), LegacySweepStep::CheckIsDir(0)));
    assert!(matches!(after_sweep_dir_check(&c, 0, false), LegacySweepStep::CheckIsDir(1)));
    assert!(matches!(after_sweep_dir_check(&c, 1, true), LegacySweepStep::CheckIsCurrent(1)));
    assert!(matches!(
        after_sweep_dir_check(&c, 1, false),
        LegacySweepStep::Finished(Ok(()))
    ));
    assert!(matches!(legacy_sweep_start(&Vec::new()), LegacySweepStep::Finished(Ok(()))));
}

#[test]
fn legacy_sweep_skips_the_running_folder() {
    let c = owned(&[r"C:\Program Files\Clash Verge for v2free"]);
    let running = after_sweep_current_check(
        &c,
        0,
        None,
        r"c:\program files\Clash Verge for v2free",
        Some(r"C:\Program Files\Clash Verge for v2free".to_string()),
    );
    assert!(matches!(running, LegacySweepStep::Finished(Ok(()))));
    let other = after_sweep_current_check(&c, 0, None, r"C:\Program Files\Clash Verge", None);
    match other {
        LegacySweepStep::CheckMainBinary { index, binary } => {
            assert_eq!(index, 0);
            assert_eq!(binary, r"C:\Program Files\Clash Verge for v2free\clash-verge.exe");
        }
        _ => panic!("expected the executable check"),
    }
}

#[test]
fn legacy_sweep_removes_then_cleans_registry() {
    let c = owned(&[r"C:\A\Clash Verge for v2free", r"C:\B\Clash Verge for v2free"]);
    assert!(matches!(after_sweep_binary_check(&c, 0, true), LegacySweepStep::RemoveTree(0)));
    assert!(matches!(after_sweep_binary_check(&c, 0, false), LegacySweepStep::CheckIsDir(1)));
    assert!(matches!(after_sweep_removal(0, Ok(())), LegacySweepStep::CleanupRegistry(0)));
    match after_sweep_removal(0, Err("denied".to_string())) {
        LegacySweepStep::Finished(Err(e)) => assert_eq!(e, "denied"),
        _ => panic!("expected the error"),
    }
    assert!(matches!(after_registry_cleanup(&c, 0), LegacySweepStep::CheckIsDir(1)));
    assert!(matches!(after_registry_cleanup(&c, 1), LegacySweepStep::Finished(Ok(()))));
}

#[test]
fn relaunch_search_steps() {
    let c = owned(&[r"C:\Program Files\Clash Verge", r"D:\Clash Verge"]);
    match relaunch_start(&c) {
        RelaunchStep::CheckExecutable { index, exe } => {
            assert_eq!(index, 0);
            assert_eq!(exe, r"C:\Program Files\Clash Verge\clash-verge.exe");
        }
        _ => panic!("expected the executable check"),
    }
    match after_executable_check(&c, 0, false) {
        RelaunchStep::CheckExecutable { index, exe } => {
            assert_eq!(index, 1);
            assert_eq!(exe, r"D:\Clash Verge\clash-verge.exe");
        }
        _ => panic!("expected the next candidate"),
    }
    assert!(matches!(after_executable_check(&c, 1, false), RelaunchStep::Finished(Ok(()))));
    match after_executable_check(&c, 1, true) {
        RelaunchStep::CheckIsCurrent { index, exe } => {
            assert_eq!(index, 1);
            assert_eq!(exe, r"D:\Clash Verge\clash-verge.exe");
        }
        _ => panic!("expected the comparison"),
    }
    let same = after_relaunch_current_check(&c, 1, None, r"d:\Clash Verge\\clash-verge.exe", None);
    assert!(matches!(same, RelaunchStep::Finished(Ok(()))));
    match after_relaunch_current_check(&c, 0, None, r"D:\Clash Verge for v2free\clash-verge.exe", None)
    {
        RelaunchStep::Relaunch { exe } => {
            assert_eq!(exe, r"C:\Program Files\Clash Verge\clash-verge.exe")
        }
        _ => panic!("expected the relaunch"),
    }
    assert!(matches!(after_relaunch(true), RelaunchStep::Exit));
    match after_relaunch(false) {
        RelaunchStep::Finished(Err(e)) => assert_eq!(e, "relaunch unified"),
        _ => panic!("expected the error"),
    }
}

#[test]
fn bundle_sweep_steps() {
    let c = owned(&["/Applications/Clash Verge.app", "/Users/me/Applications/Clash Verge.app"]);
    assert!(matches!(bundle_sweep_start(&c), BundleSweepStep::CheckIsDir(0)));
    assert!(matches!(after_bundle_dir_check(&c, 0, true), BundleSweepStep::CheckIsLegacy(0)));
    assert!(matches!(after_bundle_dir_check(&c, 0, false), BundleSweepStep::CheckIsDir(1)));
    assert!(matches!(after_legacy_verdict(&c, 0, Ok(true)), BundleSweepStep::CheckIsRunning(0)));
    assert!(matches!(after_legacy_verdict(&c, 1, Ok(false)), BundleSweepStep::Finished(Ok(()))));
    match after_legacy_verdict(&c, 0, Err("plutil failed".to_string())) {
        BundleSweepStep::Finished(Err(e)) => assert_eq!(e, "plutil failed"),
        _ => panic!("expected the error"),
    }
    let running = after_running_check(
        &c,
        0,
        Some("/Applications/Clash Verge.app".to_string()),
        "/Applications/./Clash Verge.app",
        None,
    );
    assert!(matches!(running, BundleSweepStep::CheckIsDir(1)));
    let other = after_running_check(&c, 0, None, "/Applications/Clash Verge Rev.app", None);
    assert!(matches!(other, BundleSweepStep::Trash(0)));
    assert!(matches!(after_bundle_trashed(&c, 0, Ok(())), BundleSweepStep::CheckIsDir(1)));
    match after_bundle_trashed(&c, 1, Err("no Finder".to_string())) {
        BundleSweepStep::Finished(Err(e)) => assert_eq!(e, "no Finder"),
        _ => panic!("expected the error"),
    }
}
