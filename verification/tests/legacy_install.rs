use clash_verge::path::{parent, PathStyle};
use clash_verge::legacy_install::{
    after_elevated_rmdir, after_privilege_check, after_remove_dir_all, after_rmdir,
    cleanup_legacy_registry, install_dir, is_legacy_install_dir, is_unified_install_dir,
    legacy_install_candidates, main_binary_path, paths_equal, plan_install_cleanup,
    program_files_dirs, remove_legacy_tree_start, rmdir_args, should_relaunch_from,
    should_remove_legacy, try_rmdir, unified_install_candidates, CleanupError, CommandOutcome,
    InstallCleanup, PrivilegeCheck, RegistryHive, TreeRemovalStep,
};

#[test]
fn unified_install_dir_matches_product_folder() {
    let dir = r"C:\Program Files\Clash Verge";
    assert!(is_unified_install_dir(dir));
}

#[test]
fn legacy_install_dir_is_detected() {
    let dir = r"C:\Program Files\Clash Verge for v2free";
    assert!(is_legacy_install_dir(dir));
}

#[test]
fn install_dir_kinds_never_overlap() {
    for dir in [
        r"C:\Program Files\Clash Verge",
        r"C:\Program Files\Clash Verge for v2free",
        r"C:\Program Files\Other",
    ] {
        assert!(!(is_unified_install_dir(dir) && is_legacy_install_dir(dir)));
    }
    assert!(!is_unified_install_dir(r"C:\Program Files\Clash Verge for v2free"));
    assert!(!is_legacy_install_dir(r"C:\Program Files\Clash Verge"));
    assert!(!is_unified_install_dir(r"C:\"));
}

#[test]
fn install_dir_trailing_separator_still_named() {
    assert!(is_unified_install_dir(r"C:\Program Files\Clash Verge\"));
    assert!(is_legacy_install_dir("C:/Program Files/Clash Verge for v2free"));
}

#[test]
fn install_dir_is_the_executables_folder() {
    assert_eq!(
        install_dir(r"C:\Program Files\Clash Verge\clash-verge.exe"),
        Some(r"C:\Program Files\Clash Verge".to_string())
    );
    assert_eq!(install_dir(r"C:\"), None);
    assert_eq!(install_dir("clash-verge.exe"), Some(String::new()));
}

#[test]
fn program_files_dirs_sorted_and_deduplicated() {
    assert_eq!(
        program_files_dirs(
            Some(r"C:\Program Files (x86)".to_string()),
            Some(r"C:\Program Files".to_string())
        ),
        vec![r"C:\Program Files".to_string(), r"C:\Program Files (x86)".to_string()]
    );
    assert_eq!(
        program_files_dirs(Some(r"D:\Apps".to_string()), Some("d:/Apps/".to_string())),
        vec![r"D:\Apps".to_string()]
    );
    assert_eq!(program_files_dirs(None, Some(r"E:\PF".to_string())), vec![r"E:\PF".to_string()]);
}

#[test]
fn program_files_dirs_defaults_when_unset() {
    assert_eq!(
        program_files_dirs(None, None),
        vec![r"C:\Program Files".to_string(), r"C:\Program Files (x86)".to_string()]
    );
}

#[test]
fn program_files_dirs_orders_by_components() {
    // "a b" sorts after "a" as a component, though ' ' sorts before '\'.
    assert_eq!(
        program_files_dirs(Some(r"C:\a b".to_string()), Some(r"C:\a\b".to_string())),
        vec![r"C:\a\b".to_string(), r"C:\a b".to_string()]
    );
}

#[test]
fn candidates_are_recognised_by_detectors() {
    let legacy = legacy_install_candidates(None, None);
    assert_eq!(
        legacy,
        vec![
            r"C:\Program Files\Clash Verge for v2free".to_string(),
            r"C:\Program Files (x86)\Clash Verge for v2free".to_string()
        ]
    );
    for c in &legacy {
        assert!(is_legacy_install_dir(c));
    }
    let unified = unified_install_candidates(Some(r"D:\Apps\".to_string()), None);
    assert_eq!(unified, vec![r"D:\Apps\Clash Verge".to_string()]);
    for c in &unified {
        assert!(is_unified_install_dir(c));
    }
}

#[test]
fn main_binary_inside_folder() {
    assert_eq!(
        main_binary_path(r"C:\Program Files\Clash Verge"),
        r"C:\Program Files\Clash Verge\clash-verge.exe"
    );
    assert_eq!(main_binary_path("C:"), "C:clash-verge.exe");
}

#[test]
fn paths_equal_prefers_canonical_forms() {
    assert!(paths_equal(r"C:\A\B", None, "c:/A/B/", None));
    assert!(!paths_equal(r"C:\A\B", None, r"C:\A\b", None));
    assert!(paths_equal(r"C:\link", Some(r"C:\real".to_string()), r"C:\real", None));
    assert!(!paths_equal(r"C:\A", Some(r"C:\X".to_string()), r"C:\A", None));
}

#[test]
fn removal_and_relaunch_decisions() {
    assert!(should_remove_legacy(true, false, true));
    assert!(!should_remove_legacy(false, false, true));
    assert!(!should_remove_legacy(true, true, true));
    assert!(!should_remove_legacy(true, false, false));
    assert!(should_relaunch_from(true, false));
    assert!(!should_relaunch_from(false, false));
    assert!(!should_relaunch_from(true, true));
}

#[test]
fn cleanup_plan_follows_install_folder() {
    match plan_install_cleanup(r"C:\Program Files\Clash Verge for v2free\clash-verge.exe") {
        Ok(InstallCleanup::RelaunchFromUnified) => {}
        _ => panic!("expected a relaunch"),
    }
    match plan_install_cleanup(r"C:\Program Files\Clash Verge\clash-verge.exe") {
        Ok(InstallCleanup::RemoveLegacyCopies { current_dir }) => {
            assert_eq!(current_dir, r"C:\Program Files\Clash Verge")
        }
        _ => panic!("expected a removal"),
    }
    match plan_install_cleanup(r"C:\Tools\clash-verge.exe") {
        Ok(InstallCleanup::LeaveAlone) => {}
        _ => panic!("expected nothing to do"),
    }
    match plan_install_cleanup(r"C:\") {
        Err(e) => {
            assert_eq!(e, CleanupError::NoInstallDir);
            assert_eq!(e.message(), "resolve install dir");
        }
        _ => panic!("expected an error"),
    }
}

#[test]
fn rmdir_outcomes() {
    assert_eq!(try_rmdir(CommandOutcome::Exited { success: true }), Ok(true));
    assert_eq!(try_rmdir(CommandOutcome::Exited { success: false }), Ok(false));
    assert_eq!(try_rmdir(CommandOutcome::PermissionDenied), Ok(false));
    assert_eq!(
        try_rmdir(CommandOutcome::Failed("not found".to_string())),
        Err("not found".to_string())
    );
    assert_eq!(
        rmdir_args(r"C:\Old"),
        vec!["/C", "rmdir", "/S", "/Q", r"C:\Old"]
    );
}

#[test]
fn tree_removal_steps() {
    match remove_legacy_tree_start(r"C:\Old") {
        TreeRemovalStep::RunRmdir { args } => assert_eq!(args.len(), 5),
        _ => panic!("expected rmdir"),
    }
    assert!(matches!(
        after_rmdir(CommandOutcome::Exited { success: true }, true),
        TreeRemovalStep::Finished(Ok(()))
    ));
    assert!(matches!(
        after_rmdir(CommandOutcome::Exited { success: false }, true),
        TreeRemovalStep::CheckPrivilege
    ));
    assert!(matches!(
        after_rmdir(CommandOutcome::PermissionDenied, false),
        TreeRemovalStep::RemoveDirAll
    ));
    match after_rmdir(CommandOutcome::Failed("boom".to_string()), true) {
        TreeRemovalStep::Finished(Err(e)) => assert_eq!(e, "boom"),
        _ => panic!("expected the error"),
    }
    match after_privilege_check(PrivilegeCheck::NotPrivileged, r"C:\Old") {
        TreeRemovalStep::RunElevatedRmdir { args } => assert_eq!(args[4], r"C:\Old"),
        _ => panic!("expected an elevated rmdir"),
    }
    assert!(matches!(
        after_privilege_check(PrivilegeCheck::Privileged, r"C:\Old"),
        TreeRemovalStep::RemoveDirAll
    ));
    match after_privilege_check(PrivilegeCheck::TokenUnavailable, r"C:\Old") {
        TreeRemovalStep::Finished(Err(e)) => assert_eq!(e, "current process token"),
        _ => panic!("expected the token error"),
    }
    match after_privilege_check(PrivilegeCheck::LevelUnknown("denied".to_string()), r"C:\Old") {
        TreeRemovalStep::Finished(Err(e)) => assert_eq!(e, "denied"),
        _ => panic!("expected the level error"),
    }
    assert!(matches!(after_elevated_rmdir(Ok(true)), TreeRemovalStep::Finished(Ok(()))));
    assert!(matches!(after_elevated_rmdir(Ok(false)), TreeRemovalStep::RemoveDirAll));
    match after_elevated_rmdir(Err(())) {
        TreeRemovalStep::Finished(Err(e)) => assert_eq!(e, "elevated rmdir"),
        _ => panic!("expected the elevation error"),
    }
    assert!(matches!(after_remove_dir_all(Ok(())), TreeRemovalStep::Finished(Ok(()))));
    match after_remove_dir_all(Err(())) {
        TreeRemovalStep::Finished(Err(e)) => assert_eq!(e, "remove legacy install dir"),
        _ => panic!("expected the removal error"),
    }
}

#[test]
fn registry_keys_in_order() {
    let keys = cleanup_legacy_registry();
    assert_eq!(keys.len(), 4);
    assert_eq!(keys[0].hive, RegistryHive::CurrentUser);
    assert_eq!(
        keys[0].path,
        r"Software\Microsoft\Windows\CurrentVersion\Uninstall\Clash Verge for v2free"
    );
    assert_eq!(keys[1].hive, RegistryHive::CurrentUser);
    assert_eq!(keys[1].path, r"Software\v2free\Clash Verge for v2free");
    assert_eq!(keys[2].hive, RegistryHive::LocalMachine);
    assert_eq!(keys[3].hive, RegistryHive::LocalMachine);
    assert_eq!(keys[3].path, r"Software\v2free\Clash Verge for v2free");
}

#[test]
fn candidate_lists_pair_up_by_folder() {
    let pf = Some(r"E:\Programs".to_string());
    let pf86 = Some(r"C:\Program Files (x86)\".to_string());
    let unified = unified_install_candidates(pf.clone(), pf86.clone());
    let legacy = legacy_install_candidates(pf, pf86);
    assert_eq!(unified.len(), legacy.len());
    assert_eq!(unified.len(), 2);
    for (u, l) in unified.iter().zip(legacy.iter()) {
        assert_eq!(parent(u, PathStyle::Windows), parent(l, PathStyle::Windows));
        assert!(is_unified_install_dir(u) && !is_legacy_install_dir(u));
        assert!(is_legacy_install_dir(l) && !is_unified_install_dir(l));
    }
    assert_eq!(unified[0], r"C:\Program Files (x86)\Clash Verge");
    assert_eq!(legacy[1], r"E:\Programs\Clash Verge for v2free");
}

#[test]
fn share_install_folder_is_left_alone() {
    let exe = r"\\server\Clash Verge\clash-verge.exe";
    assert_eq!(install_dir(exe), Some(r"\\server\Clash Verge\".to_string()));
    assert!(!is_unified_install_dir(r"\\server\Clash Verge"));
    assert!(matches!(plan_install_cleanup(exe), Ok(InstallCleanup::LeaveAlone)));
    let shared = r"\\server\share\Clash Verge\clash-verge.exe";
    assert_eq!(install_dir(shared), Some(r"\\server\share\Clash Verge".to_string()));
    assert!(matches!(
        plan_install_cleanup(shared),
        Ok(InstallCleanup::RemoveLegacyCopies { .. })
    ));
    assert!(is_unified_install_dir(r"\\?\C:\Program Files\Clash Verge"));
}
