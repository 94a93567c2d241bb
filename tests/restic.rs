use restic_interfacer::restic::{
    check_string_is_hex, decimal_string, failure_from_stderr, find_summary, BackupLine, SummaryScan, B2Config, ForgetRate, Invocation,
    ResticConfig, ResticError, ResticStorageConfig,
};
use restic_interfacer::target::BackupTarget;

fn local() -> ResticConfig {
    ResticConfig::new("1234".to_string(), ResticStorageConfig::Local("./repo".to_string()))
}

fn args(inv: &Invocation) -> Vec<&str> {
    inv.args.iter().map(|s| s.as_str()).collect()
}

#[test]
fn it_works() {
    assert_eq!(2 + 2, 4);
}

#[test]
fn base_invocation_carries_password_and_repo() {
    let inv = local().prune();
    assert_eq!(args(&inv), vec!["-r", "./repo", "prune"]);
    assert_eq!(inv.env, vec![("RESTIC_PASSWORD".to_string(), "1234".to_string())]);
}

#[test]
fn b2_locator_and_environment() {
    let b2 = ResticStorageConfig::B2(B2Config {
        bucket_name: "bucket".to_string(),
        repo_path: "backups".to_string(),
        account_key: "key".to_string(),
        account_id: "id".to_string(),
    });
    assert_eq!(b2.create_path_string(), "b2:bucket:backups");
    let inv = ResticConfig::new("pw".to_string(), b2).check_restic_repo();
    assert_eq!(args(&inv), vec!["-r", "b2:bucket:backups", "check"]);
    assert_eq!(inv.env.len(), 3);
    assert_eq!(inv.env[1], ("B2_ACCOUNT_KEY".to_string(), "key".to_string()));
    assert_eq!(inv.env[2], ("B2_ACCOUNT_ID".to_string(), "id".to_string()));
}

#[test]
fn init_and_snapshots() {
    assert_eq!(args(&local().create_restic_repo()), vec!["-r", "./repo", "init"]);
    assert_eq!(args(&local().get_restic_snapshots()), vec!["-r", "./repo", "--json", "snapshots"]);
}

#[test]
fn forget_lists_only_nonzero_counts() {
    let rate = ForgetRate {
        keep_daily: 7,
        keep_yearly: 12,
        keep_tags: vec!["important".to_string()],
        keep_within: Some(48),
        ..ForgetRate::default()
    };
    let inv = local().forget(&rate);
    assert_eq!(
        args(&inv),
        vec![
            "-r", "./repo", "forget", "--keep-daily", "7", "--keep-yearly", "12", "--keep-within",
            "48h", "--keep-tag", "important"
        ]
    );
    assert_eq!(args(&local().forget(&ForgetRate::default())), vec!["-r", "./repo", "forget"]);
}

#[test]
fn backup_lists_tags_folders_and_exclusions() {
    let t = BackupTarget::new_from_string(
        vec![Some("/data".to_string()), Some("/home".to_string())],
        vec!["cache".to_string(), "/data/tmp/".to_string()],
        vec!["AA".to_string()],
    )
    .unwrap();
    let inv = local().restic_backup(&t);
    assert_eq!(
        args(&inv),
        vec![
            "-r", "./repo", "--json", "backup", "--tag", "AA", "/data", "/home", "--exclude",
            "**/cache", "--exclude", "/data/tmp"
        ]
    );
}

#[test]
fn ls_checks_the_id() {
    let inv = local().restic_ls(" 0d9613ea\n").unwrap();
    assert_eq!(args(&inv), vec!["-r", "./repo", "--json", "ls", " 0d9613ea\n"]);
    assert!(matches!(local().restic_ls("0D96"), Err(ResticError::InvalidId)));
    assert!(matches!(local().restic_ls("xyz"), Err(ResticError::InvalidId)));
}

#[test]
fn hex_check() {
    assert!(check_string_is_hex("0123456789abcdef"));
    assert!(check_string_is_hex(""));
    assert!(!check_string_is_hex("abcg"));
    assert!(!check_string_is_hex("ABC"));
}

#[test]
fn decimal_rendering() {
    assert_eq!(decimal_string(0), "0");
    assert_eq!(decimal_string(7), "7");
    assert_eq!(decimal_string(1234567890), "1234567890");
    assert_eq!(decimal_string(u64::MAX), u64::MAX.to_string());
}

#[test]
fn stderr_failures() {
    assert!(matches!(
        failure_from_stderr("Fatal: wrong password or no key found"),
        ResticError::ResticRepoInvalidPassword
    ));
    match failure_from_stderr("Fatal: unable to open config file") {
        ResticError::Failed(m) => assert_eq!(m, "Fatal: unable to open config file"),
        other => panic!("unexpected {:?}", other),
    }
    assert!(matches!(failure_from_stderr("wrong passwor"), ResticError::Failed(_)));
}

#[test]
fn summary_is_found_from_the_end() {
    let (st, su, un) = (BackupLine::Status, BackupLine::Summary, BackupLine::Unreadable);
    assert_eq!(find_summary(&vec![st, su, st, st]), SummaryScan::Found(1));
    assert_eq!(find_summary(&vec![su, un, st]), SummaryScan::Unreadable(1));
    assert_eq!(find_summary(&vec![st, st]), SummaryScan::Missing);
    assert_eq!(find_summary(&vec![]), SummaryScan::Missing);
}

#[test]
fn ls_trims_unicode_white_space() {
    assert!(local().restic_ls("\u{3000}abc\u{a0}").is_ok());
    assert!(local().restic_ls("a bc").is_err());
}
