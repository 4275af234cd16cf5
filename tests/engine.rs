use bkp::backup::{name_of, Backup, BackupType};
use bkp::catalog::filter_by_app;
use bkp::config::{get_config_from_app_name, Config, GlobalConfig};
use bkp::engine::{
    do_full_backup, do_incremental_backup, full_backup, get_last_backup_time, incremental_backup,
    BackupError,
};
use bkp::listing::{list, remote_only_apps, sort_by_name};
use bkp::plan::{archive_of, hook_steps, join, Step};
use bkp::prune::{prune, prune_local_backups, prune_remote_backups};
use bkp::restore::{find_local_chain, find_remote_backup, restore, RestoreError, RestoreOutcome};
use bkp::selector::{
    filter_files_newer_than, get_files_to_backup, glob_patterns, relative_path, FileStamp,
};
use bkp::time::Timestamp;

const DAY: i64 = 86_400;
// 2024-01-02T03:04:05Z
const T: i64 = 1704164645;

fn ts(day: i64) -> Timestamp {
    Timestamp::new(T + day * DAY, 0)
}

fn local(app: &str, kind: BackupType, day: i64) -> Backup {
    let name = name_of(app, "srv", kind, ts(day));
    Backup {
        app_name: app.to_string(),
        server_name: "srv".to_string(),
        kind,
        timestamp: ts(day),
        storage_key: format!("/store/{}.tar.gz", name),
        display_name: name,
    }
}

fn remote(app: &str, kind: BackupType, day: i64) -> Backup {
    let mut b = local(app, kind, day);
    b.storage_key = b.display_name.clone();
    b
}

fn config(app: &str) -> Config {
    Config {
        app_name: app.to_string(),
        server_name: "srv".to_string(),
        app_root: "/data/app".to_string(),
        included_paths: vec!["/**/*".to_string()],
        excluded_paths: vec!["/cache/*".to_string()],
        pre_backup_script: "echo pre".to_string(),
        post_backup_script: String::new(),
        pre_restore_script: "stop".to_string(),
        post_restore_script: "start".to_string(),
        keep_full_local_backups: 2,
        keep_full_remote_backups: 1,
    }
}

fn global() -> GlobalConfig {
    GlobalConfig {
        config_files_location: "/etc/bkp".to_string(),
        local_storage_location: "/store".to_string(),
        remote_storage_address: "http://localhost:9000".to_string(),
        remote_storage_access_id: "id".to_string(),
        remote_storage_secret_key: "SECRET-REDACTED".to_string(),
        log_file_location: "/var/log/bkp.log".to_string(),
    }
}

fn steps_of(outcome: RestoreOutcome) -> Vec<Step> {
    match outcome {
        RestoreOutcome::Steps(steps) => steps,
        RestoreOutcome::RemoteCatalogNeeded => panic!("the local catalog should have decided"),
    }
}

fn unpacked(steps: &[Step]) -> Vec<String> {
    steps
        .iter()
        .filter_map(|s| match s {
            Step::Unpack { archive, .. } => Some(archive.clone()),
            _ => None,
        })
        .collect()
}

fn scripts(steps: &[Step]) -> Vec<String> {
    steps
        .iter()
        .filter_map(|s| match s {
            Step::RunScript { script } => Some(script.clone()),
            _ => None,
        })
        .collect()
}

#[test]
fn chain_is_rebuilt_oldest_first() {
    let t1 = local("wiki", BackupType::Full, 1);
    let t2 = local("wiki", BackupType::Incremental, 2);
    let t3 = local("wiki", BackupType::Incremental, 3);
    let catalog = vec![t3.clone(), t2.clone(), t1.clone()];
    let chain = find_local_chain(&catalog, "wiki", "srv", &t3.display_name).unwrap();
    let names: Vec<&str> = chain.iter().map(|b| b.display_name.as_str()).collect();
    assert_eq!(names, vec![t1.display_name.as_str(), t2.display_name.as_str(), t3.display_name.as_str()]);

    let steps = restore(&config("wiki"), &global(), &catalog, None, &t3.display_name).unwrap();
    let steps = steps_of(steps);
    assert_eq!(unpacked(&steps), vec![t1.storage_key.clone(), t2.storage_key.clone(), t3.storage_key.clone()]);
    assert!(matches!(&steps[0], Step::RunScript { script } if script == "stop"));
    assert!(matches!(&steps[4], Step::RunScript { script } if script == "start"));
    assert!(matches!(&steps[5], Step::PruneLocal));
    assert_eq!(steps.len(), 6);
}

#[test]
fn chain_stops_at_the_nearest_full_backup() {
    let catalog = vec![
        local("wiki", BackupType::Incremental, 5),
        local("other", BackupType::Full, 4),
        local("wiki", BackupType::Full, 3),
        local("wiki", BackupType::Incremental, 2),
        local("wiki", BackupType::Full, 1),
    ];
    let chain = find_local_chain(&catalog, "wiki", "srv", &catalog[0].display_name).unwrap();
    let names: Vec<&str> = chain.iter().map(|b| b.display_name.as_str()).collect();
    assert_eq!(names, vec![catalog[2].display_name.as_str(), catalog[0].display_name.as_str()]);
    let full = find_local_chain(&catalog, "wiki", "srv", &catalog[2].display_name).unwrap();
    assert_eq!(full.len(), 1);
}

#[test]
fn unknown_target_is_not_found() {
    let catalog = vec![local("wiki", BackupType::Full, 1)];
    let remote_catalog = vec![remote("wiki", BackupType::Full, 1)];
    assert_eq!(
        restore(&config("wiki"), &global(), &catalog, Some(&remote_catalog), "nonexistent_name").unwrap_err(),
        RestoreError::BackupNotFound
    );
    assert_eq!(
        find_local_chain(&catalog, "wiki", "srv", "nonexistent_name").unwrap_err(),
        RestoreError::BackupNotFound
    );
    assert_eq!(
        find_remote_backup(&remote_catalog, "nonexistent_name").unwrap_err(),
        RestoreError::BackupNotFound
    );
}

#[test]
fn only_incrementals_is_a_broken_chain() {
    let catalog = vec![
        local("wiki", BackupType::Incremental, 3),
        local("wiki", BackupType::Incremental, 2),
        local("other", BackupType::Full, 1),
    ];
    for b in catalog.iter().filter(|b| b.app_name == "wiki") {
        assert_eq!(
            restore(&config("wiki"), &global(), &catalog, None, &b.display_name).unwrap_err(),
            RestoreError::BrokenChain
        );
    }
}

#[test]
fn remote_only_backup_is_downloaded_then_restored_alone() {
    let r = remote("wiki", BackupType::Incremental, 7);
    let remote_catalog = vec![remote("wiki", BackupType::Full, 6), r.clone()];
    assert!(matches!(
        restore(&config("wiki"), &global(), &Vec::new(), None, &r.display_name),
        Ok(RestoreOutcome::RemoteCatalogNeeded)
    ));
    let steps = steps_of(restore(&config("wiki"), &global(), &Vec::new(), Some(&remote_catalog), &r.display_name).unwrap());
    let archive = format!("/store/{}.tar.gz", r.display_name);
    match &steps[0] {
        Step::Download { key, archive: a } => {
            assert_eq!(key, &r.display_name);
            assert_eq!(a, &archive);
        }
        other => panic!("unexpected first step {:?}", other),
    }
    assert_eq!(unpacked(&steps), vec![archive]);
    assert_eq!(scripts(&steps), vec!["stop".to_string(), "start".to_string()]);
}

#[test]
fn retention_keeps_the_newest_full_backups() {
    let t1 = local("wiki", BackupType::Full, 1);
    let t2 = local("wiki", BackupType::Full, 2);
    let t3 = local("wiki", BackupType::Full, 3);
    let catalog = vec![t3.clone(), t2.clone(), t1.clone()];
    let deleted = prune_local_backups(&config("wiki"), &catalog);
    let names: Vec<&str> = deleted.iter().map(|b| b.display_name.as_str()).collect();
    assert_eq!(names, vec![t1.display_name.as_str()]);
}

#[test]
fn retention_never_deletes_incrementals() {
    let mut catalog = Vec::new();
    for d in (0..20).rev() {
        catalog.push(local("wiki", BackupType::Incremental, d));
    }
    assert!(prune(&catalog, 0).is_empty());
    catalog.insert(5, local("wiki", BackupType::Full, 30));
    catalog.push(local("wiki", BackupType::Full, -1));
    let deleted = prune(&catalog, 1);
    assert_eq!(deleted.len(), 1);
    assert_eq!(deleted[0].timestamp, ts(-1));
    assert_eq!(prune(&catalog, 0).len(), 2);
    assert!(prune(&catalog, 5).is_empty());
}

#[test]
fn remote_retention_uses_its_own_threshold_and_app() {
    let catalog = vec![
        remote("wiki", BackupType::Full, 3),
        remote("other", BackupType::Full, 2),
        remote("wiki", BackupType::Full, 1),
    ];
    let deleted = prune_remote_backups(&config("wiki"), &catalog);
    assert_eq!(deleted.len(), 1);
    assert_eq!(deleted[0].display_name, catalog[2].display_name);
}

#[test]
fn second_incremental_without_changes_does_nothing() {
    let cfg = config("wiki");
    let mut catalog = vec![local("wiki", BackupType::Full, 0)];
    let files = vec![
        FileStamp { path: "/data/app/a".to_string(), modified: Some(Timestamp::new(T + 100, 0)) },
        FileStamp { path: "/data/app/b".to_string(), modified: Some(Timestamp::new(T - 100, 0)) },
    ];
    let since = get_last_backup_time(&catalog, "wiki").unwrap();
    assert_eq!(since, ts(0));
    let changed = filter_files_newer_than(&files, since);
    assert_eq!(changed.changed, vec!["/data/app/a".to_string()]);
    let first = incremental_backup(&cfg, &global(), &changed.changed, Timestamp::new(T + 200, 0)).unwrap();
    assert_eq!(first.backup.kind, BackupType::Incremental);
    catalog.insert(0, first.backup);

    let since = get_last_backup_time(&catalog, "wiki").unwrap();
    assert_eq!(since, Timestamp::new(T + 200, 0));
    let changed = filter_files_newer_than(&files, since);
    assert!(changed.changed.is_empty());
    assert!(incremental_backup(&cfg, &global(), &changed.changed, Timestamp::new(T + 300, 0)).is_none());
}

#[test]
fn incremental_needs_a_baseline() {
    let catalog = vec![local("other", BackupType::Full, 0)];
    assert_eq!(get_last_backup_time(&catalog, "wiki").unwrap_err(), BackupError::NoBaselineBackup);
    assert_eq!(get_last_backup_time(&Vec::new(), "wiki").unwrap_err(), BackupError::NoBaselineBackup);
}

#[test]
fn baseline_is_the_latest_backup_of_any_kind() {
    let catalog = vec![
        local("wiki", BackupType::Full, 1),
        local("wiki", BackupType::Incremental, 4),
        local("other", BackupType::Full, 9),
        local("wiki", BackupType::Full, 2),
    ];
    assert_eq!(get_last_backup_time(&catalog, "wiki").unwrap(), ts(4));
}

#[test]
fn full_backup_without_files_fails() {
    let r = full_backup(&config("wiki"), &global(), &Vec::new(), ts(0));
    assert_eq!(r.unwrap_err(), BackupError::NoFilesToBackup);
}

#[test]
fn full_backup_packs_uploads_and_prunes() {
    let files = vec!["/data/app/a.txt".to_string(), "/data/app/sub/b.txt".to_string()];
    let job = full_backup(&config("wiki"), &global(), &files, ts(0)).unwrap();
    let name = "wiki_srv_full_2024-01-02T03:04:05+00:00";
    assert_eq!(job.backup.display_name, name);
    assert_eq!(job.backup.storage_key, format!("/store/{}.tar.gz", name));
    assert_eq!(job.steps.len(), 4);
    match &job.steps[0] {
        Step::Pack { archive, root, files } => {
            assert_eq!(archive, &job.backup.storage_key);
            assert_eq!(root, "/data/app");
            assert_eq!(files, &vec!["a.txt".to_string(), "sub/b.txt".to_string()]);
        }
        other => panic!("unexpected step {:?}", other),
    }
    match &job.steps[1] {
        Step::Upload { archive, key } => {
            assert_eq!(archive, &job.backup.storage_key);
            assert_eq!(key, name);
        }
        other => panic!("unexpected step {:?}", other),
    }
    assert!(matches!(job.steps[2], Step::PruneLocal));
    assert!(matches!(job.steps[3], Step::PruneRemote));
    let again = do_full_backup(&config("wiki"), &global(), &files, ts(0));
    assert_eq!(again.backup.display_name, name);
}

#[test]
fn incremental_job_runs_hooks_and_does_not_prune() {
    let mut cfg = config("wiki");
    cfg.post_backup_script = "echo post".to_string();
    let files = vec!["/data/app/a.txt".to_string()];
    let job = do_incremental_backup(&cfg, &global(), &files, ts(1));
    assert_eq!(job.backup.kind, BackupType::Incremental);
    assert_eq!(scripts(&job.steps), vec!["echo pre".to_string(), "echo post".to_string()]);
    assert_eq!(job.steps.len(), 4);
    assert!(!job.steps.iter().any(|s| matches!(s, Step::PruneLocal | Step::PruneRemote)));
}

#[test]
fn selection_is_sorted_unique_and_excludes() {
    let included = vec![
        "/r/b".to_string(),
        "/r/a".to_string(),
        "/r/cache/x".to_string(),
        "/r/b".to_string(),
        "/r/A".to_string(),
    ];
    let excluded = vec!["/r/cache/x".to_string(), "/r/zzz".to_string()];
    assert_eq!(
        get_files_to_backup(&included, &excluded),
        vec!["/r/A".to_string(), "/r/a".to_string(), "/r/b".to_string()]
    );
    assert!(get_files_to_backup(&Vec::new(), &excluded).is_empty());
}

#[test]
fn unreadable_times_are_reported() {
    let files = vec![
        FileStamp { path: "x".to_string(), modified: None },
        FileStamp { path: "y".to_string(), modified: Some(ts(0)) },
        FileStamp { path: "z".to_string(), modified: Some(Timestamp::new(T, 1)) },
    ];
    let r = filter_files_newer_than(&files, ts(0));
    assert_eq!(r.changed, vec!["z".to_string()]);
    assert_eq!(r.unreadable, vec!["x".to_string()]);
}

#[test]
fn paths_relative_to_root() {
    assert_eq!(relative_path("/data/app", "/data/app/x/y"), "x/y");
    assert_eq!(relative_path("/data/app/", "/data/app/x"), "x");
    assert_eq!(relative_path("/data/app", "/data/apple/x"), "/data/apple/x");
    assert_eq!(relative_path("/data/app", "/other"), "/other");
    assert_eq!(relative_path("/data/app", "/data/app"), "");
}

#[test]
fn patterns_and_paths() {
    let pats = glob_patterns(&"/data/app".to_string(), &vec!["/**/*".to_string(), "/etc".to_string()]);
    assert_eq!(pats, vec!["/data/app/**/*".to_string(), "/data/app/etc".to_string()]);
    assert_eq!(join("/store", "x"), "/store/x");
    assert_eq!(join("/store/", "x"), "/store/x");
    assert_eq!(join("", "x"), "x");
    assert_eq!(archive_of("/store", "n"), "/store/n.tar.gz");
    assert!(hook_steps(&String::new()).is_empty());
    assert_eq!(scripts(&hook_steps(&"run".to_string())), vec!["run".to_string()]);
}

#[test]
fn config_lookup() {
    let configs = vec![config("wiki"), config("db")];
    assert_eq!(get_config_from_app_name(&configs, "db").unwrap().app_name, "db");
    assert!(get_config_from_app_name(&configs, "mail").is_none());
}

#[test]
fn filter_keeps_catalog_order() {
    let catalog = vec![
        local("wiki", BackupType::Full, 3),
        local("db", BackupType::Full, 2),
        local("wiki", BackupType::Incremental, 1),
    ];
    let mine = filter_by_app(&catalog, "wiki");
    assert_eq!(mine.len(), 2);
    assert_eq!(mine[0].timestamp, ts(3));
    assert_eq!(mine[1].timestamp, ts(1));
}

#[test]
fn listing_groups_configured_and_remote_only_apps() {
    let configs = vec![config("wiki")];
    let local_catalog = vec![local("wiki", BackupType::Full, 1), local("db", BackupType::Full, 1)];
    let remote_catalog = vec![
        remote("wiki", BackupType::Full, 1),
        remote("mail", BackupType::Incremental, 3),
        remote("db", BackupType::Full, 2),
        remote("mail", BackupType::Full, 2),
    ];
    let all = list(&None, &configs, &local_catalog, &remote_catalog);
    let apps: Vec<&str> = all.iter().map(|l| l.app_name.as_str()).collect();
    assert_eq!(apps, vec!["wiki", "db", "mail"]);
    assert_eq!(all[0].local.len(), 1);
    assert_eq!(all[0].remote.len(), 1);
    assert!(all[2].local.is_empty());
    let mail: Vec<&str> = all[2].remote.iter().map(|b| b.display_name.as_str()).collect();
    assert_eq!(
        mail,
        vec!["mail_srv_full_2024-01-04T03:04:05+00:00", "mail_srv_incremental_2024-01-05T03:04:05+00:00"]
    );

    let one = list(&Some("db".to_string()), &configs, &local_catalog, &remote_catalog);
    assert_eq!(one.len(), 1);
    assert_eq!(one[0].local.len(), 1);
    assert!(one[0].remote.is_empty());

    assert_eq!(remote_only_apps(&configs, &remote_catalog), vec!["db".to_string(), "mail".to_string()]);
    let sorted = sort_by_name(remote_catalog.clone());
    let names: Vec<&str> = sorted.iter().map(|b| b.display_name.as_str()).collect();
    let mut expected: Vec<&str> = remote_catalog.iter().map(|b| b.display_name.as_str()).collect();
    expected.sort();
    assert_eq!(names, expected);
}

#[test]
fn chain_ignores_other_servers() {
    let mut other = local("wiki", BackupType::Full, 2);
    other.server_name = "elsewhere".to_string();
    let catalog = vec![
        local("wiki", BackupType::Incremental, 3),
        other,
        local("wiki", BackupType::Full, 1),
    ];
    let chain = find_local_chain(&catalog, "wiki", "srv", &catalog[0].display_name).unwrap();
    let times: Vec<Timestamp> = chain.iter().map(|b| b.timestamp).collect();
    assert_eq!(times, vec![ts(1), ts(3)]);
    assert!(chain.iter().all(|b| b.server_name == "srv"));
}

#[test]
fn retention_deletes_fulls_after_the_first_kept() {
    let catalog = vec![
        local("wiki", BackupType::Full, 9),
        local("wiki", BackupType::Incremental, 8),
        local("wiki", BackupType::Full, 7),
        local("wiki", BackupType::Full, 6),
        local("wiki", BackupType::Incremental, 5),
        local("wiki", BackupType::Full, 4),
    ];
    let deleted: Vec<Timestamp> = prune(&catalog, 2).iter().map(|b| b.timestamp).collect();
    assert_eq!(deleted, vec![ts(6), ts(4)]);
}
