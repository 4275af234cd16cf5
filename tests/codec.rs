use bkp::backup::{decode, decode_with_time, encode, name_of, Backup, BackupType, NamingError};
use bkp::catalog::{
    filter_files_with_extension, get_backup_path_with_extension, parse_backup_from_path,
    parse_backups_from_paths,
};
use bkp::time::{parse_timestamp, Timestamp};

// 2024-01-02T03:04:05Z
const T: i64 = 1704164645;

fn backup(app: &str, server: &str, kind: BackupType, ts: Timestamp) -> Backup {
    let name = name_of(app, server, kind, ts);
    Backup {
        app_name: app.to_string(),
        server_name: server.to_string(),
        kind,
        timestamp: ts,
        storage_key: name.clone(),
        display_name: name,
    }
}

#[test]
fn encode_writes_all_four_segments() {
    let b = backup("wiki", "srv1", BackupType::Full, Timestamp::new(T, 0));
    assert_eq!(encode(&b), "wiki_srv1_full_2024-01-02T03:04:05+00:00");
    let i = backup("wiki", "srv1", BackupType::Incremental, Timestamp::new(T, 123_000_000));
    assert_eq!(encode(&i), "wiki_srv1_incremental_2024-01-02T03:04:05.123+00:00");
}

#[test]
fn decode_reads_the_fields() {
    let b = decode("wiki_srv1_incremental_2024-01-02T03:04:05.500+00:00").unwrap();
    assert_eq!(b.app_name, "wiki");
    assert_eq!(b.server_name, "srv1");
    assert_eq!(b.kind, BackupType::Incremental);
    assert_eq!(b.timestamp, Timestamp::new(T, 500_000_000));
    assert_eq!(b.display_name, "wiki_srv1_incremental_2024-01-02T03:04:05.500+00:00");
    assert_eq!(b.storage_key, b.display_name);
    assert_eq!(encode(&b), b.display_name);
}

#[test]
fn decode_rejects_time_text_the_codec_does_not_write() {
    for name in [
        "wiki_srv1_full_2024-01-02T03:04:05.5+01:00",
        "wiki_srv1_full_2024-01-02T03:04:05Z",
        "wiki_srv1_full_2024-01-02T03:04:05.5+00:00",
        "wiki_srv1_full_2024-01-02 03:04:05+00:00",
        "wiki_srv1_full_2016-12-31T23:59:60+00:00",
    ] {
        assert_eq!(decode(name).unwrap_err(), NamingError::MalformedTimestamp, "{}", name);
    }
}

#[test]
fn decode_with_time_checks_the_given_instant() {
    let name = "wiki_srv1_full_2024-01-02T03:04:05+00:00";
    assert_eq!(decode_with_time(name, Some(Timestamp::new(T, 0))).unwrap().timestamp, Timestamp::new(T, 0));
    assert_eq!(
        decode_with_time(name, Some(Timestamp::new(T + 1, 0))).unwrap_err(),
        NamingError::MalformedTimestamp
    );
    assert_eq!(decode_with_time(name, None).unwrap_err(), NamingError::MalformedTimestamp);
    assert_eq!(
        decode_with_time(name, Some(Timestamp::new(T, 1_000_000_000))).unwrap_err(),
        NamingError::MalformedTimestamp
    );
    assert_eq!(decode_with_time("wiki_srv1", Some(Timestamp::new(T, 0))).unwrap_err(), NamingError::MissingField);
    assert_eq!(
        decode_with_time("wiki_srv1_daily_x", Some(Timestamp::new(T, 0))).unwrap_err(),
        NamingError::UnknownKind
    );
}

#[test]
fn round_trip_gives_back_the_backup() {
    let cases = [
        ("wiki", "srv1", BackupType::Full, Timestamp::new(T, 0)),
        ("db", "host-2", BackupType::Incremental, Timestamp::new(T, 987_654_321)),
        ("", "", BackupType::Full, Timestamp::new(0, 1_000)),
        ("a.b", "c", BackupType::Incremental, Timestamp::new(-62167219200, 0)),
        ("x", "y", BackupType::Full, Timestamp::new(253402300799, 999_999_999)),
    ];
    for (app, server, kind, ts) in cases {
        let b = backup(app, server, kind, ts);
        let d = decode(&encode(&b)).unwrap();
        assert_eq!(d.app_name, b.app_name);
        assert_eq!(d.server_name, b.server_name);
        assert_eq!(d.kind, b.kind);
        assert_eq!(d.timestamp, b.timestamp);
        assert_eq!(d.display_name, b.display_name);
        assert_eq!(d.storage_key, b.storage_key);
    }
}

#[test]
fn decode_missing_segment_fails() {
    assert_eq!(decode("wiki_srv1_full").unwrap_err(), NamingError::MissingField);
    assert_eq!(decode("wiki").unwrap_err(), NamingError::MissingField);
    assert_eq!(decode("").unwrap_err(), NamingError::MissingField);
}

#[test]
fn decode_unknown_kind_fails() {
    assert_eq!(
        decode("wiki_srv1_weekly_2024-01-02T03:04:05+00:00").unwrap_err(),
        NamingError::UnknownKind
    );
    assert_eq!(
        decode("wiki_srv1_Full_2024-01-02T03:04:05+00:00").unwrap_err(),
        NamingError::UnknownKind
    );
}

#[test]
fn decode_malformed_timestamp_fails() {
    assert_eq!(decode("wiki_srv1_full_yesterday").unwrap_err(), NamingError::MalformedTimestamp);
    assert_eq!(
        decode("wiki_srv1_full_2024-01-02T03:04:05+00:00_extra").unwrap_err(),
        NamingError::MalformedTimestamp
    );
    assert_eq!(decode("wiki_srv1_full_").unwrap_err(), NamingError::MalformedTimestamp);
}

#[test]
fn parse_timestamp_reads_rfc3339() {
    assert_eq!(parse_timestamp("2024-01-02T03:04:05Z"), Some(Timestamp::new(T, 0)));
    assert_eq!(parse_timestamp("1970-01-01T00:00:00.000000001+00:00"), Some(Timestamp::new(0, 1)));
    assert_eq!(parse_timestamp("2024-13-02T03:04:05Z"), None);
}

#[test]
fn timestamp_order_and_validity() {
    let a = Timestamp::new(T, 5);
    let b = Timestamp::new(T, 6);
    assert!(b.is_after(&a));
    assert!(!a.is_after(&b));
    assert!(!a.is_after(&a));
    assert!(Timestamp::new(T + 1, 0).is_after(&Timestamp::new(T, 999_999_999)));
    assert!(a.is_valid());
    assert!(!Timestamp::new(253402300800, 0).is_valid());
    assert!(!Timestamp::new(T, 1_000_000_000).is_valid());
}

#[test]
fn parse_backup_from_path_strips_directory_and_extension() {
    let p = "/var/backups/wiki_srv1_full_2024-01-02T03:04:05.123+00:00.tar.gz";
    let b = parse_backup_from_path(p).unwrap();
    assert_eq!(b.display_name, "wiki_srv1_full_2024-01-02T03:04:05.123+00:00");
    assert_eq!(b.storage_key, p);
    assert_eq!(b.kind, BackupType::Full);
    assert_eq!(b.timestamp, Timestamp::new(T, 123_000_000));
    assert_eq!(
        parse_backup_from_path("/var/backups/notes.txt").unwrap_err(),
        NamingError::MissingField
    );
}

#[test]
fn catalog_is_newest_first_and_skips_bad_entries() {
    let paths = vec![
        "/s/wiki_a_full_2024-01-02T03:04:05+00:00.tar.gz".to_string(),
        "/s/junk".to_string(),
        "/s/wiki_a_incremental_2024-01-04T03:04:05+00:00.tar.gz".to_string(),
        "/s/wiki_a_incremental_2024-01-03T03:04:05+00:00.tar.gz".to_string(),
        "/s/wiki_a_daily_2024-01-03T03:04:05+00:00.tar.gz".to_string(),
    ];
    let c = parse_backups_from_paths(&paths);
    let names: Vec<&str> = c.backups.iter().map(|b| b.display_name.as_str()).collect();
    assert_eq!(
        names,
        vec![
            "wiki_a_incremental_2024-01-04T03:04:05+00:00",
            "wiki_a_incremental_2024-01-03T03:04:05+00:00",
            "wiki_a_full_2024-01-02T03:04:05+00:00",
        ]
    );
    assert_eq!(
        c.skipped,
        vec!["/s/junk".to_string(), "/s/wiki_a_daily_2024-01-03T03:04:05+00:00.tar.gz".to_string()]
    );
}

#[test]
fn empty_catalog() {
    let c = parse_backups_from_paths(&Vec::new());
    assert!(c.backups.is_empty());
    assert!(c.skipped.is_empty());
}

#[test]
fn extension_filter_keeps_matching_files() {
    let paths = vec![
        "/s/a.tar".to_string(),
        "/s/b.tar.gz".to_string(),
        "/s/.tar".to_string(),
        "/s.tar/c".to_string(),
        "d.tar".to_string(),
        "/s/..".to_string(),
    ];
    assert_eq!(
        filter_files_with_extension(paths.clone(), "tar"),
        vec!["/s/a.tar".to_string(), "d.tar".to_string()]
    );
    assert_eq!(filter_files_with_extension(paths, "gz"), vec!["/s/b.tar.gz".to_string()]);
}

#[test]
fn extension_is_appended() {
    assert_eq!(
        get_backup_path_with_extension("/s/wiki_a_full_2024-01-02T03:04:05.123+00:00", ".tar"),
        Some("/s/wiki_a_full_2024-01-02T03:04:05.123+00:00.tar".to_string())
    );
    assert_eq!(get_backup_path_with_extension("/s/a.tar", ".gz"), Some("/s/a.tar.gz".to_string()));
    assert_eq!(get_backup_path_with_extension("/s.d/noext", ".gz"), None);
    assert_eq!(get_backup_path_with_extension("/s/.hidden", ".gz"), None);
}
