use pyralog::base::offset::LogOffset;
use pyralog::storage::tiered::{RemoteStorageConfig, TieredStorage};
use pyralog::PyralogError;

fn s3() -> TieredStorage {
    TieredStorage::new(
        "/data/p0".to_string(),
        RemoteStorageConfig::S3 {
            bucket: "logs".to_string(),
            region: "eu".to_string(),
            access_key: "a".to_string(),
            secret_key: "s".to_string(),
        },
    )
}

fn local() -> TieredStorage {
    TieredStorage::new("/data/p0".to_string(), RemoteStorageConfig::Local { path: "/archive".to_string() })
}

#[test]
fn upload_target_names_the_remote_place() {
    assert_eq!(s3().upload_target("/data/p0/00000000000000000007.log").unwrap(), "s3://logs/00000000000000000007.log");
    assert_eq!(local().upload_target("/data/p0/7.log").unwrap(), "/archive/7.log");
    let azure = TieredStorage::new(
        "d".to_string(),
        RemoteStorageConfig::Azure { container: "c".to_string(), connection_string: "x".to_string() },
    );
    assert_eq!(azure.upload_target("7.log").unwrap(), "azure://c/7.log");
    let gcs = TieredStorage::new(
        "d".to_string(),
        RemoteStorageConfig::Gcs { bucket: "b".to_string(), credentials_path: "/k".to_string() },
    );
    assert_eq!(gcs.upload_target("a/7.log").unwrap(), "gs://b/7.log");
    assert_eq!(gcs.local_path(), "d");
    for bad in ["", "/data/", "/data/..", ".."] {
        match s3().upload_target(bad) {
            Err(PyralogError::StorageError(m)) => assert_eq!(m, "Invalid segment path"),
            _ => panic!("a path without a file name was taken"),
        }
    }
}

#[test]
fn download_is_local_only() {
    assert_eq!(local().download_source("file:///archive/7.log").unwrap(), "/archive/7.log");
    assert_eq!(local().download_source("file://file://x").unwrap(), "x");
    assert_eq!(local().download_source("/archive/7.log").unwrap(), "/archive/7.log");
    assert_eq!(local().download_source("file:/x").unwrap(), "file:/x");
    assert_eq!(local().download_source("").unwrap(), "");
    match s3().download_source("s3://logs/7.log") {
        Err(PyralogError::StorageError(m)) => assert_eq!(m, "Remote download not yet implemented"),
        _ => panic!("a remote download was planned"),
    }
}

#[test]
fn archive_plan_takes_segments_below_the_offset() {
    let paths: Vec<String> = [
        "/data/p0/00000000000000000000.log",
        "/data/p0/00000000000000000000.index",
        "/data/p0/00000000000000000100.log",
        "/data/p0/00000000000000000200.log",
        "/data/p0/notes.txt",
        "/data/p0/abc.log",
        "/data/p0/150",
    ]
    .iter()
    .map(|s| s.to_string())
    .collect();
    let plan = s3().archive_plan(&paths, LogOffset::new(200));
    assert_eq!(plan.len(), 2);
    assert_eq!(plan[0].segment_path, "/data/p0/00000000000000000000.log");
    assert_eq!(plan[0].index_path, "/data/p0/00000000000000000000.index");
    assert_eq!(plan[0].remote_url, "s3://logs/00000000000000000000.log");
    assert_eq!(plan[1].segment_path, "/data/p0/00000000000000000100.log");
    assert_eq!(plan[1].index_path, "/data/p0/00000000000000000100.index");
    assert!(s3().archive_plan(&paths, LogOffset::new(0)).is_empty());
    assert_eq!(s3().archive_plan(&paths, LogOffset::new(u64::MAX)).len(), 3);
}
