use plm::fields::{
    finish_local, finish_s3, storage_of, BackendField, BackendReader, ConfigField, ConfigReader,
    DataField, DataReader, FieldError, ServerField, ServerReader, SingleFieldReader,
};
use plm::registry::{Local, StorageBackend, S3};

#[test]
fn data_read_key_by_key() {
    let mut r = DataReader::new();
    for (k, v) in [("password", "p"), ("host", "h"), ("username", "u")] {
        let f = r.field(k).unwrap();
        r.set(f, v.to_string());
    }
    let d = r.finish().ok().unwrap();
    assert_eq!((d.host.as_str(), d.username.as_str(), d.password.as_str()), ("h", "u", "p"));
}

#[test]
fn data_refuses_duplicate_unknown_and_missing() {
    let mut r = DataReader::new();
    assert_eq!(r.field("host"), Ok(DataField::Host));
    r.set(DataField::Host, "h".to_string());
    assert_eq!(r.field("host"), Err(FieldError::Duplicate("host".to_string())));
    assert_eq!(r.field("port"), Err(FieldError::Unknown("port".to_string())));
    match r.finish() {
        Err(e) => assert_eq!(e, FieldError::Missing("username".to_string())),
        Ok(_) => panic!("expected a missing field"),
    }
    match DataReader::new().finish() {
        Err(e) => assert_eq!(e, FieldError::Missing("host".to_string())),
        Ok(_) => panic!("expected a missing field"),
    }
    let mut r = DataReader::new();
    r.set(DataField::Host, "h".to_string());
    r.set(DataField::Username, "u".to_string());
    match r.finish() {
        Err(e) => assert_eq!(e, FieldError::Missing("password".to_string())),
        Ok(_) => panic!("expected a missing field"),
    }
}

#[test]
fn server_read() {
    let mut r = ServerReader::new();
    assert_eq!(r.field("port"), Ok(ServerField::Port));
    r.set_port(7575);
    assert_eq!(r.field("port"), Err(FieldError::Duplicate("port".to_string())));
    assert_eq!(r.field("log"), Err(FieldError::Unknown("log".to_string())));
    match ServerReader::new().finish() {
        Err(e) => assert_eq!(e, FieldError::Missing("port".to_string())),
        Ok(_) => panic!("expected a missing field"),
    }
    let mut missing_host = ServerReader::new();
    missing_host.set_port(1);
    match missing_host.finish() {
        Err(e) => assert_eq!(e, FieldError::Missing("host".to_string())),
        Ok(_) => panic!("expected a missing field"),
    }
    assert_eq!(r.field("host"), Ok(ServerField::Host));
    r.set_host("0.0.0.0".to_string());
    let s = r.finish().ok().unwrap();
    assert_eq!((s.host.as_str(), s.port, s.log_level), ("0.0.0.0", 7575, 0));
}

#[test]
fn single_field_storages() {
    let mut l = SingleFieldReader::local();
    assert!(l.field("registryPath").is_ok());
    assert_eq!(l.field("path"), Err(FieldError::Unknown("path".to_string())));
    l.set("/a".to_string());
    l.set("/b".to_string());
    assert_eq!(finish_local(l).ok().unwrap().registry_path, "/b");
    match finish_s3(SingleFieldReader::s3()) {
        Err(e) => assert_eq!(e, FieldError::Missing("bucketName".to_string())),
        Ok(_) => panic!("expected a missing field"),
    }
    let mut s = SingleFieldReader::s3();
    s.set("bucket".to_string());
    assert_eq!(finish_s3(s).ok().unwrap().bucket_name, "bucket");
}

#[test]
fn backend_prefers_local() {
    let mut r = BackendReader::new();
    assert_eq!(r.field("s3"), Ok(BackendField::S3));
    r.set_s3(S3 { bucket_name: "b".to_string() });
    assert_eq!(r.field("s3"), Err(FieldError::Duplicate("s3".to_string())));
    assert_eq!(r.field("local"), Ok(BackendField::Local));
    r.set_local(Local { registry_path: "/r".to_string() });
    assert_eq!(r.field("gcs"), Err(FieldError::Unknown("gcs".to_string())));
    match r.finish() {
        Ok(StorageBackend::Local(l)) => assert_eq!(l.registry_path, "/r"),
        _ => panic!("expected the local storage"),
    }
    let mut only_s3 = BackendReader::new();
    only_s3.set_s3(S3 { bucket_name: "b".to_string() });
    match only_s3.finish() {
        Ok(StorageBackend::S3(s)) => assert_eq!(s.bucket_name, "b"),
        _ => panic!("expected the S3 storage"),
    }
    match BackendReader::new().finish() {
        Err(e) => assert_eq!(e, FieldError::Missing("storage_backend".to_string())),
        Ok(_) => panic!("expected a missing field"),
    }
}

#[test]
fn config_sections() {
    let mut r = ConfigReader::new();
    assert_eq!(r.field("comment"), Ok(ConfigField::Ignored));
    assert_eq!(r.field("storage"), Ok(ConfigField::Storage));
    r.set_storage(storage_of(StorageBackend::Local(Local { registry_path: "/r".to_string() })));
    assert_eq!(r.field("storage"), Err(FieldError::Duplicate("storage".to_string())));
    assert_eq!(r.field("server"), Ok(ConfigField::Server));
    assert_eq!(r.field("data"), Ok(ConfigField::Data));
    let c = r.finish();
    assert!(c.server.is_none());
    assert!(c.data.is_none());
    assert!(matches!(
        c.storage.and_then(|s| s.storage_backend),
        Some(StorageBackend::Local(_))
    ));
}
