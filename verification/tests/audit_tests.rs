use std::sync::mpsc::channel;

use simple_gal::audit::{audit_record, Audit};
use simple_gal::folder::Folder;
use simple_gal::options::{Options, OptionsInternal};

#[test]
fn audit_record_is_pipe_delimited() {
    let allowed = audit_record("2024-05-01|12:30:00", "u@x", "file", "/m/p.jpg", "get", true);
    assert_eq!(allowed, "2024-05-01|12:30:00|u@x|file|/m/p.jpg|get|ALLOWED");
    let denied = audit_record("2024-05-01|12:30:00", "u@x", "directory", "/m", "check", false);
    assert_eq!(denied, "2024-05-01|12:30:00|u@x|directory|/m|check|DENIED");
}

#[test]
fn audit_handle_forwards_records_to_its_channel() {
    let (tx, rx) = channel();
    let audit = Audit::from_sender("/var/log/audit.log".to_string(), tx);
    assert_eq!(audit.file_name, "/var/log/audit.log");
    audit.send_event("one|record".to_string());
    assert_eq!(rx.recv().unwrap(), "one|record");
}

#[test]
fn audited_check_emits_one_well_formed_record() {
    let (tx, rx) = channel();
    let audit = Audit::from_sender("audit.log".to_string(), tx);
    let oi = OptionsInternal {
        log_level: None,
        access_control_allow_origin: None,
        thumb_folder_path: String::new(),
        log_file: String::new(),
        audit_file: Some("audit.log".to_string()),
        static_site_path: String::new(),
        groups: vec![],
        folders: vec![Folder {
            path: "/m".to_string(),
            inheritable: Some(true),
            breaks_inheritance: None,
            allowed: Some(vec!["u@x".to_string()]),
            denied: None,
        }],
        prometheus_metrics_port: None,
    };
    let o = Options::from_internal(oi, Some(audit));
    assert!(o.check_access("/m/p.jpg", "u@x", false));
    let record = rx.recv().unwrap();
    let fields: Vec<&str> = record.split('|').collect();
    // date | time | email | object type | object name | operation | verdict
    assert_eq!(fields.len(), 7);
    assert_eq!(fields[2], "u@x");
    assert_eq!(fields[3], "file");
    assert_eq!(fields[4], "/m/p.jpg");
    assert_eq!(fields[5], "check");
    assert_eq!(fields[6], "ALLOWED");
}

#[test]
fn disabled_audit_sends_nothing() {
    let oi = OptionsInternal {
        log_level: None,
        access_control_allow_origin: None,
        thumb_folder_path: String::new(),
        log_file: String::new(),
        audit_file: None,
        static_site_path: String::new(),
        groups: vec![],
        folders: vec![],
        prometheus_metrics_port: None,
    };
    let o = Options::from_internal(oi, None);
    o.audit("u@x", "file", "/m", "check", true);
    assert!(!o.is_folder_allowed("/m", "u@x"));
}
