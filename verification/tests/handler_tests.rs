use simple_gal::file_type::FileType;
use simple_gal::folder::Folder;
use simple_gal::forwarded_identity::ForwardedIdentity;
use simple_gal::handlers::{
    content_type_for_path, first_level_decision, list_files_decision, path_decision,
    root_decision, site_decision, thumb_decision, DirEntry, FirstLevelOutcome, ListOutcome,
    PathOutcome, SiteOutcome, ThumbOutcome,
};
use simple_gal::options::{Group, Options, OptionsInternal};
use simple_gal::thumbs::ThumbnailPlan;

fn media_options() -> Options {
    let oi = OptionsInternal {
        log_level: None,
        access_control_allow_origin: None,
        thumb_folder_path: "/thumbs".to_string(),
        log_file: "/tmp/gallery.log".to_string(),
        audit_file: None,
        static_site_path: "/site".to_string(),
        groups: vec![Group { name: "team".to_string(), members_email: vec!["u@x".to_string()] }],
        folders: vec![Folder {
            path: "/m".to_string(),
            inheritable: Some(true),
            breaks_inheritance: None,
            allowed: Some(vec!["u@x".to_string()]),
            denied: None,
        }],
        prometheus_metrics_port: None,
    };
    Options::from_internal(oi, None)
}

#[test]
fn content_types_follow_the_fallback_table() {
    assert_eq!(content_type_for_path("/a/b.mkv"), "video/mp4");
    assert_eq!(content_type_for_path("/a/b.mp4"), "video/mp4");
    assert_eq!(content_type_for_path("/a/b.avi"), "video/x-msvideo");
    assert_eq!(content_type_for_path("/a/b.webm"), "video/webm");
    assert_eq!(content_type_for_path("/a/b.webp"), "image/webp");
    assert_eq!(content_type_for_path("/a/b.ogv"), "video/ogg");
    assert_eq!(content_type_for_path("/a/b.mpeg"), "video/mpeg");
    assert_eq!(content_type_for_path("/a/b.JPG"), "image/jpeg");
    assert_eq!(content_type_for_path("/a/b.unknownext"), "application/octet-stream");
    assert_eq!(content_type_for_path("/a/noext"), "application/octet-stream");
}

#[test]
fn path_endpoint_refuses_outsiders() {
    let o = media_options();
    assert!(matches!(path_decision(&o, "v@x", "/m/p.jpg", false), PathOutcome::Unauthorized));
}

#[test]
fn path_endpoint_streams_media_only() {
    let o = media_options();
    match path_decision(&o, "u@x", "/m/p.jpg", false) {
        PathOutcome::Stream { content_type } => assert_eq!(content_type, "image/jpeg"),
        _ => panic!("an allowed media file is streamed"),
    }
    assert!(matches!(path_decision(&o, "u@x", "/m/doc.txt", false), PathOutcome::NotFound));
    assert!(matches!(path_decision(&o, "u@x", "/m/noext", false), PathOutcome::NotFound));
    assert!(matches!(path_decision(&o, "u@x", "/m/dir.jpg", true), PathOutcome::NotFound));
}

#[test]
fn static_site_falls_back_to_the_index() {
    assert!(matches!(site_decision(false, true, true), SiteOutcome::Unauthorized));
    assert!(matches!(site_decision(true, true, false), SiteOutcome::ServeFile));
    assert!(matches!(site_decision(true, false, true), SiteOutcome::ServeIndex));
    assert!(matches!(site_decision(true, false, false), SiteOutcome::NotFound));
    assert!(matches!(root_decision(true), SiteOutcome::ServeIndex));
    assert!(matches!(root_decision(false), SiteOutcome::Unauthorized));
}

#[test]
fn thumb_endpoint_gates_then_plans() {
    let o = media_options();
    assert!(matches!(
        thumb_decision(&o, "v@x", 128, "/m/p.jpg", false, false),
        ThumbOutcome::Unauthorized
    ));
    assert!(matches!(
        thumb_decision(&o, "u@x", 128, "/m/sub", true, false),
        ThumbOutcome::NotFound
    ));
    assert!(matches!(
        thumb_decision(&o, "u@x", 128, "/m/doc.txt", false, false),
        ThumbOutcome::NotFound
    ));
    match thumb_decision(&o, "u@x", 128, "/m/p.jpg", false, false) {
        ThumbOutcome::Media(ThumbnailPlan::BuildImage { artifact, .. }) => {
            assert_eq!(artifact, "/thumbs/128x128/m/p.jpg.jpg");
        },
        _ => panic!("a fresh image thumb is built"),
    }
    match thumb_decision(&o, "u@x", 128, "/m/p.jpg", false, true) {
        ThumbOutcome::Media(ThumbnailPlan::CacheHit { artifact }) => {
            assert_eq!(artifact, "/thumbs/128x128/m/p.jpg.jpg");
        },
        _ => panic!("an existing artifact is a cache hit"),
    }
}

fn dir(path: &str) -> DirEntry {
    DirEntry { path: path.to_string(), is_dir: true, size: 0 }
}

fn file(path: &str, size: u64) -> DirEntry {
    DirEntry { path: path.to_string(), is_dir: false, size }
}

#[test]
fn listing_partitions_previews_extras_and_folders() {
    let o = media_options();
    let entries = vec![file("/m/a.jpg", 5), file("/m/b.txt", 7), dir("/m/sub")];

    match list_files_decision(&o, "u@x", FileType::Preview, "/m", true, &entries) {
        ListOutcome::Listing(items) => {
            assert_eq!(items.len(), 1);
            assert_eq!(items[0].path, "/m/a.jpg");
            assert_eq!(items[0].size, Some(5));
        },
        _ => panic!("the listing is allowed"),
    }
    match list_files_decision(&o, "u@x", FileType::Extra, "/m", true, &entries) {
        ListOutcome::Listing(items) => {
            assert_eq!(items.len(), 1);
            assert_eq!(items[0].path, "/m/b.txt");
            assert_eq!(items[0].size, Some(7));
        },
        _ => panic!("the listing is allowed"),
    }
    match list_files_decision(&o, "u@x", FileType::Folder, "/m", true, &entries) {
        ListOutcome::Listing(items) => {
            // "/m/sub" inherits u@x's access from the rule at "/m".
            assert_eq!(items.len(), 1);
            assert_eq!(items[0].path, "/m/sub");
            assert_eq!(items[0].size, None);
        },
        _ => panic!("the listing is allowed"),
    }
    assert!(matches!(
        list_files_decision(&o, "v@x", FileType::Preview, "/m", true, &entries),
        ListOutcome::Unauthorized
    ));
}

#[test]
fn folder_listing_hides_forbidden_subdirectories() {
    let oi = OptionsInternal {
        log_level: None,
        access_control_allow_origin: None,
        thumb_folder_path: "/thumbs".to_string(),
        log_file: "/tmp/gallery.log".to_string(),
        audit_file: None,
        static_site_path: "/site".to_string(),
        groups: vec![],
        folders: vec![
            Folder {
                path: "/m".to_string(),
                inheritable: Some(false),
                breaks_inheritance: None,
                allowed: Some(vec!["u@x".to_string()]),
                denied: None,
            },
            Folder {
                path: "/m/open".to_string(),
                inheritable: Some(true),
                breaks_inheritance: None,
                allowed: Some(vec!["u@x".to_string()]),
                denied: None,
            },
        ],
        prometheus_metrics_port: None,
    };
    let o = Options::from_internal(oi, None);
    let entries = vec![dir("/m/open"), dir("/m/closed")];
    match list_files_decision(&o, "u@x", FileType::Folder, "/m", true, &entries) {
        ListOutcome::Listing(items) => {
            assert_eq!(items.len(), 1);
            assert_eq!(items[0].path, "/m/open");
        },
        _ => panic!("the listing is allowed"),
    }
}

#[test]
fn first_level_endpoint_serves_the_precomputed_table() {
    let o = media_options();
    let table = o.calculate_first_level_folders_for_every_user();
    let known = first_level_decision(&o, &table, &ForwardedIdentity::new("u@x".to_string()));
    match known {
        FirstLevelOutcome::Folders(folders) => assert_eq!(folders, vec!["/m".to_string()]),
        _ => panic!("a known email has an entry"),
    }
    assert!(matches!(
        first_level_decision(&o, &table, &ForwardedIdentity::new("v@x".to_string())),
        FirstLevelOutcome::Unauthorized
    ));
    assert!(matches!(
        first_level_decision(&o, &table, &ForwardedIdentity::new_forced("op@x".to_string())),
        FirstLevelOutcome::Unknown
    ));
}

#[test]
fn listing_kind_names_parse_exactly() {
    assert_eq!(FileType::from_name("Preview"), Some(FileType::Preview));
    assert_eq!(FileType::from_name("Extra"), Some(FileType::Extra));
    assert_eq!(FileType::from_name("Folder"), Some(FileType::Folder));
    assert_eq!(FileType::from_name("preview"), None);
    assert_eq!(FileType::from_name(""), None);
    assert_eq!(FileType::Preview.as_str(), "Preview");
    assert_eq!(FileType::Extra.as_str(), "Extra");
    assert_eq!(FileType::Folder.as_str(), "Folder");
}

#[test]
fn cors_header_reflects_the_configuration() {
    let mut oi = OptionsInternal {
        log_level: None,
        access_control_allow_origin: Some("https://gallery.example".to_string()),
        thumb_folder_path: String::new(),
        log_file: String::new(),
        audit_file: None,
        static_site_path: String::new(),
        groups: vec![],
        folders: vec![],
        prometheus_metrics_port: None,
    };
    let o = Options::from_internal(oi, None);
    let (name, value) = o.cors_header().expect("an origin is configured");
    assert_eq!(name, "Access-Control-Allow-Origin");
    assert_eq!(value, "https://gallery.example");

    oi = OptionsInternal {
        log_level: None,
        access_control_allow_origin: None,
        thumb_folder_path: String::new(),
        log_file: String::new(),
        audit_file: None,
        static_site_path: String::new(),
        groups: vec![],
        folders: vec![],
        prometheus_metrics_port: None,
    };
    let o = Options::from_internal(oi, None);
    assert!(o.cors_header().is_none());
}
