use simple_gal::file_type::FileType;
use simple_gal::options::{Options, OptionsInternal};
use simple_gal::statistics::{
    track_authorized_static, track_authorized_thumb, track_picture_thumb_access,
    track_picture_thumb_generation, Statistics,
};
use simple_gal::thumbs::{thumbnail_plan, ThumbnailPlan};

fn options_with_port(port: Option<u16>) -> Options {
    let oi = OptionsInternal {
        log_level: None,
        access_control_allow_origin: None,
        thumb_folder_path: String::new(),
        log_file: String::new(),
        audit_file: None,
        static_site_path: String::new(),
        groups: vec![],
        folders: vec![],
        prometheus_metrics_port: port,
    };
    Options::from_internal(oi, None)
}

#[test]
fn fresh_registry_is_all_zero() {
    let s = Statistics::default();
    assert_eq!(s.authorized_static.len(), 0);
    assert_eq!(s.unauthorized_static.len(), 0);
    assert_eq!(s.authorized_dynamic, 0);
    assert_eq!(s.authorized_list_files.preview, 0);
    assert_eq!(s.authorized_list_files.extra, 0);
    assert_eq!(s.authorized_list_files.folder, 0);
    assert_eq!(s.unauthorized_first_level_folders, 0);
}

#[test]
fn list_counters_grow_per_kind() {
    let mut s = Statistics::default();
    s.inc_authorized_list_files(FileType::Preview);
    s.inc_authorized_list_files(FileType::Preview);
    s.inc_authorized_list_files(FileType::Folder);
    s.inc_unauthorized_list_files(FileType::Extra);
    assert_eq!(s.authorized_list_files.preview, 2);
    assert_eq!(s.authorized_list_files.extra, 0);
    assert_eq!(s.authorized_list_files.folder, 1);
    assert_eq!(s.unauthorized_list_files.extra, 1);
}

#[test]
fn static_series_counts_per_page() {
    let mut s = Statistics::default();
    s.inc_authorized_static("/index.html");
    s.inc_authorized_static("/index.html");
    s.inc_authorized_static("/app.js");
    s.inc_unauthorized_static("/index.html");
    assert_eq!(s.authorized_static.len(), 2);
    assert_eq!(s.authorized_static[0], ("/index.html".to_string(), 2));
    assert_eq!(s.authorized_static[1], ("/app.js".to_string(), 1));
    assert_eq!(s.unauthorized_static, vec![("/index.html".to_string(), 1)]);
}

#[test]
fn tracking_respects_the_metrics_switch() {
    let on = options_with_port(Some(9100));
    let off = options_with_port(None);
    let mut s = Statistics::default();
    track_authorized_thumb(&on, &mut s);
    track_authorized_thumb(&off, &mut s);
    assert_eq!(s.authorized_thumb, 1);
    track_picture_thumb_access(&on, &mut s);
    track_picture_thumb_generation(&on, &mut s);
    track_picture_thumb_access(&off, &mut s);
    assert_eq!(s.picture_thumb_access, 1);
    assert_eq!(s.picture_thumb_generation, 1);
    track_authorized_static(&on, &mut s, "/");
    track_authorized_static(&off, &mut s, "/");
    assert_eq!(s.authorized_static, vec![("/".to_string(), 1)]);
}

#[test]
fn thumbnail_metrics_count_generation_only_on_a_miss() {
    let on = options_with_port(Some(9100));
    let mut s = Statistics::default();

    // First request: the artifact is missing, so the plan builds it.
    let first = thumbnail_plan("/t", 128, "/m/p.jpg", false);
    track_picture_thumb_access(&on, &mut s);
    if matches!(first, ThumbnailPlan::BuildImage { .. }) {
        track_picture_thumb_generation(&on, &mut s);
    }
    assert_eq!(s.picture_thumb_access, 1);
    assert_eq!(s.picture_thumb_generation, 1);

    // Repeat request: the artifact exists, so only the access counts.
    let second = thumbnail_plan("/t", 128, "/m/p.jpg", true);
    track_picture_thumb_access(&on, &mut s);
    if matches!(second, ThumbnailPlan::BuildImage { .. }) {
        track_picture_thumb_generation(&on, &mut s);
    }
    assert_eq!(s.picture_thumb_access, 2);
    assert_eq!(s.picture_thumb_generation, 1);
}

fn plain_block(name: &str, help: &str, value: u64) -> String {
    format!("# HELP {name} {help}\n# TYPE {name} counter\n{name} {value}\n")
}

fn header_only(name: &str, help: &str) -> String {
    format!("# HELP {name} {help}\n# TYPE {name} counter\n")
}

fn list_block(name: &str, help: &str, preview: u64, extra: u64, folder: u64) -> String {
    format!(
        "# HELP {name} {help}\n# TYPE {name} counter\n{name}{{file_type=\"Preview\"}} {preview}\n{name}{{file_type=\"Extra\"}} {extra}\n{name}{{file_type=\"Folder\"}} {folder}\n"
    )
}

#[test]
fn rendering_matches_the_exposition_format() {
    let mut s = Statistics::default();
    s.inc_authorized_static("/index.html");
    s.inc_authorized_static("/index.html");
    s.authorized_dynamic = 3;
    s.inc_authorized_list_files(FileType::Extra);

    let mut expected = String::new();
    expected.push_str(&format!(
        "# HELP nas_gallery_authorized_access_to_static_content Authorized access to static content\n# TYPE nas_gallery_authorized_access_to_static_content counter\nnas_gallery_authorized_access_to_static_content{{path=\"/index.html\"}} 2\n"
    ));
    expected.push_str(&header_only(
        "nas_gallery_unauthorized_access_to_static_content",
        "Unauthorized access to static content",
    ));
    expected.push_str(&plain_block(
        "nas_gallery_authorized_access_to_dynamic_content",
        "Authorized access to dynamic content",
        3,
    ));
    expected.push_str(&plain_block(
        "nas_gallery_authorized_not_found",
        "Authorized access to not found content",
        0,
    ));
    expected.push_str(&plain_block(
        "nas_gallery_authorized_thumb",
        "Authorized access to thumbnail",
        0,
    ));
    expected.push_str(&plain_block(
        "nas_gallery_unauthorized_thumb",
        "Authorized unaccess to thumbnail",
        0,
    ));
    expected.push_str(&plain_block(
        "nas_gallery_picture_thumb_access",
        "Authorized unaccess picute thumb",
        0,
    ));
    expected.push_str(&plain_block(
        "nas_gallery_picture_thumb_generation",
        "Picture thumb generation (cache miss)",
        0,
    ));
    expected.push_str(&plain_block(
        "nas_gallery_video_thumb_access",
        "Authorized unaccess picute thumb",
        0,
    ));
    expected.push_str(&plain_block(
        "nas_gallery_video_thumb_generation",
        "Video thumb generation (cache miss)",
        0,
    ));
    expected.push_str(&list_block(
        "nas_gallery_authorized_list_files",
        "Authorized list files",
        0,
        1,
        0,
    ));
    expected.push_str(&list_block(
        "nas_gallery_unauthorized_list_files",
        "Unauthorized list files",
        0,
        0,
        0,
    ));
    expected.push_str(&plain_block(
        "nas_gallery_authorized_first_level_folders",
        "Authorized enumeration of first level folders",
        0,
    ));
    expected.push_str(&plain_block(
        "nas_gallery_unauthorized_first_level_folders",
        "Unauthorized enumeration of first level folders",
        0,
    ));

    assert_eq!(s.render_to_prometheus(), expected);
}
