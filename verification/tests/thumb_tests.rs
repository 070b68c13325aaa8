use simple_gal::strings::u64_to_dec;
use simple_gal::thumbs::{
    generate_thumb_folder_path, is_previewable_file, media_kind, picture_convert_args,
    thumb_artifact_path, thumbnail_plan, video_convert_args, video_frame_args, video_overlay_args,
    MediaKind, ThumbnailPlan,
};

#[test]
fn decimal_rendering_is_exact() {
    assert_eq!(u64_to_dec(0), "0");
    assert_eq!(u64_to_dec(7), "7");
    assert_eq!(u64_to_dec(128), "128");
    assert_eq!(u64_to_dec(10_000), "10000");
    assert_eq!(u64_to_dec(u64::MAX), "18446744073709551615");
}

#[test]
fn media_kind_reads_the_extension_case_insensitively() {
    assert_eq!(media_kind("/m/p.jpg"), MediaKind::Image);
    assert_eq!(media_kind("/m/p.JPG"), MediaKind::Image);
    assert_eq!(media_kind("/m/p.gif"), MediaKind::Image);
    assert_eq!(media_kind("/m/v.mkv"), MediaKind::Video);
    assert_eq!(media_kind("/m/v.WebM"), MediaKind::Video);
    assert_eq!(media_kind("/m/notes.txt"), MediaKind::Other);
    assert_eq!(media_kind("/m/noext"), MediaKind::Other);
    assert_eq!(media_kind("/m/.hidden"), MediaKind::Other);
}

#[test]
fn previewable_means_image_or_video() {
    assert!(is_previewable_file("/m/a.png"));
    assert!(is_previewable_file("/m/a.mov"));
    assert!(!is_previewable_file("/m/a.pdf"));
}

#[test]
fn artifact_location_is_deterministic() {
    assert_eq!(generate_thumb_folder_path("/thumbs", 128, "/m/p.jpg"), "/thumbs/128x128/m");
    assert_eq!(thumb_artifact_path("/thumbs", 128, "/m/p.jpg"), "/thumbs/128x128/m/p.jpg.jpg");
    assert_eq!(
        thumb_artifact_path("/thumbs", 64, "/media/2020/trip/v.mkv"),
        "/thumbs/64x64/media/2020/trip/v.mkv.jpg"
    );
    // A file right under the root has no parent component.
    assert_eq!(thumb_artifact_path("/thumbs", 32, "/p.jpg"), "/thumbs/32x32/p.jpg.jpg");
}

#[test]
fn picture_converter_arguments_are_exact() {
    let args = picture_convert_args("/m/p.jpg", 128, "/thumbs/128x128/m/p.jpg.jpg");
    assert_eq!(
        args,
        vec![
            "/m/p.jpg",
            "-auto-orient",
            "-thumbnail",
            "128x128>",
            "-background",
            "white",
            "-gravity",
            "center",
            "-extent",
            "128x128",
            "/thumbs/128x128/m/p.jpg.jpg",
        ]
    );
}

#[test]
fn video_converter_arguments_are_exact() {
    let dst = "/thumbs/64x64/m/v.mkv.jpg";
    assert_eq!(video_frame_args("/m/v.mkv", dst), vec!["-i", "/m/v.mkv", "-vframes", "1", dst, "-y"]);
    assert_eq!(
        video_convert_args(64, dst),
        vec![
            dst,
            "-thumbnail",
            "64x64>",
            "-background",
            "white",
            "-gravity",
            "center",
            "-extent",
            "64x64",
            dst,
        ]
    );
    assert_eq!(
        video_overlay_args(dst),
        vec!["-dissolve", "50", "-gravity", "Center", "play256.png", dst, "-alpha", "Set", dst]
    );
}

#[test]
fn plan_skips_non_media_sources() {
    assert!(matches!(thumbnail_plan("/t", 128, "/m/a.txt", false), ThumbnailPlan::NotApplicable));
    assert!(matches!(thumbnail_plan("/t", 128, "/m/a.txt", true), ThumbnailPlan::NotApplicable));
}

#[test]
fn plan_builds_once_then_hits_the_cache() {
    let first = thumbnail_plan("/t", 128, "/m/p.jpg", false);
    let built = match first {
        ThumbnailPlan::BuildImage { artifact, convert } => {
            assert_eq!(artifact, "/t/128x128/m/p.jpg.jpg");
            assert_eq!(convert.first().map(String::as_str), Some("/m/p.jpg"));
            assert_eq!(convert.last().map(String::as_str), Some(artifact.as_str()));
            artifact
        },
        _ => panic!("a fresh image key must be built"),
    };
    let second = thumbnail_plan("/t", 128, "/m/p.jpg", true);
    match second {
        ThumbnailPlan::CacheHit { artifact } => assert_eq!(artifact, built),
        _ => panic!("an existing artifact must be served, not rebuilt"),
    }
}

#[test]
fn plan_runs_three_steps_for_videos() {
    match thumbnail_plan("/t", 64, "/m/v.mp4", false) {
        ThumbnailPlan::BuildVideo { artifact, frame, convert, overlay } => {
            assert_eq!(artifact, "/t/64x64/m/v.mp4.jpg");
            assert_eq!(frame, video_frame_args("/m/v.mp4", &artifact));
            assert_eq!(convert, video_convert_args(64, &artifact));
            assert_eq!(overlay, video_overlay_args(&artifact));
        },
        _ => panic!("a fresh video key must be built"),
    }
}
