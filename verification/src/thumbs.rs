//! The thumbnail cache: content-addressed artifact locations and the
//! converter invocations that build them.
//!
//! The library decides; running the converters and touching the disk is
//! the caller's work.  The artifact location is a pure function of the
//! key `(size, source path)`, which makes the cache idempotent: a built
//! artifact is found again and never rebuilt.

use vstd::prelude::*;

use crate::paths::{basename, basename_of, extension, stripped_parent, stripped_parent_of};
use crate::strings::{dec_of, lower_seq, u64_to_dec};
use crate::paths::extension_matches;

verus! {

/// What a source file is to the thumbnailer.
#[derive(Debug, Copy, Clone, PartialEq, Eq, Structural)]
pub enum MediaKind {
    Image,
    Video,
    Other,
}

/// The image extensions, ASCII case set aside.
pub open spec fn is_image_ext(e: Seq<char>) -> bool {
    ||| lower_seq(e) == lower_seq("png"@)
    ||| lower_seq(e) == lower_seq("bmp"@)
    ||| lower_seq(e) == lower_seq("jpg"@)
    ||| lower_seq(e) == lower_seq("gif"@)
}

/// The video extensions, ASCII case set aside.
pub open spec fn is_video_ext(e: Seq<char>) -> bool {
    ||| lower_seq(e) == lower_seq("mkv"@)
    ||| lower_seq(e) == lower_seq("mp4"@)
    ||| lower_seq(e) == lower_seq("avi"@)
    ||| lower_seq(e) == lower_seq("mov"@)
    ||| lower_seq(e) == lower_seq("webm"@)
}

/// The media kind of a path, read off its extension.
pub open spec fn spec_media_kind(path: Seq<char>) -> MediaKind {
    match extension(path) {
        Some(e) => {
            if is_image_ext(e) {
                MediaKind::Image
            } else if is_video_ext(e) {
                MediaKind::Video
            } else {
                MediaKind::Other
            }
        },
        None => MediaKind::Other,
    }
}

/// Classifies a path by its extension.
pub fn media_kind(path: &str) -> (k: MediaKind)
    ensures
        k == spec_media_kind(path@),
{
    if extension_matches(path, "png") || extension_matches(path, "bmp") || extension_matches(
        path,
        "jpg",
    ) || extension_matches(path, "gif") {
        MediaKind::Image
    } else if extension_matches(path, "mkv") || extension_matches(path, "mp4")
        || extension_matches(path, "avi") || extension_matches(path, "mov") || extension_matches(
        path,
        "webm",
    ) {
        MediaKind::Video
    } else {
        MediaKind::Other
    }
}

/// Whether a file can be previewed: it is an image or a video.
pub fn is_previewable_file(file: &str) -> (r: bool)
    ensures
        r == (spec_media_kind(file@) is Image || spec_media_kind(file@) is Video),
{
    let k = media_kind(file);
    match k {
        MediaKind::Image => true,
        MediaKind::Video => true,
        MediaKind::Other => false,
    }
}

/// The directory the artifact of `(size, source)` lives in:
/// `<root>/<size>x<size>/<source-parent-without-leading-slash>`.
pub open spec fn spec_thumb_folder_path(root: Seq<char>, size: u64, source: Seq<char>) -> Seq<
    char,
> {
    let base = root + "/"@ + dec_of(size as nat) + "x"@ + dec_of(size as nat);
    if stripped_parent(source).len() > 0 {
        base + "/"@ + stripped_parent(source)
    } else {
        base
    }
}

/// The artifact location itself: the source basename with `.jpg`
/// appended, inside the thumbnail directory.
pub open spec fn spec_thumb_artifact_path(root: Seq<char>, size: u64, source: Seq<char>) -> Seq<
    char,
> {
    spec_thumb_folder_path(root, size, source) + "/"@ + basename(source) + ".jpg"@
}

/// The thumbnail directory of a source file.
pub fn generate_thumb_folder_path(thumb_root: &str, size: u64, original_path: &str) -> (r: String)
    ensures
        r@ == spec_thumb_folder_path(thumb_root@, size, original_path@),
{
    let mut r = thumb_root.to_owned();
    let dec = u64_to_dec(size);
    r.append("/");
    r.append(dec.as_str());
    r.append("x");
    r.append(dec.as_str());
    let parent = stripped_parent_of(original_path);
    if parent.unicode_len() > 0 {
        r.append("/");
        r.append(parent);
    }
    r
}

/// The artifact location of a thumbnail key.
pub fn thumb_artifact_path(thumb_root: &str, size: u64, original_path: &str) -> (r: String)
    ensures
        r@ == spec_thumb_artifact_path(thumb_root@, size, original_path@),
{
    let mut r = generate_thumb_folder_path(thumb_root, size, original_path);
    r.append("/");
    r.append(basename_of(original_path));
    r.append(".jpg");
    r
}

/// `<size>x<size>`, the exact-extent geometry argument.
pub open spec fn spec_geometry(size: u64) -> Seq<char> {
    dec_of(size as nat) + "x"@ + dec_of(size as nat)
}

/// `<size>x<size>>`, the shrink-only geometry argument.
pub open spec fn spec_fit_geometry(size: u64) -> Seq<char> {
    spec_geometry(size) + ">"@
}

/// The image converter's arguments: fit within the square preserving
/// aspect, then pad to the exact square on white.
pub open spec fn spec_picture_convert_args(src: Seq<char>, size: u64, dst: Seq<char>) -> Seq<
    Seq<char>,
> {
    seq![
        src,
        "-auto-orient"@,
        "-thumbnail"@,
        spec_fit_geometry(size),
        "-background"@,
        "white"@,
        "-gravity"@,
        "center"@,
        "-extent"@,
        spec_geometry(size),
        dst,
    ]
}

/// The same pipeline run on the extracted video frame, in place and
/// without re-orientation.
pub open spec fn spec_video_convert_args(size: u64, dst: Seq<char>) -> Seq<Seq<char>> {
    seq![
        dst,
        "-thumbnail"@,
        spec_fit_geometry(size),
        "-background"@,
        "white"@,
        "-gravity"@,
        "center"@,
        "-extent"@,
        spec_geometry(size),
        dst,
    ]
}

/// The frame extractor's arguments: the first video frame, overwriting.
pub open spec fn spec_video_frame_args(src: Seq<char>, dst: Seq<char>) -> Seq<Seq<char>> {
    seq!["-i"@, src, "-vframes"@, "1"@, dst, "-y"@]
}

/// The overlay compositor's arguments: the play badge at half dissolve,
/// centered onto the artifact.
pub open spec fn spec_video_overlay_args(dst: Seq<char>) -> Seq<Seq<char>> {
    seq![
        "-dissolve"@,
        "50"@,
        "-gravity"@,
        "Center"@,
        "play256.png"@,
        dst,
        "-alpha"@,
        "Set"@,
        dst,
    ]
}

/// Builds `<size>x<size>`.
fn geometry(size: u64) -> (r: String)
    ensures
        r@ == spec_geometry(size),
{
    let dec = u64_to_dec(size);
    let mut r = dec.clone();
    r.append("x");
    r.append(dec.as_str());
    r
}

/// The image converter's arguments.
pub fn picture_convert_args(src: &str, size: u64, dst: &str) -> (r: Vec<String>)
    ensures
        r.deep_view() == spec_picture_convert_args(src@, size, dst@),
{
    let mut fit = geometry(size);
    fit.append(">");
    let exact = geometry(size);
    let mut r: Vec<String> = Vec::new();
    r.push(src.to_owned());
    r.push("-auto-orient".to_owned());
    r.push("-thumbnail".to_owned());
    r.push(fit);
    r.push("-background".to_owned());
    r.push("white".to_owned());
    r.push("-gravity".to_owned());
    r.push("center".to_owned());
    r.push("-extent".to_owned());
    r.push(exact);
    r.push(dst.to_owned());
    proof {
        assert(r.deep_view() =~= spec_picture_convert_args(src@, size, dst@));
    }
    r
}

/// The in-place converter arguments for a video frame.
pub fn video_convert_args(size: u64, dst: &str) -> (r: Vec<String>)
    ensures
        r.deep_view() == spec_video_convert_args(size, dst@),
{
    let mut fit = geometry(size);
    fit.append(">");
    let exact = geometry(size);
    let mut r: Vec<String> = Vec::new();
    r.push(dst.to_owned());
    r.push("-thumbnail".to_owned());
    r.push(fit);
    r.push("-background".to_owned());
    r.push("white".to_owned());
    r.push("-gravity".to_owned());
    r.push("center".to_owned());
    r.push("-extent".to_owned());
    r.push(exact);
    r.push(dst.to_owned());
    proof {
        assert(r.deep_view() =~= spec_video_convert_args(size, dst@));
    }
    r
}

/// The frame extractor's arguments.
pub fn video_frame_args(src: &str, dst: &str) -> (r: Vec<String>)
    ensures
        r.deep_view() == spec_video_frame_args(src@, dst@),
{
    let mut r: Vec<String> = Vec::new();
    r.push("-i".to_owned());
    r.push(src.to_owned());
    r.push("-vframes".to_owned());
    r.push("1".to_owned());
    r.push(dst.to_owned());
    r.push("-y".to_owned());
    proof {
        assert(r.deep_view() =~= spec_video_frame_args(src@, dst@));
    }
    r
}

/// The overlay compositor's arguments.
pub fn video_overlay_args(dst: &str) -> (r: Vec<String>)
    ensures
        r.deep_view() == spec_video_overlay_args(dst@),
{
    let mut r: Vec<String> = Vec::new();
    r.push("-dissolve".to_owned());
    r.push("50".to_owned());
    r.push("-gravity".to_owned());
    r.push("Center".to_owned());
    r.push("play256.png".to_owned());
    r.push(dst.to_owned());
    r.push("-alpha".to_owned());
    r.push("Set".to_owned());
    r.push(dst.to_owned());
    proof {
        assert(r.deep_view() =~= spec_video_overlay_args(dst@));
    }
    r
}

/// What one thumbnail request comes to.
pub enum ThumbnailPlan {
    /// The source is no media file.
    NotApplicable,
    /// The artifact already exists: serve it, run nothing.
    CacheHit { artifact: String },
    /// Build an image thumbnail with one converter run.
    BuildImage { artifact: String, convert: Vec<String> },
    /// Build a video thumbnail: extract a frame, shrink it in place,
    /// then composite the play badge onto it.
    BuildVideo {
        artifact: String,
        frame: Vec<String>,
        convert: Vec<String>,
        overlay: Vec<String>,
    },
}

/// The artifact a plan ends at, as characters.
pub open spec fn plan_artifact(p: ThumbnailPlan) -> Option<Seq<char>> {
    match p {
        ThumbnailPlan::NotApplicable => None,
        ThumbnailPlan::CacheHit { artifact } => Some(artifact@),
        ThumbnailPlan::BuildImage { artifact, .. } => Some(artifact@),
        ThumbnailPlan::BuildVideo { artifact, .. } => Some(artifact@),
    }
}

/// Decides one thumbnail request: nothing for a non-media source, the
/// existing artifact untouched on a cache hit, and otherwise the exact
/// converter invocations that produce the artifact at its deterministic
/// location.
pub fn thumbnail_plan(thumb_root: &str, size: u64, source: &str, artifact_exists: bool) -> (p:
    ThumbnailPlan)
    ensures
        spec_media_kind(source@) is Other ==> p is NotApplicable,
        spec_media_kind(source@) !== MediaKind::Other ==> plan_artifact(p) == Some(
            spec_thumb_artifact_path(thumb_root@, size, source@),
        ),
        (spec_media_kind(source@) !== MediaKind::Other && artifact_exists) ==> p is CacheHit,
        (spec_media_kind(source@) is Image && !artifact_exists) ==> (p matches
            ThumbnailPlan::BuildImage { artifact, convert } && convert.deep_view()
            == spec_picture_convert_args(
            source@,
            size,
            spec_thumb_artifact_path(thumb_root@, size, source@),
        )),
        (spec_media_kind(source@) is Video && !artifact_exists) ==> (p matches
            ThumbnailPlan::BuildVideo { artifact, frame, convert, overlay } && frame.deep_view()
            == spec_video_frame_args(
            source@,
            spec_thumb_artifact_path(thumb_root@, size, source@),
        ) && convert.deep_view() == spec_video_convert_args(
            size,
            spec_thumb_artifact_path(thumb_root@, size, source@),
        ) && overlay.deep_view() == spec_video_overlay_args(
            spec_thumb_artifact_path(thumb_root@, size, source@),
        )),
{
    let kind = media_kind(source);
    match kind {
        MediaKind::Other => ThumbnailPlan::NotApplicable,
        MediaKind::Image => {
            let artifact = thumb_artifact_path(thumb_root, size, source);
            if artifact_exists {
                ThumbnailPlan::CacheHit { artifact }
            } else {
                let convert = picture_convert_args(source, size, artifact.as_str());
                ThumbnailPlan::BuildImage { artifact, convert }
            }
        },
        MediaKind::Video => {
            let artifact = thumb_artifact_path(thumb_root, size, source);
            if artifact_exists {
                ThumbnailPlan::CacheHit { artifact }
            } else {
                let frame = video_frame_args(source, artifact.as_str());
                let convert = video_convert_args(size, artifact.as_str());
                let overlay = video_overlay_args(artifact.as_str());
                ThumbnailPlan::BuildVideo { artifact, frame, convert, overlay }
            }
        },
    }
}

/// Thumbnail idempotence: the artifact location is a function of the key
/// alone, so once a build has succeeded, a repeat request for the same
/// key — the artifact now on disk — is a cache hit on exactly the path
/// the build produced, and runs no converter.
pub proof fn lemma_thumbnail_idempotent(
    thumb_root: &str,
    size: u64,
    source: &str,
    first: ThumbnailPlan,
    second: ThumbnailPlan,
)
    requires
        call_ensures(thumbnail_plan, (thumb_root, size, source, false), first),
        call_ensures(thumbnail_plan, (thumb_root, size, source, true), second),
        first matches ThumbnailPlan::BuildImage { .. } || first matches ThumbnailPlan::BuildVideo {
            ..
        },
    ensures
        second is CacheHit,
        plan_artifact(second) == plan_artifact(first),
{
}

} // verus!
