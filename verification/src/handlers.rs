//! The decision logic of the HTTP endpoints: who is let through, what is
//! served, and what each directory listing holds.
//!
//! Every function here decides from plain values — paths, flags and the
//! directory entries the caller enumerated — and leaves the actual I/O
//! to the caller.

use vstd::prelude::*;

use crate::file_type::FileType;
use crate::file_with_size::{fws_models, FileWithSize, FileWithSizeModel};
use crate::folder::folder_models;
use crate::options::{group_models, Options};
use crate::paths::{extension, extension_matches};
use crate::strings::{lower_seq, str_eq_str};
use crate::thumbs::{
    media_kind, spec_media_kind, spec_picture_convert_args,
    spec_thumb_artifact_path, spec_video_convert_args, spec_video_frame_args,
    spec_video_overlay_args, thumbnail_plan, MediaKind, ThumbnailPlan,
};

verus! {

/// The content type served for a file extension.  The table covers the
/// media the gallery handles and the common static-site types; anything
/// else is an opaque byte stream.
pub open spec fn spec_content_type(e: Seq<char>) -> Seq<char> {
    if lower_seq(e) == lower_seq("png"@) {
        "image/png"@
    } else if lower_seq(e) == lower_seq("jpg"@) || lower_seq(e) == lower_seq("jpeg"@) {
        "image/jpeg"@
    } else if lower_seq(e) == lower_seq("gif"@) {
        "image/gif"@
    } else if lower_seq(e) == lower_seq("bmp"@) {
        "image/bmp"@
    } else if lower_seq(e) == lower_seq("webp"@) {
        "image/webp"@
    } else if lower_seq(e) == lower_seq("svg"@) {
        "image/svg+xml"@
    } else if lower_seq(e) == lower_seq("ico"@) {
        "image/x-icon"@
    } else if lower_seq(e) == lower_seq("mp4"@) || lower_seq(e) == lower_seq("mkv"@) {
        "video/mp4"@
    } else if lower_seq(e) == lower_seq("avi"@) {
        "video/x-msvideo"@
    } else if lower_seq(e) == lower_seq("webm"@) {
        "video/webm"@
    } else if lower_seq(e) == lower_seq("ogv"@) {
        "video/ogg"@
    } else if lower_seq(e) == lower_seq("mpeg"@) {
        "video/mpeg"@
    } else if lower_seq(e) == lower_seq("mov"@) {
        "video/quicktime"@
    } else if lower_seq(e) == lower_seq("html"@) || lower_seq(e) == lower_seq("htm"@) {
        "text/html"@
    } else if lower_seq(e) == lower_seq("css"@) {
        "text/css"@
    } else if lower_seq(e) == lower_seq("js"@) {
        "application/javascript"@
    } else if lower_seq(e) == lower_seq("json"@) {
        "application/json"@
    } else if lower_seq(e) == lower_seq("txt"@) {
        "text/plain"@
    } else if lower_seq(e) == lower_seq("pdf"@) {
        "application/pdf"@
    } else {
        "application/octet-stream"@
    }
}

/// The content type a path is served with, inferred from its extension;
/// a path without one is an opaque byte stream.
pub open spec fn spec_content_type_for_path(p: Seq<char>) -> Seq<char> {
    match extension(p) {
        Some(e) => spec_content_type(e),
        None => "application/octet-stream"@,
    }
}

/// Infers the content type of a path from its extension.
pub fn content_type_for_path(path: &str) -> (r: &'static str)
    ensures
        r@ == spec_content_type_for_path(path@),
{
    if extension_matches(path, "png") {
        "image/png"
    } else if extension_matches(path, "jpg") || extension_matches(path, "jpeg") {
        "image/jpeg"
    } else if extension_matches(path, "gif") {
        "image/gif"
    } else if extension_matches(path, "bmp") {
        "image/bmp"
    } else if extension_matches(path, "webp") {
        "image/webp"
    } else if extension_matches(path, "svg") {
        "image/svg+xml"
    } else if extension_matches(path, "ico") {
        "image/x-icon"
    } else if extension_matches(path, "mp4") || extension_matches(path, "mkv") {
        "video/mp4"
    } else if extension_matches(path, "avi") {
        "video/x-msvideo"
    } else if extension_matches(path, "webm") {
        "video/webm"
    } else if extension_matches(path, "ogv") {
        "video/ogg"
    } else if extension_matches(path, "mpeg") {
        "video/mpeg"
    } else if extension_matches(path, "mov") {
        "video/quicktime"
    } else if extension_matches(path, "html") || extension_matches(path, "htm") {
        "text/html"
    } else if extension_matches(path, "css") {
        "text/css"
    } else if extension_matches(path, "js") {
        "application/javascript"
    } else if extension_matches(path, "json") {
        "application/json"
    } else if extension_matches(path, "txt") {
        "text/plain"
    } else if extension_matches(path, "pdf") {
        "application/pdf"
    } else {
        "application/octet-stream"
    }
}

/// What the media-file endpoint answers.
pub enum PathOutcome {
    Unauthorized,
    NotFound,
    Stream { content_type: String },
}

/// Decides a media-file request: refused without access; not found for a
/// missing extension, a directory, or a non-media extension; otherwise
/// the file is streamed under its inferred content type.  The access
/// check and a successful stream are audited.
pub fn path_decision(options: &Options, email: &str, path: &str, is_dir: bool) -> (r: PathOutcome)
    ensures
        ({
            let allowed = options.spec_is_folder_allowed(path@, email@);
            let media = spec_media_kind(path@) is Image || spec_media_kind(path@) is Video;
            &&& !allowed ==> r is Unauthorized
            &&& allowed && extension(path@) is None ==> r is NotFound
            &&& allowed && extension(path@) is Some && is_dir ==> r is NotFound
            &&& allowed && extension(path@) is Some && !is_dir && !media ==> r is NotFound
            &&& allowed && extension(path@) is Some && !is_dir && media ==> (r matches
                PathOutcome::Stream { content_type } && content_type@ == spec_content_type_for_path(
                path@,
            ))
        }),
{
    let allowed = options.check_access(path, email, is_dir);
    if !allowed {
        return PathOutcome::Unauthorized;
    }
    let has_extension = match crate::paths::extension_of(path) {
        Some(_) => true,
        None => false,
    };
    if !has_extension {
        return PathOutcome::NotFound;
    }
    if is_dir {
        return PathOutcome::NotFound;
    }
    let kind = media_kind(path);
    match kind {
        MediaKind::Other => PathOutcome::NotFound,
        _ => {
            options.audit(email, "image/video", path, "get", true);
            let content_type = content_type_for_path(path).to_owned();
            PathOutcome::Stream { content_type }
        },
    }
}

/// What the static-site endpoints answer.
pub enum SiteOutcome {
    Unauthorized,
    ServeFile,
    ServeIndex,
    NotFound,
}

/// Decides a static-site request: an unknown identity is refused, an
/// existing file is served, anything else falls back to the index page
/// for the client-side router, and a missing index is the only way to a
/// not-found.
pub fn site_decision(identity_ok: bool, file_exists: bool, index_exists: bool) -> (r: SiteOutcome)
    ensures
        !identity_ok ==> r is Unauthorized,
        identity_ok && file_exists ==> r is ServeFile,
        identity_ok && !file_exists && index_exists ==> r is ServeIndex,
        identity_ok && !file_exists && !index_exists ==> r is NotFound,
{
    if !identity_ok {
        SiteOutcome::Unauthorized
    } else if file_exists {
        SiteOutcome::ServeFile
    } else if index_exists {
        SiteOutcome::ServeIndex
    } else {
        SiteOutcome::NotFound
    }
}

/// Decides a root request: an unknown identity is refused, anyone else
/// gets the index page.
pub fn root_decision(identity_ok: bool) -> (r: SiteOutcome)
    ensures
        !identity_ok ==> r is Unauthorized,
        identity_ok ==> r is ServeIndex,
{
    if identity_ok {
        SiteOutcome::ServeIndex
    } else {
        SiteOutcome::Unauthorized
    }
}

/// What the thumbnail endpoint answers.
pub enum ThumbOutcome {
    Unauthorized,
    NotFound,
    Media(ThumbnailPlan),
}

/// Decides a thumbnail request: refused without access on the source
/// path, nothing for a directory, and for a media file the plan that
/// serves or builds the artifact at its deterministic location.  The
/// access check is audited.
pub fn thumb_decision(
    options: &Options,
    email: &str,
    max_size: u64,
    path: &str,
    is_dir: bool,
    artifact_exists: bool,
) -> (r: ThumbOutcome)
    ensures
        ({
            let allowed = options.spec_is_folder_allowed(path@, email@);
            let artifact = spec_thumb_artifact_path(
                options.thumb_folder_path@,
                max_size,
                path@,
            );
            &&& !allowed ==> r is Unauthorized
            &&& allowed && is_dir ==> r is NotFound
            &&& allowed && !is_dir && spec_media_kind(path@) is Other ==> r is NotFound
            &&& allowed && !is_dir && !(spec_media_kind(path@) is Other) ==> (r matches
                ThumbOutcome::Media(p) && crate::thumbs::plan_artifact(p) == Some(artifact) && (
                artifact_exists ==> p is CacheHit) && (spec_media_kind(path@) is Image
                && !artifact_exists ==> (p matches ThumbnailPlan::BuildImage { convert, .. }
                && convert.deep_view() == spec_picture_convert_args(path@, max_size, artifact)))
                && (spec_media_kind(path@) is Video && !artifact_exists ==> (p matches
                ThumbnailPlan::BuildVideo { frame, convert, overlay, .. } && frame.deep_view()
                == spec_video_frame_args(path@, artifact) && convert.deep_view()
                == spec_video_convert_args(max_size, artifact) && overlay.deep_view()
                == spec_video_overlay_args(artifact))))
        }),
{
    let allowed = options.check_access(path, email, is_dir);
    if !allowed {
        return ThumbOutcome::Unauthorized;
    }
    if is_dir {
        return ThumbOutcome::NotFound;
    }
    let kind = media_kind(path);
    match kind {
        MediaKind::Other => ThumbOutcome::NotFound,
        _ => ThumbOutcome::Media(
            thumbnail_plan(options.thumb_folder_path.as_str(), max_size, path, artifact_exists),
        ),
    }
}

/// One entry of the directory the caller enumerated.
#[derive(Debug)]
pub struct DirEntry {
    pub path: String,
    pub is_dir: bool,
    pub size: u64,
}

/// The mathematical content of a [`DirEntry`].
pub struct DirEntryModel {
    pub path: Seq<char>,
    pub is_dir: bool,
    pub size: u64,
}

impl View for DirEntry {
    type V = DirEntryModel;

    open spec fn view(&self) -> DirEntryModel {
        DirEntryModel { path: self.path@, is_dir: self.is_dir, size: self.size }
    }
}

/// The models of a directory enumeration.
pub open spec fn entry_models(s: Seq<DirEntry>) -> Seq<DirEntryModel> {
    s.map_values(|e: DirEntry| e@)
}

/// Whether one entry belongs to a listing of the given kind, for the
/// given user: previews are media files, extras are the other files, and
/// folders are the subdirectories the user may enter.
pub open spec fn entry_selected(
    fm: Seq<crate::folder::FolderModel>,
    gm: Seq<crate::engine::GroupModel>,
    file_type: FileType,
    email: Seq<char>,
    e: DirEntryModel,
) -> bool {
    let media = spec_media_kind(e.path) is Image || spec_media_kind(e.path) is Video;
    match file_type {
        FileType::Preview => !e.is_dir && media,
        FileType::Extra => !e.is_dir && !media,
        FileType::Folder => e.is_dir && crate::engine::spec_is_allowed(fm, gm, e.path, email),
    }
}

/// What a selected entry is listed as: files carry their size, folders
/// do not.
pub open spec fn entry_listed(file_type: FileType, e: DirEntryModel) -> FileWithSizeModel {
    match file_type {
        FileType::Folder => FileWithSizeModel { path: e.path, size: None },
        _ => FileWithSizeModel { path: e.path, size: Some(e.size) },
    }
}

/// The listing of a directory enumeration: the selected entries, in
/// enumeration order.
pub open spec fn spec_list_entries(
    fm: Seq<crate::folder::FolderModel>,
    gm: Seq<crate::engine::GroupModel>,
    file_type: FileType,
    email: Seq<char>,
    entries: Seq<DirEntryModel>,
) -> Seq<FileWithSizeModel>
    decreases entries.len(),
{
    if entries.len() == 0 {
        Seq::empty()
    } else {
        let rest = spec_list_entries(fm, gm, file_type, email, entries.drop_last());
        if entry_selected(fm, gm, file_type, email, entries.last()) {
            rest.push(entry_listed(file_type, entries.last()))
        } else {
            rest
        }
    }
}

/// What the listing endpoint answers.
pub enum ListOutcome {
    Unauthorized,
    Listing(Vec<FileWithSize>),
}

/// Decides a listing request on an enumerated directory: refused without
/// access on the directory; otherwise the partition the kind asks for —
/// media files with sizes, other files with sizes, or the subdirectories
/// the user may enter.  The access check and the listing are audited.
pub fn list_files_decision(
    options: &Options,
    email: &str,
    file_type: FileType,
    dir_path: &str,
    is_dir: bool,
    entries: &Vec<DirEntry>,
) -> (r: ListOutcome)
    ensures
        !options.spec_is_folder_allowed(dir_path@, email@) ==> r is Unauthorized,
        options.spec_is_folder_allowed(dir_path@, email@) ==> (r matches ListOutcome::Listing(v)
            && fws_models(v@) == spec_list_entries(
            folder_models(options.folders@),
            group_models(options.groups@),
            file_type,
            email@,
            entry_models(entries@),
        )),
{
    let ghost fm = folder_models(options.folders@);
    let ghost gm = group_models(options.groups@);
    let ghost em = entry_models(entries@);
    let allowed = options.check_access(dir_path, email, is_dir);
    if !allowed {
        return ListOutcome::Unauthorized;
    }
    let mut items: Vec<FileWithSize> = Vec::new();
    let mut i: usize = 0;
    proof {
        assert(fws_models(items@) =~= spec_list_entries(fm, gm, file_type, email@, em.take(0)));
    }
    while i < entries.len()
        invariant
            i <= em.len(),
            em == entry_models(entries@),
            fm == folder_models(options.folders@),
            gm == group_models(options.groups@),
            fws_models(items@) == spec_list_entries(fm, gm, file_type, email@, em.take(i as int)),
        decreases em.len() - i,
    {
        let ghost items0 = fws_models(items@);
        let entry = &entries[i];
        proof {
            assert(em.take(i + 1).drop_last() =~= em.take(i as int));
            assert(em.take(i + 1).last() == em[i as int]);
            assert(em[i as int] == entries@[i as int]@);
        }
        let selected = match file_type {
            FileType::Preview => !entry.is_dir && crate::thumbs::is_previewable_file(
                entry.path.as_str(),
            ),
            FileType::Extra => !entry.is_dir && !crate::thumbs::is_previewable_file(
                entry.path.as_str(),
            ),
            FileType::Folder => entry.is_dir && options.is_folder_allowed(
                entry.path.as_str(),
                email,
            ),
        };
        if selected {
            let listed = match file_type {
                FileType::Folder => FileWithSize::without_size(entry.path.clone()),
                _ => FileWithSize::with_size(entry.path.clone(), entry.size),
            };
            items.push(listed);
            proof {
                assert(fws_models(items@) =~= items0.push(
                    entry_listed(file_type, em[i as int]),
                ));
            }
        }
        i += 1;
    }
    proof {
        assert(em.take(em.len() as int) =~= em);
    }
    let kind_name = match file_type {
        FileType::Preview => "preview",
        FileType::Extra => "extra",
        FileType::Folder => "folder",
    };
    options.audit(email, kind_name, dir_path, "list", true);
    ListOutcome::Listing(items)
}

/// The value under the first occurrence of an email among the
/// precomputed first-level lists.
pub open spec fn folders_lookup(s: Seq<(Seq<char>, Seq<Seq<char>>)>, k: Seq<char>) -> Option<
    Seq<Seq<char>>,
>
    decreases s.len(),
{
    if s.len() == 0 {
        None
    } else if s.first().0 == k {
        Some(s.first().1)
    } else {
        folders_lookup(s.drop_first(), k)
    }
}

/// Looking past mismatching entries changes nothing.
proof fn lemma_folders_lookup_skip(s: Seq<(Seq<char>, Seq<Seq<char>>)>, k: Seq<char>, i: int)
    requires
        0 <= i <= s.len(),
        forall|j: int| 0 <= j < i ==> (#[trigger] s[j]).0 != k,
    ensures
        folders_lookup(s, k) == folders_lookup(s.skip(i), k),
    decreases i,
{
    if i == 0 {
        assert(s.skip(0) =~= s);
    } else {
        assert(s.first().0 != k);
        assert(s.drop_first().skip(i - 1) =~= s.skip(i));
        assert(forall|j: int| 0 <= j < i - 1 ==> s.drop_first()[j] == s[j + 1]);
        lemma_folders_lookup_skip(s.drop_first(), k, i - 1);
    }
}

/// What the first-level endpoint answers.
pub enum FirstLevelOutcome {
    Unauthorized,
    Folders(Vec<String>),
    Unknown,
}

/// Decides a first-level request against the precomputed table: an
/// unknown identity is refused, a known one receives its precomputed
/// folder list.  A forced identity outside every group is admitted but
/// has no entry.  The request is audited.
pub fn first_level_decision(
    options: &Options,
    first_folders_by_email: &Vec<(String, Vec<String>)>,
    identity: &crate::forwarded_identity::ForwardedIdentity,
) -> (r: FirstLevelOutcome)
    ensures
        !crate::options::spec_identity_allowed(options, identity) ==> r is Unauthorized,
        crate::options::spec_identity_allowed(options, identity) ==> (match folders_lookup(
            first_folders_by_email.deep_view(),
            identity.email@,
        ) {
            Some(v) => r matches FirstLevelOutcome::Folders(f) && f.deep_view() == v,
            None => r is Unknown,
        }),
{
    options.audit(identity.email.as_str(), "first_level_folders", "", "list", true);
    if !options.identity_allowed(identity) {
        return FirstLevelOutcome::Unauthorized;
    }
    let ghost dv = first_folders_by_email.deep_view();
    let mut i: usize = 0;
    while i < first_folders_by_email.len()
        invariant
            i <= dv.len(),
            dv == first_folders_by_email.deep_view(),
            crate::options::spec_identity_allowed(options, identity),
            forall|j: int| 0 <= j < i ==> (#[trigger] dv[j]).0 != identity.email@,
        decreases dv.len() - i,
    {
        if str_eq_str(first_folders_by_email[i].0.as_str(), identity.email.as_str()) {
            proof {
                assert(dv[i as int] == first_folders_by_email@[i as int].deep_view());
                lemma_folders_lookup_skip(dv, identity.email@, i as int);
                assert(dv.skip(i as int).first() == dv[i as int]);
            }
            let folders = first_folders_by_email[i].1.clone();
            proof {
                assert(folders.deep_view() =~= dv[i as int].1);
            }
            return FirstLevelOutcome::Folders(folders);
        }
        i += 1;
    }
    proof {
        lemma_folders_lookup_skip(dv, identity.email@, dv.len() as int);
        assert(dv.skip(dv.len() as int).len() == 0);
    }
    FirstLevelOutcome::Unknown
}

} // verus!
