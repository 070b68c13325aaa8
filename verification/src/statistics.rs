//! The metrics registry: monotonically non-decreasing in-memory
//! counters, rendered in the Prometheus text exposition format.
//!
//! Counting is verified library logic; the exposition text is produced
//! by the exporter crate behind trusted wrappers whose contracts state
//! the exact text the crate's source shows.

use vstd::prelude::*;

use crate::file_type::FileType;
use crate::options::Options;
use crate::strings::{dec_of, str_eq_str};
use prometheus_exporter_base::{MetricType, PrometheusInstance, PrometheusMetric};

verus! {

/// A counter bump that cannot overflow: pinned at the top of `u64`.
pub open spec fn sat_inc(v: u64) -> u64 {
    if v < u64::MAX {
        (v + 1) as u64
    } else {
        v
    }
}

/// Saturating counter increment.
fn sat_inc_exec(v: u64) -> (r: u64)
    ensures
        r == sat_inc(v),
{
    if v < u64::MAX {
        v + 1
    } else {
        v
    }
}

/// The value under the first occurrence of a key in a labelled series.
pub open spec fn series_lookup(s: Seq<(Seq<char>, u64)>, k: Seq<char>) -> Option<u64>
    decreases s.len(),
{
    if s.len() == 0 {
        None
    } else if s.first().0 == k {
        Some(s.first().1)
    } else {
        series_lookup(s.drop_first(), k)
    }
}

/// Every key occurs at most once.
pub open spec fn series_keys_distinct(s: Seq<(Seq<char>, u64)>) -> bool {
    forall|i: int, j: int| 0 <= i < j < s.len() ==> (#[trigger] s[i]).0 != (#[trigger] s[j]).0
}

/// Looking past key-mismatching entries changes nothing.
proof fn lemma_series_lookup_skip(s: Seq<(Seq<char>, u64)>, k: Seq<char>, i: int)
    requires
        0 <= i <= s.len(),
        forall|j: int| 0 <= j < i ==> (#[trigger] s[j]).0 != k,
    ensures
        series_lookup(s, k) == series_lookup(s.skip(i), k),
    decreases i,
{
    if i == 0 {
        assert(s.skip(0) =~= s);
    } else {
        assert(s.first().0 != k);
        assert(s.drop_first().skip(i - 1) =~= s.skip(i));
        assert(forall|j: int| 0 <= j < i - 1 ==> s.drop_first()[j] == s[j + 1]);
        lemma_series_lookup_skip(s.drop_first(), k, i - 1);
    }
}

/// A value update at one entry changes exactly that key's lookup.
proof fn lemma_series_lookup_update(s: Seq<(Seq<char>, u64)>, i: int, v: u64, k: Seq<char>)
    requires
        series_keys_distinct(s),
        0 <= i < s.len(),
    ensures
        series_lookup(s.update(i, (s[i].0, v)), k) == (if s[i].0 == k {
            Some(v)
        } else {
            series_lookup(s, k)
        }),
    decreases s.len(),
{
    let s2 = s.update(i, (s[i].0, v));
    if i == 0 {
        assert(s2.first() == (s[0].0, v));
        if s[0].0 != k {
            assert(s2.drop_first() =~= s.drop_first());
        }
    } else {
        assert(s2.first() == s.first());
        assert(s2.drop_first() =~= s.drop_first().update(i - 1, (s.drop_first()[i - 1].0, v)));
        assert(series_keys_distinct(s.drop_first())) by {
            assert(forall|a: int, b: int|
                0 <= a < b < s.drop_first().len() ==> s.drop_first()[a] == s[a + 1]
                    && s.drop_first()[b] == s[b + 1]);
        }
        lemma_series_lookup_update(s.drop_first(), i - 1, v, k);
        if s.first().0 == k {
            assert(s[i].0 != k);
        }
    }
}

/// A pushed entry answers for its key only when no earlier entry does.
proof fn lemma_series_lookup_push(s: Seq<(Seq<char>, u64)>, e: (Seq<char>, u64), k: Seq<char>)
    ensures
        series_lookup(s.push(e), k) == (if series_lookup(s, k) is Some {
            series_lookup(s, k)
        } else if e.0 == k {
            Some(e.1)
        } else {
            None
        }),
    decreases s.len(),
{
    if s.len() == 0 {
        assert(s.push(e).first() == e);
        assert(s.push(e).drop_first() =~= Seq::<(Seq<char>, u64)>::empty());
    } else {
        assert(s.push(e).first() == s.first());
        assert(s.push(e).drop_first() =~= s.drop_first().push(e));
        lemma_series_lookup_push(s.drop_first(), e, k);
    }
}

/// Bumps the counter under `page`, creating it at one on first sight.
fn inc_series(map: &mut Vec<(String, u64)>, page: &str)
    ensures
        series_keys_distinct(final(map).deep_view()) == series_keys_distinct(
            old(map).deep_view(),
        ),
        series_keys_distinct(old(map).deep_view()) ==> series_lookup(
            final(map).deep_view(),
            page@,
        ) == (match series_lookup(old(map).deep_view(), page@) {
            Some(v) => Some(sat_inc(v)),
            None => Some(1u64),
        }),
        series_keys_distinct(old(map).deep_view()) ==> forall|k: Seq<char>|
            k != page@ ==> #[trigger] series_lookup(final(map).deep_view(), k) == series_lookup(
                old(map).deep_view(),
                k,
            ),
{
    let ghost dv0 = map.deep_view();
    let mut i: usize = 0;
    while i < map.len()
        invariant
            i <= dv0.len(),
            dv0 == map.deep_view(),
            dv0 == old(map).deep_view(),
            map@ == old(map)@,
            map@.len() == dv0.len(),
            forall|j: int| 0 <= j < i ==> (#[trigger] dv0[j]).0 != page@,
        decreases dv0.len() - i,
    {
        if str_eq_str(map[i].0.as_str(), page) {
            let bumped = sat_inc_exec(map[i].1);
            let key = map[i].0.clone();
            let ghost ii = i as int;
            proof {
                assert(dv0[ii] == map@[ii].deep_view());
                assert(dv0[ii].0 == page@);
                assert(bumped == sat_inc(dv0[ii].1));
            }
            map.set(i, (key, bumped));
            proof {
                assert(map.deep_view() =~= dv0.update(ii, (dv0[ii].0, bumped)));
                if series_keys_distinct(dv0) {
                    lemma_series_lookup_skip(dv0, page@, ii);
                    assert(dv0.skip(ii).first() == dv0[ii]);
                    assert(series_lookup(dv0, page@) == Some(dv0[ii].1));
                    assert forall|k: Seq<char>| #[trigger]
                        series_lookup(map.deep_view(), k) == (if dv0[ii].0 == k {
                            Some(bumped)
                        } else {
                            series_lookup(dv0, k)
                        }) by {
                        lemma_series_lookup_update(dv0, ii, bumped, k);
                    }
                    assert forall|a: int, b: int|
                        0 <= a < b < map.deep_view().len() implies (#[trigger] map.deep_view()[
                        a]).0 != (#[trigger] map.deep_view()[b]).0 by {
                        assert(map.deep_view()[a].0 == dv0[a].0);
                        assert(map.deep_view()[b].0 == dv0[b].0);
                    }
                } else {
                    let (a, b): (int, int) = choose|a: int, b: int|
                        0 <= a < b < dv0.len() && (#[trigger] dv0[a]).0 == (#[trigger] dv0[b]).0;
                    assert(map.deep_view()[a].0 == map.deep_view()[b].0);
                    assert(!series_keys_distinct(map.deep_view()));
                }
            }
            return ;
        }
        i += 1;
    }
    let ghost n = dv0.len() as int;
    map.push((page.to_owned(), 1));
    proof {
        assert(map.deep_view() =~= dv0.push((page@, 1u64)));
        lemma_series_lookup_skip(dv0, page@, n);
        assert(dv0.skip(n).len() == 0);
        assert(series_lookup(dv0, page@) is None);
        assert forall|k: Seq<char>| #[trigger]
            series_lookup(map.deep_view(), k) == (if series_lookup(dv0, k) is Some {
                series_lookup(dv0, k)
            } else if k == page@ {
                Some(1u64)
            } else {
                None
            }) by {
            lemma_series_lookup_push(dv0, (page@, 1u64), k);
        }
        if series_keys_distinct(dv0) {
            assert forall|a: int, b: int|
                0 <= a < b < map.deep_view().len() implies (#[trigger] map.deep_view()[a]).0
                != (#[trigger] map.deep_view()[b]).0 by {
                if b == map.deep_view().len() - 1 {
                    assert(map.deep_view()[a].0 == dv0[a].0);
                    assert(dv0[a].0 != page@);
                } else {
                    assert(map.deep_view()[a].0 == dv0[a].0);
                    assert(map.deep_view()[b].0 == dv0[b].0);
                }
            }
        } else {
            let (a, b): (int, int) = choose|a: int, b: int|
                0 <= a < b < dv0.len() && (#[trigger] dv0[a]).0 == (#[trigger] dv0[b]).0;
            assert(map.deep_view()[a].0 == map.deep_view()[b].0);
            assert(!series_keys_distinct(map.deep_view()));
        }
    }
}

#[verifier::external_type_specification]
#[verifier::external_body]
pub struct ExPrometheusMetric<'a>(PrometheusMetric<'a>);

/// The metric name a rendered block will carry.
pub uninterp spec fn metric_name(m: PrometheusMetric) -> Seq<char>;

/// The help text a rendered block will carry.
pub uninterp spec fn metric_help(m: PrometheusMetric) -> Seq<char>;

/// The samples rendered into the metric so far, one text fragment each.
pub uninterp spec fn metric_lines(m: PrometheusMetric) -> Seq<Seq<char>>;

/// One labelled counter sample as the exporter renders it:
/// `{label="value"} count`.
pub open spec fn spec_labeled_sample(label: Seq<char>, value: Seq<char>, count: u64) -> Seq<char> {
    "{"@ + label + "=\""@ + value + "\"} "@ + dec_of(count as nat)
}

/// One unlabelled counter sample as the exporter renders it: ` count`.
pub open spec fn spec_plain_sample(count: u64) -> Seq<char> {
    " "@ + dec_of(count as nat)
}

/// The sample lines of a block, each prefixed with the metric name.
pub open spec fn spec_block_lines(name: Seq<char>, lines: Seq<Seq<char>>) -> Seq<char>
    decreases lines.len(),
{
    if lines.len() == 0 {
        Seq::empty()
    } else {
        spec_block_lines(name, lines.drop_last()) + name + lines.last() + "\n"@
    }
}

/// A whole counter block: the HELP and TYPE header, then the samples.
pub open spec fn spec_metric_block(
    name: Seq<char>,
    help: Seq<char>,
    lines: Seq<Seq<char>>,
) -> Seq<char> {
    "# HELP "@ + name + " "@ + help + "\n# TYPE "@ + name + " counter\n"@ + spec_block_lines(
        name,
        lines,
    )
}

/// Relies on `PrometheusMetric::build` and its builder: a counter metric
/// carrying the given name and help, with no samples yet.
#[verifier::external_body]
fn new_counter_metric<'a>(name: &'a str, help: &'a str) -> (m: PrometheusMetric<'a>)
    ensures
        metric_name(m) == name@,
        metric_help(m) == help@,
        metric_lines(m) == Seq::<Seq<char>>::empty(),
{
    PrometheusMetric::build().with_name(name).with_metric_type(MetricType::Counter).with_help(
        help,
    ).build()
}

/// Relies on `PrometheusMetric::render_and_append_instance` and the
/// rendering of a labelled `PrometheusInstance`: appends the sample
/// `{label="value"} count`.
#[verifier::external_body]
fn append_labeled_value<'a>(
    m: &mut PrometheusMetric<'a>,
    label: &'a str,
    value: &'a str,
    count: u64,
)
    ensures
        metric_name(*final(m)) == metric_name(*old(m)),
        metric_help(*final(m)) == metric_help(*old(m)),
        metric_lines(*final(m)) == metric_lines(*old(m)).push(
            spec_labeled_sample(label@, value@, count),
        ),
{
    m.render_and_append_instance(
        &PrometheusInstance::new().with_label(label, value).with_value(count),
    );
}

/// Relies on `PrometheusMetric::render_and_append_instance` and the
/// rendering of an unlabelled `PrometheusInstance`: appends ` count`.
#[verifier::external_body]
fn append_value(m: &mut PrometheusMetric, count: u64)
    ensures
        metric_name(*final(m)) == metric_name(*old(m)),
        metric_help(*final(m)) == metric_help(*old(m)),
        metric_lines(*final(m)) == metric_lines(*old(m)).push(spec_plain_sample(count)),
{
    m.render_and_append_instance(&PrometheusInstance::new().with_value(count));
}

/// Relies on `PrometheusMetric::render`: the HELP line, the TYPE line,
/// then every appended sample on a line of its own prefixed with the
/// metric name.
#[verifier::external_body]
fn render_metric(m: &PrometheusMetric) -> (r: String)
    ensures
        r@ == spec_metric_block(metric_name(*m), metric_help(*m), metric_lines(*m)),
{
    m.render()
}

/// A block with exactly one unlabelled sample.
pub open spec fn spec_plain_block(name: Seq<char>, help: Seq<char>, count: u64) -> Seq<char> {
    spec_metric_block(name, help, seq![spec_plain_sample(count)])
}

/// The sample fragments of a path-labelled series.
pub open spec fn spec_series_lines(label: Seq<char>, s: Seq<(Seq<char>, u64)>) -> Seq<Seq<char>> {
    s.map_values(|e: (Seq<char>, u64)| spec_labeled_sample(label, e.0, e.1))
}

/// A block carrying one sample per entry of a labelled series.
pub open spec fn spec_series_block(
    name: Seq<char>,
    help: Seq<char>,
    label: Seq<char>,
    s: Seq<(Seq<char>, u64)>,
) -> Seq<char> {
    spec_metric_block(name, help, spec_series_lines(label, s))
}

/// The block of the three listing counters, labelled by kind.
pub open spec fn spec_list_block(
    name: Seq<char>,
    help: Seq<char>,
    c: ListFileCounters,
) -> Seq<char> {
    spec_metric_block(
        name,
        help,
        seq![
            spec_labeled_sample("file_type"@, "Preview"@, c.preview),
            spec_labeled_sample("file_type"@, "Extra"@, c.extra),
            spec_labeled_sample("file_type"@, "Folder"@, c.folder),
        ],
    )
}

/// Renders a block with one unlabelled sample.
fn render_plain_counter(name: &str, help: &str, count: u64) -> (r: String)
    ensures
        r@ == spec_plain_block(name@, help@, count),
{
    let mut m = new_counter_metric(name, help);
    append_value(&mut m, count);
    proof {
        assert(metric_lines(m) =~= seq![spec_plain_sample(count)]);
    }
    render_metric(&m)
}

/// Renders a block with one sample per entry of a labelled series.
fn render_series_counter<'a>(
    name: &'a str,
    help: &'a str,
    label: &'a str,
    series: &'a Vec<(String, u64)>,
) -> (r: String)
    ensures
        r@ == spec_series_block(name@, help@, label@, series.deep_view()),
{
    let ghost dv = series.deep_view();
    let mut m = new_counter_metric(name, help);
    let mut i: usize = 0;
    proof {
        assert(metric_lines(m) =~= spec_series_lines(label@, dv.take(0)));
    }
    while i < series.len()
        invariant
            i <= dv.len(),
            dv == series.deep_view(),
            metric_name(m) == name@,
            metric_help(m) == help@,
            metric_lines(m) == spec_series_lines(label@, dv.take(i as int)),
        decreases dv.len() - i,
    {
        proof {
            assert(dv[i as int] == series@[i as int].deep_view());
        }
        append_labeled_value(&mut m, label, series[i].0.as_str(), series[i].1);
        proof {
            assert(dv.take(i + 1) =~= dv.take(i as int).push(dv[i as int]));
            assert(metric_lines(m) =~= spec_series_lines(label@, dv.take(i + 1)));
        }
        i += 1;
    }
    proof {
        assert(dv.take(dv.len() as int) =~= dv);
    }
    render_metric(&m)
}

/// Renders the block of the three listing counters.
fn render_list_files_counter(name: &str, help: &str, c: &ListFileCounters) -> (r: String)
    ensures
        r@ == spec_list_block(name@, help@, *c),
{
    let mut m = new_counter_metric(name, help);
    append_labeled_value(&mut m, "file_type", "Preview", c.preview);
    append_labeled_value(&mut m, "file_type", "Extra", c.extra);
    append_labeled_value(&mut m, "file_type", "Folder", c.folder);
    proof {
        assert(metric_lines(m) =~= seq![
            spec_labeled_sample("file_type"@, "Preview"@, c.preview),
            spec_labeled_sample("file_type"@, "Extra"@, c.extra),
            spec_labeled_sample("file_type"@, "Folder"@, c.folder),
        ]);
    }
    render_metric(&m)
}

/// The full exposition text of a registry: every block, in a fixed
/// order.
pub open spec fn spec_render_to_prometheus(s: Statistics) -> Seq<char> {
    spec_series_block(
        "nas_gallery_authorized_access_to_static_content"@,
        "Authorized access to static content"@,
        "path"@,
        s.authorized_static.deep_view(),
    ) + spec_series_block(
        "nas_gallery_unauthorized_access_to_static_content"@,
        "Unauthorized access to static content"@,
        "path"@,
        s.unauthorized_static.deep_view(),
    ) + spec_plain_block(
        "nas_gallery_authorized_access_to_dynamic_content"@,
        "Authorized access to dynamic content"@,
        s.authorized_dynamic,
    ) + spec_plain_block(
        "nas_gallery_authorized_not_found"@,
        "Authorized access to not found content"@,
        s.authorized_not_found,
    ) + spec_plain_block(
        "nas_gallery_authorized_thumb"@,
        "Authorized access to thumbnail"@,
        s.authorized_thumb,
    ) + spec_plain_block(
        "nas_gallery_unauthorized_thumb"@,
        "Authorized unaccess to thumbnail"@,
        s.unauthorized_thumb,
    ) + spec_plain_block(
        "nas_gallery_picture_thumb_access"@,
        "Authorized unaccess picute thumb"@,
        s.picture_thumb_access,
    ) + spec_plain_block(
        "nas_gallery_picture_thumb_generation"@,
        "Picture thumb generation (cache miss)"@,
        s.picture_thumb_generation,
    ) + spec_plain_block(
        "nas_gallery_video_thumb_access"@,
        "Authorized unaccess picute thumb"@,
        s.video_thumb_access,
    ) + spec_plain_block(
        "nas_gallery_video_thumb_generation"@,
        "Video thumb generation (cache miss)"@,
        s.video_thumb_generation,
    ) + spec_list_block(
        "nas_gallery_authorized_list_files"@,
        "Authorized list files"@,
        s.authorized_list_files,
    ) + spec_list_block(
        "nas_gallery_unauthorized_list_files"@,
        "Unauthorized list files"@,
        s.unauthorized_list_files,
    ) + spec_plain_block(
        "nas_gallery_authorized_first_level_folders"@,
        "Authorized enumeration of first level folders"@,
        s.authorized_first_level_folders,
    ) + spec_plain_block(
        "nas_gallery_unauthorized_first_level_folders"@,
        "Unauthorized enumeration of first level folders"@,
        s.unauthorized_first_level_folders,
    )
}

/// The three listing counters, one per listing kind.
pub struct ListFileCounters {
    pub preview: u64,
    pub extra: u64,
    pub folder: u64,
}

/// The listing counters with the counter of one kind bumped.
pub open spec fn spec_inc_list(c: ListFileCounters, file_type: FileType) -> ListFileCounters {
    match file_type {
        FileType::Preview => ListFileCounters { preview: sat_inc(c.preview), ..c },
        FileType::Extra => ListFileCounters { extra: sat_inc(c.extra), ..c },
        FileType::Folder => ListFileCounters { folder: sat_inc(c.folder), ..c },
    }
}

/// Every operational counter of the service.  All counters only ever
/// grow; the two labelled series are keyed by request path.
pub struct Statistics {
    pub authorized_static: Vec<(String, u64)>,
    pub unauthorized_static: Vec<(String, u64)>,
    pub unauthorized_dynamic: u64,
    pub authorized_dynamic: u64,
    pub authorized_not_found: u64,
    pub authorized_thumb: u64,
    pub unauthorized_thumb: u64,
    pub picture_thumb_access: u64,
    pub picture_thumb_generation: u64,
    pub video_thumb_access: u64,
    pub video_thumb_generation: u64,
    pub authorized_list_files: ListFileCounters,
    pub unauthorized_list_files: ListFileCounters,
    pub authorized_first_level_folders: u64,
    pub unauthorized_first_level_folders: u64,
}

impl Statistics {
    /// The labelled series never hold a key twice.
    pub open spec fn wf(&self) -> bool {
        series_keys_distinct(self.authorized_static.deep_view()) && series_keys_distinct(
            self.unauthorized_static.deep_view(),
        )
    }
}

impl Default for Statistics {
    /// A fresh registry: every counter at zero, every series present and
    /// empty.
    fn default() -> (r: Statistics)
        ensures
            r.wf(),
            r.authorized_static@.len() == 0,
            r.unauthorized_static@.len() == 0,
            r.unauthorized_dynamic == 0,
            r.authorized_dynamic == 0,
            r.authorized_not_found == 0,
            r.authorized_thumb == 0,
            r.unauthorized_thumb == 0,
            r.picture_thumb_access == 0,
            r.picture_thumb_generation == 0,
            r.video_thumb_access == 0,
            r.video_thumb_generation == 0,
            r.authorized_list_files == (ListFileCounters { preview: 0, extra: 0, folder: 0 }),
            r.unauthorized_list_files == (ListFileCounters { preview: 0, extra: 0, folder: 0 }),
            r.authorized_first_level_folders == 0,
            r.unauthorized_first_level_folders == 0,
    {
        Statistics {
            authorized_static: Vec::new(),
            unauthorized_static: Vec::new(),
            unauthorized_dynamic: 0,
            authorized_dynamic: 0,
            authorized_not_found: 0,
            authorized_thumb: 0,
            unauthorized_thumb: 0,
            picture_thumb_access: 0,
            picture_thumb_generation: 0,
            video_thumb_access: 0,
            video_thumb_generation: 0,
            authorized_list_files: ListFileCounters { preview: 0, extra: 0, folder: 0 },
            unauthorized_list_files: ListFileCounters { preview: 0, extra: 0, folder: 0 },
            authorized_first_level_folders: 0,
            unauthorized_first_level_folders: 0,
        }
    }
}

impl Statistics {
    /// Bumps the listing counter of one kind, authorized side.
    pub fn inc_authorized_list_files(&mut self, file_type: FileType)
        ensures
            *final(self) == (Statistics {
                authorized_list_files: spec_inc_list(old(self).authorized_list_files, file_type),
                ..*old(self)
            }),
    {
        match file_type {
            FileType::Preview => {
                self.authorized_list_files.preview = sat_inc_exec(
                    self.authorized_list_files.preview,
                );
            },
            FileType::Extra => {
                self.authorized_list_files.extra = sat_inc_exec(self.authorized_list_files.extra);
            },
            FileType::Folder => {
                self.authorized_list_files.folder = sat_inc_exec(
                    self.authorized_list_files.folder,
                );
            },
        }
    }

    /// Bumps the listing counter of one kind, unauthorized side.
    pub fn inc_unauthorized_list_files(&mut self, file_type: FileType)
        ensures
            *final(self) == (Statistics {
                unauthorized_list_files: spec_inc_list(
                    old(self).unauthorized_list_files,
                    file_type,
                ),
                ..*old(self)
            }),
    {
        match file_type {
            FileType::Preview => {
                self.unauthorized_list_files.preview = sat_inc_exec(
                    self.unauthorized_list_files.preview,
                );
            },
            FileType::Extra => {
                self.unauthorized_list_files.extra = sat_inc_exec(
                    self.unauthorized_list_files.extra,
                );
            },
            FileType::Folder => {
                self.unauthorized_list_files.folder = sat_inc_exec(
                    self.unauthorized_list_files.folder,
                );
            },
        }
    }

    /// Bumps the authorized-static counter of one page.
    pub fn inc_authorized_static(&mut self, page: &str)
        ensures
            final(self).wf() == old(self).wf(),
            *final(self) == (Statistics {
                authorized_static: final(self).authorized_static,
                ..*old(self)
            }),
            old(self).wf() ==> series_lookup(final(self).authorized_static.deep_view(), page@)
                == (match series_lookup(old(self).authorized_static.deep_view(), page@) {
                Some(v) => Some(sat_inc(v)),
                None => Some(1u64),
            }),
            old(self).wf() ==> forall|k: Seq<char>|
                k != page@ ==> #[trigger] series_lookup(
                    final(self).authorized_static.deep_view(),
                    k,
                ) == series_lookup(old(self).authorized_static.deep_view(), k),
    {
        inc_series(&mut self.authorized_static, page);
    }

    /// Renders every counter in the Prometheus text exposition format,
    /// one block per metric.
    pub fn render_to_prometheus(&self) -> (r: String)
        ensures
            r@ == spec_render_to_prometheus(*self),
    {
        let mut s = String::new();
        let b = render_series_counter(
            "nas_gallery_authorized_access_to_static_content",
            "Authorized access to static content",
            "path",
            &self.authorized_static,
        );
        s.append(b.as_str());
        let b = render_series_counter(
            "nas_gallery_unauthorized_access_to_static_content",
            "Unauthorized access to static content",
            "path",
            &self.unauthorized_static,
        );
        s.append(b.as_str());
        let b = render_plain_counter(
            "nas_gallery_authorized_access_to_dynamic_content",
            "Authorized access to dynamic content",
            self.authorized_dynamic,
        );
        s.append(b.as_str());
        let b = render_plain_counter(
            "nas_gallery_authorized_not_found",
            "Authorized access to not found content",
            self.authorized_not_found,
        );
        s.append(b.as_str());
        let b = render_plain_counter(
            "nas_gallery_authorized_thumb",
            "Authorized access to thumbnail",
            self.authorized_thumb,
        );
        s.append(b.as_str());
        let b = render_plain_counter(
            "nas_gallery_unauthorized_thumb",
            "Authorized unaccess to thumbnail",
            self.unauthorized_thumb,
        );
        s.append(b.as_str());
        let b = render_plain_counter(
            "nas_gallery_picture_thumb_access",
            "Authorized unaccess picute thumb",
            self.picture_thumb_access,
        );
        s.append(b.as_str());
        let b = render_plain_counter(
            "nas_gallery_picture_thumb_generation",
            "Picture thumb generation (cache miss)",
            self.picture_thumb_generation,
        );
        s.append(b.as_str());
        let b = render_plain_counter(
            "nas_gallery_video_thumb_access",
            "Authorized unaccess picute thumb",
            self.video_thumb_access,
        );
        s.append(b.as_str());
        let b = render_plain_counter(
            "nas_gallery_video_thumb_generation",
            "Video thumb generation (cache miss)",
            self.video_thumb_generation,
        );
        s.append(b.as_str());
        let b = render_list_files_counter(
            "nas_gallery_authorized_list_files",
            "Authorized list files",
            &self.authorized_list_files,
        );
        s.append(b.as_str());
        let b = render_list_files_counter(
            "nas_gallery_unauthorized_list_files",
            "Unauthorized list files",
            &self.unauthorized_list_files,
        );
        s.append(b.as_str());
        let b = render_plain_counter(
            "nas_gallery_authorized_first_level_folders",
            "Authorized enumeration of first level folders",
            self.authorized_first_level_folders,
        );
        s.append(b.as_str());
        let b = render_plain_counter(
            "nas_gallery_unauthorized_first_level_folders",
            "Unauthorized enumeration of first level folders",
            self.unauthorized_first_level_folders,
        );
        s.append(b.as_str());
        proof {
            assert(s@ =~= spec_render_to_prometheus(*self));
        }
        s
    }

    /// Bumps the unauthorized-static counter of one page.
    pub fn inc_unauthorized_static(&mut self, page: &str)
        ensures
            final(self).wf() == old(self).wf(),
            *final(self) == (Statistics {
                unauthorized_static: final(self).unauthorized_static,
                ..*old(self)
            }),
            old(self).wf() ==> series_lookup(final(self).unauthorized_static.deep_view(), page@)
                == (match series_lookup(old(self).unauthorized_static.deep_view(), page@) {
                Some(v) => Some(sat_inc(v)),
                None => Some(1u64),
            }),
            old(self).wf() ==> forall|k: Seq<char>|
                k != page@ ==> #[trigger] series_lookup(
                    final(self).unauthorized_static.deep_view(),
                    k,
                ) == series_lookup(old(self).unauthorized_static.deep_view(), k),
    {
        inc_series(&mut self.unauthorized_static, page);
    }
}


/// Counts one authorized first-level enumeration, when metrics are enabled.
pub fn track_authorized_first_level_folders(options: &Options, statistics: &mut Statistics)
    ensures
        options.prometheus_metrics_port is Some ==> *final(statistics) == (Statistics {
            authorized_first_level_folders: sat_inc(old(statistics).authorized_first_level_folders),
            ..*old(statistics)
        }),
        options.prometheus_metrics_port is None ==> *final(statistics) == *old(statistics),
{
    if options.prometheus_metrics_port.is_some() {
        statistics.authorized_first_level_folders = sat_inc_exec(statistics.authorized_first_level_folders);
    }
}

/// Counts one refused first-level enumeration, when metrics are enabled.
pub fn track_unauthorized_first_level_folders(options: &Options, statistics: &mut Statistics)
    ensures
        options.prometheus_metrics_port is Some ==> *final(statistics) == (Statistics {
            unauthorized_first_level_folders: sat_inc(old(statistics).unauthorized_first_level_folders),
            ..*old(statistics)
        }),
        options.prometheus_metrics_port is None ==> *final(statistics) == *old(statistics),
{
    if options.prometheus_metrics_port.is_some() {
        statistics.unauthorized_first_level_folders = sat_inc_exec(statistics.unauthorized_first_level_folders);
    }
}

/// Counts one authorized dynamic-content access, when metrics are enabled.
pub fn track_authorized_dynamic(options: &Options, statistics: &mut Statistics)
    ensures
        options.prometheus_metrics_port is Some ==> *final(statistics) == (Statistics {
            authorized_dynamic: sat_inc(old(statistics).authorized_dynamic),
            ..*old(statistics)
        }),
        options.prometheus_metrics_port is None ==> *final(statistics) == *old(statistics),
{
    if options.prometheus_metrics_port.is_some() {
        statistics.authorized_dynamic = sat_inc_exec(statistics.authorized_dynamic);
    }
}

/// Counts one refused dynamic-content access, when metrics are enabled.
pub fn track_unauthorized_dynamic(options: &Options, statistics: &mut Statistics)
    ensures
        options.prometheus_metrics_port is Some ==> *final(statistics) == (Statistics {
            unauthorized_dynamic: sat_inc(old(statistics).unauthorized_dynamic),
            ..*old(statistics)
        }),
        options.prometheus_metrics_port is None ==> *final(statistics) == *old(statistics),
{
    if options.prometheus_metrics_port.is_some() {
        statistics.unauthorized_dynamic = sat_inc_exec(statistics.unauthorized_dynamic);
    }
}

/// Counts one picture thumbnail access, when metrics are enabled.
pub fn track_picture_thumb_access(options: &Options, statistics: &mut Statistics)
    ensures
        options.prometheus_metrics_port is Some ==> *final(statistics) == (Statistics {
            picture_thumb_access: sat_inc(old(statistics).picture_thumb_access),
            ..*old(statistics)
        }),
        options.prometheus_metrics_port is None ==> *final(statistics) == *old(statistics),
{
    if options.prometheus_metrics_port.is_some() {
        statistics.picture_thumb_access = sat_inc_exec(statistics.picture_thumb_access);
    }
}

/// Counts one picture thumbnail generation (cache miss), when metrics are enabled.
pub fn track_picture_thumb_generation(options: &Options, statistics: &mut Statistics)
    ensures
        options.prometheus_metrics_port is Some ==> *final(statistics) == (Statistics {
            picture_thumb_generation: sat_inc(old(statistics).picture_thumb_generation),
            ..*old(statistics)
        }),
        options.prometheus_metrics_port is None ==> *final(statistics) == *old(statistics),
{
    if options.prometheus_metrics_port.is_some() {
        statistics.picture_thumb_generation = sat_inc_exec(statistics.picture_thumb_generation);
    }
}

/// Counts one video thumbnail access, when metrics are enabled.
pub fn track_video_thumb_access(options: &Options, statistics: &mut Statistics)
    ensures
        options.prometheus_metrics_port is Some ==> *final(statistics) == (Statistics {
            video_thumb_access: sat_inc(old(statistics).video_thumb_access),
            ..*old(statistics)
        }),
        options.prometheus_metrics_port is None ==> *final(statistics) == *old(statistics),
{
    if options.prometheus_metrics_port.is_some() {
        statistics.video_thumb_access = sat_inc_exec(statistics.video_thumb_access);
    }
}

/// Counts one video thumbnail generation (cache miss), when metrics are enabled.
pub fn track_video_thumb_generation(options: &Options, statistics: &mut Statistics)
    ensures
        options.prometheus_metrics_port is Some ==> *final(statistics) == (Statistics {
            video_thumb_generation: sat_inc(old(statistics).video_thumb_generation),
            ..*old(statistics)
        }),
        options.prometheus_metrics_port is None ==> *final(statistics) == *old(statistics),
{
    if options.prometheus_metrics_port.is_some() {
        statistics.video_thumb_generation = sat_inc_exec(statistics.video_thumb_generation);
    }
}

/// Counts one authorized access to a missing target, when metrics are enabled.
pub fn track_authorized_not_found(options: &Options, statistics: &mut Statistics)
    ensures
        options.prometheus_metrics_port is Some ==> *final(statistics) == (Statistics {
            authorized_not_found: sat_inc(old(statistics).authorized_not_found),
            ..*old(statistics)
        }),
        options.prometheus_metrics_port is None ==> *final(statistics) == *old(statistics),
{
    if options.prometheus_metrics_port.is_some() {
        statistics.authorized_not_found = sat_inc_exec(statistics.authorized_not_found);
    }
}

/// Counts one refused thumbnail request, when metrics are enabled.
pub fn track_unauthorized_thumb(options: &Options, statistics: &mut Statistics)
    ensures
        options.prometheus_metrics_port is Some ==> *final(statistics) == (Statistics {
            unauthorized_thumb: sat_inc(old(statistics).unauthorized_thumb),
            ..*old(statistics)
        }),
        options.prometheus_metrics_port is None ==> *final(statistics) == *old(statistics),
{
    if options.prometheus_metrics_port.is_some() {
        statistics.unauthorized_thumb = sat_inc_exec(statistics.unauthorized_thumb);
    }
}

/// Counts one authorized thumbnail request, when metrics are enabled.
pub fn track_authorized_thumb(options: &Options, statistics: &mut Statistics)
    ensures
        options.prometheus_metrics_port is Some ==> *final(statistics) == (Statistics {
            authorized_thumb: sat_inc(old(statistics).authorized_thumb),
            ..*old(statistics)
        }),
        options.prometheus_metrics_port is None ==> *final(statistics) == *old(statistics),
{
    if options.prometheus_metrics_port.is_some() {
        statistics.authorized_thumb = sat_inc_exec(statistics.authorized_thumb);
    }
}

/// Counts one authorized listing of the given kind, when metrics are enabled.
pub fn track_authorized_list_files(options: &Options, statistics: &mut Statistics, file_type: FileType)
    ensures
        options.prometheus_metrics_port is Some ==> *final(statistics) == (Statistics {
            authorized_list_files: spec_inc_list(old(statistics).authorized_list_files, file_type),
            ..*old(statistics)
        }),
        options.prometheus_metrics_port is None ==> *final(statistics) == *old(statistics),
{
    if options.prometheus_metrics_port.is_some() {
        statistics.inc_authorized_list_files(file_type);
    }
}

/// Counts one refused listing of the given kind, when metrics are enabled.
pub fn track_unauthorized_list_files(options: &Options, statistics: &mut Statistics, file_type: FileType)
    ensures
        options.prometheus_metrics_port is Some ==> *final(statistics) == (Statistics {
            unauthorized_list_files: spec_inc_list(old(statistics).unauthorized_list_files, file_type),
            ..*old(statistics)
        }),
        options.prometheus_metrics_port is None ==> *final(statistics) == *old(statistics),
{
    if options.prometheus_metrics_port.is_some() {
        statistics.inc_unauthorized_list_files(file_type);
    }
}

/// Counts one authorized static access to the given page, when metrics are enabled.
pub fn track_authorized_static(options: &Options, statistics: &mut Statistics, path: &str)
    ensures
        final(statistics).wf() == old(statistics).wf(),
        options.prometheus_metrics_port is None ==> *final(statistics) == *old(statistics),
        options.prometheus_metrics_port is Some ==> *final(statistics) == (Statistics {
            authorized_static: final(statistics).authorized_static,
            ..*old(statistics)
        }),
        (options.prometheus_metrics_port is Some && old(statistics).wf()) ==> series_lookup(
            final(statistics).authorized_static.deep_view(),
            path@,
        ) == (match series_lookup(old(statistics).authorized_static.deep_view(), path@) {
            Some(v) => Some(sat_inc(v)),
            None => Some(1u64),
        }) && (forall|k: Seq<char>|
            k != path@ ==> #[trigger] series_lookup(final(statistics).authorized_static.deep_view(), k)
                == series_lookup(old(statistics).authorized_static.deep_view(), k)),
{
    if options.prometheus_metrics_port.is_some() {
        statistics.inc_authorized_static(path);
    }
}

/// Counts one refused static access to the given page, when metrics are enabled.
pub fn track_unauthorized_static(options: &Options, statistics: &mut Statistics, path: &str)
    ensures
        final(statistics).wf() == old(statistics).wf(),
        options.prometheus_metrics_port is None ==> *final(statistics) == *old(statistics),
        options.prometheus_metrics_port is Some ==> *final(statistics) == (Statistics {
            unauthorized_static: final(statistics).unauthorized_static,
            ..*old(statistics)
        }),
        (options.prometheus_metrics_port is Some && old(statistics).wf()) ==> series_lookup(
            final(statistics).unauthorized_static.deep_view(),
            path@,
        ) == (match series_lookup(old(statistics).unauthorized_static.deep_view(), path@) {
            Some(v) => Some(sat_inc(v)),
            None => Some(1u64),
        }) && (forall|k: Seq<char>|
            k != path@ ==> #[trigger] series_lookup(final(statistics).unauthorized_static.deep_view(), k)
                == series_lookup(old(statistics).unauthorized_static.deep_view(), k)),
{
    if options.prometheus_metrics_port.is_some() {
        statistics.inc_unauthorized_static(path);
    }
}

} // verus!
