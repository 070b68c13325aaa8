//! The configuration model: groups, folder rules and service settings,
//! loaded once at startup and immutable afterwards.

use vstd::prelude::*;
use vstd::multiset::Multiset;

use crate::audit::{audit_record, local_timestamp, Audit};
use crate::engine::{
    acc_rules, ancestor_model, apply_rule, group_lookup, is_group_ref,
    lemma_explode_membership, scan_ancestor, spec_explode, spec_is_allowed,
    spec_simplify, first_level_has, first_level_list, spec_first_level, GroupModel,
};
use crate::folder::{folder_models, Folder};
use crate::forwarded_identity::ForwardedIdentity;
use crate::strings::{
    is_prefix_of, lemma_lex_le_total, lemma_lex_le_trans, lemma_push_contains, lex_le, str_eq_str,
    str_lex_le, str_starts_with, vec_contains_string,
};
use vstd::string::StrSliceExecFns;

verus! {

/// A named group of member emails.
#[derive(Debug)]
pub struct Group {
    pub name: String,
    pub members_email: Vec<String>,
}

impl View for Group {
    type V = GroupModel;

    open spec fn view(&self) -> GroupModel {
        GroupModel { name: self.name@, members: self.members_email.deep_view() }
    }
}

/// The models of a sequence of groups.
pub open spec fn group_models(groups: Seq<Group>) -> Seq<GroupModel> {
    groups.map_values(|g: Group| g@)
}

/// The configuration exactly as the file gives it, before any
/// normalization.
#[derive(Debug)]
pub struct OptionsInternal {
    pub log_level: Option<String>,
    pub access_control_allow_origin: Option<String>,
    pub thumb_folder_path: String,
    pub log_file: String,
    pub audit_file: Option<String>,
    pub static_site_path: String,
    pub groups: Vec<Group>,
    pub folders: Vec<Folder>,
    pub prometheus_metrics_port: Option<u16>,
}

/// The verbosity of the operational log.
#[derive(Debug, Copy, Clone, PartialEq, Eq, Structural)]
pub enum LogLevel {
    Off,
    Error,
    Warn,
    Info,
    Debug,
    Trace,
}

/// The level a configured name denotes; anything unknown, including an
/// absent setting, falls back to `Info`.
pub open spec fn spec_log_level(name: Option<Seq<char>>) -> LogLevel {
    match name {
        None => LogLevel::Info,
        Some(n) => {
            if n == "Error"@ {
                LogLevel::Error
            } else if n == "Warn"@ {
                LogLevel::Warn
            } else if n == "Info"@ {
                LogLevel::Info
            } else if n == "Debug"@ {
                LogLevel::Debug
            } else if n == "Trace"@ {
                LogLevel::Trace
            } else if n == "Off"@ {
                LogLevel::Off
            } else {
                LogLevel::Info
            }
        },
    }
}

/// Translates the textual log level of the configuration.
pub fn log_level_from_name(name: &Option<String>) -> (r: LogLevel)
    ensures
        r == spec_log_level(name.deep_view()),
{
    match name {
        None => LogLevel::Info,
        Some(n) => {
            if str_eq_str(n.as_str(), "Error") {
                LogLevel::Error
            } else if str_eq_str(n.as_str(), "Warn") {
                LogLevel::Warn
            } else if str_eq_str(n.as_str(), "Info") {
                LogLevel::Info
            } else if str_eq_str(n.as_str(), "Debug") {
                LogLevel::Debug
            } else if str_eq_str(n.as_str(), "Trace") {
                LogLevel::Trace
            } else if str_eq_str(n.as_str(), "Off") {
                LogLevel::Off
            } else {
                LogLevel::Info
            }
        },
    }
}

/// The folder rules stand in ascending lexicographic path order, so that
/// every ancestor rule comes before its descendants.
pub open spec fn folders_sorted(s: Seq<Folder>) -> bool {
    forall|i: int, j: int|
        0 <= i < j < s.len() ==> #[trigger] lex_le(s[i]@.path, s[j]@.path)
}

/// No string occurs twice.
pub open spec fn strings_distinct(s: Seq<Seq<char>>) -> bool {
    forall|i: int, j: int| 0 <= i < j < s.len() ==> s[i] != s[j]
}

/// `e` is the email of some member of some group.
pub open spec fn email_in_groups(groups: Seq<GroupModel>, e: Seq<char>) -> bool {
    exists|g: int, m: int|
        0 <= g < groups.len() && 0 <= m < groups[g].members.len() && #[trigger] groups[g].members[m]
            == e
}

/// Inserts `x` into a vector sorted by path, keeping it sorted.
fn insert_sorted(v: &mut Vec<Folder>, x: Folder)
    requires
        folders_sorted(old(v)@),
    ensures
        folders_sorted(final(v)@),
        final(v)@.to_multiset() == old(v)@.to_multiset().insert(x),
        folder_models(final(v)@).to_multiset() == folder_models(old(v)@).to_multiset().insert(x@),
        final(v)@.len() == old(v)@.len() + 1,
{
    let mut i: usize = 0;
    while i < v.len() && str_lex_le(v[i].path.as_str(), x.path.as_str())
        invariant
            v@ == old(v)@,
            i <= v@.len(),
            forall|j: int| 0 <= j < i ==> lex_le(v@[j]@.path, x@.path),
        decreases v@.len() - i,
    {
        i += 1;
    }
    let ghost s0 = v@;
    let ghost ii = i as int;
    proof {
        if ii < s0.len() {
            lemma_lex_le_total(s0[ii]@.path, x@.path);
            assert(lex_le(x@.path, s0[ii]@.path));
        }
    }
    v.insert(i, x);
    proof {
        broadcast use vstd::seq_lib::to_multiset_insert;

        assert(v@ == s0.insert(ii, x));
        assert(forall|k: int| 0 <= k < ii ==> v@[k] == s0[k]);
        assert(v@[ii] == x);
        assert(forall|k: int| ii < k < v@.len() ==> v@[k] == s0[k - 1]);
        assert forall|a: int, b: int|
            0 <= a < b < v@.len() implies #[trigger] lex_le(v@[a]@.path, v@[b]@.path) by {
            if b < ii {
                assert(lex_le(s0[a]@.path, s0[b]@.path));
            } else if a < ii && b == ii {
                assert(lex_le(s0[a]@.path, x@.path));
            } else if a < ii && b > ii {
                assert(lex_le(s0[a]@.path, s0[b - 1]@.path));
            } else if a == ii && b > ii {
                if b - 1 == ii {
                    assert(lex_le(x@.path, s0[ii]@.path));
                } else {
                    assert(lex_le(s0[ii]@.path, s0[b - 1]@.path));
                    lemma_lex_le_trans(x@.path, s0[ii]@.path, s0[b - 1]@.path);
                }
            } else {
                assert(lex_le(s0[a - 1]@.path, s0[b - 1]@.path));
            }
        }
        assert(folder_models(v@) =~= folder_models(s0).insert(ii, x@));
    }
}

/// Sorts the folder rules by path, ascending.
fn sort_folders(folders: Vec<Folder>) -> (r: Vec<Folder>)
    ensures
        folders_sorted(r@),
        r@.to_multiset() == folders@.to_multiset(),
        folder_models(r@).to_multiset() == folder_models(folders@).to_multiset(),
        r@.len() == folders@.len(),
{
    broadcast use vstd::seq_lib::group_to_multiset_ensures;

    let ghost orig = folders@;
    let mut rest = folders;
    let mut r: Vec<Folder> = Vec::new();
    proof {
        assert(r@.to_multiset().add(rest@.to_multiset()) =~= orig.to_multiset());
        assert(folder_models(r@).to_multiset().add(folder_models(rest@).to_multiset())
            =~= folder_models(orig).to_multiset());
    }
    while rest.len() > 0
        invariant
            folders_sorted(r@),
            r@.to_multiset().add(rest@.to_multiset()) == orig.to_multiset(),
            folder_models(r@).to_multiset().add(folder_models(rest@).to_multiset())
                == folder_models(orig).to_multiset(),
            r@.len() + rest@.len() == orig.len(),
        decreases rest@.len(),
    {
        let ghost rest0 = rest@;
        let ghost r0 = r@;
        let x = rest.pop().unwrap();
        insert_sorted(&mut r, x);
        proof {
            broadcast use vstd::seq_lib::to_multiset_build;
            broadcast use vstd::multiset::group_multiset_axioms;

            assert(rest0 =~= rest@.push(x));
            assert(folder_models(rest0) =~= folder_models(rest@).push(x@));
            assert(rest@.push(x).to_multiset() == rest@.to_multiset().insert(x));
            assert(rest0.to_multiset() == rest@.to_multiset().insert(x));
            assert(folder_models(rest@).push(x@).to_multiset() == folder_models(
                rest@,
            ).to_multiset().insert(x@));
            assert(folder_models(rest0).to_multiset() == folder_models(rest@).to_multiset().insert(
                x@,
            ));
            assert(r@.to_multiset().add(rest@.to_multiset()) =~= orig.to_multiset());
            assert(folder_models(r@).to_multiset().add(folder_models(rest@).to_multiset())
                =~= folder_models(orig).to_multiset());
        }
    }
    proof {
        assert(rest@.to_multiset() =~= Multiset::empty());
        assert(folder_models(rest@) =~= Seq::<crate::folder::FolderModel>::empty());
        assert(folder_models(rest@).to_multiset() =~= Multiset::empty());
        assert(r@.to_multiset() =~= orig.to_multiset());
        assert(folder_models(r@).to_multiset() =~= folder_models(orig).to_multiset());
    }
    r
}

/// Collecting group `g + 1` extends the known emails by the members of
/// group `g`.
proof fn lemma_email_in_groups_step(groups: Seq<GroupModel>, g: int, e: Seq<char>)
    requires
        0 <= g < groups.len(),
    ensures
        email_in_groups(groups.take(g + 1), e) == (email_in_groups(groups.take(g), e)
            || groups[g].members.contains(e)),
{
    let pre = groups.take(g);
    let cur = groups.take(g + 1);
    if email_in_groups(cur, e) {
        let (gi, m): (int, int) = choose|gi: int, m: int|
            0 <= gi < cur.len() && 0 <= m < cur[gi].members.len() && #[trigger] cur[gi].members[m]
                == e;
        if gi < g {
            assert(pre[gi].members[m] == e);
            assert(email_in_groups(pre, e));
        } else {
            assert(groups[g].members[m] == e);
        }
    }
    if email_in_groups(pre, e) {
        let (gi, m): (int, int) = choose|gi: int, m: int|
            0 <= gi < pre.len() && 0 <= m < pre[gi].members.len() && #[trigger] pre[gi].members[m]
                == e;
        assert(cur[gi].members[m] == e);
        assert(email_in_groups(cur, e));
    }
    if groups[g].members.contains(e) {
        let m = choose|m: int| 0 <= m < groups[g].members.len() && groups[g].members[m] == e;
        assert(cur[g].members[m] == e);
        assert(email_in_groups(cur, e));
    }
}

/// Collects the distinct union of all group members.
fn collect_all_emails(groups: &Vec<Group>) -> (r: Vec<String>)
    ensures
        strings_distinct(r.deep_view()),
        forall|e: Seq<char>| #[trigger]
            r.deep_view().contains(e) == email_in_groups(group_models(groups@), e),
{
    let mut all_emails: Vec<String> = Vec::new();
    let ghost gm = group_models(groups@);
    let mut g: usize = 0;
    proof {
        assert(gm.take(0) =~= Seq::<GroupModel>::empty());
    }
    while g < groups.len()
        invariant
            g <= groups@.len(),
            gm == group_models(groups@),
            strings_distinct(all_emails.deep_view()),
            forall|e: Seq<char>| #[trigger]
                all_emails.deep_view().contains(e) == email_in_groups(gm.take(g as int), e),
        decreases groups@.len() - g,
    {
        let members = &groups[g].members_email;
        let ghost mdv = members.deep_view();
        proof {
            assert(gm[g as int] == groups@[g as int]@);
            assert(gm[g as int].members == mdv);
            assert(mdv.take(0) =~= Seq::<Seq<char>>::empty());
        }
        let mut m: usize = 0;
        while m < members.len()
            invariant
                m <= mdv.len(),
                mdv == members.deep_view(),
                members == &groups@[g as int].members_email,
                g < groups@.len(),
                gm == group_models(groups@),
                gm[g as int].members == mdv,
                strings_distinct(all_emails.deep_view()),
                forall|e: Seq<char>| #[trigger]
                    all_emails.deep_view().contains(e) == (email_in_groups(gm.take(g as int), e)
                        || mdv.take(m as int).contains(e)),
            decreases mdv.len() - m,
        {
            let ghost before = all_emails.deep_view();
            if !vec_contains_string(&all_emails, members[m].as_str()) {
                all_emails.push(members[m].clone());
                proof {
                    assert(all_emails.deep_view() =~= before.push(mdv[m as int]));
                }
            }
            proof {
                assert(mdv.take(m + 1) =~= mdv.take(m as int).push(mdv[m as int]));
                lemma_push_contains(mdv.take(m as int), mdv[m as int], mdv[m as int]);
                assert forall|e: Seq<char>| #[trigger]
                    all_emails.deep_view().contains(e) == (email_in_groups(gm.take(g as int), e)
                        || mdv.take(m + 1).contains(e)) by {
                    lemma_push_contains(mdv.take(m as int), mdv[m as int], e);
                    if all_emails.deep_view() != before {
                        lemma_push_contains(before, mdv[m as int], e);
                    }
                }
                assert forall|i: int, j: int|
                    0 <= i < j < all_emails.deep_view().len() implies all_emails.deep_view()[i]
                    != all_emails.deep_view()[j] by {
                    if all_emails.deep_view() != before {
                        if j == all_emails.deep_view().len() - 1 {
                            assert(!before.contains(mdv[m as int]));
                            assert(before[i] != mdv[m as int]);
                        }
                    }
                }
            }
            m += 1;
        }
        proof {
            assert(mdv.take(mdv.len() as int) =~= mdv);
            assert forall|e: Seq<char>| #[trigger]
                all_emails.deep_view().contains(e) == email_in_groups(
                gm.take(g + 1),
                e,
            ) by {
                lemma_email_in_groups_step(gm, g as int, e);
            }
        }
        g += 1;
    }
    proof {
        assert(gm.take(gm.len() as int) =~= gm);
    }
    all_emails
}

/// The validated, normalized configuration the service runs on.
///
/// The folder rules are sorted by path at construction and never change
/// afterwards; `all_emails` is the union of all group members and fully
/// determined by `groups`.
pub struct Options {
    pub log_level: LogLevel,
    pub access_control_allow_origin: Option<String>,
    pub thumb_folder_path: String,
    pub log_file: String,
    pub audit_file: Option<String>,
    pub static_site_path: String,
    pub audit: Option<Audit>,
    pub groups: Vec<Group>,
    pub folders: Vec<Folder>,
    pub prometheus_metrics_port: Option<u16>,
    pub all_emails: Vec<String>,
}

impl Options {
    /// The set of every known email, as the models of the union vector.
    pub open spec fn all_emails_model(&self) -> Seq<Seq<char>> {
        self.all_emails.deep_view()
    }

    /// Builds the runtime configuration: sorts the folder rules by path,
    /// derives the distinct union of all group members, and translates
    /// the log level.  The audit handle, whose writer lives outside the
    /// library, is taken ready-made.
    pub fn from_internal(oi: OptionsInternal, audit: Option<Audit>) -> (r: Options)
        ensures
            folders_sorted(r.folders@),
            folder_models(r.folders@).to_multiset() == folder_models(oi.folders@).to_multiset(),
            r.folders@.to_multiset() == oi.folders@.to_multiset(),
            r.groups@ == oi.groups@,
            r.log_level == spec_log_level(oi.log_level.deep_view()),
            r.access_control_allow_origin == oi.access_control_allow_origin,
            r.thumb_folder_path == oi.thumb_folder_path,
            r.log_file == oi.log_file,
            r.audit_file == oi.audit_file,
            r.static_site_path == oi.static_site_path,
            r.prometheus_metrics_port == oi.prometheus_metrics_port,
            r.audit == audit,
            strings_distinct(r.all_emails_model()),
            forall|e: Seq<char>| #[trigger]
                r.all_emails_model().contains(e) == email_in_groups(group_models(r.groups@), e),
    {
        let log_level = log_level_from_name(&oi.log_level);
        let folders = sort_folders(oi.folders);
        let all_emails = collect_all_emails(&oi.groups);
        Options {
            log_level,
            access_control_allow_origin: oi.access_control_allow_origin,
            thumb_folder_path: oi.thumb_folder_path,
            log_file: oi.log_file,
            audit_file: oi.audit_file,
            static_site_path: oi.static_site_path,
            audit,
            groups: oi.groups,
            folders,
            prometheus_metrics_port: oi.prometheus_metrics_port,
            all_emails,
        }
    }

    /// The coarse admission gate: a forced identity passes, any other
    /// identity must be a known email.
    pub fn identity_allowed(&self, forwarded_identity: &ForwardedIdentity) -> (r: bool)
        ensures
            r == spec_identity_allowed(self, forwarded_identity),
    {
        forwarded_identity.forced() || vec_contains_string(
            &self.all_emails,
            forwarded_identity.email.as_str(),
        )
    }

    /// Formats and enqueues one audit record, timestamped now, when an
    /// audit log is configured; a disabled audit makes this a no-op.
    pub fn audit(
        &self,
        email: &str,
        obj_type: &str,
        obj_name: &str,
        operation: &str,
        allowed: bool,
    ) {
        if let Some(audit) = &self.audit {
            let ts = local_timestamp();
            let record = audit_record(ts.as_str(), email, obj_type, obj_name, operation, allowed);
            audit.send_event(record);
        }
    }

    /// The CORS response header to add to JSON replies, when one is
    /// configured.
    pub fn cors_header(&self) -> (r: Option<(&'static str, &String)>)
        ensures
            match self.access_control_allow_origin {
                Some(_) => r matches Some((name, value)) && name@
                    == "Access-Control-Allow-Origin"@ && value@
                    == self.access_control_allow_origin.unwrap()@,
                None => r is None,
            },
    {
        match &self.access_control_allow_origin {
            Some(origin) => Some(("Access-Control-Allow-Origin", origin)),
            None => None,
        }
    }
}

/// Whether a string names a group, `#<group-name>` style.
fn is_group_ref_exec(s: &str) -> (r: bool)
    ensures
        r == is_group_ref(s@),
{
    proof {
        reveal_strlit("#");
    }
    let r = str_starts_with(s, "#");
    proof {
        assert("#"@ =~= seq!['#']);
        if s@.len() > 0 {
            assert(s@.subrange(0, 1) =~= seq![s@[0]]);
            if s@[0] == '#' {
                assert(is_prefix_of("#"@, s@));
            } else {
                assert(s@.subrange(0, 1)[0] == s@[0]);
                assert("#"@[0] == '#');
                assert(s@.subrange(0, 1) != "#"@);
            }
        }
    }
    r
}

/// Looking past the first `i` groups changes nothing when none of them
/// carries the name.
proof fn lemma_group_lookup_skip(groups: Seq<GroupModel>, name: Seq<char>, i: int)
    requires
        0 <= i <= groups.len(),
        forall|j: int| 0 <= j < i ==> groups[j].name != name,
    ensures
        group_lookup(groups, name) == group_lookup(groups.skip(i), name),
    decreases i,
{
    if i == 0 {
        assert(groups.skip(0) =~= groups);
    } else {
        assert(groups.len() > 0);
        assert(groups.first().name != name);
        assert(group_lookup(groups, name) == group_lookup(groups.drop_first(), name));
        assert(groups.drop_first().skip(i - 1) =~= groups.skip(i));
        assert(forall|j: int|
            0 <= j < i - 1 ==> groups.drop_first()[j] == groups[j + 1]);
        lemma_group_lookup_skip(groups.drop_first(), name, i - 1);
    }
}

/// Appends every string of `src` to `dst`.
fn append_principals(dst: &mut Vec<String>, src: &Vec<String>)
    ensures
        final(dst).deep_view() == old(dst).deep_view() + src.deep_view(),
{
    let ghost base = dst.deep_view();
    let ghost sdv = src.deep_view();
    let mut i: usize = 0;
    proof {
        assert(dst.deep_view() =~= base + sdv.take(0));
    }
    while i < src.len()
        invariant
            i <= sdv.len(),
            sdv == src.deep_view(),
            dst.deep_view() == base + sdv.take(i as int),
        decreases sdv.len() - i,
    {
        let ghost before = dst.deep_view();
        dst.push(src[i].clone());
        proof {
            assert(dst.deep_view() =~= before.push(sdv[i as int]));
            assert(sdv.take(i + 1) =~= sdv.take(i as int).push(sdv[i as int]));
            assert(dst.deep_view() =~= base + sdv.take(i + 1));
        }
        i += 1;
    }
    proof {
        assert(sdv.take(sdv.len() as int) =~= sdv);
    }
}

/// `spec_first_level` restricted to the chains of the first `k` rules.
spec fn first_level_upto(
    fm: Seq<crate::folder::FolderModel>,
    gm: Seq<GroupModel>,
    user: Seq<char>,
    k: int,
    p: Seq<char>,
) -> bool {
    exists|k2: int| 0 <= k2 < k && #[trigger] first_level_has(fm, gm, user, k2, p)
}

/// `first_level_has` restricted to the first `t` entries of the chain.
spec fn first_level_has_upto(
    fm: Seq<crate::folder::FolderModel>,
    gm: Seq<GroupModel>,
    user: Seq<char>,
    k: int,
    t: int,
    p: Seq<char>,
) -> bool {
    exists|t2: int|
        0 <= t2 < t && t2 < first_level_list(fm, gm, user, k).len() && #[trigger] first_level_list(
            fm,
            gm,
            user,
            k,
        )[t2].path == p
}

proof fn lemma_first_level_upto_step(
    fm: Seq<crate::folder::FolderModel>,
    gm: Seq<GroupModel>,
    user: Seq<char>,
    k: int,
    p: Seq<char>,
)
    requires
        0 <= k,
    ensures
        first_level_upto(fm, gm, user, k + 1, p) == (first_level_upto(fm, gm, user, k, p)
            || first_level_has(fm, gm, user, k, p)),
{
    if first_level_upto(fm, gm, user, k + 1, p) {
        let k2 = choose|k2: int| 0 <= k2 < k + 1 && #[trigger] first_level_has(fm, gm, user, k2, p);
        if k2 < k {
            assert(first_level_upto(fm, gm, user, k, p));
        }
    }
    if first_level_upto(fm, gm, user, k, p) {
        let k2 = choose|k2: int| 0 <= k2 < k && #[trigger] first_level_has(fm, gm, user, k2, p);
        assert(0 <= k2 < k + 1 && first_level_has(fm, gm, user, k2, p));
    }
    if first_level_has(fm, gm, user, k, p) {
        assert(0 <= k < k + 1 && first_level_has(fm, gm, user, k, p));
    }
}

proof fn lemma_first_level_has_upto_step(
    fm: Seq<crate::folder::FolderModel>,
    gm: Seq<GroupModel>,
    user: Seq<char>,
    k: int,
    t: int,
    p: Seq<char>,
)
    requires
        0 <= t < first_level_list(fm, gm, user, k).len(),
    ensures
        first_level_has_upto(fm, gm, user, k, t + 1, p) == (first_level_has_upto(
            fm,
            gm,
            user,
            k,
            t,
            p,
        ) || first_level_list(fm, gm, user, k)[t].path == p),
{
    let l = first_level_list(fm, gm, user, k);
    if first_level_has_upto(fm, gm, user, k, t + 1, p) {
        let t2 = choose|t2: int| 0 <= t2 < t + 1 && t2 < l.len() && #[trigger] l[t2].path == p;
        if t2 < t {
            assert(first_level_has_upto(fm, gm, user, k, t, p));
        }
    }
    if first_level_has_upto(fm, gm, user, k, t, p) {
        let t2 = choose|t2: int| 0 <= t2 < t && t2 < l.len() && #[trigger] l[t2].path == p;
        assert(0 <= t2 < t + 1 && t2 < l.len() && l[t2].path == p);
    }
    if l[t].path == p {
        assert(0 <= t < t + 1 && t < l.len() && l[t].path == p);
    }
}

impl Options {
    /// What the decision procedure says for this configuration.
    pub open spec fn spec_is_folder_allowed(&self, path: Seq<char>, email: Seq<char>) -> bool {
        spec_is_allowed(folder_models(self.folders@), group_models(self.groups@), path, email)
    }

    /// The index of the first group with this name, if any.
    fn find_group(&self, name: &str) -> (r: Option<usize>)
        ensures
            match r {
                Some(i) => i < self.groups@.len() && group_lookup(
                    group_models(self.groups@),
                    name@,
                ) == Some(self.groups@[i as int]@.members),
                None => group_lookup(group_models(self.groups@), name@) is None,
            },
    {
        let ghost gm = group_models(self.groups@);
        let mut i: usize = 0;
        while i < self.groups.len()
            invariant
                i <= gm.len(),
                gm == group_models(self.groups@),
                forall|j: int| 0 <= j < i ==> gm[j].name != name@,
            decreases gm.len() - i,
        {
            if str_eq_str(self.groups[i].name.as_str(), name) {
                proof {
                    lemma_group_lookup_skip(gm, name@, i as int);
                    assert(gm.skip(i as int).first() == gm[i as int]);
                    assert(gm.skip(i as int).len() > 0);
                }
                return Some(i);
            }
            i += 1;
        }
        proof {
            lemma_group_lookup_skip(gm, name@, gm.len() as int);
            assert(gm.skip(gm.len() as int).len() == 0);
        }
        None
    }

    /// Substitutes every group reference among the principals by the
    /// members of the referenced group; a reference to a missing group
    /// is dropped.  Plain emails are kept as they are.
    pub fn explode_group(&self, hs: Vec<String>) -> (r: Vec<String>)
        ensures
            r.deep_view() == spec_explode(group_models(self.groups@), hs.deep_view()),
    {
        let ghost gm = group_models(self.groups@);
        let ghost hdv = hs.deep_view();
        let mut tmp: Vec<String> = Vec::new();
        let mut i: usize = 0;
        proof {
            assert(tmp.deep_view() =~= spec_explode(gm, hdv.take(0)));
        }
        while i < hs.len()
            invariant
                i <= hdv.len(),
                hdv == hs.deep_view(),
                gm == group_models(self.groups@),
                tmp.deep_view() == spec_explode(gm, hdv.take(i as int)),
            decreases hdv.len() - i,
        {
            let ghost before = tmp.deep_view();
            let item = &hs[i];
            proof {
                assert(hdv.take(i + 1).drop_last() =~= hdv.take(i as int));
                assert(hdv.take(i + 1).last() == hdv[i as int]);
                assert(item@ == hdv[i as int]);
            }
            if is_group_ref_exec(item.as_str()) {
                let len = item.as_str().unicode_len();
                let name = item.as_str().substring_char(1, len);
                proof {
                    assert(name@ =~= item@.drop_first());
                }
                match self.find_group(name) {
                    Some(g) => {
                        append_principals(&mut tmp, &self.groups[g].members_email);
                        proof {
                            assert(self.groups@[g as int]@.members == self.groups@[
                                g as int
                            ].members_email.deep_view());
                        }
                    },
                    None => {},
                }
            } else {
                tmp.push(item.clone());
                proof {
                    assert(tmp.deep_view() =~= before.push(hdv[i as int]));
                }
            }
            proof {
                assert(tmp.deep_view() =~= spec_explode(gm, hdv.take(i + 1)));
            }
            i += 1;
        }
        proof {
            assert(hdv.take(hdv.len() as int) =~= hdv);
        }
        tmp
    }

    /// The central decision: may `user_to_check` access the absolute
    /// path `path_to_check`?
    ///
    /// The matching rules are walked in configuration order — ascending
    /// path order, so ancestors first — accumulating permissions; the
    /// walk is followed by group explosion and the final membership
    /// test, in which a denial always wins.
    pub fn is_folder_allowed(&self, path_to_check: &str, user_to_check: &str) -> (r: bool)
        ensures
            r == self.spec_is_folder_allowed(path_to_check@, user_to_check@),
    {
        let ghost fm = folder_models(self.folders@);
        let ghost gm = group_models(self.groups@);
        let ghost path = path_to_check@;

        let mut allowed: Vec<String> = Vec::new();
        let mut denied: Vec<String> = Vec::new();
        let mut inheritable = false;
        let mut last_path: String = "/".to_owned();
        proof {
            reveal_strlit("/");
            assert("/"@ =~= seq!['/']);
            assert(fm.take(0) =~= Seq::<crate::folder::FolderModel>::empty());
            assert(allowed.deep_view() =~= acc_rules(fm.take(0), path).allowed);
            assert(denied.deep_view() =~= acc_rules(fm.take(0), path).denied);
        }

        let mut i: usize = 0;
        while i < self.folders.len()
            invariant
                i <= fm.len(),
                fm == folder_models(self.folders@),
                path == path_to_check@,
                allowed.deep_view() == acc_rules(fm.take(i as int), path).allowed,
                denied.deep_view() == acc_rules(fm.take(i as int), path).denied,
                inheritable == acc_rules(fm.take(i as int), path).inheritable,
                last_path@ == acc_rules(fm.take(i as int), path).last_path,
            decreases fm.len() - i,
        {
            let ghost prev = acc_rules(fm.take(i as int), path);
            proof {
                assert(fm.take(i + 1).drop_last() =~= fm.take(i as int));
                assert(fm.take(i + 1).last() == fm[i as int]);
                assert(fm[i as int] == self.folders@[i as int]@);
            }
            let subpath = &self.folders[i];
            if str_starts_with(path_to_check, subpath.path.as_str()) {
                if let Some(breaks_inheritance) = subpath.breaks_inheritance {
                    if breaks_inheritance {
                        allowed = Vec::new();
                        denied = Vec::new();
                        inheritable = false;
                    }
                }
                inheritable = match subpath.inheritable {
                    Some(b) => b,
                    None => false,
                };
                let ghost base_allowed = allowed.deep_view();
                let ghost base_denied = denied.deep_view();
                match &subpath.allowed {
                    Some(list) => append_principals(&mut allowed, list),
                    None => {
                        proof {
                            assert(allowed.deep_view() =~= base_allowed
                                + crate::folder::opt_principals(subpath.allowed));
                        }
                    },
                }
                match &subpath.denied {
                    Some(list) => append_principals(&mut denied, list),
                    None => {
                        proof {
                            assert(denied.deep_view() =~= base_denied
                                + crate::folder::opt_principals(subpath.denied));
                        }
                    },
                }
                last_path = subpath.path.clone();
                proof {
                    assert(acc_rules(fm.take(i + 1), path) == apply_rule(prev, fm[i as int]));
                }
            } else {
                proof {
                    assert(acc_rules(fm.take(i + 1), path) == prev);
                }
            }
            i += 1;
        }
        proof {
            assert(fm.take(fm.len() as int) =~= fm);
        }

        let ghost st = acc_rules(fm, path);
        let same_path = str_eq_str(path_to_check, last_path.as_str());
        if !same_path && !inheritable {
            return false;
        }
        let current_allowed = self.explode_group(allowed);
        let current_denied = self.explode_group(denied);
        let in_denied = vec_contains_string(&current_denied, user_to_check);
        let in_allowed = vec_contains_string(&current_allowed, user_to_check);
        proof {
            lemma_explode_membership(gm, st.allowed, user_to_check@);
            lemma_explode_membership(gm, st.denied, user_to_check@);
        }
        !in_denied && in_allowed
    }

    /// Pairs every folder rule with its topmost ancestor rule: the rule
    /// with the shortest path that is a prefix of the folder's path, the
    /// earliest such rule when several share that length.  A folder with
    /// no other ancestor is its own.
    pub fn calculate_ancestors(&self) -> (r: Vec<(Folder, Folder)>)
        ensures
            r@.len() == self.folders@.len(),
            forall|k: int|
                0 <= k < r@.len() ==> (#[trigger] r@[k]).0@ == self.folders@[k]@ && r@[k].1@
                    == ancestor_model(folder_models(self.folders@), k),
    {
        let ghost fm = folder_models(self.folders@);
        let mut ancestors: Vec<(Folder, Folder)> = Vec::new();
        let mut k: usize = 0;
        while k < self.folders.len()
            invariant
                k <= fm.len(),
                fm == folder_models(self.folders@),
                ancestors@.len() == k,
                forall|t: int|
                    0 <= t < k ==> (#[trigger] ancestors@[t]).0@ == self.folders@[t]@
                        && ancestors@[t].1@ == ancestor_model(fm, t),
            decreases fm.len() - k,
        {
            let folder_to_find_root = &self.folders[k];
            let ghost target = fm[k as int].path;
            let mut best: Option<usize> = None;
            let mut j: usize = 0;
            proof {
                assert(target == folder_to_find_root@.path);
            }
            while j < self.folders.len()
                invariant
                    j <= fm.len(),
                    fm == folder_models(self.folders@),
                    target == fm[k as int].path,
                    folder_to_find_root@.path == target,
                    k < fm.len(),
                    match best {
                        Some(b) => b < fm.len() && scan_ancestor(fm, target, j as int) == Some(
                            b as int,
                        ),
                        None => scan_ancestor(fm, target, j as int) is None,
                    },
                decreases fm.len() - j,
            {
                let ghost best0 = best;
                let candidate = &self.folders[j];
                proof {
                    assert(fm[j as int] == self.folders@[j as int]@);
                }
                if str_starts_with(folder_to_find_root.path.as_str(), candidate.path.as_str()) {
                    match best {
                        None => {
                            best = Some(j);
                        },
                        Some(b) => {
                            proof {
                                assert(fm[b as int] == self.folders@[b as int]@);
                            }
                            if candidate.path.as_str().unicode_len()
                                < self.folders[b].path.as_str().unicode_len() {
                                best = Some(j);
                            }
                        },
                    }
                }
                proof {
                    let prev = scan_ancestor(fm, target, j as int);
                    assert(scan_ancestor(fm, target, j as int + 1) == (if is_prefix_of(
                        fm[j as int].path,
                        target,
                    ) {
                        match prev {
                            None => Some(j as int),
                            Some(b) => if fm[j as int].path.len() < fm[b].path.len() {
                                Some(j as int)
                            } else {
                                prev
                            },
                        }
                    } else {
                        prev
                    }));
                }
                j += 1;
            }
            let ancestor = match best {
                Some(b) => self.folders[b].clone(),
                None => folder_to_find_root.clone(),
            };
            proof {
                assert(fm.take(fm.len() as int) =~= fm);
                assert(ancestor@ == ancestor_model(fm, k as int));
            }
            ancestors.push((folder_to_find_root.clone(), ancestor));
            k += 1;
        }
        ancestors
    }

    /// The rules between `from` and `to` that a user gains only at that
    /// point of the chain: walking the rules whose paths lie between the
    /// two (prefix-wise), an allowed rule is kept unless the rule before
    /// it already passed its access on by inheritance.
    pub fn simplify_path(&self, user: &str, from: &Folder, to: &Folder) -> (r: Vec<Folder>)
        ensures
            folder_models(r@) == spec_simplify(
                folder_models(self.folders@),
                group_models(self.groups@),
                from@.path,
                to@.path,
                user@,
                self.folders@.len() as int,
            ).1,
    {
        let ghost fm = folder_models(self.folders@);
        let ghost gm = group_models(self.groups@);
        let mut inherited = false;
        let mut res: Vec<Folder> = Vec::new();
        let mut i: usize = 0;
        proof {
            assert(folder_models(res@) =~= spec_simplify(
                fm,
                gm,
                from@.path,
                to@.path,
                user@,
                0,
            ).1);
        }
        while i < self.folders.len()
            invariant
                i <= fm.len(),
                fm == folder_models(self.folders@),
                gm == group_models(self.groups@),
                inherited == spec_simplify(fm, gm, from@.path, to@.path, user@, i as int).0,
                folder_models(res@) == spec_simplify(
                    fm,
                    gm,
                    from@.path,
                    to@.path,
                    user@,
                    i as int,
                ).1,
            decreases fm.len() - i,
        {
            let ghost res0 = folder_models(res@);
            let folder = &self.folders[i];
            if str_starts_with(folder.path.as_str(), from.path.as_str()) && str_starts_with(
                to.path.as_str(),
                folder.path.as_str(),
            ) {
                if self.is_folder_allowed(folder.path.as_str(), user) {
                    if !inherited {
                        res.push(folder.clone());
                        proof {
                            assert(folder_models(res@) =~= res0.push(fm[i as int]));
                        }
                    }
                    inherited = match folder.inheritable {
                        Some(b) => b,
                        None => false,
                    };
                } else {
                    inherited = false;
                }
            }
            i += 1;
        }
        res
    }

    /// The minimal set of entry-point paths a user can browse from: for
    /// every rule, the rules its ancestor chain newly grants, united and
    /// without duplicates.
    pub fn first_level_allowed_folders(&self, user: &str) -> (r: Vec<String>)
        ensures
            strings_distinct(r.deep_view()),
            forall|p: Seq<char>| #[trigger]
                r.deep_view().contains(p) == spec_first_level(
                    folder_models(self.folders@),
                    group_models(self.groups@),
                    user@,
                    p,
                ),
    {
        let ghost fm = folder_models(self.folders@);
        let ghost gm = group_models(self.groups@);
        let ancestors = self.calculate_ancestors();
        let mut hs: Vec<String> = Vec::new();
        let mut k: usize = 0;
        while k < ancestors.len()
            invariant
                k <= ancestors@.len(),
                ancestors@.len() == fm.len(),
                fm == folder_models(self.folders@),
                gm == group_models(self.groups@),
                forall|t: int|
                    0 <= t < ancestors@.len() ==> (#[trigger] ancestors@[t]).0@
                        == self.folders@[t]@ && ancestors@[t].1@ == ancestor_model(fm, t),
                strings_distinct(hs.deep_view()),
                forall|p: Seq<char>| #[trigger]
                    hs.deep_view().contains(p) == first_level_upto(fm, gm, user@, k as int, p),
            decreases ancestors@.len() - k,
        {
            let anc = &ancestors[k];
            let simplified = self.simplify_path(user, &anc.1, &anc.0);
            let ghost ldv = first_level_list(fm, gm, user@, k as int);
            proof {
                assert(folder_models(simplified@) == ldv);
            }
            let mut t: usize = 0;
            while t < simplified.len()
                invariant
                    t <= ldv.len(),
                    ldv == first_level_list(fm, gm, user@, k as int),
                    folder_models(simplified@) == ldv,
                    k < fm.len(),
                    fm == folder_models(self.folders@),
                    gm == group_models(self.groups@),
                    strings_distinct(hs.deep_view()),
                    forall|p: Seq<char>| #[trigger]
                        hs.deep_view().contains(p) == (first_level_upto(fm, gm, user@, k as int, p)
                            || first_level_has_upto(fm, gm, user@, k as int, t as int, p)),
                decreases ldv.len() - t,
            {
                let ghost before = hs.deep_view();
                proof {
                    assert(simplified@[t as int]@ == ldv[t as int]);
                }
                if !vec_contains_string(&hs, simplified[t].path.as_str()) {
                    hs.push(simplified[t].path.clone());
                    proof {
                        assert(hs.deep_view() =~= before.push(ldv[t as int].path));
                    }
                }
                proof {
                    assert forall|p: Seq<char>| #[trigger]
                        hs.deep_view().contains(p) == (first_level_upto(fm, gm, user@, k as int, p)
                            || first_level_has_upto(
                            fm,
                            gm,
                            user@,
                            k as int,
                            t + 1,
                            p,
                        )) by {
                        lemma_first_level_has_upto_step(fm, gm, user@, k as int, t as int, p);
                        if hs.deep_view() != before {
                            lemma_push_contains(before, ldv[t as int].path, p);
                        }
                    }
                    assert forall|i: int, j: int|
                        0 <= i < j < hs.deep_view().len() implies hs.deep_view()[i]
                        != hs.deep_view()[j] by {
                        if hs.deep_view() != before {
                            if j == hs.deep_view().len() - 1 {
                                assert(!before.contains(ldv[t as int].path));
                                assert(before[i] != ldv[t as int].path);
                            }
                        }
                    }
                }
                t += 1;
            }
            proof {
                assert forall|p: Seq<char>| #[trigger]
                    hs.deep_view().contains(p) == first_level_upto(
                    fm,
                    gm,
                    user@,
                    k + 1,
                    p,
                ) by {
                    lemma_first_level_upto_step(fm, gm, user@, k as int, p);
                    assert(first_level_has_upto(fm, gm, user@, k as int, ldv.len() as int, p)
                        == first_level_has(fm, gm, user@, k as int, p));
                }
            }
            k += 1;
        }
        proof {
            assert forall|p: Seq<char>| #[trigger]
                hs.deep_view().contains(p) == spec_first_level(fm, gm, user@, p) by {
                assert(first_level_upto(fm, gm, user@, fm.len() as int, p) == spec_first_level(
                    fm,
                    gm,
                    user@,
                    p,
                ));
            }
        }
        hs
    }

    /// The first-level folder set of every known email, precomputed.
    pub fn calculate_first_level_folders_for_every_user(&self) -> (r: Vec<(String, Vec<String>)>)
        ensures
            r@.len() == self.all_emails_model().len(),
            forall|i: int|
                0 <= i < r@.len() ==> (#[trigger] r@[i]).0@ == self.all_emails_model()[i]
                    && strings_distinct(r@[i].1.deep_view()) && forall|p: Seq<char>| #[trigger]
                    r@[i].1.deep_view().contains(p) == spec_first_level(
                        folder_models(self.folders@),
                        group_models(self.groups@),
                        r@[i].0@,
                        p,
                    ),
    {
        let mut hm: Vec<(String, Vec<String>)> = Vec::new();
        let mut i: usize = 0;
        while i < self.all_emails.len()
            invariant
                i <= self.all_emails@.len(),
                hm@.len() == i,
                forall|t: int|
                    0 <= t < i ==> (#[trigger] hm@[t]).0@ == self.all_emails_model()[t]
                        && strings_distinct(hm@[t].1.deep_view()) && forall|p: Seq<char>|
                        #[trigger] hm@[t].1.deep_view().contains(p) == spec_first_level(
                            folder_models(self.folders@),
                            group_models(self.groups@),
                            hm@[t].0@,
                            p,
                        ),
            decreases self.all_emails@.len() - i,
        {
            let user = self.all_emails[i].clone();
            let folders = self.first_level_allowed_folders(user.as_str());
            hm.push((user, folders));
            i += 1;
        }
        hm
    }

    /// The audited decision: decides as [`Self::is_folder_allowed`] and
    /// records the outcome, classified as a directory or file check.
    pub fn check_access(&self, path_to_check: &str, user_to_check: &str, is_directory: bool) -> (r:
        bool)
        ensures
            r == self.spec_is_folder_allowed(path_to_check@, user_to_check@),
    {
        let r = self.is_folder_allowed(path_to_check, user_to_check);
        self.audit(
            user_to_check,
            if is_directory { "directory" } else { "file" },
            path_to_check,
            "check",
            r,
        );
        r
    }
}

/// The decision is a pure function of the configuration model: two
/// configurations carrying the same folder and group models decide every
/// request alike, and each decision depends on nothing but the models,
/// the path and the email.
pub proof fn lemma_is_folder_allowed_pure(
    o1: &Options,
    o2: &Options,
    path: Seq<char>,
    email: Seq<char>,
)
    requires
        folder_models(o1.folders@) == folder_models(o2.folders@),
        group_models(o1.groups@) == group_models(o2.groups@),
    ensures
        o1.spec_is_folder_allowed(path, email) == o2.spec_is_folder_allowed(path, email),
{
}

/// Input order independence at the configuration level: two
/// configurations holding the same rules — paths pairwise distinct — in
/// any order, each sorted as loading leaves them, and the same groups,
/// decide every request alike.
pub proof fn lemma_folder_order_irrelevant(
    o1: &Options,
    o2: &Options,
    path: Seq<char>,
    email: Seq<char>,
)
    requires
        folders_sorted(o1.folders@),
        folders_sorted(o2.folders@),
        folder_models(o1.folders@).to_multiset() == folder_models(o2.folders@).to_multiset(),
        crate::engine::model_paths_distinct(folder_models(o1.folders@)),
        group_models(o1.groups@) == group_models(o2.groups@),
    ensures
        o1.spec_is_folder_allowed(path, email) == o2.spec_is_folder_allowed(path, email),
{
    let fm1 = folder_models(o1.folders@);
    let fm2 = folder_models(o2.folders@);
    assert(crate::engine::models_sorted(fm1)) by {
        assert forall|i: int, j: int|
            0 <= i < j < fm1.len() implies #[trigger] lex_le(fm1[i].path, fm1[j].path) by {
            assert(lex_le(o1.folders@[i]@.path, o1.folders@[j]@.path));
        }
    }
    assert(crate::engine::models_sorted(fm2)) by {
        assert forall|i: int, j: int|
            0 <= i < j < fm2.len() implies #[trigger] lex_le(fm2[i].path, fm2[j].path) by {
            assert(lex_le(o2.folders@[i]@.path, o2.folders@[j]@.path));
        }
    }
    crate::engine::lemma_order_independent(fm1, fm2, group_models(o1.groups@), path, email);
}

/// What the admission gate decides: forced identities pass, others must
/// carry a known email.
pub open spec fn spec_identity_allowed(o: &Options, id: &ForwardedIdentity) -> bool {
    id.forced || o.all_emails_model().contains(id.email@)
}

/// The admission gate depends on nothing but the forced flag and the
/// known-email membership: two identities agreeing on that single bit
/// are treated alike, whatever their other data.
pub proof fn lemma_identity_allowed_depends_only_on_gate(
    o1: &Options,
    o2: &Options,
    id1: &ForwardedIdentity,
    id2: &ForwardedIdentity,
)
    requires
        (id1.forced || o1.all_emails_model().contains(id1.email@)) == (id2.forced
            || o2.all_emails_model().contains(id2.email@)),
    ensures
        spec_identity_allowed(o1, id1) == spec_identity_allowed(o2, id2),
{
}

} // verus!
