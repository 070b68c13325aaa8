//! The mathematical model of the access-control engine.
//!
//! A decision walks the rules whose paths are literal prefixes of the
//! requested path, in configuration order, accumulating allowed and
//! denied principals, an inheritance flag and the last matching rule
//! path.  The request is allowed when either the path was matched
//! exactly or the last matching rule is inheritable, and the email is
//! covered by the accumulated allowed principals but not by the denied
//! ones.  Deny wins over allow.

use vstd::prelude::*;

use crate::folder::FolderModel;
use crate::strings::{
    is_prefix_of, lemma_lex_le_antisymmetric, lemma_lex_le_total, lex_le,
};

verus! {

/// The mathematical content of a named group of emails.
pub struct GroupModel {
    pub name: Seq<char>,
    pub members: Seq<Seq<char>>,
}

/// The accumulator state of a decision walk.
pub struct AccState {
    pub allowed: Seq<Seq<char>>,
    pub denied: Seq<Seq<char>>,
    pub inheritable: bool,
    pub last_path: Seq<char>,
}

/// Before any rule applies: no principals, no inheritance, and the root
/// path as the last matched rule path.
pub open spec fn init_state() -> AccState {
    AccState {
        allowed: Seq::empty(),
        denied: Seq::empty(),
        inheritable: false,
        last_path: seq!['/'],
    }
}

/// One rule applied to the accumulator.  A rule that breaks inheritance
/// first discards everything collected so far; every rule then
/// contributes its principal lists, overwrites the inheritance flag
/// (inheritance is opt-in per rule) and becomes the last matched rule.
pub open spec fn apply_rule(st: AccState, f: FolderModel) -> AccState {
    let base = if f.breaks_inheritance {
        AccState {
            allowed: Seq::empty(),
            denied: Seq::empty(),
            inheritable: false,
            last_path: st.last_path,
        }
    } else {
        st
    };
    AccState {
        allowed: base.allowed + f.allowed,
        denied: base.denied + f.denied,
        inheritable: f.inheritable,
        last_path: f.path,
    }
}

/// The accumulator after walking `folders` in order, applying exactly
/// the rules whose path is a literal prefix of `path`.
pub open spec fn acc_rules(folders: Seq<FolderModel>, path: Seq<char>) -> AccState
    decreases folders.len(),
{
    if folders.len() == 0 {
        init_state()
    } else {
        let prev = acc_rules(folders.drop_last(), path);
        let f = folders.last();
        if is_prefix_of(f.path, path) {
            apply_rule(prev, f)
        } else {
            prev
        }
    }
}

/// The first group called `name`, if any.
pub open spec fn group_lookup(groups: Seq<GroupModel>, name: Seq<char>) -> Option<Seq<Seq<char>>>
    decreases groups.len(),
{
    if groups.len() == 0 {
        None
    } else if groups.first().name == name {
        Some(groups.first().members)
    } else {
        group_lookup(groups.drop_first(), name)
    }
}

/// A principal of the form `#<group-name>`.
pub open spec fn is_group_ref(p: Seq<char>) -> bool {
    p.len() > 0 && p.first() == '#'
}

/// Whether one principal covers `email`: a group reference covers the
/// members of the referenced group (a missing group covers nobody), and
/// any other principal covers exactly itself.
pub open spec fn principal_covers(groups: Seq<GroupModel>, p: Seq<char>, email: Seq<char>) -> bool {
    if is_group_ref(p) {
        match group_lookup(groups, p.drop_first()) {
            Some(members) => members.contains(email),
            None => false,
        }
    } else {
        p == email
    }
}

/// Whether `email` is covered by any of the `principals` once group
/// references are substituted by their members.
pub open spec fn exploded_contains(
    groups: Seq<GroupModel>,
    principals: Seq<Seq<char>>,
    email: Seq<char>,
) -> bool {
    exists|i: int| 0 <= i < principals.len() && principal_covers(groups, principals[i], email)
}

/// Group explosion as a list: each group reference is replaced by the
/// members of the referenced group (a missing group disappears), every
/// other principal is kept as it is.
pub open spec fn spec_explode(groups: Seq<GroupModel>, principals: Seq<Seq<char>>) -> Seq<
    Seq<char>,
>
    decreases principals.len(),
{
    if principals.len() == 0 {
        Seq::empty()
    } else {
        let rest = spec_explode(groups, principals.drop_last());
        let p = principals.last();
        if is_group_ref(p) {
            match group_lookup(groups, p.drop_first()) {
                Some(members) => rest + members,
                None => rest,
            }
        } else {
            rest.push(p)
        }
    }
}

/// Exploding a principal list preserves exactly the emails it covers.
pub proof fn lemma_explode_membership(
    groups: Seq<GroupModel>,
    principals: Seq<Seq<char>>,
    email: Seq<char>,
)
    ensures
        spec_explode(groups, principals).contains(email) == exploded_contains(
            groups,
            principals,
            email,
        ),
    decreases principals.len(),
{
    if principals.len() == 0 {
    } else {
        let pre = principals.drop_last();
        let p = principals.last();
        let rest = spec_explode(groups, pre);
        lemma_explode_membership(groups, pre, email);

        if exploded_contains(groups, principals, email) {
            let i = choose|i: int|
                0 <= i < principals.len() && principal_covers(groups, principals[i], email);
            if i < principals.len() - 1 {
                assert(pre[i] == principals[i]);
                assert(exploded_contains(groups, pre, email));
                let j = choose|j: int| 0 <= j < rest.len() && rest[j] == email;
                assert(spec_explode(groups, principals)[j] == email);
            } else {
                if is_group_ref(p) {
                    let members = group_lookup(groups, p.drop_first()).unwrap();
                    let j = choose|j: int| 0 <= j < members.len() && members[j] == email;
                    assert((rest + members)[rest.len() + j] == email);
                } else {
                    assert(rest.push(p)[rest.len() as int] == email);
                }
            }
            assert(spec_explode(groups, principals).contains(email));
        }

        if spec_explode(groups, principals).contains(email) {
            let whole = spec_explode(groups, principals);
            let j = choose|j: int| 0 <= j < whole.len() && whole[j] == email;
            if is_group_ref(p) {
                match group_lookup(groups, p.drop_first()) {
                    Some(members) => {
                        if j < rest.len() {
                            assert(rest[j] == email);
                            let i = choose|i: int|
                                0 <= i < pre.len() && principal_covers(groups, pre[i], email);
                            assert(principal_covers(groups, principals[i], email));
                        } else {
                            assert(members[j - rest.len()] == email);
                            assert(principal_covers(
                                groups,
                                principals[principals.len() - 1],
                                email,
                            ));
                        }
                    },
                    None => {
                        assert(rest[j] == email);
                        let i = choose|i: int|
                            0 <= i < pre.len() && principal_covers(groups, pre[i], email);
                        assert(principal_covers(groups, principals[i], email));
                    },
                }
            } else {
                if j < rest.len() {
                    assert(rest[j] == email);
                    let i = choose|i: int|
                        0 <= i < pre.len() && principal_covers(groups, pre[i], email);
                    assert(principal_covers(groups, principals[i], email));
                } else {
                    assert(p == email);
                    assert(principal_covers(groups, principals[principals.len() - 1], email));
                }
            }
            assert(exploded_contains(groups, principals, email));
        }
    }
}

/// The decision procedure: walk the matching rules, then admit the email
/// when the path was matched exactly or the last matching rule is
/// inheritable, and the allowed principals cover the email while the
/// denied ones do not.
pub open spec fn spec_is_allowed(
    folders: Seq<FolderModel>,
    groups: Seq<GroupModel>,
    path: Seq<char>,
    email: Seq<char>,
) -> bool {
    let st = acc_rules(folders, path);
    if path != st.last_path && !st.inheritable {
        false
    } else {
        exploded_contains(groups, st.allowed, email) && !exploded_contains(
            groups,
            st.denied,
            email,
        )
    }
}

/// The best candidate for the topmost ancestor of `target` among the
/// first `n` rules: a rule whose path is a prefix of `target`, with the
/// shortest such path, the earliest one when several share that length.
pub open spec fn scan_ancestor(fm: Seq<FolderModel>, target: Seq<char>, n: int) -> Option<int>
    decreases n,
{
    if n <= 0 {
        None
    } else {
        let prev = scan_ancestor(fm, target, n - 1);
        let j = n - 1;
        if is_prefix_of(fm[j].path, target) {
            match prev {
                None => Some(j),
                Some(b) => if fm[j].path.len() < fm[b].path.len() {
                    Some(j)
                } else {
                    prev
                },
            }
        } else {
            prev
        }
    }
}

/// The topmost ancestor rule of rule `k`: the shortest-path rule whose
/// path is a prefix of rule `k`'s path.  Since a rule is a prefix of
/// itself the scan cannot miss; the fallback to the rule itself mirrors
/// that.
pub open spec fn ancestor_model(fm: Seq<FolderModel>, k: int) -> FolderModel {
    match scan_ancestor(fm, fm[k].path, fm.len() as int) {
        Some(j) => fm[j],
        None => fm[k],
    }
}

/// The walk behind the first-level listing, over the first `n` rules:
/// among the rules lying between `from` and `to` (prefix-wise), an
/// allowed rule is emitted unless the allowed rule just before it in the
/// chain was inheritable — its subtree is then already reachable.  The
/// boolean carries that inheritance state along the walk.
pub open spec fn spec_simplify(
    fm: Seq<FolderModel>,
    gm: Seq<GroupModel>,
    from: Seq<char>,
    to: Seq<char>,
    user: Seq<char>,
    n: int,
) -> (bool, Seq<FolderModel>)
    decreases n,
{
    if n <= 0 {
        (false, Seq::empty())
    } else {
        let (inherited, res) = spec_simplify(fm, gm, from, to, user, n - 1);
        let f = fm[n - 1];
        if is_prefix_of(from, f.path) && is_prefix_of(f.path, to) {
            if spec_is_allowed(fm, gm, f.path, user) {
                (f.inheritable, if !inherited {
                    res.push(f)
                } else {
                    res
                })
            } else {
                (false, res)
            }
        } else {
            (inherited, res)
        }
    }
}

/// The chain walked for rule `k` in the first-level listing: from its
/// topmost ancestor down to the rule itself.
pub open spec fn first_level_list(
    fm: Seq<FolderModel>,
    gm: Seq<GroupModel>,
    user: Seq<char>,
    k: int,
) -> Seq<FolderModel> {
    spec_simplify(fm, gm, ancestor_model(fm, k).path, fm[k].path, user, fm.len() as int).1
}

/// Whether the chain of rule `k` emits a rule at path `p` for `user`.
pub open spec fn first_level_has(
    fm: Seq<FolderModel>,
    gm: Seq<GroupModel>,
    user: Seq<char>,
    k: int,
    p: Seq<char>,
) -> bool {
    exists|t: int|
        0 <= t < first_level_list(fm, gm, user, k).len() && #[trigger] first_level_list(
            fm,
            gm,
            user,
            k,
        )[t].path == p
}

/// The first-level folder set of a user: the union, over every rule, of
/// the entry points its chain emits.
pub open spec fn spec_first_level(
    fm: Seq<FolderModel>,
    gm: Seq<GroupModel>,
    user: Seq<char>,
    p: Seq<char>,
) -> bool {
    exists|k: int| 0 <= k < fm.len() && #[trigger] first_level_has(fm, gm, user, k, p)
}

/// Deny dominance: an email covered by the accumulated denied set at the
/// decision point is refused, whatever the allowed set says.
pub proof fn lemma_deny_dominates(
    folders: Seq<FolderModel>,
    groups: Seq<GroupModel>,
    path: Seq<char>,
    email: Seq<char>,
)
    ensures
        exploded_contains(groups, acc_rules(folders, path).denied, email) ==> !spec_is_allowed(
            folders,
            groups,
            path,
            email,
        ),
{
}

/// The rule models are sorted by path, ascending.
pub open spec fn models_sorted(s: Seq<FolderModel>) -> bool {
    forall|i: int, j: int| 0 <= i < j < s.len() ==> #[trigger] lex_le(s[i].path, s[j].path)
}

/// No two rules share a path.
pub open spec fn model_paths_distinct(s: Seq<FolderModel>) -> bool {
    forall|i: int, j: int| 0 <= i < j < s.len() ==> s[i].path != s[j].path
}

/// Two sorted rule sequences made of the same rules, with pairwise
/// distinct paths, are identical.
proof fn lemma_sorted_distinct_perm(x: Seq<FolderModel>, y: Seq<FolderModel>)
    requires
        models_sorted(x),
        models_sorted(y),
        model_paths_distinct(x),
        x.to_multiset() == y.to_multiset(),
    ensures
        x == y,
    decreases x.len(),
{
    broadcast use vstd::seq_lib::group_to_multiset_ensures;
    broadcast use vstd::multiset::group_multiset_axioms;

    if x.len() == 0 {
        assert(x.to_multiset().len() == 0);
        assert(y.to_multiset().len() == y.len());
        assert(x =~= y);
    } else {
        assert(x.to_multiset().contains(x[0]));
        assert(y.to_multiset().contains(x[0]));
        assert(y.contains(x[0]));
        assert(y.to_multiset().contains(y[0]));
        assert(x.to_multiset().contains(y[0]));
        assert(x.contains(y[0]));
        let i = choose|i: int| 0 <= i < x.len() && x[i] == y[0];
        let j = choose|j: int| 0 <= j < y.len() && y[j] == x[0];
        if i > 0 {
            assert(lex_le(x[0].path, x[i].path));
        }
        if j > 0 {
            assert(lex_le(y[0].path, y[j].path));
        }
        lemma_lex_le_total(x[0].path, x[0].path);
        lemma_lex_le_antisymmetric(x[0].path, y[0].path);
        assert(x[0].path == y[0].path);
        if i > 0 {
            assert(x[0].path != x[i].path);
            assert(false);
        }
        assert(x[0] == y[0]);

        let xr = x.drop_first();
        let yr = y.drop_first();
        assert(xr =~= x.remove(0));
        assert(yr =~= y.remove(0));
        assert(xr.to_multiset() == x.to_multiset().remove(x[0]));
        assert(yr.to_multiset() == y.to_multiset().remove(y[0]));
        assert(xr.to_multiset() == yr.to_multiset());
        assert(models_sorted(xr)) by {
            assert forall|a: int, b: int|
                0 <= a < b < xr.len() implies #[trigger] lex_le(xr[a].path, xr[b].path) by {
                assert(xr[a] == x[a + 1]);
                assert(xr[b] == x[b + 1]);
                assert(lex_le(x[a + 1].path, x[b + 1].path));
            }
        }
        assert(models_sorted(yr)) by {
            assert forall|a: int, b: int|
                0 <= a < b < yr.len() implies #[trigger] lex_le(yr[a].path, yr[b].path) by {
                assert(yr[a] == y[a + 1]);
                assert(yr[b] == y[b + 1]);
                assert(lex_le(y[a + 1].path, y[b + 1].path));
            }
        }
        assert(model_paths_distinct(xr)) by {
            assert forall|a: int, b: int|
                0 <= a < b < xr.len() implies xr[a].path != xr[b].path by {
                assert(xr[a] == x[a + 1]);
                assert(xr[b] == x[b + 1]);
            }
        }
        lemma_sorted_distinct_perm(xr, yr);
        assert(x.len() == y.len());
        assert forall|k: int| 0 <= k < x.len() implies x[k] == y[k] by {
            if k > 0 {
                assert(x[k] == xr[k - 1]);
                assert(y[k] == yr[k - 1]);
            }
        }
        assert(x =~= y);
    }
}

/// Input order independence: the rules of a configuration decide every
/// request the same way whatever order they arrived in, because loading
/// sorts them.  Two sorted sequences of the same rules — rule paths
/// pairwise distinct — give identical decisions.
///
/// With duplicate rule paths this fails: two rules at one path may end
/// up in either order, and the later one wins the inheritance flag.
pub proof fn lemma_order_independent(
    x: Seq<FolderModel>,
    y: Seq<FolderModel>,
    gm: Seq<GroupModel>,
    path: Seq<char>,
    email: Seq<char>,
)
    requires
        models_sorted(x),
        models_sorted(y),
        model_paths_distinct(x),
        x.to_multiset() == y.to_multiset(),
    ensures
        spec_is_allowed(x, gm, path, email) == spec_is_allowed(y, gm, path, email),
{
    lemma_sorted_distinct_perm(x, y);
}

/// `exploded_contains` distributes over concatenation.
proof fn lemma_exploded_concat(
    gm: Seq<GroupModel>,
    a: Seq<Seq<char>>,
    b: Seq<Seq<char>>,
    email: Seq<char>,
)
    ensures
        exploded_contains(gm, a + b, email) == (exploded_contains(gm, a, email)
            || exploded_contains(gm, b, email)),
{
    if exploded_contains(gm, a + b, email) {
        let i = choose|i: int|
            0 <= i < (a + b).len() && principal_covers(gm, (a + b)[i], email);
        if i < a.len() {
            assert(principal_covers(gm, a[i], email));
        } else {
            assert(principal_covers(gm, b[i - a.len()], email));
        }
    }
    if exploded_contains(gm, a, email) {
        let i = choose|i: int| 0 <= i < a.len() && principal_covers(gm, a[i], email);
        assert(principal_covers(gm, (a + b)[i], email));
    }
    if exploded_contains(gm, b, email) {
        let i = choose|i: int| 0 <= i < b.len() && principal_covers(gm, b[i], email);
        assert(principal_covers(gm, (a + b)[a.len() + i], email));
    }
}

/// `exploded_contains` over a pushed principal.
proof fn lemma_exploded_push(
    gm: Seq<GroupModel>,
    a: Seq<Seq<char>>,
    p: Seq<char>,
    email: Seq<char>,
)
    ensures
        exploded_contains(gm, a.push(p), email) == (exploded_contains(gm, a, email)
            || principal_covers(gm, p, email)),
{
    if exploded_contains(gm, a.push(p), email) {
        let i = choose|i: int|
            0 <= i < a.push(p).len() && principal_covers(gm, a.push(p)[i], email);
        if i < a.len() {
            assert(principal_covers(gm, a[i], email));
        } else {
            assert(principal_covers(gm, p, email));
        }
    }
    if exploded_contains(gm, a, email) {
        let i = choose|i: int| 0 <= i < a.len() && principal_covers(gm, a[i], email);
        assert(principal_covers(gm, a.push(p)[i], email));
    }
    if principal_covers(gm, p, email) {
        assert(principal_covers(gm, a.push(p)[a.len() as int], email));
    }
}

/// Over principals that are all plain emails, coverage is membership.
proof fn lemma_exploded_plain(gm: Seq<GroupModel>, members: Seq<Seq<char>>, email: Seq<char>)
    requires
        forall|i: int| 0 <= i < members.len() ==> !is_group_ref(#[trigger] members[i]),
    ensures
        exploded_contains(gm, members, email) == members.contains(email),
{
    if exploded_contains(gm, members, email) {
        let i = choose|i: int|
            0 <= i < members.len() && principal_covers(gm, members[i], email);
        assert(members[i] == email);
    }
    if members.contains(email) {
        let i = choose|i: int| 0 <= i < members.len() && members[i] == email;
        assert(principal_covers(gm, members[i], email));
    }
}

/// Replaces every occurrence of the group reference `gref` in a
/// principal list by the `members` it stands for.
pub open spec fn replace_group_in_list(
    items: Seq<Seq<char>>,
    gref: Seq<char>,
    members: Seq<Seq<char>>,
) -> Seq<Seq<char>>
    decreases items.len(),
{
    if items.len() == 0 {
        Seq::empty()
    } else {
        let rest = replace_group_in_list(items.drop_last(), gref, members);
        if items.last() == gref {
            rest + members
        } else {
            rest.push(items.last())
        }
    }
}

/// The same replacement applied to both principal lists of one rule.
pub open spec fn replace_group_in_folder(
    f: FolderModel,
    gref: Seq<char>,
    members: Seq<Seq<char>>,
) -> FolderModel {
    FolderModel {
        path: f.path,
        inheritable: f.inheritable,
        breaks_inheritance: f.breaks_inheritance,
        allowed: replace_group_in_list(f.allowed, gref, members),
        denied: replace_group_in_list(f.denied, gref, members),
    }
}

/// The replacement applied to every rule.
pub open spec fn replace_group_in_folders(
    fm: Seq<FolderModel>,
    gref: Seq<char>,
    members: Seq<Seq<char>>,
) -> Seq<FolderModel> {
    fm.map_values(|f: FolderModel| replace_group_in_folder(f, gref, members))
}

/// Replacement distributes over concatenation of principal lists.
proof fn lemma_replace_concat(
    a: Seq<Seq<char>>,
    b: Seq<Seq<char>>,
    gref: Seq<char>,
    members: Seq<Seq<char>>,
)
    ensures
        replace_group_in_list(a + b, gref, members) == replace_group_in_list(a, gref, members)
            + replace_group_in_list(b, gref, members),
    decreases b.len(),
{
    if b.len() == 0 {
        assert(a + b =~= a);
        assert(replace_group_in_list(b, gref, members) =~= Seq::<Seq<char>>::empty());
        assert(replace_group_in_list(a, gref, members) + replace_group_in_list(b, gref, members)
            =~= replace_group_in_list(a, gref, members));
    } else {
        assert((a + b).drop_last() =~= a + b.drop_last());
        assert((a + b).last() == b.last());
        lemma_replace_concat(a, b.drop_last(), gref, members);
        let ra = replace_group_in_list(a, gref, members);
        let rb = replace_group_in_list(b.drop_last(), gref, members);
        if b.last() == gref {
            assert((ra + rb) + members =~= ra + (rb + members));
        } else {
            assert((ra + rb).push(b.last()) =~= ra + rb.push(b.last()));
        }
    }
}

/// Replacing a group reference by its members preserves exactly the
/// emails a principal list covers, as long as the reference really names
/// `members` and no member is itself written as a group reference.
proof fn lemma_replace_membership(
    gm: Seq<GroupModel>,
    items: Seq<Seq<char>>,
    gref: Seq<char>,
    members: Seq<Seq<char>>,
    email: Seq<char>,
)
    requires
        is_group_ref(gref),
        group_lookup(gm, gref.drop_first()) == Some(members),
        forall|i: int| 0 <= i < members.len() ==> !is_group_ref(#[trigger] members[i]),
    ensures
        exploded_contains(gm, replace_group_in_list(items, gref, members), email)
            == exploded_contains(gm, items, email),
    decreases items.len(),
{
    if items.len() == 0 {
        assert(!exploded_contains(gm, items, email));
        assert(!exploded_contains(gm, Seq::<Seq<char>>::empty(), email));
    } else {
        let pre = items.drop_last();
        let p = items.last();
        let rest = replace_group_in_list(pre, gref, members);
        lemma_replace_membership(gm, pre, gref, members, email);
        lemma_exploded_push(gm, pre, p, email);
        assert(items =~= pre.push(p));
        if p == gref {
            lemma_exploded_concat(gm, rest, members, email);
            lemma_exploded_plain(gm, members, email);
            assert(principal_covers(gm, gref, email) == members.contains(email));
        } else {
            lemma_exploded_push(gm, rest, p, email);
        }
    }
}

/// The rule walk commutes with the replacement: the accumulated lists
/// are the replaced lists, and the flags and last path are untouched.
proof fn lemma_replace_acc(
    fm: Seq<FolderModel>,
    gref: Seq<char>,
    members: Seq<Seq<char>>,
    path: Seq<char>,
)
    ensures
        ({
            let st1 = acc_rules(replace_group_in_folders(fm, gref, members), path);
            let st0 = acc_rules(fm, path);
            st1.allowed == replace_group_in_list(st0.allowed, gref, members) && st1.denied
                == replace_group_in_list(st0.denied, gref, members) && st1.inheritable
                == st0.inheritable && st1.last_path == st0.last_path
        }),
    decreases fm.len(),
{
    let rfm = replace_group_in_folders(fm, gref, members);
    if fm.len() == 0 {
        assert(rfm =~= Seq::<FolderModel>::empty());
        assert(replace_group_in_list(Seq::empty(), gref, members) =~= Seq::<Seq<char>>::empty());
    } else {
        lemma_replace_acc(fm.drop_last(), gref, members, path);
        assert(rfm.drop_last() =~= replace_group_in_folders(fm.drop_last(), gref, members));
        assert(rfm.last() == replace_group_in_folder(fm.last(), gref, members));
        let st0p = acc_rules(fm.drop_last(), path);
        let f = fm.last();
        let rf = rfm.last();
        assert(rf.path == f.path);
        if is_prefix_of(f.path, path) {
            let base0 = if f.breaks_inheritance {
                AccState {
                    allowed: Seq::empty(),
                    denied: Seq::empty(),
                    inheritable: false,
                    last_path: st0p.last_path,
                }
            } else {
                st0p
            };
            if f.breaks_inheritance {
                assert(replace_group_in_list(Seq::empty(), gref, members) =~= Seq::<
                    Seq<char>,
                >::empty());
            }
            lemma_replace_concat(base0.allowed, f.allowed, gref, members);
            lemma_replace_concat(base0.denied, f.denied, gref, members);
        }
    }
}

/// Group explosion is associative: substituting a group's members for
/// every occurrence of its reference in the rules changes no decision,
/// as long as no member is itself written as a group reference.  (A
/// member written `#…` would be exploded a second time, which the
/// reference it replaced was not.)
pub proof fn lemma_group_explosion_associative(
    fm: Seq<FolderModel>,
    gm: Seq<GroupModel>,
    gref: Seq<char>,
    members: Seq<Seq<char>>,
    path: Seq<char>,
    email: Seq<char>,
)
    requires
        is_group_ref(gref),
        group_lookup(gm, gref.drop_first()) == Some(members),
        forall|i: int| 0 <= i < members.len() ==> !is_group_ref(#[trigger] members[i]),
    ensures
        spec_is_allowed(replace_group_in_folders(fm, gref, members), gm, path, email)
            == spec_is_allowed(fm, gm, path, email),
{
    lemma_replace_acc(fm, gref, members, path);
    let st = acc_rules(fm, path);
    lemma_replace_membership(gm, st.allowed, gref, members, email);
    lemma_replace_membership(gm, st.denied, gref, members, email);
}

/// The non-inheritable boundary: when no rule matches the path exactly
/// and the rule walk ends without inheritance, every email is refused.
pub proof fn lemma_non_inheritable_boundary(
    folders: Seq<FolderModel>,
    groups: Seq<GroupModel>,
    path: Seq<char>,
    email: Seq<char>,
)
    ensures
        ({
            let st = acc_rules(folders, path);
            (path != st.last_path && !st.inheritable) ==> !spec_is_allowed(
                folders,
                groups,
                path,
                email,
            )
        }),
{
}

} // verus!
