//! The transitive dependency resolver.
//!
//! Resolution turns declared refs into concrete commit identifiers and a
//! flat, conflict-free set of [`ResolvedDep`] values. One shared resolved
//! set is threaded through the whole traversal: when a name comes up again
//! with the same source and commit it is deduplicated, and any divergence
//! aborts the run with a conflict carrying both commit identifiers — there
//! is no "pick one side" heuristic.
//!
//! The traversal itself is a worklist machine, [`Resolution`]: the caller
//! (or [`resolve`], against a [`RepoStore`]) repeatedly reads the next
//! pending dependency, resolves its ref, reports the commit back through
//! [`Resolution::resolve_next`], and queues the dependency's own manifest
//! entries through [`Resolution::push_deps`]. The finished set is sorted by
//! name, so the output is deterministic whatever the traversal order was.

use vstd::prelude::*;
use vstd::multiset::Multiset;
use vstd::relations::sorted_by;

use crate::error::NuanceError;
use crate::git::{find_repo_spec, manifest_at, resolve_ref_spec, RefKind, Repo, RepoStore};
use crate::lockfile::LockedPackage;
use crate::manifest::{copy_dependency, dep_names, deps_valid, exactly_one_ref, has_dep_name,
    manifest_valid,
    ref_spec_view, Dependency, DependencySpec, Manifest};
use crate::strutil;

verus! {

broadcast use vstd::seq_lib::group_to_multiset_ensures, vstd::multiset::group_multiset_axioms;

/// A fully resolved dependency: the output unit of resolution. Its commit
/// identifier is always a full concrete revision, never a symbolic ref.
#[derive(Debug, Clone)]
pub struct ResolvedDep {
    /// The dependency name.
    pub name: String,
    /// The git URL it resolves from.
    pub git: String,
    /// The tag label it was declared with, if any.
    pub tag: Option<String>,
    /// The concrete commit identifier.
    pub rev: String,
}

/// Whether some resolved entry carries the given name.
pub open spec fn has_resolved(v: Seq<ResolvedDep>, name: Seq<char>) -> bool {
    exists|i: int| 0 <= i < v.len() && (#[trigger] v[i]).name@ == name
}

/// No two resolved entries share a name.
pub open spec fn resolved_names_unique(v: Seq<ResolvedDep>) -> bool {
    forall|i: int, j: int| 0 <= i < j < v.len() ==> v[i].name@ != v[j].name@
}

/// The in-flight state of one resolution run: the dependencies still to
/// process (a stack, top at the end) and the entries resolved so far, in
/// first-encountered order with unique names.
pub struct Resolution {
    /// Dependencies waiting to be resolved.
    pub pending: Vec<Dependency>,
    /// The shared resolved set, in insertion order.
    pub resolved: Vec<ResolvedDep>,
}

/// The machine's invariant: resolved names are unique, and every pending
/// spec carries exactly one ref.
pub open spec fn resolution_wf(r: Resolution) -> bool {
    resolved_names_unique(r.resolved@) && deps_valid(r.pending@)
}

/// The index of the entry carrying `name`, if one does.
fn find_by_name(v: &Vec<ResolvedDep>, name: &str) -> (r: Option<usize>)
    ensures
        r matches Some(i) ==> i < v@.len() && v@[i as int].name@ == name@,
        r is None ==> forall|j: int| 0 <= j < v@.len() ==> (#[trigger] v@[j]).name@ != name@,
{
    let n = v.len();
    let mut i: usize = 0;
    while i < n
        invariant
            i <= n,
            n == v@.len(),
            forall|j: int| 0 <= j < i ==> (#[trigger] v@[j]).name@ != name@,
        decreases n - i,
    {
        if strutil::str_eq(v[i].name.as_str(), name) {
            return Some(i);
        }
        i = i + 1;
    }
    None
}

impl Resolution {
    /// A fresh run over the given root dependencies.
    pub fn new(root_deps: &Vec<Dependency>) -> (r: Resolution)
        requires
            deps_valid(root_deps@),
        ensures
            r.pending@ == root_deps@,
            r.resolved@ == Seq::<ResolvedDep>::empty(),
            resolution_wf(r),
    {
        let n = root_deps.len();
        let mut pending: Vec<Dependency> = Vec::new();
        let mut i: usize = 0;
        while i < n
            invariant
                i <= n,
                n == root_deps@.len(),
                pending@ == root_deps@.take(i as int),
            decreases n - i,
        {
            pending.push(copy_dependency(&root_deps[i]));
            proof {
                assert(root_deps@.take(i + 1) =~= root_deps@.take(i as int).push(
                    root_deps@[i as int],
                ));
            }
            i = i + 1;
        }
        proof {
            assert(root_deps@.take(n as int) =~= root_deps@);
        }
        Resolution { pending, resolved: Vec::new() }
    }

    /// The dependency to resolve next, if any work is left.
    pub fn next_dep(&self) -> (r: Option<&Dependency>)
        ensures
            r is Some <==> self.pending@.len() > 0,
            r matches Some(d) ==> *d == self.pending@.last(),
    {
        let n = self.pending.len();
        if n == 0 {
            None
        } else {
            Some(&self.pending[n - 1])
        }
    }

    /// Record what the pending top resolved to.
    ///
    /// The top is popped. If its name is new, the entry joins the resolved
    /// set and `Ok(true)` asks the caller to queue the dependency's own
    /// manifest entries. If the name is already resolved to the same source
    /// and the same commit, nothing changes: `Ok(false)` — this is how
    /// diamond dependencies are deduplicated, first encountered wins. If the
    /// existing entry disagrees in source or commit, the whole run fails
    /// with a conflict carrying the name and both commit identifiers.
    pub fn resolve_next(&mut self, rev: String) -> (r: Result<bool, NuanceError>)
        requires
            old(self).pending@.len() > 0,
            resolution_wf(*old(self)),
        ensures
            resolution_wf(*final(self)),
            final(self).pending@ == old(self).pending@.drop_last(),
            r matches Ok(true) ==> !has_resolved(
                old(self).resolved@,
                old(self).pending@.last().name@,
            ) && final(self).resolved@ == old(self).resolved@.push(
                (ResolvedDep {
                    name: old(self).pending@.last().name,
                    git: old(self).pending@.last().spec.git,
                    tag: old(self).pending@.last().spec.tag,
                    rev: rev,
                }),
            ),
            r matches Ok(false) ==> final(self).resolved@ == old(self).resolved@ && exists|i: int|
                0 <= i < old(self).resolved@.len() && (#[trigger] old(self).resolved@[i]).name@
                    == old(self).pending@.last().name@ && old(self).resolved@[i].git@ == old(
                    self,
                ).pending@.last().spec.git@ && old(self).resolved@[i].rev@ == rev@,
            r matches Err(e) ==> final(self).resolved@ == old(self).resolved@ && (e matches
                NuanceError::Conflict { name, rev_a, rev_b } && name@ == old(
                self,
            ).pending@.last().name@ && rev_b@ == rev@ && exists|i: int|
                0 <= i < old(self).resolved@.len() && (#[trigger] old(self).resolved@[i]).name@
                    == old(self).pending@.last().name@ && old(self).resolved@[i].rev@ == rev_a@ && (
                old(self).resolved@[i].git@ != old(self).pending@.last().spec.git@ || old(
                    self,
                ).resolved@[i].rev@ != rev@)),
    {
        let d = self.pending.pop().unwrap();
        match find_by_name(&self.resolved, d.name.as_str()) {
            Some(i) => {
                let same_git = strutil::str_eq(self.resolved[i].git.as_str(), d.spec.git.as_str());
                let same_rev = strutil::str_eq(self.resolved[i].rev.as_str(), rev.as_str());
                if same_git && same_rev {
                    Ok(false)
                } else {
                    Err(
                        NuanceError::Conflict {
                            name: d.name,
                            rev_a: self.resolved[i].rev.clone(),
                            rev_b: rev,
                        },
                    )
                }
            },
            None => {
                self.resolved.push(
                    ResolvedDep { name: d.name, git: d.spec.git, tag: d.spec.tag, rev },
                );
                proof {
                    let nv = self.resolved@;
                    let ov = old(self).resolved@;
                    assert forall|p: int, q: int| 0 <= p < q < nv.len() implies nv[p].name@
                        != nv[q].name@ by {
                        if q == nv.len() - 1 {
                            assert(ov[p].name@ != nv[q].name@);
                        }
                    }
                }
                Ok(true)
            },
        }
    }

    /// Queue further dependencies — a freshly resolved dependency's own
    /// manifest entries — on top of the pending work.
    pub fn push_deps(&mut self, deps: &Vec<Dependency>)
        requires
            deps_valid(deps@),
            resolution_wf(*old(self)),
        ensures
            resolution_wf(*final(self)),
            final(self).resolved@ == old(self).resolved@,
            final(self).pending@ == old(self).pending@ + deps@,
    {
        let n = deps.len();
        let mut i: usize = 0;
        proof {
            assert(self.pending@ =~= old(self).pending@ + deps@.take(0));
        }
        while i < n
            invariant
                i <= n,
                n == deps@.len(),
                deps_valid(deps@),
                resolution_wf(*old(self)),
                self.resolved@ == old(self).resolved@,
                self.pending@ == old(self).pending@ + deps@.take(i as int),
            decreases n - i,
        {
            self.pending.push(copy_dependency(&deps[i]));
            proof {
                assert(old(self).pending@ + deps@.take(i + 1) =~= (old(self).pending@
                    + deps@.take(i as int)).push(deps@[i as int]));
            }
            i = i + 1;
        }
        proof {
            assert(deps@.take(n as int) =~= deps@);
            assert(deps_valid(self.pending@)) by {
                let pv = self.pending@;
                assert forall|k: int| 0 <= k < pv.len() implies exactly_one_ref(
                    #[trigger] pv[k].spec,
                ) by {
                    if k < old(self).pending@.len() {
                        assert(pv[k] == old(self).pending@[k]);
                    } else {
                        assert(pv[k] == deps@[k - old(self).pending@.len()]);
                    }
                }
            }
        }
    }
}

/// The name order on resolved dependencies.
pub open spec fn dep_order() -> spec_fn(ResolvedDep, ResolvedDep) -> bool {
    |a: ResolvedDep, b: ResolvedDep| crate::order::str_le(a.name@, b.name@)
}

/// Any two resolved entries compare in at least one direction by name.
proof fn dep_le_total(x: ResolvedDep, y: ResolvedDep)
    ensures
        dep_order()(x, y) || dep_order()(y, x),
{
    crate::order::char_order_strict_total();
    crate::order::lex_le_total(x.name@, y.name@, crate::order::char_order());
}

/// The name order is transitive.
proof fn dep_le_trans(x: ResolvedDep, y: ResolvedDep, z: ResolvedDep)
    requires
        dep_order()(x, y),
        dep_order()(y, z),
    ensures
        dep_order()(x, z),
{
    crate::order::char_order_strict_total();
    crate::order::lex_le_trans(x.name@, y.name@, z.name@, crate::order::char_order());
}

/// The position at which `e` belongs in the name-sorted vector `out`.
fn find_dep_pos(out: &Vec<ResolvedDep>, e: &ResolvedDep) -> (idx: usize)
    ensures
        idx <= out@.len(),
        forall|j: int| 0 <= j < idx ==> !(#[trigger] dep_order()(*e, out@[j])),
        idx < out@.len() ==> dep_order()(*e, out@[idx as int]),
{
    let mut idx: usize = 0;
    while idx < out.len()
        invariant
            idx <= out@.len(),
            forall|j: int| 0 <= j < idx ==> !(#[trigger] dep_order()(*e, out@[j])),
        decreases out@.len() - idx,
    {
        if strutil::str_le_exec(e.name.as_str(), out[idx].name.as_str()) {
            return idx;
        }
        idx = idx + 1;
    }
    idx
}

/// Places `e` into the name-sorted vector `out`, keeping it sorted.
fn insert_dep_sorted(out: &mut Vec<ResolvedDep>, e: ResolvedDep)
    requires
        sorted_by(old(out)@, dep_order()),
    ensures
        sorted_by(final(out)@, dep_order()),
        final(out)@.to_multiset() == old(out)@.to_multiset().insert(e),
{
    let idx = find_dep_pos(out, &e);
    let ghost vs = out@;
    let ghost ev = e;
    out.insert(idx, e);
    proof {
        assert(out@ =~= vs.insert(idx as int, ev));
        crate::order::lemma_to_multiset_insert(vs, idx as int, ev);
        let nvs = out@;
        let leq = dep_order();
        assert forall|p: int, q: int| 0 <= p < q < nvs.len() implies #[trigger] leq(
            nvs[p],
            nvs[q],
        ) by {
            if q < idx {
                assert(leq(vs[p], vs[q]));
            } else if p < idx && q == idx {
                assert(!leq(ev, vs[p]));
                dep_le_total(ev, vs[p]);
            } else if p == idx && q > idx {
                assert(leq(ev, vs[idx as int]));
                if q - 1 > idx {
                    assert(leq(vs[idx as int], vs[q - 1]));
                    dep_le_trans(ev, vs[idx as int], vs[q - 1]);
                }
            } else if p < idx && q > idx {
                assert(leq(vs[p], vs[q - 1]));
            } else if p > idx {
                assert(leq(vs[p - 1], vs[q - 1]));
            }
        }
        assert(sorted_by(nvs, dep_order()));
    }
}

impl Resolution {
    /// Close a finished run: the resolved set, sorted by name for an output
    /// that is deterministic whatever order the traversal took. The entries
    /// are exactly those resolved, and their names stay unique.
    pub fn finish(self) -> (r: Vec<ResolvedDep>)
        requires
            self.pending@.len() == 0,
            resolution_wf(self),
        ensures
            sorted_by(r@, dep_order()),
            r@.to_multiset() == self.resolved@.to_multiset(),
            resolved_names_unique(r@),
    {
        let ghost base = self.resolved@;
        let mut rest = self.resolved;
        let mut out: Vec<ResolvedDep> = Vec::new();
        proof {
            assert(out@.to_multiset().add(rest@.to_multiset()) =~= base.to_multiset());
        }
        while rest.len() > 0
            invariant
                sorted_by(out@, dep_order()),
                out@.to_multiset().add(rest@.to_multiset()) == base.to_multiset(),
            decreases rest@.len(),
        {
            let ghost pre = rest@;
            let e = rest.pop().unwrap();
            proof {
                assert(pre =~= rest@.push(e));
                assert(pre.to_multiset() == rest@.to_multiset().insert(e));
            }
            let ghost outpre = out@;
            insert_dep_sorted(&mut out, e);
            proof {
                let m_out = outpre.to_multiset();
                let m_rest = rest@.to_multiset();
                assert(m_out.insert(e).add(m_rest) =~= m_out.add(m_rest.insert(e)));
            }
        }
        proof {
            assert(rest@.to_multiset() =~= Multiset::<ResolvedDep>::empty());
            assert(out@.to_multiset() =~= base.to_multiset());
            lemma_names_unique_from_multiset(base, out@);
        }
        out
    }
}

/// A permutation of a resolved set with unique names has unique names too.
proof fn lemma_names_unique_from_multiset(a: Seq<ResolvedDep>, b: Seq<ResolvedDep>)
    requires
        resolved_names_unique(a),
        a.to_multiset() == b.to_multiset(),
    ensures
        resolved_names_unique(b),
{
    assert(a.no_duplicates()) by {
        assert forall|i: int, j: int| 0 <= i < a.len() && 0 <= j < a.len() && i != j implies a[i]
            != a[j] by {
            if i < j {
                assert(a[i].name@ != a[j].name@);
            } else {
                assert(a[j].name@ != a[i].name@);
            }
        }
    }
    a.lemma_multiset_has_no_duplicates();
    assert forall|i: int, j: int| 0 <= i < j < b.len() implies b[i].name@ != b[j].name@ by {
        if b[i].name@ == b[j].name@ {
            if b[i] == b[j] {
                assert(b.remove(i).to_multiset() == b.to_multiset().remove(b[i]));
                assert(b.remove(i)[j - 1] == b[j]);
                assert(b.remove(i).to_multiset().contains(b[j]));
                assert(b.to_multiset().count(b[i]) >= 2);
                assert(a.to_multiset().contains(b[i]));
                assert(false);
            } else {
                assert(b.to_multiset().contains(b[i]));
                assert(b.to_multiset().contains(b[j]));
                assert(a.contains(b[i]));
                assert(a.contains(b[j]));
                let k = choose|k: int| 0 <= k < a.len() && a[k] == b[i];
                let l = choose|l: int| 0 <= l < a.len() && a[l] == b[j];
                assert(k != l);
                if k < l {
                    assert(a[k].name@ != a[l].name@);
                } else {
                    assert(a[l].name@ != a[k].name@);
                }
                assert(false);
            }
        }
    }
}

/// The resolved reading of already-locked packages: name, source, tag and
/// commit carried over, the checksum dropped. No fetching is involved.
pub open spec fn resolve_from_lock_spec(pkgs: Seq<LockedPackage>) -> Seq<ResolvedDep> {
    pkgs.map_values(
        |p: LockedPackage| ResolvedDep { name: p.name, git: p.git, tag: p.tag, rev: p.rev },
    )
}

/// Resolve dependencies from already-locked packages, without re-fetching:
/// each locked entry becomes a resolved one, in order, dropping only the
/// checksum.
pub fn resolve_from_lock(locked: &Vec<LockedPackage>) -> (r: Vec<ResolvedDep>)
    ensures
        r@ == resolve_from_lock_spec(locked@),
{
    let n = locked.len();
    let mut out: Vec<ResolvedDep> = Vec::new();
    let mut i: usize = 0;
    proof {
        assert(out@ =~= resolve_from_lock_spec(locked@.take(0)));
    }
    while i < n
        invariant
            i <= n,
            n == locked@.len(),
            out@ == resolve_from_lock_spec(locked@.take(i as int)),
        decreases n - i,
    {
        let p = &locked[i];
        out.push(
            ResolvedDep {
                name: p.name.clone(),
                git: p.git.clone(),
                tag: crate::lockfile::clone_opt(&p.tag),
                rev: p.rev.clone(),
            },
        );
        proof {
            assert(resolve_from_lock_spec(locked@.take(i + 1)) =~= resolve_from_lock_spec(
                locked@.take(i as int),
            ).push(
                (ResolvedDep {
                    name: locked@[i as int].name,
                    git: locked@[i as int].git,
                    tag: locked@[i as int].tag,
                    rev: locked@[i as int].rev,
                }),
            ));
        }
        i = i + 1;
    }
    proof {
        assert(locked@.take(n as int) =~= locked@);
    }
    out
}

/// The ref kind a spec's populated field asks for.
pub open spec fn kind_of(s: DependencySpec) -> RefKind {
    if s.rev is Some {
        RefKind::Rev
    } else if s.tag is Some {
        RefKind::Tag
    } else {
        RefKind::Branch
    }
}

/// What resolving a spec against the store yields: find the repository by
/// URL, then resolve the spec's ref against it.
pub open spec fn store_resolve(s: RepoStore, spec: DependencySpec) -> Option<Seq<char>> {
    match find_repo_spec(s.repos@, spec.git@) {
        Some(repo) => resolve_ref_spec(repo, ref_spec_view(spec), kind_of(spec)),
        None => None,
    }
}

/// The resolved set carries an entry for `d`: same name, same source, and
/// the commit the store resolves `d`'s ref to.
pub open spec fn satisfies_dep(v: Seq<ResolvedDep>, d: Dependency, s: RepoStore) -> bool {
    exists|m: int|
        0 <= m < v.len() && (#[trigger] v[m]).name@ == d.name@ && v[m].git@ == d.spec.git@ && Some(
            v[m].rev@,
        ) == store_resolve(s, d.spec)
}

/// Every manifest recorded in the store is itself valid: the store models
/// repositories whose manifests loaded and validated; a commit whose tree
/// has no valid manifest simply records none.
pub open spec fn store_wf(s: RepoStore) -> bool {
    forall|i: int, j: int|
        0 <= i < s.repos@.len() && 0 <= j < s.repos@[i].manifests@.len() ==> manifest_valid(
            (#[trigger] s.repos@[i].manifests@[j]).1,
        )
}

/// All dependency names declared by any manifest of the listed commits.
pub open spec fn manifests_name_seq(ms: Seq<(String, Manifest)>) -> Seq<Seq<char>>
    decreases ms.len(),
{
    if ms.len() == 0 {
        Seq::empty()
    } else {
        dep_names(ms[0].1.dependencies@) + manifests_name_seq(ms.drop_first())
    }
}

/// All dependency names declared by any manifest of any listed repository.
pub open spec fn repos_name_seq(rs: Seq<Repo>) -> Seq<Seq<char>>
    decreases rs.len(),
{
    if rs.len() == 0 {
        Seq::empty()
    } else {
        manifests_name_seq(rs[0].manifests@) + repos_name_seq(rs.drop_first())
    }
}

/// Every dependency name a resolution over this store and these roots can
/// ever meet: the root names plus every name any store manifest declares.
pub open spec fn universe_seq(s: RepoStore, roots: Seq<Dependency>) -> Seq<Seq<char>> {
    dep_names(roots) + repos_name_seq(s.repos@)
}

/// A name declared by the manifest found at `rev` occurs among the names of
/// the commit list.
proof fn lemma_manifest_names(ms: Seq<(String, Manifest)>, rev: Seq<char>, k: int)
    requires
        manifest_at(ms, rev) is Some,
        0 <= k < manifest_at(ms, rev).unwrap().dependencies@.len(),
    ensures
        manifests_name_seq(ms).contains(
            manifest_at(ms, rev).unwrap().dependencies@[k].name@,
        ),
    decreases ms.len(),
{
    let m = manifest_at(ms, rev).unwrap();
    let x = m.dependencies@[k].name@;
    if ms[0].0@ == rev {
        assert(manifests_name_seq(ms)[k] == dep_names(m.dependencies@)[k]);
        assert(manifests_name_seq(ms)[k] == x);
    } else {
        lemma_manifest_names(ms.drop_first(), rev, k);
        let rest = manifests_name_seq(ms.drop_first());
        let i = choose|i: int| 0 <= i < rest.len() && rest[i] == x;
        assert(manifests_name_seq(ms)[dep_names(ms[0].1.dependencies@).len() + i] == x);
    }
}

/// The manifest found at `rev` is one of the records.
proof fn lemma_manifest_at_member(ms: Seq<(String, Manifest)>, rev: Seq<char>)
    requires
        manifest_at(ms, rev) is Some,
    ensures
        exists|j: int|
            0 <= j < ms.len() && (#[trigger] ms[j]).1 == manifest_at(ms, rev).unwrap(),
    decreases ms.len(),
{
    if ms[0].0@ == rev {
        assert(ms[0].1 == manifest_at(ms, rev).unwrap());
    } else {
        lemma_manifest_at_member(ms.drop_first(), rev);
        let j = choose|j: int|
            0 <= j < ms.drop_first().len() && (#[trigger] ms.drop_first()[j]).1 == manifest_at(
                ms.drop_first(),
                rev,
            ).unwrap();
        assert(ms[j + 1].1 == manifest_at(ms, rev).unwrap());
    }
}

/// The repository found for `url` is one of the store's.
proof fn lemma_find_repo_member(rs: Seq<Repo>, url: Seq<char>)
    requires
        find_repo_spec(rs, url) is Some,
    ensures
        exists|i: int| 0 <= i < rs.len() && #[trigger] rs[i] == find_repo_spec(rs, url).unwrap(),
    decreases rs.len(),
{
    if rs[0].url@ == url {
        assert(rs[0] == find_repo_spec(rs, url).unwrap());
    } else {
        lemma_find_repo_member(rs.drop_first(), url);
        let i = choose|i: int|
            0 <= i < rs.drop_first().len() && #[trigger] rs.drop_first()[i] == find_repo_spec(
                rs.drop_first(),
                url,
            ).unwrap();
        assert(rs[i + 1] == find_repo_spec(rs, url).unwrap());
    }
}

/// A name declared by a manifest of the repository found for `url` occurs
/// among the names of the whole repository list.
proof fn lemma_repo_manifest_names(rs: Seq<Repo>, url: Seq<char>, rev: Seq<char>, k: int)
    requires
        find_repo_spec(rs, url) is Some,
        manifest_at(find_repo_spec(rs, url).unwrap().manifests@, rev) is Some,
        0 <= k < manifest_at(
            find_repo_spec(rs, url).unwrap().manifests@,
            rev,
        ).unwrap().dependencies@.len(),
    ensures
        repos_name_seq(rs).contains(
            manifest_at(
                find_repo_spec(rs, url).unwrap().manifests@,
                rev,
            ).unwrap().dependencies@[k].name@,
        ),
    decreases rs.len(),
{
    let repo = find_repo_spec(rs, url).unwrap();
    let x = manifest_at(repo.manifests@, rev).unwrap().dependencies@[k].name@;
    if rs[0].url@ == url {
        lemma_manifest_names(repo.manifests@, rev, k);
        let ns = manifests_name_seq(repo.manifests@);
        let i = choose|i: int| 0 <= i < ns.len() && ns[i] == x;
        assert(repos_name_seq(rs)[i] == x);
    } else {
        lemma_repo_manifest_names(rs.drop_first(), url, rev, k);
        let rest = repos_name_seq(rs.drop_first());
        let i = choose|i: int| 0 <= i < rest.len() && rest[i] == x;
        assert(repos_name_seq(rs)[manifests_name_seq(rs[0].manifests@).len() + i] == x);
    }
}

/// A resolved set with unique names, all drawn from a finite name universe,
/// cannot outgrow that universe.
proof fn lemma_resolved_bounded(v: Seq<ResolvedDep>, uni: Set<Seq<char>>)
    requires
        resolved_names_unique(v),
        uni.finite(),
        forall|q: int| 0 <= q < v.len() ==> uni.contains((#[trigger] v[q]).name@),
    ensures
        v.len() <= uni.len(),
{
    let names = v.map_values(|d: ResolvedDep| d.name@);
    assert(names.no_duplicates());
    names.unique_seq_to_set();
    assert(names.to_set().subset_of(uni)) by {
        assert forall|x: Seq<char>| names.to_set().contains(x) implies uni.contains(x) by {
            let q = choose|q: int| 0 <= q < names.len() && names[q] == x;
            assert(uni.contains(v[q].name@));
        }
    }
    vstd::set_lib::lemma_len_subset(names.to_set(), uni);
}

/// The dependency table declared by a resolved entry's own manifest in the
/// store, or nothing where the store records no manifest for that commit.
pub open spec fn entry_deps(s: RepoStore, e: ResolvedDep) -> Seq<Dependency> {
    match find_repo_spec(s.repos@, e.git@) {
        Some(repo) => match manifest_at(repo.manifests@, e.rev@) {
            Some(m) => m.dependencies@,
            None => Seq::empty(),
        },
        None => Seq::empty(),
    }
}

/// The resolved set is closed under the store's manifests: every dependency
/// declared by a resolved entry's own manifest is itself resolved, by name.
pub open spec fn closure_complete(v: Seq<ResolvedDep>, s: RepoStore) -> bool {
    forall|q: int, k: int|
        0 <= q < v.len() && 0 <= k < entry_deps(s, v[q]).len() ==> has_resolved(
            v,
            (#[trigger] entry_deps(s, v[q])[k]).name@,
        )
}

/// Whether some manifest anywhere in the store declares `d`.
pub open spec fn store_declares(s: RepoStore, d: Dependency) -> bool {
    exists|i: int, j: int, k: int|
        0 <= i < s.repos@.len() && 0 <= j < s.repos@[i].manifests@.len() && 0 <= k < s.repos@[
            i
        ].manifests@[j].1.dependencies@.len() && (#[trigger] s.repos@[i].manifests@[
            j
        ].1.dependencies@[k]) == d
}

/// A dependency a resolution over this store and these roots can meet at
/// all: a root, or declared by some manifest of the store.
pub open spec fn in_dep_universe(s: RepoStore, roots: Seq<Dependency>, d: Dependency) -> bool {
    roots.contains(d) || store_declares(s, d)
}

/// Every dependency the run can meet finds its repository in the store and
/// resolves its ref to a commit.
pub open spec fn universe_resolvable(s: RepoStore, roots: Seq<Dependency>) -> bool {
    forall|d: Dependency|
        #[trigger] in_dep_universe(s, roots, d) ==> store_resolve(s, d.spec) is Some
}

/// No two dependencies the run can meet disagree for one name: the same
/// name always carries the same source and resolves to the same commit.
pub open spec fn universe_consistent(s: RepoStore, roots: Seq<Dependency>) -> bool {
    forall|d1: Dependency, d2: Dependency|
        #![trigger in_dep_universe(s, roots, d1), in_dep_universe(s, roots, d2)]
        in_dep_universe(s, roots, d1) && in_dep_universe(s, roots, d2) && d1.name@ == d2.name@
            ==> d1.spec.git@ == d2.spec.git@ && store_resolve(s, d1.spec) == store_resolve(
            s,
            d2.spec,
        )
}

/// `d` was met by the run whose resolved set is `v`: it is a root, or
/// declared by the manifest of some resolved entry.
pub open spec fn introduced_by(
    s: RepoStore,
    roots: Seq<Dependency>,
    v: Seq<ResolvedDep>,
    d: Dependency,
) -> bool {
    roots.contains(d) || exists|q: int|
        0 <= q < v.len() && (#[trigger] entry_deps(s, v[q])).contains(d)
}

/// The entry records exactly what the store resolves for some dependency
/// the run met: that dependency's name, source and tag label, and the
/// commit its ref resolves to.
pub open spec fn entry_justified(
    s: RepoStore,
    roots: Seq<Dependency>,
    v: Seq<ResolvedDep>,
    e: ResolvedDep,
) -> bool {
    exists|d: Dependency|
        #[trigger] introduced_by(s, roots, v, d) && d.name@ == e.name@ && d.spec.git@ == e.git@
            && e.tag == d.spec.tag && store_resolve(s, d.spec) == Some(e.rev@)
}

/// A dependency declared by a resolved entry's manifest is declared by the
/// store.
proof fn lemma_entry_deps_declared(s: RepoStore, e: ResolvedDep, d: Dependency)
    requires
        entry_deps(s, e).contains(d),
    ensures
        store_declares(s, d),
{
    let repo = find_repo_spec(s.repos@, e.git@).unwrap();
    let m = manifest_at(repo.manifests@, e.rev@).unwrap();
    lemma_find_repo_member(s.repos@, e.git@);
    lemma_manifest_at_member(repo.manifests@, e.rev@);
    let i = choose|i: int| 0 <= i < s.repos@.len() && #[trigger] s.repos@[i] == repo;
    let j = choose|j: int| 0 <= j < repo.manifests@.len() && (#[trigger] repo.manifests@[j]).1 == m;
    let k = choose|k: int|
        0 <= k < m.dependencies@.len() && #[trigger] m.dependencies@[k] == d;
    assert(s.repos@[i].manifests@[j].1.dependencies@[k] == d);
}

/// Whatever the run met lies in the dependency universe.
proof fn lemma_introduced_in_universe(
    s: RepoStore,
    roots: Seq<Dependency>,
    v: Seq<ResolvedDep>,
    d: Dependency,
)
    requires
        introduced_by(s, roots, v, d),
    ensures
        in_dep_universe(s, roots, d),
{
    if !roots.contains(d) {
        let q = choose|q: int| 0 <= q < v.len() && (#[trigger] entry_deps(s, v[q])).contains(d);
        lemma_entry_deps_declared(s, v[q], d);
    }
}

/// Being met is preserved as the resolved set grows.
proof fn lemma_introduced_monotone(
    s: RepoStore,
    roots: Seq<Dependency>,
    v1: Seq<ResolvedDep>,
    v2: Seq<ResolvedDep>,
    d: Dependency,
)
    requires
        introduced_by(s, roots, v1, d),
        v1.len() <= v2.len(),
        forall|q: int| 0 <= q < v1.len() ==> v2[q] == v1[q],
    ensures
        introduced_by(s, roots, v2, d),
{
    if !roots.contains(d) {
        let q = choose|q: int| 0 <= q < v1.len() && (#[trigger] entry_deps(s, v1[q])).contains(d);
        assert(entry_deps(s, v2[q]).contains(d));
    }
}

/// Resolve all dependencies, including transitive ones, against a store.
///
/// A depth-first traversal over the dependency graph rooted at `root_deps`,
/// threading one shared resolved set: each dependency's source is found in
/// the store and its ref resolved to a concrete commit; a name already
/// resolved identically is skipped, a divergent one aborts with a conflict;
/// a freshly resolved dependency's own manifest entries are queued in turn.
/// The output is sorted by name: deterministic whatever order the traversal
/// took. On success every root dependency is resolved in it, at its own
/// source and at the commit the store gives its ref; the set is closed
/// under the store's manifests (whatever a resolved entry's own manifest
/// declares is resolved too); and every entry records exactly the store's
/// resolution of some dependency the run met. Success is owed whenever
/// every dependency the run can meet resolves and no two of one name
/// diverge; a conflict carries two genuinely diverging resolutions of the
/// conflicting name, and a git error marks a dependency whose repository or
/// ref the store cannot resolve.
pub fn resolve(store: &RepoStore, root_deps: &Vec<Dependency>) -> (r: Result<
    Vec<ResolvedDep>,
    NuanceError,
>)
    requires
        deps_valid(root_deps@),
        store_wf(*store),
    ensures
        r matches Ok(v) ==> sorted_by(v@, dep_order()) && resolved_names_unique(v@)
            && closure_complete(v@, *store) && (forall|k: int|
            0 <= k < root_deps@.len() ==> satisfies_dep(v@, #[trigger] root_deps@[k], *store)) && (
        forall|q: int|
            0 <= q < v@.len() ==> entry_justified(*store, root_deps@, v@, #[trigger] v@[q])),
        r matches Err(e) ==> (e matches NuanceError::Conflict { .. } || e matches NuanceError::Git(
            _,
        )),
        r matches Err(NuanceError::Git(_)) ==> exists|d: Dependency|
            #[trigger] in_dep_universe(*store, root_deps@, d) && store_resolve(*store, d.spec)
                is None,
        r matches Err(NuanceError::Conflict { name, rev_a, rev_b }) ==> exists|
            d1: Dependency,
            d2: Dependency,
        |
            #![trigger in_dep_universe(*store, root_deps@, d1), in_dep_universe(*store, root_deps@, d2)]
            in_dep_universe(*store, root_deps@, d1) && in_dep_universe(*store, root_deps@, d2)
                && d1.name@ == name@ && d2.name@ == name@ && store_resolve(*store, d1.spec) == Some(
                rev_a@,
            ) && store_resolve(*store, d2.spec) == Some(rev_b@) && (d1.spec.git@ != d2.spec.git@
                || rev_a@ != rev_b@),
        universe_resolvable(*store, root_deps@) && universe_consistent(*store, root_deps@)
            ==> r is Ok,
{
    let mut res = Resolution::new(root_deps);
    let ghost uni = universe_seq(*store, root_deps@).to_set();
    let ghost mut rr: int = root_deps@.len() as int;
    proof {
        broadcast use vstd::seq_lib::seq_to_set_is_finite;

        assert(res.pending@.take(rr) == root_deps@.take(rr));
        assert forall|p: int| 0 <= p < res.pending@.len() implies uni.contains(
            (#[trigger] res.pending@[p]).name@,
        ) by {
            assert(universe_seq(*store, root_deps@)[p] == dep_names(root_deps@)[p]);
            assert(universe_seq(*store, root_deps@).contains(res.pending@[p].name@));
        }
        assert forall|p: int| 0 <= p < res.pending@.len() implies introduced_by(
            *store,
            root_deps@,
            res.resolved@,
            #[trigger] res.pending@[p],
        ) by {
            assert(root_deps@[p] == res.pending@[p]);
            assert(root_deps@.contains(res.pending@[p]));
        }
    }
    while res.pending.len() > 0
        invariant
            resolution_wf(res),
            deps_valid(root_deps@),
            store_wf(*store),
            uni == universe_seq(*store, root_deps@).to_set(),
            uni.finite(),
            forall|p: int|
                0 <= p < res.pending@.len() ==> uni.contains((#[trigger] res.pending@[p]).name@),
            forall|q: int|
                0 <= q < res.resolved@.len() ==> uni.contains((#[trigger] res.resolved@[q]).name@),
            res.resolved@.len() <= uni.len(),
            0 <= rr <= root_deps@.len(),
            rr <= res.pending@.len(),
            res.pending@.take(rr) == root_deps@.take(rr),
            forall|k: int|
                rr <= k < root_deps@.len() ==> satisfies_dep(
                    res.resolved@,
                    #[trigger] root_deps@[k],
                    *store,
                ),
            forall|q: int, k: int|
                0 <= q < res.resolved@.len() && 0 <= k < entry_deps(
                    *store,
                    res.resolved@[q],
                ).len() ==> has_resolved(
                    res.resolved@,
                    (#[trigger] entry_deps(*store, res.resolved@[q])[k]).name@,
                ) || has_dep_name(
                    res.pending@,
                    entry_deps(*store, res.resolved@[q])[k].name@,
                ),
            forall|p: int|
                0 <= p < res.pending@.len() ==> introduced_by(
                    *store,
                    root_deps@,
                    res.resolved@,
                    #[trigger] res.pending@[p],
                ),
            forall|q: int|
                0 <= q < res.resolved@.len() ==> entry_justified(
                    *store,
                    root_deps@,
                    res.resolved@,
                    #[trigger] res.resolved@[q],
                ),
        decreases uni.len() - res.resolved@.len(), res.pending@.len(),
    {
        let ghost old_res = res;
        let ghost popped = res.pending@.last();
        proof {
            assert(exactly_one_ref(res.pending@[res.pending@.len() - 1].spec));
        }
        let (dep_git, kind, refspec) = {
            let top = res.next_dep().unwrap();
            (
                top.spec.git.clone(),
                RefKind::from_spec(&top.spec.tag, &top.spec.rev, &top.spec.branch),
                String::from_str(top.spec.ref_spec()),
            )
        };
        let repo = match store.find_repo(dep_git.as_str()) {
            Some(rp) => rp,
            None => {
                proof {
                    lemma_introduced_in_universe(*store, root_deps@, res.resolved@, popped);
                    assert(store_resolve(*store, popped.spec) is None);
                    assert(in_dep_universe(*store, root_deps@, popped));
                }
                return Err(
                    NuanceError::Git(
                        String::from_str("repository not found: ").concat(dep_git.as_str()),
                    ),
                );
            },
        };
        let rev = match crate::git::resolve_ref(repo, refspec.as_str(), kind) {
            Ok(rev) => rev,
            Err(e) => {
                proof {
                    assert(kind == kind_of(popped.spec));
                    assert(refspec@ == ref_spec_view(popped.spec));
                    assert(store_resolve(*store, popped.spec) is None);
                    lemma_introduced_in_universe(*store, root_deps@, res.resolved@, popped);
                    assert(in_dep_universe(*store, root_deps@, popped));
                }
                return Err(e);
            },
        };
        proof {
            assert(kind == kind_of(popped.spec));
            assert(refspec@ == ref_spec_view(popped.spec));
            assert(store_resolve(*store, popped.spec) == Some(rev@));
        }
        let rev_for_lookup = rev.clone();
        match res.resolve_next(rev) {
            Ok(inserted) => {
                if inserted {
                    proof {
                        assert(res.resolved@.last().git@ == dep_git@);
                        assert(res.resolved@.last().rev@ == rev_for_lookup@);
                    }
                    match repo.manifest_of(rev_for_lookup.as_str()) {
                        Some(m) => {
                            proof {
                                lemma_find_repo_member(store.repos@, dep_git@);
                                lemma_manifest_at_member(repo.manifests@, rev_for_lookup@);
                                assert(manifest_valid(*m));
                                assert(entry_deps(*store, res.resolved@.last())
                                    == m.dependencies@);
                            }
                            if m.dependencies.len() > 0 {
                                res.push_deps(&m.dependencies);
                                proof {
                                    assert(res.pending@ == old_res.pending@.drop_last()
                                        + m.dependencies@);
                                    assert forall|k: int|
                                        0 <= k < m.dependencies@.len() implies uni.contains(
                                        (#[trigger] m.dependencies@[k]).name@,
                                    ) by {
                                        lemma_repo_manifest_names(
                                            store.repos@,
                                            dep_git@,
                                            rev_for_lookup@,
                                            k,
                                        );
                                        let rseq = repos_name_seq(store.repos@);
                                        let x = m.dependencies@[k].name@;
                                        let i = choose|i: int|
                                            0 <= i < rseq.len() && rseq[i] == x;
                                        assert(universe_seq(*store, root_deps@)[dep_names(
                                            root_deps@,
                                        ).len() + i] == x);
                                        assert(universe_seq(*store, root_deps@).contains(x));
                                    }
                                }
                            }
                        },
                        None => {
                            proof {
                                assert(entry_deps(*store, res.resolved@.last()).len() == 0);
                            }
                        },
                    }
                }
            },
            Err(e) => {
                proof {
                    let i = choose|i: int|
                        0 <= i < old_res.resolved@.len() && (#[trigger] old_res.resolved@[
                            i
                        ]).name@ == popped.name@ && old_res.resolved@[i].rev@ == (e->Conflict_rev_a)@
                            && (old_res.resolved@[i].git@ != popped.spec.git@ || old_res.resolved@[
                            i
                        ].rev@ != rev_for_lookup@);
                    let entry = old_res.resolved@[i];
                    assert(entry_justified(*store, root_deps@, old_res.resolved@, entry));
                    let d1 = choose|d: Dependency|
                        #[trigger] introduced_by(*store, root_deps@, old_res.resolved@, d)
                            && d.name@ == entry.name@ && d.spec.git@ == entry.git@ && entry.tag
                            == d.spec.tag && store_resolve(*store, d.spec) == Some(entry.rev@);
                    lemma_introduced_in_universe(*store, root_deps@, old_res.resolved@, d1);
                    lemma_introduced_in_universe(*store, root_deps@, old_res.resolved@, popped);
                    assert(in_dep_universe(*store, root_deps@, d1));
                    assert(in_dep_universe(*store, root_deps@, popped));
                    assert(store_resolve(*store, popped.spec) == Some(rev_for_lookup@));
                }
                return Err(e);
            },
        }
        proof {
            // The pushed entry (if any) draws its name from the popped
            // dependency, whose name sat in the universe already.
            assert forall|q: int| 0 <= q < res.resolved@.len() implies uni.contains(
                (#[trigger] res.resolved@[q]).name@,
            ) by {
                if q < old_res.resolved@.len() {
                    assert(uni.contains(old_res.resolved@[q].name@));
                } else {
                    assert(res.resolved@[q].name@ == popped.name@);
                    assert(uni.contains(old_res.pending@[old_res.pending@.len() - 1].name@));
                }
            }
            lemma_resolved_bounded(res.resolved@, uni);
            // Closure bookkeeping: every obligation of the resolved set is
            // met in it or still waiting in the pending stack.
            assert forall|q: int, k: int|
                0 <= q < res.resolved@.len() && 0 <= k < entry_deps(
                    *store,
                    res.resolved@[q],
                ).len() implies has_resolved(
                res.resolved@,
                (#[trigger] entry_deps(*store, res.resolved@[q])[k]).name@,
            ) || has_dep_name(
                res.pending@,
                entry_deps(*store, res.resolved@[q])[k].name@,
            ) by {
                let nm = entry_deps(*store, res.resolved@[q])[k].name@;
                if q < old_res.resolved@.len() {
                    assert(res.resolved@[q] == old_res.resolved@[q]);
                    if has_resolved(old_res.resolved@, nm) {
                        let i = choose|i: int|
                            0 <= i < old_res.resolved@.len() && (#[trigger] old_res.resolved@[
                                i
                            ]).name@ == nm;
                        assert(res.resolved@[i].name@ == nm);
                    } else {
                        let j = choose|j: int|
                            0 <= j < old_res.pending@.len() && (#[trigger] old_res.pending@[
                                j
                            ]).name@ == nm;
                        if j < old_res.pending@.len() - 1 {
                            assert(res.pending@[j].name@ == nm);
                        } else {
                            assert(nm == popped.name@);
                            if res.resolved@.len() > old_res.resolved@.len() {
                                assert(res.resolved@.last().name@ == nm);
                            }
                        }
                    }
                } else {
                    assert(res.resolved@[q] == res.resolved@.last());
                    if entry_deps(*store, res.resolved@.last()).len() > 0 {
                        assert(res.pending@[old_res.pending@.len() - 1 + k].name@ == nm);
                    }
                }
            }
            // Provenance bookkeeping: every pending dependency was met by
            // the run, and every resolved entry records the store's
            // resolution of a met dependency.
            assert forall|p: int| 0 <= p < res.pending@.len() implies introduced_by(
                *store,
                root_deps@,
                res.resolved@,
                #[trigger] res.pending@[p],
            ) by {
                if p < old_res.pending@.len() - 1 {
                    assert(res.pending@[p] == old_res.pending@[p]);
                    lemma_introduced_monotone(
                        *store,
                        root_deps@,
                        old_res.resolved@,
                        res.resolved@,
                        old_res.pending@[p],
                    );
                } else {
                    let newe = res.resolved@[res.resolved@.len() - 1];
                    assert(entry_deps(*store, newe)[p - (old_res.pending@.len() - 1)]
                        == res.pending@[p]);
                    assert(entry_deps(*store, newe).contains(res.pending@[p]));
                }
            }
            assert forall|q: int| 0 <= q < res.resolved@.len() implies entry_justified(
                *store,
                root_deps@,
                res.resolved@,
                #[trigger] res.resolved@[q],
            ) by {
                if q < old_res.resolved@.len() {
                    assert(entry_justified(
                        *store,
                        root_deps@,
                        old_res.resolved@,
                        old_res.resolved@[q],
                    ));
                    let e = old_res.resolved@[q];
                    let d = choose|d: Dependency|
                        #[trigger] introduced_by(*store, root_deps@, old_res.resolved@, d)
                            && d.name@ == e.name@ && d.spec.git@ == e.git@ && e.tag == d.spec.tag
                            && store_resolve(*store, d.spec) == Some(e.rev@);
                    lemma_introduced_monotone(
                        *store,
                        root_deps@,
                        old_res.resolved@,
                        res.resolved@,
                        d,
                    );
                } else {
                    lemma_introduced_monotone(
                        *store,
                        root_deps@,
                        old_res.resolved@,
                        res.resolved@,
                        popped,
                    );
                    assert(res.resolved@[q] == res.resolved@.last());
                    assert(store_resolve(*store, popped.spec) == Some(rev_for_lookup@));
                    assert(introduced_by(*store, root_deps@, res.resolved@, popped));
                }
            }
            // Root bookkeeping: the bottom of the stack is still the prefix
            // of unprocessed roots, and every processed root is satisfied.
            let opend = old_res.pending@;
            if rr == opend.len() {
                rr = rr - 1;
                assert(opend.take(rr + 1) =~= opend);
                assert(popped == root_deps@[rr]);
                assert(satisfies_dep(res.resolved@, root_deps@[rr], *store)) by {
                    if res.resolved@.len() > old_res.resolved@.len() {
                        let m = res.resolved@.len() - 1;
                        assert(res.resolved@[m].name@ == popped.name@);
                        assert(res.resolved@[m].git@ == popped.spec.git@);
                        assert(res.resolved@[m].rev@ == rev_for_lookup@);
                    } else {
                        let i = choose|i: int|
                            0 <= i < old_res.resolved@.len() && (#[trigger] old_res.resolved@[
                                i
                            ]).name@ == popped.name@ && old_res.resolved@[i].git@
                                == popped.spec.git@ && old_res.resolved@[i].rev@
                                == rev_for_lookup@;
                        assert(res.resolved@[i].name@ == popped.name@);
                    }
                }
            }
            assert(res.pending@.take(rr) =~= root_deps@.take(rr)) by {
                assert(opend.drop_last().take(rr) =~= opend.take(rr));
            }
            assert forall|k: int| rr <= k < root_deps@.len() implies satisfies_dep(
                res.resolved@,
                #[trigger] root_deps@[k],
                *store,
            ) by {
                if satisfies_dep(old_res.resolved@, root_deps@[k], *store) {
                    let m = choose|m: int|
                        0 <= m < old_res.resolved@.len() && (#[trigger] old_res.resolved@[
                            m
                        ]).name@ == root_deps@[k].name@ && old_res.resolved@[m].git@ == root_deps@[
                            k
                        ].spec.git@ && Some(old_res.resolved@[m].rev@) == store_resolve(
                            *store,
                            root_deps@[k].spec,
                        );
                    assert(res.resolved@[m] == old_res.resolved@[m]);
                }
            }
        }
    }
    proof {
        assert(rr == 0);
    }
    let ghost base = res.resolved@;
    let out = res.finish();
    proof {
        assert forall|k: int| 0 <= k < root_deps@.len() implies satisfies_dep(
            out@,
            #[trigger] root_deps@[k],
            *store,
        ) by {
            let m = choose|m: int|
                0 <= m < base.len() && (#[trigger] base[m]).name@ == root_deps@[k].name@ && base[
                    m
                ].git@ == root_deps@[k].spec.git@ && Some(base[m].rev@) == store_resolve(
                    *store,
                    root_deps@[k].spec,
                );
            let e = base[m];
            assert(base.to_multiset().contains(e));
            assert(out@.to_multiset().contains(e));
            assert(out@.contains(e));
            let n = choose|n: int| 0 <= n < out@.len() && out@[n] == e;
            assert(out@[n].name@ == root_deps@[k].name@);
        }
        assert forall|q: int, k: int|
            0 <= q < out@.len() && 0 <= k < entry_deps(*store, out@[q]).len() implies has_resolved(
            out@,
            (#[trigger] entry_deps(*store, out@[q])[k]).name@,
        ) by {
            let e = out@[q];
            let nm = entry_deps(*store, e)[k].name@;
            assert(out@.contains(e));
            assert(out@.to_multiset().contains(e));
            assert(base.to_multiset().contains(e));
            assert(base.contains(e));
            let qq = choose|qq: int| 0 <= qq < base.len() && base[qq] == e;
            assert(entry_deps(*store, base[qq]) == entry_deps(*store, e));
            assert(has_resolved(base, nm));
            let i = choose|i: int|
                0 <= i < base.len() && (#[trigger] base[i]).name@ == nm;
            assert(base.contains(base[i]));
            assert(base.to_multiset().contains(base[i]));
            assert(out@.to_multiset().contains(base[i]));
            assert(out@.contains(base[i]));
            let n = choose|n: int| 0 <= n < out@.len() && out@[n] == base[i];
            assert(out@[n].name@ == nm);
        }
        assert forall|q: int| 0 <= q < out@.len() implies entry_justified(
            *store,
            root_deps@,
            out@,
            #[trigger] out@[q],
        ) by {
            let e = out@[q];
            assert(out@.contains(e));
            assert(out@.to_multiset().contains(e));
            assert(base.to_multiset().contains(e));
            assert(base.contains(e));
            let qq = choose|qq: int| 0 <= qq < base.len() && base[qq] == e;
            assert(entry_justified(*store, root_deps@, base, base[qq]));
            let d = choose|d: Dependency|
                #[trigger] introduced_by(*store, root_deps@, base, d) && d.name@ == e.name@
                    && d.spec.git@ == e.git@ && e.tag == d.spec.tag && store_resolve(
                    *store,
                    d.spec,
                ) == Some(e.rev@);
            if !root_deps@.contains(d) {
                let qa = choose|qa: int|
                    0 <= qa < base.len() && (#[trigger] entry_deps(*store, base[qa])).contains(d);
                let anchor = base[qa];
                assert(base.contains(anchor));
                assert(base.to_multiset().contains(anchor));
                assert(out@.to_multiset().contains(anchor));
                assert(out@.contains(anchor));
                let an = choose|an: int| 0 <= an < out@.len() && out@[an] == anchor;
                assert(entry_deps(*store, out@[an]).contains(d));
            }
            assert(introduced_by(*store, root_deps@, out@, d));
            assert(entry_justified(*store, root_deps@, out@, e));
        }
    }
    Ok(out)
}

/// Compute the content checksum of an exported dependency directory, given
/// its files.
pub fn compute_checksum(entries: Vec<crate::checksum::FileEntry>) -> (r: String)
    ensures
        r@ == crate::checksum::directory_digest(crate::checksum::entry_views(entries@)),
        r@.len() == 64,
{
    crate::checksum::hash_directory(entries)
}

} // verus!
