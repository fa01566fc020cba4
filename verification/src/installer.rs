//! The install planner: which resolution strategy one run uses, the
//! staleness test it decides by, and the lockfile it accumulates.
//!
//! Per invocation exactly one strategy is chosen, in priority order: frozen
//! (lockfile demanded; missing is an immediate precondition failure, before
//! any fetching), use-lock (a lockfile exists and is not stale), or a fresh
//! resolve. Staleness compares the set of dependency names declared against
//! the set of package names locked — a name-level check only.
//!
//! Installation accumulates one [`LockedPackage`] per resolved dependency —
//! its checksum computed by the caller from the exported tree — and only
//! after every dependency has succeeded is the new lockfile built, as one
//! value, version 1, replacing the previous file wholesale.

use vstd::prelude::*;

use crate::error::NuanceError;
use crate::config::GlobalConfig;
use crate::lockfile::{has_package, lock_name_set, LockedPackage, Lockfile};
use crate::manifest::{dep_names, has_dep_name, Dependency, Manifest};
use crate::resolver::{resolve_from_lock, resolve_from_lock_spec, ResolvedDep};
use crate::strutil;

verus! {

/// The set of names of a dependency table.
pub open spec fn dep_name_set(deps: Seq<Dependency>) -> Set<Seq<char>> {
    dep_names(deps).to_set()
}

/// Whether some dependency of the table carries the given name.
fn deps_contain_name(deps: &Vec<Dependency>, name: &str) -> (r: bool)
    ensures
        r == has_dep_name(deps@, name@),
{
    let n = deps.len();
    let mut i: usize = 0;
    while i < n
        invariant
            i <= n,
            n == deps@.len(),
            forall|j: int| 0 <= j < i ==> (#[trigger] deps@[j]).name@ != name@,
        decreases n - i,
    {
        if strutil::str_eq(deps[i].name.as_str(), name) {
            return true;
        }
        i = i + 1;
    }
    false
}

/// Whether the lockfile is stale relative to the dependency table: some
/// name is declared but not locked, or locked but no longer declared. The
/// check is name-level only: an unchanged name pointing at a different ref
/// is not detected.
fn names_mismatch(deps: &Vec<Dependency>, lock: &Lockfile) -> (r: bool)
    ensures
        r == (dep_name_set(deps@) != lock_name_set(lock.packages@)),
{
    let n = deps.len();
    let mut i: usize = 0;
    while i < n
        invariant
            i <= n,
            n == deps@.len(),
            forall|j: int|
                0 <= j < i ==> has_package(lock.packages@, (#[trigger] deps@[j]).name@),
        decreases n - i,
    {
        if lock.find_package(deps[i].name.as_str()).is_none() {
            proof {
                let x = deps@[i as int].name@;
                assert(dep_names(deps@)[i as int] == x);
                assert(dep_name_set(deps@).contains(x));
                assert(!lock_name_set(lock.packages@).contains(x)) by {
                    if lock_name_set(lock.packages@).contains(x) {
                        let names = lock.packages@.map_values(|p: LockedPackage| p.name@);
                        let j = choose|j: int| 0 <= j < names.len() && names[j] == x;
                        assert(lock.packages@[j].name@ == x);
                    }
                }
            }
            return true;
        }
        i = i + 1;
    }
    let m = lock.packages.len();
    let mut j: usize = 0;
    while j < m
        invariant
            j <= m,
            m == lock.packages@.len(),
            n == deps@.len(),
            forall|t: int| 0 <= t < n ==> has_package(lock.packages@, (#[trigger] deps@[t]).name@),
            forall|t: int|
                0 <= t < j ==> has_dep_name(deps@, (#[trigger] lock.packages@[t]).name@),
        decreases m - j,
    {
        if !deps_contain_name(deps, lock.packages[j].name.as_str()) {
            proof {
                let x = lock.packages@[j as int].name@;
                assert(lock.packages@.map_values(|p: LockedPackage| p.name@)[j as int] == x);
                assert(lock_name_set(lock.packages@).contains(x));
                assert(!dep_name_set(deps@).contains(x)) by {
                    if dep_name_set(deps@).contains(x) {
                        let names = dep_names(deps@);
                        let t = choose|t: int| 0 <= t < names.len() && names[t] == x;
                        assert(deps@[t].name@ == x);
                    }
                }
            }
            return true;
        }
        j = j + 1;
    }
    proof {
        assert(dep_name_set(deps@) =~= lock_name_set(lock.packages@)) by {
            assert forall|x: Seq<char>| dep_name_set(deps@).contains(x) implies lock_name_set(
                lock.packages@,
            ).contains(x) by {
                let names = dep_names(deps@);
                let t = choose|t: int| 0 <= t < names.len() && names[t] == x;
                assert(has_package(lock.packages@, deps@[t].name@));
                let u = choose|u: int|
                    0 <= u < lock.packages@.len() && (#[trigger] lock.packages@[u]).name@ == x;
                assert(lock.packages@.map_values(|p: LockedPackage| p.name@)[u] == x);
            }
            assert forall|x: Seq<char>| lock_name_set(lock.packages@).contains(x) implies
                dep_name_set(deps@).contains(x) by {
                let names = lock.packages@.map_values(|p: LockedPackage| p.name@);
                let u = choose|u: int| 0 <= u < names.len() && names[u] == x;
                assert(has_dep_name(deps@, lock.packages@[u].name@));
                let t = choose|t: int|
                    0 <= t < deps@.len() && (#[trigger] deps@[t]).name@ == x;
                assert(dep_names(deps@)[t] == x);
            }
        }
    }
    false
}

/// Whether a project lockfile is stale relative to its manifest: the
/// declared dependency names and the locked package names disagree as sets.
pub fn is_lockfile_stale(manifest: &Manifest, lock: &Lockfile) -> (r: bool)
    ensures
        r == (dep_name_set(manifest.dependencies@) != lock_name_set(lock.packages@)),
{
    names_mismatch(&manifest.dependencies, lock)
}

/// Whether the global lockfile is stale relative to the global
/// configuration, by the same name-level comparison.
pub fn is_global_lockfile_stale(config: &GlobalConfig, lock: &Lockfile) -> (r: bool)
    ensures
        r == (dep_name_set(config.dependencies@) != lock_name_set(lock.packages@)),
{
    names_mismatch(&config.dependencies, lock)
}

/// What an install run does for its dependencies, chosen once per
/// invocation.
pub enum InstallPlan {
    /// Nothing is declared: no resolution, no fetching; only the activation
    /// script is refreshed.
    NothingDeclared,
    /// Use the lockfile's packages as they stand, without re-resolving.
    UseLock(Vec<ResolvedDep>),
    /// Run a fresh resolution of the declared dependencies.
    Resolve,
}

/// Choose the resolution strategy for one install run over a dependency
/// table, in priority order.
///
/// With nothing declared, nothing is resolved. Under `frozen` a lockfile
/// is demanded: a missing one fails here, before any repository is looked
/// at, with a lockfile error carrying the given message. An existing,
/// non-stale lockfile is used as it stands; anything else asks for a fresh
/// resolution.
fn plan_for_deps(deps: &Vec<Dependency>, frozen: bool, lock: &Option<Lockfile>, missing_msg: &str)
    -> (r: Result<InstallPlan, NuanceError>)
    ensures
        deps@.len() == 0 ==> (r matches Ok(p) && p is NothingDeclared),
        deps@.len() > 0 && frozen && lock is None ==> (r matches Err(NuanceError::Lockfile(m))
            && m@ == missing_msg@),
        deps@.len() > 0 && frozen && lock is Some ==> (r matches Ok(p) && (p matches
            InstallPlan::UseLock(v) && v@ == resolve_from_lock_spec(lock.unwrap().packages@))),
        deps@.len() > 0 && !frozen && lock is Some && dep_name_set(deps@)
            == lock_name_set(lock.unwrap().packages@) ==> (r matches Ok(p) && (p matches
            InstallPlan::UseLock(v) && v@ == resolve_from_lock_spec(lock.unwrap().packages@))),
        deps@.len() > 0 && !frozen && lock is Some && dep_name_set(deps@)
            != lock_name_set(lock.unwrap().packages@) ==> (r matches Ok(p) && p is Resolve),
        deps@.len() > 0 && !frozen && lock is None ==> (r matches Ok(p) && p is Resolve),
{
    if deps.len() == 0 {
        return Ok(InstallPlan::NothingDeclared);
    }
    if frozen {
        match lock {
            Some(l) => Ok(InstallPlan::UseLock(resolve_from_lock(&l.packages))),
            None => Err(NuanceError::Lockfile(String::from_str(missing_msg))),
        }
    } else {
        match lock {
            Some(l) => {
                if names_mismatch(deps, l) {
                    Ok(InstallPlan::Resolve)
                } else {
                    Ok(InstallPlan::UseLock(resolve_from_lock(&l.packages)))
                }
            },
            None => Ok(InstallPlan::Resolve),
        }
    }
}

/// Choose the strategy for a project install, from its manifest and the
/// lockfile found beside it (if any).
pub fn install_plan(manifest: &Manifest, frozen: bool, lock: &Option<Lockfile>) -> (r: Result<
    InstallPlan,
    NuanceError,
>)
    ensures
        manifest.dependencies@.len() == 0 ==> (r matches Ok(p) && p is NothingDeclared),
        manifest.dependencies@.len() > 0 && frozen && lock is None ==> (r matches Err(
            NuanceError::Lockfile(m),
        ) && m@ == "mod.lock not found (required with --frozen)"@),
        manifest.dependencies@.len() > 0 && frozen && lock is Some ==> (r matches Ok(p)
            && (p matches InstallPlan::UseLock(v) && v@ == resolve_from_lock_spec(lock.unwrap().packages@))),
        manifest.dependencies@.len() > 0 && !frozen && lock is Some && dep_name_set(
            manifest.dependencies@,
        ) == lock_name_set(lock.unwrap().packages@) ==> (r matches Ok(p) && (p matches InstallPlan::UseLock(v)
            && v@ == resolve_from_lock_spec(lock.unwrap().packages@))),
        manifest.dependencies@.len() > 0 && !frozen && lock is Some && dep_name_set(
            manifest.dependencies@,
        ) != lock_name_set(lock.unwrap().packages@) ==> (r matches Ok(p) && p is Resolve),
        manifest.dependencies@.len() > 0 && !frozen && lock is None ==> (r matches Ok(p)
            && p is Resolve),
{
    plan_for_deps(&manifest.dependencies, frozen, lock, "mod.lock not found (required with --frozen)")
}

/// Choose the strategy for a global install, from the global configuration
/// and the global lockfile (if any).
pub fn global_install_plan(config: &GlobalConfig, frozen: bool, lock: &Option<Lockfile>) -> (r:
    Result<InstallPlan, NuanceError>)
    ensures
        config.dependencies@.len() == 0 ==> (r matches Ok(p) && p is NothingDeclared),
        config.dependencies@.len() > 0 && frozen && lock is None ==> (r matches Err(
            NuanceError::Lockfile(m),
        ) && m@ == "config.lock not found (required with --frozen)"@),
        config.dependencies@.len() > 0 && frozen && lock is Some ==> (r matches Ok(p)
            && (p matches InstallPlan::UseLock(v) && v@ == resolve_from_lock_spec(lock.unwrap().packages@))),
        config.dependencies@.len() > 0 && !frozen && lock is Some && dep_name_set(
            config.dependencies@,
        ) == lock_name_set(lock.unwrap().packages@) ==> (r matches Ok(p) && (p matches InstallPlan::UseLock(v)
            && v@ == resolve_from_lock_spec(lock.unwrap().packages@))),
        config.dependencies@.len() > 0 && !frozen && lock is Some && dep_name_set(
            config.dependencies@,
        ) != lock_name_set(lock.unwrap().packages@) ==> (r matches Ok(p) && p is Resolve),
        config.dependencies@.len() > 0 && !frozen && lock is None ==> (r matches Ok(p)
            && p is Resolve),
{
    plan_for_deps(
        &config.dependencies,
        frozen,
        lock,
        "config.lock not found (required with --frozen)",
    )
}

/// The locked form of one resolved dependency plus its verified checksum.
pub fn locked_package(dep: &ResolvedDep, sha256: String) -> (r: LockedPackage)
    ensures
        r.name == dep.name,
        r.git == dep.git,
        r.tag == dep.tag,
        r.rev == dep.rev,
        r.sha256 == sha256,
{
    LockedPackage {
        name: dep.name.clone(),
        git: dep.git.clone(),
        tag: crate::lockfile::clone_opt(&dep.tag),
        rev: dep.rev.clone(),
        sha256,
    }
}

/// The package list an install writes: one locked package per resolved
/// dependency, in order, carrying the checksum computed for it.
pub open spec fn lock_of(resolved: Seq<ResolvedDep>, sums: Seq<String>) -> Seq<LockedPackage> {
    Seq::new(
        resolved.len(),
        |i: int|
            LockedPackage {
                name: resolved[i].name,
                git: resolved[i].git,
                tag: resolved[i].tag,
                rev: resolved[i].rev,
                sha256: sums[i],
            },
    )
}

/// Build the lockfile an install writes, once every dependency has
/// succeeded: format version 1, one package per resolved dependency with
/// its checksum, in the resolved order.
pub fn build_lockfile(resolved: &Vec<ResolvedDep>, sums: &Vec<String>) -> (r: Lockfile)
    requires
        resolved@.len() == sums@.len(),
    ensures
        r.version == 1,
        r.packages@ == lock_of(resolved@, sums@),
{
    let n = resolved.len();
    let mut packages: Vec<LockedPackage> = Vec::new();
    let mut i: usize = 0;
    proof {
        assert(packages@ =~= lock_of(resolved@.take(0), sums@.take(0)));
    }
    while i < n
        invariant
            i <= n,
            n == resolved@.len(),
            n == sums@.len(),
            packages@ == lock_of(resolved@.take(i as int), sums@.take(i as int)),
        decreases n - i,
    {
        packages.push(locked_package(&resolved[i], sums[i].clone()));
        proof {
            assert(lock_of(resolved@.take(i + 1), sums@.take(i + 1)) =~= lock_of(
                resolved@.take(i as int),
                sums@.take(i as int),
            ).push(
                (LockedPackage {
                    name: resolved@[i as int].name,
                    git: resolved@[i as int].git,
                    tag: resolved@[i as int].tag,
                    rev: resolved@[i as int].rev,
                    sha256: sums@[i as int],
                }),
            ));
        }
        i = i + 1;
    }
    proof {
        assert(resolved@.take(n as int) =~= resolved@);
        assert(sums@.take(n as int) =~= sums@);
    }
    Lockfile { version: 1, packages }
}

/// LAW. Locking round-trips: reading packages back through the from-lock
/// resolution and re-locking them with their own checksums — what a no-op
/// install does — reproduces exactly the original package list, field for
/// field and in the same order. Since the serialized lockfile is a function
/// of this list and the fixed version, the rewritten file is byte-identical.
pub proof fn lemma_lock_round_trip(pkgs: Seq<LockedPackage>)
    ensures
        lock_of(
            resolve_from_lock_spec(pkgs),
            pkgs.map_values(|p: LockedPackage| p.sha256),
        ) == pkgs,
{
    let sums = pkgs.map_values(|p: LockedPackage| p.sha256);
    let relocked = lock_of(resolve_from_lock_spec(pkgs), sums);
    assert(relocked =~= pkgs) by {
        assert forall|i: int| 0 <= i < pkgs.len() implies relocked[i] == pkgs[i] by {
            assert(resolve_from_lock_spec(pkgs)[i] == (ResolvedDep {
                name: pkgs[i].name,
                git: pkgs[i].git,
                tag: pkgs[i].tag,
                rev: pkgs[i].rev,
            }));
        }
    }
}

/// The fixed opening of the activation script: put the module directory on
/// the library path.
pub open spec fn activate_header() -> Seq<char> {
    "export-env {\n    let modules_dir = ($env.FILE_PWD | path join)\n    $env.NU_LIB_DIRS = ($env.NU_LIB_DIRS | default [] | append $modules_dir)\n}\n\n"@
}

/// The fixed closing of the activation script: the deactivate alias.
pub open spec fn activate_footer() -> Seq<char> {
    "\nexport alias deactivate = overlay hide activate\n"@
}

/// One "export use" line per installed module, in order.
pub open spec fn activate_lines(names: Seq<Seq<char>>) -> Seq<char>
    decreases names.len(),
{
    if names.len() == 0 {
        Seq::empty()
    } else {
        "export use "@ + names[0] + " *\n"@ + activate_lines(names.drop_first())
    }
}

/// Appending a name appends its line.
proof fn lemma_activate_lines_push(names: Seq<Seq<char>>, name: Seq<char>)
    ensures
        activate_lines(names.push(name)) == activate_lines(names) + "export use "@ + name
            + " *\n"@,
    decreases names.len(),
{
    if names.len() == 0 {
        assert(names.push(name)[0] == name);
        assert(names.push(name).drop_first() =~= Seq::<Seq<char>>::empty());
        assert(activate_lines(names.push(name).drop_first()) == Seq::<char>::empty());
        assert(activate_lines(names) == Seq::<char>::empty());
        assert(activate_lines(names.push(name)) =~= activate_lines(names) + "export use "@ + name
            + " *\n"@);
    } else {
        assert(names.push(name)[0] == names[0]);
        assert(names.push(name).drop_first() =~= names.drop_first().push(name));
        lemma_activate_lines_push(names.drop_first(), name);
        assert(activate_lines(names.push(name)) =~= activate_lines(names) + "export use "@ + name
            + " *\n"@);
    }
}

/// The whole body of the activation script for the given module names:
/// header, one export line per module, footer.
pub open spec fn activate_script_spec(names: Seq<Seq<char>>) -> Seq<char> {
    activate_header() + activate_lines(names) + activate_footer()
}

/// Render the activation script for the installed modules: the environment
/// header, one "export use" line per module in order, and the deactivate
/// alias.
pub fn activate_script(module_names: &Vec<String>) -> (r: String)
    ensures
        r@ == activate_script_spec(module_names@.map_values(|s: String| s@)),
{
    let ghost names = module_names@.map_values(|s: String| s@);
    let mut script = String::from_str(
        "export-env {\n    let modules_dir = ($env.FILE_PWD | path join)\n    $env.NU_LIB_DIRS = ($env.NU_LIB_DIRS | default [] | append $modules_dir)\n}\n\n",
    );
    let n = module_names.len();
    let mut i: usize = 0;
    proof {
        assert(activate_lines(names.take(0)) == Seq::<char>::empty());
        assert(script@ =~= activate_header() + activate_lines(names.take(0)));
    }
    while i < n
        invariant
            i <= n,
            n == module_names@.len(),
            names == module_names@.map_values(|s: String| s@),
            script@ == activate_header() + activate_lines(names.take(i as int)),
        decreases n - i,
    {
        script.append("export use ");
        script.append(module_names[i].as_str());
        script.append(" *\n");
        proof {
            assert(names.take(i + 1) =~= names.take(i as int).push(names[i as int]));
            lemma_activate_lines_push(names.take(i as int), names[i as int]);
            assert(script@ =~= activate_header() + activate_lines(names.take(i + 1)));
        }
        i = i + 1;
    }
    script.append("\nexport alias deactivate = overlay hide activate\n");
    proof {
        assert(names.take(n as int) =~= names);
        assert(script@ =~= activate_script_spec(names));
    }
    script
}

} // verus!
