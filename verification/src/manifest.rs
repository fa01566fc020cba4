//! The declared side of the data model: a manifest's package metadata and
//! its dependency table, with validation.
//!
//! A dependency names a git URL and exactly one ref — a tag, a raw commit
//! identifier, or a branch. Zero or several refs is a validation error.
//! Dependency names within one manifest are unique.

use vstd::prelude::*;

use crate::error::NuanceError;

verus! {

/// The package metadata section of a manifest.
#[derive(Debug, Clone)]
pub struct Package {
    /// The package name; must not be empty.
    pub name: String,
    /// The package version; must not be empty.
    pub version: String,
    /// An optional free-form description.
    pub description: Option<String>,
    /// An optional license identifier.
    pub license: Option<String>,
    /// Optional author names.
    pub authors: Option<Vec<String>>,
    /// An optional minimum tool version constraint.
    pub nu_version: Option<String>,
}

/// A single dependency specification: a git URL plus exactly one of
/// tag/rev/branch.
#[derive(Debug, Clone)]
pub struct DependencySpec {
    /// The git URL the dependency is fetched from.
    pub git: String,
    /// Pin to a tag.
    pub tag: Option<String>,
    /// Pin to a raw commit identifier.
    pub rev: Option<String>,
    /// Track a branch.
    pub branch: Option<String>,
}

/// One named dependency of a manifest or of the global configuration.
#[derive(Debug, Clone)]
pub struct Dependency {
    /// The name the dependency is installed under; unique within its table.
    pub name: String,
    /// What to fetch for it.
    pub spec: DependencySpec,
}

/// A manifest: package metadata plus the declared dependency table.
#[derive(Debug, Clone)]
pub struct Manifest {
    /// The package metadata.
    pub package: Package,
    /// The declared dependencies, each name unique.
    pub dependencies: Vec<Dependency>,
}

/// How many of the three ref fields are populated.
pub open spec fn ref_count(s: DependencySpec) -> int {
    (if s.tag is Some {
        1int
    } else {
        0int
    }) + (if s.rev is Some {
        1int
    } else {
        0int
    }) + (if s.branch is Some {
        1int
    } else {
        0int
    })
}

/// The invariant of a dependency spec: exactly one ref is populated.
pub open spec fn exactly_one_ref(s: DependencySpec) -> bool {
    ref_count(s) == 1
}

/// The ref string of a spec, by the same priority the executable getter
/// uses: rev, then tag, then branch.
pub open spec fn ref_spec_view(s: DependencySpec) -> Seq<char> {
    match s.rev {
        Some(r) => r@,
        None => match s.tag {
            Some(t) => t@,
            None => match s.branch {
                Some(b) => b@,
                None => Seq::empty(),
            },
        },
    }
}

/// The names of a dependency table, in declaration order.
pub open spec fn dep_names(deps: Seq<Dependency>) -> Seq<Seq<char>> {
    deps.map_values(|d: Dependency| d.name@)
}

/// Whether some dependency of the table carries the given name.
pub open spec fn has_dep_name(deps: Seq<Dependency>, name: Seq<char>) -> bool {
    exists|i: int| 0 <= i < deps.len() && (#[trigger] deps[i]).name@ == name
}

/// No two dependencies of the table share a name.
pub open spec fn dep_names_unique(deps: Seq<Dependency>) -> bool {
    forall|i: int, j: int|
        0 <= i < j < deps.len() ==> deps[i].name@ != deps[j].name@
}

/// Every spec of the table has exactly one ref.
pub open spec fn deps_valid(deps: Seq<Dependency>) -> bool {
    forall|i: int| 0 <= i < deps.len() ==> exactly_one_ref(#[trigger] deps[i].spec)
}

/// The invariant of a whole manifest: non-empty package name and version, a
/// valid spec for every dependency, and unique dependency names.
pub open spec fn manifest_valid(m: Manifest) -> bool {
    m.package.name@.len() > 0 && m.package.version@.len() > 0 && deps_valid(m.dependencies@)
        && dep_names_unique(m.dependencies@)
}

impl DependencySpec {
    /// Validate that exactly one of tag/rev/branch is populated.
    ///
    /// Returns `Ok` exactly when the invariant holds; the error names the
    /// dependency and says whether too few or too many refs were given.
    pub fn validate(&self, name: &str) -> (r: Result<(), NuanceError>)
        ensures
            r is Ok <==> exactly_one_ref(*self),
            ref_count(*self) == 0 ==> (r matches Err(NuanceError::Manifest(m)) && m@
                == "dependency '"@ + name@ + "': must specify one of 'tag', 'rev', or 'branch'"@),
            ref_count(*self) > 1 ==> (r matches Err(NuanceError::Manifest(m)) && m@
                == "dependency '"@ + name@ + "': specify only one of 'tag', 'rev', or 'branch'"@),
    {
        let mut count: usize = 0;
        if self.tag.is_some() {
            count = count + 1;
        }
        if self.rev.is_some() {
            count = count + 1;
        }
        if self.branch.is_some() {
            count = count + 1;
        }
        if count == 0 {
            return Err(
                NuanceError::Manifest(
                    String::from_str("dependency '").concat(name).concat(
                        "': must specify one of 'tag', 'rev', or 'branch'",
                    ),
                ),
            );
        }
        if count > 1 {
            return Err(
                NuanceError::Manifest(
                    String::from_str("dependency '").concat(name).concat(
                        "': specify only one of 'tag', 'rev', or 'branch'",
                    ),
                ),
            );
        }
        Ok(())
    }

    /// The git ref string: the populated one of rev, tag, or branch.
    pub fn ref_spec(&self) -> (r: &str)
        requires
            exactly_one_ref(*self),
        ensures
            r@ == ref_spec_view(*self),
    {
        match &self.rev {
            Some(r) => r.as_str(),
            None => match &self.tag {
                Some(t) => t.as_str(),
                None => match &self.branch {
                    Some(b) => b.as_str(),
                    None => "",
                },
            },
        }
    }
}

/// A copy of an optional string, preserving the value.
pub fn copy_opt_string(o: &Option<String>) -> (r: Option<String>)
    ensures
        r == *o,
{
    match o {
        Some(s) => Some(s.clone()),
        None => None,
    }
}

/// A copy of a dependency spec, preserving the value.
pub fn copy_spec(s: &DependencySpec) -> (r: DependencySpec)
    ensures
        r == *s,
{
    DependencySpec {
        git: s.git.clone(),
        tag: copy_opt_string(&s.tag),
        rev: copy_opt_string(&s.rev),
        branch: copy_opt_string(&s.branch),
    }
}

/// A copy of a named dependency, preserving the value.
pub fn copy_dependency(d: &Dependency) -> (r: Dependency)
    ensures
        r == *d,
{
    Dependency { name: d.name.clone(), spec: copy_spec(&d.spec) }
}

impl Manifest {
    /// Validate the whole manifest: non-empty package name and version,
    /// every dependency spec carrying exactly one ref, and no dependency
    /// name declared twice.
    pub fn validate(&self) -> (r: Result<(), NuanceError>)
        ensures
            r is Ok <==> manifest_valid(*self),
            r is Err ==> r matches Err(NuanceError::Manifest(_)),
            self.package.name@.len() == 0 ==> (r matches Err(NuanceError::Manifest(m)) && m@
                == "package name cannot be empty"@),
            self.package.name@.len() > 0 && self.package.version@.len() == 0 ==> (r matches Err(
                NuanceError::Manifest(m),
            ) && m@ == "package version cannot be empty"@),
    {
        if self.package.name.as_str().is_empty() {
            return Err(NuanceError::Manifest(String::from_str("package name cannot be empty")));
        }
        if self.package.version.as_str().is_empty() {
            return Err(NuanceError::Manifest(String::from_str("package version cannot be empty")));
        }
        let n = self.dependencies.len();
        let mut i: usize = 0;
        while i < n
            invariant
                i <= n,
                n == self.dependencies@.len(),
                self.package.name@.len() > 0,
                self.package.version@.len() > 0,
                forall|k: int|
                    0 <= k < i ==> exactly_one_ref(#[trigger] self.dependencies@[k].spec),
                forall|k: int, l: int|
                    0 <= k < l < i ==> self.dependencies@[k].name@ != self.dependencies@[l].name@,
            decreases n - i,
        {
            let dep = &self.dependencies[i];
            match dep.spec.validate(dep.name.as_str()) {
                Ok(()) => (),
                Err(e) => {
                    proof {
                        assert(!exactly_one_ref(self.dependencies@[i as int].spec));
                        assert(!deps_valid(self.dependencies@));
                    }
                    return Err(e);
                },
            }
            let mut j: usize = 0;
            while j < i
                invariant
                    j <= i,
                    i < n,
                    n == self.dependencies@.len(),
                    self.package.name@.len() > 0,
                    self.package.version@.len() > 0,
                    forall|k: int|
                        0 <= k < j ==> self.dependencies@[k].name@ != self.dependencies@[
                            i as int
                        ].name@,
                decreases i - j,
            {
                if crate::strutil::str_eq(
                    self.dependencies[j].name.as_str(),
                    self.dependencies[i].name.as_str(),
                ) {
                    proof {
                        assert(self.dependencies@[j as int].name@ == self.dependencies@[
                            i as int
                        ].name@);
                        assert(!dep_names_unique(self.dependencies@));
                    }
                    return Err(
                        NuanceError::Manifest(
                            String::from_str("dependency '").concat(
                                self.dependencies[i].name.as_str(),
                            ).concat("' declared more than once"),
                        ),
                    );
                }
                j = j + 1;
            }
            i = i + 1;
        }
        Ok(())
    }
}

} // verus!
