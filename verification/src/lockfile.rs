//! The locked side of the data model: the packages an install actually
//! materialized, each with its concrete commit identifier and verified
//! content checksum.
//!
//! A lockfile is regenerated wholesale on every successful install and never
//! partially updated; its package list is sorted by name when produced by
//! resolution.

use vstd::prelude::*;


verus! {

/// A single locked package entry.
#[derive(Debug, Clone, PartialEq)]
pub struct LockedPackage {
    /// The dependency name the package is installed under.
    pub name: String,
    /// The git URL it was fetched from.
    pub git: String,
    /// The tag label it was pinned to, if any.
    pub tag: Option<String>,
    /// The concrete commit identifier that was materialized.
    pub rev: String,
    /// The content checksum of the materialized tree.
    pub sha256: String,
}

/// A lockfile: a format version and the locked packages.
#[derive(Debug, Clone, PartialEq)]
pub struct Lockfile {
    /// The lockfile format version; always 1 when generated.
    pub version: u32,
    /// The locked packages, one per installed dependency.
    pub packages: Vec<LockedPackage>,
}

/// Whether some package of the list carries the given name.
pub open spec fn has_package(pkgs: Seq<LockedPackage>, name: Seq<char>) -> bool {
    exists|i: int| 0 <= i < pkgs.len() && #[trigger] pkgs[i].name@ == name
}

/// Keeping every package but those of the given name.
pub open spec fn not_named(name: Seq<char>) -> spec_fn(LockedPackage) -> bool {
    |p: LockedPackage| p.name@ != name
}

/// The set of package names of a lockfile's list.
pub open spec fn lock_name_set(pkgs: Seq<LockedPackage>) -> Set<Seq<char>> {
    pkgs.map_values(|p: LockedPackage| p.name@).to_set()
}

impl Lockfile {
    /// Look up a locked package by name; the first entry with that name, if
    /// any entry carries it.
    pub fn find_package(&self, name: &str) -> (r: Option<&LockedPackage>)
        ensures
            r is Some <==> has_package(self.packages@, name@),
            r matches Some(p) ==> exists|i: int|
                0 <= i < self.packages@.len() && #[trigger] self.packages@[i] == *p
                    && self.packages@[i].name@ == name@ && (forall|j: int|
                    0 <= j < i ==> self.packages@[j].name@ != name@),
    {
        let n = self.packages.len();
        let mut i: usize = 0;
        while i < n
            invariant
                i <= n,
                n == self.packages@.len(),
                forall|j: int| 0 <= j < i ==> self.packages@[j].name@ != name@,
            decreases n - i,
        {
            if crate::strutil::str_eq(self.packages[i].name.as_str(), name) {
                return Some(&self.packages[i]);
            }
            i = i + 1;
        }
        None
    }

    /// Drop every package of the given name, keeping the rest in order.
    pub fn remove_package(&mut self, name: &str)
        ensures
            final(self).version == old(self).version,
            final(self).packages@ == old(self).packages@.filter(not_named(name@)),
    {
        let ghost pred = not_named(name@);
        let n = self.packages.len();
        let mut out: Vec<LockedPackage> = Vec::new();
        let mut i: usize = 0;
        proof {
            assert(self.packages@.take(0).filter(pred) =~= Seq::<LockedPackage>::empty());
        }
        while i < n
            invariant
                pred == not_named(name@),
                i <= n,
                n == self.packages@.len(),
                out@ == self.packages@.take(i as int).filter(pred),
            decreases n - i,
        {
            let ghost pre = self.packages@.take(i as int);
            proof {
                reveal_with_fuel(Seq::filter, 2);
                let s1 = self.packages@.take(i + 1);
                assert(s1.drop_last() =~= pre);
                assert(s1.last() == self.packages@[i as int]);
                if pred(self.packages@[i as int]) {
                    assert(s1.filter(pred) == pre.filter(pred).push(self.packages@[i as int]));
                } else {
                    assert(s1.filter(pred) == pre.filter(pred));
                }
            }
            if !crate::strutil::str_eq(self.packages[i].name.as_str(), name) {
                let entry = LockedPackage {
                    name: self.packages[i].name.clone(),
                    git: self.packages[i].git.clone(),
                    tag: clone_opt(&self.packages[i].tag),
                    rev: self.packages[i].rev.clone(),
                    sha256: self.packages[i].sha256.clone(),
                };
                proof {
                    assert(entry == self.packages@[i as int]);
                }
                out.push(entry);
            }
            i = i + 1;
        }
        proof {
            assert(self.packages@.take(n as int) =~= self.packages@);
        }
        self.packages = out;
    }
}

/// A copy of an optional string, preserving the value.
pub fn clone_opt(o: &Option<String>) -> (r: Option<String>)
    ensures
        r == *o,
{
    match o {
        Some(s) => Some(s.clone()),
        None => None,
    }
}

} // verus!
