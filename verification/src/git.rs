//! The version-control side of the core: ref kinds, the pure string
//! transforms on repository URLs, the cache location, and ref resolution
//! against a [`RepoStore`] — the narrow picture of the repositories a
//! resolution run looks at.
//!
//! The store holds, per repository: which tags and remote branches exist and
//! the commit each peels to, which commits exist, and the manifest found in a
//! commit's tree where there is one. The caller fills it (or feeds the
//! equivalent answers one at a time through the resolver's step interface)
//! from the real transport; everything decided from those answers is decided
//! here, verified.

use vstd::prelude::*;

use crate::error::NuanceError;
use crate::manifest::Manifest;
use crate::strutil;

verus! {

/// The kind of git ref being resolved.
#[derive(Debug, Clone, Copy, PartialEq, Eq, Structural)]
pub enum RefKind {
    /// A tag name, peeled to the commit it points at.
    Tag,
    /// A raw commit identifier, used as given.
    Rev,
    /// A branch name, resolved through its remote-tracking ref.
    Branch,
}

impl RefKind {
    /// The ref kind a dependency spec asks for: a rev wins over a tag, and a
    /// branch is what remains.
    pub fn from_spec(tag: &Option<String>, rev: &Option<String>, _branch: &Option<String>) -> (r:
        RefKind)
        ensures
            rev is Some ==> r == RefKind::Rev,
            rev is None && tag is Some ==> r == RefKind::Tag,
            rev is None && tag is None ==> r == RefKind::Branch,
    {
        if rev.is_some() {
            RefKind::Rev
        } else if tag.is_some() {
            RefKind::Tag
        } else {
            RefKind::Branch
        }
    }
}

/// `s` with every trailing `c` removed.
pub open spec fn trim_trailing(s: Seq<char>, c: char) -> Seq<char>
    decreases s.len(),
{
    if s.len() > 0 && s.last() == c {
        trim_trailing(s.drop_last(), c)
    } else {
        s
    }
}

/// `s` with the suffix `suf` removed as often as it occurs at the end.
pub open spec fn trim_suffix_all(s: Seq<char>, suf: Seq<char>) -> Seq<char>
    decreases s.len(),
{
    if suf.len() > 0 && s.len() >= suf.len() && s.subrange(
        s.len() - suf.len(),
        s.len() as int,
    ) == suf {
        trim_suffix_all(s.take(s.len() - suf.len()), suf)
    } else {
        s
    }
}

/// The maximal suffix of `s` that holds no `'/'`: the last path segment.
pub open spec fn last_segment(s: Seq<char>) -> Seq<char>
    decreases s.len(),
{
    if s.len() == 0 {
        s
    } else if s.last() == '/' {
        Seq::empty()
    } else {
        last_segment(s.drop_last()).push(s.last())
    }
}

/// The package name a git URL implies: strip trailing slashes and any
/// trailing ".git", then take the final path segment.
pub open spec fn repo_name_spec(url: Seq<char>) -> Seq<char> {
    last_segment(trim_suffix_all(trim_trailing(url, '/'), ".git"@))
}

/// Where the characters of `s` before `k` hold no `'/'` and `k` is either 0
/// or just after a `'/'`, the last segment is exactly `s` from `k` on.
proof fn lemma_last_segment(s: Seq<char>, k: int)
    requires
        0 <= k <= s.len(),
        forall|j: int| k <= j < s.len() ==> s[j] != '/',
        k > 0 ==> s[k - 1] == '/',
    ensures
        last_segment(s) == s.subrange(k, s.len() as int),
    decreases s.len() - k,
{
    if s.len() == k {
        if k == 0 {
            assert(last_segment(s) =~= s.subrange(0, 0));
        } else {
            assert(s.last() == '/');
            assert(last_segment(s) =~= s.subrange(k, s.len() as int));
        }
    } else {
        assert(s.last() != '/');
        lemma_last_segment(s.drop_last(), k);
        assert(last_segment(s) =~= s.subrange(k, s.len() as int)) by {
            assert(s.drop_last().subrange(k, s.drop_last().len() as int) =~= s.subrange(
                k,
                s.len() - 1,
            ));
            assert(s.subrange(k, s.len() as int) =~= s.subrange(k, s.len() - 1).push(s.last()));
        }
    }
}

/// Extract a package name from a git URL: the last path segment, once
/// trailing slashes and a trailing ".git" are stripped.
pub fn repo_name_from_url(url: &str) -> (r: Option<String>)
    ensures
        r matches Some(s) && s@ == repo_name_spec(url@),
{
    let cs = strutil::chars_of(url);
    let n = cs.len();
    let mut end: usize = n;
    proof {
        assert(cs@.take(n as int) =~= cs@);
    }
    while end > 0 && cs[end - 1] == '/'
        invariant
            end <= n,
            n == cs@.len(),
            trim_trailing(cs@, '/') == trim_trailing(cs@.take(end as int), '/'),
        decreases end,
    {
        proof {
            assert(cs@.take(end as int).last() == cs@[end - 1]);
            assert(cs@.take(end as int).drop_last() =~= cs@.take(end - 1));
        }
        end = end - 1;
    }
    proof {
        assert(trim_trailing(cs@.take(end as int), '/') == cs@.take(end as int));
    }
    let ghost trimmed = trim_trailing(cs@, '/');
    while end >= 4 && cs[end - 4] == '.' && cs[end - 3] == 'g' && cs[end - 2] == 'i' && cs[end - 1]
        == 't'
        invariant
            end <= n,
            n == cs@.len(),
            trim_suffix_all(trimmed, ".git"@) == trim_suffix_all(cs@.take(end as int), ".git"@),
        decreases end,
    {
        proof {
            reveal_strlit(".git");
            let s = cs@.take(end as int);
            assert(s.subrange(s.len() - 4, s.len() as int) =~= ".git"@);
            assert(s.take(s.len() - 4) =~= cs@.take(end - 4));
        }
        end = end - 4;
    }
    proof {
        reveal_strlit(".git");
        let s = cs@.take(end as int);
        if s.len() >= 4 && s.subrange(s.len() - 4, s.len() as int) == ".git"@ {
            let sub = s.subrange(s.len() - 4, s.len() as int);
            assert(sub[0] == s[s.len() - 4] && sub[1] == s[s.len() - 3] && sub[2] == s[s.len() - 2]
                && sub[3] == s[s.len() - 1]);
            assert(s[s.len() - 4] == '.' && s[s.len() - 3] == 'g' && s[s.len() - 2] == 'i'
                && s[s.len() - 1] == 't');
            assert(false);
        }
        assert(trim_suffix_all(s, ".git"@) == s);
    }
    let ghost stripped = trim_suffix_all(trimmed, ".git"@);
    let mut start: usize = end;
    while start > 0 && cs[start - 1] != '/'
        invariant
            start <= end,
            end <= n,
            n == cs@.len(),
            forall|j: int| start <= j < end ==> cs@.take(end as int)[j] != '/',
        decreases start,
    {
        start = start - 1;
    }
    proof {
        lemma_last_segment(cs@.take(end as int), start as int);
    }
    let mut seg: Vec<char> = Vec::new();
    let mut i: usize = start;
    while i < end
        invariant
            start <= i <= end,
            end <= n,
            n == cs@.len(),
            seg@ == cs@.subrange(start as int, i as int),
        decreases end - i,
    {
        seg.push(cs[i]);
        proof {
            assert(cs@.subrange(start as int, i + 1) =~= cs@.subrange(start as int, i as int).push(
                cs@[i as int],
            ));
        }
        i = i + 1;
    }
    proof {
        assert(cs@.take(end as int).subrange(start as int, end as int) =~= cs@.subrange(
            start as int,
            end as int,
        ));
    }
    Some(strutil::string_of_chars(&seg))
}

/// A URL rewritten as a flat directory name: each "://" run becomes one
/// `'_'`, and each `'/'`, `'\'` and `'.'` becomes `'_'`.
pub open spec fn dirname_spec(s: Seq<char>) -> Seq<char>
    decreases s.len(),
{
    if s.len() == 0 {
        s
    } else if s.len() >= 3 && s[0] == ':' && s[1] == '/' && s[2] == '/' {
        seq!['_'] + dirname_spec(s.skip(3))
    } else if s[0] == '/' || s[0] == '\\' || s[0] == '.' {
        seq!['_'] + dirname_spec(s.skip(1))
    } else {
        seq![s[0]] + dirname_spec(s.skip(1))
    }
}

/// Convert a git URL into a safe directory name for the cache.
pub fn url_to_dirname(url: &str) -> (r: String)
    ensures
        r@ == dirname_spec(url@),
{
    let cs = strutil::chars_of(url);
    let n = cs.len();
    let mut out: Vec<char> = Vec::new();
    let mut i: usize = 0;
    proof {
        assert(cs@.skip(0) =~= cs@);
    }
    while i < n
        invariant
            i <= n,
            n == cs@.len(),
            dirname_spec(cs@) == out@ + dirname_spec(cs@.skip(i as int)),
        decreases n - i,
    {
        let ghost rest = cs@.skip(i as int);
        proof {
            assert(rest.len() == n - i);
            assert(rest[0] == cs@[i as int]);
            if n - i > 2 {
                assert(rest[1] == cs@[i + 1] && rest[2] == cs@[i + 2]);
            }
        }
        if n - i > 2 && cs[i] == ':' && cs[i + 1] == '/' && cs[i + 2] == '/' {
            out.push('_');
            proof {
                assert(rest.skip(3) =~= cs@.skip(i + 3));
                assert(dirname_spec(rest) =~= seq!['_'] + dirname_spec(cs@.skip(i + 3)));
                assert(out@ + dirname_spec(cs@.skip(i + 3)) =~= dirname_spec(cs@));
            }
            i = i + 3;
        } else {
            let c = cs[i];
            let mapped: char = if c == '/' || c == '\\' || c == '.' {
                '_'
            } else {
                c
            };
            out.push(mapped);
            proof {
                assert(rest.skip(1) =~= cs@.skip(i + 1));
                if rest.len() >= 3 && rest[0] == ':' && rest[1] == '/' && rest[2] == '/' {
                    assert(false);
                }
                assert(out@ + dirname_spec(cs@.skip(i + 1)) =~= dirname_spec(cs@));
            }
            i = i + 1;
        }
    }
    proof {
        assert(cs@.skip(n as int).len() == 0);
        assert(out@ =~= dirname_spec(cs@));
    }
    strutil::string_of_chars(&out)
}

/// Relies on `dirs::cache_dir`: the platform cache directory, if the
/// platform reports one.
#[verifier::external_body]
fn os_cache_dir() -> (r: Option<String>)
{
    match dirs::cache_dir() {
        Some(p) => Some(p.to_string_lossy().into_owned()),
        None => None,
    }
}

/// The cache root for mirrored repositories: the platform cache directory
/// plus `/nuance/git`.
pub fn cache_dir() -> (r: Result<String, NuanceError>)
    ensures
        r matches Ok(p) ==> strutil::has_suffix(p@, "/nuance/git"@),
        r matches Err(e) ==> (e matches NuanceError::Other(m) && m@
            == "could not determine cache directory"@),
{
    match os_cache_dir() {
        Some(c) => {
            let ghost base = c@;
            let joined = c.concat("/nuance/git");
            proof {
                assert(joined@.subrange(
                    joined@.len() - "/nuance/git"@.len(),
                    joined@.len() as int,
                ) =~= "/nuance/git"@);
            }
            Ok(joined)
        },
        None => Err(NuanceError::Other(String::from_str("could not determine cache directory"))),
    }
}

/// Whether some string of the list reads `n`.
pub open spec fn names_contain(v: Seq<String>, n: Seq<char>) -> bool {
    exists|i: int| 0 <= i < v.len() && #[trigger] v[i]@ == n
}

/// Whether some string of the list reads `n`.
fn names_contain_exec(v: &Vec<String>, n: &str) -> (r: bool)
    ensures
        r == names_contain(v@, n@),
{
    let mut i: usize = 0;
    while i < v.len()
        invariant
            i <= v@.len(),
            forall|j: int| 0 <= j < i ==> v@[j]@ != n@,
        decreases v@.len() - i,
    {
        if strutil::str_eq(v[i].as_str(), n) {
            return true;
        }
        i = i + 1;
    }
    false
}

/// The lexicographically greatest tag of a repository, or none if it has no
/// tags. This is a plain textual ordering, not a semantic-version one.
pub fn latest_tag(tags: &Vec<String>) -> (r: Option<String>)
    ensures
        r is None <==> tags@.len() == 0,
        r matches Some(t) ==> (exists|i: int| 0 <= i < tags@.len() && #[trigger] tags@[i]@ == t@)
            && (forall|j: int|
            0 <= j < tags@.len() ==> crate::order::str_le(#[trigger] tags@[j]@, t@)),
{
    if tags.len() == 0 {
        return None;
    }
    let mut best: usize = 0;
    let mut i: usize = 1;
    proof {
        crate::order::char_order_strict_total();
        crate::order::lex_le_refl(tags@[0]@, crate::order::char_order());
    }
    while i < tags.len()
        invariant
            best < i <= tags@.len(),
            forall|j: int| 0 <= j < i ==> crate::order::str_le(#[trigger] tags@[j]@, tags@[best as int]@),
        decreases tags@.len() - i,
    {
        if strutil::str_le_exec(tags[best].as_str(), tags[i].as_str()) {
            proof {
                crate::order::char_order_strict_total();
                assert forall|j: int| 0 <= j <= i implies crate::order::str_le(
                    #[trigger] tags@[j]@,
                    tags@[i as int]@,
                ) by {
                    if j < i {
                        crate::order::lex_le_trans(
                            tags@[j]@,
                            tags@[best as int]@,
                            tags@[i as int]@,
                            crate::order::char_order(),
                        );
                    } else {
                        crate::order::lex_le_refl(tags@[i as int]@, crate::order::char_order());
                    }
                }
            }
            best = i;
        } else {
            proof {
                crate::order::char_order_strict_total();
                crate::order::lex_le_total(
                    tags@[best as int]@,
                    tags@[i as int]@,
                    crate::order::char_order(),
                );
            }
        }
        i = i + 1;
    }
    Some(tags[best].clone())
}

/// The default branch of a repository, judged from which remote-tracking
/// branches exist: `main` wins over `master`; neither is an error.
pub fn default_branch(branches: &Vec<String>) -> (r: Result<String, NuanceError>)
    ensures
        names_contain(branches@, "main"@) ==> (r matches Ok(b) && b@ == "main"@),
        !names_contain(branches@, "main"@) && names_contain(branches@, "master"@) ==> (r matches Ok(
            b,
        ) && b@ == "master"@),
        !names_contain(branches@, "main"@) && !names_contain(branches@, "master"@) ==> (r matches
            Err(e) && e matches NuanceError::Other(m) && m@
            == "could not determine default branch"@),
    {
    if names_contain_exec(branches, "main") {
        return Ok(String::from_str("main"));
    }
    if names_contain_exec(branches, "master") {
        return Ok(String::from_str("master"));
    }
    Err(NuanceError::Other(String::from_str("could not determine default branch")))
}

/// One repository as a resolution run sees it: its tags and remote branches
/// with the commit each peels to, the commits it holds, and the manifest (if
/// any) in each commit's tree.
pub struct Repo {
    /// The repository's URL; the key the store is searched by.
    pub url: String,
    /// Tag name, and the commit the (possibly annotated) tag peels to.
    pub tags: Vec<(String, String)>,
    /// Remote branch name, and the commit its remote-tracking ref points at.
    pub branches: Vec<(String, String)>,
    /// The commit identifiers the repository holds.
    pub commits: Vec<String>,
    /// Commit identifier, and the manifest found in that commit's tree.
    pub manifests: Vec<(String, Manifest)>,
}

/// A set of repositories to resolve against.
pub struct RepoStore {
    /// The repositories, keyed by URL.
    pub repos: Vec<Repo>,
}

/// The first value paired with `name`, if any.
pub open spec fn lookup_ref(entries: Seq<(String, String)>, name: Seq<char>) -> Option<Seq<char>>
    decreases entries.len(),
{
    if entries.len() == 0 {
        None
    } else if entries[0].0@ == name {
        Some(entries[0].1@)
    } else {
        lookup_ref(entries.drop_first(), name)
    }
}

/// Where the first `i` entries miss `name`, the lookup is decided at or
/// after `i`.
proof fn lemma_lookup_ref_from(entries: Seq<(String, String)>, name: Seq<char>, i: int)
    requires
        0 <= i <= entries.len(),
        forall|j: int| 0 <= j < i ==> entries[j].0@ != name,
    ensures
        i == entries.len() ==> lookup_ref(entries, name) is None,
        i < entries.len() && entries[i].0@ == name ==> lookup_ref(entries, name) == Some(
            entries[i].1@,
        ),
    decreases i,
{
    if i > 0 {
        assert(entries[0].0@ != name);
        assert(forall|j: int|
            0 <= j < i - 1 ==> entries.drop_first()[j] == entries[j + 1]);
        lemma_lookup_ref_from(entries.drop_first(), name, i - 1);
    }
}

/// The first value paired with `name` among the entries, if any.
fn lookup_ref_exec(entries: &Vec<(String, String)>, name: &str) -> (r: Option<String>)
    ensures
        r is Some <==> lookup_ref(entries@, name@) is Some,
        r matches Some(v) ==> lookup_ref(entries@, name@) == Some(v@),
{
    let n = entries.len();
    let mut i: usize = 0;
    while i < n
        invariant
            i <= n,
            n == entries@.len(),
            forall|j: int| 0 <= j < i ==> entries@[j].0@ != name@,
        decreases n - i,
    {
        if strutil::str_eq(entries[i].0.as_str(), name) {
            proof {
                lemma_lookup_ref_from(entries@, name@, i as int);
            }
            return Some(entries[i].1.clone());
        }
        i = i + 1;
    }
    proof {
        lemma_lookup_ref_from(entries@, name@, n as int);
    }
    None
}

/// Whether the repository holds the commit.
pub open spec fn commits_contain(commits: Seq<String>, rev: Seq<char>) -> bool {
    exists|i: int| 0 <= i < commits.len() && #[trigger] commits[i]@ == rev
}

/// What resolving a ref against a repository yields: the concrete commit
/// identifier, or nothing where the lookup misses.
pub open spec fn resolve_ref_spec(repo: Repo, refspec: Seq<char>, kind: RefKind) -> Option<
    Seq<char>,
> {
    match kind {
        RefKind::Rev => if commits_contain(repo.commits@, refspec) {
            Some(refspec)
        } else {
            None
        },
        RefKind::Tag => lookup_ref(repo.tags@, refspec),
        RefKind::Branch => lookup_ref(repo.branches@, refspec),
    }
}

/// Resolve a ref spec (tag name, branch name, or commit identifier) against
/// one repository of the store, to the full concrete commit identifier.
///
/// A rev is confirmed to exist and returned unchanged; a tag or branch is
/// looked up and peeled. Any miss is an error for that dependency.
pub fn resolve_ref(repo: &Repo, refspec: &str, kind: RefKind) -> (r: Result<String, NuanceError>)
    ensures
        r matches Ok(rev) ==> resolve_ref_spec(*repo, refspec@, kind) == Some(rev@),
        r is Err <==> resolve_ref_spec(*repo, refspec@, kind) is None,
        r matches Err(e) ==> e matches NuanceError::Git(_),
{
    match kind {
        RefKind::Rev => {
            let n = repo.commits.len();
            let mut i: usize = 0;
            while i < n
                invariant
                    kind == RefKind::Rev,
                    i <= n,
                    n == repo.commits@.len(),
                    forall|j: int| 0 <= j < i ==> repo.commits@[j]@ != refspec@,
                decreases n - i,
            {
                if strutil::str_eq(repo.commits[i].as_str(), refspec) {
                    proof {
                        assert(repo.commits@[i as int]@ == refspec@);
                        assert(commits_contain(repo.commits@, refspec@));
                    }
                    return Ok(String::from_str(refspec));
                }
                i = i + 1;
            }
            Err(NuanceError::Git(String::from_str("commit not found: ").concat(refspec)))
        },
        RefKind::Tag => match lookup_ref_exec(&repo.tags, refspec) {
            Some(rev) => Ok(rev),
            None => Err(NuanceError::Git(String::from_str("tag not found: ").concat(refspec))),
        },
        RefKind::Branch => match lookup_ref_exec(&repo.branches, refspec) {
            Some(rev) => Ok(rev),
            None => Err(
                NuanceError::Git(String::from_str("branch not found: ").concat(refspec)),
            ),
        },
    }
}

/// The first repository of the store with the given URL, if any.
pub open spec fn find_repo_spec(repos: Seq<Repo>, url: Seq<char>) -> Option<Repo>
    decreases repos.len(),
{
    if repos.len() == 0 {
        None
    } else if repos[0].url@ == url {
        Some(repos[0])
    } else {
        find_repo_spec(repos.drop_first(), url)
    }
}

/// Where the first `i` repositories miss `url`, the search is decided at or
/// after `i`.
proof fn lemma_find_repo_from(repos: Seq<Repo>, url: Seq<char>, i: int)
    requires
        0 <= i <= repos.len(),
        forall|j: int| 0 <= j < i ==> repos[j].url@ != url,
    ensures
        i == repos.len() ==> find_repo_spec(repos, url) is None,
        i < repos.len() && repos[i].url@ == url ==> find_repo_spec(repos, url) == Some(repos[i]),
    decreases i,
{
    if i > 0 {
        assert(repos[0].url@ != url);
        assert(forall|j: int| 0 <= j < i - 1 ==> repos.drop_first()[j] == repos[j + 1]);
        lemma_find_repo_from(repos.drop_first(), url, i - 1);
    }
}

impl RepoStore {
    /// The repository mirrored from the given URL, if the store holds one.
    pub fn find_repo(&self, url: &str) -> (r: Option<&Repo>)
        ensures
            r is Some <==> find_repo_spec(self.repos@, url@) is Some,
            r matches Some(rp) ==> find_repo_spec(self.repos@, url@) == Some(*rp),
    {
        let n = self.repos.len();
        let mut i: usize = 0;
        while i < n
            invariant
                i <= n,
                n == self.repos@.len(),
                forall|j: int| 0 <= j < i ==> self.repos@[j].url@ != url@,
            decreases n - i,
        {
            if strutil::str_eq(self.repos[i].url.as_str(), url) {
                proof {
                    lemma_find_repo_from(self.repos@, url@, i as int);
                }
                return Some(&self.repos[i]);
            }
            i = i + 1;
        }
        proof {
            lemma_find_repo_from(self.repos@, url@, n as int);
        }
        None
    }
}

/// The manifest recorded for a commit of the repository, if its tree holds
/// one.
pub open spec fn manifest_at(manifests: Seq<(String, Manifest)>, rev: Seq<char>) -> Option<Manifest>
    decreases manifests.len(),
{
    if manifests.len() == 0 {
        None
    } else if manifests[0].0@ == rev {
        Some(manifests[0].1)
    } else {
        manifest_at(manifests.drop_first(), rev)
    }
}

/// Where the first `i` records miss `rev`, the search is decided at or
/// after `i`.
proof fn lemma_manifest_at_from(manifests: Seq<(String, Manifest)>, rev: Seq<char>, i: int)
    requires
        0 <= i <= manifests.len(),
        forall|j: int| 0 <= j < i ==> manifests[j].0@ != rev,
    ensures
        i == manifests.len() ==> manifest_at(manifests, rev) is None,
        i < manifests.len() && manifests[i].0@ == rev ==> manifest_at(manifests, rev) == Some(
            manifests[i].1,
        ),
    decreases i,
{
    if i > 0 {
        assert(manifests[0].0@ != rev);
        assert(forall|j: int| 0 <= j < i - 1 ==> manifests.drop_first()[j] == manifests[j + 1]);
        lemma_manifest_at_from(manifests.drop_first(), rev, i - 1);
    }
}

impl Repo {
    /// The manifest found in the given commit's tree, if any.
    pub fn manifest_of(&self, rev: &str) -> (r: Option<&Manifest>)
        ensures
            r is Some <==> manifest_at(self.manifests@, rev@) is Some,
            r matches Some(m) ==> manifest_at(self.manifests@, rev@) == Some(*m),
    {
        let n = self.manifests.len();
        let mut i: usize = 0;
        while i < n
            invariant
                i <= n,
                n == self.manifests@.len(),
                forall|j: int| 0 <= j < i ==> self.manifests@[j].0@ != rev@,
            decreases n - i,
        {
            if strutil::str_eq(self.manifests[i].0.as_str(), rev) {
                proof {
                    lemma_manifest_at_from(self.manifests@, rev@, i as int);
                }
                return Some(&self.manifests[i].1);
            }
            i = i + 1;
        }
        proof {
            lemma_manifest_at_from(self.manifests@, rev@, n as int);
        }
        None
    }
}

} // verus!
