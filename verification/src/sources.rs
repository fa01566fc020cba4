//! Normalization of user-supplied dependency sources, and detection of the
//! ref a new dependency should pin to.
//!
//! A source is either a git URL, passed through as given, or an owner/repo
//! shorthand, expanded under the configured provider's base URL. A new
//! dependency with no explicit ref pins to the repository's latest tag, or
//! tracks its default branch where it has no tags.

use vstd::prelude::*;

use crate::config::{is_space, trim_spaces};
use crate::error::NuanceError;
use crate::git;
use crate::manifest::DependencySpec;
use crate::strutil;

verus! {

/// Whether the value already reads as a git URL: it holds a scheme
/// separator, or starts with "git@".
pub open spec fn is_git_url_spec(v: Seq<char>) -> bool {
    strutil::has_substr(v, "://"@) || strutil::has_prefix(v, "git@"@)
}

/// Whether the value already reads as a git URL.
pub fn is_git_url(value: &str) -> (r: bool)
    ensures
        r == is_git_url_spec(value@),
{
    strutil::contains_str(value, "://") || strutil::starts_with_str(value, "git@")
}

/// `k` splits `v` as owner/repo shorthand: the one `'/'`, strictly inside,
/// with no whitespace anywhere.
pub open spec fn shorthand_at(v: Seq<char>, k: int) -> bool {
    0 < k < v.len() - 1 && v[k] == '/' && forall|j: int|
        0 <= j < v.len() && j != k ==> v[j] != '/' && !is_space(v[j])
}

/// Whether the value is owner/repo shorthand: a single `'/'` with a
/// non-empty owner before it and a non-empty repo after it, and no
/// whitespace in either.
pub open spec fn is_repo_shorthand_spec(v: Seq<char>) -> bool {
    exists|k: int| #[trigger] shorthand_at(v, k)
}

/// Whether the value is owner/repo shorthand.
pub fn is_repo_shorthand(value: &str) -> (r: bool)
    ensures
        r == is_repo_shorthand_spec(value@),
{
    let cs = strutil::chars_of(value);
    let n = cs.len();
    let mut slashes: usize = 0;
    let mut k: usize = 0;
    let ghost mut k2: int = 0;
    let mut ws = false;
    let mut i: usize = 0;
    while i < n
        invariant
            i <= n,
            n == cs@.len(),
            slashes <= i,
            slashes == 0 ==> forall|j: int| 0 <= j < i ==> cs@[j] != '/',
            slashes >= 1 ==> k < i && cs@[k as int] == '/',
            slashes == 1 ==> forall|j: int| 0 <= j < i && j != k ==> cs@[j] != '/',
            slashes >= 2 ==> k < k2 < i && cs@[k2] == '/',
            ws <==> exists|j: int| 0 <= j < i && is_space(#[trigger] cs@[j]),
        decreases n - i,
    {
        let c = cs[i];
        if c == '/' {
            if slashes == 0 {
                k = i;
            } else {
                proof {
                    if slashes == 1 {
                        k2 = i as int;
                    }
                }
            }
            slashes = slashes + 1;
        } else if crate::config::is_space_exec(c) {
            ws = true;
        }
        i = i + 1;
    }
    let r = slashes == 1 && !ws && k > 0 && k + 1 < n;
    proof {
        if r {
            assert(shorthand_at(cs@, k as int));
        } else {
            assert forall|t: int| !shorthand_at(cs@, t) by {
                if 0 < t < cs@.len() - 1 && cs@[t] == '/' {
                    if slashes == 0 {
                    } else if slashes == 1 {
                        assert(t == k);
                        if ws {
                            let j = choose|j: int|
                                0 <= j < cs@.len() && is_space(#[trigger] cs@[j]);
                            assert(j != t);
                        }
                    } else {
                        assert(cs@[k as int] == '/' && cs@[k2] == '/');
                        if t != k {
                            assert(!shorthand_at(cs@, t)) by {
                                assert(cs@[k as int] == '/');
                            }
                        } else {
                            assert(cs@[k2] == '/' && k2 != t);
                        }
                    }
                }
            }
        }
    }
    r
}

/// Normalize a dependency source: a git URL passes through trimmed, an
/// owner/repo shorthand expands under the provider base URL, and anything
/// else is rejected.
pub fn normalize_dependency_source(input: &str, provider_base_url: Option<&str>) -> (r: Result<
    String,
    NuanceError,
>)
    ensures
        trim_spaces(input@).len() == 0 ==> (r matches Err(NuanceError::Other(m)) && m@
            == "dependency source cannot be empty"@),
        trim_spaces(input@).len() > 0 && is_git_url_spec(trim_spaces(input@)) ==> (r matches Ok(s)
            && s@ == trim_spaces(input@)),
        trim_spaces(input@).len() > 0 && !is_git_url_spec(trim_spaces(input@))
            && is_repo_shorthand_spec(trim_spaces(input@)) && provider_base_url is None ==> (r
            matches Err(NuanceError::Other(m)) && m@
            == "a default git provider is required for owner/repo shorthand"@),
        trim_spaces(input@).len() > 0 && !is_git_url_spec(trim_spaces(input@))
            && is_repo_shorthand_spec(trim_spaces(input@)) && (provider_base_url matches Some(b))
            ==> (r matches Ok(s) && s@ == provider_base_url.unwrap()@ + "/"@ + trim_spaces(
            input@,
        )),
        trim_spaces(input@).len() > 0 && !is_git_url_spec(trim_spaces(input@))
            && !is_repo_shorthand_spec(trim_spaces(input@)) ==> (r matches Err(
            NuanceError::Other(m),
        ) && m@ == "invalid dependency source '"@ + input@
            + "'; expected a git URL or owner/repo shorthand"@),
{
    let tv = crate::config::trim_chars(input);
    let trimmed = strutil::string_of_chars(&tv);
    if trimmed.as_str().is_empty() {
        return Err(NuanceError::Other(String::from_str("dependency source cannot be empty")));
    }
    if is_git_url(trimmed.as_str()) {
        return Ok(trimmed);
    }
    if is_repo_shorthand(trimmed.as_str()) {
        match provider_base_url {
            Some(base) => {
                let joined = String::from_str(base).concat("/").concat(trimmed.as_str());
                return Ok(joined);
            },
            None => {
                return Err(
                    NuanceError::Other(
                        String::from_str(
                            "a default git provider is required for owner/repo shorthand",
                        ),
                    ),
                );
            },
        }
    }
    Err(
        NuanceError::Other(
            String::from_str("invalid dependency source '").concat(input).concat(
                "'; expected a git URL or owner/repo shorthand",
            ),
        ),
    )
}

/// Whether a new dependency needs its ref detected: no tag, rev or branch
/// was given.
pub fn needs_ref_detection(tag: &Option<String>, rev: &Option<String>, branch: &Option<String>)
    -> (r: bool)
    ensures
        r == (tag is None && rev is None && branch is None),
{
    tag.is_none() && rev.is_none() && branch.is_none()
}

/// The dependency spec for a new dependency.
///
/// With an explicit tag, rev or branch, that ref is used as given. With
/// none, the repository's tags and remote branches decide: the
/// lexicographically latest tag where one exists, otherwise the default
/// branch, otherwise an error.
pub fn auto_detect_dep_spec(
    url: &str,
    tag: Option<String>,
    rev: Option<String>,
    branch: Option<String>,
    tags: &Vec<String>,
    remote_branches: &Vec<String>,
) -> (r: Result<DependencySpec, NuanceError>)
    ensures
        !(tag is None && rev is None && branch is None) ==> (r matches Ok(s) && s.git@ == url@
            && s.tag == tag && s.rev == rev && s.branch == branch),
        tag is None && rev is None && branch is None && tags@.len() > 0 ==> (r matches Ok(s)
            && s.git@ == url@ && s.rev is None && s.branch is None && (s.tag matches Some(t)
            && (exists|i: int| 0 <= i < tags@.len() && #[trigger] tags@[i]@ == t@) && (forall|
            j: int,
        | 0 <= j < tags@.len() ==> crate::order::str_le(#[trigger] tags@[j]@, t@)))),
        tag is None && rev is None && branch is None && tags@.len() == 0 && git::names_contain(
            remote_branches@,
            "main"@,
        ) ==> (r matches Ok(s) && s.git@ == url@ && s.rev is None && s.tag is None && (s.branch
            matches Some(b) && b@ == "main"@)),
        tag is None && rev is None && branch is None && tags@.len() == 0 && !git::names_contain(
            remote_branches@,
            "main"@,
        ) && git::names_contain(remote_branches@, "master"@) ==> (r matches Ok(s) && s.git@ == url@
            && s.rev is None && s.tag is None && (s.branch matches Some(b) && b@ == "master"@)),
        tag is None && rev is None && branch is None && tags@.len() == 0 && !git::names_contain(
            remote_branches@,
            "main"@,
        ) && !git::names_contain(remote_branches@, "master"@) ==> (r matches Err(
            NuanceError::Other(m),
        ) && m@ == "could not determine default branch"@),
{
    if tag.is_some() || rev.is_some() || branch.is_some() {
        return Ok(DependencySpec { git: String::from_str(url), tag, rev, branch });
    }
    match git::latest_tag(tags) {
        Some(latest) => Ok(
            DependencySpec { git: String::from_str(url), tag: Some(latest), rev: None, branch: None },
        ),
        None => match git::default_branch(remote_branches) {
            Ok(default_br) => Ok(
                DependencySpec {
                    git: String::from_str(url),
                    tag: None,
                    rev: None,
                    branch: Some(default_br),
                },
            ),
            Err(e) => Err(e),
        },
    }
}

} // verus!
