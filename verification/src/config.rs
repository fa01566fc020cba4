//! The global configuration: a directory override for globally installed
//! modules, a default git provider, and a global dependency table.
//!
//! The provider setting resolves to a base URL: a few well-known hosts by
//! alias, any explicit http(s) URL as given, and a bare domain under https.

use vstd::prelude::*;

use crate::error::NuanceError;
use crate::git::trim_trailing;
use crate::manifest::Dependency;
use crate::strutil;

verus! {

/// The global configuration: tracks globally installed modules and optional
/// path overrides.
#[derive(Debug, Clone)]
pub struct GlobalConfig {
    /// Where global modules are installed, where overridden.
    pub modules_dir: Option<String>,
    /// The provider that owner/repo shorthand expands under.
    pub default_git_provider: String,
    /// The globally declared dependencies, each name unique.
    pub dependencies: Vec<Dependency>,
}

impl Default for GlobalConfig {
    /// The configuration used when none is on disk: no override, provider
    /// "github", no dependencies.
    fn default() -> (r: Self)
        ensures
            r.modules_dir is None,
            r.default_git_provider@ == "github"@,
            r.dependencies@.len() == 0,
    {
        GlobalConfig {
            modules_dir: None,
            default_git_provider: default_git_provider(),
            dependencies: Vec::new(),
        }
    }
}

/// The provider assumed when the configuration names none.
pub fn default_git_provider() -> (r: String)
    ensures
        r@ == "github"@,
{
    String::from_str("github")
}

/// A whitespace character, as the trimming here understands it: the
/// Unicode white-space class (the one `str::trim` strips).
pub open spec fn is_space(c: char) -> bool {
    c == '\t' || c == '\n' || c == '\u{B}' || c == '\u{C}' || c == '\r' || c == ' ' || c
        == '\u{85}' || c == '\u{A0}' || c == '\u{1680}' || ('\u{2000}' <= c && c <= '\u{200A}')
        || c == '\u{2028}' || c == '\u{2029}' || c == '\u{202F}' || c == '\u{205F}' || c
        == '\u{3000}'
}

/// `s` with leading whitespace removed.
pub open spec fn trim_front(s: Seq<char>) -> Seq<char>
    decreases s.len(),
{
    if s.len() > 0 && is_space(s[0]) {
        trim_front(s.drop_first())
    } else {
        s
    }
}

/// `s` with trailing whitespace removed.
pub open spec fn trim_back(s: Seq<char>) -> Seq<char>
    decreases s.len(),
{
    if s.len() > 0 && is_space(s.last()) {
        trim_back(s.drop_last())
    } else {
        s
    }
}

/// `s` with whitespace removed from both ends.
pub open spec fn trim_spaces(s: Seq<char>) -> Seq<char> {
    trim_back(trim_front(s))
}

/// One character lowered to ASCII lowercase.
pub open spec fn lower_char(c: char) -> char {
    if 'A' <= c && c <= 'Z' {
        (((c as u8) + 32) as char)
    } else {
        c
    }
}

/// A string lowered to ASCII lowercase.
pub open spec fn lower_seq(s: Seq<char>) -> Seq<char> {
    s.map_values(|c: char| lower_char(c))
}

/// Whether `c` is a whitespace character of the class above.
pub fn is_space_exec(c: char) -> (r: bool)
    ensures
        r == is_space(c),
{
    c == '\t' || c == '\n' || c == '\u{B}' || c == '\u{C}' || c == '\r' || c == ' ' || c
        == '\u{85}' || c == '\u{A0}' || c == '\u{1680}' || ('\u{2000}' <= c && c <= '\u{200A}')
        || c == '\u{2028}' || c == '\u{2029}' || c == '\u{202F}' || c == '\u{205F}' || c
        == '\u{3000}'
}

/// The characters of `s` with whitespace trimmed from both ends.
pub fn trim_chars(s: &str) -> (r: Vec<char>)
    ensures
        r@ == trim_spaces(s@),
{
    let cs = strutil::chars_of(s);
    let n = cs.len();
    let mut a: usize = 0;
    proof {
        assert(cs@.skip(0) =~= cs@);
    }
    while a < n && is_space_exec(cs[a])
        invariant
            a <= n,
            n == cs@.len(),
            trim_front(cs@) == trim_front(cs@.skip(a as int)),
        decreases n - a,
    {
        proof {
            assert(cs@.skip(a as int)[0] == cs@[a as int]);
            assert(cs@.skip(a as int).drop_first() =~= cs@.skip(a + 1));
        }
        a = a + 1;
    }
    proof {
        if a < n {
            assert(cs@.skip(a as int)[0] == cs@[a as int]);
        }
        assert(trim_front(cs@.skip(a as int)) == cs@.skip(a as int));
    }
    let mut b: usize = n;
    proof {
        assert(cs@.subrange(a as int, b as int) =~= cs@.skip(a as int));
    }
    while b > a && is_space_exec(cs[b - 1])
        invariant
            a <= b <= n,
            n == cs@.len(),
            trim_front(cs@) == cs@.skip(a as int),
            trim_back(cs@.skip(a as int)) == trim_back(cs@.subrange(a as int, b as int)),
        decreases b,
    {
        proof {
            assert(cs@.subrange(a as int, b as int).last() == cs@[b - 1]);
            assert(cs@.subrange(a as int, b as int).drop_last() =~= cs@.subrange(a as int, b - 1));
        }
        b = b - 1;
    }
    proof {
        if b > a {
            assert(cs@.subrange(a as int, b as int).last() == cs@[b - 1]);
        }
        assert(trim_back(cs@.subrange(a as int, b as int)) == cs@.subrange(a as int, b as int));
    }
    let mut out: Vec<char> = Vec::new();
    let mut i: usize = a;
    while i < b
        invariant
            a <= i <= b <= n,
            n == cs@.len(),
            out@ == cs@.subrange(a as int, i as int),
        decreases b - i,
    {
        out.push(cs[i]);
        proof {
            assert(cs@.subrange(a as int, i + 1) =~= cs@.subrange(a as int, i as int).push(
                cs@[i as int],
            ));
        }
        i = i + 1;
    }
    out
}

/// The characters of `s` lowered to ASCII lowercase.
fn lower_chars(s: &Vec<char>) -> (r: Vec<char>)
    ensures
        r@ == lower_seq(s@),
{
    let n = s.len();
    let mut out: Vec<char> = Vec::new();
    let mut i: usize = 0;
    proof {
        assert(out@ =~= lower_seq(s@.take(0)));
    }
    while i < n
        invariant
            i <= n,
            n == s@.len(),
            out@ == lower_seq(s@.take(i as int)),
        decreases n - i,
    {
        let c = s[i];
        let lc: char = if 'A' <= c && c <= 'Z' {
            (((c as u8) + 32) as char)
        } else {
            c
        };
        out.push(lc);
        proof {
            assert(lower_seq(s@.take(i + 1)) =~= lower_seq(s@.take(i as int)).push(
                lower_char(s@[i as int]),
            ));
        }
        i = i + 1;
    }
    proof {
        assert(s@.take(n as int) =~= s@);
    }
    out
}

/// The base URL of a well-known provider alias, if the name is one.
pub open spec fn known_provider_spec(p: Seq<char>) -> Option<Seq<char>> {
    if p == "github"@ {
        Some("https://github.com"@)
    } else if p == "gitlab"@ {
        Some("https://gitlab.com"@)
    } else if p == "codeberg"@ {
        Some("https://codeberg.org"@)
    } else if p == "bitbucket"@ {
        Some("https://bitbucket.org"@)
    } else {
        None
    }
}

/// The base URL of a well-known provider alias, if the name is one.
pub fn known_provider_base_url(provider: &str) -> (r: Option<&'static str>)
    ensures
        r matches Some(s) ==> known_provider_spec(provider@) == Some(s@),
        r is None <==> known_provider_spec(provider@) is None,
{
    if strutil::str_eq(provider, "github") {
        Some("https://github.com")
    } else if strutil::str_eq(provider, "gitlab") {
        Some("https://gitlab.com")
    } else if strutil::str_eq(provider, "codeberg") {
        Some("https://codeberg.org")
    } else if strutil::str_eq(provider, "bitbucket") {
        Some("https://bitbucket.org")
    } else {
        None
    }
}

/// What a provider setting normalizes to: a known alias's base URL, an
/// explicit http(s) URL as given, a bare domain under https, or nothing.
pub open spec fn normalize_provider_spec(p: Seq<char>) -> Option<Seq<char>> {
    let t = trim_trailing(trim_spaces(p), '/');
    if t.len() == 0 {
        None
    } else if known_provider_spec(lower_seq(t)) is Some {
        known_provider_spec(lower_seq(t))
    } else if strutil::has_prefix(t, "https://"@) || strutil::has_prefix(t, "http://"@) {
        Some(t)
    } else if strutil::has_char(t, '.') && !strutil::has_char(t, '/') && !strutil::has_char(
        t,
        ' ',
    ) {
        Some("https://"@ + t)
    } else {
        None
    }
}

/// Normalize a provider setting to a base URL, if it is usable.
pub fn normalize_provider_base_url(provider: &str) -> (r: Option<String>)
    ensures
        r matches Some(s) ==> normalize_provider_spec(provider@) == Some(s@),
        r is None <==> normalize_provider_spec(provider@) is None,
{
    let tv = trim_chars(provider);
    let mut end: usize = tv.len();
    proof {
        assert(tv@.take(end as int) =~= tv@);
    }
    while end > 0 && tv[end - 1] == '/'
        invariant
            end <= tv@.len(),
            trim_trailing(tv@, '/') == trim_trailing(tv@.take(end as int), '/'),
        decreases end,
    {
        proof {
            assert(tv@.take(end as int).last() == tv@[end - 1]);
            assert(tv@.take(end as int).drop_last() =~= tv@.take(end - 1));
        }
        end = end - 1;
    }
    proof {
        assert(trim_trailing(tv@.take(end as int), '/') == tv@.take(end as int));
    }
    let mut t: Vec<char> = Vec::new();
    let mut i: usize = 0;
    while i < end
        invariant
            i <= end,
            end <= tv@.len(),
            t@ == tv@.take(end as int).take(i as int),
        decreases end - i,
    {
        t.push(tv[i]);
        proof {
            assert(tv@.take(end as int).take(i + 1) =~= tv@.take(end as int).take(i as int).push(
                tv@[i as int],
            ));
        }
        i = i + 1;
    }
    proof {
        assert(tv@.take(end as int).take(end as int) =~= tv@.take(end as int));
        assert(t@ == trim_trailing(trim_spaces(provider@), '/'));
    }
    if t.len() == 0 {
        return None;
    }
    let trimmed = strutil::string_of_chars(&t);
    let lowered = strutil::string_of_chars(&lower_chars(&t));
    match known_provider_base_url(lowered.as_str()) {
        Some(base) => Some(String::from_str(base)),
        None => {
            if strutil::starts_with_str(trimmed.as_str(), "https://") || strutil::starts_with_str(
                trimmed.as_str(),
                "http://",
            ) {
                Some(trimmed)
            } else if strutil::chars_contain(&t, '.') && !strutil::chars_contain(&t, '/')
                && !strutil::chars_contain(&t, ' ') {
                let joined = String::from_str("https://").concat(trimmed.as_str());
                Some(joined)
            } else {
                None
            }
        },
    }
}

impl GlobalConfig {
    /// Resolve the configured default git provider to a base URL, or report
    /// it unsupported.
    pub fn default_git_provider_base_url(&self) -> (r: Result<String, NuanceError>)
        ensures
            r matches Ok(s) ==> normalize_provider_spec(self.default_git_provider@) == Some(s@),
            r is Err <==> normalize_provider_spec(self.default_git_provider@) is None,
            r matches Err(e) ==> (e matches NuanceError::Config(m) && m@
                == "unsupported default_git_provider '"@ + self.default_git_provider@
                + "'; use one of github, gitlab, codeberg, bitbucket, or a custom host like git.example.com"@),
    {
        match normalize_provider_base_url(self.default_git_provider.as_str()) {
            Some(base) => Ok(base),
            None => Err(
                NuanceError::Config(
                    String::from_str("unsupported default_git_provider '").concat(
                        self.default_git_provider.as_str(),
                    ).concat(
                        "'; use one of github, gitlab, codeberg, bitbucket, or a custom host like git.example.com",
                    ),
                ),
            ),
        }
    }

    /// The directory global modules install into: the configured override,
    /// or the platform default under the shell's config directory.
    pub fn modules_dir(&self) -> (r: Result<String, NuanceError>)
        ensures
            self.modules_dir matches Some(p) ==> (r matches Ok(q) && q@ == p@),
            self.modules_dir is None ==> ((r matches Ok(q) ==> strutil::has_suffix(
                q@,
                "/nushell/vendor/nuance_modules"@,
            )) && (r matches Err(e) ==> (e matches NuanceError::Config(m) && m@
                == "could not determine config directory"@))),
    {
        match &self.modules_dir {
            Some(custom) => Ok(custom.clone()),
            None => global_modules_dir(),
        }
    }
}

/// Relies on `dirs::home_dir`: the user's home directory, if the platform
/// reports one.
#[verifier::external_body]
fn os_home_dir() -> (r: Option<String>)
{
    match dirs::home_dir() {
        Some(p) => Some(p.to_string_lossy().into_owned()),
        None => None,
    }
}

/// Relies on `dirs::config_dir`: the platform configuration directory, if
/// the platform reports one.
#[verifier::external_body]
fn os_config_dir() -> (r: Option<String>)
{
    match dirs::config_dir() {
        Some(p) => Some(p.to_string_lossy().into_owned()),
        None => None,
    }
}

/// The global configuration directory: the home directory plus
/// `/.config/nuance`.
pub fn global_config_dir() -> (r: Result<String, NuanceError>)
    ensures
        r matches Ok(p) ==> strutil::has_suffix(p@, "/.config/nuance"@),
        r matches Err(e) ==> (e matches NuanceError::Config(m) && m@
            == "could not determine home directory"@),
{
    match os_home_dir() {
        Some(home) => {
            let joined = home.concat("/.config/nuance");
            proof {
                assert(joined@.subrange(
                    joined@.len() - "/.config/nuance"@.len(),
                    joined@.len() as int,
                ) =~= "/.config/nuance"@);
            }
            Ok(joined)
        },
        None => Err(NuanceError::Config(String::from_str("could not determine home directory"))),
    }
}

/// The path of the global configuration file, under the global
/// configuration directory.
pub fn global_config_path() -> (r: Result<String, NuanceError>)
    ensures
        r matches Ok(p) ==> strutil::has_suffix(p@, "/.config/nuance/config.toml"@),
        r matches Err(e) ==> (e matches NuanceError::Config(m) && m@
            == "could not determine home directory"@),
{
    match global_config_dir() {
        Ok(dir) => {
            let ghost d = dir@;
            let joined = dir.concat("/config.toml");
            proof {
                strutil::lemma_suffix_join(d, "/.config/nuance"@, "/config.toml"@);
                assert("/.config/nuance"@ + "/config.toml"@ =~= "/.config/nuance/config.toml"@) by {
                    reveal_strlit("/.config/nuance");
                    reveal_strlit("/config.toml");
                    reveal_strlit("/.config/nuance/config.toml");
                }
            }
            Ok(joined)
        },
        Err(e) => Err(e),
    }
}

/// The path of the global lockfile, under the global configuration
/// directory.
pub fn global_lock_path() -> (r: Result<String, NuanceError>)
    ensures
        r matches Ok(p) ==> strutil::has_suffix(p@, "/.config/nuance/config.lock"@),
        r matches Err(e) ==> (e matches NuanceError::Config(m) && m@
            == "could not determine home directory"@),
{
    match global_config_dir() {
        Ok(dir) => {
            let ghost d = dir@;
            let joined = dir.concat("/config.lock");
            proof {
                strutil::lemma_suffix_join(d, "/.config/nuance"@, "/config.lock"@);
                assert("/.config/nuance"@ + "/config.lock"@ =~= "/.config/nuance/config.lock"@) by {
                    reveal_strlit("/.config/nuance");
                    reveal_strlit("/config.lock");
                    reveal_strlit("/.config/nuance/config.lock");
                }
            }
            Ok(joined)
        },
        Err(e) => Err(e),
    }
}

/// The default directory for globally installed modules: the platform
/// configuration directory plus `/nushell/vendor/nuance_modules`.
pub fn global_modules_dir() -> (r: Result<String, NuanceError>)
    ensures
        r matches Ok(p) ==> strutil::has_suffix(p@, "/nushell/vendor/nuance_modules"@),
        r matches Err(e) ==> (e matches NuanceError::Config(m) && m@
            == "could not determine config directory"@),
{
    match os_config_dir() {
        Some(cfg) => {
            let joined = cfg.concat("/nushell/vendor/nuance_modules");
            proof {
                assert(joined@.subrange(
                    joined@.len() - "/nushell/vendor/nuance_modules"@.len(),
                    joined@.len() as int,
                ) =~= "/nushell/vendor/nuance_modules"@);
            }
            Ok(joined)
        },
        None => Err(NuanceError::Config(String::from_str("could not determine config directory"))),
    }
}

} // verus!
