//! The installation that programs of one family share: where it is, what it holds, and
//! what can be wrong with it.

use crate::text::{decimal, decimal_text, join_path, path_join, trim, trim_text, views};
use vstd::prelude::*;

verus! {

/// The directory of the installation below the home directory.
pub const FOUNDATION_ROOT_SUFFIX: &'static str = ".oxi/foundation/v1";

/// The version of the schema and which programs it suits.
pub const FOUNDATION_FILE: &'static str = "foundation.json";

/// The profiles of providers and models, without secrets.
pub const PROFILES_FILE: &'static str = "profiles.json";

/// The packages that are resolved.
pub const PACKAGES_LOCK_FILE: &'static str = "packages.lock";

/// The directory of the packages.
pub const PACKAGES_DIR: &'static str = "packages";

/// Where the installation is.
pub open spec fn root_of(set: Option<Seq<char>>, home: Option<Seq<char>>) -> Option<Seq<char>> {
    if set is Some && trim(set->0).len() > 0 {
        Some(trim(set->0))
    } else {
        match home {
            Some(h) => Some(path_join(h, FOUNDATION_ROOT_SUFFIX@)),
            None => None,
        }
    }
}

/// Where the installation is: where the environment says, or below the home directory.
pub fn foundation_root(set: Option<&str>, home: Option<&str>) -> (r: Option<String>)
    ensures
        crate::messages::opt_view(r) == root_of(
            crate::handoff_prompt::opt_str_view(set),
            crate::handoff_prompt::opt_str_view(home),
        ),
{
    match set {
        Some(dir) => {
            let trimmed = trim_text(dir);
            if !trimmed.as_str().is_empty() {
                return Some(trimmed);
            }
        },
        None => {},
    }
    match home {
        Some(h) => Some(join_path(h, FOUNDATION_ROOT_SUFFIX)),
        None => None,
    }
}

/// Whether the installation is there: its directory, and the two files that it must have.
pub fn foundation_present(root_is_dir: bool, has_foundation: bool, has_profiles: bool) -> (r: bool)
    ensures
        r == (root_is_dir && has_foundation && has_profiles),
{
    root_is_dir && has_foundation && has_profiles
}

/// What is wrong with an installation. No secret is held here.
#[derive(Debug)]
pub enum FoundationError {
    UnsupportedSchema(u32),
    IncompatibleHost(String),
    Parse(String),
    SecretNotAllowed(String),
    DuplicateProfileId(String),
    UnsupportedRequirement(String),
    DigestMismatch { package: String, expected: String, actual: String },
    TargetMismatch { package: String, targets: Vec<String> },
    UnknownProfile(String),
    UnknownRole(String),
    AmbiguousRole(String),
    KeychainUnavailable(String),
    KeychainLocked(String),
    KeychainNotFound { service: String, account: String },
    BrainUnavailable(String),
    Io(String),
}

/// A list of texts in quotes, as it is shown to programmers.
pub uninterp spec fn debug_list(texts: Seq<Seq<char>>) -> Seq<char>;

/// `std::fmt::Debug` for a list of strings: the texts in quotes with their special
/// characters escaped, a function of the texts alone.
#[verifier::external_body]
fn format_list(texts: &Vec<String>) -> (r: String)
    ensures
        r@ == debug_list(views(texts@)),
{
    format!("{:?}", texts)
}

/// What is wrong, as a sentence. The list of targets is given as it is shown.
pub open spec fn error_text(e: FoundationError, targets_shown: Seq<char>) -> Seq<char> {
    match e {
        FoundationError::UnsupportedSchema(v) => "unsupported foundation schema_version "@
            + decimal(v as nat),
        FoundationError::IncompatibleHost(s) => "host compatibility check failed: "@ + s@,
        FoundationError::Parse(s) => "foundation parse error: "@ + s@,
        FoundationError::SecretNotAllowed(s) => "secret not allowed in foundation file: "@ + s@,
        FoundationError::DuplicateProfileId(id) => "duplicate profile id: "@ + id@,
        FoundationError::UnsupportedRequirement(req) => "unsupported package requirement: "@ + req@,
        FoundationError::DigestMismatch { package, expected, actual } => "package "@ + package@
            + " digest mismatch: expected "@ + expected@ + ", got "@ + actual@,
        FoundationError::TargetMismatch { package, targets: _ } => "package "@ + package@
            + " targets do not include `oxicode`: "@ + targets_shown,
        FoundationError::UnknownProfile(id) => "unknown profile id: "@ + id@,
        FoundationError::UnknownRole(r) => "no profile matches requested role: "@ + r@,
        FoundationError::AmbiguousRole(r) => "multiple profiles match role "@ + r@,
        FoundationError::KeychainUnavailable(s) => "keychain unavailable: "@ + s@,
        FoundationError::KeychainLocked(s) => "keychain locked: "@ + s@,
        FoundationError::KeychainNotFound { service, account } => "keychain entry not found for "@
            + service@ + ":"@ + account@,
        FoundationError::BrainUnavailable(s) => "brain daemon unavailable: "@ + s@,
        FoundationError::Io(s) => "foundation I/O error: "@ + s@,
    }
}

/// Two texts, one after the other.
fn concat_two(a: &str, b: &str) -> (r: String)
    ensures
        r@ == a@ + b@,
{
    let mut out = a.to_owned();
    out.append(b);
    out
}

impl FoundationError {
    /// What is wrong, as a sentence, where the list of targets is shown as given.
    pub fn text_with(&self, targets_shown: &str) -> (r: String)
        ensures
            r@ == error_text(*self, targets_shown@),
    {
        match self {
            FoundationError::UnsupportedSchema(v) => concat_two(
                "unsupported foundation schema_version ",
                decimal_text(*v as u64).as_str(),
            ),
            FoundationError::IncompatibleHost(s) => concat_two(
                "host compatibility check failed: ",
                s.as_str(),
            ),
            FoundationError::Parse(s) => concat_two("foundation parse error: ", s.as_str()),
            FoundationError::SecretNotAllowed(s) => concat_two(
                "secret not allowed in foundation file: ",
                s.as_str(),
            ),
            FoundationError::DuplicateProfileId(id) => concat_two(
                "duplicate profile id: ",
                id.as_str(),
            ),
            FoundationError::UnsupportedRequirement(req) => concat_two(
                "unsupported package requirement: ",
                req.as_str(),
            ),
            FoundationError::DigestMismatch { package, expected, actual } => {
                let mut out = "package ".to_owned();
                out.append(package.as_str());
                out.append(" digest mismatch: expected ");
                out.append(expected.as_str());
                out.append(", got ");
                out.append(actual.as_str());
                out
            },
            FoundationError::TargetMismatch { package, targets: _ } => {
                let mut out = "package ".to_owned();
                out.append(package.as_str());
                out.append(" targets do not include `oxicode`: ");
                out.append(targets_shown);
                out
            },
            FoundationError::UnknownProfile(id) => concat_two("unknown profile id: ", id.as_str()),
            FoundationError::UnknownRole(role) => concat_two(
                "no profile matches requested role: ",
                role.as_str(),
            ),
            FoundationError::AmbiguousRole(role) => concat_two(
                "multiple profiles match role ",
                role.as_str(),
            ),
            FoundationError::KeychainUnavailable(s) => concat_two(
                "keychain unavailable: ",
                s.as_str(),
            ),
            FoundationError::KeychainLocked(s) => concat_two("keychain locked: ", s.as_str()),
            FoundationError::KeychainNotFound { service, account } => {
                let mut out = "keychain entry not found for ".to_owned();
                out.append(service.as_str());
                out.append(":");
                out.append(account.as_str());
                out
            },
            FoundationError::BrainUnavailable(s) => concat_two(
                "brain daemon unavailable: ",
                s.as_str(),
            ),
            FoundationError::Io(s) => concat_two("foundation I/O error: ", s.as_str()),
        }
    }

    /// What is wrong, as a sentence.
    pub fn to_text(&self) -> (r: String)
        ensures
            r@ == error_text(
                *self,
                match self {
                    FoundationError::TargetMismatch { targets, .. } => debug_list(
                        views(targets@),
                    ),
                    _ => Seq::empty(),
                },
            ),
    {
        match self {
            FoundationError::TargetMismatch { targets, .. } => {
                let shown = format_list(targets);
                self.text_with(shown.as_str())
            },
            _ => {
                let none = String::new();
                self.text_with(none.as_str())
            },
        }
    }
}

/// What an installation holds.
pub struct FoundationSnapshot<C, P, K> {
    pub root: String,
    pub compatibility: C,
    pub profiles: P,
    pub packages: K,
}

/// What an installation holds, from its three parts as they were read. The first part in
/// order that could not be read gives the error.
pub fn discover<C, P, K>(
    root: String,
    compatibility: Result<C, FoundationError>,
    profiles: Result<P, FoundationError>,
    packages: Result<K, FoundationError>,
) -> (r: Result<FoundationSnapshot<C, P, K>, FoundationError>)
    ensures
        match (compatibility, profiles, packages) {
            (Err(e), _, _) => r is Err && r->Err_0 == e,
            (Ok(_), Err(e), _) => r is Err && r->Err_0 == e,
            (Ok(_), Ok(_), Err(e)) => r is Err && r->Err_0 == e,
            (Ok(c), Ok(p), Ok(k)) => r == Ok::<FoundationSnapshot<C, P, K>, FoundationError>(
                FoundationSnapshot { root, compatibility: c, profiles: p, packages: k },
            ),
        },
{
    let compatibility = match compatibility {
        Ok(c) => c,
        Err(e) => {
            return Err(e);
        },
    };
    let profiles = match profiles {
        Ok(p) => p,
        Err(e) => {
            return Err(e);
        },
    };
    let packages = match packages {
        Ok(k) => k,
        Err(e) => {
            return Err(e);
        },
    };
    Ok(FoundationSnapshot { root, compatibility, profiles, packages })
}

/// Where the provider and the model of a run come from.
#[derive(Debug, Clone, Copy, PartialEq, Eq, Structural)]
pub enum CredentialSource {
    Environment,
    Profile,
    Role,
    CompatibilityImport,
    Unavailable,
}

impl CredentialSource {
    /// The source as a word.
    pub fn to_text(&self) -> (r: String)
        ensures
            r@ == match self {
                CredentialSource::Environment => "environment"@,
                CredentialSource::Profile => "profile"@,
                CredentialSource::Role => "role"@,
                CredentialSource::CompatibilityImport => "compatibility_import"@,
                CredentialSource::Unavailable => "unavailable"@,
            },
    {
        match self {
            CredentialSource::Environment => "environment".to_owned(),
            CredentialSource::Profile => "profile".to_owned(),
            CredentialSource::Role => "role".to_owned(),
            CredentialSource::CompatibilityImport => "compatibility_import".to_owned(),
            CredentialSource::Unavailable => "unavailable".to_owned(),
        }
    }
}

/// The installation is where it is set to be, without the white space around it, unless that
/// is all there is; else it is below the home, and nowhere where there is none.
pub proof fn lemma_root_when(set: Option<Seq<char>>, home: Option<Seq<char>>)
    ensures
        set is Some && trim(set->0).len() > 0 ==> root_of(set, home) == Some(trim(set->0)),
        (set is None || trim(set->0).len() == 0) && home is Some ==> root_of(set, home) == Some(
            path_join(home->0, ".oxi/foundation/v1"@),
        ),
        (set is None || trim(set->0).len() == 0) && home is None ==> root_of(set, home) is None,
{
}

/// The sentence on a failure with several parts tells each of them in its place.
pub proof fn lemma_error_tells_parts(e: FoundationError, shown: Seq<char>)
    ensures
        e matches FoundationError::UnsupportedSchema(v) ==> error_text(e, shown)
            == "unsupported foundation schema_version "@ + decimal(v as nat),
        e matches FoundationError::DigestMismatch { package, expected, actual } ==> error_text(
            e,
            shown,
        ) == "package "@ + package@ + " digest mismatch: expected "@ + expected@ + ", got "@
            + actual@,
        e matches FoundationError::TargetMismatch { package, targets } ==> error_text(e, shown)
            == "package "@ + package@ + " targets do not include `oxicode`: "@ + shown,
        e matches FoundationError::KeychainNotFound { service, account } ==> error_text(e, shown)
            == "keychain entry not found for "@ + service@ + ":"@ + account@,
{
}

} // verus!
