//! The manifest of a theme (`hyprtheme.toml`) and its validation.

use vstd::prelude::*;
use vstd::string::*;
use crate::identity::{create_theme_id, opt_seq, IdView, ThemeId};
use crate::text::{standard_name, standardize};

verus! {

/// Metadata of a theme.
pub struct ThemeMeta {
    pub name: String,
    pub description: String,
    pub version: String,
    pub author: String,
    /// Git repository of the theme.
    pub repo: String,
    pub branch: Option<String>,
}

impl ThemeMeta {
    /// The standard form of the theme's name.
    pub fn name(&self) -> (r: String)
        ensures
            r@ == standard_name(self.name@),
    {
        standardize(self.name.as_str())
    }
}

/// Where the compositor configuration lives in the theme.
pub struct ConfigTheme {
    /// Path, relative to the theme root, of the subtree copied into the compositor config dir.
    pub location: String,
    /// Minimum compositor version; carried, never enforced.
    pub minimum_hyprland_version: String,
}

/// One placement rule for dotfiles.
pub struct ConfigLink {
    /// Source subtree, relative to the theme root.
    pub from: String,
    /// Destination; when absent, `from` under the home directory.
    pub to: Option<String>,
    /// Glob patterns of paths left out.
    pub ignore: Vec<String>,
    /// Glob patterns of paths admitted again although ignored.
    pub readmit: Vec<String>,
}

/// Setup and cleanup hooks, relative to the theme root.
pub struct LifeTimeConfig {
    pub setup: String,
    pub cleanup: String,
}

/// A named optional configuration, carried through.
pub struct ConfigHyprModule {
    pub name: String,
    pub path: String,
    pub description: Option<String>,
}

/// The validated manifest of a theme.
pub struct Config {
    pub meta: ThemeMeta,
    pub hypr: ConfigTheme,
    pub dots: Vec<ConfigLink>,
    pub lifetime: LifeTimeConfig,
    pub extras: Vec<ConfigHyprModule>,
    pub dependencies: Vec<String>,
    /// Version of the manifest schema.
    pub format_version: String,
}

/// A manifest as decoded, before validation: every field that may be missing is optional.
pub struct RawConfig {
    pub name: Option<String>,
    pub description: Option<String>,
    pub version: Option<String>,
    pub author: Option<String>,
    pub repo: Option<String>,
    pub branch: Option<String>,
    pub location: Option<String>,
    pub minimum_hyprland_version: Option<String>,
    pub dots: Vec<ConfigLink>,
    pub setup: Option<String>,
    pub cleanup: Option<String>,
    pub extras: Vec<ConfigHyprModule>,
    pub dependencies: Vec<String>,
    pub format_version: Option<String>,
}

/// Why a manifest was refused.
pub enum ManifestError {
    /// The document could not be decoded.
    Syntax(String),
    /// A required field is missing; holds the field's key.
    MissingField(String),
    /// The name holds a character outside the allowed set; holds the name.
    InvalidName(String),
}

/// The characters a theme name may hold: ASCII letters, digits, `_`, `-` and space.
pub open spec fn valid_name_char(c: char) -> bool {
    ('a' <= c && c <= 'z') || ('A' <= c && c <= 'Z') || ('0' <= c && c <= '9') || c == '_'
        || c == '-' || c == ' '
}

pub open spec fn valid_name(s: Seq<char>) -> bool {
    forall|i: int| 0 <= i < s.len() ==> valid_name_char(#[trigger] s[i])
}

/// The text of an optional field, empty when missing.
pub open spec fn or_empty(o: Option<String>) -> Seq<char> {
    match o {
        Some(s) => s@,
        None => Seq::empty(),
    }
}

pub open spec fn default_setup() -> Seq<char> {
    ".hyprtheme/setup.sh"@
}

pub open spec fn default_cleanup() -> Seq<char> {
    ".hyprtheme/cleanup.sh"@
}

/// The outcome of validating `raw`, apart from the fields that move over unchanged.
pub open spec fn validation_error(raw: RawConfig) -> Option<Seq<char>> {
    if raw.name is None {
        Some("meta.name"@)
    } else if raw.repo is None {
        Some("meta.repo"@)
    } else if raw.location is None {
        Some("hypr.location"@)
    } else {
        None
    }
}

/// Whether every character of `name` is allowed.
pub fn is_valid_name(name: &str) -> (r: bool)
    ensures
        r == valid_name(name@),
{
    let n = name.unicode_len();
    let mut i: usize = 0;
    while i < n
        invariant
            n == name@.len(),
            i <= n,
            forall|j: int| 0 <= j < i ==> valid_name_char(#[trigger] name@[j]),
        decreases n - i,
    {
        let c = name.get_char(i);
        if !(('a' <= c && c <= 'z') || ('A' <= c && c <= 'Z') || ('0' <= c && c <= '9') || c
            == '_' || c == '-' || c == ' ') {
            return false;
        }
        i += 1;
    }
    true
}

fn text_or_empty(o: Option<String>) -> (r: String)
    ensures
        r@ == or_empty(o),
{
    match o {
        Some(s) => s,
        None => String::new(),
    }
}

fn text_or(o: Option<String>, default: &str) -> (r: String)
    ensures
        r@ == match o {
            Some(s) => s@,
            None => default@,
        },
{
    match o {
        Some(s) => s,
        None => default.to_owned(),
    }
}

impl Config {
    /// The id of the theme this manifest describes.
    pub open spec fn get_id_spec(&self) -> IdView {
        (self.meta.repo@, opt_seq(self.meta.branch))
    }

    /// Validates a decoded manifest: the name, the repository and the location of the
    /// compositor configuration are required, and the name must hold only allowed characters.
    /// Missing optional fields take their defaults.
    pub fn from_raw(raw: RawConfig) -> (r: Result<Config, ManifestError>)
        ensures
            match validation_error(raw) {
                Some(key) => r matches Err(ManifestError::MissingField(k)) && k@ == key,
                None => if valid_name(raw.name->0@) {
                    r matches Ok(c) && {
                        &&& c.meta.name == raw.name->0
                        &&& c.meta.repo == raw.repo->0
                        &&& c.meta.branch == raw.branch
                        &&& c.meta.description@ == or_empty(raw.description)
                        &&& c.meta.version@ == or_empty(raw.version)
                        &&& c.meta.author@ == or_empty(raw.author)
                        &&& c.hypr.location == raw.location->0
                        &&& c.hypr.minimum_hyprland_version@ == or_empty(
                            raw.minimum_hyprland_version,
                        )
                        &&& c.dots == raw.dots
                        &&& c.lifetime.setup@ == match raw.setup {
                            Some(s) => s@,
                            None => default_setup(),
                        }
                        &&& c.lifetime.cleanup@ == match raw.cleanup {
                            Some(s) => s@,
                            None => default_cleanup(),
                        }
                        &&& c.extras == raw.extras
                        &&& c.dependencies == raw.dependencies
                        &&& c.format_version@ == or_empty(raw.format_version)
                    }
                } else {
                    r matches Err(ManifestError::InvalidName(n)) && n == raw.name->0
                },
            },
    {
        proof {
            reveal_strlit("meta.name");
            reveal_strlit("meta.repo");
            reveal_strlit("hypr.location");
            reveal_strlit(".hyprtheme/setup.sh");
            reveal_strlit(".hyprtheme/cleanup.sh");
        }
        let name = match raw.name {
            Some(n) => n,
            None => return Err(ManifestError::MissingField("meta.name".to_owned())),
        };
        let repo = match raw.repo {
            Some(r) => r,
            None => return Err(ManifestError::MissingField("meta.repo".to_owned())),
        };
        let location = match raw.location {
            Some(l) => l,
            None => return Err(ManifestError::MissingField("hypr.location".to_owned())),
        };
        if !is_valid_name(name.as_str()) {
            return Err(ManifestError::InvalidName(name));
        }
        Ok(Config {
            meta: ThemeMeta {
                name,
                description: text_or_empty(raw.description),
                version: text_or_empty(raw.version),
                author: text_or_empty(raw.author),
                repo,
                branch: raw.branch,
            },
            hypr: ConfigTheme {
                location,
                minimum_hyprland_version: text_or_empty(raw.minimum_hyprland_version),
            },
            dots: raw.dots,
            lifetime: LifeTimeConfig {
                setup: text_or(raw.setup, ".hyprtheme/setup.sh"),
                cleanup: text_or(raw.cleanup, ".hyprtheme/cleanup.sh"),
            },
            extras: raw.extras,
            dependencies: raw.dependencies,
            format_version: text_or_empty(raw.format_version),
        })
    }

    /// The id of the theme this manifest describes.
    pub fn get_id(&self) -> (r: ThemeId)
        ensures
            r@ == self.get_id_spec(),
    {
        let b = match &self.meta.branch {
            Some(b) => Some(b.as_str()),
            None => None,
        };
        create_theme_id(self.meta.repo.as_str(), b)
    }
}

/// A decoded manifest with its required fields is accepted exactly when its name holds only
/// allowed characters; every other name is refused with a manifest error.
pub proof fn lemma_only_allowed_names_accepted(raw: RawConfig, r: Result<Config, ManifestError>)
    requires
        validation_error(raw) is None,
        valid_name(raw.name->0@) ==> (r matches Ok(c) && c.meta.name == raw.name->0),
        !valid_name(raw.name->0@) ==> (r matches Err(ManifestError::InvalidName(n)) && n == raw.name->0),
    ensures
        r is Ok <==> valid_name(raw.name->0@),
        r is Ok ==> valid_name(r->Ok_0.meta.name@),
        r is Err ==> r->Err_0 is InvalidName,
{
}

} // verus!
