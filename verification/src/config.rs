use vstd::prelude::*;

use crate::package::ImageName;
use crate::package::PhaseName;

verus! {

/// Configuration validation.
///
/// Loading the configuration file, parsing the compatibility constraint
/// and looking at the filesystem happen outside the library; the observed
/// facts arrive as plain values and the sanity rules are decided here.

/// The container-related settings.
#[derive(Debug)]
pub struct DockerConfig {
    /// The configured endpoint names.
    pub endpoints: Vec<String>,
    /// The images jobs may run on.
    pub images: Vec<ImageName>,
    /// Whether to verify at startup that the requested image is
    /// configured.
    pub verify_images_present: bool,
    /// The accepted daemon versions.
    pub docker_versions: Vec<String>,
    /// The accepted daemon API versions.
    pub docker_api_versions: Vec<String>,
}

/// The configuration as loaded from the file, before validation.
#[derive(Debug)]
pub struct NotValidatedConfiguration {
    /// The version constraint the tool itself must satisfy.
    pub compatibility: String,
    /// Where job log files go.
    pub log_dir: String,
    /// Whether script interpolation rejects unknown placeholders.
    pub strict_script_interpolation: bool,
    /// How many lines of a failing build to show.
    pub build_error_lines: usize,
    /// The highlighting theme for rendered scripts, if any.
    pub script_highlight_theme: Option<String>,
    /// The linter to run over rendered scripts, if any.
    pub script_linter: Option<String>,
    /// The first line of every rendered script.
    pub shebang: String,
    /// The directory of the release stores.
    pub releases_directory: String,
    /// The names of the release stores, in lookup order.
    pub release_stores: Vec<String>,
    /// The directory of the staging stores.
    pub staging_directory: String,
    /// The root of the source cache.
    pub source_cache_root: String,
    /// The container settings.
    pub docker: DockerConfig,
    /// The build phases, in script order.
    pub available_phases: Vec<PhaseName>,
}

/// What the surrounding program observed about the environment the
/// configuration points at.
#[derive(Clone, Copy, PartialEq, Eq, Structural, Debug)]
pub struct ConfigFacts {
    /// The tool's own version satisfies the compatibility constraint.
    pub compatibility_matches: bool,
    /// The configured linter is a regular file.
    pub linter_is_file: bool,
    /// The staging directory exists.
    pub staging_is_dir: bool,
    /// The releases directory exists.
    pub releases_is_dir: bool,
    /// The source cache root exists.
    pub source_cache_is_dir: bool,
}

/// Why the configuration was rejected.
#[derive(Clone, Copy, PartialEq, Eq, Structural, Debug)]
pub enum ConfigError {
    /// The tool's version does not satisfy the compatibility constraint.
    Incompatible,
    /// A script linter is configured but is not a regular file.
    LinterNotAFile,
    /// The staging directory does not exist.
    StagingNotADirectory,
    /// The releases directory does not exist.
    ReleasesNotADirectory,
    /// No release store is configured.
    NoReleaseStores,
    /// The source cache root does not exist.
    SourceCacheNotADirectory,
    /// No build phase is configured.
    NoPhases,
    /// The configured highlighting theme is not a known one.
    UnknownTheme,
}

/// The validated configuration.
#[derive(Debug)]
pub struct Configuration {
    pub inner: NotValidatedConfiguration,
}

/// The highlighting themes the renderer knows.
pub open spec fn theme_allowed(t: Seq<char>) -> bool {
    ||| t == "base16-ocean.dark"@
    ||| t == "base16-eighties.dark"@
    ||| t == "base16-mocha.dark"@
    ||| t == "base16-ocean.light"@
    ||| t == "InspiredGitHub"@
    ||| t == "Solarized (dark)"@
    ||| t == "Solarized (light)"@
}

/// The first rule the configuration breaks, if any.
pub open spec fn first_config_error(
    c: NotValidatedConfiguration,
    facts: ConfigFacts,
) -> Option<ConfigError> {
    if !facts.compatibility_matches {
        Option::Some(ConfigError::Incompatible)
    } else if c.script_linter is Some && !facts.linter_is_file {
        Option::Some(ConfigError::LinterNotAFile)
    } else if !facts.staging_is_dir {
        Option::Some(ConfigError::StagingNotADirectory)
    } else if !facts.releases_is_dir {
        Option::Some(ConfigError::ReleasesNotADirectory)
    } else if c.release_stores@.len() == 0 {
        Option::Some(ConfigError::NoReleaseStores)
    } else if !facts.source_cache_is_dir {
        Option::Some(ConfigError::SourceCacheNotADirectory)
    } else if c.available_phases@.len() == 0 {
        Option::Some(ConfigError::NoPhases)
    } else if match c.script_highlight_theme {
        Option::Some(t) => !theme_allowed(t@),
        Option::None => false,
    } {
        Option::Some(ConfigError::UnknownTheme)
    } else {
        Option::None
    }
}

fn theme_is_allowed(t: &String) -> (r: bool)
    ensures
        r == theme_allowed(t@),
{
    crate::package::str_chars_equal(t.as_str(), "base16-ocean.dark")
        || crate::package::str_chars_equal(t.as_str(), "base16-eighties.dark")
        || crate::package::str_chars_equal(t.as_str(), "base16-mocha.dark")
        || crate::package::str_chars_equal(t.as_str(), "base16-ocean.light")
        || crate::package::str_chars_equal(t.as_str(), "InspiredGitHub")
        || crate::package::str_chars_equal(t.as_str(), "Solarized (dark)")
        || crate::package::str_chars_equal(t.as_str(), "Solarized (light)")
}

impl NotValidatedConfiguration {
    /// Checks the sanity rules against the observed facts and accepts the
    /// configuration exactly when none is broken; a broken rule rejects it
    /// with the first applicable error.
    pub fn validate(self, facts: ConfigFacts) -> (r: Result<Configuration, ConfigError>)
        ensures
            r is Ok <==> first_config_error(self, facts) is None,
            r matches Err(e) ==> first_config_error(self, facts) == Option::Some(e),
            r matches Ok(c) ==> c.inner == self,
    {
        if !facts.compatibility_matches {
            return Err(ConfigError::Incompatible);
        }
        if self.script_linter.is_some() && !facts.linter_is_file {
            return Err(ConfigError::LinterNotAFile);
        }
        if !facts.staging_is_dir {
            return Err(ConfigError::StagingNotADirectory);
        }
        if !facts.releases_is_dir {
            return Err(ConfigError::ReleasesNotADirectory);
        }
        if self.release_stores.len() == 0 {
            return Err(ConfigError::NoReleaseStores);
        }
        if !facts.source_cache_is_dir {
            return Err(ConfigError::SourceCacheNotADirectory);
        }
        if self.available_phases.len() == 0 {
            return Err(ConfigError::NoPhases);
        }
        match &self.script_highlight_theme {
            Option::Some(t) => {
                if !theme_is_allowed(t) {
                    return Err(ConfigError::UnknownTheme);
                }
            },
            Option::None => {},
        }
        Ok(Configuration { inner: self })
    }
}

} // verus!
