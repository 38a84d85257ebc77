//! Configuration choices for a resolution run, and the small carrier types
//! that error reports attach paths and environment-variable names to.

use vstd::prelude::*;

verus! {

use vstd::string::StringExecFns;

/// Which backend walks the registry source folder.
#[derive(Debug, Clone, Copy, PartialEq, Eq, Structural)]
pub enum FetchBackend {
    /// Walk it with the standard library's filesystem functions.
    Std,
}

impl Default for FetchBackend {
    fn default() -> (r: Self)
        ensures
            r is Std,
    {
        FetchBackend::Std
    }
}

/// How resolved license text is persisted between runs.
#[derive(Debug, Clone, Copy, PartialEq, Eq, Structural)]
pub enum CacheBackend {
    /// Serialize and compress the whole mapping to one file.
    BincodeZip,
}

impl Default for CacheBackend {
    fn default() -> (r: Self)
        ensures
            r is BincodeZip,
    {
        CacheBackend::BincodeZip
    }
}

/// Where the persisted cache is written.
#[derive(Debug, Clone, Copy, PartialEq, Eq, Structural)]
pub enum CacheSaveLocation {
    /// A per-user global cache directory.
    Global,
    /// The build's own output directory.
    Local,
    /// A directory tracked next to the project's sources.
    Repository,
    /// Write no cache.
    NoSave,
}

impl Default for CacheSaveLocation {
    fn default() -> (r: Self)
        ensures
            r is Global,
    {
        CacheSaveLocation::Global
    }
}

/// How the cache is consulted while resolving.
#[derive(Debug, Clone, Copy, PartialEq, Eq, Structural)]
pub enum CacheBehavior {
    /// Check the repository, local, then global location; the first cache
    /// found is used.
    CheckAllTakeFirst,
    /// Check only the global cache.
    Global,
    /// Do not consult any cache.
    Disabled,
}

impl Default for CacheBehavior {
    fn default() -> (r: Self)
        ensures
            r is CheckAllTakeFirst,
    {
        CacheBehavior::CheckAllTakeFirst
    }
}

/// Why no configuration could be built.
#[derive(Debug, Clone, Copy, PartialEq, Eq, Structural)]
pub enum ConfigBuildError {
    /// A required builder field was never set.
    UninitializedField,
    /// A provided value failed validation.
    ValidationError,
    /// The build environment variables are absent or unreadable.
    FailedFromEnvVars,
    /// No manifest was found under the provided path.
    FailedFromPath,
    /// No home directory for the toolchain could be inferred.
    CargoHomeDir,
}

impl ConfigBuildError {
    /// A short description of the failure.
    pub fn message(&self) -> &'static str {
        match self {
            ConfigBuildError::UninitializedField => "Required field in builder is not initialized.",
            ConfigBuildError::ValidationError => "Validation of input failed.",
            ConfigBuildError::FailedFromEnvVars => "Failed fetching required fields from build environment variables.",
            ConfigBuildError::FailedFromPath => "Failed fetching required fields from manifest in path.",
            ConfigBuildError::CargoHomeDir => "Failed inferring cargo home dir from environment variables or standard home dir location.",
        }
    }
}

/// Why no path to a manifest could be derived from a provided path.
#[derive(Debug, Clone, Copy, PartialEq, Eq, Structural)]
pub enum FromPathError {
    /// The path does not exist or is not accessible.
    PathDoesNotExist,
    /// No manifest stands at or under the path.
    ManifestNotFound,
    /// Reading the path failed.
    Io,
}

impl FromPathError {
    /// A short description of the failure.
    pub fn message(&self) -> &'static str {
        match self {
            FromPathError::PathDoesNotExist => "The requested path does not exist or this program does not have the permission to access it.",
            FromPathError::ManifestNotFound => "Manifest not found.",
            FromPathError::Io => "Io error.",
        }
    }
}

/// Why the toolchain's home folder could not be located.
#[derive(Debug, Clone, Copy, PartialEq, Eq, Structural)]
pub enum CargoFolderError {
    /// The user's home directory could not be determined.
    BaseDirs,
    /// The given or inferred location does not exist.
    DoesNotExist,
    /// The given or inferred location is not a folder.
    IsNotDir,
}

impl CargoFolderError {
    /// A short description of the failure.
    pub fn message(&self) -> &'static str {
        match self {
            CargoFolderError::BaseDirs => "Failed fetching users home directory.",
            CargoFolderError::DoesNotExist => "Given or inferred cargo home folder location does not exist.",
            CargoFolderError::IsNotDir => "Given or inferred cargo home path is not a folder.",
        }
    }
}

/// What the metadata commands need: where the manifest lives, which
/// toolchain binary to run, in which modes, and with which features enabled.
/// Paths are carried as plain strings; the caller that touches the
/// filesystem interprets them.
pub struct MetadataConfig {
    pub manifest_dir: String,
    pub cargo_path: String,
    pub cargo_directives: crate::directive::CargoDirectiveList,
    pub enabled_features: Option<String>,
}

/// The behavior of one license-fetching run.
pub struct Config {
    pub metadata_config: MetadataConfig,
    pub cargo_home_dir: String,
    pub cache: bool,
}

/// Builder for [`Config`]: explicit choices override the environment values
/// handed to [`ConfigBuilder::build`].
pub struct ConfigBuilder {
    pub manifest_dir: Option<String>,
    pub cargo_path: Option<String>,
    pub cargo_home_dir: Option<String>,
    pub cargo_directives: Option<crate::directive::CargoDirectiveList>,
    pub cache: Option<bool>,
    pub enabled_features: Option<String>,
}

impl Default for ConfigBuilder {
    /// A builder with nothing chosen yet.
    fn default() -> (r: Self)
        ensures
            r.manifest_dir is None,
            r.cargo_path is None,
            r.cargo_home_dir is None,
            r.cargo_directives is None,
            r.cache is None,
            r.enabled_features is None,
    {
        ConfigBuilder {
            manifest_dir: None,
            cargo_path: None,
            cargo_home_dir: None,
            cargo_directives: None,
            cache: None,
            enabled_features: None,
        }
    }
}

impl ConfigBuilder {
    /// Set the manifest directory path.
    pub fn manifest_dir(self, dir: String) -> (r: Self)
        ensures
            r == (ConfigBuilder { manifest_dir: Some(dir), ..self }),
    {
        ConfigBuilder { manifest_dir: Some(dir), ..self }
    }

    /// Set the toolchain executable path.
    pub fn cargo_path(self, path: String) -> (r: Self)
        ensures
            r == (ConfigBuilder { cargo_path: Some(path), ..self }),
    {
        ConfigBuilder { cargo_path: Some(path), ..self }
    }

    /// Set the toolchain home directory path.
    pub fn cargo_home_dir(self, dir: String) -> (r: Self)
        ensures
            r == (ConfigBuilder { cargo_home_dir: Some(dir), ..self }),
    {
        ConfigBuilder { cargo_home_dir: Some(dir), ..self }
    }

    /// Set the invocation modes for the metadata commands.
    pub fn cargo_directives(self, directives: crate::directive::CargoDirectiveList) -> (r: Self)
        ensures
            r == (ConfigBuilder { cargo_directives: Some(directives), ..self }),
    {
        ConfigBuilder { cargo_directives: Some(directives), ..self }
    }

    /// Enable or disable the cache step.
    pub fn cache(self, cache: bool) -> (r: Self)
        ensures
            r == (ConfigBuilder { cache: Some(cache), ..self }),
    {
        ConfigBuilder { cache: Some(cache), ..self }
    }

    /// Set the enabled features explicitly.
    pub fn enabled_features(self, features: String) -> (r: Self)
        ensures
            r == (ConfigBuilder { enabled_features: Some(features), ..self }),
    {
        ConfigBuilder { enabled_features: Some(features), ..self }
    }

    /// Build the configuration. The caller hands in what its environment
    /// offers: the toolchain path and home folder, the enabled features, and
    /// whether a build script is running (which enables the cache by
    /// default); an explicit builder choice wins over each. The manifest
    /// directory is required; the home folder must come from somewhere.
    pub fn build(
        self,
        env_cargo_path: Option<String>,
        env_cargo_home: Option<String>,
        env_features: Option<String>,
        in_build_script: bool,
    ) -> (r: Result<Config, ConfigBuildError>)
        ensures
            match r {
                Ok(c) => {
                    &&& self.manifest_dir == Some(c.metadata_config.manifest_dir)
                    &&& c.metadata_config.cargo_path == (match self.cargo_path {
                        Some(p) => p,
                        None => match env_cargo_path {
                            Some(p) => p,
                            None => c.metadata_config.cargo_path,
                        },
                    })
                    &&& (self.cargo_path is None && env_cargo_path is None
                        ==> c.metadata_config.cargo_path@ == "cargo"@)
                    &&& (match self.cargo_directives {
                        Some(d) => c.metadata_config.cargo_directives == d,
                        None => c.metadata_config.cargo_directives.0@ == seq![
                            crate::directive::CargoDirective::Default,
                        ],
                    })
                    &&& c.metadata_config.enabled_features == (match self.enabled_features {
                        Some(f) => Some(f),
                        None => env_features,
                    })
                    &&& Some(c.cargo_home_dir) == (match self.cargo_home_dir {
                        Some(d) => Some(d),
                        None => env_cargo_home,
                    })
                    &&& c.cache == (match self.cache {
                        Some(b) => b,
                        None => in_build_script,
                    })
                },
                Err(e) => {
                    &&& (e is UninitializedField <==> self.manifest_dir is None)
                    &&& (e is CargoHomeDir ==> self.cargo_home_dir is None && env_cargo_home
                        is None)
                    &&& (e is UninitializedField || e is CargoHomeDir)
                },
            },
    {
        let manifest_dir = match self.manifest_dir {
            Some(d) => d,
            None => {
                return Err(ConfigBuildError::UninitializedField);
            },
        };
        let cargo_home_dir = match self.cargo_home_dir {
            Some(d) => d,
            None => match env_cargo_home {
                Some(d) => d,
                None => {
                    return Err(ConfigBuildError::CargoHomeDir);
                },
            },
        };
        let cargo_path = match self.cargo_path {
            Some(p) => p,
            None => match env_cargo_path {
                Some(p) => p,
                None => String::from_str("cargo"),
            },
        };
        let cargo_directives = match self.cargo_directives {
            Some(d) => d,
            None => Default::default(),
        };
        let enabled_features = match self.enabled_features {
            Some(f) => Some(f),
            None => env_features,
        };
        let cache = match self.cache {
            Some(b) => b,
            None => in_build_script,
        };
        Ok(
            Config {
                metadata_config: MetadataConfig {
                    manifest_dir,
                    cargo_path,
                    cargo_directives,
                    enabled_features,
                },
                cargo_home_dir,
                cache,
            },
        )
    }
}

/// A path carried inside an error report.
pub struct CPath(pub String);

impl CPath {
    /// The path prefixed for display in a report.
    pub fn describe(&self) -> (r: String)
        ensures
            r@ == "Path: "@ + self.0@,
    {
        let mut out = String::new();
        out.append("Path: ");
        out.append(self.0.as_str());
        out
    }
}

/// An environment-variable name carried inside an error report.
pub struct CEnvVar(pub String);

impl CEnvVar {
    /// The variable name prefixed for display in a report.
    pub fn describe(&self) -> (r: String)
        ensures
            r@ == "Environment Variable: "@ + self.0@,
    {
        let mut out = String::new();
        out.append("Environment Variable: ");
        out.append(self.0.as_str());
        out
    }
}

} // verus!
