//! The configuration that every component is handed: where the manager
//! keeps its files, the mirror it downloads from, and the machine it runs on.
use vstd::prelude::*;

verus! {

/// Default mirror of the release archives.
pub const DEFAULT_MIRROR: &'static str = "https://nodejs.org/dist";

/// Default time to live of the catalog cache, in minutes.
pub const CATALOG_CACHE_MINUTES: u64 = 15;

/// Default time to live of the installed-version cache, in minutes.
pub const INSTALLED_CACHE_MINUTES: u64 = 5;

/// The path separator of an operating system, as `std::env::consts::OS`
/// names it.
pub open spec fn separator(os: Seq<char>) -> char {
    if os == "windows"@ {
        '\\'
    } else {
        '/'
    }
}

/// `segment` appended to `base` as a path component: a separator goes
/// between them unless `base` is empty or already ends with one.
pub open spec fn path_join(base: Seq<char>, segment: Seq<char>, sep: char) -> Seq<char> {
    if base.len() == 0 || base.last() == sep {
        base + segment
    } else {
        base + seq![sep] + segment
    }
}

/// Joins a path component onto a base path with the OS's separator.
pub fn join_path(base: &str, segment: &str, os: &str) -> (r: String)
    ensures
        r@ == path_join(base@, segment@, separator(os@)),
{
    proof {
        reveal_strlit("windows");
        reveal_strlit("\\");
        reveal_strlit("/");
    }
    let windows = crate::text::str_eq(os, "windows");
    let sep_str = if windows {
        "\\"
    } else {
        "/"
    };
    let sep = if windows {
        '\\'
    } else {
        '/'
    };
    let mut r = String::from_str(base);
    let n = base.unicode_len();
    if n > 0 && base.get_char(n - 1) != sep {
        r.append(sep_str);
    }
    r.append(segment);
    proof {
        assert(sep_str@ =~= seq![separator(os@)]);
    }
    r
}

#[derive(Debug, Clone)]
pub struct Config {
    pub nvm_dir: String,
    pub node_mirror: String,
    pub arch: String,
    /// The operating system, as `std::env::consts::OS` names it.
    pub os: String,
    pub cache_duration_minutes: u64,
    pub installed_cache_duration_minutes: u64,
}

/// The architecture label of the release archives for a Rust target
/// architecture name.
pub open spec fn arch_label(target_arch: Seq<char>) -> Seq<char> {
    if target_arch == "x86_64"@ {
        "x64"@
    } else if target_arch == "aarch64"@ {
        "arm64"@
    } else if target_arch == "x86"@ {
        "x86"@
    } else {
        "unknown"@
    }
}

/// Why no configuration could be made.
#[derive(Debug, Clone, Copy, PartialEq, Eq, Structural)]
pub enum ConfigError {
    /// Neither the home variable nor a home directory is known.
    NoHomeDirectory,
}

impl Config {
    /// The configuration for the environment that the caller read: the
    /// manager's directory is the home variable when set, else `.nvm` under
    /// the user's home directory; the mirror is the mirror variable when set,
    /// else the default one.
    pub fn from_environment(
        nvm_home: Option<String>,
        home_dir: Option<String>,
        mirror: Option<String>,
        target_arch: &str,
        os: String,
    ) -> (r: Result<Config, ConfigError>)
        ensures
            match (nvm_home, home_dir) {
                (Some(h), _) => r is Ok && r->Ok_0.nvm_dir@ == h@,
                (None, Some(d)) => r is Ok && r->Ok_0.nvm_dir@ == path_join(d@, ".nvm"@, separator(os@)),
                (None, None) => r == Err::<Config, ConfigError>(ConfigError::NoHomeDirectory),
            },
            r is Ok ==> {
                let c = r->Ok_0;
                &&& c.node_mirror@ == match mirror {
                    Some(m) => m@,
                    None => DEFAULT_MIRROR@,
                }
                &&& c.arch@ == arch_label(target_arch@)
                &&& c.os == os
                &&& c.cache_duration_minutes == CATALOG_CACHE_MINUTES
                &&& c.installed_cache_duration_minutes == INSTALLED_CACHE_MINUTES
            },
    {
        let nvm_dir = match nvm_home {
            Some(h) => h,
            None => match home_dir {
                Some(d) => {
                    proof {
                        reveal_strlit(".nvm");
                    }
                    join_path(d.as_str(), ".nvm", os.as_str())
                },
                None => {
                    return Err(ConfigError::NoHomeDirectory);
                },
            },
        };
        let node_mirror = match mirror {
            Some(m) => m,
            None => String::from_str(DEFAULT_MIRROR),
        };
        Ok(
            Config {
                nvm_dir,
                node_mirror,
                arch: Self::detect_arch(target_arch),
                os,
                cache_duration_minutes: CATALOG_CACHE_MINUTES,
                installed_cache_duration_minutes: INSTALLED_CACHE_MINUTES,
            },
        )
    }

    /// The archive architecture label for a Rust target architecture.
    pub fn detect_arch(target_arch: &str) -> (r: String)
        ensures
            r@ == arch_label(target_arch@),
    {
        proof {
            reveal_strlit("x86_64");
            reveal_strlit("aarch64");
            reveal_strlit("x86");
            reveal_strlit("x64");
            reveal_strlit("arm64");
            reveal_strlit("unknown");
        }
        if crate::text::str_eq(target_arch, "x86_64") {
            String::from_str("x64")
        } else if crate::text::str_eq(target_arch, "aarch64") {
            String::from_str("arm64")
        } else if crate::text::str_eq(target_arch, "x86") {
            String::from_str("x86")
        } else {
            String::from_str("unknown")
        }
    }

    /// Where the versions are installed, one directory each.
    pub fn versions_dir(&self) -> (r: String)
        ensures
            r@ == path_join(self.nvm_dir@, "versions"@, separator(self.os@)),
    {
        proof {
            reveal_strlit("versions");
        }
        join_path(self.nvm_dir.as_str(), "versions", self.os.as_str())
    }

    /// Where the manager's own executable lives.
    pub fn nvm_bin_dir(&self) -> (r: String)
        ensures
            r@ == path_join(self.nvm_dir@, "bin"@, separator(self.os@)),
    {
        proof {
            reveal_strlit("bin");
        }
        join_path(self.nvm_dir.as_str(), "bin", self.os.as_str())
    }

    /// Where the active version's executables are reached: `current/bin`.
    pub fn nvm_node_dir(&self) -> (r: String)
        ensures
            r@ == path_join(path_join(self.nvm_dir@, "current"@, separator(self.os@)), "bin"@, separator(self.os@)),
    {
        proof {
            reveal_strlit("current");
            reveal_strlit("bin");
        }
        let c = join_path(self.nvm_dir.as_str(), "current", self.os.as_str());
        join_path(c.as_str(), "bin", self.os.as_str())
    }

    /// The location of the active-version pointer.
    pub fn current_dir(&self) -> (r: String)
        ensures
            r@ == path_join(path_join(self.nvm_dir@, "current"@, separator(self.os@)), "bin"@, separator(self.os@)),
    {
        self.nvm_node_dir()
    }

    pub fn alias_dir(&self) -> (r: String)
        ensures
            r@ == path_join(self.nvm_dir@, "alias"@, separator(self.os@)),
    {
        proof {
            reveal_strlit("alias");
        }
        join_path(self.nvm_dir.as_str(), "alias", self.os.as_str())
    }

    /// The file of alias definitions.
    pub fn aliases_file(&self) -> (r: String)
        ensures
            r@ == path_join(self.nvm_dir@, "aliases.json"@, separator(self.os@)),
    {
        proof {
            reveal_strlit("aliases.json");
        }
        join_path(self.nvm_dir.as_str(), "aliases.json", self.os.as_str())
    }

    /// The catalog cache file.
    pub fn cache_file(&self) -> (r: String)
        ensures
            r@ == path_join(self.nvm_dir@, ".version_cache.json"@, separator(self.os@)),
    {
        proof {
            reveal_strlit(".version_cache.json");
        }
        join_path(self.nvm_dir.as_str(), ".version_cache.json", self.os.as_str())
    }

    /// The installed-version cache file.
    pub fn installed_cache_file(&self) -> (r: String)
        ensures
            r@ == path_join(self.nvm_dir@, ".installed_cache.json"@, separator(self.os@)),
    {
        proof {
            reveal_strlit(".installed_cache.json");
        }
        join_path(self.nvm_dir.as_str(), ".installed_cache.json", self.os.as_str())
    }

    pub fn active_version_file(&self) -> (r: String)
        ensures
            r@ == path_join(self.nvm_dir@, ".active_version"@, separator(self.os@)),
    {
        proof {
            reveal_strlit(".active_version");
        }
        join_path(self.nvm_dir.as_str(), ".active_version", self.os.as_str())
    }

    /// Where downloads are kept while they are extracted.
    pub fn temp_dir(&self) -> (r: String)
        ensures
            r@ == path_join(self.nvm_dir@, "temp"@, separator(self.os@)),
    {
        proof {
            reveal_strlit("temp");
        }
        join_path(self.nvm_dir.as_str(), "temp", self.os.as_str())
    }

    /// The directory of one installed version.
    pub fn version_dir(&self, version: &str) -> (r: String)
        ensures
            r@ == path_join(path_join(self.nvm_dir@, "versions"@, separator(self.os@)), version@, separator(self.os@)),
    {
        let v = self.versions_dir();
        join_path(v.as_str(), version, self.os.as_str())
    }
}

} // verus!
