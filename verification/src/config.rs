//! The monitor's configuration and the parser for its text form: four
//! keyword lines naming the repository path and architecture, the server
//! port, and the poll interval in seconds.

use vstd::prelude::*;
use crate::codec::{parse_dec, parse_kw_value, parse_u64_spec, split_line, take_line, kw_value_start};
use crate::text::{chars_to_string, copy_tail, str_chars};

verus! {

/// Where the package repository lives and which architecture it serves.
pub struct RepoConfig {
    pub path: String,
    pub architecture: String,
}

/// The network-facing surface's settings.
pub struct ServerConfig {
    pub port: u16,
}

/// How the upstream registry is polled.
pub struct AurConfig {
    /// Seconds between monitoring cycles.
    pub check_interval: u64,
}

/// Everything the monitor is configured with.
pub struct Config {
    pub repo: RepoConfig,
    pub server: ServerConfig,
    pub aur: AurConfig,
}

/// Mathematical mirror of `Config`.
pub struct ConfigView {
    pub path: Seq<char>,
    pub architecture: Seq<char>,
    pub port: u16,
    pub check_interval: u64,
}

impl View for Config {
    type V = ConfigView;

    open spec fn view(&self) -> ConfigView {
        ConfigView {
            path: self.repo.path@,
            architecture: self.repo.architecture@,
            port: self.server.port,
            check_interval: self.aur.check_interval,
        }
    }
}

/// Why a configuration text was rejected.
#[derive(Debug)]
pub enum ConfigError {
    Malformed,
}

/// A configuration text denotes a configuration exactly when it is the four
/// expected keyword lines, in order, with nothing after them, and the port
/// fits in sixteen bits.
pub open spec fn parse_config_spec(s: Seq<char>) -> Option<ConfigView> {
    match split_line(s) {
        Option::None => Option::None,
        Option::Some((l1, s1)) => match parse_kw_value(l1, "repo_path"@) {
            Option::None => Option::None,
            Option::Some(path) => match split_line(s1) {
                Option::None => Option::None,
                Option::Some((l2, s2)) => match parse_kw_value(l2, "architecture"@) {
                    Option::None => Option::None,
                    Option::Some(architecture) => match split_line(s2) {
                        Option::None => Option::None,
                        Option::Some((l3, s3)) => match parse_kw_value(l3, "port"@) {
                            Option::None => Option::None,
                            Option::Some(v3) => match parse_u64_spec(v3) {
                                Option::None => Option::None,
                                Option::Some(port) => if port <= u16::MAX as u64 {
                                    match split_line(s3) {
                                        Option::None => Option::None,
                                        Option::Some((l4, s4)) => match parse_kw_value(
                                            l4,
                                            "check_interval"@,
                                        ) {
                                            Option::None => Option::None,
                                            Option::Some(v4) => match parse_u64_spec(v4) {
                                                Option::None => Option::None,
                                                Option::Some(check_interval) => if s4.len() == 0 {
                                                    Option::Some(
                                                        ConfigView {
                                                            path,
                                                            architecture,
                                                            port: port as u16,
                                                            check_interval,
                                                        },
                                                    )
                                                } else {
                                                    Option::None
                                                },
                                            },
                                        },
                                    }
                                } else {
                                    Option::None
                                },
                            },
                        },
                    },
                },
            },
        },
    }
}

impl Config {
    /// Parses a configuration from its text; rejects anything the format
    /// does not denote.
    pub fn load(text: &str) -> (r: Result<Config, ConfigError>)
        ensures
            match r {
                Result::Ok(c) => parse_config_spec(text@) == Option::Some(c@),
                Result::Err(_) => parse_config_spec(text@) is None,
            },
    {
        let chars = str_chars(text);
        proof {
            assert(chars@.skip(0) =~= chars@);
        }
        let (l1, n1) = match take_line(&chars, 0) {
            Option::None => {
                return Result::Err(ConfigError::Malformed);
            },
            Option::Some(p) => p,
        };
        let start1 = match kw_value_start(&l1, "repo_path") {
            Option::None => {
                return Result::Err(ConfigError::Malformed);
            },
            Option::Some(s) => s,
        };
        let path = copy_tail(&l1, start1);
        let (l2, n2) = match take_line(&chars, n1) {
            Option::None => {
                return Result::Err(ConfigError::Malformed);
            },
            Option::Some(p) => p,
        };
        let start2 = match kw_value_start(&l2, "architecture") {
            Option::None => {
                return Result::Err(ConfigError::Malformed);
            },
            Option::Some(s) => s,
        };
        let architecture = copy_tail(&l2, start2);
        let (l3, n3) = match take_line(&chars, n2) {
            Option::None => {
                return Result::Err(ConfigError::Malformed);
            },
            Option::Some(p) => p,
        };
        let start3 = match kw_value_start(&l3, "port") {
            Option::None => {
                return Result::Err(ConfigError::Malformed);
            },
            Option::Some(s) => s,
        };
        let port64 = match parse_dec(&l3, start3) {
            Option::None => {
                return Result::Err(ConfigError::Malformed);
            },
            Option::Some(n) => n,
        };
        if port64 > 65535 {
            return Result::Err(ConfigError::Malformed);
        }
        let (l4, n4) = match take_line(&chars, n3) {
            Option::None => {
                return Result::Err(ConfigError::Malformed);
            },
            Option::Some(p) => p,
        };
        let start4 = match kw_value_start(&l4, "check_interval") {
            Option::None => {
                return Result::Err(ConfigError::Malformed);
            },
            Option::Some(s) => s,
        };
        let check_interval = match parse_dec(&l4, start4) {
            Option::None => {
                return Result::Err(ConfigError::Malformed);
            },
            Option::Some(n) => n,
        };
        if n4 != chars.len() {
            proof {
                assert(chars@.skip(n4 as int).len() > 0);
            }
            return Result::Err(ConfigError::Malformed);
        }
        proof {
            assert(chars@.skip(n4 as int).len() == 0);
        }
        Result::Ok(
            Config {
                repo: RepoConfig {
                    path: chars_to_string(&path),
                    architecture: chars_to_string(&architecture),
                },
                server: ServerConfig { port: port64 as u16 },
                aur: AurConfig { check_interval },
            },
        )
    }
}

} // verus!
