//! The gateway's configuration: a plain value, made once and read from then
//! on.

use vstd::prelude::*;

verus! {

/// The port that the gateway listens on unless told otherwise.
pub const DEFAULT_PORT: u32 = 8000;

/// The number of workers unless told otherwise.
pub const DEFAULT_WORKERS: u32 = 50;

/// The highest port there is.
pub const MAX_PORT: u32 = 65535;

/// What the gateway is configured with. Only `port` and `num_processes` bear
/// on what the gateway does; the other fields are kept so that those who
/// configure it need not change when they come into use.
#[derive(Debug)]
pub struct Config {
    /// The port to listen on.
    pub port: u32,
    /// The number of workers.
    pub num_processes: u32,
    /// Carried, and read by nothing here.
    pub cache: bool,
    /// Carried, and read by nothing here.
    pub cache_dir: String,
    /// Carried, and read by nothing here.
    pub intercept_log: bool,
    /// Carried, and read by nothing here.
    pub disable_jump: bool,
    /// Carried, and read by nothing here.
    pub confirm_jump: bool,
    /// Carried, and read by nothing here.
    pub hide_chinease: bool,
}

/// What is wrong with a configuration.
#[derive(Clone, Copy, Debug, PartialEq, Eq, Structural)]
pub enum ConfigError {
    /// No worker was asked for.
    NoWorkers,
    /// The port is higher than any port.
    PortOutOfRange,
}

impl Config {
    /// Whether the gateway can run with this configuration: at least one
    /// worker, and a port that exists.
    pub open spec fn valid(&self) -> bool {
        self.num_processes >= 1 && self.port <= MAX_PORT
    }

    /// What `check` finds.
    pub open spec fn fault(&self) -> Result<(), ConfigError> {
        if self.num_processes == 0 {
            Err(ConfigError::NoWorkers)
        } else if self.port > MAX_PORT {
            Err(ConfigError::PortOutOfRange)
        } else {
            Ok(())
        }
    }

    /// Accepts a valid configuration and says what is wrong with another; a
    /// missing worker is named before a port out of range.
    pub fn check(&self) -> (found: Result<(), ConfigError>)
        ensures
            found == self.fault(),
            found is Ok <==> self.valid(),
    {
        if self.num_processes == 0 {
            Err(ConfigError::NoWorkers)
        } else if self.port > MAX_PORT {
            Err(ConfigError::PortOutOfRange)
        } else {
            Ok(())
        }
    }
}

impl Default for Config {
    /// The default port and number of workers, a cache directory named
    /// `cache`, and every switch off.
    fn default() -> (config: Config)
        ensures
            config.port == DEFAULT_PORT,
            config.num_processes == DEFAULT_WORKERS,
            !config.cache,
            config.cache_dir@ == "cache"@,
            !config.intercept_log,
            !config.disable_jump,
            !config.confirm_jump,
            !config.hide_chinease,
            config.valid(),
    {
        Config {
            port: DEFAULT_PORT,
            num_processes: DEFAULT_WORKERS,
            cache: false,
            cache_dir: "cache".to_owned(),
            intercept_log: false,
            disable_jump: false,
            confirm_jump: false,
            hide_chinease: false,
        }
    }
}

} // verus!
