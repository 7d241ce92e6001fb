//! The configuration of the program, as plain data: the sensors by name,
//! the fans with their formulas, and the length of a cycle.

use std::time::Duration;
use vstd::prelude::*;
use vstd::string::*;

verus! {

/// The duration of a number of whole seconds.
pub uninterp spec fn of_seconds(secs: u64) -> Duration;

/// `Duration::from_secs`: the duration of that many whole seconds, and of
/// no fraction of a second more.
#[verifier::external_body]
fn seconds(secs: u64) -> (duration: Duration)
    ensures
        duration == of_seconds(secs),
{
    Duration::from_secs(secs)
}

/// A span of time in thousandths of a second.
#[derive(Debug, PartialEq)]
pub struct Milliseconds(pub u64);

impl Default for Milliseconds {
    /// Five seconds.
    fn default() -> (span: Self)
        ensures
            span.0 == 5000,
    {
        Milliseconds(5000)
    }
}

/// What is wanted of a graphics card. Nothing wanted admits any card.
#[derive(Debug, PartialEq)]
pub struct ConfigNvidiaFilter {
    pub name: Option<String>,
    pub board_id: Option<u32>,
}

impl Default for ConfigNvidiaFilter {
    /// Nothing wanted.
    fn default() -> (filter: Self)
        ensures
            filter.name is None,
            filter.board_id is None,
    {
        ConfigNvidiaFilter { name: None, board_id: None }
    }
}

/// One sensor.
#[derive(Debug, PartialEq)]
pub enum ConfigSourceValue {
    /// A scalar file, with the 32-bit pattern of its scale where it has one
    /// of its own.
    File { path: String, factor: Option<u32> },
    /// A graphics card.
    Nvidia { filter: ConfigNvidiaFilter },
}

/// What a fan is driven through.
#[derive(Debug, PartialEq)]
pub enum ConfigFanTarget {
    /// A duty-cycle file.
    Pwm { path: String },
}

/// One fan: its formula and what it is driven through.
#[derive(Debug, PartialEq)]
pub struct ConfigFan {
    pub value: String,
    pub target: ConfigFanTarget,
}

/// Settings of the program as a whole.
#[derive(Debug, PartialEq)]
pub struct ConfigMain {
    /// The pause between two cycles.
    pub interval: Duration,
}

impl ConfigMain {
    /// The pause between two cycles where none is configured: two seconds.
    pub fn interval_default() -> (interval: Duration)
        ensures
            interval == of_seconds(2),
    {
        seconds(2)
    }

    /// The pause between two cycles, from the configured number of seconds.
    pub fn interval_of(secs: u64) -> (interval: Duration)
        ensures
            interval == of_seconds(secs),
    {
        seconds(secs)
    }

    /// The settings for a configured number of seconds, or for none.
    pub fn new(secs: Option<u64>) -> (main: Self)
        ensures
            main.interval == of_seconds(
                match secs {
                    Some(s) => s,
                    None => 2,
                },
            ),
    {
        ConfigMain {
            interval: match secs {
                Some(s) => Self::interval_of(s),
                None => Self::interval_default(),
            },
        }
    }
}

/// The configuration.
#[derive(Debug, PartialEq)]
pub struct Config {
    pub main: ConfigMain,
    /// The sensors, each under the name that formulas call it by.
    pub sources: Vec<(String, ConfigSourceValue)>,
    /// The fans, in the order in which they are served.
    pub fans: Vec<ConfigFan>,
}

/// Why the configuration could not be read.
#[derive(Debug)]
pub enum ConfigReadError {
    /// The file could not be read; the text is the operating system's message.
    Io(String),
    /// The file is not a configuration; the text says where and why.
    Toml(String),
}

/// Why the program cannot start with a configuration.
#[derive(Clone, Copy, Debug, PartialEq, Eq, Structural)]
pub enum ConfigurationError {
    /// No sensor is configured.
    NoSources,
    /// No fan is configured.
    NoFans,
}

impl Config {
    /// Whether the program can start with this configuration: it needs one
    /// sensor and one fan at least. Where both are missing, the sensors are
    /// named.
    pub fn check(&self) -> (result: Result<(), ConfigurationError>)
        ensures
            result == (if self.sources.len() == 0 {
                Err(ConfigurationError::NoSources)
            } else if self.fans.len() == 0 {
                Err(ConfigurationError::NoFans)
            } else {
                Ok(())
            }),
    {
        if self.sources.len() == 0 {
            Err(ConfigurationError::NoSources)
        } else if self.fans.len() == 0 {
            Err(ConfigurationError::NoFans)
        } else {
            Ok(())
        }
    }
}

} // verus!
