//! Command-line surface: the subcommands the binary accepts. The argument
//! parser itself lives with the binary; these are the plain shapes it
//! produces.

use vstd::prelude::*;

verus! {

/// Top-level invocation: a subcommand, or none for the dashboard itself.
#[derive(Debug, Clone)]
pub struct Cli {
    pub command: Option<Commands>,
}

/// The subcommands.
#[derive(Debug, Clone, PartialEq, Eq, Structural)]
pub enum Commands {
    /// Player controls.
    Spotify { command: SpotifyCommands },
    /// Repository tracking.
    Git { command: GitCommands },
    /// Audio device management.
    Audio { command: AudioCommands },
    /// Configuration management.
    Config { command: ConfigCommands },
}

/// Player control subcommands.
#[derive(Debug, Clone, PartialEq, Eq, Structural)]
pub enum SpotifyCommands {
    /// Show the currently playing track.
    Now,
    /// Resume playback.
    Play,
    /// Pause playback.
    Pause,
    /// Skip to the next track.
    Next,
    /// Go to the previous track.
    Prev,
    /// Set the volume, from 0 to 100.
    Vol { level: u8 },
}

/// Repository tracking subcommands.
#[derive(Debug, Clone, PartialEq, Eq, Structural)]
pub enum GitCommands {
    /// Show the status of every tracked repository.
    Status,
    /// Show recent commits across the tracked repositories.
    Log,
}

/// Configuration subcommands.
#[derive(Debug, Clone, PartialEq, Eq, Structural)]
pub enum ConfigCommands {
    /// Open the configuration file in the editor.
    Edit,
    /// Print the configuration file path.
    Path,
}

/// Audio device subcommands.
#[derive(Debug, Clone, PartialEq, Eq, Structural)]
pub enum AudioCommands {
    /// List the available audio input devices.
    Devices,
}

} // verus!
