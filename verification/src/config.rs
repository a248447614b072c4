//! Configuration model: the settings the dashboard runs with, and their
//! defaults. Loading and saving the on-disk file is the binary's concern;
//! the values themselves are plain data.

use vstd::prelude::*;
use vstd::string::StringExecFns;

verus! {

/// All settings.
#[derive(Debug, Clone)]
pub struct Config {
    pub theme: ThemeConfig,
    pub layout: LayoutConfig,
    pub spotify: SpotifyConfig,
    pub audio: AudioConfig,
    pub git: GitConfig,
}

/// Theme colors, as hex color strings.
#[derive(Debug, Clone)]
pub struct ThemeConfig {
    pub background: String,
    pub foreground: String,
    pub accent: String,
    pub dim: String,
}

/// Panel layout: rows of panel names.
#[derive(Debug, Clone)]
pub struct LayoutConfig {
    pub rows: Vec<Vec<String>>,
}

/// Player client settings.
#[derive(Debug, Clone)]
pub struct SpotifyConfig {
    pub client_id: String,
}

/// Audio capture settings.
#[derive(Debug, Clone)]
pub struct AudioConfig {
    pub device: String,
    pub fft_size: usize,
    pub fps: u32,
}

/// Repository tracking settings.
#[derive(Debug, Clone)]
pub struct GitConfig {
    pub repos: Vec<String>,
    pub max_commits: usize,
}

/// Default background color.
pub fn default_background() -> (r: String)
    ensures
        r@ == "#1a1000"@,
{
    String::from_str("#1a1000")
}

/// Default foreground color.
pub fn default_foreground() -> (r: String)
    ensures
        r@ == "#ffb000"@,
{
    String::from_str("#ffb000")
}

/// Default accent color.
pub fn default_accent() -> (r: String)
    ensures
        r@ == "#ffcc00"@,
{
    String::from_str("#ffcc00")
}

/// Default dim color.
pub fn default_dim() -> (r: String)
    ensures
        r@ == "#664400"@,
{
    String::from_str("#664400")
}

/// Default layout: player beside the spectrum, repositories beside the
/// waveform.
pub fn default_rows() -> (r: Vec<Vec<String>>)
    ensures
        r@.len() == 2,
        r@[0]@.len() == 2,
        r@[0]@[0]@ == "spotify"@,
        r@[0]@[1]@ == "spectrum"@,
        r@[1]@.len() == 2,
        r@[1]@[0]@ == "git"@,
        r@[1]@[1]@ == "waveform"@,
{
    let mut row0: Vec<String> = Vec::new();
    row0.push(String::from_str("spotify"));
    row0.push(String::from_str("spectrum"));
    let mut row1: Vec<String> = Vec::new();
    row1.push(String::from_str("git"));
    row1.push(String::from_str("waveform"));
    let mut rows: Vec<Vec<String>> = Vec::new();
    rows.push(row0);
    rows.push(row1);
    rows
}

/// Default transform size.
pub fn default_fft_size() -> (r: usize)
    ensures
        r == 2048,
{
    2048
}

/// Default frame rate.
pub fn default_fps() -> (r: u32)
    ensures
        r == 30,
{
    30
}

/// Default length of the commit feed.
pub fn default_max_commits() -> (r: usize)
    ensures
        r == 10,
{
    10
}

impl Default for ThemeConfig {
    /// The amber scheme.
    fn default() -> (r: Self)
        ensures
            r.background@ == "#1a1000"@,
            r.foreground@ == "#ffb000"@,
            r.accent@ == "#ffcc00"@,
            r.dim@ == "#664400"@,
    {
        Self {
            background: default_background(),
            foreground: default_foreground(),
            accent: default_accent(),
            dim: default_dim(),
        }
    }
}

impl Default for LayoutConfig {
    /// The default panel rows.
    fn default() -> (r: Self)
        ensures
            r.rows@.len() == 2,
    {
        Self { rows: default_rows() }
    }
}

impl Default for SpotifyConfig {
    /// No client id configured.
    fn default() -> (r: Self)
        ensures
            r.client_id@.len() == 0,
    {
        Self { client_id: String::new() }
    }
}

impl Default for AudioConfig {
    /// Auto-detected device, 2048-sample transform, 30 frames per second.
    fn default() -> (r: Self)
        ensures
            r.device@.len() == 0,
            r.fft_size == 2048,
            r.fps == 30,
    {
        Self { device: String::new(), fft_size: default_fft_size(), fps: default_fps() }
    }
}

impl Default for GitConfig {
    /// No repositories tracked, ten commits in the feed.
    fn default() -> (r: Self)
        ensures
            r.repos@.len() == 0,
            r.max_commits == 10,
    {
        Self { repos: Vec::new(), max_commits: default_max_commits() }
    }
}

impl Default for Config {
    /// Every section at its default.
    fn default() -> (r: Self)
        ensures
            r.theme.background@ == "#1a1000"@,
            r.audio.fft_size == 2048,
            r.audio.fps == 30,
            r.git.repos@.len() == 0,
            r.git.max_commits == 10,
    {
        Self {
            theme: ThemeConfig::default(),
            layout: LayoutConfig::default(),
            spotify: SpotifyConfig::default(),
            audio: AudioConfig::default(),
            git: GitConfig::default(),
        }
    }
}

} // verus!
