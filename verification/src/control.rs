//! UI control state: panel focus, key handling, player commands and playback
//! progress interpolation. The render loop performs the returned actions; the
//! decisions themselves are pure functions of the state and the event.

use vstd::prelude::*;

verus! {

/// The dashboard panels, in focus-cycling order.
#[derive(Clone, Copy, PartialEq, Eq, Structural, Debug)]
pub enum Panel {
    Spotify,
    Lyrics,
    Spectrum,
    Waveform,
    AlbumArt,
}

impl Panel {
    /// The panel after this one in the focus cycle.
    pub fn next(self) -> (r: Self)
        ensures
            r == (match self {
                Panel::Spotify => Panel::Lyrics,
                Panel::Lyrics => Panel::Spectrum,
                Panel::Spectrum => Panel::Waveform,
                Panel::Waveform => Panel::AlbumArt,
                Panel::AlbumArt => Panel::Spotify,
            }),
    {
        match self {
            Panel::Spotify => Panel::Lyrics,
            Panel::Lyrics => Panel::Spectrum,
            Panel::Spectrum => Panel::Waveform,
            Panel::Waveform => Panel::AlbumArt,
            Panel::AlbumArt => Panel::Spotify,
        }
    }
}

/// How album art is drawn.
#[derive(Clone, Copy, PartialEq, Eq, Structural, Debug)]
pub enum ArtStyle {
    Blocks,
    Braille,
}

/// A command for the background player task.
#[derive(Clone, Copy, PartialEq, Eq, Structural, Debug)]
pub enum SpotifyCommand {
    Refresh,
    TogglePlayback,
    Next,
    Prev,
    SetVolume(u8),
}

/// A key press, reduced to what the dashboard reacts to.
#[derive(Clone, Copy, PartialEq, Eq, Structural, Debug)]
pub enum Key {
    Char(char),
    Esc,
    Tab,
    Other,
}

/// The mutable UI state that key presses act on.
#[derive(Clone, Copy, PartialEq, Eq, Structural, Debug)]
pub struct UiState {
    pub focused_panel: Panel,
    pub show_help: bool,
    pub show_lyrics: bool,
    pub art_style: ArtStyle,
    pub volume: u8,
}

/// What one key press asks the loop to do.
#[derive(Clone, Copy, PartialEq, Eq, Structural, Debug)]
pub struct KeyOutcome {
    pub quit: bool,
    pub command: Option<SpotifyCommand>,
    pub refresh_git: bool,
}

/// The outcome that asks for nothing.
pub open spec fn no_outcome() -> KeyOutcome {
    KeyOutcome { quit: false, command: None, refresh_git: false }
}

/// The volume after a raise: five points up, capped at one hundred.
pub open spec fn volume_up(v: u8) -> u8 {
    if v + 5 >= 100 {
        100u8
    } else {
        (v + 5) as u8
    }
}

/// The volume after a lowering: five points down, stopping at zero.
pub open spec fn volume_down(v: u8) -> u8 {
    if v >= 5 {
        (v - 5) as u8
    } else {
        0u8
    }
}

/// The new state and outcome of one key press.
///
/// Quit keys close the help overlay when it is open and otherwise quit;
/// `?` toggles help; tab cycles focus; space, `n`, `p` and the volume keys
/// command the player; `r` forces a repository refresh; `a` flips the art
/// style; `l` flips the lyrics panel. Anything else changes nothing.
pub open spec fn spec_handle_key(s: UiState, key: Key) -> (UiState, KeyOutcome) {
    if key == Key::Esc || key == Key::Char('q') {
        if s.show_help {
            (UiState { show_help: false, ..s }, no_outcome())
        } else {
            (s, KeyOutcome { quit: true, ..no_outcome() })
        }
    } else if key == Key::Char('?') {
        (UiState { show_help: !s.show_help, ..s }, no_outcome())
    } else if key == Key::Tab {
        (
            UiState {
                focused_panel: match s.focused_panel {
                    Panel::Spotify => Panel::Lyrics,
                    Panel::Lyrics => Panel::Spectrum,
                    Panel::Spectrum => Panel::Waveform,
                    Panel::Waveform => Panel::AlbumArt,
                    Panel::AlbumArt => Panel::Spotify,
                },
                ..s
            },
            no_outcome(),
        )
    } else if key == Key::Char(' ') {
        (s, KeyOutcome { command: Some(SpotifyCommand::TogglePlayback), ..no_outcome() })
    } else if key == Key::Char('n') {
        (s, KeyOutcome { command: Some(SpotifyCommand::Next), ..no_outcome() })
    } else if key == Key::Char('p') {
        (s, KeyOutcome { command: Some(SpotifyCommand::Prev), ..no_outcome() })
    } else if key == Key::Char('+') || key == Key::Char('=') {
        (
            UiState { volume: volume_up(s.volume), ..s },
            KeyOutcome {
                command: Some(SpotifyCommand::SetVolume(volume_up(s.volume))),
                ..no_outcome()
            },
        )
    } else if key == Key::Char('-') {
        (
            UiState { volume: volume_down(s.volume), ..s },
            KeyOutcome {
                command: Some(SpotifyCommand::SetVolume(volume_down(s.volume))),
                ..no_outcome()
            },
        )
    } else if key == Key::Char('r') {
        (s, KeyOutcome { refresh_git: true, ..no_outcome() })
    } else if key == Key::Char('a') {
        (
            UiState {
                art_style: if s.art_style == ArtStyle::Blocks {
                    ArtStyle::Braille
                } else {
                    ArtStyle::Blocks
                },
                ..s
            },
            no_outcome(),
        )
    } else if key == Key::Char('l') {
        (UiState { show_lyrics: !s.show_lyrics, ..s }, no_outcome())
    } else {
        (s, no_outcome())
    }
}

/// Applies one key press to the UI state and says what the loop must do.
pub fn handle_key(state: &mut UiState, key: Key) -> (r: KeyOutcome)
    requires
        old(state).volume <= 100,
    ensures
        (*final(state), r) == spec_handle_key(*old(state), key),
        final(state).volume <= 100,
{
    match key {
        Key::Esc => {
            if state.show_help {
                state.show_help = false;
                KeyOutcome { quit: false, command: None, refresh_git: false }
            } else {
                KeyOutcome { quit: true, command: None, refresh_git: false }
            }
        },
        Key::Tab => {
            state.focused_panel = state.focused_panel.next();
            KeyOutcome { quit: false, command: None, refresh_git: false }
        },
        Key::Char(c) => {
            if c == 'q' {
                if state.show_help {
                    state.show_help = false;
                    KeyOutcome { quit: false, command: None, refresh_git: false }
                } else {
                    KeyOutcome { quit: true, command: None, refresh_git: false }
                }
            } else if c == '?' {
                state.show_help = !state.show_help;
                KeyOutcome { quit: false, command: None, refresh_git: false }
            } else if c == ' ' {
                KeyOutcome {
                    quit: false,
                    command: Some(SpotifyCommand::TogglePlayback),
                    refresh_git: false,
                }
            } else if c == 'n' {
                KeyOutcome { quit: false, command: Some(SpotifyCommand::Next), refresh_git: false }
            } else if c == 'p' {
                KeyOutcome { quit: false, command: Some(SpotifyCommand::Prev), refresh_git: false }
            } else if c == '+' || c == '=' {
                let v = if state.volume + 5 >= 100 {
                    100
                } else {
                    state.volume + 5
                };
                state.volume = v;
                KeyOutcome {
                    quit: false,
                    command: Some(SpotifyCommand::SetVolume(v)),
                    refresh_git: false,
                }
            } else if c == '-' {
                let v = if state.volume >= 5 {
                    state.volume - 5
                } else {
                    0
                };
                state.volume = v;
                KeyOutcome {
                    quit: false,
                    command: Some(SpotifyCommand::SetVolume(v)),
                    refresh_git: false,
                }
            } else if c == 'r' {
                KeyOutcome { quit: false, command: None, refresh_git: true }
            } else if c == 'a' {
                state.art_style = if state.art_style == ArtStyle::Blocks {
                    ArtStyle::Braille
                } else {
                    ArtStyle::Blocks
                };
                KeyOutcome { quit: false, command: None, refresh_git: false }
            } else if c == 'l' {
                state.show_lyrics = !state.show_lyrics;
                KeyOutcome { quit: false, command: None, refresh_git: false }
            } else {
                KeyOutcome { quit: false, command: None, refresh_git: false }
            }
        },
        Key::Other => KeyOutcome { quit: false, command: None, refresh_git: false },
    }
}

/// The playback position to display: the last one reported, advanced by the
/// time elapsed since that report while the track plays. Saturates at the
/// largest representable position.
pub fn current_progress_ms(last_known_ms: u64, was_playing: bool, elapsed_ms: u64) -> (r: u64)
    ensures
        !was_playing ==> r == last_known_ms,
        was_playing ==> r as int == (if last_known_ms + elapsed_ms <= u64::MAX {
            last_known_ms + elapsed_ms
        } else {
            u64::MAX as int
        }),
{
    if !was_playing {
        last_known_ms
    } else {
        match last_known_ms.checked_add(elapsed_ms) {
            Some(x) => x,
            None => u64::MAX,
        }
    }
}

/// How many cells of a `width`-cell progress bar are filled at `progress`
/// out of `duration`: the percentage, scaled to the bar and capped at its
/// width.
pub fn progress_cells(progress_ms: u64, duration_ms: u64, width: usize) -> (r: usize)
    requires
        duration_ms > 0,
        width <= 10000,
    ensures
        r as int == (if (progress_ms as int) * 100 / (duration_ms as int) * (width as int) / 100
            <= width {
            (progress_ms as int) * 100 / (duration_ms as int) * (width as int) / 100
        } else {
            width as int
        }),
{
    proof {
        assert((progress_ms as int) * 100 >= 0 && (progress_ms as int) * 100 <= 0xffffffffffffffff
            * 100) by (nonlinear_arith)
            requires
                0 <= progress_ms as int <= 0xffffffffffffffff,
        ;
    }
    let pct: u128 = (progress_ms as u128) * 100 / (duration_ms as u128);
    proof {
        vstd::arithmetic::div_mod::lemma_div_nonincreasing(
            (progress_ms as int) * 100,
            duration_ms as int,
        );
        assert(0 <= (pct as int) * (width as int) && (pct as int) * (width as int) <= (
        0xffffffffffffffff * 100) * 10000) by (nonlinear_arith)
            requires
                0 <= pct as int <= 0xffffffffffffffff * 100,
                0 <= width as int <= 10000,
        ;
    }
    let cells: u128 = pct * (width as u128) / 100;
    proof {
        assert(pct as int == (progress_ms as int) * 100 / (duration_ms as int));
        assert(cells as int == pct as int * (width as int) / 100);
    }
    if cells > (width as u128) {
        width
    } else {
        cells as usize
    }
}

/// Minutes and whole seconds of a duration in milliseconds.
pub fn mm_ss(ms: u64) -> (r: (u64, u64))
    ensures
        r.0 == ms / 60000,
        r.1 == (ms / 1000) % 60,
{
    (ms / 60000, (ms / 1000) % 60)
}

} // verus!
