use phosphor::control::{
    current_progress_ms, handle_key, mm_ss, progress_cells, ArtStyle, Key, Panel, SpotifyCommand,
    UiState,
};

fn base_state() -> UiState {
    UiState {
        focused_panel: Panel::Spotify,
        show_help: false,
        show_lyrics: true,
        art_style: ArtStyle::Braille,
        volume: 50,
    }
}

#[test]
fn panel_focus_cycles() {
    assert_eq!(Panel::Spotify.next(), Panel::Lyrics);
    assert_eq!(Panel::Lyrics.next(), Panel::Spectrum);
    assert_eq!(Panel::Spectrum.next(), Panel::Waveform);
    assert_eq!(Panel::Waveform.next(), Panel::AlbumArt);
    assert_eq!(Panel::AlbumArt.next(), Panel::Spotify);
}

#[test]
fn quit_keys_close_help_first() {
    let mut s = base_state();
    s.show_help = true;
    let out = handle_key(&mut s, Key::Char('q'));
    assert!(!out.quit);
    assert!(!s.show_help);
    let out2 = handle_key(&mut s, Key::Char('q'));
    assert!(out2.quit);

    let mut e = base_state();
    e.show_help = true;
    let out3 = handle_key(&mut e, Key::Esc);
    assert!(!out3.quit && !e.show_help);
    assert!(handle_key(&mut e, Key::Esc).quit);
}

#[test]
fn toggles_and_focus() {
    let mut s = base_state();
    handle_key(&mut s, Key::Char('?'));
    assert!(s.show_help);
    handle_key(&mut s, Key::Tab);
    assert_eq!(s.focused_panel, Panel::Lyrics);
    handle_key(&mut s, Key::Char('a'));
    assert_eq!(s.art_style, ArtStyle::Blocks);
    handle_key(&mut s, Key::Char('a'));
    assert_eq!(s.art_style, ArtStyle::Braille);
    handle_key(&mut s, Key::Char('l'));
    assert!(!s.show_lyrics);
}

#[test]
fn player_commands() {
    let mut s = base_state();
    assert_eq!(handle_key(&mut s, Key::Char(' ')).command, Some(SpotifyCommand::TogglePlayback));
    assert_eq!(handle_key(&mut s, Key::Char('n')).command, Some(SpotifyCommand::Next));
    assert_eq!(handle_key(&mut s, Key::Char('p')).command, Some(SpotifyCommand::Prev));
    assert!(handle_key(&mut s, Key::Char('r')).refresh_git);
    let out = handle_key(&mut s, Key::Char('x'));
    assert!(!out.quit && out.command.is_none() && !out.refresh_git);
    assert_eq!(s, base_state());
}

#[test]
fn volume_steps_and_clamps() {
    let mut s = base_state();
    s.volume = 97;
    let up = handle_key(&mut s, Key::Char('+'));
    assert_eq!(s.volume, 100);
    assert_eq!(up.command, Some(SpotifyCommand::SetVolume(100)));
    handle_key(&mut s, Key::Char('+'));
    assert_eq!(s.volume, 100);

    s.volume = 3;
    let down = handle_key(&mut s, Key::Char('-'));
    assert_eq!(s.volume, 0);
    assert_eq!(down.command, Some(SpotifyCommand::SetVolume(0)));
    handle_key(&mut s, Key::Char('-'));
    assert_eq!(s.volume, 0);

    s.volume = 50;
    handle_key(&mut s, Key::Char('='));
    assert_eq!(s.volume, 55);
}

#[test]
fn progress_interpolation() {
    assert_eq!(current_progress_ms(5000, false, 1234), 5000);
    assert_eq!(current_progress_ms(5000, true, 1234), 6234);
    assert_eq!(current_progress_ms(u64::MAX - 10, true, 100), u64::MAX);
}

#[test]
fn progress_bar_fill() {
    assert_eq!(progress_cells(0, 200000, 30), 0);
    assert_eq!(progress_cells(50000, 200000, 30), 7);
    assert_eq!(progress_cells(100000, 200000, 30), 15);
    assert_eq!(progress_cells(200000, 200000, 30), 30);
    // past the end of the track the bar stays full
    assert_eq!(progress_cells(400000, 200000, 30), 30);
}

#[test]
fn minutes_and_seconds() {
    assert_eq!(mm_ss(0), (0, 0));
    assert_eq!(mm_ss(83450), (1, 23));
    assert_eq!(mm_ss(59999), (0, 59));
    assert_eq!(mm_ss(60000), (1, 0));
}
