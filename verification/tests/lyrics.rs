use phosphor::lyrics::{build_lyrics_search_url, build_lyrics_url, parse_timestamp_line, u64_to_decimal, SyncedLyrics};

#[test]
fn parses_centisecond_timestamps() {
    let (ts, text) = parse_timestamp_line("[01:23.45] Hello there").unwrap();
    assert_eq!(ts, (1 * 60 + 23) * 1000 + 450);
    assert_eq!(text, "Hello there");
}

#[test]
fn parses_millisecond_timestamps() {
    let (ts, text) = parse_timestamp_line("[02:05.678]  spaced  ").unwrap();
    assert_eq!(ts, (2 * 60 + 5) * 1000 + 678);
    assert_eq!(text, "spaced");
}

#[test]
fn odd_fraction_lengths_count_as_zero() {
    let (ts, _) = parse_timestamp_line("[01:02.3] x").unwrap();
    assert_eq!(ts, 62000);
    let (ts4, _) = parse_timestamp_line("[01:02.3456] x").unwrap();
    assert_eq!(ts4, 62000);
}

#[test]
fn rejects_malformed_lines() {
    assert!(parse_timestamp_line("no brackets here").is_none());
    assert!(parse_timestamp_line("[0123] text").is_none());
    assert!(parse_timestamp_line("[01:23] no dot").is_none());
    assert!(parse_timestamp_line("[01:23:45.67] extra colon").is_none());
    assert!(parse_timestamp_line("[aa:bb.cc] letters").is_none());
    assert!(parse_timestamp_line("[:.] empty fields").is_none());
    assert!(parse_timestamp_line("").is_none());
}

#[test]
fn empty_text_still_parses_at_line_level() {
    let (ts, text) = parse_timestamp_line("[00:10.00]").unwrap();
    assert_eq!(ts, 10000);
    assert_eq!(text, "");
}

#[test]
fn parse_collects_and_sorts_lines() {
    let lrc = "\
[00:20.00] second line
[00:10.00] first line

[00:30.00] third line
not a lyric line
[00:05.00]
";
    let lyrics = SyncedLyrics::parse(lrc).unwrap();
    // the empty-text line at 5 s is dropped
    assert_eq!(lyrics.lines.len(), 3);
    assert_eq!(lyrics.lines[0].timestamp_ms, 10000);
    assert_eq!(lyrics.lines[0].text, "first line");
    assert_eq!(lyrics.lines[1].timestamp_ms, 20000);
    assert_eq!(lyrics.lines[2].timestamp_ms, 30000);
}

#[test]
fn parse_returns_none_without_usable_lines() {
    assert!(SyncedLyrics::parse("").is_none());
    assert!(SyncedLyrics::parse("just words\nmore words").is_none());
    assert!(SyncedLyrics::parse("[00:01.00]\n[00:02.00]").is_none());
}

#[test]
fn current_line_tracks_playback_position() {
    let lrc = "[00:10.00] a\n[00:20.00] b\n[00:30.00] c";
    let lyrics = SyncedLyrics::parse(lrc).unwrap();
    assert_eq!(lyrics.current_line_index(0), None);
    assert_eq!(lyrics.current_line_index(9999), None);
    assert_eq!(lyrics.current_line_index(10000), Some(0));
    assert_eq!(lyrics.current_line_index(15000), Some(0));
    assert_eq!(lyrics.current_line_index(20000), Some(1));
    assert_eq!(lyrics.current_line_index(29999), Some(1));
    assert_eq!(lyrics.current_line_index(30000), Some(2));
    assert_eq!(lyrics.current_line_index(u64::MAX), Some(2));
}

#[test]
fn current_line_handles_duplicate_timestamps() {
    let lrc = "[00:10.00] a\n[00:10.00] b\n[00:20.00] c";
    let lyrics = SyncedLyrics::parse(lrc).unwrap();
    // the last line at or before the position
    assert_eq!(lyrics.current_line_index(10000), Some(1));
    assert_eq!(lyrics.current_line_index(19999), Some(1));
}

#[test]
fn decimal_rendering_is_exact() {
    assert_eq!(u64_to_decimal(0), "0");
    assert_eq!(u64_to_decimal(7), "7");
    assert_eq!(u64_to_decimal(240), "240");
    assert_eq!(u64_to_decimal(u64::MAX), "18446744073709551615");
}

#[test]
fn lyrics_urls_percent_encode_their_fields() {
    let url = build_lyrics_url("a b", "c&d", "e", 240);
    assert_eq!(
        url,
        "https://lrclib.net/api/get?track_name=a%20b&artist_name=c%26d&album_name=e&duration=240"
    );
    let search = build_lyrics_search_url("Song Title", "The/Artist");
    assert_eq!(
        search,
        "https://lrclib.net/api/search?track_name=Song%20Title&artist_name=The%2FArtist"
    );
}
