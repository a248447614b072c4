use phosphor::config::{
    default_accent, default_background, default_dim, default_fft_size, default_foreground,
    default_fps, default_max_commits, default_rows, AudioConfig, Config, GitConfig, ThemeConfig,
};
use phosphor::git::{count_statuses, first_line, path_display_name, GitTracker};

#[test]
fn status_counts_follow_the_bits() {
    // wt-modified, index-new, wt-new, wt-renamed + index-modified, clean
    let bits = vec![256u32, 1, 128, 2048 | 2, 0];
    let (modified, staged, untracked) = count_statuses(&bits);
    assert_eq!(modified, 2);
    assert_eq!(staged, 2);
    assert_eq!(untracked, 1);

    let none: Vec<u32> = Vec::new();
    assert_eq!(count_statuses(&none), (0, 0, 0));

    // one entry both deleted in the tree and deleted in the index
    let both = vec![512u32 | 4];
    assert_eq!(count_statuses(&both), (1, 1, 0));
}

#[test]
fn path_names_take_the_last_segment() {
    assert_eq!(path_display_name(&String::from("/home/u/project")), "project");
    assert_eq!(path_display_name(&String::from("plain")), "plain");
    assert_eq!(path_display_name(&String::from("a/b/c")), "c");
}

#[test]
fn commit_messages_cut_to_first_line() {
    assert_eq!(first_line(&String::from("subject\nbody\nmore")), "subject");
    assert_eq!(first_line(&String::from("only subject")), "only subject");
    assert_eq!(first_line(&String::from("")), "");
}

#[test]
fn unreadable_repositories_are_skipped() {
    let tracker = GitTracker::new(&vec![
        String::from("/nonexistent/path/that/is/not/a/repo"),
    ]);
    assert!(tracker.get_status().is_empty());
    assert!(tracker.get_recent_commits(5).is_empty());
}

#[test]
fn defaults_match_the_documented_values() {
    assert_eq!(default_background(), "#1a1000");
    assert_eq!(default_foreground(), "#ffb000");
    assert_eq!(default_accent(), "#ffcc00");
    assert_eq!(default_dim(), "#664400");
    assert_eq!(default_fft_size(), 2048);
    assert_eq!(default_fps(), 30);
    assert_eq!(default_max_commits(), 10);

    let rows = default_rows();
    assert_eq!(rows.len(), 2);
    assert_eq!(rows[0], vec!["spotify", "spectrum"]);
    assert_eq!(rows[1], vec!["git", "waveform"]);

    let theme = ThemeConfig::default();
    assert_eq!(theme.background, "#1a1000");
    let audio = AudioConfig::default();
    assert_eq!(audio.fft_size, 2048);
    assert_eq!(audio.fps, 30);
    assert!(audio.device.is_empty());
    let git = GitConfig::default();
    assert!(git.repos.is_empty());
    assert_eq!(git.max_commits, 10);

    let config = Config::default();
    assert_eq!(config.theme.background, "#1a1000");
    assert_eq!(config.audio.fft_size, 2048);
}
