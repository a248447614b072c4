use phosphor::text::truncate;
use phosphor::theme::{gradient, parse_hex_color, Rgb};

#[test]
fn truncate_keeps_short_text() {
    assert_eq!(truncate("hello", 10), "hello");
    assert_eq!(truncate("hello", 5), "hello");
    assert_eq!(truncate("", 0), "");
}

#[test]
fn truncate_shortens_with_ellipsis() {
    assert_eq!(truncate("hello world", 8), "hello...");
    assert_eq!(truncate("abcdef", 5), "ab...");
    assert_eq!(truncate("abcdef", 3), "...");
    assert_eq!(truncate("abcdef", 2), "...");
}

#[test]
fn hex_colors_parse_exactly() {
    assert_eq!(parse_hex_color("#ffb000"), Some(Rgb { r: 255, g: 176, b: 0 }));
    assert_eq!(parse_hex_color("1a1000"), Some(Rgb { r: 26, g: 16, b: 0 }));
    assert_eq!(parse_hex_color("#FFCC00"), Some(Rgb { r: 255, g: 204, b: 0 }));
    assert_eq!(parse_hex_color("#66440f"), Some(Rgb { r: 102, g: 68, b: 15 }));
}

#[test]
fn bad_hex_colors_are_rejected() {
    assert_eq!(parse_hex_color(""), None);
    assert_eq!(parse_hex_color("#fff"), None);
    assert_eq!(parse_hex_color("#ffb0000"), None);
    assert_eq!(parse_hex_color("#ggb000"), None);
    assert_eq!(parse_hex_color("not a color"), None);
}

#[test]
fn gradient_hits_its_endpoints() {
    let dim = Rgb { r: 102, g: 68, b: 0 };
    let accent = Rgb { r: 255, g: 204, b: 0 };
    assert_eq!(gradient(dim, accent, 0), dim);
    assert_eq!(gradient(dim, accent, 1000), accent);
    // intensities outside the range clamp to the endpoints
    assert_eq!(gradient(dim, accent, -50), dim);
    assert_eq!(gradient(dim, accent, 5000), accent);
}

#[test]
fn gradient_interpolates_between() {
    let dim = Rgb { r: 100, g: 0, b: 200 };
    let accent = Rgb { r: 200, g: 100, b: 0 };
    let mid = gradient(dim, accent, 500);
    assert_eq!(mid, Rgb { r: 150, g: 50, b: 100 });
}
