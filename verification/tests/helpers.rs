use mdfrier::config::{Config, PaddingConfig, ProtocolType, Theme, UserConfig};
use mdfrier::fontpicker::find_first_match;
use mdfrier::lines::{extract_line_content, Line, LineKind, ListMarker};
use mdfrier::mapper::{BulletStyle, StyledMapper, Symbols};
use unicode_width::UnicodeWidthStr;
use mdfrier::markdown::detect_bare_urls;
use mdfrier::model::post_incr_source_id;
use mdfrier::modifier::Modifier;
use mdfrier::span::Span;
use mdfrier::terminal_font::{stdout_get_line, WtfError};

fn line(parts: &[&str]) -> Line {
    Line { spans: parts.iter().map(|p| Span::new((*p).to_owned(), Modifier::empty())).collect(), kind: LineKind::Paragraph }
}

#[test]
fn extract_line_content_finds_the_span_at_a_column() {
    let l = line(&["ab", "cde", "f"]);
    assert_eq!(extract_line_content(&l, 0), "ab");
    assert_eq!(extract_line_content(&l, 2), "cde");
    assert_eq!(extract_line_content(&l, 5), "f");
    assert_eq!(extract_line_content(&l, 3), "");
    assert_eq!(extract_line_content(&l, 9), "");
}

fn fonts() -> Vec<(String, String)> {
    vec![
        ("fira code".to_owned(), "Fira Code".to_owned()),
        ("hack".to_owned(), "Hack".to_owned()),
        ("iosevka".to_owned(), "Iosevka".to_owned()),
    ]
}

#[test]
fn font_picker_finds_first_match_and_neighbours() {
    let f = fonts();
    assert_eq!(find_first_match(&f, ""), (Some("Fira Code".to_owned()), None, Some("Hack".to_owned())));
    assert_eq!(find_first_match(&f, "ha"), (Some("Hack".to_owned()), Some("Fira Code".to_owned()), Some("Iosevka".to_owned())));
    assert_eq!(find_first_match(&f, "io"), (Some("Iosevka".to_owned()), Some("Hack".to_owned()), None));
    assert_eq!(find_first_match(&f, "zz"), (None, None, None));
}

#[test]
fn terminal_font_from_command_output() {
    let out = "theme = dark\r\nfont-family = \nfont-family = JetBrains Mono\nfont-family = Other\n".to_owned();
    assert_eq!(stdout_get_line("ghostty", out, "font-family = ").unwrap(), "JetBrains Mono");
    match stdout_get_line("kitty", "nothing here".to_owned(), "font_family: ") {
        Err(WtfError::CommandOutput(t, p)) => {
            assert_eq!(t, "kitty");
            assert_eq!(p, "font_family: ");
        },
        other => panic!("unexpected {:?}", other),
    }
}

#[test]
fn config_from_user_config_fills_defaults() {
    let uc = UserConfig {
        font_family: None,
        padding: None,
        max_image_height: Some(12),
        watch_debounce_milliseconds: None,
        enable_mouse_capture: None,
        debug_override_protocol_type: Some(ProtocolType::Kitty),
        theme: None,
    };
    let c = Config::from(uc);
    assert_eq!(c.padding, PaddingConfig::Centered(100));
    assert_eq!(c.max_image_height, 12);
    assert_eq!(c.watch_debounce_milliseconds, 100);
    assert!(!c.enable_mouse_capture);
    assert_eq!(c.debug_override_protocol_type, Some(ProtocolType::Kitty));
    assert!(c.theme.link_bg.is_none() && c.theme.blockquote_bar.is_none());
    assert!(Theme::default().prefix_color.is_none());
}

#[test]
fn successive_source_ids_count_up() {
    let mut id = None;
    for k in 0..5usize {
        assert_eq!(post_incr_source_id(&mut id), k);
        assert_eq!(id, Some(k));
    }
}

#[test]
fn bare_url_pieces_reform_the_text() {
    let spans = vec![Span::new("see https://a.io/x and http://b.org".to_owned(), Modifier::empty())];
    let out = detect_bare_urls(spans);
    let text: String = out
        .iter()
        .filter(|s| !s.modifiers.intersects(Modifier::LINK_URL_WRAPPER))
        .map(|s| s.content.as_str())
        .collect();
    assert_eq!(text, "see https://a.io/x and http://b.org");
}

#[test]
fn task_marker_span_is_marker_wide() {
    let sym = Symbols::of(&StyledMapper);
    let m = ListMarker::TaskChecked(BulletStyle::Dash);
    assert_eq!(m.width(&sym), 6);
    assert_eq!(m.text(&sym).width(), m.width(&sym));
}
