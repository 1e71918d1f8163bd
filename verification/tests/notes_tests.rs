use baras::notes::{NotesConfig, NotesData, NotesDrawItem, NotesLine, NotesOverlay, OverlayData, TextSize};

fn data(text: &str, boss: &str) -> NotesData {
    NotesData { text: text.to_string(), boss_name: boss.to_string() }
}

fn texts(line: &NotesLine) -> Vec<(String, bool, bool)> {
    line.spans.iter().map(|s| (s.text.clone(), s.bold, s.italic)).collect()
}

fn overlay_with(text: &str) -> NotesOverlay {
    let mut o = NotesOverlay::new(NotesConfig::default(), 180);
    o.set_data(data(text, "Boss"));
    o
}

#[test]
fn default_config() {
    let c = NotesConfig::default();
    assert_eq!(c.font_size, 14);
    assert_eq!(c.font_color, [255, 255, 255, 255]);
    assert!(!c.dynamic_background);
}

#[test]
fn new_overlay_is_empty() {
    let o = NotesOverlay::new(NotesConfig::default(), 200);
    assert!(o.lines().is_empty());
    assert_eq!(o.data().text, "");
    assert_eq!(o.background_alpha(), 200);
}

#[test]
fn headers_dividers_and_blank_lines() {
    let o = overlay_with("## Phase 1 \n\n---\n***\n___");
    let lines = o.lines();
    assert_eq!(lines.len(), 5);
    assert!(lines[0].is_header);
    assert_eq!(texts(&lines[0]), vec![("Phase 1".to_string(), true, false)]);
    assert!(lines[1].spans.is_empty() && !lines[1].is_divider);
    assert!(lines[2].is_divider && lines[3].is_divider && lines[4].is_divider);
}

#[test]
fn header_drops_every_leading_hash() {
    let o = overlay_with("#### Deep");
    assert_eq!(texts(&o.lines()[0]), vec![("Deep".to_string(), true, false)]);
}

#[test]
fn numbered_items() {
    let o = overlay_with("12. Tank swap");
    let line = &o.lines()[0];
    assert_eq!(line.indent, 1);
    assert_eq!(
        texts(line),
        vec![("  12. ".to_string(), false, false), ("Tank swap".to_string(), false, false)]
    );
}

#[test]
fn not_numbered_without_space_or_digits() {
    let o = overlay_with("1.5 seconds\na. b");
    assert_eq!(texts(&o.lines()[0]), vec![("1.5 seconds".to_string(), false, false)]);
    assert_eq!(texts(&o.lines()[1]), vec![("a. b".to_string(), false, false)]);
    assert_eq!(o.lines()[0].indent, 0);
}

#[test]
fn bullets() {
    let o = overlay_with("- stack\n* spread");
    for line in o.lines() {
        assert_eq!(line.indent, 1);
        assert_eq!(line.spans[0].text, "  \u{2022} ");
    }
    assert_eq!(o.lines()[0].spans[1].text, "stack");
    assert_eq!(o.lines()[1].spans[1].text, "spread");
}

#[test]
fn nested_bullets_keep_their_indent() {
    let o = overlay_with("- Boss\n  - Adds\n  * Kill  ");
    let lines = o.lines();
    assert_eq!(lines.len(), 3);
    assert_eq!(texts(&lines[0]), vec![("  \u{2022} ".to_string(), false, false), ("Boss".to_string(), false, false)]);
    assert_eq!(lines[0].indent, 1);
    assert_eq!(texts(&lines[1]), vec![("    \u{2022} ".to_string(), false, false), ("Adds".to_string(), false, false)]);
    assert_eq!(lines[1].indent, 2);
    assert_eq!(texts(&lines[2])[1].0, "Kill");
    assert_eq!(lines[2].indent, 2);
}

#[test]
fn leading_spaces_are_trimmed_before_classifying() {
    let o = overlay_with("   - nested");
    let line = &o.lines()[0];
    assert_eq!(line.indent, 1);
    assert_eq!(line.spans[1].text, "nested");
}

#[test]
fn inline_bold_and_italic() {
    let o = overlay_with("use **defensive** now *then* run");
    assert_eq!(
        texts(&o.lines()[0]),
        vec![
            ("use ".to_string(), false, false),
            ("defensive".to_string(), true, false),
            (" now ".to_string(), false, false),
            ("then".to_string(), false, true),
            (" run".to_string(), false, false),
        ]
    );
}

#[test]
fn only_markers_give_one_empty_span() {
    let o = NotesOverlay::new(NotesConfig::default(), 0);
    let spans = o.parse_inline_spans(&['*', '*', '*', '*']);
    assert_eq!(spans.len(), 1);
    assert_eq!(spans[0].text, "");
    assert!(!spans[0].bold && !spans[0].italic);
}

#[test]
fn parse_numbered_list_direct() {
    let o = NotesOverlay::new(NotesConfig::default(), 0);
    let text: Vec<char> = "3.  go left ".chars().collect();
    let (num, content) = o.parse_numbered_list(&text).unwrap();
    assert_eq!(num.iter().collect::<String>(), "3");
    assert_eq!(content.iter().collect::<String>(), "go left");
    let bad: Vec<char> = ".5 x".chars().collect();
    assert!(o.parse_numbered_list(&bad).is_none());
}

#[test]
fn crlf_line_endings() {
    let o = overlay_with("a\r\nb\r\n");
    assert_eq!(o.lines().len(), 2);
    assert_eq!(o.lines()[0].spans[0].text, "a");
    assert_eq!(o.lines()[1].spans[0].text, "b");
}

#[test]
fn clear_forgets_notes() {
    let mut o = overlay_with("x\ny");
    o.clear();
    assert!(o.lines().is_empty());
    assert_eq!(o.data().text, "");
    assert_eq!(o.data().boss_name, "");
}

#[test]
fn update_data_reports_changes() {
    let mut o = NotesOverlay::new(NotesConfig::default(), 0);
    assert!(!o.update_data(OverlayData::Notes(data("", ""))));
    assert!(o.update_data(OverlayData::Notes(data("a", "Boss"))));
    assert_eq!(o.lines().len(), 1);
    assert!(!o.update_data(OverlayData::Notes(data("a", "Boss"))));
    assert!(o.update_data(OverlayData::Notes(data("a", "Other"))));
    assert_eq!(o.data().boss_name, "Other");
    assert!(!o.update_data(OverlayData::Metrics));
    assert!(!o.update_data(OverlayData::Raid));
    assert_eq!(o.data().text, "a");
}

#[test]
fn config_updates() {
    let mut o = NotesOverlay::new(NotesConfig::default(), 0);
    let mut c = NotesConfig::default();
    c.font_size = 20;
    o.update_config(c, 99, true);
    assert_eq!(o.config().font_size, 20);
    assert_eq!(o.background_alpha(), 99);
    o.set_background_alpha(5);
    assert_eq!(o.background_alpha(), 5);
}

#[test]
fn blank_notes_are_saved_as_none() {
    assert_eq!(baras::notes::notes_to_save(" \n\t ".to_string()), None);
    assert_eq!(baras::notes::notes_to_save(String::new()), None);
    assert_eq!(baras::notes::notes_to_save(" x ".to_string()), Some(" x ".to_string()));
}

fn describe(items: &[NotesDrawItem]) -> Vec<String> {
    items
        .iter()
        .map(|d| match d {
            NotesDrawItem::Glowed { text, size, color } => format!("glow {text} {size:?} {color:?}"),
            NotesDrawItem::Gap => "gap".to_string(),
            NotesDrawItem::Line { spans, size, color } => {
                let parts: Vec<String> =
                    spans.iter().map(|s| format!("{}:{}{}", s.text, s.bold as u8, s.italic as u8)).collect();
                format!("line [{}] {size:?} {color:?}", parts.join(","))
            }
        })
        .collect()
}

#[test]
fn render_placeholder_without_notes() {
    let o = NotesOverlay::new(NotesConfig::default(), 180);
    assert_eq!(
        describe(&o.render()),
        vec!["glow No notes Normal [128, 128, 128, 128]".to_string()]
    );
}

#[test]
fn render_boss_name_then_lines() {
    let mut o = NotesOverlay::new(NotesConfig::default(), 180);
    o.set_data(data("## Phase 1\nStack **left**\n\n---", "Apex"));
    let items = o.render();
    assert_eq!(
        describe(&items),
        vec![
            "glow Apex BossHeader [255, 220, 100, 255]".to_string(),
            "line [Phase 1:10] SectionHeader [200, 200, 255, 255]".to_string(),
            "line [Stack :00,left:10] Normal [255, 255, 255, 255]".to_string(),
            "gap".to_string(),
            "glow ──────────────────────────── Divider [100, 100, 100, 200]".to_string(),
        ]
    );
    assert!(matches!(items[1], NotesDrawItem::Line { size: TextSize::SectionHeader, .. }));
}

#[test]
fn render_without_boss_name_skips_header_and_empty_spans() {
    let mut o = NotesOverlay::new(NotesConfig { font_size: 12, font_color: [1, 2, 3, 4], dynamic_background: true }, 0);
    o.set_data(data("****\n*soft*", ""));
    assert_eq!(
        describe(&o.render()),
        vec!["gap".to_string(), "line [soft:01] Normal [1, 2, 3, 4]".to_string()]
    );
}
