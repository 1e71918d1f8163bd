use baras::event_models::{Effect, EntityType};
use baras::parser::{
    parse_action, parse_effect, parse_effect_checked, parse_entity, parse_entity_checked,
    parse_entity_health, parse_entity_name_id, parse_line, parse_line_checked, parse_timestamp,
};
use baras::reader::{line_ranges, parse_log_text_checked};

const PLAYER_LINE: &str = "[18:12:15.087] [@Galen Ayder#690129185314118|(-4700.43,-4750.48,710.03,-0.71)|(1/414851)] [Dread Master Bestia {3273941900591104}:5320000112163|(137.28,-120.98,-8.85,81.28)|(0/19129210)] [Force Lightning {807719543750656}] [ApplyEffect {836045448945477}: Damage {836045448945501}] (1234 energy {836045448940874})";

#[test]
fn timestamp_reads_fields() {
    let (rest, ts) = parse_timestamp("[18:12:15.087] [x]").unwrap();
    assert_eq!((ts.hour, ts.minute, ts.second, ts.millis), (18, 12, 15, 87));
    assert_eq!(rest, " [x]");
}

#[test]
fn timestamp_rejects_wrong_shape() {
    assert!(parse_timestamp("[18:12:15.08]").is_none());
    assert!(parse_timestamp("18:12:15.087] x").is_none());
    assert!(parse_timestamp("[18-12:15.087] x").is_none());
    assert!(parse_timestamp("").is_none());
}

#[test]
fn timestamp_at_midnight_and_last_millisecond() {
    let (_, a) = parse_timestamp("[00:00:00.000]").unwrap();
    assert_eq!((a.hour, a.minute, a.second, a.millis), (0, 0, 0, 0));
    let (_, b) = parse_timestamp("[23:59:59.999]").unwrap();
    assert_eq!((b.hour, b.minute, b.second, b.millis), (23, 59, 59, 999));
}

#[test]
fn health_reads_current_and_max() {
    assert_eq!(parse_entity_health("|(288866/288866)"), Some((288866, 288866)));
    assert_eq!(parse_entity_health("|(0/19129210)"), Some((0, 19129210)));
}

#[test]
fn health_without_delimiters_is_rejected() {
    assert_eq!(parse_entity_health("|288866"), None);
    assert_eq!(parse_entity_health("|(12)"), None);
}

#[test]
fn health_that_is_not_a_number_reads_as_zero() {
    assert_eq!(parse_entity_health("|(abc/12)"), Some((0, 12)));
}

#[test]
fn name_id_of_player() {
    let (name, class_id, log_id, kind) = parse_entity_name_id("@Galen Ayder#690129185314118").unwrap();
    assert_eq!(name, "Galen Ayder");
    assert_eq!(class_id, 0);
    assert_eq!(log_id, 690129185314118);
    assert_eq!(kind, EntityType::Player);
}

#[test]
fn name_id_of_npc() {
    let (name, class_id, log_id, kind) =
        parse_entity_name_id("Dread Master Bestia {3273941900591104}:5320000112163").unwrap();
    assert_eq!(name, "Dread Master Bestia");
    assert_eq!(class_id, 3273941900591104);
    assert_eq!(log_id, 5320000112163);
    assert_eq!(kind, EntityType::Npc);
}

#[test]
fn name_id_of_companion() {
    let (name, class_id, log_id, kind) = parse_entity_name_id(
        "@Jerran Zeva#689501114780828/Raina Temple {493328533553152}:87481369009487",
    )
    .unwrap();
    assert_eq!(name, "Raina Temple");
    assert_eq!(class_id, 493328533553152);
    assert_eq!(log_id, 87481369009487);
    assert_eq!(kind, EntityType::Companion);
}

#[test]
fn name_id_of_npc_without_braces_is_rejected() {
    assert!(parse_entity_name_id("Training Dummy").is_none());
}

#[test]
fn entity_reads_npc_segment() {
    let (rest, e) = parse_entity(
        " [Dread Master Bestia {3273941900591104}:5320000112163|(137.28,-120.98,-8.85,81.28)|(0/19129210)] tail",
    )
    .unwrap();
    assert_eq!(rest, " tail");
    assert_eq!(e.name, "Dread Master Bestia");
    assert_eq!(e.class_id, 3273941900591104);
    assert_eq!(e.log_id, 5320000112163);
    assert_eq!(e.entity_type, EntityType::Npc);
    assert_eq!(e.health, (0, 19129210));
}

#[test]
fn entity_empty_and_self_segments() {
    let (rest, e) = parse_entity(" [] tail").unwrap();
    assert_eq!(rest, " tail");
    assert_eq!(e.entity_type, EntityType::Empty);
    assert_eq!(e.name, "");
    let (rest, e) = parse_entity(" [=] tail").unwrap();
    assert_eq!(rest, " tail");
    assert_eq!(e.entity_type, EntityType::SelfReference);
}

#[test]
fn entity_without_brackets_is_rejected() {
    assert!(parse_entity("no brackets").is_none());
    assert_eq!(parse_entity_checked("no brackets").map(|r| r.is_none()), Some(true));
}

#[test]
fn action_reads_name_and_id() {
    let (rest, a) = parse_action(" [Force Lightning {807719543750656}] [x]").unwrap();
    assert_eq!(a.name, "Force Lightning");
    assert_eq!(a.action_id, 807719543750656);
    assert_eq!(rest, " [x]");
}

#[test]
fn action_empty_segment() {
    let (rest, a) = parse_action(" [] [x]").unwrap();
    assert_eq!(a.name, "");
    assert_eq!(a.action_id, 0);
    assert_eq!(rest, " [x]");
}

#[test]
fn effect_standard() {
    let (rest, e) =
        parse_effect(" [ApplyEffect {836045448945477}: Lucky Shots {3244809567239424}] (x)").unwrap();
    assert_eq!(rest, " (x)");
    match e {
        Effect::Standard { effect_type_name, type_id, name, id } => {
            assert_eq!(effect_type_name, "ApplyEffect");
            assert_eq!(type_id, 836045448945477);
            assert_eq!(name, "Lucky Shots");
            assert_eq!(id, 3244809567239424);
        }
        other => panic!("unexpected effect {:?}", other),
    }
}

#[test]
fn effect_with_one_id_is_empty() {
    let (_, e) = parse_effect(" [Spend {836045448945473}]").unwrap();
    assert!(matches!(e, Effect::Empty));
}

#[test]
fn effect_area_entered_with_difficulty() {
    let (_, e) = parse_effect(
        " [AreaEntered {836045448953664}: Dxun - The CI-004 Facility {833571547775792} 8 Player Master {836045448953655}]",
    )
    .unwrap();
    match e {
        Effect::AreaEntered { type_id, area_name, area_id, difficulty, difficulty_id } => {
            assert_eq!(type_id, 836045448953664);
            assert_eq!(area_name, "Dxun - The CI-004 Facility");
            assert_eq!(area_id, 833571547775792);
            assert_eq!(difficulty.as_deref(), Some("8 Player Master"));
            assert_eq!(difficulty_id, Some(836045448953655));
        }
        other => panic!("unexpected effect {:?}", other),
    }
}

#[test]
fn effect_area_entered_without_difficulty() {
    let (_, e) = parse_effect(" [AreaEntered {836045448953664}: Imperial Fleet {137438989504}]").unwrap();
    match e {
        Effect::AreaEntered { area_name, area_id, difficulty, difficulty_id, .. } => {
            assert_eq!(area_name, "Imperial Fleet");
            assert_eq!(area_id, 137438989504);
            assert_eq!(difficulty, None);
            assert_eq!(difficulty_id, None);
        }
        other => panic!("unexpected effect {:?}", other),
    }
}

#[test]
fn effect_discipline_changed() {
    let (_, e) = parse_effect(
        " [DisciplineChanged {836045448953665}: Operative {16140905232405801950}/Medicine {2031339142381593}]",
    )
    .unwrap();
    match e {
        Effect::DisciplineChanged { type_id, class_name, class_id, discipline_name, discipline_id } => {
            assert_eq!(type_id, 836045448953665);
            assert_eq!(class_name, "Operative");
            // Too large for an i64: read as zero.
            assert_eq!(class_id, 0);
            assert_eq!(discipline_name, "Medicine");
            assert_eq!(discipline_id, 2031339142381593);
        }
        other => panic!("unexpected effect {:?}", other),
    }
}

#[test]
fn effect_without_segment_is_rejected() {
    assert_eq!(parse_effect_checked("nothing here").map(|r| r.is_none()), Some(true));
}

#[test]
fn line_reads_every_segment() {
    let ev = parse_line(7, PLAYER_LINE).unwrap();
    assert_eq!(ev.line_number, 7);
    assert_eq!((ev.timestamp.hour, ev.timestamp.minute, ev.timestamp.second), (18, 12, 15));
    assert_eq!(ev.source_entity.name, "Galen Ayder");
    assert_eq!(ev.source_entity.entity_type, EntityType::Player);
    assert_eq!(ev.source_entity.health, (1, 414851));
    assert_eq!(ev.target_entity.name, "Dread Master Bestia");
    assert_eq!(ev.action.action_id, 807719543750656);
    match ev.effect {
        Effect::Standard { id, .. } => assert_eq!(id, 836045448945501),
        other => panic!("unexpected effect {:?}", other),
    }
    assert_eq!(ev.damage, None);
}

#[test]
fn line_with_self_target_copies_source() {
    let line = "[18:12:15.087] [@Galen Ayder#690129185314118|(1,2,3,4)|(10/20)] [=] [Stim {1}] [ApplyEffect {836045448945477}: Stim {2}]";
    let ev = parse_line(1, line).unwrap();
    assert_eq!(ev.target_entity.name, "Galen Ayder");
    assert_eq!(ev.target_entity.log_id, 690129185314118);
    assert_eq!(ev.target_entity.entity_type, EntityType::Player);
    assert_eq!(ev.target_entity.health, (10, 20));
}

#[test]
fn line_with_bad_timestamp_is_rejected() {
    assert_eq!(parse_line_checked(1, "garbage line").map(|r| r.is_none()), Some(true));
}

#[test]
fn line_ranges_skip_empty_lines() {
    let text = b"ab\n\ncd\nef";
    let r = line_ranges(text);
    assert_eq!(r, vec![(0, 2), (4, 6), (7, 9)]);
    assert_eq!(line_ranges(b""), Vec::<(usize, usize)>::new());
    assert_eq!(line_ranges(b"x\n"), vec![(0, 1)]);
}

#[test]
fn log_text_is_parsed_line_by_line() {
    let text = format!("{}\n\n{}\n", PLAYER_LINE, PLAYER_LINE);
    let events = parse_log_text_checked(&text).unwrap();
    assert_eq!(events.len(), 2);
    assert_eq!(events[0].line_number, 1);
    assert_eq!(events[1].line_number, 2);
}

#[test]
fn log_text_drops_unparsable_lines() {
    let text = format!("not a log line\n{}", PLAYER_LINE);
    let events = parse_log_text_checked(&text).unwrap();
    assert_eq!(events.len(), 1);
    assert_eq!(events[0].line_number, 2);
}
