use hunt_core::model::{Challenge, Config, Team};
use hunt_core::prompt::{encode_callback_data, make_keyboard, parse_callback_data};
use hunt_core::resources::{resolve_locator, safety_roster_day, Locator};
use hunt_core::store::Store;
use hunt_core::text::{i32_to_string, i64_to_string, parse_u64, u64_to_string};

#[test]
fn decimal_rendering_is_exact() {
    assert_eq!(u64_to_string(0), "0");
    assert_eq!(u64_to_string(7), "7");
    assert_eq!(u64_to_string(40962), "40962");
    assert_eq!(i64_to_string(-5), "-5");
    assert_eq!(i64_to_string(0), "0");
    assert_eq!(i64_to_string(i64::MIN), "-9223372036854775808");
    assert_eq!(i64_to_string(i64::MAX), "9223372036854775807");
    assert_eq!(i32_to_string(-31), "-31");
}

#[test]
fn keyboard_rows_carry_labels_and_callback_data() {
    let challenges = vec![
        Challenge {
            name: "photo_safety".to_string(),
            short_name: "Safety".to_string(),
        },
        Challenge {
            name: "group_jump".to_string(),
            short_name: "Jump".to_string(),
        },
    ];
    let rows = make_keyboard("7".to_string(), "100".to_string(), challenges);
    assert_eq!(rows.len(), 3);
    assert_eq!(rows[0].len(), 1);
    assert_eq!(rows[0][0].label, "Safety");
    assert_eq!(rows[0][0].data, "7###100###photo_safety");
    assert_eq!(rows[1][0].label, "Jump");
    assert_eq!(rows[1][0].data, "7###100###group_jump");
    assert_eq!(rows[2].len(), 2);
    assert_eq!(rows[2][0].label, "\u{26a0}\u{fe0f} Unclear");
    assert_eq!(rows[2][0].data, "7###100###___unclear");
    assert_eq!(rows[2][1].label, "\u{274c} Invalid");
    assert_eq!(rows[2][1].data, "7###100###___invalid");
}

#[test]
fn callback_data_round_trips() {
    let data = encode_callback_data(
        &"7".to_string(),
        &"100".to_string(),
        &"photo_safety".to_string(),
    );
    assert_eq!(data, "7###100###photo_safety");
    let (a, b, c) = parse_callback_data(&data).unwrap();
    assert_eq!(a, "7");
    assert_eq!(b, "100");
    assert_eq!(c, "photo_safety");
}

#[test]
fn malformed_callback_data_is_refused() {
    assert!(parse_callback_data("").is_none());
    assert!(parse_callback_data("7###100").is_none());
    assert!(parse_callback_data("no separators here").is_none());
    assert!(parse_callback_data("a###b###c###d").is_none());
}

#[test]
fn callback_choice_may_hold_lone_hashes() {
    // a '#' inside the choice is not a separator and survives the split
    let (a, b, c) = parse_callback_data("7###100###a#b").unwrap();
    assert_eq!(a, "7");
    assert_eq!(b, "100");
    assert_eq!(c, "a#b");
}

#[test]
fn locators_resolve_by_mode() {
    match resolve_locator("file::assets/schedule.png") {
        Some(Locator::LocalFile(p)) => assert_eq!(p, "assets/schedule.png"),
        _ => panic!("expected a local file"),
    }
    match resolve_locator("url::https://example.com/guide.pdf") {
        Some(Locator::Remote(u)) => assert_eq!(u.as_str(), "https://example.com/guide.pdf"),
        _ => panic!("expected a parsed URL"),
    }
    assert!(resolve_locator("no separator").is_none());
    assert!(resolve_locator("tape::reel7").is_none());
    assert!(resolve_locator("url::not a url").is_none());
}

#[test]
fn config_rows_feed_the_locators() {
    let mut s = Store::new();
    s.config.push(Config {
        name: "schedule_source".to_string(),
        value: "url::https://example.com/schedule.png".to_string(),
    });
    match s.schedule_source() {
        Some(Locator::Remote(u)) => assert_eq!(u.as_str(), "https://example.com/schedule.png"),
        _ => panic!("expected the configured URL"),
    }
    // no city_guide row: the packaged fallback answers
    match s.city_guide_source() {
        Some(Locator::LocalFile(p)) => assert_eq!(p, "assets/survival_guide.pdf"),
        _ => panic!("expected the packaged guide"),
    }
}

#[test]
fn safety_roster_day_shifts_before_six() {
    assert_eq!(safety_roster_day(20048, 5), 20047);
    assert_eq!(safety_roster_day(20048, 0), 20047);
    assert_eq!(safety_roster_day(20048, 6), 20048);
    assert_eq!(safety_roster_day(20048, 23), 20048);
}

#[test]
fn team_display_is_its_name() {
    let t = Team {
        team: "Falcons".to_string(),
        count: 3,
    };
    assert_eq!(t.to_string(), "Falcons");
}

#[test]
fn decimal_parsing_inverts_rendering() {
    assert_eq!(parse_u64("0"), Some(0));
    assert_eq!(parse_u64("40962"), Some(40962));
    assert_eq!(parse_u64(&u64_to_string(u64::MAX)), Some(u64::MAX));
    assert_eq!(parse_u64(""), None);
    assert_eq!(parse_u64("12a"), None);
    assert_eq!(parse_u64("-5"), None);
    // one past the largest value that fits
    assert_eq!(parse_u64("18446744073709551616"), None);
}
