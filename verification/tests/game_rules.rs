use rusthia::game::score::ScoreState;
use rusthia::game::save::{SaveManager, SaveData, MapRecord};
use rusthia::ui::hud::{format_score, combo_text, clock_text};
use rusthia::ui::results::{grade_for, Grade};
use rusthia::ui::settings::{mods_label, next_note_shape, note_shape_name, prev_note_shape};
use rusthia::numtext::decimal_chars;

#[test]
fn scoring_hits_and_misses() {
    let mut s = ScoreState::new();
    s.register_hit();
    s.register_hit();
    s.register_hit();
    assert_eq!(s.score, 600);
    assert_eq!(s.combo, 3);
    s.register_miss();
    assert_eq!(s.combo, 0);
    assert_eq!(s.best_combo, 3);
    s.register_hit();
    assert_eq!(s.score, 700);
    assert_eq!(s.hits, 4);
    assert_eq!(s.misses, 1);
}

#[test]
fn full_combo_score() {
    let mut s = ScoreState::new();
    for _ in 0..10 {
        s.register_hit();
    }
    assert_eq!(s.score, 50 * 10 * 11);
    assert_eq!(s.best_combo, 10);
}

#[test]
fn records_keep_the_best() {
    let mut m = SaveManager { data: SaveData::new() };
    assert!(m.get_record("map").is_none());
    assert!(m.submit_result("map", 1000, 10, 0.5f64.to_bits(), "NF"));
    let r = m.get_record("map").unwrap();
    assert_eq!(r.best_score, 1000);
    assert_eq!(r.best_combo, 10);
    assert_eq!(f64::from_bits(r.best_accuracy_bits), 0.5);
    assert_eq!(r.best_score_mods, "NF");
    assert!(m.submit_result("map", 500, 20, 0.9f64.to_bits(), ""));
    let r = m.get_record("map").unwrap();
    assert_eq!(r.best_score, 1000);
    assert_eq!(r.best_combo, 20);
    assert_eq!(r.best_score_mods, "NF");
    assert!(!m.submit_result("map", 500, 20, 0.9f64.to_bits(), ""));
    assert!(!m.submit_result("other", 0, 0, 0, ""));
    let o = m.get_record("other").unwrap();
    assert_eq!(o.best_score, 0);
    assert_eq!(m.data.len(), 2);
}

#[test]
fn record_set_replaces() {
    let mut d = SaveData::new();
    let mut r = MapRecord::new();
    r.best_score = 7;
    d.set("k".to_string(), r);
    let mut r2 = MapRecord::new();
    r2.best_score = 9;
    d.set("k".to_string(), r2);
    assert_eq!(d.len(), 1);
    assert_eq!(d.get("k").unwrap().best_score, 9);
    let (k, v) = d.entry(0);
    assert_eq!(k, "k");
    assert_eq!(v.best_score, 9);
}

#[test]
fn score_texts() {
    assert_eq!(format_score(0), "0");
    assert_eq!(format_score(999), "999");
    assert_eq!(format_score(1000), "1,000");
    assert_eq!(format_score(1234567), "1,234,567");
    assert_eq!(format_score(-1234), "-1,234");
    assert_eq!(format_score(i64::MAX), "9,223,372,036,854,775,807");
    assert_eq!(combo_text(1), "");
    assert_eq!(combo_text(12), "12x");
    assert_eq!(clock_text(0), "0:00");
    assert_eq!(clock_text(65), "1:05");
    assert_eq!(clock_text(3600), "60:00");
    let d: String = decimal_chars(u64::MAX).into_iter().collect();
    assert_eq!(d, u64::MAX.to_string());
}

#[test]
fn grades() {
    assert!(grade_for(100) == Grade::SS);
    assert!(grade_for(99) == Grade::S);
    assert!(grade_for(95) == Grade::S);
    assert!(grade_for(94) == Grade::A);
    assert!(grade_for(88) == Grade::A);
    assert!(grade_for(87) == Grade::B);
    assert!(grade_for(75) == Grade::B);
    assert!(grade_for(74) == Grade::C);
    assert!(grade_for(60) == Grade::C);
    assert!(grade_for(59) == Grade::F);
    assert!(grade_for(101) == Grade::F);
    assert_eq!(grade_for(90).letter(), "A");
    assert_eq!(grade_for(100).letter(), "SS");
}

#[test]
fn note_shapes_cycle() {
    assert_eq!(next_note_shape(0), 1);
    assert_eq!(next_note_shape(2), 0);
    assert_eq!(prev_note_shape(0), 2);
    assert_eq!(prev_note_shape(1), 0);
    assert_eq!(prev_note_shape(7), 0);
    for s in 0..3u8 {
        assert_eq!(prev_note_shape(next_note_shape(s)), s);
    }
}

#[test]
fn note_shape_names() {
    assert_eq!(note_shape_name(0), "Carré");
    assert_eq!(note_shape_name(1), "Squircle");
    assert_eq!(note_shape_name(2), "Cercle");
    assert_eq!(note_shape_name(9), "Cercle");
}

#[test]
fn modifier_labels() {
    assert_eq!(mods_label(false, None), "");
    assert_eq!(mods_label(true, None), "NF");
    assert_eq!(mods_label(false, Some("1.50x".to_string())), "1.50x");
    assert_eq!(mods_label(true, Some("0.75x".to_string())), "NF • 0.75x");
}

#[test]
fn listing_gives_every_record_once() {
    let mut m = SaveManager { data: SaveData::new() };
    m.submit_result("a", 10, 1, 0, "");
    m.submit_result("b", 20, 2, 0, "");
    m.submit_result("a", 30, 0, 0, "");
    m.submit_result("c", 5, 5, 0, "");
    let mut listed: Vec<(String, i64)> = Vec::new();
    for i in 0..m.data.len() {
        let (k, v) = m.data.entry(i);
        listed.push((k.clone(), v.best_score));
    }
    listed.sort();
    assert_eq!(
        listed,
        vec![("a".to_string(), 30), ("b".to_string(), 20), ("c".to_string(), 5)]
    );
}

#[test]
fn record_survives_later_results() {
    let mut m = SaveManager { data: SaveData::new() };
    m.submit_result("x", 0, 0, 0, "");
    m.submit_result("y", 900, 9, 0, "");
    m.submit_result("x", -5, 0, 0, "");
    let r = m.get_record("x").unwrap();
    assert_eq!(r.best_score, 0);
}
