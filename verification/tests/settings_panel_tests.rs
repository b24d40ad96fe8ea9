use soyuz_studio::settings::{AutoSave, ExportFormat, Settings};
use soyuz_studio::settings_panel::{
    apply_setting_change, choice_value, number_input, parse_auto_save, parse_export_format, parse_timezone,
    SettingChange,
};

#[test]
fn number_fields_parse_and_clamp() {
    assert_eq!(number_input("12", 8, 32), Some(12));
    assert_eq!(number_input("2", 8, 32), Some(8));
    assert_eq!(number_input("+99", 8, 32), Some(32));
    assert_eq!(number_input("-1", 8, 32), None);
    assert_eq!(number_input("", 8, 32), None);
    assert_eq!(number_input("4294967296", 0, 10), None);
}

#[test]
fn dropdown_values_parse() {
    assert_eq!(parse_auto_save("off"), AutoSave::Off);
    assert_eq!(parse_auto_save("30"), AutoSave::AfterDelay(30));
    assert_eq!(parse_auto_save("soon"), AutoSave::Off);
    assert_eq!(parse_export_format("stl"), ExportFormat::Stl);
    assert_eq!(parse_export_format("gltf"), ExportFormat::Gltf);
    assert_eq!(parse_export_format("fbx"), ExportFormat::Glb);
    assert_eq!(parse_timezone("-5"), Some(-5));
    assert_eq!(parse_timezone("+14"), Some(14));
    assert_eq!(parse_timezone("-100"), Some(-12));
    assert_eq!(parse_timezone("100"), Some(14));
    assert_eq!(parse_timezone("200"), None);
    assert_eq!(parse_timezone("UTC"), None);
}

#[test]
fn dropdowns_show_the_current_values() {
    let mut s = Settings::default();
    s.auto_save = AutoSave::AfterDelay(60);
    s.timezone_offset = -8;
    s.export_format = ExportFormat::Obj;
    s.time_format_24h = false;
    assert_eq!(choice_value(&s, "auto_save").as_deref(), Some("60"));
    assert_eq!(choice_value(&s, "timezone_offset").as_deref(), Some("-8"));
    assert_eq!(choice_value(&s, "export_format").as_deref(), Some("obj"));
    assert_eq!(choice_value(&s, "time_format_24h").as_deref(), Some("false"));
    assert_eq!(choice_value(&s, "theme").as_deref(), Some("soyuz-graphite"));
    assert_eq!(choice_value(&Settings::default(), "auto_save").as_deref(), Some("off"));
    assert_eq!(choice_value(&s, "font_size"), None);
}

#[test]
fn control_values_are_written_to_their_setting() {
    let mut s = Settings::default();
    assert!(apply_setting_change(&mut s, "font_family", SettingChange::Text("Fira Code".to_string())));
    assert_eq!(s.font_family, "Fira Code");
    assert!(apply_setting_change(&mut s, "recent_files_limit", SettingChange::Number(7)));
    assert_eq!(s.recent_files_limit, 7);
    assert!(apply_setting_change(&mut s, "word_wrap", SettingChange::Switch(true)));
    assert!(s.word_wrap);
    assert!(apply_setting_change(&mut s, "auto_save", SettingChange::Choice("10".to_string())));
    assert_eq!(s.auto_save, AutoSave::AfterDelay(10));
    assert!(apply_setting_change(&mut s, "timezone_offset", SettingChange::Choice("9".to_string())));
    assert_eq!(s.timezone_offset, 9);
    assert!(apply_setting_change(&mut s, "time_format_24h", SettingChange::Choice("false".to_string())));
    assert!(!s.time_format_24h);

    // Nothing is written for an unreadable timezone, an unknown id or a value
    // of the wrong kind.
    assert!(!apply_setting_change(&mut s, "timezone_offset", SettingChange::Choice("x".to_string())));
    assert_eq!(s.timezone_offset, 9);
    assert!(!apply_setting_change(&mut s, "nope", SettingChange::Switch(true)));
    assert!(!apply_setting_change(&mut s, "font_size", SettingChange::Switch(true)));
    assert_eq!(s.font_size, 14);
}
