use soyuz_studio::editor::{EditorTab, SplitDirection};
use soyuz_studio::settings::AutoSave;
use soyuz_studio::shortcuts::{indent_text, 
    checkpoint_interval_secs, editor_shortcut, global_shortcut, window_title, EditorShortcut, GlobalShortcut,
    KeyName, KeyPress,
};

fn press(key: KeyName, ctrl: bool, shift: bool) -> KeyPress {
    KeyPress { key, ctrl, shift }
}

fn ch(s: &str) -> KeyName {
    KeyName::Character(s.to_string())
}

#[test]
fn workbench_shortcuts() {
    assert_eq!(global_shortcut(&press(KeyName::Escape, false, false), true), Some(GlobalShortcut::CloseAbout));
    assert_eq!(global_shortcut(&press(KeyName::Escape, false, false), false), None);
    assert_eq!(global_shortcut(&press(KeyName::F5, false, false), false), Some(GlobalShortcut::Command("preview.run")));
    assert_eq!(global_shortcut(&press(KeyName::F5, false, true), false), Some(GlobalShortcut::Command("preview.stop")));
    assert_eq!(global_shortcut(&press(KeyName::F1, false, false), false), Some(GlobalShortcut::Command("help.documentation")));
    assert_eq!(global_shortcut(&press(KeyName::Enter, true, false), false), Some(GlobalShortcut::Command("preview.run")));
    assert_eq!(global_shortcut(&press(KeyName::Enter, false, false), false), None);
    assert_eq!(global_shortcut(&press(ch("P"), true, true), false), Some(GlobalShortcut::OpenPalette));
    assert_eq!(global_shortcut(&press(ch("g"), true, false), false), Some(GlobalShortcut::GoToLine));
    assert_eq!(global_shortcut(&press(ch("g"), true, true), false), None);
    assert_eq!(global_shortcut(&press(ch("`"), true, false), false), Some(GlobalShortcut::ToggleTerminal));
    assert_eq!(global_shortcut(&press(ch("\\"), true, true), false), Some(GlobalShortcut::Split(SplitDirection::Horizontal)));
    assert_eq!(global_shortcut(&press(ch("\\"), true, false), false), Some(GlobalShortcut::Split(SplitDirection::Vertical)));
    assert_eq!(global_shortcut(&press(ch("S"), true, true), false), Some(GlobalShortcut::Command("file.saveAs")));
    assert_eq!(global_shortcut(&press(ch("s"), true, false), false), Some(GlobalShortcut::Command("file.save")));
    assert_eq!(global_shortcut(&press(ch("o"), true, false), false), Some(GlobalShortcut::Command("file.open")));
    assert_eq!(global_shortcut(&press(ch("n"), true, false), false), Some(GlobalShortcut::Command("file.new")));
    assert_eq!(global_shortcut(&press(ch("Z"), true, true), false), Some(GlobalShortcut::Command("edit.redo")));
    assert_eq!(global_shortcut(&press(ch("z"), true, false), false), Some(GlobalShortcut::Command("edit.undo")));
    assert_eq!(global_shortcut(&press(ch("w"), true, false), false), Some(GlobalShortcut::CloseActiveTab));
    assert_eq!(global_shortcut(&press(ch("w"), false, false), false), None);
    assert_eq!(global_shortcut(&press(ch("q"), true, false), false), None);
    assert_eq!(global_shortcut(&press(KeyName::Other, true, false), false), None);
}

#[test]
fn editor_shortcuts() {
    assert_eq!(editor_shortcut(&press(KeyName::Enter, true, false)), Some(EditorShortcut::RunPreview));
    assert_eq!(editor_shortcut(&press(ch("Z"), true, true)), Some(EditorShortcut::Redo));
    assert_eq!(editor_shortcut(&press(ch("z"), true, false)), Some(EditorShortcut::Undo));
    assert_eq!(editor_shortcut(&press(ch("n"), true, false)), Some(EditorShortcut::NewTab));
    assert_eq!(editor_shortcut(&press(ch("n"), true, true)), None);
    assert_eq!(editor_shortcut(&press(ch("w"), true, false)), Some(EditorShortcut::CloseTab));
    assert_eq!(editor_shortcut(&press(KeyName::Tab, false, false)), Some(EditorShortcut::Indent));
    assert_eq!(editor_shortcut(&press(KeyName::Tab, false, true)), None);
    assert_eq!(editor_shortcut(&press(ch("a"), false, false)), None);
}

#[test]
fn window_titles() {
    assert_eq!(window_title(None), "Soyuz Studio");
    let mut tab = EditorTab::from_file(1, "/w/barrel.rhai".to_string(), "x".to_string());
    assert_eq!(window_title(Some(&tab)), "barrel.rhai - Soyuz Studio");
    tab.is_dirty = true;
    assert_eq!(window_title(Some(&tab)), "barrel.rhai * - Soyuz Studio");
    let settings = EditorTab::new_settings(2);
    assert_eq!(window_title(Some(&settings)), "Settings - Soyuz Studio");
    let untitled = EditorTab::new_untitled(3);
    assert_eq!(window_title(Some(&untitled)), "Untitled - Soyuz Studio");
}

#[test]
fn checkpoints_follow_the_auto_save_delay() {
    assert_eq!(checkpoint_interval_secs(AutoSave::Off), 30);
    assert_eq!(checkpoint_interval_secs(AutoSave::AfterDelay(5)), 5);
}

#[test]
fn tab_inserts_the_configured_indent_within_bounds() {
    assert_eq!(indent_text(4), "    ");
    assert_eq!(indent_text(0), " ");
    assert_eq!(indent_text(40), " ".repeat(16));
}
