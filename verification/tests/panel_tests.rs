use soyuz_studio::preview::{focus_check_start, focus_check_step, FocusCheck};
use soyuz_studio::commands::{app_command_action, AppAction};
use soyuz_studio::editor::{EditorTab, MarkdownDoc, TabKind};
use soyuz_studio::export::{compute_default_filename, compute_default_path};
use soyuz_studio::palette::{PaletteMode, PaletteState};
use soyuz_studio::preview::{embedded_preview_process_args, i32_text, preview_process_args, u32_text, DomRect};
use soyuz_studio::settings::{normalize_settings, AutoSave, ExportFormat, ExportSettings, SettingCategory, Settings};
use soyuz_studio::settings::{all_settings_meta, ControlType};
use soyuz_studio::preview::PreviewState;
use soyuz_studio::export::{export_click, export_finished, export_target, overwrite_name, status_line, with_format_extension};
use soyuz_studio::export::{ExportAction, ExportClick, ExportFollowUp, ExportStatus};

#[test]
fn preview_process_uses_current_studio_artifact() {
    let args = preview_process_args("/tmp/smoke.rhai");
    assert_eq!(args, ["--preview", "--script", "/tmp/smoke.rhai"]);
    assert!(!args.iter().any(|arg| arg == "cargo"));
    assert!(!args.iter().any(|arg| arg.contains("soyuz-preview")));
}

#[test]
fn embedded_preview_process_uses_current_studio_artifact() {
    let args = embedded_preview_process_args("/tmp/smoke.rhai", 42, DomRect { x: 10, y: 20, width: 640, height: 480 });
    assert_eq!(
        args,
        [
            "--embedded-preview",
            "--script",
            "/tmp/smoke.rhai",
            "--parent",
            "42",
            "--x",
            "10",
            "--y",
            "20",
            "--width",
            "640",
            "--height",
            "480",
        ]
    );
}

#[test]
fn numbers_are_written_in_decimal() {
    assert_eq!(u32_text(0), "0");
    assert_eq!(u32_text(u32::MAX), "4294967295");
    assert_eq!(i32_text(-5), "-5");
    assert_eq!(i32_text(i32::MIN), "-2147483648");
    assert_eq!(i32_text(i32::MAX), "2147483647");
    let args = embedded_preview_process_args("s", 0, DomRect { x: -3, y: 0, width: 1, height: 2 });
    assert_eq!(args[6], "-3");
}

#[test]
fn export_path_prefers_the_last_folder_then_the_script_folder() {
    let last = "/exports".to_string();
    let script = "/work/scripts/barrel.rhai".to_string();
    let docs = Some("/home/u/Documents".to_string());
    assert_eq!(compute_default_path(Some(&last), true, Some(&script), docs.clone()), "/exports");
    assert_eq!(compute_default_path(Some(&last), false, Some(&script), docs.clone()), "/work/scripts");
    assert_eq!(compute_default_path(None, false, None, docs.clone()), "/home/u/Documents");
    assert_eq!(compute_default_path(None, false, None, None), ".");
    // A bare file name has an empty parent, which is used as is.
    assert_eq!(compute_default_path(None, false, Some(&"barrel.rhai".to_string()), docs.clone()), "");
    // The root has no parent.
    assert_eq!(compute_default_path(None, false, Some(&"/".to_string()), docs), "/home/u/Documents");
}

#[test]
fn export_file_name_uses_the_script_stem_and_format() {
    let script = "/work/barrel.v2.rhai".to_string();
    assert_eq!(compute_default_filename(Some(&script), ExportFormat::Stl), "barrel.v2.stl");
    assert_eq!(compute_default_filename(None, ExportFormat::Glb), "untitled.glb");
    assert_eq!(compute_default_filename(Some(&"/work/.hidden".to_string()), ExportFormat::Obj), ".hidden.obj");
    assert_eq!(compute_default_filename(Some(&"/".to_string()), ExportFormat::Gltf), "untitled.gltf");
}

#[test]
fn settings_defaults_and_legacy_theme() {
    let s = Settings::default();
    assert_eq!(s.font_family, "monospace");
    assert_eq!(s.font_size, 14);
    assert_eq!(s.theme, "soyuz-graphite");
    assert_eq!(s.auto_save, AutoSave::Off);
    assert_eq!(s.recent_files_limit, 20);
    assert_eq!(s.undo_history_limit, 100);
    assert!(s.time_format_24h);

    let mut old = Settings::default();
    old.theme = "Dark".to_string();
    old.font_size = 18;
    let n = normalize_settings(old);
    assert_eq!(n.theme, "soyuz-graphite");
    assert_eq!(n.font_size, 18);
    let mut custom = Settings::default();
    custom.theme = "light".to_string();
    assert_eq!(normalize_settings(custom).theme, "light");

    assert_eq!(AutoSave::Off.interval_secs(), None);
    assert_eq!(AutoSave::AfterDelay(30).interval_secs(), Some(30));
    let e = ExportSettings::default();
    assert_eq!((e.format, e.resolution, e.optimize, e.close_after_export), (ExportFormat::Glb, 128, false, true));
    assert_eq!(ExportFormat::Gltf.extension(), "gltf");
    let labels: Vec<&str> = SettingCategory::all().iter().map(|c| c.label()).collect();
    assert_eq!(labels, ["Editor", "Theme", "Export", "Application"]);
}

#[test]
fn command_ids_map_to_actions() {
    assert_eq!(app_command_action("file.new"), AppAction::NewTab);
    assert_eq!(app_command_action("file.saveAs"), AppAction::SaveAs);
    assert_eq!(app_command_action("edit.selectAll"), AppAction::DocumentCommand("selectAll"));
    assert_eq!(app_command_action("view.goToFile"), AppAction::OpenPalette);
    assert_eq!(app_command_action("export.stl"), AppAction::OpenExportPanel);
    assert_eq!(app_command_action("help.about"), AppAction::OpenAbout);
    assert_eq!(app_command_action("window.minimize"), AppAction::NotImplemented);
    assert_eq!(app_command_action(""), AppAction::NotImplemented);
}

#[test]
fn palette_opens_in_its_modes() {
    let mut p = PaletteState::default();
    p.selected_index = 4;
    p.open_unified("abc".to_string());
    assert!(p.visible);
    assert_eq!((p.query.as_str(), p.mode, p.selected_index), ("abc", PaletteMode::Unified, 0));
    p.open_go_to_line();
    assert_eq!((p.query.as_str(), p.mode), (":", PaletteMode::GoToLine));
}

#[test]
fn tabs_know_their_kind_and_name() {
    let file = EditorTab::from_file(3, "/w/barrel.rhai".to_string(), "x".to_string());
    assert_eq!(file.display_name(), "barrel.rhai");
    assert!(file.is_persistable());
    assert!(!file.is_dirty);
    let untitled = EditorTab::new_untitled(4);
    assert_eq!(untitled.display_name(), "Untitled");
    assert!(!untitled.content.is_empty());
    let blank = EditorTab::new_blank(5);
    assert!(blank.content.is_empty());
    let settings = EditorTab::new_settings(6);
    assert!(settings.is_settings());
    assert!(!settings.is_persistable());
    assert_eq!(settings.display_name(), "Settings");
    let doc = EditorTab::new_markdown(7, MarkdownDoc::Readme);
    assert_eq!(doc.kind, TabKind::Markdown(MarkdownDoc::Readme));
    assert_eq!(doc.display_name(), MarkdownDoc::Readme.display_name());
    let preview = EditorTab::new_preview(8, "code".to_string());
    assert!(preview.is_preview());
    assert_eq!(preview.content, "code");
    let export = EditorTab::new_export(9, "code".to_string());
    assert!(export.is_export());
    let copy = file.duplicate(10);
    assert_eq!((copy.id, copy.path.as_deref(), copy.content.as_str()), (10, Some("/w/barrel.rhai"), "x"));
}

#[test]
fn settings_metadata_lists_every_setting_in_panel_order() {
    let meta = all_settings_meta();
    assert_eq!(meta.len(), 17);
    assert_eq!(meta[0].id, "font_family");
    assert_eq!(meta[0].control_type, ControlType::Text);
    assert_eq!(meta[1].control_type, ControlType::Number { min: 8, max: 32 });
    assert_eq!(meta[6].category, SettingCategory::Theme);
    match &meta[15].control_type {
        ControlType::Dropdown { options } => {
            assert_eq!(options.len(), 27);
            assert_eq!(options[0], ("-12", "UTC-12"));
            assert_eq!(options[26], ("14", "UTC+14"));
        }
        _ => panic!("expected a dropdown"),
    }
    let ids: Vec<&str> = meta.iter().map(|m| m.id).collect();
    assert_eq!(ids[16], "time_format_24h");
    assert!(meta.iter().all(|m| !m.label.is_empty() && !m.description.is_empty()));
}

#[test]
fn preview_state_starts_idle() {
    let s = PreviewState::default();
    assert!(s.script.is_empty());
    assert!(!s.needs_update && !s.should_open);
}

#[test]
fn export_panel_decisions() {
    assert_eq!(with_format_extension("barrel.glb", ExportFormat::Stl), "barrel.stl");
    assert_eq!(with_format_extension("barrel.v2.glb", ExportFormat::Obj), "barrel.v2.obj");
    assert_eq!(with_format_extension("barrel", ExportFormat::Gltf), "barrel.gltf");
    assert_eq!(with_format_extension("", ExportFormat::Glb), ".glb");
    assert_eq!(export_target("/out", "barrel.stl"), "/out/barrel.stl");
    assert_eq!(export_target("/out/", "barrel.stl"), "/out/barrel.stl");
    assert_eq!(export_click(&ExportStatus::Exporting, true), ExportClick::Ignore);
    assert_eq!(export_click(&ExportStatus::Idle, true), ExportClick::ConfirmOverwrite);
    assert_eq!(export_click(&ExportStatus::Error("x".to_string()), false), ExportClick::Run);
    assert_eq!(status_line(&ExportStatus::Idle), "Ready");
    assert_eq!(status_line(&ExportStatus::Exporting), "Generating mesh...");
    assert_eq!(status_line(&ExportStatus::Done("12 tris".to_string())), "Exported: 12 tris");
    assert_eq!(status_line(&ExportStatus::Error("boom".to_string())), "Error: boom");
    assert_eq!(overwrite_name("/out/barrel.stl"), "barrel.stl");
    assert_eq!(overwrite_name("/"), "/");

    let mut e = ExportSettings::default();
    e.record_export("/out".to_string(), ExportFormat::Stl, 64, true);
    assert_eq!(e.last_export_dir.as_deref(), Some("/out"));
    assert_eq!((e.format, e.resolution, e.optimize, e.close_after_export), (ExportFormat::Stl, 64, true, true));
}

#[test]
fn finished_exports_report_and_open_what_was_asked() {
    let (status, follow) =
        export_finished(ExportAction::ExportAndOpenFile, "/out".to_string(), "/out/a.glb".to_string(), Ok("12 triangles".to_string()));
    assert!(matches!(status, ExportStatus::Done(ref s) if s == "12 triangles"));
    assert!(matches!(follow, ExportFollowUp::OpenFile(ref p) if p == "/out/a.glb"));

    let (_, follow) =
        export_finished(ExportAction::ExportAndOpenFolder, "/out".to_string(), "/out/a.glb".to_string(), Ok(String::new()));
    assert!(matches!(follow, ExportFollowUp::OpenFolder(ref p) if p == "/out"));

    let (_, follow) = export_finished(ExportAction::Export, "/out".to_string(), "/out/a.glb".to_string(), Ok(String::new()));
    assert!(matches!(follow, ExportFollowUp::Nothing));

    let (status, follow) =
        export_finished(ExportAction::ExportAndOpenFile, "/out".to_string(), "/out/a.glb".to_string(), Err("bad mesh".to_string()));
    assert_eq!(status_line(&status), "Error: bad mesh");
    assert!(matches!(follow, ExportFollowUp::Nothing));
}

#[test]
fn focus_check_reclaims_only_focus_lost_outside_the_active_studio() {
    // The studio window (10) holds focus, or another application is active.
    assert_eq!(focus_check_start(5, 10, 10, Some(10)), FocusCheck::Done);
    assert_eq!(focus_check_start(5, 10, 7, Some(3)), FocusCheck::Done);
    // The preview itself, or no window, holds focus while the studio is active.
    assert_eq!(focus_check_start(5, 10, 5, Some(10)), FocusCheck::Reclaim);
    assert_eq!(focus_check_start(5, 10, 1, Some(10)), FocusCheck::Reclaim);
    // Another window: walk up its ancestors.
    assert_eq!(focus_check_start(5, 10, 7, Some(10)), FocusCheck::QueryParent(7));
    assert_eq!(focus_check_step(10, 7, 0, Some((1, 8))), FocusCheck::QueryParent(8));
    assert_eq!(focus_check_step(10, 8, 1, Some((1, 10))), FocusCheck::Done);
    assert_eq!(focus_check_step(10, 8, 1, Some((1, 0))), FocusCheck::Reclaim);
    assert_eq!(focus_check_step(10, 1, 1, Some((1, 4))), FocusCheck::Reclaim);
    assert_eq!(focus_check_step(10, 8, 1, None), FocusCheck::Reclaim);
    // The walk gives up after sixteen windows.
    assert_eq!(focus_check_step(10, 8, 15, Some((1, 10))), FocusCheck::Reclaim);
}
