use soyuz_studio::editor::MarkdownDoc;
use soyuz_studio::palette::{
    execute_command, file_hits, file_score, fuzzy_match_score, get_all_commands, get_result_count, parse_query,
    rank_by_score, search_commands, selected_action, unified_results, FileResult, PaletteAction, PaletteMode,
    PaletteState, Scored, SearchResult,
};
use soyuz_studio::workbench::AppState;
use soyuz_studio::palette::{relative_display, search_name, skipped_in_search};

fn file(path: &str, score: i32) -> FileResult {
    FileResult {
        path: path.to_string(),
        name: path.rsplit('/').next().unwrap_or(path).to_string(),
        relative_path: path.trim_start_matches('/').to_string(),
        score,
    }
}

fn scores(results: &[SearchResult]) -> Vec<i32> {
    results.iter().map(|r| r.score()).collect()
}

#[test]
fn query_prefixes_select_the_mode() {
    assert_eq!(parse_query(":42"), (PaletteMode::GoToLine, "42".to_string()));
    assert_eq!(parse_query("%  needle "), (PaletteMode::TextSearch, "needle".to_string()));
    assert_eq!(parse_query("#x"), (PaletteMode::TextSearch, "x".to_string()));
    assert_eq!(parse_query("@sym"), (PaletteMode::Symbols, "sym".to_string()));
    assert_eq!(parse_query("  save "), (PaletteMode::Unified, "save".to_string()));
    assert_eq!(parse_query(""), (PaletteMode::Unified, String::new()));
    assert_eq!(PaletteMode::default(), PaletteMode::Unified);
}

#[test]
fn fuzzy_scores_rank_exact_prefix_and_substring_matches() {
    assert_eq!(fuzzy_match_score("", "anything", 7), 50);
    assert_eq!(fuzzy_match_score("SAVE", "save", 7), 100);
    assert_eq!(fuzzy_match_score("sav", "Save As", 7), 95);
    assert_eq!(fuzzy_match_score("as", "Save As", 7), 80);
    assert_eq!(fuzzy_match_score("xyz", "Save As", 61), 61);
}

#[test]
fn command_search_keeps_the_commands_reaching_the_threshold() {
    let all = get_all_commands();
    assert_eq!(all.len(), 27);
    assert_eq!(all[0].id, "file.new");
    assert_eq!(all[26].label, "About Soyuz Studio");

    let none = vec![(0, 0, 0); all.len()];
    let hits = search_commands("save", &none);
    let ids: Vec<(&str, i32)> = hits.iter().map(|(c, s)| (c.id, *s)).collect();
    assert_eq!(ids, vec![("file.save", 100), ("file.saveAs", 95)]);

    let everything = search_commands("", &none);
    assert_eq!(everything.len(), 27);
    assert!(everything.iter().all(|(_, s)| *s == 50));

    // A similarity alone can carry a command over the threshold.
    let mut sims = none.clone();
    sims[14] = (70, 0, 0);
    let typo = search_commands("gto lien", &sims);
    assert_eq!(typo.len(), 1);
    assert_eq!(typo[0].0.id, "view.goToLine");
    assert_eq!(typo[0].1, 70);
}

#[test]
fn ranking_is_descending_stable_and_limited() {
    let ranked = rank_by_score(vec![file("/a", 60), file("/b", 90), file("/c", 60), file("/d", 95)], 3);
    let paths: Vec<&str> = ranked.iter().map(|f| f.path.as_str()).collect();
    assert_eq!(paths, vec!["/d", "/b", "/a"]);
    assert!(rank_by_score(Vec::<FileResult>::new(), 5).is_empty());
}

#[test]
fn file_hits_filter_sort_and_limit() {
    let files: Vec<FileResult> = (0..40).map(|i| file(&format!("/f{}", i), 56 + i)).collect();
    let hits = file_hits("q", files);
    assert_eq!(hits.len(), 30);
    assert_eq!(hits[0].score, 95);
    assert_eq!(hits[29].score, 66);

    let low = file_hits("q", vec![file("/x", 54), file("/y", 55)]);
    assert_eq!(low.len(), 1);
    assert_eq!(low[0].path, "/y");
    let empty_query = file_hits("", vec![file("/x", 50), file("/y", 49)]);
    assert_eq!(empty_query.len(), 1);

    assert_eq!(file_score("main", "main.rhai", "src/main.rhai", 0, 0), 95);
    assert_eq!(file_score("src", "main.rhai", "src/main.rhai", 0, 0), 95);
    assert_eq!(file_score("zz", "main.rhai", "src/main.rhai", 10, 57), 57);
}

#[test]
fn unified_results_put_commands_first_among_equal_scores() {
    let cmds = get_all_commands();
    let commands = vec![(cmds[2], 80), (cmds[3], 95)];
    let files = vec![file("/a.rhai", 80), file("/b.rhai", 100)];
    let results = unified_results(commands, files);
    assert_eq!(scores(&results), vec![100, 95, 80, 80]);
    assert!(matches!(&results[2], SearchResult::Command { cmd, .. } if cmd.id == "file.save"));
    assert!(matches!(&results[3], SearchResult::File(f) if f.path == "/a.rhai"));

    let many: Vec<FileResult> = (0..60).map(|i| file(&format!("/f{}", i), 60)).collect();
    assert_eq!(unified_results(Vec::new(), many).len(), 50);
}

#[test]
fn selected_entry_turns_into_an_action() {
    let cmds = get_all_commands();
    let mut palette = PaletteState::default();
    assert!(!palette.visible);
    palette.unified_results = vec![SearchResult::File(file("/w/a.rhai", 90)), SearchResult::Command { cmd: cmds[0], score: 80 }];
    assert_eq!(get_result_count(&palette), 2);
    assert!(matches!(selected_action(&palette), Some(PaletteAction::OpenFile(p)) if p == "/w/a.rhai"));
    palette.selected_index = 1;
    assert!(matches!(selected_action(&palette), Some(PaletteAction::RunCommand("file.new"))));
    palette.selected_index = 2;
    assert!(selected_action(&palette).is_none());

    palette.mode = PaletteMode::GoToLine;
    palette.query = "::  12 ".to_string();
    assert_eq!(get_result_count(&palette), 0);
    assert!(matches!(selected_action(&palette), Some(PaletteAction::GoToLine(12))));
    palette.query = ":twelve".to_string();
    assert!(selected_action(&palette).is_none());
    palette.mode = PaletteMode::Symbols;
    assert!(selected_action(&palette).is_none());
}

#[test]
fn commands_act_on_the_state() {
    let mut state = AppState::new();
    execute_command("file.new", &mut state);
    assert_eq!(state.all_tabs().len(), 1);
    assert!(state.active_tab().map(|t| t.path.is_none()).unwrap_or(false));

    state.open_folder("/ws".to_string());
    execute_command("file.closeFolder", &mut state);
    assert!(state.workspace.is_none());

    execute_command("help.cookbook", &mut state);
    assert_eq!(state.active_tab().and_then(|t| t.markdown_doc()), Some(MarkdownDoc::Cookbook));

    let tabs = state.all_tabs().len();
    execute_command("window.new", &mut state);
    assert_eq!(state.all_tabs().len(), tabs);
}

#[test]
fn workspace_search_skips_and_relative_paths() {
    assert!(skipped_in_search(".git"));
    assert!(skipped_in_search("node_modules"));
    assert!(skipped_in_search("target"));
    assert!(!skipped_in_search("targets"));
    assert_eq!(search_name("/ws/src/main.rhai"), "main.rhai");
    assert_eq!(search_name("/"), "");
    assert_eq!(relative_display("/ws/src/main.rhai", "/ws"), "src/main.rhai");
    assert_eq!(relative_display("/other/x.rhai", "/ws"), "/other/x.rhai");
}

#[test]
fn arrow_keys_wrap_around_the_results() {
    let cmds = get_all_commands();
    let mut palette = PaletteState::default();
    palette.select_next();
    assert_eq!(palette.selected_index, 0);
    palette.unified_results = vec![
        SearchResult::Command { cmd: cmds[0], score: 90 },
        SearchResult::Command { cmd: cmds[1], score: 80 },
        SearchResult::Command { cmd: cmds[2], score: 70 },
    ];
    palette.select_next();
    assert_eq!(palette.selected_index, 1);
    palette.select_next();
    palette.select_next();
    assert_eq!(palette.selected_index, 0);
    palette.select_previous();
    assert_eq!(palette.selected_index, 2);
    palette.select_previous();
    assert_eq!(palette.selected_index, 1);
    palette.visible = true;
    palette.query = "abc".to_string();
    palette.dismiss();
    assert!(!palette.visible);
    assert!(palette.query.is_empty());
    assert_eq!(palette.selected_index, 1);
    palette.close();
    assert_eq!(palette.selected_index, 0);
    palette.mode = PaletteMode::GoToLine;
    palette.select_next();
    assert_eq!(palette.selected_index, 0);
}
