//! Application commands: what each stable command id asks the studio to do.
use crate::palette::{PaletteMode, PaletteState};
use crate::text::str_eq;
use vstd::prelude::*;

verus! {

/// What an application command asks for.
#[derive(Clone, Copy, Debug, PartialEq, Eq)]
pub enum AppAction {
    /// Open a new untitled tab.
    NewTab,
    /// Ask for a script file to open.
    OpenFileDialog,
    /// Ask for a folder to open as the workspace.
    OpenFolderDialog,
    /// Save the current file (asking for a path when it has none).
    Save,
    /// Save the current file under a new path.
    SaveAs,
    /// Close the workspace folder.
    CloseFolder,
    /// Start another studio window.
    NewWindow,
    /// Undo in the active tab.
    Undo,
    /// Redo in the active tab.
    Redo,
    /// Run a document editing command (cut, copy, paste, select all).
    DocumentCommand(&'static str),
    /// Open the unified command palette.
    OpenPalette,
    /// Open the palette in go-to-line mode.
    GoToLine,
    /// Open the Settings tab.
    OpenSettings,
    /// Run the docked preview.
    RunPreview,
    /// Pop the preview out into a window.
    PopOutPreview,
    /// Stop the preview.
    StopPreview,
    /// Open the export panel.
    OpenExportPanel,
    /// Show or hide the terminal.
    ToggleTerminal,
    /// Clear the terminal.
    ClearTerminal,
    /// Open the documentation.
    OpenDocumentation,
    /// Open the Cookbook.
    OpenCookbook,
    /// Open the README.
    OpenReadme,
    /// Show the About dialog.
    OpenAbout,
    /// A command without an action yet (a warning is logged).
    NotImplemented,
}

/// The mathematical value of an action.
pub enum ActionView {
    NewTab,
    OpenFileDialog,
    OpenFolderDialog,
    Save,
    SaveAs,
    CloseFolder,
    NewWindow,
    Undo,
    Redo,
    DocumentCommand(Seq<char>),
    OpenPalette,
    GoToLine,
    OpenSettings,
    RunPreview,
    PopOutPreview,
    StopPreview,
    OpenExportPanel,
    ToggleTerminal,
    ClearTerminal,
    OpenDocumentation,
    OpenCookbook,
    OpenReadme,
    OpenAbout,
    NotImplemented,
}

impl View for AppAction {
    type V = ActionView;

    open spec fn view(&self) -> ActionView {
        match *self {
            AppAction::NewTab => ActionView::NewTab,
            AppAction::OpenFileDialog => ActionView::OpenFileDialog,
            AppAction::OpenFolderDialog => ActionView::OpenFolderDialog,
            AppAction::Save => ActionView::Save,
            AppAction::SaveAs => ActionView::SaveAs,
            AppAction::CloseFolder => ActionView::CloseFolder,
            AppAction::NewWindow => ActionView::NewWindow,
            AppAction::Undo => ActionView::Undo,
            AppAction::Redo => ActionView::Redo,
            AppAction::OpenPalette => ActionView::OpenPalette,
            AppAction::GoToLine => ActionView::GoToLine,
            AppAction::OpenSettings => ActionView::OpenSettings,
            AppAction::RunPreview => ActionView::RunPreview,
            AppAction::PopOutPreview => ActionView::PopOutPreview,
            AppAction::StopPreview => ActionView::StopPreview,
            AppAction::OpenExportPanel => ActionView::OpenExportPanel,
            AppAction::ToggleTerminal => ActionView::ToggleTerminal,
            AppAction::ClearTerminal => ActionView::ClearTerminal,
            AppAction::OpenDocumentation => ActionView::OpenDocumentation,
            AppAction::OpenCookbook => ActionView::OpenCookbook,
            AppAction::OpenReadme => ActionView::OpenReadme,
            AppAction::OpenAbout => ActionView::OpenAbout,
            AppAction::NotImplemented => ActionView::NotImplemented,
            AppAction::DocumentCommand(c) => ActionView::DocumentCommand(c@),
        }
    }
}

/// The action of the command with id `id`.
pub open spec fn command_action(id: Seq<char>) -> ActionView {
    if id == "file.new"@ {
        ActionView::NewTab
    } else if id == "file.open"@ {
        ActionView::OpenFileDialog
    } else if id == "file.openFolder"@ {
        ActionView::OpenFolderDialog
    } else if id == "file.save"@ {
        ActionView::Save
    } else if id == "file.saveAs"@ {
        ActionView::SaveAs
    } else if id == "file.closeFolder"@ {
        ActionView::CloseFolder
    } else if id == "window.new"@ {
        ActionView::NewWindow
    } else if id == "edit.undo"@ {
        ActionView::Undo
    } else if id == "edit.redo"@ {
        ActionView::Redo
    } else if id == "edit.cut"@ {
        ActionView::DocumentCommand("cut"@)
    } else if id == "edit.copy"@ {
        ActionView::DocumentCommand("copy"@)
    } else if id == "edit.paste"@ {
        ActionView::DocumentCommand("paste"@)
    } else if id == "edit.selectAll"@ {
        ActionView::DocumentCommand("selectAll"@)
    } else if id == "view.commandPalette"@ || id == "view.goToFile"@ {
        ActionView::OpenPalette
    } else if id == "view.goToLine"@ {
        ActionView::GoToLine
    } else if id == "view.settings"@ {
        ActionView::OpenSettings
    } else if id == "preview.run"@ {
        ActionView::RunPreview
    } else if id == "preview.popOut"@ {
        ActionView::PopOutPreview
    } else if id == "preview.stop"@ {
        ActionView::StopPreview
    } else if id == "export.obj"@ || id == "export.stl"@ || id == "export.gltf"@ || id == "export.open"@ {
        ActionView::OpenExportPanel
    } else if id == "terminal.toggle"@ {
        ActionView::ToggleTerminal
    } else if id == "terminal.clear"@ {
        ActionView::ClearTerminal
    } else if id == "help.documentation"@ {
        ActionView::OpenDocumentation
    } else if id == "help.cookbook"@ {
        ActionView::OpenCookbook
    } else if id == "help.readme"@ {
        ActionView::OpenReadme
    } else if id == "help.about"@ {
        ActionView::OpenAbout
    } else {
        ActionView::NotImplemented
    }
}

/// The command ids that come before the undo and redo ids in the table,
/// told apart from them: their lengths, and a character where the lengths
/// agree.
proof fn lemma_edit_ids_distinct()
    ensures
        "edit.undo"@.len() == 9 && "edit.undo"@[0] == 'e' && "edit.undo"@[5] == 'u',
        "edit.redo"@.len() == 9 && "edit.redo"@[0] == 'e' && "edit.redo"@[5] == 'r',
        "file.new"@.len() == 8,
        "file.open"@.len() == 9 && "file.open"@[0] == 'f',
        "file.openFolder"@.len() == 15,
        "file.save"@.len() == 9 && "file.save"@[0] == 'f',
        "file.saveAs"@.len() == 11,
        "file.closeFolder"@.len() == 16,
        "window.new"@.len() == 10,
{
    reveal_strlit("edit.undo");
    reveal_strlit("edit.redo");
    reveal_strlit("file.new");
    reveal_strlit("file.open");
    reveal_strlit("file.openFolder");
    reveal_strlit("file.save");
    reveal_strlit("file.saveAs");
    reveal_strlit("file.closeFolder");
    reveal_strlit("window.new");
}

/// Undo and redo are reached by their own ids and no others: a command's
/// action is Undo exactly when its id is `edit.undo`, and Redo exactly when
/// its id is `edit.redo`.
pub proof fn lemma_undo_redo_ids(id: Seq<char>)
    ensures
        command_action(id) is Undo <==> id == "edit.undo"@,
        command_action(id) is Redo <==> id == "edit.redo"@,
{
    lemma_edit_ids_distinct();
}

/// The action of an application command by its stable id (the command
/// palette and the menu route through this, so they agree).
pub fn app_command_action(id: &str) -> (r: AppAction)
    ensures
        r@ == command_action(id@),
{
    if str_eq(id, "file.new") {
        AppAction::NewTab
    } else if str_eq(id, "file.open") {
        AppAction::OpenFileDialog
    } else if str_eq(id, "file.openFolder") {
        AppAction::OpenFolderDialog
    } else if str_eq(id, "file.save") {
        AppAction::Save
    } else if str_eq(id, "file.saveAs") {
        AppAction::SaveAs
    } else if str_eq(id, "file.closeFolder") {
        AppAction::CloseFolder
    } else if str_eq(id, "window.new") {
        AppAction::NewWindow
    } else if str_eq(id, "edit.undo") {
        AppAction::Undo
    } else if str_eq(id, "edit.redo") {
        AppAction::Redo
    } else if str_eq(id, "edit.cut") {
        AppAction::DocumentCommand("cut")
    } else if str_eq(id, "edit.copy") {
        AppAction::DocumentCommand("copy")
    } else if str_eq(id, "edit.paste") {
        AppAction::DocumentCommand("paste")
    } else if str_eq(id, "edit.selectAll") {
        AppAction::DocumentCommand("selectAll")
    } else if str_eq(id, "view.commandPalette") || str_eq(id, "view.goToFile") {
        AppAction::OpenPalette
    } else if str_eq(id, "view.goToLine") {
        AppAction::GoToLine
    } else if str_eq(id, "view.settings") {
        AppAction::OpenSettings
    } else if str_eq(id, "preview.run") {
        AppAction::RunPreview
    } else if str_eq(id, "preview.popOut") {
        AppAction::PopOutPreview
    } else if str_eq(id, "preview.stop") {
        AppAction::StopPreview
    } else if str_eq(id, "export.obj") || str_eq(id, "export.stl") || str_eq(id, "export.gltf") || str_eq(id, "export.open") {
        AppAction::OpenExportPanel
    } else if str_eq(id, "terminal.toggle") {
        AppAction::ToggleTerminal
    } else if str_eq(id, "terminal.clear") {
        AppAction::ClearTerminal
    } else if str_eq(id, "help.documentation") {
        AppAction::OpenDocumentation
    } else if str_eq(id, "help.cookbook") {
        AppAction::OpenCookbook
    } else if str_eq(id, "help.readme") {
        AppAction::OpenReadme
    } else if str_eq(id, "help.about") {
        AppAction::OpenAbout
    } else {
        AppAction::NotImplemented
    }
}

/// The entry after `sel` among `n`, wrapping to the first (`sel` itself
/// without entries).
pub open spec fn next_entry(sel: usize, n: nat) -> usize {
    if n > 0 {
        ((sel + 1) % (n as int)) as usize
    } else {
        sel
    }
}

/// The entry before `sel` among `n`, wrapping to the last (`sel` itself
/// without entries).
pub open spec fn previous_entry(sel: usize, n: nat) -> usize {
    if n > 0 {
        if sel == 0 { (n - 1) as usize } else { (sel - 1) as usize }
    } else {
        sel
    }
}

/// Arrow down then arrow up, or up then down, comes back to the selected
/// entry.
pub proof fn lemma_arrows_undo_each_other(sel: usize, n: nat)
    requires
        sel < n,
        n <= usize::MAX,
    ensures
        previous_entry(next_entry(sel, n), n) == sel,
        next_entry(previous_entry(sel, n), n) == sel,
{
    if sel + 1 < n {
        vstd::arithmetic::div_mod::lemma_small_mod((sel + 1) as nat, n);
    } else {
        vstd::arithmetic::div_mod::lemma_mod_self_0(n as int);
    }
    if sel == 0 {
        vstd::arithmetic::div_mod::lemma_mod_self_0(n as int);
    } else {
        vstd::arithmetic::div_mod::lemma_small_mod(sel as nat, n);
    }
}

impl PaletteState {
    /// Show the unified palette with `query` and the first entry selected
    /// (the caller runs the search and stores its results).
    pub fn open_unified(&mut self, query: String)
        ensures
            final(self).visible,
            final(self).query == query,
            final(self).mode == PaletteMode::Unified,
            final(self).selected_index == 0,
            final(self).unified_results == old(self).unified_results,
    {
        self.visible = true;
        self.query = query;
        self.mode = PaletteMode::Unified;
        self.selected_index = 0;
    }

    /// The number of entries the arrow keys move through.
    pub open spec fn entry_count(self) -> nat {
        if self.mode == PaletteMode::Unified { self.unified_results@.len() } else { 0 }
    }

    /// Arrow down: select the next entry, wrapping to the first (nothing
    /// happens without entries).
    pub fn select_next(&mut self)
        ensures
            final(self).selected_index == next_entry(old(self).selected_index, old(self).entry_count()),
            final(self).visible == old(self).visible,
            final(self).query == old(self).query,
            final(self).mode == old(self).mode,
            final(self).unified_results == old(self).unified_results,
    {
        let count = crate::palette::get_result_count(self);
        if count > 0 {
            let current = self.selected_index;
            let reduced = current % count;
            self.selected_index = if reduced + 1 == count { 0 } else { reduced + 1 };
            proof {
                let m = count as int;
                vstd::arithmetic::div_mod::lemma_add_mod_noop(current as int, 1, m);
                vstd::arithmetic::div_mod::lemma_mod_bound(current as int, m);
                if m == 1 {
                    vstd::arithmetic::div_mod::lemma_mod_self_0(1);
                    vstd::arithmetic::div_mod::lemma_mod_bound(current + 1, m);
                } else {
                    vstd::arithmetic::div_mod::lemma_small_mod(1, count as nat);
                    if reduced + 1 < count {
                        vstd::arithmetic::div_mod::lemma_small_mod((reduced + 1) as nat, count as nat);
                    } else {
                        vstd::arithmetic::div_mod::lemma_mod_self_0(m);
                    }
                }
            }
        }
    }

    /// Arrow up: select the previous entry, wrapping to the last (nothing
    /// happens without entries).
    pub fn select_previous(&mut self)
        ensures
            final(self).selected_index == previous_entry(old(self).selected_index, old(self).entry_count()),
            final(self).visible == old(self).visible,
            final(self).query == old(self).query,
            final(self).mode == old(self).mode,
            final(self).unified_results == old(self).unified_results,
    {
        let count = crate::palette::get_result_count(self);
        if count > 0 {
            self.selected_index = if self.selected_index == 0 { count - 1 } else { self.selected_index - 1 };
        }
    }

    /// Escape: hide the palette and clear its query.
    pub fn dismiss(&mut self)
        ensures
            !final(self).visible,
            final(self).query@.len() == 0,
            final(self).selected_index == old(self).selected_index,
            final(self).mode == old(self).mode,
            final(self).unified_results == old(self).unified_results,
    {
        self.visible = false;
        self.query = String::new();
    }

    /// After running the selected entry, or on the close button: hide the
    /// palette, clear its query and select the first entry.
    pub fn close(&mut self)
        ensures
            !final(self).visible,
            final(self).query@.len() == 0,
            final(self).selected_index == 0,
            final(self).mode == old(self).mode,
            final(self).unified_results == old(self).unified_results,
    {
        self.visible = false;
        self.query = String::new();
        self.selected_index = 0;
    }

    /// Show the palette in go-to-line mode, with the query `:`.
    pub fn open_go_to_line(&mut self)
        ensures
            final(self).visible,
            final(self).query@ == ":"@,
            final(self).mode == PaletteMode::GoToLine,
            final(self).selected_index == 0,
            final(self).unified_results == old(self).unified_results,
    {
        self.visible = true;
        self.query = ":".to_string();
        self.mode = PaletteMode::GoToLine;
        self.selected_index = 0;
    }
}

} // verus!
