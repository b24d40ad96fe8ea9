//! User preferences and the metadata the settings panel is built from.
use vstd::prelude::*;

verus! {

/// Current settings schema version.
pub const SETTINGS_VERSION: u32 = 1;

/// Name of the default color theme.
pub open spec fn default_theme() -> Seq<char> {
    "soyuz-graphite"@
}

/// Auto-save behavior for the editor.
#[derive(Clone, Copy, Debug, PartialEq, Eq, Structural)]
pub enum AutoSave {
    /// Auto-save disabled
    Off,
    /// Auto-save after a delay (in seconds)
    AfterDelay(u32),
}

impl AutoSave {
    /// Auto-save interval in seconds, or `None` when auto-save is disabled.
    pub fn interval_secs(&self) -> (r: Option<u32>)
        ensures
            r == (match *self {
                AutoSave::Off => None,
                AutoSave::AfterDelay(secs) => Some(secs),
            }),
    {
        match self {
            AutoSave::Off => None,
            AutoSave::AfterDelay(secs) => Some(*secs),
        }
    }
}

/// Mesh export formats.
#[derive(Clone, Copy, Debug, PartialEq, Eq, Structural)]
pub enum ExportFormat {
    Glb,
    Gltf,
    Obj,
    Stl,
}

impl ExportFormat {
    /// The file extension of the format.
    pub open spec fn spec_extension(self) -> Seq<char> {
        match self {
            ExportFormat::Glb => "glb"@,
            ExportFormat::Gltf => "gltf"@,
            ExportFormat::Obj => "obj"@,
            ExportFormat::Stl => "stl"@,
        }
    }

    /// The file extension of the format (without the dot).
    pub fn extension(self) -> (r: &'static str)
        ensures
            r@ == self.spec_extension(),
    {
        match self {
            ExportFormat::Glb => "glb",
            ExportFormat::Gltf => "gltf",
            ExportFormat::Obj => "obj",
            ExportFormat::Stl => "stl",
        }
    }
}

/// Application settings that persist across sessions.
#[derive(Clone, Debug)]
pub struct Settings {
    /// Settings schema version, for future migrations
    pub version: u32,
    /// Font family for the editor
    pub font_family: String,
    /// Font size in pixels
    pub font_size: u32,
    /// Number of spaces per tab
    pub tab_size: u32,
    /// Whether to wrap long lines
    pub word_wrap: bool,
    /// Whether to show line numbers
    pub line_numbers: bool,
    /// Auto-save behavior
    pub auto_save: AutoSave,
    /// Current theme name
    pub theme: String,
    /// Default export format
    pub export_format: ExportFormat,
    /// Default mesh resolution
    pub export_resolution: u32,
    /// Whether to optimize mesh by default
    pub export_optimize: bool,
    /// Whether to close export window after exporting
    pub export_close_after: bool,
    /// Whether to restore session on startup
    pub restore_session: bool,
    /// Whether to remember last workspace
    pub remember_workspace: bool,
    /// Maximum number of recent files to keep
    pub recent_files_limit: usize,
    /// Maximum number of undo steps per tab
    pub undo_history_limit: usize,
    /// Timezone offset from UTC in hours (-12 to +14)
    pub timezone_offset: i8,
    /// Whether to use 24-hour time format (false = 12-hour with AM/PM)
    pub time_format_24h: bool,
}

impl Settings {
    /// Whether every setting has its default value.
    pub open spec fn is_default(self) -> bool {
        &&& self.version == SETTINGS_VERSION
        &&& self.font_family@ == "monospace"@
        &&& self.font_size == 14
        &&& self.tab_size == 4
        &&& !self.word_wrap
        &&& self.line_numbers
        &&& self.auto_save == AutoSave::Off
        &&& self.theme@ == default_theme()
        &&& self.export_format == ExportFormat::Glb
        &&& self.export_resolution == 128
        &&& !self.export_optimize
        &&& self.export_close_after
        &&& self.restore_session
        &&& self.remember_workspace
        &&& self.recent_files_limit == 20
        &&& self.undo_history_limit == 100
        &&& self.timezone_offset == 0
        &&& self.time_format_24h
    }
}

impl Default for Settings {
    fn default() -> (s: Self)
        ensures
            s.is_default(),
    {
        Settings {
            version: SETTINGS_VERSION,
            font_family: "monospace".to_string(),
            font_size: 14,
            tab_size: 4,
            word_wrap: false,
            line_numbers: true,
            auto_save: AutoSave::Off,
            theme: "soyuz-graphite".to_string(),
            export_format: ExportFormat::Glb,
            export_resolution: 128,
            export_optimize: false,
            export_close_after: true,
            restore_session: true,
            remember_workspace: true,
            recent_files_limit: 20,
            undo_history_limit: 100,
            timezone_offset: 0,
            time_format_24h: true,
        }
    }
}

/// Bring loaded settings up to date: the legacy "Dark" theme name maps to the
/// default theme; everything else is kept.
pub fn normalize_settings(settings: Settings) -> (r: Settings)
    ensures
        r.theme@ == (if settings.theme@ == "Dark"@ { default_theme() } else { settings.theme@ }),
        r.font_family == settings.font_family,
        r.version == settings.version,
        r.font_size == settings.font_size,
        r.tab_size == settings.tab_size,
        r.word_wrap == settings.word_wrap,
        r.line_numbers == settings.line_numbers,
        r.auto_save == settings.auto_save,
        r.export_format == settings.export_format,
        r.export_resolution == settings.export_resolution,
        r.export_optimize == settings.export_optimize,
        r.export_close_after == settings.export_close_after,
        r.restore_session == settings.restore_session,
        r.remember_workspace == settings.remember_workspace,
        r.recent_files_limit == settings.recent_files_limit,
        r.undo_history_limit == settings.undo_history_limit,
        r.timezone_offset == settings.timezone_offset,
        r.time_format_24h == settings.time_format_24h,
{
    let mut settings = settings;
    if crate::text::str_eq(settings.theme.as_str(), "Dark") {
        settings.theme = "soyuz-graphite".to_string();
    }
    settings
}

/// Export settings for mesh generation.
#[derive(Clone, Debug)]
pub struct ExportSettings {
    /// Output format
    pub format: ExportFormat,
    /// Mesh resolution
    pub resolution: u32,
    /// Whether to optimize mesh
    pub optimize: bool,
    /// Last used export directory (remembered across sessions)
    pub last_export_dir: Option<String>,
    /// Whether to close the export window after exporting
    pub close_after_export: bool,
}

impl Default for ExportSettings {
    fn default() -> (s: Self)
        ensures
            s.format == ExportFormat::Glb,
            s.resolution == 128,
            !s.optimize,
            s.last_export_dir is None,
            s.close_after_export,
    {
        ExportSettings { format: ExportFormat::Glb, resolution: 128, optimize: false, last_export_dir: None, close_after_export: true }
    }
}

/// Categories for organizing settings in the UI.
#[derive(Clone, Copy, Debug, PartialEq, Eq, Structural)]
pub enum SettingCategory {
    Editor,
    Theme,
    Export,
    Application,
}

impl SettingCategory {
    /// Display name of the category.
    pub open spec fn spec_label(self) -> Seq<char> {
        match self {
            SettingCategory::Editor => "Editor"@,
            SettingCategory::Theme => "Theme"@,
            SettingCategory::Export => "Export"@,
            SettingCategory::Application => "Application"@,
        }
    }

    /// Get the display name for the category.
    pub fn label(self) -> (r: &'static str)
        ensures
            r@ == self.spec_label(),
    {
        match self {
            SettingCategory::Editor => "Editor",
            SettingCategory::Theme => "Theme",
            SettingCategory::Export => "Export",
            SettingCategory::Application => "Application",
        }
    }

    /// Get all categories in display order.
    pub fn all() -> (r: &'static [SettingCategory])
        ensures
            r@ == seq![SettingCategory::Editor, SettingCategory::Theme, SettingCategory::Export, SettingCategory::Application],
    {
        let r: &'static [SettingCategory] = &[SettingCategory::Editor, SettingCategory::Theme, SettingCategory::Export, SettingCategory::Application];
        assert(r@ =~= seq![SettingCategory::Editor, SettingCategory::Theme, SettingCategory::Export, SettingCategory::Application]);
        r
    }
}


/// Type of control to render for a setting.
#[derive(Clone, Debug, PartialEq)]
pub enum ControlType {
    Text,
    Number { min: u32, max: u32 },
    Checkbox,
    Dropdown { options: Vec<(&'static str, &'static str)> },
}

/// The mathematical value of a control: a dropdown's options as (value, label) texts.
pub enum ControlView {
    Text,
    Number { min: u32, max: u32 },
    Checkbox,
    Dropdown { options: Seq<(Seq<char>, Seq<char>)> },
}

/// The views of dropdown options.
pub open spec fn option_views(v: Seq<(&'static str, &'static str)>) -> Seq<(Seq<char>, Seq<char>)> {
    v.map_values(|p: (&'static str, &'static str)| (p.0@, p.1@))
}

impl View for ControlType {
    type V = ControlView;

    open spec fn view(&self) -> ControlView {
        match self {
            ControlType::Text => ControlView::Text,
            ControlType::Number { min, max } => ControlView::Number { min: *min, max: *max },
            ControlType::Checkbox => ControlView::Checkbox,
            ControlType::Dropdown { options } => ControlView::Dropdown { options: option_views(options@) },
        }
    }
}

/// Setting metadata for the UI.
pub struct SettingMeta {
    /// Unique identifier for the setting
    pub id: &'static str,
    /// Display label
    pub label: &'static str,
    /// Description shown below the setting
    pub description: &'static str,
    /// Category this setting belongs to
    pub category: SettingCategory,
    /// Type of control to render
    pub control_type: ControlType,
}

/// The mathematical value of a setting's metadata.
pub struct SettingMetaView {
    pub id: Seq<char>,
    pub label: Seq<char>,
    pub description: Seq<char>,
    pub category: SettingCategory,
    pub control: ControlView,
}

impl View for SettingMeta {
    type V = SettingMetaView;

    open spec fn view(&self) -> SettingMetaView {
        SettingMetaView {
            id: self.id@,
            label: self.label@,
            description: self.description@,
            category: self.category,
            control: self.control_type@,
        }
    }
}

/// The views of a sequence of setting metadata.
pub open spec fn meta_views(v: Seq<SettingMeta>) -> Seq<SettingMetaView> {
    v.map_values(|m: SettingMeta| m@)
}

/// The options of the `auto_save` dropdown, as (value, label).
pub open spec fn auto_save_options() -> Seq<(Seq<char>, Seq<char>)> {
    seq![
        ("off"@, "Off"@),
        ("5"@, "After 5 seconds"@),
        ("10"@, "After 10 seconds"@),
        ("30"@, "After 30 seconds"@),
        ("60"@, "After 1 minute"@),
    ]
}

/// The options of the `auto_save` dropdown.
fn auto_save_option_list() -> (r: Vec<(&'static str, &'static str)>)
    ensures
        option_views(r@) == auto_save_options(),
{
    let mut v: Vec<(&'static str, &'static str)> = Vec::new();
    v.push(("off", "Off"));
    v.push(("5", "After 5 seconds"));
    v.push(("10", "After 10 seconds"));
    v.push(("30", "After 30 seconds"));
    v.push(("60", "After 1 minute"));
    assert(option_views(v@) =~= auto_save_options());
    v
}

/// The options of the `theme` dropdown, as (value, label).
pub open spec fn theme_options() -> Seq<(Seq<char>, Seq<char>)> {
    seq![
        ("soyuz-graphite"@, "Soyuz Graphite"@),
    ]
}

/// The options of the `theme` dropdown.
fn theme_option_list() -> (r: Vec<(&'static str, &'static str)>)
    ensures
        option_views(r@) == theme_options(),
{
    let mut v: Vec<(&'static str, &'static str)> = Vec::new();
    v.push(("soyuz-graphite", "Soyuz Graphite"));
    assert(option_views(v@) =~= theme_options());
    v
}

/// The options of the `export_format` dropdown, as (value, label).
pub open spec fn export_format_options() -> Seq<(Seq<char>, Seq<char>)> {
    seq![
        ("glb"@, "GLB (Binary glTF)"@),
        ("gltf"@, "glTF (JSON + Binary)"@),
        ("obj"@, "OBJ (Wavefront)"@),
        ("stl"@, "STL (Stereolithography)"@),
    ]
}

/// The options of the `export_format` dropdown.
fn export_format_option_list() -> (r: Vec<(&'static str, &'static str)>)
    ensures
        option_views(r@) == export_format_options(),
{
    let mut v: Vec<(&'static str, &'static str)> = Vec::new();
    v.push(("glb", "GLB (Binary glTF)"));
    v.push(("gltf", "glTF (JSON + Binary)"));
    v.push(("obj", "OBJ (Wavefront)"));
    v.push(("stl", "STL (Stereolithography)"));
    assert(option_views(v@) =~= export_format_options());
    v
}

/// The options of the `timezone` dropdown, as (value, label).
pub open spec fn timezone_options() -> Seq<(Seq<char>, Seq<char>)> {
    seq![
        ("-12"@, "UTC-12"@),
        ("-11"@, "UTC-11"@),
        ("-10"@, "UTC-10 (Hawaii)"@),
        ("-9"@, "UTC-9 (Alaska)"@),
        ("-8"@, "UTC-8 (Pacific)"@),
        ("-7"@, "UTC-7 (Mountain)"@),
        ("-6"@, "UTC-6 (Central)"@),
        ("-5"@, "UTC-5 (Eastern)"@),
        ("-4"@, "UTC-4 (Atlantic)"@),
        ("-3"@, "UTC-3"@),
        ("-2"@, "UTC-2"@),
        ("-1"@, "UTC-1"@),
        ("0"@, "UTC+0 (GMT)"@),
        ("1"@, "UTC+1 (CET)"@),
        ("2"@, "UTC+2 (EET)"@),
        ("3"@, "UTC+3 (Moscow)"@),
        ("4"@, "UTC+4"@),
        ("5"@, "UTC+5"@),
        ("6"@, "UTC+6"@),
        ("7"@, "UTC+7"@),
        ("8"@, "UTC+8 (China)"@),
        ("9"@, "UTC+9 (Japan)"@),
        ("10"@, "UTC+10 (Sydney)"@),
        ("11"@, "UTC+11"@),
        ("12"@, "UTC+12 (NZ)"@),
        ("13"@, "UTC+13"@),
        ("14"@, "UTC+14"@),
    ]
}

/// The options of the `timezone` dropdown.
fn timezone_option_list() -> (r: Vec<(&'static str, &'static str)>)
    ensures
        option_views(r@) == timezone_options(),
{
    let mut v: Vec<(&'static str, &'static str)> = Vec::new();
    v.push(("-12", "UTC-12"));
    v.push(("-11", "UTC-11"));
    v.push(("-10", "UTC-10 (Hawaii)"));
    v.push(("-9", "UTC-9 (Alaska)"));
    v.push(("-8", "UTC-8 (Pacific)"));
    v.push(("-7", "UTC-7 (Mountain)"));
    v.push(("-6", "UTC-6 (Central)"));
    v.push(("-5", "UTC-5 (Eastern)"));
    v.push(("-4", "UTC-4 (Atlantic)"));
    v.push(("-3", "UTC-3"));
    v.push(("-2", "UTC-2"));
    v.push(("-1", "UTC-1"));
    v.push(("0", "UTC+0 (GMT)"));
    v.push(("1", "UTC+1 (CET)"));
    v.push(("2", "UTC+2 (EET)"));
    v.push(("3", "UTC+3 (Moscow)"));
    v.push(("4", "UTC+4"));
    v.push(("5", "UTC+5"));
    v.push(("6", "UTC+6"));
    v.push(("7", "UTC+7"));
    v.push(("8", "UTC+8 (China)"));
    v.push(("9", "UTC+9 (Japan)"));
    v.push(("10", "UTC+10 (Sydney)"));
    v.push(("11", "UTC+11"));
    v.push(("12", "UTC+12 (NZ)"));
    v.push(("13", "UTC+13"));
    v.push(("14", "UTC+14"));
    assert(option_views(v@) =~= timezone_options());
    v
}

/// The options of the `time_format` dropdown, as (value, label).
pub open spec fn time_format_options() -> Seq<(Seq<char>, Seq<char>)> {
    seq![
        ("true"@, "24-hour (14:30:00)"@),
        ("false"@, "12-hour (2:30:00 PM)"@),
    ]
}

/// The options of the `time_format` dropdown.
fn time_format_option_list() -> (r: Vec<(&'static str, &'static str)>)
    ensures
        option_views(r@) == time_format_options(),
{
    let mut v: Vec<(&'static str, &'static str)> = Vec::new();
    v.push(("true", "24-hour (14:30:00)"));
    v.push(("false", "12-hour (2:30:00 PM)"));
    assert(option_views(v@) =~= time_format_options());
    v
}

/// The metadata of every setting, in the order the settings panel shows them.
pub open spec fn settings_table() -> Seq<SettingMetaView> {
    seq![
        SettingMetaView { id: "font_family"@, label: "Font Family"@, description: "Font family for the code editor"@, category: SettingCategory::Editor, control: ControlView::Text },
        SettingMetaView { id: "font_size"@, label: "Font Size"@, description: "Font size in pixels"@, category: SettingCategory::Editor, control: ControlView::Number { min: 8, max: 32 } },
        SettingMetaView { id: "tab_size"@, label: "Tab Size"@, description: "Number of spaces per tab"@, category: SettingCategory::Editor, control: ControlView::Number { min: 1, max: 8 } },
        SettingMetaView { id: "word_wrap"@, label: "Word Wrap"@, description: "Wrap long lines to fit the editor width"@, category: SettingCategory::Editor, control: ControlView::Checkbox },
        SettingMetaView { id: "line_numbers"@, label: "Line Numbers"@, description: "Show line numbers in the editor gutter"@, category: SettingCategory::Editor, control: ControlView::Checkbox },
        SettingMetaView { id: "auto_save"@, label: "Auto Save"@, description: "Automatically save files after a delay"@, category: SettingCategory::Editor, control: ControlView::Dropdown { options: auto_save_options() } },
        SettingMetaView { id: "theme"@, label: "Color Theme"@, description: "Color theme for the application"@, category: SettingCategory::Theme, control: ControlView::Dropdown { options: theme_options() } },
        SettingMetaView { id: "export_format"@, label: "Default Format"@, description: "Default export format for 3D models"@, category: SettingCategory::Export, control: ControlView::Dropdown { options: export_format_options() } },
        SettingMetaView { id: "export_resolution"@, label: "Default Resolution"@, description: "Default mesh resolution (16-256)"@, category: SettingCategory::Export, control: ControlView::Number { min: 16, max: 256 } },
        SettingMetaView { id: "export_optimize"@, label: "Optimize Mesh"@, description: "Optimize mesh geometry by default"@, category: SettingCategory::Export, control: ControlView::Checkbox },
        SettingMetaView { id: "export_close_after"@, label: "Close After Export"@, description: "Close the export dialog after successful export"@, category: SettingCategory::Export, control: ControlView::Checkbox },
        SettingMetaView { id: "restore_session"@, label: "Restore Session"@, description: "Restore open tabs and layout on startup"@, category: SettingCategory::Application, control: ControlView::Checkbox },
        SettingMetaView { id: "remember_workspace"@, label: "Remember Workspace"@, description: "Reopen the last workspace folder on startup"@, category: SettingCategory::Application, control: ControlView::Checkbox },
        SettingMetaView { id: "recent_files_limit"@, label: "Recent Files Limit"@, description: "Maximum number of recent files to remember"@, category: SettingCategory::Application, control: ControlView::Number { min: 5, max: 50 } },
        SettingMetaView { id: "undo_history_limit"@, label: "Undo History Limit"@, description: "Maximum number of undo steps per tab"@, category: SettingCategory::Application, control: ControlView::Number { min: 10, max: 500 } },
        SettingMetaView { id: "timezone_offset"@, label: "Timezone"@, description: "Timezone offset from UTC for timestamps"@, category: SettingCategory::Application, control: ControlView::Dropdown { options: timezone_options() } },
        SettingMetaView { id: "time_format_24h"@, label: "Time Format"@, description: "Display format for timestamps in the terminal"@, category: SettingCategory::Application, control: ControlView::Dropdown { options: time_format_options() } },
    ]
}

/// Get metadata for all settings (used to build the settings UI).
pub fn all_settings_meta() -> (r: Vec<SettingMeta>)
    ensures
        meta_views(r@) == settings_table(),
{
    let mut v: Vec<SettingMeta> = Vec::new();
    v.push(SettingMeta { id: "font_family", label: "Font Family", description: "Font family for the code editor", category: SettingCategory::Editor, control_type: ControlType::Text });
    v.push(SettingMeta { id: "font_size", label: "Font Size", description: "Font size in pixels", category: SettingCategory::Editor, control_type: ControlType::Number { min: 8, max: 32 } });
    v.push(SettingMeta { id: "tab_size", label: "Tab Size", description: "Number of spaces per tab", category: SettingCategory::Editor, control_type: ControlType::Number { min: 1, max: 8 } });
    v.push(SettingMeta { id: "word_wrap", label: "Word Wrap", description: "Wrap long lines to fit the editor width", category: SettingCategory::Editor, control_type: ControlType::Checkbox });
    v.push(SettingMeta { id: "line_numbers", label: "Line Numbers", description: "Show line numbers in the editor gutter", category: SettingCategory::Editor, control_type: ControlType::Checkbox });
    v.push(SettingMeta { id: "auto_save", label: "Auto Save", description: "Automatically save files after a delay", category: SettingCategory::Editor, control_type: ControlType::Dropdown { options: auto_save_option_list() } });
    v.push(SettingMeta { id: "theme", label: "Color Theme", description: "Color theme for the application", category: SettingCategory::Theme, control_type: ControlType::Dropdown { options: theme_option_list() } });
    v.push(SettingMeta { id: "export_format", label: "Default Format", description: "Default export format for 3D models", category: SettingCategory::Export, control_type: ControlType::Dropdown { options: export_format_option_list() } });
    v.push(SettingMeta { id: "export_resolution", label: "Default Resolution", description: "Default mesh resolution (16-256)", category: SettingCategory::Export, control_type: ControlType::Number { min: 16, max: 256 } });
    v.push(SettingMeta { id: "export_optimize", label: "Optimize Mesh", description: "Optimize mesh geometry by default", category: SettingCategory::Export, control_type: ControlType::Checkbox });
    v.push(SettingMeta { id: "export_close_after", label: "Close After Export", description: "Close the export dialog after successful export", category: SettingCategory::Export, control_type: ControlType::Checkbox });
    v.push(SettingMeta { id: "restore_session", label: "Restore Session", description: "Restore open tabs and layout on startup", category: SettingCategory::Application, control_type: ControlType::Checkbox });
    v.push(SettingMeta { id: "remember_workspace", label: "Remember Workspace", description: "Reopen the last workspace folder on startup", category: SettingCategory::Application, control_type: ControlType::Checkbox });
    v.push(SettingMeta { id: "recent_files_limit", label: "Recent Files Limit", description: "Maximum number of recent files to remember", category: SettingCategory::Application, control_type: ControlType::Number { min: 5, max: 50 } });
    v.push(SettingMeta { id: "undo_history_limit", label: "Undo History Limit", description: "Maximum number of undo steps per tab", category: SettingCategory::Application, control_type: ControlType::Number { min: 10, max: 500 } });
    v.push(SettingMeta { id: "timezone_offset", label: "Timezone", description: "Timezone offset from UTC for timestamps", category: SettingCategory::Application, control_type: ControlType::Dropdown { options: timezone_option_list() } });
    v.push(SettingMeta { id: "time_format_24h", label: "Time Format", description: "Display format for timestamps in the terminal", category: SettingCategory::Application, control_type: ControlType::Dropdown { options: time_format_option_list() } });
    assert(meta_views(v@) =~= settings_table());
    v
}

} // verus!
