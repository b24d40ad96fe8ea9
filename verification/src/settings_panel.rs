//! The settings panel: the value each control shows and how a value a control
//! reports is written back into the settings.
use crate::launch::{all_digits, digits_value, parsed_i32, parsed_u32, text_to_i32, text_to_u32, unsigned_part};
use crate::preview::{i32_text, signed_text, u32_text};
use crate::settings::{AutoSave, ExportFormat, Settings};
use crate::strings::decimal;
use crate::text::str_eq;
use vstd::prelude::*;

verus! {

/// A new value reported by a setting's control.
pub enum SettingChange {
    /// From a text field.
    Text(String),
    /// From a number field or a slider.
    Number(u32),
    /// From a switch.
    Switch(bool),
    /// The value of the option chosen in a dropdown.
    Choice(String),
}

/// What `i8::from_str` accepts: an optional `+` or `-` and then decimal
/// digits whose signed value fits in an `i8`.
pub open spec fn parsed_i8(s: Seq<char>) -> Option<i8> {
    if s.len() > 0 && s[0] == '-' {
        let d = s.drop_first();
        if all_digits(d) && -digits_value(d) >= i8::MIN {
            Some((-digits_value(d)) as i8)
        } else {
            None
        }
    } else {
        let d = unsigned_part(s);
        if all_digits(d) && digits_value(d) <= i8::MAX {
            Some(digits_value(d) as i8)
        } else {
            None
        }
    }
}

/// The value of decimal digits is not negative.
proof fn lemma_digits_value_nonneg(d: Seq<char>)
    requires
        forall|i: int| 0 <= i < d.len() ==> crate::launch::is_digit(#[trigger] d[i]),
    ensures
        digits_value(d) >= 0,
    decreases d.len(),
{
    if d.len() > 0 {
        assert forall|i: int| 0 <= i < d.drop_last().len() implies crate::launch::is_digit(#[trigger] d.drop_last()[i]) by {
            assert(d.drop_last()[i] == d[i]);
        }
        lemma_digits_value_nonneg(d.drop_last());
        assert(crate::launch::is_digit(d[d.len() - 1]));
    }
}

/// Parse an `i8` as `str::parse::<i8>` does.
fn text_to_i8(s: &str) -> (r: Option<i8>)
    ensures
        r == parsed_i8(s@),
{
    let r = text_to_i32(s);
    proof {
        let t = s@;
        if all_digits(t.drop_first()) {
            lemma_digits_value_nonneg(t.drop_first());
        }
        if all_digits(unsigned_part(t)) {
            lemma_digits_value_nonneg(unsigned_part(t));
        }
        if t.len() > 0 && t[0] == '-' {
            let dv = digits_value(t.drop_first());
            if all_digits(t.drop_first()) && -dv >= i32::MIN {
                assert(r == Some((-dv) as i32));
            }
        } else {
            let dv = digits_value(unsigned_part(t));
            if all_digits(unsigned_part(t)) && dv <= i32::MAX {
                assert(r == Some(dv as i32));
            }
        }
    }
    match r {
        Some(v) => {
            if -128 <= v && v <= 127 {
                Some(v as i8)
            } else {
                None
            }
        },
        None => None,
    }
}

/// `v` limited to `[min, max]`.
pub open spec fn clamped(v: int, min: int, max: int) -> int {
    if v < min {
        min
    } else if v > max {
        max
    } else {
        v
    }
}

/// The value a number field reports for the text `text`: the number, limited
/// to `[min, max]`, or nothing when the text is not a `u32`.
pub fn number_input(text: &str, min: u32, max: u32) -> (r: Option<u32>)
    requires
        min <= max,
    ensures
        r == match parsed_u32(text@) {
            Some(v) => Some(clamped(v as int, min as int, max as int) as u32),
            None => None,
        },
{
    match text_to_u32(text) {
        Some(v) => Some(if v < min { min } else if v > max { max } else { v }),
        None => None,
    }
}

/// The auto-save mode of a dropdown value: `off`, or a number of seconds
/// (anything else turns auto-save off).
pub open spec fn auto_save_choice(v: Seq<char>) -> AutoSave {
    if v == "off"@ {
        AutoSave::Off
    } else {
        match parsed_u32(v) {
            Some(secs) => AutoSave::AfterDelay(secs),
            None => AutoSave::Off,
        }
    }
}

/// The auto-save mode of a dropdown value.
pub fn parse_auto_save(v: &str) -> (r: AutoSave)
    ensures
        r == auto_save_choice(v@),
{
    if str_eq(v, "off") {
        AutoSave::Off
    } else {
        match text_to_u32(v) {
            Some(secs) => AutoSave::AfterDelay(secs),
            None => AutoSave::Off,
        }
    }
}

/// The dropdown value of an auto-save mode.
pub open spec fn auto_save_text(a: AutoSave) -> Seq<char> {
    match a {
        AutoSave::Off => "off"@,
        AutoSave::AfterDelay(secs) => decimal(secs as nat),
    }
}

/// The export format of a dropdown value (GLB for anything unknown).
pub open spec fn format_choice(v: Seq<char>) -> ExportFormat {
    if v == "gltf"@ {
        ExportFormat::Gltf
    } else if v == "obj"@ {
        ExportFormat::Obj
    } else if v == "stl"@ {
        ExportFormat::Stl
    } else {
        ExportFormat::Glb
    }
}

/// The export format of a dropdown value.
pub fn parse_export_format(v: &str) -> (r: ExportFormat)
    ensures
        r == format_choice(v@),
{
    if str_eq(v, "gltf") {
        ExportFormat::Gltf
    } else if str_eq(v, "obj") {
        ExportFormat::Obj
    } else if str_eq(v, "stl") {
        ExportFormat::Stl
    } else {
        ExportFormat::Glb
    }
}

/// The timezone offset of a dropdown value, limited to UTC-12..UTC+14;
/// nothing when the value is not an `i8`.
pub open spec fn timezone_choice(v: Seq<char>) -> Option<i8> {
    match parsed_i8(v) {
        Some(o) => Some(clamped(o as int, -12, 14) as i8),
        None => None,
    }
}

/// The timezone offset of a dropdown value.
pub fn parse_timezone(v: &str) -> (r: Option<i8>)
    ensures
        r == timezone_choice(v@),
{
    match text_to_i8(v) {
        Some(o) => Some(if o < -12 { -12 } else if o > 14 { 14 } else { o }),
        None => None,
    }
}

/// The text of a boolean as `bool::to_string` writes it.
pub open spec fn bool_text(b: bool) -> Seq<char> {
    if b { "true"@ } else { "false"@ }
}

/// The value the dropdown of setting `id` shows, for the settings shown by a
/// dropdown.
pub open spec fn choice_text(s: Settings, id: Seq<char>) -> Option<Seq<char>> {
    if id == "theme"@ {
        Some(s.theme@)
    } else if id == "auto_save"@ {
        Some(auto_save_text(s.auto_save))
    } else if id == "export_format"@ {
        Some(s.export_format.spec_extension())
    } else if id == "timezone_offset"@ {
        Some(signed_text(s.timezone_offset as int))
    } else if id == "time_format_24h"@ {
        Some(bool_text(s.time_format_24h))
    } else {
        None
    }
}

/// The value the dropdown of setting `id` shows (nothing for a setting that
/// no dropdown shows).
pub fn choice_value(settings: &Settings, id: &str) -> (r: Option<String>)
    ensures
        match r {
            Some(t) => choice_text(*settings, id@) == Some(t@),
            None => choice_text(*settings, id@) is None,
        },
{
    if str_eq(id, "theme") {
        Some(settings.theme.clone())
    } else if str_eq(id, "auto_save") {
        match settings.auto_save {
            AutoSave::Off => Some("off".to_string()),
            AutoSave::AfterDelay(secs) => Some(u32_text(secs)),
        }
    } else if str_eq(id, "export_format") {
        Some(settings.export_format.extension().to_string())
    } else if str_eq(id, "timezone_offset") {
        Some(i32_text(settings.timezone_offset as i32))
    } else if str_eq(id, "time_format_24h") {
        Some(if settings.time_format_24h { "true".to_string() } else { "false".to_string() })
    } else {
        None
    }
}

/// The settings after the control of setting `id` reports `change`, or
/// nothing when no setting is written (an unknown id, a value of another
/// kind than the setting's control reports, or a timezone that is not a
/// number).
pub open spec fn applied(s: Settings, id: Seq<char>, change: SettingChange) -> Option<Settings> {
    match change {
        SettingChange::Text(t) => if id == "font_family"@ {
            Some(Settings { font_family: t, ..s })
        } else {
            None
        },
        SettingChange::Number(n) => if id == "font_size"@ {
            Some(Settings { font_size: n, ..s })
        } else if id == "tab_size"@ {
            Some(Settings { tab_size: n, ..s })
        } else if id == "export_resolution"@ {
            Some(Settings { export_resolution: n, ..s })
        } else if id == "recent_files_limit"@ {
            Some(Settings { recent_files_limit: n as usize, ..s })
        } else if id == "undo_history_limit"@ {
            Some(Settings { undo_history_limit: n as usize, ..s })
        } else {
            None
        },
        SettingChange::Switch(b) => if id == "word_wrap"@ {
            Some(Settings { word_wrap: b, ..s })
        } else if id == "line_numbers"@ {
            Some(Settings { line_numbers: b, ..s })
        } else if id == "export_optimize"@ {
            Some(Settings { export_optimize: b, ..s })
        } else if id == "restore_session"@ {
            Some(Settings { restore_session: b, ..s })
        } else if id == "remember_workspace"@ {
            Some(Settings { remember_workspace: b, ..s })
        } else {
            None
        },
        SettingChange::Choice(v) => if id == "theme"@ {
            Some(Settings { theme: v, ..s })
        } else if id == "auto_save"@ {
            Some(Settings { auto_save: auto_save_choice(v@), ..s })
        } else if id == "export_format"@ {
            Some(Settings { export_format: format_choice(v@), ..s })
        } else if id == "timezone_offset"@ {
            match timezone_choice(v@) {
                Some(o) => Some(Settings { timezone_offset: o, ..s }),
                None => None,
            }
        } else if id == "time_format_24h"@ {
            Some(Settings { time_format_24h: v@ == "true"@, ..s })
        } else {
            None
        },
    }
}

/// Write the value the control of setting `id` reports into the settings;
/// returns whether a setting was written (and so should be saved).
pub fn apply_setting_change(settings: &mut Settings, id: &str, change: SettingChange) -> (saved: bool)
    ensures
        match applied(*old(settings), id@, change) {
            Some(n) => saved && *final(settings) == n,
            None => !saved && *final(settings) == *old(settings),
        },
{
    match change {
        SettingChange::Text(t) => {
            if str_eq(id, "font_family") {
                settings.font_family = t;
                true
            } else {
                false
            }
        },
        SettingChange::Number(n) => {
            if str_eq(id, "font_size") {
                settings.font_size = n;
            } else if str_eq(id, "tab_size") {
                settings.tab_size = n;
            } else if str_eq(id, "export_resolution") {
                settings.export_resolution = n;
            } else if str_eq(id, "recent_files_limit") {
                settings.recent_files_limit = n as usize;
            } else if str_eq(id, "undo_history_limit") {
                settings.undo_history_limit = n as usize;
            } else {
                return false;
            }
            true
        },
        SettingChange::Switch(b) => {
            if str_eq(id, "word_wrap") {
                settings.word_wrap = b;
            } else if str_eq(id, "line_numbers") {
                settings.line_numbers = b;
            } else if str_eq(id, "export_optimize") {
                settings.export_optimize = b;
            } else if str_eq(id, "restore_session") {
                settings.restore_session = b;
            } else if str_eq(id, "remember_workspace") {
                settings.remember_workspace = b;
            } else {
                return false;
            }
            true
        },
        SettingChange::Choice(v) => {
            if str_eq(id, "theme") {
                settings.theme = v;
            } else if str_eq(id, "auto_save") {
                settings.auto_save = parse_auto_save(v.as_str());
            } else if str_eq(id, "export_format") {
                settings.export_format = parse_export_format(v.as_str());
            } else if str_eq(id, "timezone_offset") {
                match parse_timezone(v.as_str()) {
                    Some(o) => settings.timezone_offset = o,
                    None => {
                        return false;
                    },
                }
            } else if str_eq(id, "time_format_24h") {
                settings.time_format_24h = str_eq(v.as_str(), "true");
            } else {
                return false;
            }
            true
        },
    }
}

} // verus!
