//! Defaults of the export panel: where an export goes and what it is called.
use crate::editor::opt_view;
use crate::paths::{file_name_of, file_stem_of, join_path, parent_of, path_file_name, path_file_stem, path_join, path_parent};
use crate::settings::ExportSettings;
use crate::settings::ExportFormat;
use crate::strings::push_str;
use vstd::prelude::*;

verus! {

/// The default export folder: the last export folder when it still exists,
/// else the script's folder, else the documents folder, else `.`.
pub open spec fn default_export_dir(
    last_export_dir: Option<Seq<char>>,
    last_dir_exists: bool,
    current_file: Option<Seq<char>>,
    document_dir: Option<Seq<char>>,
) -> Seq<char> {
    match last_export_dir {
        Some(d) if last_dir_exists => d,
        _ => match current_file {
            Some(f) if path_parent(f) is Some => path_parent(f).unwrap(),
            _ => match document_dir {
                Some(d) => d,
                None => "."@,
            },
        },
    }
}

/// Compute the default export path. `last_dir_exists` tells whether the last
/// export folder still exists and `document_dir` is the user's documents
/// folder, if known.
pub fn compute_default_path(
    last_export_dir: Option<&String>,
    last_dir_exists: bool,
    current_file: Option<&String>,
    document_dir: Option<String>,
) -> (r: String)
    ensures
        r@ == default_export_dir(
            match last_export_dir { Some(d) => Some(d@), None => None },
            last_dir_exists,
            match current_file { Some(f) => Some(f@), None => None },
            opt_view(document_dir),
        ),
{
    if let Some(dir) = last_export_dir {
        if last_dir_exists {
            return dir.clone();
        }
    }
    if let Some(path) = current_file {
        if let Some(parent) = parent_of(path.as_str()) {
            return parent;
        }
    }
    match document_dir {
        Some(d) => d,
        None => ".".to_string(),
    }
}

/// The default export file name: the script's file stem (`untitled` without
/// one) and the format's extension.
pub open spec fn default_export_name(current_file: Option<Seq<char>>, format: ExportFormat) -> Seq<char> {
    let stem = match current_file {
        Some(f) => match path_file_stem(f) {
            Some(s) => s,
            None => "untitled"@,
        },
        None => "untitled"@,
    };
    stem + "."@ + format.spec_extension()
}

/// Compute the default filename (without path).
pub fn compute_default_filename(current_file: Option<&String>, format: ExportFormat) -> (r: String)
    ensures
        r@ == default_export_name(match current_file { Some(f) => Some(f@), None => None }, format),
{
    let stem = match current_file {
        Some(f) => match file_stem_of(f.as_str()) {
            Some(s) => s,
            None => "untitled".to_string(),
        },
        None => "untitled".to_string(),
    };
    let mut name = String::new();
    push_str(&mut name, stem.as_str());
    push_str(&mut name, ".");
    push_str(&mut name, format.extension());
    name
}


/// The text of `name` before its last dot (all of it without a dot).
pub open spec fn before_last_dot(name: Seq<char>) -> Seq<char>
    decreases name.len(),
{
    if name.len() == 0 {
        name
    } else if name.last() == '.' {
        name.drop_last()
    } else if before_last_dot(name.drop_last()) == name.drop_last() {
        name
    } else {
        before_last_dot(name.drop_last())
    }
}

/// Where the last dot of `name` is, if it has one.
fn last_dot(cs: &Vec<char>) -> (r: Option<usize>)
    ensures
        match r {
            Some(i) => i < cs@.len() && cs@[i as int] == '.' && forall|j: int| i < j < cs@.len() ==> cs@[j] != '.',
            None => forall|j: int| 0 <= j < cs@.len() ==> cs@[j] != '.',
        },
{
    let mut k = cs.len();
    while k > 0
        invariant
            k <= cs@.len(),
            forall|j: int| k <= j < cs@.len() ==> cs@[j] != '.',
        decreases k,
    {
        if cs[k - 1] == '.' {
            return Some(k - 1);
        }
        k = k - 1;
    }
    None
}

/// `before_last_dot` is the text before the last dot.
proof fn lemma_before_last_dot(name: Seq<char>)
    ensures
        (forall|j: int| 0 <= j < name.len() ==> name[j] != '.') ==> before_last_dot(name) == name,
        forall|i: int| 0 <= i < name.len() && name[i] == '.' && (forall|j: int| i < j < name.len() ==> name[j] != '.')
            ==> before_last_dot(name) == name.take(i),
    decreases name.len(),
{
    if name.len() > 0 {
        lemma_before_last_dot(name.drop_last());
        assert forall|i: int| 0 <= i < name.len() && name[i] == '.' && (forall|j: int| i < j < name.len() ==> name[j] != '.')
            implies before_last_dot(name) == name.take(i) by {
            if i == name.len() - 1 {
                assert(name.drop_last() =~= name.take(i));
            } else {
                assert(name.drop_last()[i] == '.');
                assert(forall|j: int| i < j < name.drop_last().len() ==> name.drop_last()[j] == name[j]);
                assert(before_last_dot(name.drop_last()) == name.drop_last().take(i));
                assert(name.drop_last().take(i) =~= name.take(i));
                assert(name.take(i).len() < name.drop_last().len());
                assert(before_last_dot(name.drop_last()) != name.drop_last());
            }
        }
        if forall|j: int| 0 <= j < name.len() ==> name[j] != '.' {
            assert(forall|j: int| 0 <= j < name.drop_last().len() ==> name.drop_last()[j] == name[j]);
        }
    }
}

/// The file name after the format is switched to `format`: the text before
/// its last dot, a dot and the format's extension.
pub open spec fn renamed_for_format(name: Seq<char>, format: ExportFormat) -> Seq<char> {
    before_last_dot(name) + "."@ + format.spec_extension()
}

/// Switch the extension of an export file name to that of `format`.
pub fn with_format_extension(name: &str, format: ExportFormat) -> (r: String)
    ensures
        r@ == renamed_for_format(name@, format),
{
    let cs = crate::text::text_chars(name);
    let end = match last_dot(&cs) {
        Some(i) => i,
        None => cs.len(),
    };
    proof {
        lemma_before_last_dot(cs@);
        if end == cs@.len() {
            assert(cs@.take(end as int) =~= cs@);
        }
    }
    let mut out = String::new();
    let mut k: usize = 0;
    while k < end
        invariant
            end <= cs@.len(),
            k <= end,
            out@ == cs@.take(k as int),
        decreases end - k,
    {
        crate::strings::push_char(&mut out, cs[k]);
        assert(out@ =~= cs@.take(k + 1));
        k = k + 1;
    }
    push_str(&mut out, ".");
    push_str(&mut out, format.extension());
    out
}

/// The file an export writes: the file name in the export folder.
pub fn export_target(dir: &str, filename: &str) -> (r: String)
    ensures
        r@ == path_join(dir@, filename@),
{
    join_path(dir, filename)
}

/// Progress of an export.
pub enum ExportStatus {
    /// No export has run yet.
    Idle,
    /// An export is in flight.
    Exporting,
    /// The last export succeeded; carries the summary line.
    Done(String),
    /// The last export failed; carries the error text.
    Error(String),
}

/// What clicking an export button leads to.
#[derive(Clone, Copy, Debug, PartialEq, Eq, Structural)]
pub enum ExportClick {
    /// An export is already running: the click is ignored.
    Ignore,
    /// The target file exists: ask before overwriting it.
    ConfirmOverwrite,
    /// Start the export.
    Run,
}

/// What clicking an export button leads to: nothing while an export runs, a
/// confirmation when the target file already exists, else the export.
pub fn export_click(status: &ExportStatus, target_exists: bool) -> (r: ExportClick)
    ensures
        r == (if status is Exporting {
            ExportClick::Ignore
        } else if target_exists {
            ExportClick::ConfirmOverwrite
        } else {
            ExportClick::Run
        }),
{
    match status {
        ExportStatus::Exporting => ExportClick::Ignore,
        _ => if target_exists { ExportClick::ConfirmOverwrite } else { ExportClick::Run },
    }
}

/// Which export button was pressed.
#[derive(Clone, Copy, Debug, PartialEq, Eq, Structural)]
pub enum ExportAction {
    /// Export only.
    Export,
    /// Export, then show the folder.
    ExportAndOpenFolder,
    /// Export, then open the exported file.
    ExportAndOpenFile,
}

/// What the panel opens once an export has succeeded.
pub enum ExportFollowUp {
    /// Nothing: the docked panel stays open for further exports.
    Nothing,
    /// The folder exported into.
    OpenFolder(String),
    /// The exported file.
    OpenFile(String),
}

/// The end of an export into the folder `dir` at `target`: the new status
/// (the summary line, or the error text) and, on success, what to open.
pub fn export_finished(action: ExportAction, dir: String, target: String, outcome: Result<String, String>) -> (r: (ExportStatus, ExportFollowUp))
    ensures
        match outcome {
            Ok(info) => {
                &&& r.0 matches ExportStatus::Done(i) && i@ == info@
                &&& match action {
                    ExportAction::Export => r.1 is Nothing,
                    ExportAction::ExportAndOpenFolder => r.1 matches ExportFollowUp::OpenFolder(d) && d@ == dir@,
                    ExportAction::ExportAndOpenFile => r.1 matches ExportFollowUp::OpenFile(t) && t@ == target@,
                }
            },
            Err(e) => r.0 matches ExportStatus::Error(m) && m@ == e@ && r.1 is Nothing,
        },
{
    match outcome {
        Ok(info) => {
            let follow = match action {
                ExportAction::Export => ExportFollowUp::Nothing,
                ExportAction::ExportAndOpenFolder => ExportFollowUp::OpenFolder(dir),
                ExportAction::ExportAndOpenFile => ExportFollowUp::OpenFile(target),
            };
            (ExportStatus::Done(info), follow)
        },
        Err(e) => (ExportStatus::Error(e), ExportFollowUp::Nothing),
    }
}

/// The status line of the export panel.
pub open spec fn status_text(status: ExportStatus) -> Seq<char> {
    match status {
        ExportStatus::Idle => "Ready"@,
        ExportStatus::Exporting => "Generating mesh..."@,
        ExportStatus::Done(info) => "Exported: "@ + info@,
        ExportStatus::Error(e) => "Error: "@ + e@,
    }
}

/// The status line of the export panel.
pub fn status_line(status: &ExportStatus) -> (r: String)
    ensures
        r@ == status_text(*status),
{
    let mut out = String::new();
    match status {
        ExportStatus::Idle => push_str(&mut out, "Ready"),
        ExportStatus::Exporting => push_str(&mut out, "Generating mesh..."),
        ExportStatus::Done(info) => {
            push_str(&mut out, "Exported: ");
            push_str(&mut out, info.as_str());
        },
        ExportStatus::Error(e) => {
            push_str(&mut out, "Error: ");
            push_str(&mut out, e.as_str());
        },
    }
    out
}

/// The name the overwrite question shows for the target: its file name, or
/// the whole path without one.
pub fn overwrite_name(target: &str) -> (r: String)
    ensures
        r@ == match path_file_name(target@) {
            Some(n) => n,
            None => target@,
        },
{
    match file_name_of(target) {
        Some(n) => n,
        None => target.to_string(),
    }
}

impl ExportSettings {
    /// Remember the settings of a successful export into `dir`.
    pub fn record_export(&mut self, dir: String, format: ExportFormat, resolution: u32, optimize: bool)
        ensures
            final(self).last_export_dir == Some(dir),
            final(self).format == format,
            final(self).resolution == resolution,
            final(self).optimize == optimize,
            final(self).close_after_export == old(self).close_after_export,
    {
        self.last_export_dir = Some(dir);
        self.format = format;
        self.resolution = resolution;
        self.optimize = optimize;
    }
}

} // verus!
