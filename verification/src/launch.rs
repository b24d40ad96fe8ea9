//! Command-line launch modes: which part of the studio to start, read from
//! the program's arguments.
use crate::strings::push_str;
use crate::text::str_eq;
use vstd::prelude::*;

verus! {

/// The usage text shown when a launch mode lacks a required argument.
pub const USAGE: &'static str = "Usage:
  soyuz-studio [--fresh]
  soyuz-studio --preview --script <path> [--check-only]
  soyuz-studio --embedded-preview --script <path> --parent <xid> --x <px> --y <px> --width <px> --height <px> [--check-only]
  soyuz-studio --export-check --script <path> --out <path> [--resolution <n>]";

/// Export resolution used by `--export-check` without `--resolution`.
pub const DEFAULT_EXPORT_RESOLUTION: u32 = 16;

/// Whether `c` is an ASCII decimal digit.
pub open spec fn is_digit(c: char) -> bool {
    '0' <= c && c <= '9'
}

/// At least one character, all of them decimal digits.
pub open spec fn all_digits(d: Seq<char>) -> bool {
    d.len() > 0 && forall|i: int| 0 <= i < d.len() ==> is_digit(#[trigger] d[i])
}

/// The value of a sequence of decimal digits.
pub open spec fn digits_value(d: Seq<char>) -> int
    decreases d.len(),
{
    if d.len() == 0 {
        0
    } else {
        digits_value(d.drop_last()) * 10 + (d.last() as int - '0' as int)
    }
}

/// `s` without a leading `+`.
pub open spec fn unsigned_part(s: Seq<char>) -> Seq<char> {
    if s.len() > 0 && s[0] == '+' {
        s.drop_first()
    } else {
        s
    }
}

/// What `u32::from_str` accepts: an optional `+` and then decimal digits
/// whose value fits in a `u32`.
pub open spec fn parsed_u32(s: Seq<char>) -> Option<u32> {
    let d = unsigned_part(s);
    if all_digits(d) && digits_value(d) <= u32::MAX {
        Some(digits_value(d) as u32)
    } else {
        None
    }
}

/// What `i32::from_str` accepts: an optional `+` or `-` and then decimal
/// digits whose signed value fits in an `i32`.
pub open spec fn parsed_i32(s: Seq<char>) -> Option<i32> {
    if s.len() > 0 && s[0] == '-' {
        let d = s.drop_first();
        if all_digits(d) && -digits_value(d) >= i32::MIN {
            Some((-digits_value(d)) as i32)
        } else {
            None
        }
    } else {
        let d = unsigned_part(s);
        if all_digits(d) && digits_value(d) <= i32::MAX {
            Some(digits_value(d) as i32)
        } else {
            None
        }
    }
}

/// `str::parse::<u32>`: per the documentation of `u32::from_str_radix`, an
/// optional `+` followed by decimal digits, with an error when the value does
/// not fit; any other character is an error.
#[verifier::external_body]
pub(crate) fn text_to_u32(s: &str) -> (r: Option<u32>)
    ensures
        r == parsed_u32(s@),
{
    s.parse::<u32>().ok()
}

/// `str::parse::<i32>`: per the documentation of `i32::from_str_radix`, an
/// optional `+` or `-` followed by decimal digits, with an error when the
/// value does not fit; any other character is an error.
#[verifier::external_body]
pub(crate) fn text_to_i32(s: &str) -> (r: Option<i32>)
    ensures
        r == parsed_i32(s@),
{
    s.parse::<i32>().ok()
}

/// The error for an invalid value of `flag`.
pub open spec fn invalid_value(flag: Seq<char>, value: Seq<char>) -> Seq<char> {
    "Invalid "@ + flag + " value: "@ + value
}

/// The message for an invalid value of `flag`.
fn invalid_value_message(flag: &str, value: &str) -> (r: String)
    ensures
        r@ == invalid_value(flag@, value@),
{
    let mut m = String::new();
    push_str(&mut m, "Invalid ");
    push_str(&mut m, flag);
    push_str(&mut m, " value: ");
    push_str(&mut m, value);
    assert(m@ =~= invalid_value(flag@, value@));
    m
}

/// Parse a `u32` flag value.
pub fn parse_u32(value: &str, flag: &str) -> (r: Result<u32, String>)
    ensures
        match parsed_u32(value@) {
            Some(v) => r matches Ok(x) && x == v,
            None => r matches Err(e) && e@ == invalid_value(flag@, value@),
        },
{
    match text_to_u32(value) {
        Some(v) => Ok(v),
        None => Err(invalid_value_message(flag, value)),
    }
}

/// Parse an `i32` flag value.
pub fn parse_i32(value: &str, flag: &str) -> (r: Result<i32, String>)
    ensures
        match parsed_i32(value@) {
            Some(v) => r matches Ok(x) && x == v,
            None => r matches Err(e) && e@ == invalid_value(flag@, value@),
        },
{
    match text_to_i32(value) {
        Some(v) => Ok(v),
        None => Err(invalid_value_message(flag, value)),
    }
}

/// The outcome of reading a `--resolution` value: a positive `u32`.
pub open spec fn resolution_result(value: Seq<char>) -> Result<u32, Seq<char>> {
    match parsed_u32(value) {
        Some(v) => if v == 0 {
            Err("--resolution must be greater than 0"@)
        } else {
            Ok(v)
        },
        None => Err(invalid_value("--resolution"@, value)),
    }
}

/// Parse a `--resolution` value, which must be greater than 0.
pub fn parse_resolution(value: &str) -> (r: Result<u32, String>)
    ensures
        match resolution_result(value@) {
            Ok(v) => r matches Ok(x) && x == v,
            Err(m) => r matches Err(e) && e@ == m,
        },
{
    match parse_u32(value, "--resolution") {
        Ok(v) => if v == 0 {
            Err("--resolution must be greater than 0".to_string())
        } else {
            Ok(v)
        },
        Err(e) => Err(e),
    }
}

/// Launch mode selected by command-line arguments.
#[derive(Debug, PartialEq, Eq)]
pub enum LaunchMode {
    /// Start the desktop IDE.
    Studio { fresh_start: bool },
    /// Start only the isolated preview window.
    Preview { script_path: String, check_only: bool },
    /// Start an isolated native preview embedded into the main Studio window.
    EmbeddedPreview {
        script_path: String,
        parent_handle: u32,
        x: i32,
        y: i32,
        width: u32,
        height: u32,
        check_only: bool,
    },
    /// Export a script through the built Studio artifact for product smoke tests.
    ExportCheck { script_path: String, out_path: String, resolution: u32 },
}

/// The mathematical value of a launch mode: paths as text.
pub enum LaunchView {
    Studio { fresh_start: bool },
    Preview { script_path: Seq<char>, check_only: bool },
    EmbeddedPreview {
        script_path: Seq<char>,
        parent_handle: u32,
        x: i32,
        y: i32,
        width: u32,
        height: u32,
        check_only: bool,
    },
    ExportCheck { script_path: Seq<char>, out_path: Seq<char>, resolution: u32 },
}

impl View for LaunchMode {
    type V = LaunchView;

    open spec fn view(&self) -> LaunchView {
        match self {
            LaunchMode::Studio { fresh_start } => LaunchView::Studio { fresh_start: *fresh_start },
            LaunchMode::Preview { script_path, check_only } => LaunchView::Preview {
                script_path: script_path@,
                check_only: *check_only,
            },
            LaunchMode::EmbeddedPreview { script_path, parent_handle, x, y, width, height, check_only } => LaunchView::EmbeddedPreview {
                script_path: script_path@,
                parent_handle: *parent_handle,
                x: *x,
                y: *y,
                width: *width,
                height: *height,
                check_only: *check_only,
            },
            LaunchMode::ExportCheck { script_path, out_path, resolution } => LaunchView::ExportCheck {
                script_path: script_path@,
                out_path: out_path@,
                resolution: *resolution,
            },
        }
    }
}

/// What the arguments read so far have set.
pub struct LaunchFlags {
    pub fresh: bool,
    pub preview: bool,
    pub embedded: bool,
    pub export_check: bool,
    pub check_only: bool,
    pub script: Option<Seq<char>>,
    pub out: Option<Seq<char>>,
    pub resolution: u32,
    pub parent: Option<u32>,
    pub x: Option<i32>,
    pub y: Option<i32>,
    pub width: Option<u32>,
    pub height: Option<u32>,
}

/// Nothing set yet.
pub open spec fn no_flags() -> LaunchFlags {
    LaunchFlags {
        fresh: false,
        preview: false,
        embedded: false,
        export_check: false,
        check_only: false,
        script: None,
        out: None,
        resolution: DEFAULT_EXPORT_RESOLUTION,
        parent: None,
        x: None,
        y: None,
        width: None,
        height: None,
    }
}

/// The error for a flag given without its value.
pub open spec fn missing_value(flag: Seq<char>) -> Seq<char> {
    "Missing value for "@ + flag
}

/// Read the arguments from index `i` on into `f`; unknown arguments are
/// skipped, a flag that takes a value consumes the next argument.
pub open spec fn scan(args: Seq<Seq<char>>, i: int, f: LaunchFlags) -> Result<LaunchFlags, Seq<char>>
    decreases args.len() - i,
{
    if i < 0 || i >= args.len() {
        Ok(f)
    } else {
        let a = args[i];
        let has_value = i + 1 < args.len();
        let v = args[i + 1];
        if a == "--fresh"@ {
            scan(args, i + 1, LaunchFlags { fresh: true, ..f })
        } else if a == "--preview"@ {
            scan(args, i + 1, LaunchFlags { preview: true, ..f })
        } else if a == "--embedded-preview"@ {
            scan(args, i + 1, LaunchFlags { embedded: true, ..f })
        } else if a == "--export-check"@ {
            scan(args, i + 1, LaunchFlags { export_check: true, ..f })
        } else if a == "--check-only"@ {
            scan(args, i + 1, LaunchFlags { check_only: true, ..f })
        } else if a == "--script"@ || a == "-s"@ {
            if has_value { scan(args, i + 2, LaunchFlags { script: Some(v), ..f }) } else { Err(missing_value("--script"@)) }
        } else if a == "--out"@ {
            if has_value { scan(args, i + 2, LaunchFlags { out: Some(v), ..f }) } else { Err(missing_value("--out"@)) }
        } else if a == "--resolution"@ {
            if has_value {
                match resolution_result(v) {
                    Ok(r) => scan(args, i + 2, LaunchFlags { resolution: r, ..f }),
                    Err(e) => Err(e),
                }
            } else {
                Err(missing_value("--resolution"@))
            }
        } else if a == "--parent"@ {
            if has_value {
                match parsed_u32(v) {
                    Some(n) => scan(args, i + 2, LaunchFlags { parent: Some(n), ..f }),
                    None => Err(invalid_value("--parent"@, v)),
                }
            } else {
                Err(missing_value("--parent"@))
            }
        } else if a == "--x"@ {
            if has_value {
                match parsed_i32(v) {
                    Some(n) => scan(args, i + 2, LaunchFlags { x: Some(n), ..f }),
                    None => Err(invalid_value("--x"@, v)),
                }
            } else {
                Err(missing_value("--x"@))
            }
        } else if a == "--y"@ {
            if has_value {
                match parsed_i32(v) {
                    Some(n) => scan(args, i + 2, LaunchFlags { y: Some(n), ..f }),
                    None => Err(invalid_value("--y"@, v)),
                }
            } else {
                Err(missing_value("--y"@))
            }
        } else if a == "--width"@ {
            if has_value {
                match parsed_u32(v) {
                    Some(n) => scan(args, i + 2, LaunchFlags { width: Some(n), ..f }),
                    None => Err(invalid_value("--width"@, v)),
                }
            } else {
                Err(missing_value("--width"@))
            }
        } else if a == "--height"@ {
            if has_value {
                match parsed_u32(v) {
                    Some(n) => scan(args, i + 2, LaunchFlags { height: Some(n), ..f }),
                    None => Err(invalid_value("--height"@, v)),
                }
            } else {
                Err(missing_value("--height"@))
            }
        } else {
            scan(args, i + 1, f)
        }
    }
}

/// The launch mode the collected flags select.
pub open spec fn select_mode(f: LaunchFlags) -> Result<LaunchView, Seq<char>> {
    let modes = (if f.preview { 1int } else { 0 }) + (if f.embedded { 1int } else { 0 }) + (if f.export_check { 1int } else { 0 });
    if modes > 1 {
        Err("Use only one launch mode: --preview, --embedded-preview, or --export-check"@)
    } else if f.preview {
        match f.script {
            Some(s) => Ok(LaunchView::Preview { script_path: s, check_only: f.check_only }),
            None => Err(USAGE@),
        }
    } else if f.embedded {
        if f.script is Some && f.parent is Some && f.x is Some && f.y is Some && f.width is Some && f.height is Some {
            Ok(LaunchView::EmbeddedPreview {
                script_path: f.script.unwrap(),
                parent_handle: f.parent.unwrap(),
                x: f.x.unwrap(),
                y: f.y.unwrap(),
                width: f.width.unwrap(),
                height: f.height.unwrap(),
                check_only: f.check_only,
            })
        } else {
            Err(USAGE@)
        }
    } else if f.export_check {
        if f.check_only {
            Err("--check-only only applies to --preview"@)
        } else if f.script is Some && f.out is Some {
            Ok(LaunchView::ExportCheck { script_path: f.script.unwrap(), out_path: f.out.unwrap(), resolution: f.resolution })
        } else {
            Err(USAGE@)
        }
    } else {
        Ok(LaunchView::Studio { fresh_start: f.fresh })
    }
}

/// The outcome of parsing `args` (the first is the program's name).
pub open spec fn launch_result(args: Seq<Seq<char>>) -> Result<LaunchView, Seq<char>> {
    match scan(args, 1, no_flags()) {
        Ok(f) => select_mode(f),
        Err(e) => Err(e),
    }
}

/// Whether the argument `a` is a flag that takes the next argument as its value.
pub open spec fn takes_value(a: Seq<char>) -> bool {
    a == "--script"@ || a == "-s"@ || a == "--out"@ || a == "--resolution"@ || a == "--parent"@
        || a == "--x"@ || a == "--y"@ || a == "--width"@ || a == "--height"@
}

/// Whether `name` occurs as a flag in `args` from index `i` on: arguments
/// that are the values of the flags before them do not count.
pub open spec fn flag_occurs(args: Seq<Seq<char>>, i: int, name: Seq<char>) -> bool
    decreases args.len() - i,
{
    if i < 0 || i >= args.len() {
        false
    } else if args[i] == name {
        true
    } else if takes_value(args[i]) {
        i + 1 < args.len() && flag_occurs(args, i + 2, name)
    } else {
        flag_occurs(args, i + 1, name)
    }
}

/// How many of the three launch modes occur as flags in `args` (after the
/// program's name).
pub open spec fn launch_modes_given(args: Seq<Seq<char>>) -> int {
    (if flag_occurs(args, 1, "--preview"@) { 1int } else { 0 })
        + (if flag_occurs(args, 1, "--embedded-preview"@) { 1int } else { 0 })
        + (if flag_occurs(args, 1, "--export-check"@) { 1int } else { 0 })
}

/// The flag names told apart: their lengths, and a character where two
/// names have the same length.
proof fn lemma_flag_names()
    ensures
        "--fresh"@.len() == 7 && "--fresh"@[2] == 'f',
        "--width"@.len() == 7 && "--width"@[2] == 'w',
        "--preview"@.len() == 9,
        "--embedded-preview"@.len() == 18,
        "--export-check"@.len() == 14,
        "--check-only"@.len() == 12 && "--check-only"@[2] == 'c',
        "--resolution"@.len() == 12 && "--resolution"@[2] == 'r',
        "--script"@.len() == 8 && "--script"@[2] == 's',
        "--parent"@.len() == 8 && "--parent"@[2] == 'p',
        "--height"@.len() == 8 && "--height"@[2] == 'h',
        "-s"@.len() == 2,
        "--out"@.len() == 5,
        "--x"@.len() == 3 && "--x"@[2] == 'x',
        "--y"@.len() == 3 && "--y"@[2] == 'y',
{
    reveal_strlit("--fresh");
    reveal_strlit("--preview");
    reveal_strlit("--embedded-preview");
    reveal_strlit("--export-check");
    reveal_strlit("--check-only");
    reveal_strlit("--script");
    reveal_strlit("-s");
    reveal_strlit("--out");
    reveal_strlit("--resolution");
    reveal_strlit("--parent");
    reveal_strlit("--x");
    reveal_strlit("--y");
    reveal_strlit("--width");
    reveal_strlit("--height");
}

/// Reading the arguments from `i` on sets each mode exactly when it was set
/// before or its flag occurs from `i` on.
proof fn lemma_scan_modes(args: Seq<Seq<char>>, i: int, f: LaunchFlags)
    requires
        i >= 0,
    ensures
        scan(args, i, f) matches Ok(g) ==> {
            &&& g.preview == (f.preview || flag_occurs(args, i, "--preview"@))
            &&& g.embedded == (f.embedded || flag_occurs(args, i, "--embedded-preview"@))
            &&& g.export_check == (f.export_check || flag_occurs(args, i, "--export-check"@))
        },
    decreases args.len() - i,
{
    lemma_flag_names();
    if i < args.len() {
        let a = args[i];
        let v = args[i + 1];
        let has_value = i + 1 < args.len();
        if a == "--fresh"@ {
            lemma_scan_modes(args, i + 1, LaunchFlags { fresh: true, ..f });
        } else if a == "--preview"@ {
            lemma_scan_modes(args, i + 1, LaunchFlags { preview: true, ..f });
        } else if a == "--embedded-preview"@ {
            lemma_scan_modes(args, i + 1, LaunchFlags { embedded: true, ..f });
        } else if a == "--export-check"@ {
            lemma_scan_modes(args, i + 1, LaunchFlags { export_check: true, ..f });
        } else if a == "--check-only"@ {
            lemma_scan_modes(args, i + 1, LaunchFlags { check_only: true, ..f });
        } else if !takes_value(a) {
            lemma_scan_modes(args, i + 1, f);
        } else if has_value {
            if a == "--script"@ || a == "-s"@ {
                lemma_scan_modes(args, i + 2, LaunchFlags { script: Some(v), ..f });
            } else if a == "--out"@ {
                lemma_scan_modes(args, i + 2, LaunchFlags { out: Some(v), ..f });
            } else if a == "--resolution"@ {
                if let Ok(r) = resolution_result(v) {
                    lemma_scan_modes(args, i + 2, LaunchFlags { resolution: r, ..f });
                }
            } else if a == "--parent"@ {
                if let Some(n) = parsed_u32(v) {
                    lemma_scan_modes(args, i + 2, LaunchFlags { parent: Some(n), ..f });
                }
            } else if a == "--x"@ {
                if let Some(n) = parsed_i32(v) {
                    lemma_scan_modes(args, i + 2, LaunchFlags { x: Some(n), ..f });
                }
            } else if a == "--y"@ {
                if let Some(n) = parsed_i32(v) {
                    lemma_scan_modes(args, i + 2, LaunchFlags { y: Some(n), ..f });
                }
            } else if a == "--width"@ {
                if let Some(n) = parsed_u32(v) {
                    lemma_scan_modes(args, i + 2, LaunchFlags { width: Some(n), ..f });
                }
            } else {
                if let Some(n) = parsed_u32(v) {
                    lemma_scan_modes(args, i + 2, LaunchFlags { height: Some(n), ..f });
                }
            }
        }
    }
}

/// When every flag's value is present and valid, the arguments are refused
/// for naming more than one launch mode exactly when at least two of
/// `--preview`, `--embedded-preview` and `--export-check` occur as flags.
pub proof fn lemma_one_launch_mode(args: Seq<Seq<char>>)
    requires
        scan(args, 1, no_flags()) is Ok,
    ensures
        launch_result(args) == Err::<LaunchView, Seq<char>>("Use only one launch mode: --preview, --embedded-preview, or --export-check"@)
            <==> launch_modes_given(args) >= 2,
{
    lemma_scan_modes(args, 1, no_flags());
    reveal_strlit("Use only one launch mode: --preview, --embedded-preview, or --export-check");
    reveal_strlit("--check-only only applies to --preview");
    reveal_strlit("Usage:
  soyuz-studio [--fresh]
  soyuz-studio --preview --script <path> [--check-only]
  soyuz-studio --embedded-preview --script <path> --parent <xid> --x <px> --y <px> --width <px> --height <px> [--check-only]
  soyuz-studio --export-check --script <path> --out <path> [--resolution <n>]");
    assert("Use only one launch mode: --preview, --embedded-preview, or --export-check"@.len() == 74);
    assert("--check-only only applies to --preview"@.len() == 38);
    assert(USAGE@.len() > 74);
}

/// The views of a sequence of strings.
pub open spec fn arg_views(args: Seq<String>) -> Seq<Seq<char>> {
    args.map_values(|s: String| s@)
}

/// The view of an optional string.
pub open spec fn opt_text(o: Option<String>) -> Option<Seq<char>> {
    match o {
        Some(s) => Some(s@),
        None => None,
    }
}


/// The flags read so far, as values.
struct Flags {
    fresh: bool,
    preview: bool,
    embedded: bool,
    export_check: bool,
    check_only: bool,
    script: Option<String>,
    out: Option<String>,
    resolution: u32,
    parent: Option<u32>,
    x: Option<i32>,
    y: Option<i32>,
    width: Option<u32>,
    height: Option<u32>,
}

impl View for Flags {
    type V = LaunchFlags;

    closed spec fn view(&self) -> LaunchFlags {
        LaunchFlags {
            fresh: self.fresh,
            preview: self.preview,
            embedded: self.embedded,
            export_check: self.export_check,
            check_only: self.check_only,
            script: opt_text(self.script),
            out: opt_text(self.out),
            resolution: self.resolution,
            parent: self.parent,
            x: self.x,
            y: self.y,
            width: self.width,
            height: self.height,
        }
    }
}

/// The message for a flag given without its value.
fn missing_value_message(flag: &str) -> (r: String)
    ensures
        r@ == missing_value(flag@),
{
    let mut m = String::new();
    push_str(&mut m, "Missing value for ");
    push_str(&mut m, flag);
    assert(m@ =~= missing_value(flag@));
    m
}

/// Read the argument at `i` (and its value, for a flag that takes one) into
/// `f`; returns the index of the next argument to read.
fn read_flag(args: &[String], i: usize, f: &mut Flags) -> (r: Result<usize, String>)
    requires
        1 <= i < args@.len(),
    ensures
        match r {
            Ok(j) => i < j <= args@.len() && scan(arg_views(args@), i as int, old(f)@) == scan(arg_views(args@), j as int, final(f)@),
            Err(e) => scan(arg_views(args@), i as int, old(f)@) == Err::<LaunchFlags, Seq<char>>(e@),
        },
{
    let ghost av = arg_views(args@);
    assert(av[i as int] == args@[i as int]@);
    let arg = args[i].as_str();
    let has_value = i + 1 < args.len();
    proof {
        if has_value {
            assert(av[i as int + 1] == args@[i as int + 1]@);
        }
    }
    if str_eq(arg, "--fresh") {
        f.fresh = true;
        Ok(i + 1)
    } else if str_eq(arg, "--preview") {
        f.preview = true;
        Ok(i + 1)
    } else if str_eq(arg, "--embedded-preview") {
        f.embedded = true;
        Ok(i + 1)
    } else if str_eq(arg, "--export-check") {
        f.export_check = true;
        Ok(i + 1)
    } else if str_eq(arg, "--check-only") {
        f.check_only = true;
        Ok(i + 1)
    } else if str_eq(arg, "--script") || str_eq(arg, "-s") {
        if !has_value {
            return Err(missing_value_message("--script"));
        }
        f.script = Some(args[i + 1].clone());
        Ok(i + 2)
    } else if str_eq(arg, "--out") {
        if !has_value {
            return Err(missing_value_message("--out"));
        }
        f.out = Some(args[i + 1].clone());
        Ok(i + 2)
    } else if str_eq(arg, "--resolution") {
        if !has_value {
            return Err(missing_value_message("--resolution"));
        }
        match parse_resolution(args[i + 1].as_str()) {
            Ok(v) => {
                f.resolution = v;
                Ok(i + 2)
            },
            Err(e) => Err(e),
        }
    } else if str_eq(arg, "--parent") {
        if !has_value {
            return Err(missing_value_message("--parent"));
        }
        match parse_u32(args[i + 1].as_str(), "--parent") {
            Ok(v) => {
                f.parent = Some(v);
                Ok(i + 2)
            },
            Err(e) => Err(e),
        }
    } else if str_eq(arg, "--x") {
        if !has_value {
            return Err(missing_value_message("--x"));
        }
        match parse_i32(args[i + 1].as_str(), "--x") {
            Ok(v) => {
                f.x = Some(v);
                Ok(i + 2)
            },
            Err(e) => Err(e),
        }
    } else if str_eq(arg, "--y") {
        if !has_value {
            return Err(missing_value_message("--y"));
        }
        match parse_i32(args[i + 1].as_str(), "--y") {
            Ok(v) => {
                f.y = Some(v);
                Ok(i + 2)
            },
            Err(e) => Err(e),
        }
    } else if str_eq(arg, "--width") {
        if !has_value {
            return Err(missing_value_message("--width"));
        }
        match parse_u32(args[i + 1].as_str(), "--width") {
            Ok(v) => {
                f.width = Some(v);
                Ok(i + 2)
            },
            Err(e) => Err(e),
        }
    } else if str_eq(arg, "--height") {
        if !has_value {
            return Err(missing_value_message("--height"));
        }
        match parse_u32(args[i + 1].as_str(), "--height") {
            Ok(v) => {
                f.height = Some(v);
                Ok(i + 2)
            },
            Err(e) => Err(e),
        }
    } else {
        Ok(i + 1)
    }
}

/// Choose the launch mode from the collected flags.
fn select(f: Flags) -> (r: Result<LaunchMode, String>)
    ensures
        match select_mode(f@) {
            Ok(m) => r matches Ok(x) && x@ == m,
            Err(e) => r matches Err(x) && x@ == e,
        },
{
    let modes: u8 = (if f.preview { 1u8 } else { 0u8 }) + (if f.embedded { 1u8 } else { 0u8 }) + (if f.export_check { 1u8 } else { 0u8 });
    if modes > 1 {
        Err("Use only one launch mode: --preview, --embedded-preview, or --export-check".to_string())
    } else if f.preview {
        match f.script {
            Some(script_path) => Ok(LaunchMode::Preview { script_path, check_only: f.check_only }),
            None => Err(USAGE.to_string()),
        }
    } else if f.embedded {
        match (f.script, f.parent, f.x, f.y, f.width, f.height) {
            (Some(script_path), Some(parent_handle), Some(x), Some(y), Some(width), Some(height)) => Ok(LaunchMode::EmbeddedPreview {
                script_path,
                parent_handle,
                x,
                y,
                width,
                height,
                check_only: f.check_only,
            }),
            _ => Err(USAGE.to_string()),
        }
    } else if f.export_check {
        if f.check_only {
            return Err("--check-only only applies to --preview".to_string());
        }
        match (f.script, f.out) {
            (Some(script_path), Some(out_path)) => Ok(LaunchMode::ExportCheck { script_path, out_path, resolution: f.resolution }),
            _ => Err(USAGE.to_string()),
        }
    } else {
        Ok(LaunchMode::Studio { fresh_start: f.fresh })
    }
}

/// Parse Soyuz Studio command-line arguments (the first is the program's
/// name). Unknown arguments are ignored; see `launch_result` for the modes
/// and errors.
pub fn parse_launch_mode(args: &[String]) -> (r: Result<LaunchMode, String>)
    ensures
        match launch_result(arg_views(args@)) {
            Ok(m) => r matches Ok(x) && x@ == m,
            Err(e) => r matches Err(x) && x@ == e,
        },
{
    let mut f = Flags {
        fresh: false,
        preview: false,
        embedded: false,
        export_check: false,
        check_only: false,
        script: None,
        out: None,
        resolution: DEFAULT_EXPORT_RESOLUTION,
        parent: None,
        x: None,
        y: None,
        width: None,
        height: None,
    };
    let ghost av = arg_views(args@);
    let mut i: usize = 1;
    while i < args.len()
        invariant
            av == arg_views(args@),
            1 <= i,
            i <= args@.len() || i == 1,
            scan(av, 1, no_flags()) == scan(av, i as int, f@),
        decreases args@.len() + 1 - i,
    {
        match read_flag(args, i, &mut f) {
            Ok(j) => {
                i = j;
            },
            Err(e) => {
                return Err(e);
            },
        }
    }
    select(f)
}

/// The script path given to the stand-alone preview runner: the value after
/// the first `--script` or `-s` (skipping the program's name).
pub open spec fn runner_script(args: Seq<Seq<char>>, i: int) -> Option<Seq<char>>
    decreases args.len() - i,
{
    if i < 0 || i >= args.len() {
        None
    } else if args[i] == "--script"@ || args[i] == "-s"@ {
        if i + 1 < args.len() {
            Some(args[i + 1])
        } else {
            None
        }
    } else {
        runner_script(args, i + 1)
    }
}

/// Find the script path for the stand-alone preview runner.
pub fn parse_args(args: &[String]) -> (r: Option<String>)
    ensures
        opt_text(r) == runner_script(arg_views(args@), 1),
{
    let ghost av = arg_views(args@);
    let mut i: usize = 1;
    while i < args.len()
        invariant
            av == arg_views(args@),
            1 <= i,
            runner_script(av, 1) == runner_script(av, i as int),
        decreases args@.len() - i,
    {
        assert(av[i as int] == args@[i as int]@);
        let arg = args[i].as_str();
        if str_eq(arg, "--script") || str_eq(arg, "-s") {
            if i + 1 < args.len() {
                assert(av[i as int + 1] == args@[i as int + 1]@);
                return Some(args[i + 1].clone());
            }
            return None;
        }
        i = i + 1;
    }
    None
}

} // verus!
