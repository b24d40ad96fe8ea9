use soyuz_studio::launch::{parse_args, parse_i32, parse_launch_mode, parse_resolution, parse_u32, LaunchMode, USAGE};

fn args(values: &[&str]) -> Vec<String> {
    values.iter().map(ToString::to_string).collect()
}

#[test]
fn parses_studio_mode() {
    assert_eq!(
        parse_launch_mode(&args(&["soyuz-studio"])),
        Ok(LaunchMode::Studio { fresh_start: false })
    );
}

#[test]
fn parses_fresh_studio_mode() {
    assert_eq!(
        parse_launch_mode(&args(&["soyuz-studio", "--fresh"])),
        Ok(LaunchMode::Studio { fresh_start: true })
    );
}

#[test]
fn parses_preview_mode() {
    assert_eq!(
        parse_launch_mode(&args(&["soyuz-studio", "--preview", "--script", "/tmp/preview.rhai"])),
        Ok(LaunchMode::Preview { script_path: "/tmp/preview.rhai".to_string(), check_only: false })
    );
}

#[test]
fn parses_preview_check_only() {
    assert_eq!(
        parse_launch_mode(&args(&["soyuz-studio", "--preview", "--script", "/tmp/preview.rhai", "--check-only"])),
        Ok(LaunchMode::Preview { script_path: "/tmp/preview.rhai".to_string(), check_only: true })
    );
}

#[test]
fn parses_embedded_preview() {
    assert_eq!(
        parse_launch_mode(&args(&[
            "soyuz-studio",
            "--embedded-preview",
            "--script",
            "/tmp/preview.rhai",
            "--parent",
            "42",
            "--x",
            "10",
            "--y",
            "20",
            "--width",
            "640",
            "--height",
            "480",
        ])),
        Ok(LaunchMode::EmbeddedPreview {
            script_path: "/tmp/preview.rhai".to_string(),
            parent_handle: 42,
            x: 10,
            y: 20,
            width: 640,
            height: 480,
            check_only: false,
        })
    );
}

#[test]
fn parses_export_check() {
    assert_eq!(
        parse_launch_mode(&args(&[
            "soyuz-studio",
            "--export-check",
            "--script",
            "/tmp/preview.rhai",
            "--out",
            "/tmp/preview.stl",
            "--resolution",
            "24",
        ])),
        Ok(LaunchMode::ExportCheck {
            script_path: "/tmp/preview.rhai".to_string(),
            out_path: "/tmp/preview.stl".to_string(),
            resolution: 24,
        })
    );
}

#[test]
fn rejects_preview_mode_without_script() {
    assert_eq!(parse_launch_mode(&args(&["soyuz-studio", "--preview"])), Err(USAGE.to_string()));
}

#[test]
fn rejects_export_check_without_output() {
    assert_eq!(
        parse_launch_mode(&args(&["soyuz-studio", "--export-check", "--script", "/tmp/preview.rhai"])),
        Err(USAGE.to_string())
    );
}

#[test]
fn rejects_invalid_resolution() {
    assert_eq!(
        parse_launch_mode(&args(&[
            "soyuz-studio",
            "--export-check",
            "--script",
            "/tmp/preview.rhai",
            "--out",
            "/tmp/preview.stl",
            "--resolution",
            "zero",
        ])),
        Err("Invalid --resolution value: zero".to_string())
    );
}

#[test]
fn rejects_two_launch_modes() {
    assert_eq!(
        parse_launch_mode(&args(&["soyuz-studio", "--preview", "--export-check"])),
        Err("Use only one launch mode: --preview, --embedded-preview, or --export-check".to_string())
    );
}

#[test]
fn rejects_check_only_for_export_check() {
    assert_eq!(
        parse_launch_mode(&args(&["soyuz-studio", "--export-check", "--check-only", "--script", "a", "--out", "b"])),
        Err("--check-only only applies to --preview".to_string())
    );
}

#[test]
fn reports_a_flag_without_its_value() {
    assert_eq!(
        parse_launch_mode(&args(&["soyuz-studio", "--preview", "--script"])),
        Err("Missing value for --script".to_string())
    );
    assert_eq!(
        parse_launch_mode(&args(&["soyuz-studio", "--width"])),
        Err("Missing value for --width".to_string())
    );
}

#[test]
fn rejects_zero_resolution_and_bad_numbers() {
    assert_eq!(
        parse_launch_mode(&args(&["soyuz-studio", "--resolution", "0"])),
        Err("--resolution must be greater than 0".to_string())
    );
    assert_eq!(
        parse_launch_mode(&args(&["soyuz-studio", "--x", "1.5"])),
        Err("Invalid --x value: 1.5".to_string())
    );
}

#[test]
fn export_check_uses_the_default_resolution() {
    assert_eq!(
        parse_launch_mode(&args(&["soyuz-studio", "--export-check", "-s", "a.rhai", "--out", "a.stl"])),
        Ok(LaunchMode::ExportCheck { script_path: "a.rhai".to_string(), out_path: "a.stl".to_string(), resolution: 16 })
    );
}

#[test]
fn unknown_arguments_are_ignored_and_the_program_name_is_skipped() {
    assert_eq!(
        parse_launch_mode(&args(&["--preview", "--bogus", "--fresh"])),
        Ok(LaunchMode::Studio { fresh_start: true })
    );
    assert_eq!(parse_launch_mode(&args(&[])), Ok(LaunchMode::Studio { fresh_start: false }));
}

#[test]
fn embedded_preview_accepts_negative_positions() {
    assert_eq!(
        parse_launch_mode(&args(&[
            "s", "--embedded-preview", "--script", "p", "--parent", "1", "--x", "-5", "--y", "+7", "--width", "2", "--height", "3",
        ])),
        Ok(LaunchMode::EmbeddedPreview { script_path: "p".to_string(), parent_handle: 1, x: -5, y: 7, width: 2, height: 3, check_only: false })
    );
}

#[test]
fn number_parsers_follow_the_integer_syntax() {
    assert_eq!(parse_u32("42", "--parent"), Ok(42));
    assert_eq!(parse_u32("+42", "--parent"), Ok(42));
    assert_eq!(parse_u32("-1", "--width"), Err("Invalid --width value: -1".to_string()));
    assert_eq!(parse_u32("4294967296", "--width"), Err("Invalid --width value: 4294967296".to_string()));
    assert_eq!(parse_i32("-2147483648", "--x"), Ok(-2147483648));
    assert_eq!(parse_i32(" 1", "--x"), Err("Invalid --x value:  1".to_string()));
    assert_eq!(parse_resolution("24"), Ok(24));
    assert_eq!(parse_resolution("0"), Err("--resolution must be greater than 0".to_string()));
}

#[test]
fn preview_runner_takes_the_value_after_script() {
    assert_eq!(parse_args(&args(&["runner", "--script", "/tmp/a.rhai"])), Some("/tmp/a.rhai".to_string()));
    assert_eq!(parse_args(&args(&["runner", "-x", "-s", "b.rhai", "--script", "c"])), Some("b.rhai".to_string()));
    assert_eq!(parse_args(&args(&["runner", "--script"])), None);
    assert_eq!(parse_args(&args(&["--script", "a"])), None);
}

#[test]
fn only_mode_flags_in_flag_position_count_as_launch_modes() {
    let both = parse_launch_mode(&args(&["studio", "--export-check", "--script", "a.rhai", "--out", "a.glb", "--preview"]));
    assert_eq!(both, Err("Use only one launch mode: --preview, --embedded-preview, or --export-check".to_string()));
    // `--preview` here is the value of `--script`, not a mode flag.
    let one = parse_launch_mode(&args(&["studio", "--script", "--preview"]));
    assert_eq!(one, Ok(LaunchMode::Studio { fresh_start: false }));
}
