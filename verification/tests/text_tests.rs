use soyuz_studio::highlight::{highlight_rhai, html_escape, line_count};
use soyuz_studio::text::{byte_to_utf16, line_col_to_offset, position_to_line_col, utf16_to_byte};

#[test]
fn utf16_byte_round_trip_handles_non_ascii() {
    let text = "aé😀b"; // 'a'=1u16/1b, 'é'=1u16/2b, '😀'=2u16/4b, 'b'=1u16/1b
    // Byte boundaries: a@0, é@1, 😀@3, b@7, end@8
    assert_eq!(utf16_to_byte(text, 0), 0);
    assert_eq!(utf16_to_byte(text, 1), 1); // after 'a'
    assert_eq!(utf16_to_byte(text, 2), 3); // after 'é'
    assert_eq!(utf16_to_byte(text, 4), 7); // after '😀' (2 u16 units)
    assert_eq!(utf16_to_byte(text, 5), 8); // after 'b'
    assert_eq!(utf16_to_byte(text, 999), text.len()); // clamps

    assert_eq!(byte_to_utf16(text, 0), 0);
    assert_eq!(byte_to_utf16(text, 1), 1);
    assert_eq!(byte_to_utf16(text, 3), 2);
    assert_eq!(byte_to_utf16(text, 7), 4);
    assert_eq!(byte_to_utf16(text, 8), 5);
}

#[test]
fn position_to_line_col_does_not_panic_on_non_ascii() {
    let text = "héllo\nwörld";
    // UTF-16 offset 7 = 'w' on line 2 (h é l l o \n w -> 6 u16 units before 'w')
    let (line, col) = position_to_line_col(text, 7);
    assert_eq!(line, 2);
    assert_eq!(col, 2);
    // Out-of-range offset clamps without panicking.
    let _ = position_to_line_col(text, 9999);
}

#[test]
fn line_col_to_offset_maps_lines_and_clamps() {
    let text = "let a = 1;\nlet b = 2;\n";
    assert_eq!(line_col_to_offset(text, 1, 1), 0);
    assert_eq!(line_col_to_offset(text, 2, 1), 11);
    assert_eq!(line_col_to_offset(text, 2, 5), 15);
    // Column past the end of the text clamps to the text length.
    assert_eq!(line_col_to_offset(text, 2, 999), text.len());
    // Line past the end of the text clamps to the text length.
    assert_eq!(line_col_to_offset(text, 99, 1), text.len());
}

#[test]
fn byte_and_utf16_offsets_round_trip_at_every_boundary() {
    let text = "aé😀b\n✓";
    let mut byte = 0;
    let mut u16 = 0;
    for c in text.chars() {
        assert_eq!(byte_to_utf16(text, byte), u16);
        assert_eq!(utf16_to_byte(text, u16), byte);
        byte += c.len_utf8();
        u16 += c.len_utf16();
    }
    assert_eq!(byte_to_utf16(text, byte), u16);
    assert_eq!(utf16_to_byte(text, u16), byte);
}

#[test]
fn utf16_offset_inside_a_surrogate_pair_lands_after_the_character() {
    // Offset 3 is between the two code units of '😀'; the walk stops at the
    // first character where the running count reaches it.
    assert_eq!(utf16_to_byte("aé😀b", 3), 7);
}

#[test]
fn position_to_line_col_counts_columns_in_characters() {
    assert_eq!(position_to_line_col("ab\ncd", 0), (1, 1));
    assert_eq!(position_to_line_col("ab\ncd", 2), (1, 3));
    assert_eq!(position_to_line_col("ab\ncd", 3), (2, 1));
    assert_eq!(position_to_line_col("😀x", 2), (1, 2));
}

#[test]
fn html_escape_replaces_markup_characters() {
    assert_eq!(html_escape("a < b && c > \"d\""), "a &lt; b &amp;&amp; c &gt; &quot;d&quot;");
    assert_eq!(html_escape("plain"), "plain");
    assert_eq!(html_escape(""), "");
}

#[test]
fn highlight_marks_keywords_builtins_numbers_strings_and_comments() {
    let html = highlight_rhai("let s = sphere(1.5); // ball");
    assert_eq!(
        html,
        "<span class=\"hl-keyword\">let</span> s = <span class=\"hl-builtin\">sphere</span>(<span class=\"hl-number\">1.5</span>); <span class=\"hl-comment\">// ball</span>\n"
    );
    assert_eq!(highlight_rhai("\"a\\\"b\" x"), "<span class=\"hl-string\">&quot;a\\&quot;b&quot;</span> x\n");
    assert_eq!(highlight_rhai("-2"), "<span class=\"hl-number\">-2</span>\n");
    assert_eq!(highlight_rhai("a - b"), "a - b\n");
}

#[test]
fn highlight_emits_one_line_per_source_line() {
    assert_eq!(highlight_rhai(""), "");
    assert_eq!(highlight_rhai("x\n"), "x\n");
    assert_eq!(highlight_rhai("x\r\ny"), "x\ny\n");
    assert_eq!(highlight_rhai("a\n\nb"), "a\n\nb\n");
    assert_eq!(highlight_rhai("<x>"), "&lt;x&gt;\n");
}

#[test]
fn highlight_leaves_an_unterminated_string_to_the_end_of_the_line() {
    assert_eq!(highlight_rhai("\"open\nlet"), "<span class=\"hl-string\">&quot;open</span>\n<span class=\"hl-keyword\">let</span>\n");
}

#[test]
fn line_count_is_one_more_than_the_newlines() {
    assert_eq!(line_count(""), 1);
    assert_eq!(line_count("a"), 1);
    assert_eq!(line_count("a\n"), 2);
    assert_eq!(line_count("a\nb"), 2);
    assert_eq!(line_count("a\nb\n"), 3);
}

#[test]
fn positions_past_the_end_land_on_the_last_line() {
    assert_eq!(position_to_line_col("héllo\nwörld", 9999), (2, 6));
    assert_eq!(position_to_line_col("héllo\nwörld", 3), (1, 4));
    // Line zero and lines past the last give the text's length; column zero counts as one.
    assert_eq!(line_col_to_offset("ab\ncd", 0, 1), 5);
    assert_eq!(line_col_to_offset("ab\ncd", 2, 0), 3);
    assert_eq!(line_col_to_offset("ab\n", 2, 4), 3);
}

/// The text a browser shows for `html`: tags dropped, the four entities read.
fn shown(html: &str) -> String {
    let mut out = String::new();
    let mut rest = html;
    while let Some(c) = rest.chars().next() {
        if c == '<' {
            let end = rest.find('>').map(|i| i + 1).unwrap_or(rest.len());
            rest = &rest[end..];
            continue;
        }
        let mut matched = false;
        for (entity, ch) in [("&amp;", '&'), ("&lt;", '<'), ("&gt;", '>'), ("&quot;", '"')] {
            if rest.starts_with(entity) {
                out.push(ch);
                rest = &rest[entity.len()..];
                matched = true;
                break;
            }
        }
        if !matched {
            out.push(c);
            rest = &rest[c.len_utf8()..];
        }
    }
    out
}

#[test]
fn highlighting_shows_the_code_itself() {
    let code = "let s = sphere(1.0); // a <ball> & \"more\"\nlet t = \"x\\\"y\" + -2.5;\n\nfn f() { s }";
    assert_eq!(shown(&highlight_rhai(code)), format!("{code}\n"));
    let ended = "cube(2)\n";
    assert_eq!(shown(&highlight_rhai(ended)), ended);
    assert_eq!(shown(&highlight_rhai("")), "");
}

#[test]
fn offsets_inside_a_surrogate_pair_move_to_the_next_boundary() {
    assert_eq!(utf16_to_byte("aé😀b", 3), 7);
    assert_eq!(utf16_to_byte("aé😀b", 4), 7);
    assert_eq!(utf16_to_byte("aé😀b", 99), 8);
}

#[test]
fn highlighting_shows_the_lines_that_str_lines_gives() {
    let code = "let a = 1;\r\nlet b = \"<b>\";\r\n";
    let expected: String = code.lines().map(|l| format!("{l}\n")).collect();
    assert_eq!(shown(&highlight_rhai(code)), expected);
    // Outside the span tags no markup character is left.
    let html = highlight_rhai("x < y && z > \"q\"");
    let mut outside = String::new();
    let mut in_tag = false;
    for c in html.chars() {
        if in_tag {
            in_tag = c != '>';
        } else if c == '<' {
            in_tag = true;
        } else {
            outside.push(c);
        }
    }
    assert!(!outside.contains('<') && !outside.contains('>') && !outside.contains('"'));
}
