//! Syntax highlighting of Rhai scripts as HTML, and the editor's line count.
use crate::launch::is_digit;
use crate::strings::{chars_text, push_char, push_str};
use crate::text::{str_eq, text_chars};
use vstd::prelude::*;

verus! {

/// Whether `c` is alphabetic, as `char::is_alphabetic` reports it.
pub uninterp spec fn alphabetic(c: char) -> bool;

/// Whether `c` is alphanumeric, as `char::is_alphanumeric` reports it.
pub uninterp spec fn alphanumeric(c: char) -> bool;

/// `char::is_alphabetic`: whether `c` has the Unicode Alphabetic property.
/// The result is named by `alphabetic`.
#[verifier::external_body]
fn is_alpha(c: char) -> (r: bool)
    ensures
        r == alphabetic(c),
{
    c.is_alphabetic()
}

/// `char::is_alphanumeric`: whether `c` is alphabetic or numeric (Unicode).
/// The result is named by `alphanumeric`.
#[verifier::external_body]
pub(crate) fn is_alnum(c: char) -> (r: bool)
    ensures
        r == alphanumeric(c),
{
    c.is_alphanumeric()
}

/// The HTML text for one character: `&`, `<`, `>` and `"` become entities.
pub open spec fn escape_char(c: char) -> Seq<char> {
    if c == '&' {
        "&amp;"@
    } else if c == '<' {
        "&lt;"@
    } else if c == '>' {
        "&gt;"@
    } else if c == '"' {
        "&quot;"@
    } else {
        seq![c]
    }
}

/// `s` with `&`, `<`, `>` and `"` replaced by their HTML entities.
pub open spec fn escape(s: Seq<char>) -> Seq<char>
    decreases s.len(),
{
    if s.len() == 0 {
        Seq::empty()
    } else {
        escape(s.drop_last()) + escape_char(s.last())
    }
}

/// Whether a text holds no character that HTML reads as markup.
pub open spec fn markup_free(s: Seq<char>) -> bool {
    forall|i: int| 0 <= i < s.len() ==> s[i] != '<' && s[i] != '>' && s[i] != '"'
}

/// Escaped text holds no `<`, `>` or `"`, so it can stand inside HTML text
/// and attribute values.
pub proof fn lemma_escape_markup_free(s: Seq<char>)
    ensures
        markup_free(escape(s)),
    decreases s.len(),
{
    if s.len() > 0 {
        lemma_escape_markup_free(s.drop_last());
        reveal_strlit("&amp;");
        reveal_strlit("&lt;");
        reveal_strlit("&gt;");
        reveal_strlit("&quot;");
        let a = escape(s.drop_last());
        let b = escape_char(s.last());
        assert(markup_free(b));
        assert forall|i: int| 0 <= i < (a + b).len() implies (a + b)[i] != '<' && (a + b)[i] != '>' && (a + b)[i] != '"' by {
            if i >= a.len() {
                assert((a + b)[i] == b[i - a.len()]);
            } else {
                assert((a + b)[i] == a[i]);
            }
        }
    }
}

/// The Rhai keywords.
pub open spec fn keywords() -> Seq<Seq<char>> {
    seq![
        "let"@, "const"@, "fn"@, "if"@, "else"@, "while"@, "for"@, "in"@, "loop"@, "break"@,
        "continue"@, "return"@, "true"@, "false"@, "null"@,
    ]
}

/// The scripting API's shape and operation names.
pub open spec fn builtins() -> Seq<Seq<char>> {
    seq![
        "sphere"@, "cube"@, "box3"@, "cylinder"@, "capsule"@, "torus"@, "cone"@, "plane"@,
        "ellipsoid"@, "octahedron"@, "hex_prism"@, "tri_prism"@, "rounded_box"@, "mandelbulb"@,
        "menger"@, "union"@, "subtract"@, "intersect"@, "smooth_union"@, "smooth_subtract"@,
        "smooth_intersect"@, "translate"@, "translate_x"@, "translate_y"@, "translate_z"@,
        "rotate"@, "rotate_x"@, "rotate_y"@, "rotate_z"@, "scale"@, "scale_xyz"@, "mirror"@,
        "twist"@, "bend"@, "taper"@, "hollow"@, "shell"@, "onion"@, "round"@, "elongate"@,
        "repeat"@, "repeat_limited"@, "repeat_polar"@, "ground_plane"@,
    ]
}

/// `text` escaped inside a span of class `class`.
pub open spec fn span(class: Seq<char>, text: Seq<char>) -> Seq<char> {
    "<span class=\""@ + class + "\">"@ + escape(text) + "</span>"@
}

/// The end of a string literal whose body starts at `j`: just past the closing
/// quote, or the end of the line (a backslash escapes the next character).
pub open spec fn string_end(cs: Seq<char>, j: int) -> int
    decreases cs.len() - j,
{
    if j < 0 || j >= cs.len() {
        j
    } else if cs[j] == '"' {
        j + 1
    } else if cs[j] == '\\' && j + 1 < cs.len() {
        string_end(cs, j + 2)
    } else {
        string_end(cs, j + 1)
    }
}

/// The end of a run of digits and dots starting at `j`.
pub open spec fn number_end(cs: Seq<char>, j: int) -> int
    decreases cs.len() - j,
{
    if j < 0 || j >= cs.len() {
        j
    } else if is_digit(cs[j]) || cs[j] == '.' {
        number_end(cs, j + 1)
    } else {
        j
    }
}

/// The end of a run of alphanumeric characters and underscores starting at `j`.
pub open spec fn word_end(cs: Seq<char>, j: int) -> int
    decreases cs.len() - j,
{
    if j < 0 || j >= cs.len() {
        j
    } else if alphanumeric(cs[j]) || cs[j] == '_' {
        word_end(cs, j + 1)
    } else {
        j
    }
}

/// The HTML for a word: keywords and builtins in their spans, others escaped.
pub open spec fn word_html(w: Seq<char>) -> Seq<char> {
    if keywords().contains(w) {
        span("hl-keyword"@, w)
    } else if builtins().contains(w) {
        span("hl-builtin"@, w)
    } else {
        escape(w)
    }
}

/// Where the token starting at `i` ends.
pub open spec fn token_end(cs: Seq<char>, i: int) -> int {
    let c = cs[i];
    if c == '/' && i + 1 < cs.len() && cs[i + 1] == '/' {
        cs.len() as int
    } else if c == '"' {
        string_end(cs, i + 1)
    } else if is_digit(c) || (c == '-' && i + 1 < cs.len() && is_digit(cs[i + 1])) {
        number_end(cs, i + 1)
    } else if alphabetic(c) || c == '_' {
        word_end(cs, i + 1)
    } else {
        i + 1
    }
}

/// The HTML for the token `cs[i..e]` starting at `i`.
pub open spec fn token_html(cs: Seq<char>, i: int, e: int) -> Seq<char> {
    let c = cs[i];
    let text = cs.subrange(i, e);
    if c == '/' && i + 1 < cs.len() && cs[i + 1] == '/' {
        span("hl-comment"@, text)
    } else if c == '"' {
        span("hl-string"@, text)
    } else if is_digit(c) || (c == '-' && i + 1 < cs.len() && is_digit(cs[i + 1])) {
        span("hl-number"@, text)
    } else if alphabetic(c) || c == '_' {
        word_html(text)
    } else {
        escape(text)
    }
}

pub proof fn lemma_scan_ends(cs: Seq<char>, j: int)
    requires
        0 <= j <= cs.len(),
    ensures
        j <= string_end(cs, j) <= cs.len(),
        j <= number_end(cs, j) <= cs.len(),
        j <= word_end(cs, j) <= cs.len(),
    decreases cs.len() - j,
{
    if j < cs.len() {
        lemma_scan_ends(cs, j + 1);
        if j + 2 <= cs.len() {
            lemma_scan_ends(cs, j + 2);
        }
    }
}

/// The highlighted HTML of a line from index `i` on: a `//` comment runs to
/// the end of the line, a string to its closing quote, a number (with an
/// optional leading minus) over digits and dots, a word over alphanumerics and
/// underscores; any other character is escaped on its own.
pub open spec fn highlight_from(cs: Seq<char>, i: int) -> Seq<char>
    decreases cs.len() - i,
{
    if i < 0 || i >= cs.len() {
        Seq::empty()
    } else {
        let e = token_end(cs, i);
        if e <= i || e > cs.len() {
            Seq::empty()
        } else {
            token_html(cs, i, e) + highlight_from(cs, e)
        }
    }
}

/// The index of the first newline at or after `j` (the length when none).
pub open spec fn line_end(cs: Seq<char>, j: int) -> int
    decreases cs.len() - j,
{
    if j < 0 || j >= cs.len() {
        cs.len() as int
    } else if cs[j] == '\n' {
        j
    } else {
        line_end(cs, j + 1)
    }
}

/// The line from `start` to `end`, without the `\r` of a `\r\n` ending.
pub open spec fn line_text(cs: Seq<char>, start: int, end: int) -> Seq<char> {
    let raw = cs.subrange(start, end);
    if end < cs.len() && raw.len() > 0 && raw.last() == '\r' {
        raw.drop_last()
    } else {
        raw
    }
}

/// The highlighted HTML of the lines of `cs` from index `start` on, each
/// followed by a newline (the lines are those `str::lines` yields).
pub open spec fn highlight_lines(cs: Seq<char>, start: int) -> Seq<char>
    decreases cs.len() - start,
{
    if start < 0 || start >= cs.len() {
        Seq::empty()
    } else {
        let e = line_end(cs, start);
        proof {
            lemma_line_end(cs, start);
        }
        if e < start {
            Seq::empty()
        } else if e >= cs.len() {
            highlight_from(line_text(cs, start, e), 0) + seq!['\n']
        } else {
            highlight_from(line_text(cs, start, e), 0) + seq!['\n'] + highlight_lines(cs, e + 1)
        }
    }
}

pub proof fn lemma_line_end(cs: Seq<char>, j: int)
    requires
        0 <= j <= cs.len(),
    ensures
        j <= line_end(cs, j) <= cs.len(),
        line_end(cs, j) < cs.len() ==> cs[line_end(cs, j)] == '\n',
        forall|k: int| j <= k < line_end(cs, j) ==> cs[k] != '\n',
    decreases cs.len() - j,
{
    if j < cs.len() {
        lemma_line_end(cs, j + 1);
    }
}


/// Whether `c` is an ASCII decimal digit.
fn ascii_digit(c: char) -> (r: bool)
    ensures
        r == is_digit(c),
{
    c >= '0' && c <= '9'
}

/// Append the HTML text of `c`.
fn push_escaped_char(out: &mut String, c: char)
    ensures
        final(out)@ == old(out)@ + escape_char(c),
{
    if c == '&' {
        push_str(out, "&amp;");
    } else if c == '<' {
        push_str(out, "&lt;");
    } else if c == '>' {
        push_str(out, "&gt;");
    } else if c == '"' {
        push_str(out, "&quot;");
    } else {
        push_char(out, c);
        assert(seq![c] =~= seq![c]);
    }
}

/// Append `cs[from..to]` escaped.
fn push_escaped(out: &mut String, cs: &Vec<char>, from: usize, to: usize)
    requires
        from <= to <= cs@.len(),
    ensures
        final(out)@ == old(out)@ + escape(cs@.subrange(from as int, to as int)),
{
    let ghost start = out@;
    let mut k: usize = from;
    proof {
        assert(cs@.subrange(from as int, from as int) =~= Seq::<char>::empty());
        assert(start + Seq::<char>::empty() =~= start);
    }
    while k < to
        invariant
            from <= k <= to,
            to <= cs@.len(),
            out@ == start + escape(cs@.subrange(from as int, k as int)),
        decreases to - k,
    {
        proof {
            assert(cs@.subrange(from as int, k + 1).drop_last() =~= cs@.subrange(from as int, k as int));
            assert(cs@.subrange(from as int, k + 1).last() == cs@[k as int]);
        }
        push_escaped_char(out, cs[k]);
        assert(out@ =~= start + escape(cs@.subrange(from as int, k + 1)));
        k = k + 1;
    }
}

/// Replace `&`, `<`, `>` and `"` by their HTML entities.
pub fn html_escape(s: &str) -> (r: String)
    ensures
        r@ == escape(s@),
{
    let cs = text_chars(s);
    let mut out = String::new();
    push_escaped(&mut out, &cs, 0, cs.len());
    assert(cs@.subrange(0, cs@.len() as int) =~= s@);
    assert(out@ =~= escape(s@));
    out
}

/// Append `cs[from..to]` escaped inside a span of class `class`.
fn push_span(out: &mut String, class: &str, cs: &Vec<char>, from: usize, to: usize)
    requires
        from <= to <= cs@.len(),
    ensures
        final(out)@ == old(out)@ + span(class@, cs@.subrange(from as int, to as int)),
{
    let ghost start = out@;
    push_str(out, "<span class=\"");
    push_str(out, class);
    push_str(out, "\">");
    push_escaped(out, cs, from, to);
    push_str(out, "</span>");
    assert(out@ =~= start + span(class@, cs@.subrange(from as int, to as int)));
}

/// The views of a sequence of strings.
pub open spec fn word_views(list: Seq<&str>) -> Seq<Seq<char>> {
    list.map_values(|w: &str| w@)
}

/// Whether `w` is one of the words in `list`.
fn contains_word(list: &[&str], w: &str) -> (r: bool)
    ensures
        r == word_views(list@).contains(w@),
{
    let mut i: usize = 0;
    while i < list.len()
        invariant
            0 <= i <= list@.len(),
            forall|j: int| 0 <= j < i ==> list@[j]@ != w@,
        decreases list@.len() - i,
    {
        if str_eq(list[i], w) {
            assert(word_views(list@)[i as int] == w@);
            return true;
        }
        i = i + 1;
    }
    assert forall|j: int| 0 <= j < word_views(list@).len() implies word_views(list@)[j] != w@ by {
        assert(word_views(list@)[j] == list@[j]@);
    }
    false
}

/// Whether `w` is a Rhai keyword.
fn is_keyword(w: &str) -> (r: bool)
    ensures
        r == keywords().contains(w@),
{
    let list: [&str; 15] = [
        "let", "const", "fn", "if", "else", "while", "for", "in", "loop", "break", "continue",
        "return", "true", "false", "null",
    ];
    assert(word_views(list@) =~= keywords());
    contains_word(&list, w)
}

/// Whether `w` is one of the scripting API's names.
fn is_builtin(w: &str) -> (r: bool)
    ensures
        r == builtins().contains(w@),
{
    let list: [&str; 44] = [
        "sphere", "cube", "box3", "cylinder", "capsule", "torus", "cone", "plane",
        "ellipsoid", "octahedron", "hex_prism", "tri_prism", "rounded_box", "mandelbulb",
        "menger", "union", "subtract", "intersect", "smooth_union", "smooth_subtract",
        "smooth_intersect", "translate", "translate_x", "translate_y", "translate_z",
        "rotate", "rotate_x", "rotate_y", "rotate_z", "scale", "scale_xyz", "mirror",
        "twist", "bend", "taper", "hollow", "shell", "onion", "round", "elongate",
        "repeat", "repeat_limited", "repeat_polar", "ground_plane",
    ];
    assert(word_views(list@) =~= builtins());
    contains_word(&list, w)
}

/// The end of a string literal whose body starts at `j` (see `string_end`).
fn scan_string(cs: &Vec<char>, j: usize) -> (r: usize)
    requires
        j <= cs@.len(),
    ensures
        r == string_end(cs@, j as int),
{
    let mut end = j;
    while end < cs.len() && cs[end] != '"'
        invariant
            j <= end <= cs@.len(),
            string_end(cs@, j as int) == string_end(cs@, end as int),
        decreases cs@.len() - end,
    {
        if cs[end] == '\\' && end + 1 < cs.len() {
            end = end + 1;
        }
        end = end + 1;
    }
    if end < cs.len() {
        end = end + 1;
    }
    end
}

/// The end of a run of digits and dots starting at `j`.
fn scan_number(cs: &Vec<char>, j: usize) -> (r: usize)
    requires
        j <= cs@.len(),
    ensures
        r == number_end(cs@, j as int),
{
    let mut end = j;
    while end < cs.len() && (ascii_digit(cs[end]) || cs[end] == '.')
        invariant
            j <= end <= cs@.len(),
            number_end(cs@, j as int) == number_end(cs@, end as int),
        decreases cs@.len() - end,
    {
        end = end + 1;
    }
    end
}

/// The end of a run of alphanumeric characters and underscores starting at `j`.
fn scan_word(cs: &Vec<char>, j: usize) -> (r: usize)
    requires
        j <= cs@.len(),
    ensures
        r == word_end(cs@, j as int),
{
    let mut end = j;
    while end < cs.len() && (is_alnum(cs[end]) || cs[end] == '_')
        invariant
            j <= end <= cs@.len(),
            word_end(cs@, j as int) == word_end(cs@, end as int),
        decreases cs@.len() - end,
    {
        end = end + 1;
    }
    end
}

/// Append the highlighted HTML of one line.
fn highlight_line(cs: &Vec<char>, out: &mut String)
    ensures
        final(out)@ == old(out)@ + highlight_from(cs@, 0),
{
    let ghost start = out@;
    let mut i: usize = 0;
    proof {
        assert(start + highlight_from(cs@, 0) =~= out@ + highlight_from(cs@, 0));
    }
    while i < cs.len()
        invariant
            i <= cs@.len(),
            start + highlight_from(cs@, 0) == out@ + highlight_from(cs@, i as int),
        decreases cs@.len() - i,
    {
        let ghost before = out@;
        let c = cs[i];
        proof {
            lemma_scan_ends(cs@, i + 1);
            if i + 2 <= cs@.len() {
                lemma_scan_ends(cs@, i + 2);
            }
        }
        let e: usize;
        if c == '/' && i + 1 < cs.len() && cs[i + 1] == '/' {
            e = cs.len();
            push_span(out, "hl-comment", cs, i, e);
        } else if c == '"' {
            e = scan_string(cs, i + 1);
            push_span(out, "hl-string", cs, i, e);
        } else if ascii_digit(c) || (c == '-' && i + 1 < cs.len() && ascii_digit(cs[i + 1])) {
            e = scan_number(cs, i + 1);
            push_span(out, "hl-number", cs, i, e);
        } else if is_alpha(c) || c == '_' {
            e = scan_word(cs, i + 1);
            let w = chars_text(cs, i, e);
            if is_keyword(w.as_str()) {
                push_span(out, "hl-keyword", cs, i, e);
            } else if is_builtin(w.as_str()) {
                push_span(out, "hl-builtin", cs, i, e);
            } else {
                push_escaped(out, cs, i, e);
            }
        } else {
            e = i + 1;
            push_escaped(out, cs, i, e);
        }
        proof {
            assert(token_end(cs@, i as int) == e);
            assert(out@ == before + token_html(cs@, i as int, e as int));
            assert(highlight_from(cs@, i as int) == token_html(cs@, i as int, e as int) + highlight_from(cs@, e as int));
            assert(before + highlight_from(cs@, i as int) =~= out@ + highlight_from(cs@, e as int));
        }
        i = e;
    }
    assert(out@ =~= start + highlight_from(cs@, 0));
}

/// The end of the line starting at `start` (see `line_end`).
fn find_line_end(cs: &Vec<char>, start: usize) -> (r: usize)
    requires
        start <= cs@.len(),
    ensures
        r == line_end(cs@, start as int),
{
    let mut e = start;
    while e < cs.len() && cs[e] != '\n'
        invariant
            start <= e <= cs@.len(),
            line_end(cs@, start as int) == line_end(cs@, e as int),
        decreases cs@.len() - e,
    {
        e = e + 1;
    }
    e
}

/// Simple Rhai syntax highlighting: each line's tokens as HTML spans, every
/// line followed by a newline.
pub fn highlight_rhai(code: &str) -> (r: String)
    ensures
        r@ == highlight_lines(code@, 0),
{
    let cs = text_chars(code);
    let mut out = String::new();
    let mut start: usize = 0;
    while start < cs.len()
        invariant
            cs@ == code@,
            start <= cs@.len(),
            highlight_lines(code@, 0) == out@ + highlight_lines(code@, start as int),
        decreases cs@.len() - start,
    {
        let e = find_line_end(&cs, start);
        proof {
            lemma_line_end(cs@, start as int);
        }
        let to = if e < cs.len() && e > start && cs[e - 1] == '\r' { e - 1 } else { e };
        let mut line: Vec<char> = Vec::new();
        let mut k: usize = start;
        while k < to
            invariant
                start <= k <= to,
                to <= cs@.len(),
                line@ == cs@.subrange(start as int, k as int),
            decreases to - k,
        {
            line.push(cs[k]);
            assert(line@ =~= cs@.subrange(start as int, k + 1));
            k = k + 1;
        }
        assert(line@ =~= line_text(cs@, start as int, e as int));
        let ghost before = out@;
        highlight_line(&line, &mut out);
        push_char(&mut out, '\n');
        let next = if e < cs.len() { e + 1 } else { cs.len() };
        proof {
            if e < cs@.len() {
                assert(highlight_lines(cs@, start as int) == highlight_from(line@, 0) + seq!['\n'] + highlight_lines(cs@, next as int));
            } else {
                assert(highlight_lines(cs@, start as int) == highlight_from(line@, 0) + seq!['\n']);
                assert(highlight_lines(cs@, next as int) == Seq::<char>::empty());
            }
            assert(before + highlight_lines(cs@, start as int) =~= out@ + highlight_lines(cs@, next as int));
        }
        start = next;
    }
    out
}

/// The number of lines the editor numbers: one more than the number of
/// newlines (an empty text has one line).
pub fn line_count(code: &str) -> (r: usize)
    requires
        code@.len() < usize::MAX,
    ensures
        r == crate::text::newline_count(code@) + 1,
{
    let cs = text_chars(code);
    let mut n: usize = 0;
    let mut i: usize = 0;
    while i < cs.len()
        invariant
            cs@ == code@,
            code@.len() < usize::MAX,
            0 <= i <= cs@.len(),
            n == crate::text::newline_count(cs@.take(i as int)),
            n <= i,
        decreases cs@.len() - i,
    {
        proof {
            assert(cs@.take(i as int + 1) =~= cs@.take(i as int) + seq![cs@[i as int]]);
            crate::text::lemma_newline_count_concat(cs@.take(i as int), seq![cs@[i as int]]);
            assert(seq![cs@[i as int]].drop_first() =~= Seq::<char>::empty());
            assert(crate::text::newline_count(Seq::<char>::empty()) == 0);
        }
        if cs[i] == '\n' {
            n = n + 1;
        }
        i = i + 1;
    }
    assert(cs@.take(cs@.len() as int) =~= cs@);
    n + 1
}

/// Whether `h` starts with the entity `p`, `n` characters long.
pub open spec fn entity_at(h: Seq<char>, p: Seq<char>, n: int) -> bool {
    h.len() >= n && h.subrange(0, n) == p
}

/// The text a browser shows for the HTML `h` (inside a tag when `in_tag`):
/// tags are dropped, and the entities `&amp;`, `&lt;`, `&gt;` and `&quot;`
/// read as the characters they stand for.
pub open spec fn shown_text(h: Seq<char>, in_tag: bool) -> Seq<char>
    decreases h.len(),
{
    if h.len() == 0 {
        Seq::empty()
    } else if in_tag {
        shown_text(h.drop_first(), h[0] != '>')
    } else if h[0] == '<' {
        shown_text(h.drop_first(), true)
    } else if entity_at(h, "&amp;"@, 5) {
        seq!['&'] + shown_text(h.skip(5), false)
    } else if entity_at(h, "&lt;"@, 4) {
        seq!['<'] + shown_text(h.skip(4), false)
    } else if entity_at(h, "&gt;"@, 4) {
        seq!['>'] + shown_text(h.skip(4), false)
    } else if entity_at(h, "&quot;"@, 6) {
        seq!['"'] + shown_text(h.skip(6), false)
    } else {
        seq![h[0]] + shown_text(h.drop_first(), false)
    }
}

/// An escaped character shows as itself.
proof fn lemma_shown_escape_char(c: char, r: Seq<char>)
    ensures
        shown_text(escape_char(c) + r, false) == seq![c] + shown_text(r, false),
{
    reveal_strlit("&amp;");
    reveal_strlit("&lt;");
    reveal_strlit("&gt;");
    reveal_strlit("&quot;");
    let h = escape_char(c) + r;
    if c == '&' {
        assert(h.subrange(0, 5) =~= "&amp;"@);
        assert(h.skip(5) =~= r);
    } else if c == '<' {
        assert(h[1] == 'l');
        assert(h.subrange(0, 4) =~= "&lt;"@);
        assert(h.skip(4) =~= r);
        assert(!entity_at(h, "&amp;"@, 5)) by {
            if h.len() >= 5 { assert(h.subrange(0, 5)[1] != "&amp;"@[1]); }
        }
    } else if c == '>' {
        assert(h.subrange(0, 4) =~= "&gt;"@);
        assert(h.skip(4) =~= r);
        assert(!entity_at(h, "&amp;"@, 5)) by {
            if h.len() >= 5 { assert(h.subrange(0, 5)[1] != "&amp;"@[1]); }
        }
        assert(!entity_at(h, "&lt;"@, 4)) by {
            assert(h.subrange(0, 4)[1] != "&lt;"@[1]);
        }
    } else if c == '"' {
        assert(h.subrange(0, 6) =~= "&quot;"@);
        assert(h.skip(6) =~= r);
        assert(!entity_at(h, "&amp;"@, 5)) by {
            assert(h.subrange(0, 5)[1] != "&amp;"@[1]);
        }
        assert(!entity_at(h, "&lt;"@, 4)) by {
            assert(h.subrange(0, 4)[1] != "&lt;"@[1]);
        }
        assert(!entity_at(h, "&gt;"@, 4)) by {
            assert(h.subrange(0, 4)[1] != "&gt;"@[1]);
        }
    } else {
        assert(h[0] == c);
        assert(h.drop_first() =~= r);
        assert(!entity_at(h, "&amp;"@, 5)) by {
            if h.len() >= 5 { assert(h.subrange(0, 5)[0] != "&amp;"@[0]); }
        }
        assert(!entity_at(h, "&lt;"@, 4)) by {
            if h.len() >= 4 { assert(h.subrange(0, 4)[0] != "&lt;"@[0]); }
        }
        assert(!entity_at(h, "&gt;"@, 4)) by {
            if h.len() >= 4 { assert(h.subrange(0, 4)[0] != "&gt;"@[0]); }
        }
        assert(!entity_at(h, "&quot;"@, 6)) by {
            if h.len() >= 6 { assert(h.subrange(0, 6)[0] != "&quot;"@[0]); }
        }
    }
}

/// Escaped text shows as the text itself.
proof fn lemma_shown_escape(t: Seq<char>, r: Seq<char>)
    ensures
        shown_text(escape(t) + r, false) == t + shown_text(r, false),
    decreases t.len(),
{
    if t.len() == 0 {
        assert(escape(t) + r =~= r);
        assert(t + shown_text(r, false) =~= shown_text(r, false));
    } else {
        let c = t.last();
        let r2 = escape_char(c) + r;
        assert(escape(t) + r =~= escape(t.drop_last()) + r2);
        lemma_shown_escape(t.drop_last(), r2);
        lemma_shown_escape_char(c, r);
        assert(t =~= t.drop_last() + seq![c]);
        assert(t.drop_last() + (seq![c] + shown_text(r, false)) =~= t + shown_text(r, false));
    }
}

/// Inside a tag, everything up to its closing `>` is hidden.
proof fn lemma_shown_tag(x: Seq<char>, r: Seq<char>)
    requires
        forall|i: int| 0 <= i < x.len() ==> x[i] != '>',
    ensures
        shown_text(x + seq!['>'] + r, true) == shown_text(r, false),
    decreases x.len(),
{
    let h = x + seq!['>'] + r;
    if x.len() == 0 {
        assert(h[0] == '>');
        assert(h.drop_first() =~= r);
    } else {
        assert(h[0] == x[0]);
        assert(h.drop_first() =~= x.drop_first() + seq!['>'] + r);
        lemma_shown_tag(x.drop_first(), r);
    }
}

/// A span shows as its text, when its class holds no `>`.
proof fn lemma_shown_span(class: Seq<char>, t: Seq<char>, r: Seq<char>)
    requires
        forall|i: int| 0 <= i < class.len() ==> class[i] != '>',
    ensures
        shown_text(span(class, t) + r, false) == t + shown_text(r, false),
{
    reveal_strlit("<span class=\"");
    reveal_strlit("\">");
    reveal_strlit("</span>");
    let a = "<span class=\""@;
    let c = "</span>"@;
    let x = a.drop_first() + class + seq!['"'];
    let rest = escape(t) + c + r;
    let h = span(class, t) + r;
    assert(h =~= seq!['<'] + (x + seq!['>'] + rest));
    assert(h[0] == '<');
    assert(h.drop_first() =~= x + seq!['>'] + rest);
    assert forall|i: int| 0 <= i < x.len() implies x[i] != '>' by {
        if i < a.len() - 1 {
            assert(x[i] == a[i + 1]);
        } else if i < a.len() - 1 + class.len() {
            assert(x[i] == class[i - (a.len() - 1)]);
        }
    }
    lemma_shown_tag(x, rest);
    assert(rest =~= escape(t) + (c + r));
    lemma_shown_escape(t, c + r);
    let y = seq!['/', 's', 'p', 'a', 'n'];
    assert(c + r =~= seq!['<'] + (y + seq!['>'] + r));
    assert((c + r)[0] == '<');
    assert((c + r).drop_first() =~= y + seq!['>'] + r);
    lemma_shown_tag(y, r);
}

/// The span classes hold no `>`.
proof fn lemma_classes_plain()
    ensures
        forall|i: int| 0 <= i < "hl-comment"@.len() ==> "hl-comment"@[i] != '>',
        forall|i: int| 0 <= i < "hl-string"@.len() ==> "hl-string"@[i] != '>',
        forall|i: int| 0 <= i < "hl-number"@.len() ==> "hl-number"@[i] != '>',
        forall|i: int| 0 <= i < "hl-keyword"@.len() ==> "hl-keyword"@[i] != '>',
        forall|i: int| 0 <= i < "hl-builtin"@.len() ==> "hl-builtin"@[i] != '>',
{
    reveal_strlit("hl-comment");
    reveal_strlit("hl-string");
    reveal_strlit("hl-number");
    reveal_strlit("hl-keyword");
    reveal_strlit("hl-builtin");
}

/// A token's HTML shows as the token's text.
proof fn lemma_shown_token(cs: Seq<char>, i: int, e: int, r: Seq<char>)
    requires
        0 <= i < e <= cs.len(),
    ensures
        shown_text(token_html(cs, i, e) + r, false) == cs.subrange(i, e) + shown_text(r, false),
{
    lemma_classes_plain();
    let text = cs.subrange(i, e);
    let c = cs[i];
    if c == '/' && i + 1 < cs.len() && cs[i + 1] == '/' {
        lemma_shown_span("hl-comment"@, text, r);
    } else if c == '"' {
        lemma_shown_span("hl-string"@, text, r);
    } else if is_digit(c) || (c == '-' && i + 1 < cs.len() && is_digit(cs[i + 1])) {
        lemma_shown_span("hl-number"@, text, r);
    } else if alphabetic(c) || c == '_' {
        if keywords().contains(text) {
            lemma_shown_span("hl-keyword"@, text, r);
        } else if builtins().contains(text) {
            lemma_shown_span("hl-builtin"@, text, r);
        } else {
            lemma_shown_escape(text, r);
        }
    } else {
        lemma_shown_escape(text, r);
    }
}

/// The highlighted HTML of a line shows as the line from `i` on.
proof fn lemma_shown_highlight_from(cs: Seq<char>, i: int, r: Seq<char>)
    requires
        0 <= i <= cs.len(),
    ensures
        shown_text(highlight_from(cs, i) + r, false) == cs.subrange(i, cs.len() as int) + shown_text(r, false),
    decreases cs.len() - i,
{
    if i == cs.len() {
        assert(highlight_from(cs, i) + r =~= r);
        assert(cs.subrange(i, cs.len() as int) + shown_text(r, false) =~= shown_text(r, false));
    } else {
        lemma_scan_ends(cs, i + 1);
        let e = token_end(cs, i);
        assert(i < e <= cs.len());
        let rest = highlight_from(cs, e) + r;
        assert(highlight_from(cs, i) + r =~= token_html(cs, i, e) + rest);
        lemma_shown_token(cs, i, e, rest);
        lemma_shown_highlight_from(cs, e, r);
        assert(cs.subrange(i, e) + (cs.subrange(e, cs.len() as int) + shown_text(r, false))
            =~= cs.subrange(i, cs.len() as int) + shown_text(r, false));
    }
}

/// The text a highlighted editor overlay shows for `code`: the code itself,
/// with a final newline added when it does not end with one.
pub open spec fn shown_code(code: Seq<char>) -> Seq<char> {
    if code.len() == 0 || code.last() == '\n' {
        code
    } else {
        code.push('\n')
    }
}

/// The lines of `cs` from index `start` on, as `str::lines` yields them
/// (without a `\r` before their newline), each followed by a newline.
pub open spec fn plain_lines(cs: Seq<char>, start: int) -> Seq<char>
    decreases cs.len() - start,
{
    if start < 0 || start >= cs.len() {
        Seq::empty()
    } else {
        let e = line_end(cs, start);
        proof {
            lemma_line_end(cs, start);
        }
        if e < start {
            Seq::empty()
        } else if e >= cs.len() {
            line_text(cs, start, e) + seq!['\n']
        } else {
            line_text(cs, start, e) + seq!['\n'] + plain_lines(cs, e + 1)
        }
    }
}

/// The highlighted lines from `start` on show as those lines.
proof fn lemma_shown_lines(cs: Seq<char>, start: int)
    requires
        0 <= start <= cs.len(),
    ensures
        shown_text(highlight_lines(cs, start), false) == plain_lines(cs, start),
    decreases cs.len() - start,
{
    if start < cs.len() {
        lemma_line_end(cs, start);
        let e = line_end(cs, start);
        let lt = line_text(cs, start, e);
        assert(lt.subrange(0, lt.len() as int) =~= lt);
        if e >= cs.len() {
            let tail = seq!['\n'];
            lemma_shown_highlight_from(lt, 0, tail);
            lemma_shown_escape_char('\n', Seq::empty());
            assert(escape_char('\n') + Seq::<char>::empty() =~= tail);
            assert(shown_text(Seq::<char>::empty(), false) =~= Seq::<char>::empty());
            assert(lt + (seq!['\n'] + Seq::<char>::empty()) =~= lt + seq!['\n']);
        } else {
            let rest = highlight_lines(cs, e + 1);
            let tail = seq!['\n'] + rest;
            assert(highlight_from(lt, 0) + seq!['\n'] + rest =~= highlight_from(lt, 0) + tail);
            lemma_shown_highlight_from(lt, 0, tail);
            lemma_shown_escape_char('\n', rest);
            assert(escape_char('\n') + rest =~= tail);
            lemma_shown_lines(cs, e + 1);
            assert(lt + (seq!['\n'] + plain_lines(cs, e + 1)) =~= lt + seq!['\n'] + plain_lines(cs, e + 1));
        }
    }
}

/// Without carriage returns, the lines from `start` on followed by newlines
/// are the text from `start` on, with a final newline added when it lacks one.
proof fn lemma_plain_lines(cs: Seq<char>, start: int)
    requires
        0 <= start <= cs.len(),
        forall|i: int| 0 <= i < cs.len() ==> cs[i] != '\r',
    ensures
        plain_lines(cs, start) == if start == cs.len() {
            Seq::<char>::empty()
        } else if cs.last() == '\n' {
            cs.subrange(start, cs.len() as int)
        } else {
            cs.subrange(start, cs.len() as int).push('\n')
        },
    decreases cs.len() - start,
{
    if start < cs.len() {
        lemma_line_end(cs, start);
        let e = line_end(cs, start);
        let lt = line_text(cs, start, e);
        assert(lt =~= cs.subrange(start, e));
        if e >= cs.len() {
            assert(cs[cs.len() - 1] != '\n');
            assert(lt + seq!['\n'] =~= cs.subrange(start, cs.len() as int).push('\n'));
        } else {
            lemma_plain_lines(cs, e + 1);
            if e + 1 == cs.len() {
                assert(cs.last() == '\n');
                assert(lt + seq!['\n'] + Seq::<char>::empty() =~= cs.subrange(start, cs.len() as int));
            } else if cs.last() == '\n' {
                assert(lt + seq!['\n'] + cs.subrange(e + 1, cs.len() as int) =~= cs.subrange(start, cs.len() as int));
            } else {
                assert(lt + seq!['\n'] + cs.subrange(e + 1, cs.len() as int).push('\n')
                    =~= cs.subrange(start, cs.len() as int).push('\n'));
            }
        }
    }
}

/// Highlighting changes how code looks, not what it says: once its tags are
/// dropped and its entities read, the highlighted HTML shows the lines of the
/// code as `str::lines` yields them, each followed by a newline. For code
/// without carriage returns that is the code itself, with a final newline
/// added when it lacks one.
pub proof fn lemma_highlight_shows_code(code: Seq<char>)
    ensures
        shown_text(highlight_lines(code, 0), false) == plain_lines(code, 0),
        (forall|i: int| 0 <= i < code.len() ==> code[i] != '\r') ==> plain_lines(code, 0) == shown_code(code),
{
    lemma_shown_lines(code, 0);
    if forall|i: int| 0 <= i < code.len() ==> code[i] != '\r' {
        lemma_plain_lines(code, 0);
        assert(code.subrange(0, code.len() as int) =~= code);
    }
}

/// The characters of the HTML `h` outside its tags (inside a tag when
/// `in_tag`), entities left as they are.
pub open spec fn text_outside_tags(h: Seq<char>, in_tag: bool) -> Seq<char>
    decreases h.len(),
{
    if h.len() == 0 {
        Seq::empty()
    } else if in_tag {
        text_outside_tags(h.drop_first(), h[0] != '>')
    } else if h[0] == '<' {
        text_outside_tags(h.drop_first(), true)
    } else {
        seq![h[0]] + text_outside_tags(h.drop_first(), false)
    }
}

/// Joining markup-free texts gives markup-free text.
proof fn lemma_markup_free_concat(a: Seq<char>, b: Seq<char>)
    requires
        markup_free(a),
        markup_free(b),
    ensures
        markup_free(a + b),
{
    assert forall|i: int| 0 <= i < (a + b).len() implies (a + b)[i] != '<' && (a + b)[i] != '>' && (a + b)[i] != '"' by {
        if i < a.len() {
            assert((a + b)[i] == a[i]);
        } else {
            assert((a + b)[i] == b[i - a.len()]);
        }
    }
}

/// Text without `<` stands outside tags as it is.
proof fn lemma_outside_plain(x: Seq<char>, r: Seq<char>)
    requires
        markup_free(x),
    ensures
        text_outside_tags(x + r, false) == x + text_outside_tags(r, false),
    decreases x.len(),
{
    if x.len() == 0 {
        assert(x + r =~= r);
        assert(x + text_outside_tags(r, false) =~= text_outside_tags(r, false));
    } else {
        assert((x + r)[0] == x[0]);
        assert((x + r).drop_first() =~= x.drop_first() + r);
        lemma_outside_plain(x.drop_first(), r);
        assert(seq![x[0]] + (x.drop_first() + text_outside_tags(r, false)) =~= x + text_outside_tags(r, false));
    }
}

/// A tag up to its closing `>` has nothing outside it.
proof fn lemma_outside_tag(x: Seq<char>, r: Seq<char>)
    requires
        forall|i: int| 0 <= i < x.len() ==> x[i] != '>',
    ensures
        text_outside_tags(x + seq!['>'] + r, true) == text_outside_tags(r, false),
    decreases x.len(),
{
    let h = x + seq!['>'] + r;
    if x.len() == 0 {
        assert(h[0] == '>');
        assert(h.drop_first() =~= r);
    } else {
        assert(h[0] == x[0]);
        assert(h.drop_first() =~= x.drop_first() + seq!['>'] + r);
        lemma_outside_tag(x.drop_first(), r);
    }
}

/// Outside its tags, a span is its escaped text.
proof fn lemma_outside_span(class: Seq<char>, t: Seq<char>, r: Seq<char>)
    requires
        forall|i: int| 0 <= i < class.len() ==> class[i] != '>',
    ensures
        text_outside_tags(span(class, t) + r, false) == escape(t) + text_outside_tags(r, false),
{
    reveal_strlit("<span class=\"");
    reveal_strlit("\">");
    reveal_strlit("</span>");
    let a = "<span class=\""@;
    let c = "</span>"@;
    let x = a.drop_first() + class + seq!['"'];
    let rest = escape(t) + c + r;
    let h = span(class, t) + r;
    assert(h =~= seq!['<'] + (x + seq!['>'] + rest));
    assert(h[0] == '<');
    assert(h.drop_first() =~= x + seq!['>'] + rest);
    assert forall|i: int| 0 <= i < x.len() implies x[i] != '>' by {
        if i < a.len() - 1 {
            assert(x[i] == a[i + 1]);
        } else if i < a.len() - 1 + class.len() {
            assert(x[i] == class[i - (a.len() - 1)]);
        }
    }
    lemma_outside_tag(x, rest);
    assert(rest =~= escape(t) + (c + r));
    lemma_escape_markup_free(t);
    lemma_outside_plain(escape(t), c + r);
    let y = seq!['/', 's', 'p', 'a', 'n'];
    assert(c + r =~= seq!['<'] + (y + seq!['>'] + r));
    assert((c + r)[0] == '<');
    assert((c + r).drop_first() =~= y + seq!['>'] + r);
    lemma_outside_tag(y, r);
}

/// Outside its tags, a token's HTML is its escaped text.
proof fn lemma_outside_token(cs: Seq<char>, i: int, e: int, r: Seq<char>)
    requires
        0 <= i < e <= cs.len(),
    ensures
        text_outside_tags(token_html(cs, i, e) + r, false) == escape(cs.subrange(i, e)) + text_outside_tags(r, false),
{
    lemma_classes_plain();
    let text = cs.subrange(i, e);
    let c = cs[i];
    lemma_escape_markup_free(text);
    if c == '/' && i + 1 < cs.len() && cs[i + 1] == '/' {
        lemma_outside_span("hl-comment"@, text, r);
    } else if c == '"' {
        lemma_outside_span("hl-string"@, text, r);
    } else if is_digit(c) || (c == '-' && i + 1 < cs.len() && is_digit(cs[i + 1])) {
        lemma_outside_span("hl-number"@, text, r);
    } else if alphabetic(c) || c == '_' {
        if keywords().contains(text) {
            lemma_outside_span("hl-keyword"@, text, r);
        } else if builtins().contains(text) {
            lemma_outside_span("hl-builtin"@, text, r);
        } else {
            lemma_outside_plain(escape(text), r);
        }
    } else {
        lemma_outside_plain(escape(text), r);
    }
}

/// Outside its tags, a highlighted line is markup free when what follows is.
proof fn lemma_outside_highlight_from(cs: Seq<char>, i: int, r: Seq<char>)
    requires
        0 <= i <= cs.len(),
        markup_free(text_outside_tags(r, false)),
    ensures
        markup_free(text_outside_tags(highlight_from(cs, i) + r, false)),
    decreases cs.len() - i,
{
    if i == cs.len() {
        assert(highlight_from(cs, i) + r =~= r);
    } else {
        lemma_scan_ends(cs, i + 1);
        let e = token_end(cs, i);
        let rest = highlight_from(cs, e) + r;
        assert(highlight_from(cs, i) + r =~= token_html(cs, i, e) + rest);
        lemma_outside_token(cs, i, e, rest);
        lemma_outside_highlight_from(cs, e, r);
        lemma_escape_markup_free(cs.subrange(i, e));
        lemma_markup_free_concat(escape(cs.subrange(i, e)), text_outside_tags(rest, false));
    }
}

/// Outside its tags, the highlighted lines from `start` on are markup free.
proof fn lemma_outside_lines(cs: Seq<char>, start: int)
    requires
        0 <= start <= cs.len(),
    ensures
        markup_free(text_outside_tags(highlight_lines(cs, start), false)),
    decreases cs.len() - start,
{
    if start < cs.len() {
        lemma_line_end(cs, start);
        let e = line_end(cs, start);
        let lt = line_text(cs, start, e);
        let nl = seq!['\n'];
        assert(markup_free(nl));
        if e >= cs.len() {
            lemma_outside_plain(nl, Seq::empty());
            assert(nl + Seq::<char>::empty() =~= nl);
            assert(text_outside_tags(Seq::<char>::empty(), false) =~= Seq::<char>::empty());
            assert(nl + Seq::<char>::empty() =~= nl);
            lemma_outside_highlight_from(lt, 0, nl);
        } else {
            let rest = highlight_lines(cs, e + 1);
            lemma_outside_lines(cs, e + 1);
            lemma_outside_plain(nl, rest);
            lemma_markup_free_concat(nl, text_outside_tags(rest, false));
            assert(highlight_from(lt, 0) + nl + rest =~= highlight_from(lt, 0) + (nl + rest));
            lemma_outside_highlight_from(lt, 0, nl + rest);
        }
    }
}

/// Every `<`, `>` and `"` of highlighted code belongs to one of its tags:
/// outside them, each character of the code stands escaped.
pub proof fn lemma_highlight_markup_only_in_tags(code: Seq<char>)
    ensures
        markup_free(text_outside_tags(highlight_lines(code, 0), false)),
{
    lemma_outside_lines(code, 0);
}

/// A word runs from `j` over alphanumeric characters and underscores, and
/// stops at the first other character.
proof fn lemma_word_end(cs: Seq<char>, j: int)
    requires
        0 <= j <= cs.len(),
    ensures
        j <= word_end(cs, j) <= cs.len(),
        forall|m: int| j <= m < word_end(cs, j) ==> alphanumeric(#[trigger] cs[m]) || cs[m] == '_',
        word_end(cs, j) < cs.len() ==> !(alphanumeric(cs[word_end(cs, j)]) || cs[word_end(cs, j)] == '_'),
    decreases cs.len() - j,
{
    if j < cs.len() && (alphanumeric(cs[j]) || cs[j] == '_') {
        lemma_word_end(cs, j + 1);
    }
}

/// Whether the token of a line starting at `i` is a word: it starts with a
/// letter or an underscore, and not with a comment, a string or a number.
pub open spec fn starts_word(cs: Seq<char>, i: int) -> bool {
    let c = cs[i];
    &&& 0 <= i < cs.len()
    &&& alphabetic(c) || c == '_'
    &&& !(c == '/' && i + 1 < cs.len() && cs[i + 1] == '/')
    &&& c != '"'
    &&& !(is_digit(c) || (c == '-' && i + 1 < cs.len() && is_digit(cs[i + 1])))
}

/// A word token takes every alphanumeric character and underscore after its
/// first character and stops at the first other one, so a keyword or builtin
/// with digits in it (such as `box3`) is highlighted as a whole word.
pub proof fn lemma_word_token(cs: Seq<char>, i: int)
    requires
        starts_word(cs, i),
    ensures
        i < token_end(cs, i) <= cs.len(),
        forall|m: int| i < m < token_end(cs, i) ==> alphanumeric(#[trigger] cs[m]) || cs[m] == '_',
        token_end(cs, i) < cs.len() ==> !(alphanumeric(cs[token_end(cs, i)]) || cs[token_end(cs, i)] == '_'),
        token_html(cs, i, token_end(cs, i)) == word_html(cs.subrange(i, token_end(cs, i))),
{
    lemma_word_end(cs, i + 1);
}

} // verus!
