//! Offsets in editor text: UTF-8 byte offsets (Rust strings), UTF-16 code-unit
//! offsets (the webview's `selectionStart`) and 1-based line/column positions.
use vstd::prelude::*;
use vstd::utf8::encode_utf8;

verus! {

/// Number of bytes in the UTF-8 encoding of `c`.
pub open spec fn utf8_width(c: char) -> nat {
    if (c as u32) < 0x80 {
        1
    } else if (c as u32) < 0x800 {
        2
    } else if (c as u32) < 0x10000 {
        3
    } else {
        4
    }
}

/// Number of UTF-16 code units in the encoding of `c`.
pub open spec fn utf16_width(c: char) -> nat {
    if (c as u32) < 0x10000 {
        1
    } else {
        2
    }
}

/// Length in bytes of the UTF-8 encoding of `s`.
pub open spec fn utf8_len(s: Seq<char>) -> nat
    decreases s.len(),
{
    if s.len() == 0 {
        0
    } else {
        utf8_width(s[0]) + utf8_len(s.drop_first())
    }
}

/// Length in code units of the UTF-16 encoding of `s`.
pub open spec fn utf16_len(s: Seq<char>) -> nat
    decreases s.len(),
{
    if s.len() == 0 {
        0
    } else {
        utf16_width(s[0]) + utf16_len(s.drop_first())
    }
}

/// Number of newline characters in `s`.
pub open spec fn newline_count(s: Seq<char>) -> nat
    decreases s.len(),
{
    if s.len() == 0 {
        0
    } else {
        (if s[0] == '\n' { 1nat } else { 0nat }) + newline_count(s.drop_first())
    }
}

/// Number of characters after the last newline of `s` (all of `s` when it has none).
pub open spec fn last_line_len(s: Seq<char>) -> nat
    decreases s.len(),
{
    if s.len() == 0 {
        0
    } else if s.last() == '\n' {
        0
    } else {
        last_line_len(s.drop_last()) + 1
    }
}

/// Index of the first character of the 1-based line `line` of `s`, if that line
/// has a character.
pub open spec fn line_start(s: Seq<char>, line: int) -> Option<nat>
    decreases s.len(),
{
    if s.len() == 0 {
        None
    } else if line == 1 {
        Some(0)
    } else {
        let rest = line_start(s.drop_first(), if s[0] == '\n' { line - 1 } else { line });
        match rest {
            Some(k) => Some(k + 1),
            None => None,
        }
    }
}

/// Byte offset of the 1-based (`line`, `col`) position in `s`, clamped to the end
/// of the text; a line without characters maps to the end of the text.
pub open spec fn line_col_offset(s: Seq<char>, line: int, col: int) -> nat {
    let total = utf8_len(s);
    match line_start(s, line) {
        Some(k) => {
            let target = utf8_len(s.take(k as int)) + if col >= 1 { (col - 1) as nat } else { 0nat };
            if target < total { target } else { total }
        },
        None => total,
    }
}

/// Number of leading characters of `s` before the UTF-16 running count reaches `off`.
pub open spec fn utf16_char_index(s: Seq<char>, off: int) -> nat
    decreases s.len(),
{
    if off <= 0 || s.len() == 0 {
        0
    } else {
        1 + utf16_char_index(s.drop_first(), off - utf16_width(s[0]))
    }
}

/// UTF-16 length of the characters of `s` that start before byte `b`.
pub open spec fn byte_utf16_count(s: Seq<char>, b: int) -> nat
    decreases s.len(),
{
    if b <= 0 || s.len() == 0 {
        0
    } else {
        utf16_width(s[0]) + byte_utf16_count(s.drop_first(), b - utf8_width(s[0]))
    }
}

/// `o` with `by` added to the index it holds.
pub open spec fn shift_index(o: Option<nat>, by: nat) -> Option<nat> {
    match o {
        Some(k) => Some(k + by),
        None => None,
    }
}

pub proof fn lemma_utf8_len_concat(a: Seq<char>, b: Seq<char>)
    ensures
        utf8_len(a + b) == utf8_len(a) + utf8_len(b),
    decreases a.len(),
{
    if a.len() > 0 {
        assert((a + b).drop_first() =~= a.drop_first() + b);
        lemma_utf8_len_concat(a.drop_first(), b);
    } else {
        assert(a + b =~= b);
    }
}

pub proof fn lemma_utf16_len_concat(a: Seq<char>, b: Seq<char>)
    ensures
        utf16_len(a + b) == utf16_len(a) + utf16_len(b),
    decreases a.len(),
{
    if a.len() > 0 {
        assert((a + b).drop_first() =~= a.drop_first() + b);
        lemma_utf16_len_concat(a.drop_first(), b);
    } else {
        assert(a + b =~= b);
    }
}

pub proof fn lemma_newline_count_concat(a: Seq<char>, b: Seq<char>)
    ensures
        newline_count(a + b) == newline_count(a) + newline_count(b),
    decreases a.len(),
{
    if a.len() > 0 {
        assert((a + b).drop_first() =~= a.drop_first() + b);
        lemma_newline_count_concat(a.drop_first(), b);
    } else {
        assert(a + b =~= b);
    }
}

/// The running UTF-8 length grows by the width of the next character.
pub proof fn lemma_utf8_len_take_step(s: Seq<char>, i: int)
    requires
        0 <= i < s.len(),
    ensures
        utf8_len(s.take(i + 1)) == utf8_len(s.take(i)) + utf8_width(s[i]),
        utf16_len(s.take(i + 1)) == utf16_len(s.take(i)) + utf16_width(s[i]),
        newline_count(s.take(i + 1)) == newline_count(s.take(i)) + if s[i] == '\n' { 1nat } else { 0nat },
{
    let one = seq![s[i]];
    assert(s.take(i + 1) =~= s.take(i) + one);
    lemma_utf8_len_concat(s.take(i), one);
    lemma_utf16_len_concat(s.take(i), one);
    lemma_newline_count_concat(s.take(i), one);
    assert(one.drop_first() =~= Seq::<char>::empty());
    assert(utf8_len(one) == utf8_width(s[i]) + utf8_len(one.drop_first()));
    assert(utf16_len(one) == utf16_width(s[i]) + utf16_len(one.drop_first()));
    assert(newline_count(one) == (if s[i] == '\n' { 1nat } else { 0nat }) + newline_count(one.drop_first()));
}

/// `utf8_len` is the length of the UTF-8 encoding that `str::len` reports.
pub proof fn lemma_utf8_len_is_encoded_len(s: Seq<char>)
    ensures
        utf8_len(s) == encode_utf8(s).len(),
    decreases s.len(),
{
    if s.len() > 0 {
        lemma_utf8_len_is_encoded_len(s.drop_first());
        let c = s[0];
        let v = c as u32;
        assert(vstd::utf8::is_scalar(v)) by {
            vstd::utf8::char_is_scalar(c);
        }
    }
}

/// UTF-16 never needs more code units than UTF-8 needs bytes.
pub proof fn lemma_utf16_le_utf8(s: Seq<char>)
    ensures
        utf16_len(s) <= utf8_len(s),
    decreases s.len(),
{
    if s.len() > 0 {
        lemma_utf16_le_utf8(s.drop_first());
    }
}

/// Prefix lengths never exceed the whole.
pub proof fn lemma_take_len_le(s: Seq<char>, i: int)
    requires
        0 <= i <= s.len(),
    ensures
        utf8_len(s.take(i)) <= utf8_len(s),
        utf16_len(s.take(i)) <= utf16_len(s),
{
    assert(s =~= s.take(i) + s.skip(i));
    lemma_utf8_len_concat(s.take(i), s.skip(i));
    lemma_utf16_len_concat(s.take(i), s.skip(i));
}

/// Width in bytes of `c` in UTF-8.
pub fn char_utf8_width(c: char) -> (w: usize)
    ensures
        w == utf8_width(c),
{
    let v = c as u32;
    if v < 0x80 {
        1
    } else if v < 0x800 {
        2
    } else if v < 0x10000 {
        3
    } else {
        4
    }
}

/// Width in code units of `c` in UTF-16.
pub fn char_utf16_width(c: char) -> (w: usize)
    ensures
        w == utf16_width(c),
{
    if (c as u32) < 0x10000 {
        1
    } else {
        2
    }
}

/// The characters of `text`, in order.
pub fn text_chars(text: &str) -> (v: Vec<char>)
    ensures
        v@ == text@,
{
    let mut v: Vec<char> = Vec::new();
    for c in it: text.chars()
        invariant
            v@ == it.seq().take(it.index() as int),
            it.seq() == text@,
    {
        v.push(c);
    }
    v
}

/// The byte length of `text`, as the UTF-8 length of its characters.
fn byte_len(text: &str) -> (n: usize)
    ensures
        n == utf8_len(text@),
{
    proof {
        lemma_utf8_len_is_encoded_len(text@);
    }
    text.as_bytes().len()
}

/// Convert line and column (1-indexed) to a byte offset, clamped to the text length.
pub fn line_col_to_offset(text: &str, line: usize, col: usize) -> (r: usize)
    ensures
        r == line_col_offset(text@, line as int, col as int),
{
    let chars = text_chars(text);
    let total = byte_len(text);
    let ghost s = text@;
    let mut newlines: usize = 0;
    let mut byte_idx: usize = 0;
    let mut i: usize = 0;
    proof {
        assert(s.skip(0) =~= s);
        assert(s.take(0) =~= Seq::<char>::empty());
    }
    while i < chars.len()
        invariant
            chars@ == s,
            s == text@,
            total == utf8_len(s),
            0 <= i <= s.len(),
            newlines <= i,
            byte_idx == utf8_len(s.take(i as int)),
            newlines == newline_count(s.take(i as int)),
            line_start(s, line as int) == shift_index(line_start(s.skip(i as int), line - newline_count(s.take(i as int))), i as nat),
        decreases s.len() - i,
    {
        proof {
            lemma_take_len_le(s, i as int);
            lemma_utf8_len_take_step(s, i as int);
            lemma_take_len_le(s, i as int + 1);
            assert(s.skip(i as int).drop_first() =~= s.skip(i as int + 1));
            assert(s.skip(i as int)[0] == s[i as int]);
        }
        if line >= 1 && newlines == line - 1 {
            assert(line_start(s.skip(i as int), 1) == Some(0nat));
            assert(line_start(s, line as int) == Some(i as nat));
            let extra = if col >= 1 { col - 1 } else { 0 };
            let target = if extra < total - byte_idx { byte_idx + extra } else { total };

            return target;
        }
        let c = chars[i];
        if c == '\n' {
            newlines = newlines + 1;
        }
        byte_idx = byte_idx + char_utf8_width(c);
        i = i + 1;
    }
    proof {
        assert(s.take(i as int) =~= s);
    }
    total
}


pub proof fn lemma_utf16_char_index_bound(s: Seq<char>, off: int)
    ensures
        utf16_char_index(s, off) <= s.len(),
    decreases s.len(),
{
    if !(off <= 0 || s.len() == 0) {
        lemma_utf16_char_index_bound(s.drop_first(), off - utf16_width(s[0]));
    }
}

/// The prefix of `s` of `j + 1` characters is its first character followed by
/// the prefix of `j` characters of the rest.
proof fn lemma_take_first(s: Seq<char>, j: int)
    requires
        0 <= j < s.len(),
    ensures
        utf16_len(s.take(j + 1)) == utf16_width(s[0]) + utf16_len(s.drop_first().take(j)),
{
    let t = s.take(j + 1);
    assert(t[0] == s[0]);
    assert(t.drop_first() =~= s.drop_first().take(j));
}

/// `utf16_to_byte` stops at the least character boundary whose UTF-16 count
/// reaches the offset: the characters before index `utf16_char_index(s, off)`
/// count at least `off` code units (unless it is the whole text), and every
/// shorter prefix counts fewer. So an offset inside a surrogate pair moves
/// to the boundary after the pair, and an offset past the end gives the end.
pub proof fn lemma_utf16_char_index_least(s: Seq<char>, off: int)
    ensures
        utf16_char_index(s, off) <= s.len(),
        utf16_char_index(s, off) == s.len() || utf16_len(s.take(utf16_char_index(s, off) as int)) >= off,
        forall|j: int| 0 <= j < utf16_char_index(s, off) ==> #[trigger] utf16_len(s.take(j)) < off,
    decreases s.len(),
{
    assert(s.take(0) =~= Seq::<char>::empty());
    if !(off <= 0 || s.len() == 0) {
        let t = s.drop_first();
        let w = utf16_width(s[0]);
        lemma_utf16_char_index_least(t, off - w);
        let k = utf16_char_index(s, off);
        if k < s.len() {
            lemma_take_first(s, k - 1);
        }
        assert forall|j: int| 0 <= j < k implies #[trigger] utf16_len(s.take(j)) < off by {
            if j > 0 {
                lemma_take_first(s, j - 1);
                assert(utf16_len(t.take(j - 1)) < off - w);
            }
        }
    }
}

/// Walks `chars` until the running UTF-16 count reaches `off`; returns the
/// character index reached and its byte offset.
fn utf16_walk(chars: &Vec<char>, off: usize) -> (res: (usize, usize))
    requires
        utf8_len(chars@) <= usize::MAX,
    ensures
        res.0 == utf16_char_index(chars@, off as int),
        res.1 == utf8_len(chars@.take(res.0 as int)),
{
    let ghost s = chars@;
    let mut i: usize = 0;
    let mut count: usize = 0;
    let mut byte_idx: usize = 0;
    proof {
        assert(s.skip(0) =~= s);
        assert(s.take(0) =~= Seq::<char>::empty());
    }
    while i < chars.len()
        invariant
            s == chars@,
            utf8_len(s) <= usize::MAX,
            0 <= i <= s.len(),
            byte_idx == utf8_len(s.take(i as int)),
            count == utf16_len(s.take(i as int)),
            utf16_char_index(s, off as int) == i + utf16_char_index(s.skip(i as int), off - count),
        decreases s.len() - i,
    {
        proof {
            lemma_utf8_len_take_step(s, i as int);
            lemma_take_len_le(s, i as int + 1);
            lemma_utf16_le_utf8(s.take(i as int + 1));
            assert(s.skip(i as int).drop_first() =~= s.skip(i as int + 1));
            assert(s.skip(i as int)[0] == s[i as int]);
        }
        if count >= off {
            return (i, byte_idx);
        }
        let c = chars[i];
        count = count + char_utf16_width(c);
        byte_idx = byte_idx + char_utf8_width(c);
        i = i + 1;
    }
    (i, byte_idx)
}

/// Convert a UTF-16 code-unit offset (as the webview reports it) into a UTF-8
/// byte offset: the byte offset of the first character at which the running
/// UTF-16 count reaches `u16_off`, or the text length when it never does.
/// The result is always a character boundary.
pub fn utf16_to_byte(text: &str, u16_off: usize) -> (r: usize)
    ensures
        r == utf8_len(text@.take(utf16_char_index(text@, u16_off as int) as int)),
{
    let chars = text_chars(text);
    let _total = byte_len(text);
    let (_, byte_idx) = utf16_walk(&chars, u16_off);
    byte_idx
}

/// Convert a UTF-8 byte offset into a UTF-16 code-unit offset: the UTF-16
/// length of the characters that start before `byte` (offsets past the end
/// give the UTF-16 length of the whole text).
pub fn byte_to_utf16(text: &str, byte: usize) -> (r: usize)
    ensures
        r == byte_utf16_count(text@, byte as int),
{
    let chars = text_chars(text);
    let _total = byte_len(text);
    let ghost s = text@;
    proof {
        assert(s.skip(0) =~= s);
        assert(s.take(0) =~= Seq::<char>::empty());
    }
    let mut i: usize = 0;
    let mut count: usize = 0;
    let mut byte_idx: usize = 0;
    while i < chars.len()
        invariant
            s == chars@,
            s == text@,
            utf8_len(s) <= usize::MAX,
            0 <= i <= s.len(),
            byte_idx == utf8_len(s.take(i as int)),
            count == utf16_len(s.take(i as int)),
            byte_utf16_count(s, byte as int) == count + byte_utf16_count(s.skip(i as int), byte - byte_idx),
        ensures
            s == text@,
            byte_utf16_count(s, byte as int) == count + byte_utf16_count(s.skip(i as int), byte - byte_idx),
            i == s.len() || byte_idx >= byte,
        decreases s.len() - i,
    {
        proof {
            lemma_utf8_len_take_step(s, i as int);
            lemma_take_len_le(s, i as int + 1);
            lemma_utf16_le_utf8(s.take(i as int + 1));
            assert(s.skip(i as int).drop_first() =~= s.skip(i as int + 1));
            assert(s.skip(i as int)[0] == s[i as int]);
        }
        if byte_idx >= byte {
            break;
        }
        let c = chars[i];
        count = count + char_utf16_width(c);
        byte_idx = byte_idx + char_utf8_width(c);
        i = i + 1;
    }
    assert(byte_utf16_count(s.skip(i as int), byte - byte_idx) == 0);
    count
}

/// At a character boundary the two offsets correspond one to one: the byte
/// offset of the first `k` characters converts to their UTF-16 offset, and
/// that UTF-16 offset converts back to the same `k` characters (so to the
/// same byte offset).
pub proof fn lemma_offset_round_trip(s: Seq<char>, k: int)
    requires
        0 <= k <= s.len(),
    ensures
        byte_utf16_count(s, utf8_len(s.take(k)) as int) == utf16_len(s.take(k)),
        utf16_char_index(s, utf16_len(s.take(k)) as int) == k,
    decreases k,
{
    if k == 0 {
        assert(s.take(0) =~= Seq::<char>::empty());
    } else {
        let t = s.take(k);
        assert(t[0] == s[0]);
        assert(t.drop_first() =~= s.drop_first().take(k - 1));
        lemma_offset_round_trip(s.drop_first(), k - 1);
    }
}

/// 1-based line of the position after the first `k` characters of `s`.
pub open spec fn line_of(s: Seq<char>, k: int) -> nat {
    newline_count(s.take(k)) + 1
}

/// 1-based column (in characters) of the position after the first `k` characters of `s`.
pub open spec fn col_of(s: Seq<char>, k: int) -> nat {
    last_line_len(s.take(k)) + 1
}

/// Whether the 1-based line `line` of `s` begins at character index `p`: `p`
/// is the start of the text or just after a newline, with `line - 1`
/// newlines before it.
pub open spec fn line_begins_at(s: Seq<char>, line: int, p: int) -> bool {
    &&& 0 <= p <= s.len()
    &&& newline_count(s.take(p)) + 1 == line
    &&& (p == 0 || s[p - 1] == '\n')
}

/// `line_start` finds the start of a line that has a character; a line that
/// exists but is empty at the end of the text begins at its end; a line
/// number below one or past the last line has no start.
proof fn lemma_line_start_spec(s: Seq<char>, line: int)
    ensures
        line_start(s, line) matches Some(k) ==> k < s.len() && line_begins_at(s, line, k as int),
        line_start(s, line) is None && 1 <= line <= newline_count(s) + 1 ==> line_begins_at(s, line, s.len() as int),
        line < 1 || line > newline_count(s) + 1 ==> line_start(s, line) is None,
    decreases s.len(),
{
    assert(s.take(0) =~= Seq::<char>::empty());
    assert(s.take(s.len() as int) =~= s);
    if s.len() > 0 && line != 1 {
        let t = s.drop_first();
        let l2 = if s[0] == '\n' { line - 1 } else { line };
        lemma_line_start_spec(t, l2);
        assert(t.take(t.len() as int) =~= t);
        if let Some(k2) = line_start(t, l2) {
            assert(s.take(k2 + 1int).drop_first() =~= t.take(k2 as int));
            assert(s.take(k2 + 1int)[0] == s[0]);
            if k2 > 0 {
                assert(s[k2 as int] == t[k2 - 1]);
            }
        } else if 1 <= line <= newline_count(s) + 1 {
            if t.len() > 0 {
                assert(s[s.len() - 1] == t[t.len() - 1]);
            }
        }
    }
}

/// The byte offset of a (line, column) position: for a line of the text
/// (from one to one more than the number of newlines) it is the byte index
/// where that line begins plus the column minus one, at most the text's
/// length; any other line number gives the text's length. The column counts
/// bytes, and a column of zero counts as one.
pub proof fn lemma_line_col_offset(s: Seq<char>, line: int, col: int)
    ensures
        line_col_offset(s, line, col) <= utf8_len(s),
        1 <= line <= newline_count(s) + 1 ==> exists|p: int| #[trigger] line_begins_at(s, line, p)
            && line_col_offset(s, line, col) == ({
                let target = utf8_len(s.take(p)) + if col >= 1 { col - 1 } else { 0 };
                if target < utf8_len(s) { target } else { utf8_len(s) as int }
            }),
        !(1 <= line <= newline_count(s) + 1) ==> line_col_offset(s, line, col) == utf8_len(s),
{
    lemma_line_start_spec(s, line);
    if 1 <= line <= newline_count(s) + 1 {
        match line_start(s, line) {
            Some(k) => {
                assert(line_begins_at(s, line, k as int));
            },
            None => {
                assert(s.take(s.len() as int) =~= s);
                assert(line_begins_at(s, line, s.len() as int));
            },
        }
    }
}

/// Byte offsets of character boundaries grow with the number of characters:
/// two prefixes with the same UTF-8 length are the same prefix.
pub proof fn lemma_utf8_prefix_unique(s: Seq<char>, i: int, j: int)
    requires
        0 <= i <= s.len(),
        0 <= j <= s.len(),
        utf8_len(s.take(i)) == utf8_len(s.take(j)),
    ensures
        i == j,
    decreases if i < j { j - i } else { i - j },
{
    if i < j {
        lemma_utf8_prefix_le(s, i, j - 1);
        lemma_utf8_len_take_step(s, j - 1);
    } else if j < i {
        lemma_utf8_prefix_le(s, j, i - 1);
        lemma_utf8_len_take_step(s, i - 1);
    }
}

/// A shorter prefix has no more UTF-8 bytes.
proof fn lemma_utf8_prefix_le(s: Seq<char>, i: int, j: int)
    requires
        0 <= i <= j <= s.len(),
    ensures
        utf8_len(s.take(i)) <= utf8_len(s.take(j)),
    decreases j - i,
{
    if i < j {
        lemma_utf8_prefix_le(s, i, j - 1);
        lemma_utf8_len_take_step(s, j - 1);
    }
}

/// The cursor at UTF-16 offset `pos` stands after the characters of the text
/// up to the byte offset `utf16_to_byte` gives (the only prefix with that
/// many bytes); its line is one more than the newlines in that text, and its
/// column one more than the characters after the last of them.
pub proof fn lemma_line_col_of_position(s: Seq<char>, pos: int, j: int)
    requires
        0 <= j <= s.len(),
        utf8_len(s.take(j)) == utf8_len(s.take(utf16_char_index(s, pos) as int)),
    ensures
        j == utf16_char_index(s, pos),
        line_of(s, utf16_char_index(s, pos) as int) == newline_count(s.take(j)) + 1,
        col_of(s, utf16_char_index(s, pos) as int) == last_line_len(s.take(j)) + 1,
{
    lemma_utf16_char_index_bound(s, pos);
    lemma_utf8_prefix_unique(s, j, utf16_char_index(s, pos) as int);
}

/// Convert a cursor position, given in UTF-16 code units, to 1-based
/// (line, column) coordinates; the column counts characters from the start
/// of the line. Positions past the end clamp to the end of the text.
pub fn position_to_line_col(text: &str, pos: usize) -> (r: (usize, usize))
    requires
        text@.len() < usize::MAX,
    ensures
        r.0 == line_of(text@, utf16_char_index(text@, pos as int) as int),
        r.1 == col_of(text@, utf16_char_index(text@, pos as int) as int),
{
    let chars = text_chars(text);
    let _total = byte_len(text);
    let ghost s = text@;
    proof {
        lemma_utf16_char_index_bound(s, pos as int);
        assert(s.take(0) =~= Seq::<char>::empty());
    }
    let (k, _) = utf16_walk(&chars, pos);
    let mut i: usize = 0;
    let mut newlines: usize = 0;
    let mut col_chars: usize = 0;
    while i < k
        invariant
            s == chars@,
            k <= s.len() < usize::MAX,
            0 <= i <= k,
            newlines <= i,
            col_chars <= i,
            newlines == newline_count(s.take(i as int)),
            col_chars == last_line_len(s.take(i as int)),
        decreases k - i,
    {
        proof {
            lemma_utf8_len_take_step(s, i as int);
            assert(s.take(i as int + 1).drop_last() =~= s.take(i as int));
        }
        if chars[i] == '\n' {
            newlines = newlines + 1;
            col_chars = 0;
        } else {
            col_chars = col_chars + 1;
        }
        i = i + 1;
    }
    (newlines + 1, col_chars + 1)
}


/// Whether two strings have the same characters.
pub fn str_eq(a: &str, b: &str) -> (r: bool)
    ensures
        r == (a@ == b@),
{
    let av = text_chars(a);
    let bv = text_chars(b);
    if av.len() != bv.len() {
        return false;
    }
    let mut i: usize = 0;
    while i < av.len()
        invariant
            av@ == a@,
            bv@ == b@,
            av@.len() == bv@.len(),
            0 <= i <= av@.len(),
            forall|j: int| 0 <= j < i ==> av@[j] == bv@[j],
        decreases av@.len() - i,
    {
        if av[i] != bv[i] {
            return false;
        }
        i = i + 1;
    }
    assert(av@ =~= bv@);
    true
}

} // verus!
