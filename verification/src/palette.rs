//! The command palette: its commands, query modes and result ranking.
use crate::strings::{chars_text, is_white, white_space};
use crate::text::{str_eq, text_chars};
use crate::editor::{MarkdownDoc, TabKind, new_tab_view};
use crate::pane::tab_of_kind;
use crate::workbench::{AppState, Layout, only_layout_changed, same_settings_and_files};
use vstd::prelude::*;

verus! {

/// Search mode - only for special utility prefixes.
#[derive(Clone, Copy, Debug, PartialEq, Eq, Structural)]
pub enum PaletteMode {
    /// Search files and commands together (the default)
    Unified,
    /// `:` prefix - go to line number
    GoToLine,
    /// `%` or `#` prefix - search text in files
    TextSearch,
    /// `@` prefix - search symbols in the current file
    Symbols,
}

impl Default for PaletteMode {
    fn default() -> (m: Self)
        ensures
            m == PaletteMode::Unified,
    {
        PaletteMode::Unified
    }
}

/// A command that can be executed from the palette.
#[derive(Clone, Copy, Debug)]
pub struct Command {
    pub id: &'static str,
    pub label: &'static str,
    pub shortcut: Option<&'static str>,
    pub category: &'static str,
}

/// The mathematical value of a command.
pub struct CommandView {
    pub id: Seq<char>,
    pub label: Seq<char>,
    pub shortcut: Option<Seq<char>>,
    pub category: Seq<char>,
}

impl View for Command {
    type V = CommandView;

    open spec fn view(&self) -> CommandView {
        CommandView {
            id: self.id@,
            label: self.label@,
            shortcut: match self.shortcut {
                Some(s) => Some(s@),
                None => None,
            },
            category: self.category@,
        }
    }
}

/// The views of a sequence of commands.
pub open spec fn command_views(v: Seq<Command>) -> Seq<CommandView> {
    v.map_values(|c: Command| c@)
}

/// All commands of the palette, in display order.
pub open spec fn command_table() -> Seq<CommandView> {
    seq![
        CommandView { id: "file.new"@, label: "New File"@, shortcut: Some("Ctrl+N"@), category: "File"@ },
        CommandView { id: "file.open"@, label: "Open File"@, shortcut: Some("Ctrl+O"@), category: "File"@ },
        CommandView { id: "file.save"@, label: "Save"@, shortcut: Some("Ctrl+S"@), category: "File"@ },
        CommandView { id: "file.saveAs"@, label: "Save As"@, shortcut: Some("Ctrl+Shift+S"@), category: "File"@ },
        CommandView { id: "file.openFolder"@, label: "Open Folder"@, shortcut: None, category: "File"@ },
        CommandView { id: "file.closeFolder"@, label: "Close Folder"@, shortcut: None, category: "File"@ },
        CommandView { id: "edit.undo"@, label: "Undo"@, shortcut: Some("Ctrl+Z"@), category: "Edit"@ },
        CommandView { id: "edit.redo"@, label: "Redo"@, shortcut: Some("Ctrl+Shift+Z"@), category: "Edit"@ },
        CommandView { id: "edit.cut"@, label: "Cut"@, shortcut: Some("Ctrl+X"@), category: "Edit"@ },
        CommandView { id: "edit.copy"@, label: "Copy"@, shortcut: Some("Ctrl+C"@), category: "Edit"@ },
        CommandView { id: "edit.paste"@, label: "Paste"@, shortcut: Some("Ctrl+V"@), category: "Edit"@ },
        CommandView { id: "edit.selectAll"@, label: "Select All"@, shortcut: Some("Ctrl+A"@), category: "Edit"@ },
        CommandView { id: "view.commandPalette"@, label: "Command Palette"@, shortcut: Some("Ctrl+Shift+P"@), category: "View"@ },
        CommandView { id: "view.goToFile"@, label: "Go to File"@, shortcut: Some("Ctrl+P"@), category: "View"@ },
        CommandView { id: "view.goToLine"@, label: "Go to Line"@, shortcut: Some("Ctrl+G"@), category: "View"@ },
        CommandView { id: "preview.run"@, label: "Run Preview"@, shortcut: Some("F5"@), category: "Preview"@ },
        CommandView { id: "preview.stop"@, label: "Stop Preview"@, shortcut: Some("Shift+F5"@), category: "Preview"@ },
        CommandView { id: "export.obj"@, label: "Export as OBJ"@, shortcut: None, category: "Export"@ },
        CommandView { id: "export.stl"@, label: "Export as STL"@, shortcut: None, category: "Export"@ },
        CommandView { id: "export.gltf"@, label: "Export as GLTF"@, shortcut: None, category: "Export"@ },
        CommandView { id: "window.new"@, label: "New Window"@, shortcut: None, category: "Window"@ },
        CommandView { id: "window.minimize"@, label: "Minimize"@, shortcut: None, category: "Window"@ },
        CommandView { id: "window.maximize"@, label: "Toggle Maximize"@, shortcut: None, category: "Window"@ },
        CommandView { id: "window.close"@, label: "Close Window"@, shortcut: Some("Alt+F4"@), category: "Window"@ },
        CommandView { id: "help.cookbook"@, label: "Open Cookbook"@, shortcut: None, category: "Help"@ },
        CommandView { id: "help.documentation"@, label: "Open Documentation"@, shortcut: Some("F1"@), category: "Help"@ },
        CommandView { id: "help.about"@, label: "About Soyuz Studio"@, shortcut: None, category: "Help"@ },
    ]
}

/// All available commands in Soyuz Studio.
pub fn get_all_commands() -> (r: Vec<Command>)
    ensures
        command_views(r@) == command_table(),
{
    let mut v: Vec<Command> = Vec::new();
    v.push(Command { id: "file.new", label: "New File", shortcut: Some("Ctrl+N"), category: "File" });
    v.push(Command { id: "file.open", label: "Open File", shortcut: Some("Ctrl+O"), category: "File" });
    v.push(Command { id: "file.save", label: "Save", shortcut: Some("Ctrl+S"), category: "File" });
    v.push(Command { id: "file.saveAs", label: "Save As", shortcut: Some("Ctrl+Shift+S"), category: "File" });
    v.push(Command { id: "file.openFolder", label: "Open Folder", shortcut: None, category: "File" });
    v.push(Command { id: "file.closeFolder", label: "Close Folder", shortcut: None, category: "File" });
    v.push(Command { id: "edit.undo", label: "Undo", shortcut: Some("Ctrl+Z"), category: "Edit" });
    v.push(Command { id: "edit.redo", label: "Redo", shortcut: Some("Ctrl+Shift+Z"), category: "Edit" });
    v.push(Command { id: "edit.cut", label: "Cut", shortcut: Some("Ctrl+X"), category: "Edit" });
    v.push(Command { id: "edit.copy", label: "Copy", shortcut: Some("Ctrl+C"), category: "Edit" });
    v.push(Command { id: "edit.paste", label: "Paste", shortcut: Some("Ctrl+V"), category: "Edit" });
    v.push(Command { id: "edit.selectAll", label: "Select All", shortcut: Some("Ctrl+A"), category: "Edit" });
    v.push(Command { id: "view.commandPalette", label: "Command Palette", shortcut: Some("Ctrl+Shift+P"), category: "View" });
    v.push(Command { id: "view.goToFile", label: "Go to File", shortcut: Some("Ctrl+P"), category: "View" });
    v.push(Command { id: "view.goToLine", label: "Go to Line", shortcut: Some("Ctrl+G"), category: "View" });
    v.push(Command { id: "preview.run", label: "Run Preview", shortcut: Some("F5"), category: "Preview" });
    v.push(Command { id: "preview.stop", label: "Stop Preview", shortcut: Some("Shift+F5"), category: "Preview" });
    v.push(Command { id: "export.obj", label: "Export as OBJ", shortcut: None, category: "Export" });
    v.push(Command { id: "export.stl", label: "Export as STL", shortcut: None, category: "Export" });
    v.push(Command { id: "export.gltf", label: "Export as GLTF", shortcut: None, category: "Export" });
    v.push(Command { id: "window.new", label: "New Window", shortcut: None, category: "Window" });
    v.push(Command { id: "window.minimize", label: "Minimize", shortcut: None, category: "Window" });
    v.push(Command { id: "window.maximize", label: "Toggle Maximize", shortcut: None, category: "Window" });
    v.push(Command { id: "window.close", label: "Close Window", shortcut: Some("Alt+F4"), category: "Window" });
    v.push(Command { id: "help.cookbook", label: "Open Cookbook", shortcut: None, category: "Help" });
    v.push(Command { id: "help.documentation", label: "Open Documentation", shortcut: Some("F1"), category: "Help" });
    v.push(Command { id: "help.about", label: "About Soyuz Studio", shortcut: None, category: "Help" });
    assert(command_views(v@)[0] == command_table()[0]);
    assert(command_views(v@)[1] == command_table()[1]);
    assert(command_views(v@)[2] == command_table()[2]);
    assert(command_views(v@)[3] == command_table()[3]);
    assert(command_views(v@)[4] == command_table()[4]);
    assert(command_views(v@)[5] == command_table()[5]);
    assert(command_views(v@)[6] == command_table()[6]);
    assert(command_views(v@)[7] == command_table()[7]);
    assert(command_views(v@)[8] == command_table()[8]);
    assert(command_views(v@)[9] == command_table()[9]);
    assert(command_views(v@)[10] == command_table()[10]);
    assert(command_views(v@)[11] == command_table()[11]);
    assert(command_views(v@)[12] == command_table()[12]);
    assert(command_views(v@)[13] == command_table()[13]);
    assert(command_views(v@)[14] == command_table()[14]);
    assert(command_views(v@)[15] == command_table()[15]);
    assert(command_views(v@)[16] == command_table()[16]);
    assert(command_views(v@)[17] == command_table()[17]);
    assert(command_views(v@)[18] == command_table()[18]);
    assert(command_views(v@)[19] == command_table()[19]);
    assert(command_views(v@)[20] == command_table()[20]);
    assert(command_views(v@)[21] == command_table()[21]);
    assert(command_views(v@)[22] == command_table()[22]);
    assert(command_views(v@)[23] == command_table()[23]);
    assert(command_views(v@)[24] == command_table()[24]);
    assert(command_views(v@)[25] == command_table()[25]);
    assert(command_views(v@)[26] == command_table()[26]);
    assert(command_views(v@) =~= command_table());
    v
}


/// `s` without leading white space.
pub open spec fn trim_start(s: Seq<char>) -> Seq<char>
    decreases s.len(),
{
    if s.len() > 0 && white_space(s[0]) {
        trim_start(s.drop_first())
    } else {
        s
    }
}

/// `s` without trailing white space.
pub open spec fn trim_end(s: Seq<char>) -> Seq<char>
    decreases s.len(),
{
    if s.len() > 0 && white_space(s.last()) {
        trim_end(s.drop_last())
    } else {
        s
    }
}

/// `s` without leading and trailing white space (what `str::trim` gives).
pub open spec fn trimmed(s: Seq<char>) -> Seq<char> {
    trim_end(trim_start(s))
}

/// `cs[from..]` without leading and trailing white space.
pub(crate) fn trim_chars(cs: &Vec<char>, from: usize) -> (r: String)
    requires
        from <= cs@.len(),
    ensures
        r@ == trimmed(cs@.skip(from as int)),
{
    let n = cs.len();
    let mut a = from;
    while a < n && is_white(cs[a])
        invariant
            from <= a <= n,
            n == cs@.len(),
            trim_start(cs@.skip(from as int)) == trim_start(cs@.skip(a as int)),
        decreases n - a,
    {
        assert(cs@.skip(a as int).drop_first() =~= cs@.skip(a + 1));
        a = a + 1;
    }
    assert(trim_start(cs@.skip(a as int)) == cs@.skip(a as int));
    assert(cs@.skip(a as int) =~= cs@.subrange(a as int, n as int));
    let mut b = n;
    while b > a && is_white(cs[b - 1])
        invariant
            a <= b <= n,
            n == cs@.len(),
            trim_end(cs@.subrange(a as int, n as int)) == trim_end(cs@.subrange(a as int, b as int)),
        decreases b,
    {
        assert(cs@.subrange(a as int, b as int).drop_last() =~= cs@.subrange(a as int, b - 1));
        b = b - 1;
    }
    assert(trim_end(cs@.subrange(a as int, b as int)) == cs@.subrange(a as int, b as int));
    chars_text(cs, a, b)
}

/// The mode a query selects (by its first character) and its search term,
/// trimmed.
pub open spec fn query_mode(q: Seq<char>) -> (PaletteMode, Seq<char>) {
    if q.len() > 0 && q[0] == ':' {
        (PaletteMode::GoToLine, trimmed(q.drop_first()))
    } else if q.len() > 0 && (q[0] == '%' || q[0] == '#') {
        (PaletteMode::TextSearch, trimmed(q.drop_first()))
    } else if q.len() > 0 && q[0] == '@' {
        (PaletteMode::Symbols, trimmed(q.drop_first()))
    } else {
        (PaletteMode::Unified, trimmed(q))
    }
}

/// Parse a query to determine the mode and extract the search term.
pub fn parse_query(query: &str) -> (r: (PaletteMode, String))
    ensures
        (r.0, r.1@) == query_mode(query@),
{
    let cs = text_chars(query);
    assert(cs@.skip(0) =~= cs@);
    assert(cs@.len() > 0 ==> cs@.skip(1) =~= cs@.drop_first());
    if cs.len() > 0 && cs[0] == ':' {
        (PaletteMode::GoToLine, trim_chars(&cs, 1))
    } else if cs.len() > 0 && (cs[0] == '%' || cs[0] == '#') {
        (PaletteMode::TextSearch, trim_chars(&cs, 1))
    } else if cs.len() > 0 && cs[0] == '@' {
        (PaletteMode::Symbols, trim_chars(&cs, 1))
    } else {
        (PaletteMode::Unified, trim_chars(&cs, 0))
    }
}

/// `s` in lowercase, as `str::to_lowercase` gives it (Unicode case mapping).
pub uninterp spec fn lowercase(s: Seq<char>) -> Seq<char>;

/// `str::to_lowercase`: the lowercase form of `s` by the Unicode case
/// mapping. The result is named by `lowercase`.
#[verifier::external_body]
pub(crate) fn lowered(s: &str) -> (r: String)
    ensures
        r@ == lowercase(s@),
{
    s.to_lowercase()
}

/// Whether `p` occurs in `t` at some position.
pub open spec fn has_infix(t: Seq<char>, p: Seq<char>) -> bool {
    exists|i: int| 0 <= i && i + p.len() <= t.len() && #[trigger] t.subrange(i, i + p.len()) == p
}

/// Whether `p` occurs in `t` at position `i`.
fn occurs_at(t: &Vec<char>, p: &Vec<char>, i: usize) -> (r: bool)
    requires
        i + p@.len() <= t@.len(),
    ensures
        r == (t@.subrange(i as int, i + p@.len()) == p@),
{
    let n = t.len();
    let mut k: usize = 0;
    while k < p.len()
        invariant
            0 <= k <= p@.len(),
            n == t@.len(),
            i + p@.len() <= t@.len(),
            forall|j: int| 0 <= j < k ==> t@[i + j] == p@[j],
        decreases p@.len() - k,
    {
        if t[i + k] != p[k] {
            assert(t@.subrange(i as int, i + p@.len())[k as int] != p@[k as int]);
            return false;
        }
        k = k + 1;
    }
    assert(t@.subrange(i as int, i + p@.len()) =~= p@);
    true
}

/// Whether `p` occurs in `t`.
fn contains_text(t: &Vec<char>, p: &Vec<char>) -> (r: bool)
    ensures
        r == has_infix(t@, p@),
{
    if p.len() > t.len() {
        return false;
    }
    let last = t.len() - p.len();
    let mut i: usize = 0;
    while i <= last
        invariant
            last + p@.len() == t@.len(),
            forall|j: int| 0 <= j < i ==> #[trigger] t@.subrange(j, j + p@.len()) != p@,
        decreases last + 1 - i,
    {
        if occurs_at(t, p, i) {
            return true;
        }
        if i == last {
            assert forall|j: int| 0 <= j && j + p@.len() <= t@.len() implies #[trigger] t@.subrange(j, j + p@.len()) != p@ by {
                if j < i {
                } else {
                    assert(j == i);
                }
            }
            return false;
        }
        i = i + 1;
    }
    false
}

/// The score of a query against a target: 50 for an empty query, 100 for an
/// exact (case-insensitive) match, 95 for a prefix, 80 for a substring, and
/// otherwise the similarity percentage supplied for the pair.
pub open spec fn match_score(q: Seq<char>, t: Seq<char>, similarity: i32) -> i32 {
    if q.len() == 0 {
        50
    } else {
        let ql = lowercase(q);
        let tl = lowercase(t);
        if tl == ql {
            100
        } else if ql.is_prefix_of(tl) {
            95
        } else if has_infix(tl, ql) {
            80
        } else {
            similarity
        }
    }
}

/// Compute the fuzzy match score between a query and a target, 0-100 where
/// higher is better. `similarity` is the Jaro-Winkler similarity of the
/// lowercased pair as a percentage, used when no exact, prefix or substring
/// match applies.
pub fn fuzzy_match_score(query: &str, target: &str, similarity: i32) -> (r: i32)
    ensures
        r == match_score(query@, target@, similarity),
{
    let q = text_chars(query);
    if q.len() == 0 {
        return 50;
    }
    let ql = lowered(query);
    let tl = lowered(target);
    if str_eq(tl.as_str(), ql.as_str()) {
        return 100;
    }
    let qc = text_chars(ql.as_str());
    let tc = text_chars(tl.as_str());
    if qc.len() <= tc.len() && occurs_at(&tc, &qc, 0) {
        assert(qc@.is_prefix_of(tc@));
        return 95;
    }
    assert(!qc@.is_prefix_of(tc@) ==> !(qc@.len() <= tc@.len() && tc@.subrange(0, qc@.len() as int) == qc@));
    if contains_text(&tc, &qc) {
        return 80;
    }
    similarity
}

/// The best of three scores.
pub open spec fn best_of(a: i32, b: i32, c: i32) -> i32 {
    let ab = if a >= b { a } else { b };
    if ab >= c { ab } else { c }
}

/// The minimum score a result needs: 50 for an empty query, 55 otherwise.
pub open spec fn threshold(q: Seq<char>) -> i32 {
    if q.len() == 0 { 50 } else { 55 }
}

/// The commands among the first `k` of `cmds` whose best score (label,
/// category or id, with the similarities `sims`) reaches the threshold, with
/// that score.
pub open spec fn command_hits(q: Seq<char>, cmds: Seq<CommandView>, sims: Seq<(i32, i32, i32)>, k: int) -> Seq<(CommandView, i32)>
    decreases k,
{
    if k <= 0 {
        Seq::empty()
    } else {
        let rest = command_hits(q, cmds, sims, k - 1);
        let c = cmds[k - 1];
        let (sl, sc, si) = sims[k - 1];
        let best = best_of(match_score(q, c.label, sl), match_score(q, c.category, sc), match_score(q, c.id, si));
        if best >= threshold(q) {
            rest.push((c, best))
        } else {
            rest
        }
    }
}

/// A command's search score is the best of the scores of its label, its
/// category and its id: every command among the first `k` one of whose fields
/// scores at least the threshold is found with a score at least that of each
/// field, and every hit is such a command, found with one of its fields'
/// scores. So a query equal to a category name finds every command of that
/// category with score 100.
pub proof fn lemma_command_hits_best(q: Seq<char>, cmds: Seq<CommandView>, sims: Seq<(i32, i32, i32)>, k: int)
    requires
        0 <= k <= cmds.len(),
        k <= sims.len(),
    ensures
        forall|j: int| 0 <= j < k ==> {
            let (sl, sc, si) = #[trigger] sims[j];
            let a = match_score(q, cmds[j].label, sl);
            let b = match_score(q, cmds[j].category, sc);
            let c = match_score(q, cmds[j].id, si);
            (a >= threshold(q) || b >= threshold(q) || c >= threshold(q)) ==> exists|i: int|
                0 <= i < command_hits(q, cmds, sims, k).len()
                && (#[trigger] command_hits(q, cmds, sims, k)[i]).0 == cmds[j]
                && command_hits(q, cmds, sims, k)[i].1 >= a
                && command_hits(q, cmds, sims, k)[i].1 >= b
                && command_hits(q, cmds, sims, k)[i].1 >= c
        },
        forall|i: int| 0 <= i < command_hits(q, cmds, sims, k).len() ==> exists|j: int| 0 <= j < k && {
            let h = #[trigger] command_hits(q, cmds, sims, k)[i];
            let (sl, sc, si) = #[trigger] sims[j];
            &&& h.0 == cmds[j]
            &&& h.1 >= threshold(q)
            &&& (h.1 == match_score(q, cmds[j].label, sl) || h.1 == match_score(q, cmds[j].category, sc)
                || h.1 == match_score(q, cmds[j].id, si))
        },
    decreases k,
{
    if k > 0 {
        lemma_command_hits_best(q, cmds, sims, k - 1);
        let rest = command_hits(q, cmds, sims, k - 1);
        let hits = command_hits(q, cmds, sims, k);
        let (sl, sc, si) = sims[k - 1];
        let a = match_score(q, cmds[k - 1].label, sl);
        let b = match_score(q, cmds[k - 1].category, sc);
        let c = match_score(q, cmds[k - 1].id, si);
        let best = best_of(a, b, c);
        assert forall|j: int| 0 <= j < k implies {
            let (sl, sc, si) = #[trigger] sims[j];
            let a = match_score(q, cmds[j].label, sl);
            let b = match_score(q, cmds[j].category, sc);
            let c = match_score(q, cmds[j].id, si);
            (a >= threshold(q) || b >= threshold(q) || c >= threshold(q)) ==> exists|i: int|
                0 <= i < hits.len()
                && (#[trigger] hits[i]).0 == cmds[j]
                && hits[i].1 >= a
                && hits[i].1 >= b
                && hits[i].1 >= c
        } by {
            let (sl2, sc2, si2) = sims[j];
            let a2 = match_score(q, cmds[j].label, sl2);
            let b2 = match_score(q, cmds[j].category, sc2);
            let c2 = match_score(q, cmds[j].id, si2);
            if a2 >= threshold(q) || b2 >= threshold(q) || c2 >= threshold(q) {
                if j == k - 1 {
                    assert(hits[rest.len() as int] == (cmds[k - 1], best));
                } else {
                    let i = choose|i: int| 0 <= i < rest.len() && (#[trigger] rest[i]).0 == cmds[j]
                        && rest[i].1 >= a2 && rest[i].1 >= b2 && rest[i].1 >= c2;
                    assert(hits[i] == rest[i]);
                }
            }
        }
        assert forall|i: int| 0 <= i < hits.len() implies exists|j: int| 0 <= j < k && {
            let h = #[trigger] hits[i];
            let (sl, sc, si) = #[trigger] sims[j];
            &&& h.0 == cmds[j]
            &&& h.1 >= threshold(q)
            &&& (h.1 == match_score(q, cmds[j].label, sl) || h.1 == match_score(q, cmds[j].category, sc)
                || h.1 == match_score(q, cmds[j].id, si))
        } by {
            if i < rest.len() {
                assert(hits[i] == rest[i]);
                let j = choose|j: int| 0 <= j < k - 1 && {
                    let h = rest[i];
                    let (sl, sc, si) = #[trigger] sims[j];
                    &&& h.0 == cmds[j]
                    &&& h.1 >= threshold(q)
                    &&& (h.1 == match_score(q, cmds[j].label, sl) || h.1 == match_score(q, cmds[j].category, sc)
                        || h.1 == match_score(q, cmds[j].id, si))
                };
                assert(0 <= j < k);
            } else {
                assert(hits[i] == (cmds[k - 1], best));
                assert(0 <= k - 1 < k);
            }
        }
    }
}

/// The views of scored commands.
pub open spec fn scored_views(v: Seq<(Command, i32)>) -> Seq<(CommandView, i32)> {
    v.map_values(|p: (Command, i32)| (p.0@, p.1))
}

/// Search the commands: each scores the best of its label, category and id
/// against the query, and those reaching the threshold are returned in order.
/// `similarities` holds, for each command of `get_all_commands` in order, the
/// similarity percentages of the lowercased query against its lowercased
/// label, category and id.
pub fn search_commands(query: &str, similarities: &Vec<(i32, i32, i32)>) -> (r: Vec<(Command, i32)>)
    requires
        similarities@.len() == command_table().len(),
    ensures
        scored_views(r@) == command_hits(query@, command_table(), similarities@, command_table().len() as int),
{
    let all = get_all_commands();
    let q = text_chars(query);
    let threshold: i32 = if q.len() == 0 { 50 } else { 55 };
    let mut out: Vec<(Command, i32)> = Vec::new();
    let mut k: usize = 0;
    while k < all.len()
        invariant
            command_views(all@) == command_table(),
            similarities@.len() == all@.len(),
            q@ == query@,
            threshold == crate::palette::threshold(query@),
            0 <= k <= all@.len(),
            scored_views(out@) == command_hits(query@, command_table(), similarities@, k as int),
        decreases all@.len() - k,
    {
        let cmd = all[k];
        assert(command_table()[k as int] == cmd@);
        let (sl, sc, si) = similarities[k];
        let a = fuzzy_match_score(query, cmd.label, sl);
        let b = fuzzy_match_score(query, cmd.category, sc);
        let c = fuzzy_match_score(query, cmd.id, si);
        let ab = if a >= b { a } else { b };
        let best = if ab >= c { ab } else { c };
        if best >= threshold {
            let ghost o0 = out@;
            out.push((cmd, best));
            assert(scored_views(out@) =~= scored_views(o0).push((cmd@, best)));
        }
        k = k + 1;
    }
    out
}


/// A file result from search.
#[derive(Clone, Debug)]
pub struct FileResult {
    pub path: String,
    pub name: String,
    pub relative_path: String,
    pub score: i32,
}

/// Unified search result - either a file or a command.
#[derive(Clone, Debug)]
pub enum SearchResult {
    File(FileResult),
    Command { cmd: Command, score: i32 },
}

/// Something ranked by a score.
pub trait Scored {
    /// The score, as a value.
    spec fn spec_score(&self) -> i32;

    /// The relevance score for sorting.
    fn score(&self) -> (r: i32)
        ensures
            r == self.spec_score(),
    ;
}

impl Scored for FileResult {
    open spec fn spec_score(&self) -> i32 {
        self.score
    }

    fn score(&self) -> (r: i32) {
        self.score
    }
}

impl Scored for SearchResult {
    open spec fn spec_score(&self) -> i32 {
        match self {
            SearchResult::File(f) => f.score,
            SearchResult::Command { score, .. } => *score,
        }
    }

    /// Get the relevance score for sorting.
    fn score(&self) -> (r: i32) {
        match self {
            SearchResult::File(f) => f.score,
            SearchResult::Command { score, .. } => *score,
        }
    }
}

/// `sorted` (ordered by descending score) with `x` placed after every item
/// scoring at least as much.
pub open spec fn insert_by_score<T: Scored>(sorted: Seq<T>, x: T) -> Seq<T>
    decreases sorted.len(),
{
    if sorted.len() == 0 {
        seq![x]
    } else if sorted.last().spec_score() >= x.spec_score() {
        sorted.push(x)
    } else {
        insert_by_score(sorted.drop_last(), x).push(sorted.last())
    }
}

/// `s` ordered by descending score, items of equal score in their order in `s`.
pub open spec fn sort_by_score<T: Scored>(s: Seq<T>) -> Seq<T>
    decreases s.len(),
{
    if s.len() == 0 {
        Seq::empty()
    } else {
        insert_by_score(sort_by_score(s.drop_last()), s.last())
    }
}

/// Inserting into a sorted sequence puts the item before the trailing run of
/// items that score less.
pub proof fn lemma_insert_by_score<T: Scored>(s: Seq<T>, x: T, j: int)
    requires
        0 <= j <= s.len(),
        forall|k: int| j <= k < s.len() ==> #[trigger] s[k].spec_score() < x.spec_score(),
    ensures
        insert_by_score(s, x) == insert_by_score(s.take(j), x) + s.skip(j),
    decreases s.len() - j,
{
    if j == s.len() {
        assert(s.take(j) =~= s);
        assert(insert_by_score(s, x) + s.skip(j) =~= insert_by_score(s, x));
    } else {
        lemma_insert_by_score(s.drop_last(), x, j);
        assert(s.drop_last().take(j) =~= s.take(j));
        assert(s.drop_last().skip(j).push(s.last()) =~= s.skip(j));
        assert(insert_by_score(s.take(j), x) + s.drop_last().skip(j) + seq![s.last()] =~= insert_by_score(s.take(j), x) + s.skip(j));
        assert(insert_by_score(s.drop_last(), x).push(s.last()) =~= insert_by_score(s.drop_last(), x) + seq![s.last()]);
    }
}

/// Insert `x` into `v` (ordered by descending score) after every item scoring
/// at least as much.
fn insert_scored<T: Scored>(v: &mut Vec<T>, x: T)
    ensures
        final(v)@ == insert_by_score(old(v)@, x),
{
    let mut j = v.len();
    while j > 0 && v[j - 1].score() < x.score()
        invariant
            j <= v@.len(),
            v@ == old(v)@,
            forall|k: int| j <= k < v@.len() ==> #[trigger] v@[k].spec_score() < x.spec_score(),
        decreases j,
    {
        j = j - 1;
    }
    proof {
        lemma_insert_by_score(v@, x, j as int);
        if j > 0 {
            assert(v@.take(j as int).last() == v@[j - 1]);
        } else {
            assert(v@.take(0) =~= Seq::<T>::empty());
        }
        assert(insert_by_score(v@.take(j as int), x) == v@.take(j as int).push(x));
        assert(v@.take(j as int).push(x) + v@.skip(j as int) =~= v@.insert(j as int, x));
    }
    v.insert(j, x);
}

/// Order items by descending score (stable) and keep the first `limit`.
pub fn rank_by_score<T: Scored>(items: Vec<T>, limit: usize) -> (r: Vec<T>)
    ensures
        r@ == sort_by_score(items@).take(
            if limit < sort_by_score(items@).len() { limit as int } else { sort_by_score(items@).len() as int },
        ),
{
    let ghost input = items@;
    let mut rest = items;
    let total = rest.len();
    let mut sorted: Vec<T> = Vec::new();
    let mut k: usize = 0;
    proof {
        assert(input.take(0) =~= Seq::<T>::empty());
        assert(input.skip(0) =~= input);
    }
    while rest.len() > 0
        invariant
            k <= input.len(),
            total == input.len(),
            rest@ == input.skip(k as int),
            sorted@ == sort_by_score(input.take(k as int)),
        decreases rest@.len(),
    {
        let x = rest.remove(0);
        proof {
            assert(input.take(k as int + 1).drop_last() =~= input.take(k as int));
            assert(input.take(k as int + 1).last() == x);
            assert(rest@ =~= input.skip(k as int + 1));
        }
        insert_scored(&mut sorted, x);
        k = k + 1;
    }
    proof {
        assert(input.take(k as int) =~= input);
        lemma_sort_len(input);
    }
    sorted.truncate(limit);
    sorted
}

pub proof fn lemma_insert_len<T: Scored>(s: Seq<T>, x: T)
    ensures
        insert_by_score(s, x).len() == s.len() + 1,
    decreases s.len(),
{
    if s.len() > 0 {
        lemma_insert_len(s.drop_last(), x);
    }
}

pub proof fn lemma_sort_len<T: Scored>(s: Seq<T>)
    ensures
        sort_by_score(s).len() == s.len(),
    decreases s.len(),
{
    if s.len() > 0 {
        lemma_sort_len(s.drop_last());
        lemma_insert_len(sort_by_score(s.drop_last()), s.last());
    }
}


/// Scores never increase along `s`.
pub open spec fn descending<T: Scored>(s: Seq<T>) -> bool {
    forall|i: int, j: int| 0 <= i < j < s.len() ==> #[trigger] s[i].spec_score() >= #[trigger] s[j].spec_score()
}

/// Inserting keeps an ordered sequence ordered, and adds exactly the item.
pub proof fn lemma_insert_sorted<T: Scored>(s: Seq<T>, x: T)
    requires
        descending(s),
    ensures
        descending(insert_by_score(s, x)),
        insert_by_score(s, x).to_multiset() == s.to_multiset().insert(x),
    decreases s.len(),
{
    broadcast use vstd::seq_lib::group_to_multiset_ensures;
    let r = insert_by_score(s, x);
    if s.len() == 0 {
        assert(r =~= seq![x]);
        assert(seq![x] =~= Seq::<T>::empty().push(x));
    } else if s.last().spec_score() >= x.spec_score() {
        assert forall|i: int, j: int| 0 <= i < j < r.len() implies #[trigger] r[i].spec_score() >= #[trigger] r[j].spec_score() by {
            if j == s.len() {
                assert(s[i].spec_score() >= s[s.len() - 1].spec_score());
            }
        }
    } else {
        let d = s.drop_last();
        assert(descending(d));
        lemma_insert_sorted(d, x);
        let m = insert_by_score(d, x);
        assert(s =~= d.push(s.last()));
        assert forall|i: int| 0 <= i < m.len() implies #[trigger] m[i].spec_score() >= s.last().spec_score() by {
            assert(m.to_multiset().count(m[i]) > 0);
            if m[i] != x {
                assert(d.to_multiset().count(m[i]) > 0);
                assert(d.contains(m[i]));
                let k = choose|k: int| 0 <= k < d.len() && d[k] == m[i];
                assert(s[k].spec_score() >= s[s.len() - 1].spec_score());
            }
        }
        assert forall|i: int, j: int| 0 <= i < j < r.len() implies #[trigger] r[i].spec_score() >= #[trigger] r[j].spec_score() by {
            if j == m.len() {
                assert(r[i] == m[i]);
            } else {
                assert(r[i] == m[i] && r[j] == m[j]);
            }
        }
        assert(r.to_multiset() =~= s.to_multiset().insert(x));
    }
}

/// Ranking orders results by descending score and keeps every one of them.
pub proof fn lemma_sort_by_score<T: Scored>(s: Seq<T>)
    ensures
        descending(sort_by_score(s)),
        sort_by_score(s).to_multiset() == s.to_multiset(),
    decreases s.len(),
{
    broadcast use vstd::seq_lib::group_to_multiset_ensures;
    if s.len() == 0 {
        assert(sort_by_score(s) =~= s);
    } else {
        lemma_sort_by_score(s.drop_last());
        lemma_insert_sorted(sort_by_score(s.drop_last()), s.last());
        assert(s =~= s.drop_last().push(s.last()));
    }
}


/// The views of scored commands as search results, then the file results.
pub open spec fn combined_results(cmds: Seq<(Command, i32)>, files: Seq<FileResult>) -> Seq<SearchResult> {
    cmds.map_values(|p: (Command, i32)| SearchResult::Command { cmd: p.0, score: p.1 })
        + files.map_values(|f: FileResult| SearchResult::File(f))
}

/// The first `limit` items of `s` (all when fewer).
pub open spec fn first_n<T>(s: Seq<T>, limit: nat) -> Seq<T> {
    if limit < s.len() { s.take(limit as int) } else { s }
}

/// Merge command and file results: ordered by descending score (commands
/// first among equals) and limited to 50.
pub fn unified_results(commands: Vec<(Command, i32)>, files: Vec<FileResult>) -> (r: Vec<SearchResult>)
    ensures
        r@ == first_n(sort_by_score(combined_results(commands@, files@)), 50),
{
    let mut all: Vec<SearchResult> = Vec::new();
    let mut i: usize = 0;
    while i < commands.len()
        invariant
            0 <= i <= commands@.len(),
            all@ == commands@.take(i as int).map_values(|p: (Command, i32)| SearchResult::Command { cmd: p.0, score: p.1 }),
        decreases commands@.len() - i,
    {
        let (cmd, score) = commands[i];
        all.push(SearchResult::Command { cmd, score });
        assert(all@ =~= commands@.take(i + 1).map_values(|p: (Command, i32)| SearchResult::Command { cmd: p.0, score: p.1 }));
        i = i + 1;
    }
    assert(commands@.take(commands@.len() as int) =~= commands@);
    let ghost head = all@;
    let mut rest = files;
    let ghost fs = rest@;
    let total = rest.len();
    let mut k: usize = 0;
    proof {
        assert(fs.skip(0) =~= fs);
    }
    while rest.len() > 0
        invariant
            k <= fs.len(),
            total == fs.len(),
            rest@ == fs.skip(k as int),
            all@ == head + fs.take(k as int).map_values(|f: FileResult| SearchResult::File(f)),
        decreases rest@.len(),
    {
        let f = rest.remove(0);
        assert(f == fs[k as int]);
        all.push(SearchResult::File(f));
        assert(all@ =~= head + fs.take(k + 1).map_values(|f: FileResult| SearchResult::File(f)));
        assert(rest@ =~= fs.skip(k + 1));
        k = k + 1;
    }
    assert(fs.take(k as int) =~= fs);
    assert(all@ =~= combined_results(commands@, fs));
    proof {
        lemma_sort_len(all@);
    }
    rank_by_score(all, 50)
}

/// A file's score: the better of its name's and its relative path's.
pub fn file_score(query: &str, name: &str, relative_path: &str, name_similarity: i32, path_similarity: i32) -> (r: i32)
    ensures
        r == (if match_score(query@, name@, name_similarity) >= match_score(query@, relative_path@, path_similarity) {
            match_score(query@, name@, name_similarity)
        } else {
            match_score(query@, relative_path@, path_similarity)
        }),
{
    let a = fuzzy_match_score(query, name, name_similarity);
    let b = fuzzy_match_score(query, relative_path, path_similarity);
    if a >= b { a } else { b }
}

/// The files of `s` scoring at least `t`, in order.
pub open spec fn files_reaching(s: Seq<FileResult>, t: i32) -> Seq<FileResult>
    decreases s.len(),
{
    if s.len() == 0 {
        Seq::empty()
    } else if s.last().score >= t {
        files_reaching(s.drop_last(), t).push(s.last())
    } else {
        files_reaching(s.drop_last(), t)
    }
}

/// The file results worth showing for `query`: those reaching the threshold,
/// ordered by descending score and limited to 30.
pub fn file_hits(query: &str, files: Vec<FileResult>) -> (r: Vec<FileResult>)
    ensures
        r@ == first_n(sort_by_score(files_reaching(files@, threshold(query@))), 30),
{
    let q = text_chars(query);
    let t: i32 = if q.len() == 0 { 50 } else { 55 };
    let ghost fs = files@;
    let mut rest = files;
    let total = rest.len();
    let mut kept: Vec<FileResult> = Vec::new();
    let mut k: usize = 0;
    proof {
        assert(fs.skip(0) =~= fs);
        assert(fs.take(0) =~= Seq::<FileResult>::empty());
    }
    while rest.len() > 0
        invariant
            k <= fs.len(),
            total == fs.len(),
            rest@ == fs.skip(k as int),
            kept@ == files_reaching(fs.take(k as int), t),
        decreases rest@.len(),
    {
        let f = rest.remove(0);
        proof {
            assert(fs.take(k + 1).drop_last() =~= fs.take(k as int));
            assert(fs.take(k + 1).last() == f);
            assert(rest@ =~= fs.skip(k + 1));
        }
        if f.score >= t {
            kept.push(f);
        }
        k = k + 1;
    }
    assert(fs.take(k as int) =~= fs);
    proof {
        lemma_sort_len(kept@);
    }
    rank_by_score(kept, 30)
}

/// Whether the workspace search leaves an entry out (with a folder's
/// contents): hidden names, `node_modules` and `target`.
pub open spec fn search_skips(name: Seq<char>) -> bool {
    crate::tree::hidden_name(name) || name == "node_modules"@ || name == "target"@
}

/// Whether the workspace search leaves an entry out.
pub fn skipped_in_search(name: &str) -> (r: bool)
    ensures
        r == search_skips(name@),
{
    crate::tree::is_hidden_name(name) || str_eq(name, "node_modules") || str_eq(name, "target")
}

/// The name a found file is matched and shown by: its file name (empty
/// without one).
pub fn search_name(path: &str) -> (r: String)
    ensures
        r@ == match crate::paths::path_file_name(path@) {
            Some(n) => n,
            None => Seq::empty(),
        },
{
    match crate::paths::file_name_of(path) {
        Some(n) => n,
        None => String::new(),
    }
}

/// The path of a found file relative to the workspace `base` (the whole path
/// when it is not inside it).
pub fn relative_display(path: &str, base: &str) -> (r: String)
    ensures
        r@ == match crate::paths::path_strip_prefix(path@, base@) {
            Some(rest) => rest,
            None => path@,
        },
{
    match crate::paths::strip_path_prefix(path, base) {
        Some(rest) => rest,
        None => path.to_string(),
    }
}

/// Command palette state.
pub struct PaletteState {
    pub visible: bool,
    pub query: String,
    pub mode: PaletteMode,
    pub selected_index: usize,
    pub unified_results: Vec<SearchResult>,
}

impl Default for PaletteState {
    fn default() -> (p: Self)
        ensures
            !p.visible,
            p.query@.len() == 0,
            p.mode == PaletteMode::Unified,
            p.selected_index == 0,
            p.unified_results@.len() == 0,
    {
        PaletteState { visible: false, query: String::new(), mode: PaletteMode::Unified, selected_index: 0, unified_results: Vec::new() }
    }
}

/// The number of results keyboard navigation moves over: the unified
/// results, none in the other modes.
pub fn get_result_count(palette: &PaletteState) -> (r: usize)
    ensures
        r == (if palette.mode == PaletteMode::Unified { palette.unified_results@.len() } else { 0 }),
{
    match palette.mode {
        PaletteMode::Unified => palette.unified_results.len(),
        _ => 0,
    }
}

/// What running the selected palette entry asks for.
#[derive(Debug)]
pub enum PaletteAction {
    /// Open this file (its content is read first).
    OpenFile(String),
    /// Run the command with this id.
    RunCommand(&'static str),
    /// Go to this line.
    GoToLine(usize),
}

/// What `usize::from_str` accepts: an optional `+` and then decimal digits
/// whose value fits in a `usize`.
pub open spec fn parsed_usize(s: Seq<char>) -> Option<usize> {
    let d = crate::launch::unsigned_part(s);
    if crate::launch::all_digits(d) && crate::launch::digits_value(d) <= usize::MAX {
        Some(crate::launch::digits_value(d) as usize)
    } else {
        None
    }
}

/// `str::parse::<usize>`: per the documentation of `usize::from_str_radix`,
/// an optional `+` followed by decimal digits, with an error when the value
/// does not fit; any other character is an error.
#[verifier::external_body]
fn text_to_usize(s: &str) -> (r: Option<usize>)
    ensures
        r == parsed_usize(s@),
{
    s.parse::<usize>().ok()
}

/// `s` without its leading colons.
pub open spec fn strip_colons(s: Seq<char>) -> Seq<char>
    decreases s.len(),
{
    if s.len() > 0 && s[0] == ':' {
        strip_colons(s.drop_first())
    } else {
        s
    }
}

/// The action of the selected entry: the selected unified result (a file to
/// open or a command to run), or the line number of a go-to-line query.
pub open spec fn palette_action(p: PaletteState) -> Option<PaletteAction> {
    match p.mode {
        PaletteMode::Unified => if p.selected_index < p.unified_results@.len() {
            match p.unified_results@[p.selected_index as int] {
                SearchResult::File(f) => Some(PaletteAction::OpenFile(f.path)),
                SearchResult::Command { cmd, .. } => Some(PaletteAction::RunCommand(cmd.id)),
            }
        } else {
            None
        },
        PaletteMode::GoToLine => match parsed_usize(trimmed(strip_colons(p.query@))) {
            Some(n) => Some(PaletteAction::GoToLine(n)),
            None => None,
        },
        _ => None,
    }
}

/// The views of an action.
pub open spec fn action_view(a: Option<PaletteAction>) -> Option<(int, Seq<char>, usize)> {
    match a {
        Some(PaletteAction::OpenFile(p)) => Some((0, p@, 0)),
        Some(PaletteAction::RunCommand(id)) => Some((1, id@, 0)),
        Some(PaletteAction::GoToLine(n)) => Some((2, Seq::empty(), n)),
        None => None,
    }
}

/// What executing the selected palette entry asks for (see `palette_action`).
pub fn selected_action(palette: &PaletteState) -> (r: Option<PaletteAction>)
    ensures
        action_view(r) == action_view(palette_action(*palette)),
{
    match palette.mode {
        PaletteMode::Unified => {
            if palette.selected_index < palette.unified_results.len() {
                match &palette.unified_results[palette.selected_index] {
                    SearchResult::File(f) => Some(PaletteAction::OpenFile(f.path.clone())),
                    SearchResult::Command { cmd, .. } => Some(PaletteAction::RunCommand(cmd.id)),
                }
            } else {
                None
            }
        },
        PaletteMode::GoToLine => {
            let cs = text_chars(palette.query.as_str());
            let mut a: usize = 0;
            proof {
                assert(cs@.skip(0) =~= cs@);
            }
            while a < cs.len() && cs[a] == ':'
                invariant
                    a <= cs@.len(),
                    cs@ == palette.query@,
                    strip_colons(cs@) == strip_colons(cs@.skip(a as int)),
                decreases cs@.len() - a,
            {
                assert(cs@.skip(a as int).drop_first() =~= cs@.skip(a + 1));
                a = a + 1;
            }
            assert(strip_colons(cs@.skip(a as int)) == cs@.skip(a as int));
            let term = trim_chars(&cs, a);
            match text_to_usize(term.as_str()) {
                Some(n) => Some(PaletteAction::GoToLine(n)),
                None => None,
            }
        },
        _ => None,
    }
}


/// Execute a command by id: `file.new` opens a new tab, `file.closeFolder`
/// closes the workspace, `help.cookbook` opens the Cookbook; other commands do
/// nothing.
pub fn execute_command(id: &str, state: &mut AppState)
    requires
        old(state).next_tab_id < u64::MAX,
    ensures
        old(state).inv() ==> final(state).inv(),
        if id@ == "file.new"@ {
            let l = old(state).layout();
            let t = new_tab_view(l.next_tab_id, TabKind::File, None, Seq::empty(), false);
            &&& final(state).layout() == if l.pane.group(l.focused) is Some {
                Layout { last_source: Some(t.id), ..l.add_tab(l.focused, t) }
            } else {
                l.add_tab(l.focused, t)
            }
            &&& final(state).error_message is None
            &&& same_settings_and_files(*old(state), *final(state))
        } else if id@ == "file.closeFolder"@ {
            &&& final(state).workspace is None
            &&& final(state).layout() == old(state).layout()
            &&& final(state).recent_files == old(state).recent_files
        } else if id@ == "help.cookbook"@ {
            &&& final(state).layout() == (match tab_of_kind(old(state).editor_pane@, TabKind::Markdown(MarkdownDoc::Cookbook)) {
                Some((p, t)) => Layout { focused: p, ..old(state).layout() }.switch_to(t),
                None => old(state).layout().add_tab(
                    old(state).focused_pane_id,
                    new_tab_view(old(state).next_tab_id, TabKind::Markdown(MarkdownDoc::Cookbook), None, Seq::empty(), false),
                ),
            })
            &&& only_layout_changed(*old(state), *final(state))
        } else {
            *final(state) == *old(state)
        },
{
    if str_eq(id, "file.new") {
        state.new_tab();
    } else if str_eq(id, "file.closeFolder") {
        state.close_folder();
    } else if str_eq(id, "help.cookbook") {
        state.open_cookbook();
    }
}

} // verus!
