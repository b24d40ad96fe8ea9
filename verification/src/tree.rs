//! The file explorer's tree: a flat list of rows, each directory's expanded
//! contents following it with a greater depth.
use crate::text::str_eq;
use crate::paths::{extension_of, file_name_of, join_path, parent_of, path_equals, path_extension, path_file_name, path_join, path_parent, same_path};
use crate::markdown::ascii_lower;
use crate::palette::{lowercase, trim_chars, trimmed};
use crate::text::text_chars;
use vstd::prelude::*;

verus! {

/// A node in the file tree (flattened for easy rendering).
#[derive(Clone, Debug, PartialEq)]
pub struct TreeNode {
    pub name: String,
    pub path: String,
    pub is_dir: bool,
    pub depth: usize,
}

/// The mathematical value of a tree row.
pub struct TreeRow {
    pub name: Seq<char>,
    pub path: Seq<char>,
    pub is_dir: bool,
    pub depth: usize,
}

impl View for TreeNode {
    type V = TreeRow;

    open spec fn view(&self) -> TreeRow {
        TreeRow { name: self.name@, path: self.path@, is_dir: self.is_dir, depth: self.depth }
    }
}

/// The views of a sequence of rows.
pub open spec fn row_views(v: Seq<TreeNode>) -> Seq<TreeRow> {
    v.map_values(|n: TreeNode| n@)
}

/// The index of the first row whose path equals `path`.
pub open spec fn row_of_path(rows: Seq<TreeRow>, path: Seq<char>) -> Option<nat>
    decreases rows.len(),
{
    if rows.len() == 0 {
        None
    } else if path_equals(rows[0].path, path) {
        Some(0)
    } else {
        match row_of_path(rows.drop_first(), path) {
            Some(k) => Some(k + 1),
            None => None,
        }
    }
}

/// The number of consecutive rows from `j` on deeper than `depth`.
pub open spec fn run_below(rows: Seq<TreeRow>, j: int, depth: usize) -> nat
    decreases rows.len() - j,
{
    if j < 0 || j >= rows.len() || rows[j].depth <= depth {
        0
    } else {
        1 + run_below(rows, j + 1, depth)
    }
}

/// `rows` with the descendants of the row at `p` replaced by `children`.
pub open spec fn spliced(rows: Seq<TreeRow>, p: int, children: Seq<TreeRow>) -> Seq<TreeRow> {
    rows.take(p + 1) + children + rows.skip(p + 1 + run_below(rows, p + 1, rows[p].depth))
}

pub proof fn lemma_run_below(rows: Seq<TreeRow>, j: int, depth: usize)
    requires
        0 <= j <= rows.len(),
    ensures
        j + run_below(rows, j, depth) <= rows.len(),
    decreases rows.len() - j,
{
    if j < rows.len() && rows[j].depth > depth {
        lemma_run_below(rows, j + 1, depth);
    }
}

pub proof fn lemma_row_of_path_bound(rows: Seq<TreeRow>, path: Seq<char>)
    ensures
        row_of_path(rows, path) matches Some(k) ==> k < rows.len(),
    decreases rows.len(),
{
    if rows.len() > 0 {
        lemma_row_of_path_bound(rows.drop_first(), path);
    }
}

/// The index of the first row whose path equals `path`.
fn find_row(nodes: &Vec<TreeNode>, path: &str) -> (r: Option<usize>)
    ensures
        r matches Some(k) ==> row_of_path(row_views(nodes@), path@) == Some(k as nat),
        r is None ==> row_of_path(row_views(nodes@), path@) is None,
{
    let ghost rows = row_views(nodes@);
    let mut p: usize = 0;
    proof {
        assert(rows.skip(0) =~= rows);
    }
    while p < nodes.len()
        invariant
            0 <= p <= nodes@.len(),
            rows == row_views(nodes@),
            row_of_path(rows, path@) == crate::text::shift_index(row_of_path(rows.skip(p as int), path@), p as nat),
        decreases nodes@.len() - p,
    {
        proof {
            assert(rows.skip(p as int).drop_first() =~= rows.skip(p + 1));
            assert(rows.skip(p as int)[0] == nodes@[p as int]@);
        }
        if same_path(nodes[p].path.as_str(), path) {
            return Some(p);
        }
        p = p + 1;
    }
    None
}

/// Replace the descendant rows of `parent_path` in the flat tree with
/// `new_children`: this expands a collapsed directory (no rows to replace),
/// collapses an expanded one (no new children) or refreshes its listing.
/// Leaves `nodes` untouched and returns `false` when `parent_path` is not in
/// the tree.
pub fn splice_dir_children(nodes: &mut Vec<TreeNode>, parent_path: &str, new_children: Vec<TreeNode>) -> (r: bool)
    ensures
        match row_of_path(row_views(old(nodes)@), parent_path@) {
            Some(p) => r && row_views(final(nodes)@) == spliced(row_views(old(nodes)@), p as int, row_views(new_children@)),
            None => !r && final(nodes)@ == old(nodes)@,
        },
{
    let ghost rows = row_views(nodes@);
    let p = match find_row(nodes, parent_path) {
        Some(p) => p,
        None => {
            return false;
        },
    };
    proof {
        lemma_row_of_path_bound(rows, parent_path@);
    }
    let n = nodes.len();
    assert(p < n);
    let parent_depth = nodes[p].depth;
    let mut end = p + 1;
    proof {
        lemma_run_below(rows, p + 1, parent_depth);
    }
    while end < nodes.len() && nodes[end].depth > parent_depth
        invariant
            p < end <= nodes@.len(),
            rows == row_views(nodes@),
            parent_depth == rows[p as int].depth,
            end + run_below(rows, end as int, parent_depth) == p + 1 + run_below(rows, p + 1, parent_depth),
        decreases nodes@.len() - end,
    {
        end = end + 1;
    }
    let ghost before = nodes@;
    let mut after = nodes.split_off(end);
    let _removed = nodes.split_off(p + 1);
    let mut children = new_children;
    let ghost cs = children@;
    nodes.append(&mut children);
    nodes.append(&mut after);
    proof {
        assert(nodes@ =~= before.take(p + 1) + cs + before.skip(end as int));
        assert(row_views(nodes@) =~= rows.take(p + 1) + row_views(cs) + rows.skip(end as int));
    }
    true
}


/// After the children `c` of the row at `p`, the rows deeper than it are
/// exactly those children.
proof fn lemma_run_after_splice(rows: Seq<TreeRow>, p: int, c: Seq<TreeRow>, j: int)
    requires
        0 <= p < rows.len(),
        forall|i: int| 0 <= i < c.len() ==> #[trigger] c[i].depth > rows[p].depth,
        p + 1 <= j <= p + 1 + c.len(),
    ensures
        run_below(spliced(rows, p, c), j, rows[p].depth) == p + 1 + c.len() - j,
    decreases p + 1 + c.len() - j,
{
    let d = rows[p].depth;
    let n = spliced(rows, p, c);
    lemma_run_below(rows, p + 1, d);
    let e = p + 1 + run_below(rows, p + 1, d);
    if j < p + 1 + c.len() {
        assert(n[j] == c[j - (p + 1)]);
        lemma_run_after_splice(rows, p, c, j + 1);
    } else {
        lemma_run_end(rows, p + 1, d);
        if j < n.len() {
            assert(n[j] == rows[e]);
        }
    }
}

/// The run of deeper rows ends at a row that is not deeper (or at the end).
proof fn lemma_run_end(rows: Seq<TreeRow>, j: int, depth: usize)
    requires
        0 <= j <= rows.len(),
    ensures
        j + run_below(rows, j, depth) < rows.len() ==> rows[j + run_below(rows, j, depth)].depth <= depth,
    decreases rows.len() - j,
{
    if j < rows.len() && rows[j].depth > depth {
        lemma_run_end(rows, j + 1, depth);
    }
}

/// The first row with a path found before `a` ends is found there in `a + b` too.
proof fn lemma_row_of_path_prefix(a: Seq<TreeRow>, b: Seq<TreeRow>, path: Seq<char>)
    ensures
        row_of_path(a, path) is Some ==> row_of_path(a + b, path) == row_of_path(a, path),
    decreases a.len(),
{
    if a.len() > 0 {
        assert((a + b).drop_first() =~= a.drop_first() + b);
        assert((a + b)[0] == a[0]);
        lemma_row_of_path_prefix(a.drop_first(), b, path);
    }
}

/// Splicing new children under a directory replaces exactly the children a
/// previous splice put there, and the directory is still found at the same
/// row; so collapsing a just-expanded directory gives back the tree it was
/// expanded in.
pub proof fn lemma_splice_replaces_children(rows: Seq<TreeRow>, path: Seq<char>, c1: Seq<TreeRow>, c2: Seq<TreeRow>)
    requires
        row_of_path(rows, path) is Some,
        forall|i: int| 0 <= i < c1.len() ==> #[trigger] c1[i].depth > rows[row_of_path(rows, path).unwrap() as int].depth,
    ensures
        ({
            let p = row_of_path(rows, path).unwrap() as int;
            let once = spliced(rows, p, c1);
            &&& row_of_path(once, path) == Some(p as nat)
            &&& spliced(once, p, c2) == spliced(rows, p, c2)
            &&& run_below(rows, p + 1, rows[p].depth) == 0 ==> spliced(once, p, Seq::empty()) == rows
        }),
{
    let p = row_of_path(rows, path).unwrap() as int;
    lemma_row_of_path_bound(rows, path);
    let d = rows[p].depth;
    let once = spliced(rows, p, c1);
    lemma_run_below(rows, p + 1, d);
    let e = p + 1 + run_below(rows, p + 1, d);
    // The directory is found in the unchanged prefix.
    assert(rows.take(p + 1) + (c1 + rows.skip(e)) =~= once);
    lemma_row_of_path_prefix(rows.take(p + 1), c1 + rows.skip(e), path);
    lemma_row_of_path_take(rows, path, p + 1);
    // The previous children are exactly the rows below it now.
    assert(once[p] == rows[p]);
    lemma_run_after_splice(rows, p, c1, p + 1);
    assert(once.take(p + 1) =~= rows.take(p + 1));
    assert(once.skip(p + 1 + c1.len()) =~= rows.skip(e));
    assert(spliced(once, p, c2) =~= spliced(rows, p, c2));
    if run_below(rows, p + 1, d) == 0 {
        assert(spliced(rows, p, Seq::empty()) =~= rows);
    }
}

/// A row found within the first `n` rows is found there in the prefix too.
proof fn lemma_row_of_path_take(rows: Seq<TreeRow>, path: Seq<char>, n: int)
    requires
        0 <= n <= rows.len(),
        row_of_path(rows, path) matches Some(k) && k < n,
    ensures
        row_of_path(rows.take(n), path) == row_of_path(rows, path),
    decreases rows.len(),
{
    if rows.len() > 0 && !path_equals(rows[0].path, path) {
        assert(rows.take(n).drop_first() =~= rows.drop_first().take(n - 1));
        lemma_row_of_path_take(rows.drop_first(), path, n - 1);
    }
}

/// The icon shown beside a tree row.
#[derive(Clone, Copy, Debug, PartialEq, Eq, Structural)]
pub enum FileIcon {
    Folder,
    Rhai,
    Rust,
    Toml,
    Json,
    Markdown,
    Model,
    Image,
    Vector,
    Css,
    Lock,
    Text,
    Generic,
}

/// `s` with ASCII capitals lowered.
pub open spec fn ascii_lowered(s: Seq<char>) -> Seq<char> {
    s.map_values(|c: char| ascii_lower(c))
}

/// The icon of a file with the (ASCII-lowered) extension `ext`.
pub open spec fn icon_for_extension(ext: Seq<char>) -> FileIcon {
    if ext == "rhai"@ {
        FileIcon::Rhai
    } else if ext == "rs"@ {
        FileIcon::Rust
    } else if ext == "toml"@ {
        FileIcon::Toml
    } else if ext == "json"@ {
        FileIcon::Json
    } else if ext == "md"@ {
        FileIcon::Markdown
    } else if ext == "glb"@ || ext == "gltf"@ || ext == "obj"@ {
        FileIcon::Model
    } else if ext == "png"@ || ext == "jpg"@ || ext == "jpeg"@ {
        FileIcon::Image
    } else if ext == "svg"@ {
        FileIcon::Vector
    } else if ext == "css"@ {
        FileIcon::Css
    } else if ext == "lock"@ {
        FileIcon::Lock
    } else if ext == "txt"@ {
        FileIcon::Text
    } else {
        FileIcon::Generic
    }
}

/// The icon of a row: a folder, or by the file's extension (ASCII case
/// ignored).
pub open spec fn row_icon(row: TreeRow) -> FileIcon {
    if row.is_dir {
        FileIcon::Folder
    } else {
        icon_for_extension(ascii_lowered(match path_extension(row.path) {
            Some(e) => e,
            None => Seq::empty(),
        }))
    }
}

/// The icon of a tree row.
pub fn file_icon(node: &TreeNode) -> (r: FileIcon)
    ensures
        r == row_icon(node@),
{
    if node.is_dir {
        return FileIcon::Folder;
    }
    let ext = match extension_of(node.path.as_str()) {
        Some(e) => e,
        None => String::new(),
    };
    let cs = crate::text::text_chars(ext.as_str());
    let mut lowered = String::new();
    let mut k: usize = 0;
    while k < cs.len()
        invariant
            0 <= k <= cs@.len(),
            cs@ == ext@,
            lowered@ == ascii_lowered(cs@.take(k as int)),
        decreases cs@.len() - k,
    {
        let c = cs[k];
        let l = if c >= 'A' && c <= 'Z' { ((c as u8) + 32) as char } else { c };
        crate::strings::push_char(&mut lowered, l);
        assert(lowered@ =~= ascii_lowered(cs@.take(k + 1)));
        k = k + 1;
    }
    assert(cs@.take(cs@.len() as int) =~= cs@);
    let e = lowered.as_str();
    if str_eq(e, "rhai") {
        FileIcon::Rhai
    } else if str_eq(e, "rs") {
        FileIcon::Rust
    } else if str_eq(e, "toml") {
        FileIcon::Toml
    } else if str_eq(e, "json") {
        FileIcon::Json
    } else if str_eq(e, "md") {
        FileIcon::Markdown
    } else if str_eq(e, "glb") || str_eq(e, "gltf") || str_eq(e, "obj") {
        FileIcon::Model
    } else if str_eq(e, "png") || str_eq(e, "jpg") || str_eq(e, "jpeg") {
        FileIcon::Image
    } else if str_eq(e, "svg") {
        FileIcon::Vector
    } else if str_eq(e, "css") {
        FileIcon::Css
    } else if str_eq(e, "lock") {
        FileIcon::Lock
    } else if str_eq(e, "txt") {
        FileIcon::Text
    } else {
        FileIcon::Generic
    }
}

/// Whether `a` comes strictly before `b` in lexicographic character order.
pub open spec fn text_less(a: Seq<char>, b: Seq<char>) -> bool
    decreases a.len(),
{
    if a.len() == 0 {
        b.len() > 0
    } else if b.len() == 0 {
        false
    } else if a[0] != b[0] {
        a[0] < b[0]
    } else {
        text_less(a.drop_first(), b.drop_first())
    }
}

/// Whether row `a` belongs strictly after row `b`: directories come first,
/// then names in order, case ignored.
pub open spec fn row_after(a: TreeRow, b: TreeRow) -> bool {
    if a.is_dir != b.is_dir {
        b.is_dir
    } else {
        text_less(lowercase(b.name), lowercase(a.name))
    }
}

/// `sorted` with `x` placed after every row it does not belong before.
pub open spec fn insert_row(sorted: Seq<TreeRow>, x: TreeRow) -> Seq<TreeRow>
    decreases sorted.len(),
{
    if sorted.len() == 0 {
        seq![x]
    } else if !row_after(sorted.last(), x) {
        sorted.push(x)
    } else {
        insert_row(sorted.drop_last(), x).push(sorted.last())
    }
}

/// `rows` in listing order (directories first, then by name, case ignored),
/// rows that compare equal in the order they came.
pub open spec fn listing_order(rows: Seq<TreeRow>) -> Seq<TreeRow>
    decreases rows.len(),
{
    if rows.len() == 0 {
        Seq::empty()
    } else {
        insert_row(listing_order(rows.drop_last()), rows.last())
    }
}

/// Character order is irreflexive.
proof fn lemma_text_less_irreflexive(a: Seq<char>)
    ensures
        !text_less(a, a),
    decreases a.len(),
{
    if a.len() > 0 {
        lemma_text_less_irreflexive(a.drop_first());
    }
}

/// Character order is transitive.
proof fn lemma_text_less_transitive(a: Seq<char>, b: Seq<char>, c: Seq<char>)
    requires
        text_less(a, b),
        text_less(b, c),
    ensures
        text_less(a, c),
    decreases a.len(),
{
    if a.len() > 0 && b.len() > 0 && c.len() > 0 && a[0] == b[0] && b[0] == c[0] {
        lemma_text_less_transitive(a.drop_first(), b.drop_first(), c.drop_first());
    }
}

/// Character order is total.
proof fn lemma_text_less_total(a: Seq<char>, b: Seq<char>)
    ensures
        a == b || text_less(a, b) || text_less(b, a),
    decreases a.len(),
{
    if a.len() > 0 && b.len() > 0 && a[0] == b[0] {
        lemma_text_less_total(a.drop_first(), b.drop_first());
        if a.drop_first() == b.drop_first() {
            assert(a =~= seq![a[0]] + a.drop_first());
            assert(b =~= seq![b[0]] + b.drop_first());
        }
    } else if a.len() == 0 && b.len() == 0 {
        assert(a =~= b);
    }
}

/// A row is never after itself, and of two rows at most one is after the
/// other.
proof fn lemma_row_after_asymmetric(a: TreeRow, b: TreeRow)
    ensures
        row_after(a, b) ==> !row_after(b, a),
{
    if a.is_dir == b.is_dir && text_less(lowercase(b.name), lowercase(a.name)) && text_less(lowercase(a.name), lowercase(b.name)) {
        lemma_text_less_transitive(lowercase(b.name), lowercase(a.name), lowercase(b.name));
        lemma_text_less_irreflexive(lowercase(b.name));
    }
}

/// If `a` is after `c`, it is after `b` or `b` is after `c`.
proof fn lemma_row_after_split(a: TreeRow, b: TreeRow, c: TreeRow)
    ensures
        row_after(a, c) ==> row_after(a, b) || row_after(b, c),
{
    if row_after(a, c) && a.is_dir == c.is_dir && a.is_dir == b.is_dir {
        let (la, lb, lc) = (lowercase(a.name), lowercase(b.name), lowercase(c.name));
        lemma_text_less_total(la, lb);
        if text_less(la, lb) {
            lemma_text_less_transitive(lc, la, lb);
        }
    }
}

/// Rows in listing order: none comes after a later one.
pub open spec fn in_listing_order(s: Seq<TreeRow>) -> bool {
    forall|i: int, j: int| 0 <= i < j < s.len() ==> !row_after(#[trigger] s[i], #[trigger] s[j])
}

/// Inserting keeps rows in listing order, and adds exactly the row.
proof fn lemma_insert_row(s: Seq<TreeRow>, x: TreeRow)
    requires
        in_listing_order(s),
    ensures
        in_listing_order(insert_row(s, x)),
        insert_row(s, x).to_multiset() == s.to_multiset().insert(x),
    decreases s.len(),
{
    broadcast use vstd::seq_lib::group_to_multiset_ensures;
    let r = insert_row(s, x);
    if s.len() == 0 {
        assert(r =~= Seq::<TreeRow>::empty().push(x));
    } else if !row_after(s.last(), x) {
        assert forall|i: int, j: int| 0 <= i < j < r.len() implies !row_after(#[trigger] r[i], #[trigger] r[j]) by {
            if j == s.len() {
                lemma_row_after_split(s[i], s.last(), x);
            }
        }
    } else {
        let d = s.drop_last();
        assert(in_listing_order(d));
        lemma_insert_row(d, x);
        let m = insert_row(d, x);
        assert(s =~= d.push(s.last()));
        lemma_row_after_asymmetric(s.last(), x);
        assert forall|i: int| 0 <= i < m.len() implies !row_after(#[trigger] m[i], s.last()) by {
            assert(m.to_multiset().count(m[i]) > 0);
            if m[i] != x {
                assert(d.to_multiset().count(m[i]) > 0);
                assert(d.contains(m[i]));
                let k = choose|k: int| 0 <= k < d.len() && d[k] == m[i];
                assert(s[k] == m[i]);
            }
        }
        assert forall|i: int, j: int| 0 <= i < j < r.len() implies !row_after(#[trigger] r[i], #[trigger] r[j]) by {
            if j == m.len() {
                assert(r[i] == m[i]);
            } else {
                assert(r[i] == m[i] && r[j] == m[j]);
            }
        }
        assert(r.to_multiset() =~= s.to_multiset().insert(x));
    }
}

/// A listing puts directories first and names in order, case ignored, and
/// keeps every entry.
pub proof fn lemma_listing_order(rows: Seq<TreeRow>)
    ensures
        in_listing_order(listing_order(rows)),
        listing_order(rows).to_multiset() == rows.to_multiset(),
        forall|i: int, j: int| 0 <= i < j < listing_order(rows).len() && !(#[trigger] listing_order(rows)[i]).is_dir
            ==> !(#[trigger] listing_order(rows)[j]).is_dir,
    decreases rows.len(),
{
    broadcast use vstd::seq_lib::group_to_multiset_ensures;
    if rows.len() == 0 {
        assert(listing_order(rows) =~= rows);
    } else {
        lemma_listing_order(rows.drop_last());
        lemma_insert_row(listing_order(rows.drop_last()), rows.last());
        assert(rows =~= rows.drop_last().push(rows.last()));
    }
    let l = listing_order(rows);
    assert forall|i: int, j: int| 0 <= i < j < l.len() && !(#[trigger] l[i]).is_dir implies !(#[trigger] l[j]).is_dir by {
        assert(!row_after(l[i], l[j]));
    }
}

/// Whether `a` comes strictly before `b` in character order.
fn chars_less(a: &Vec<char>, b: &Vec<char>) -> (r: bool)
    ensures
        r == text_less(a@, b@),
{
    let mut k: usize = 0;
    proof {
        assert(a@.skip(0) =~= a@);
        assert(b@.skip(0) =~= b@);
    }
    while k < a.len() && k < b.len()
        invariant
            k <= a@.len(),
            k <= b@.len(),
            text_less(a@, b@) == text_less(a@.skip(k as int), b@.skip(k as int)),
        decreases a@.len() - k,
    {
        if a[k] != b[k] {
            return a[k] < b[k];
        }
        assert(a@.skip(k as int).drop_first() =~= a@.skip(k + 1));
        assert(b@.skip(k as int).drop_first() =~= b@.skip(k + 1));
        k = k + 1;
    }
    k == a.len() && k < b.len()
}

/// Whether `a` belongs strictly after `b` in the listing.
fn belongs_after(a: &TreeNode, b: &TreeNode) -> (r: bool)
    ensures
        r == row_after(a@, b@),
{
    if a.is_dir != b.is_dir {
        return b.is_dir;
    }
    let an = crate::text::text_chars(crate::palette::lowered(a.name.as_str()).as_str());
    let bn = crate::text::text_chars(crate::palette::lowered(b.name.as_str()).as_str());
    chars_less(&bn, &an)
}

/// Sort directory entries for listing: directories first, then by name with
/// case ignored; entries that compare equal keep their order.
pub fn sort_entries(entries: Vec<TreeNode>) -> (r: Vec<TreeNode>)
    ensures
        row_views(r@) == listing_order(row_views(entries@)),
{
    let ghost input = row_views(entries@);
    let mut rest = entries;
    let total = rest.len();
    let mut sorted: Vec<TreeNode> = Vec::new();
    let mut k: usize = 0;
    proof {
        assert(input.take(0) =~= Seq::<TreeRow>::empty());
        assert(row_views(rest@) =~= input.skip(0));
    }
    while rest.len() > 0
        invariant
            k <= input.len(),
            total == input.len(),
            row_views(rest@) == input.skip(k as int),
            row_views(sorted@) == listing_order(input.take(k as int)),
        decreases rest@.len(),
    {
        let ghost r0 = rest@;
        proof {
            assert(row_views(rest@).len() == rest@.len());
            assert(k < input.len());
        }
        let x = rest.remove(0);
        proof {
            assert(input.take(k + 1).drop_last() =~= input.take(k as int));
            assert(row_views(r0)[0] == x@);
            assert(input.take(k + 1).last() == x@);
            assert(row_views(rest@) =~= row_views(r0).skip(1));
            assert(input.skip(k as int).skip(1) =~= input.skip(k + 1));
        }
        let ghost s0 = row_views(sorted@);
        let mut j = sorted.len();
        proof {
            assert(s0.take(j as int) =~= s0);
            assert(s0.skip(j as int) =~= Seq::<TreeRow>::empty());
            assert(insert_row(s0, x@) + Seq::<TreeRow>::empty() =~= insert_row(s0, x@));
        }
        while j > 0 && belongs_after(&sorted[j - 1], &x)
            invariant
                j <= sorted@.len(),
                row_views(sorted@) == s0,
                insert_row(s0, x@) == insert_row(s0.take(j as int), x@) + s0.skip(j as int),
            decreases j,
        {
            proof {
                let t = s0.take(j as int);
                assert(t.last() == s0[j - 1]);
                assert(t.drop_last() =~= s0.take(j - 1));
                assert(s0.skip(j - 1) =~= seq![s0[j - 1]] + s0.skip(j as int));
                assert(insert_row(t, x@) == insert_row(s0.take(j - 1), x@).push(s0[j - 1]));
                assert(insert_row(t, x@) + s0.skip(j as int) =~= insert_row(s0.take(j - 1), x@) + s0.skip(j - 1));
            }
            j = j - 1;
        }
        proof {
            let t = s0.take(j as int);
            if j > 0 {
                assert(t.last() == s0[j - 1]);
            } else {
                assert(t =~= Seq::<TreeRow>::empty());
            }
            assert(insert_row(t, x@) == t.push(x@));
        }
        sorted.insert(j, x);
        proof {
            assert(row_views(sorted@) =~= s0.take(j as int).push(x@) + s0.skip(j as int));
        }
        k = k + 1;
    }
    proof {
        assert(input.take(k as int) =~= input);
    }
    sorted
}


/// Whether a name is hidden from listings: it starts with a dot.
pub open spec fn hidden_name(name: Seq<char>) -> bool {
    name.len() > 0 && name[0] == '.'
}

/// Whether a name is hidden from listings (it starts with a dot).
pub fn is_hidden_name(name: &str) -> (r: bool)
    ensures
        r == hidden_name(name@),
{
    let cs = crate::text::text_chars(name);
    cs.len() > 0 && cs[0] == '.'
}

/// The rows whose names are not hidden, in order.
pub open spec fn shown_rows(rows: Seq<TreeRow>) -> Seq<TreeRow>
    decreases rows.len(),
{
    if rows.len() == 0 {
        Seq::empty()
    } else if hidden_name(rows.last().name) {
        shown_rows(rows.drop_last())
    } else {
        shown_rows(rows.drop_last()).push(rows.last())
    }
}

/// The listing of a directory's entries: hidden entries left out, then
/// directories first and names in order with case ignored.
pub fn directory_listing(entries: Vec<TreeNode>) -> (r: Vec<TreeNode>)
    ensures
        row_views(r@) == listing_order(shown_rows(row_views(entries@))),
{
    let ghost input = row_views(entries@);
    let mut rest = entries;
    let total = rest.len();
    let mut kept: Vec<TreeNode> = Vec::new();
    let mut k: usize = 0;
    proof {
        assert(input.take(0) =~= Seq::<TreeRow>::empty());
        assert(row_views(rest@) =~= input.skip(0));
    }
    while rest.len() > 0
        invariant
            k <= input.len(),
            total == input.len(),
            row_views(rest@) == input.skip(k as int),
            row_views(kept@) == shown_rows(input.take(k as int)),
        decreases rest@.len(),
    {
        let ghost r0 = rest@;
        proof {
            assert(row_views(rest@).len() == rest@.len());
        }
        let x = rest.remove(0);
        proof {
            assert(input.take(k + 1).drop_last() =~= input.take(k as int));
            assert(row_views(r0)[0] == x@);
            assert(input.take(k + 1).last() == x@);
            assert(row_views(rest@) =~= row_views(r0).skip(1));
            assert(input.skip(k as int).skip(1) =~= input.skip(k + 1));
        }
        if !is_hidden_name(x.name.as_str()) {
            let ghost k0 = kept@;
            kept.push(x);
            assert(row_views(kept@) =~= row_views(k0).push(x@));
        }
        k = k + 1;
    }
    proof {
        assert(input.take(k as int) =~= input);
    }
    sort_entries(kept)
}

/// Where an entry dragged from `source` lands when dropped on the folder
/// `target`: inside it under its own name; nothing when `target` is already
/// the folder it is in, or it has no name.
pub open spec fn drop_target(source: Seq<char>, target: Seq<char>) -> Option<Seq<char>> {
    if path_parent(source) matches Some(p) && path_equals(p, target) {
        None
    } else {
        match path_file_name(source) {
            Some(n) => Some(path_join(target, n)),
            None => None,
        }
    }
}

/// Where an entry dragged from `source` and dropped on the folder `target`
/// is moved to (nothing when it would not move).
pub fn drop_destination(source: &str, target: &str) -> (r: Option<String>)
    ensures
        crate::editor::opt_view(r) == drop_target(source@, target@),
{
    if let Some(parent) = parent_of(source) {
        if same_path(parent.as_str(), target) {
            return None;
        }
    }
    match file_name_of(source) {
        Some(n) => Some(join_path(target, n.as_str())),
        None => None,
    }
}

/// The path an entry at `old_path` is renamed to when given `new_name`: the
/// new name in the same folder; nothing for an empty name or a path without
/// a parent.
pub open spec fn rename_target(old_path: Seq<char>, new_name: Seq<char>) -> Option<Seq<char>> {
    if new_name.len() == 0 {
        None
    } else {
        match path_parent(old_path) {
            Some(p) => Some(path_join(p, new_name)),
            None => None,
        }
    }
}

/// The path an entry is renamed to (nothing when it is not renamed).
pub fn rename_destination(old_path: &str, new_name: &str) -> (r: Option<String>)
    ensures
        crate::editor::opt_view(r) == rename_target(old_path@, new_name@),
{
    if new_name.is_empty() {
        return None;
    }
    match parent_of(old_path) {
        Some(p) => Some(join_path(p.as_str(), new_name)),
        None => None,
    }
}

/// The path a new file or folder named `typed` is created at inside the
/// folder `parent`: the name without surrounding white space, joined to the
/// folder; nothing (the creation is cancelled) when that name is empty.
pub open spec fn create_target(parent: Seq<char>, typed: Seq<char>) -> Option<Seq<char>> {
    if trimmed(typed).len() == 0 {
        None
    } else {
        Some(path_join(parent, trimmed(typed)))
    }
}

/// Where a new entry typed as `typed` in the folder `parent` is created
/// (nothing when the creation is cancelled).
pub fn create_destination(parent: &str, typed: &str) -> (r: Option<String>)
    ensures
        crate::editor::opt_view(r) == create_target(parent@, typed@),
{
    let cs = text_chars(typed);
    assert(cs@.skip(0) =~= cs@);
    let name = trim_chars(&cs, 0);
    if name.as_str().is_empty() {
        None
    } else {
        Some(join_path(parent, name.as_str()))
    }
}

} // verus!
