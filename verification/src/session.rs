//! Session persistence: the open tabs and layout as saved between runs, and
//! the layout restored from them.
use crate::editor::{opt_view, EditorTab, PaneId, SplitDirection, TabId, TabKind, TabView, new_tab_view};
use crate::pane::{EditorPane, PaneNode, ids_of, tab_views};
use crate::undo::{UndoHistory, UndoModel};
use crate::workbench::AppState;
use vstd::prelude::*;

verus! {

/// Serializable tab state.
pub struct TabSession {
    /// File path (None for untitled)
    pub path: Option<String>,
    /// Content (only stored for untitled tabs or dirty tabs)
    pub content: Option<String>,
    /// Whether the tab has unsaved changes
    pub is_dirty: bool,
    /// Undo/redo history
    pub history: Option<UndoHistory>,
}

/// The mathematical value of a saved tab.
pub struct TabRecord {
    pub path: Option<Seq<char>>,
    pub content: Option<Seq<char>>,
    pub is_dirty: bool,
    pub history: Option<UndoModel>,
}

/// The view of an optional history.
pub open spec fn history_view(h: Option<UndoHistory>) -> Option<UndoModel> {
    match h {
        Some(x) => Some(x@),
        None => None,
    }
}

impl View for TabSession {
    type V = TabRecord;

    open spec fn view(&self) -> TabRecord {
        TabRecord {
            path: opt_view(self.path),
            content: opt_view(self.content),
            is_dirty: self.is_dirty,
            history: history_view(self.history),
        }
    }
}

/// The views of a sequence of saved tabs.
pub open spec fn record_views(tabs: Seq<TabSession>) -> Seq<TabRecord> {
    tabs.map_values(|t: TabSession| t@)
}

/// Serializable pane state (recursive tree structure).
pub enum PaneSession {
    TabGroup { id: u64, tabs: Vec<TabSession>, active_tab_idx: usize },
    Split {
        direction: SplitDirection,
        first: Box<PaneSession>,
        second: Box<PaneSession>,
        /// Proportion of the first pane, in ten-thousandths
        ratio: u32,
    },
}

/// The mathematical value of a saved layout.
pub enum SessionNode {
    Group { id: u64, tabs: Seq<TabRecord>, active: usize },
    Split { direction: SplitDirection, first: Box<SessionNode>, second: Box<SessionNode>, ratio: u32 },
}

/// The view of a saved layout.
pub open spec fn session_node(p: PaneSession) -> SessionNode
    decreases p,
{
    match p {
        PaneSession::TabGroup { id, tabs, active_tab_idx } => SessionNode::Group { id, tabs: record_views(tabs@), active: active_tab_idx },
        PaneSession::Split { direction, first, second, ratio } => SessionNode::Split {
            direction,
            first: Box::new(session_node(*first)),
            second: Box::new(session_node(*second)),
            ratio,
        },
    }
}

impl View for PaneSession {
    type V = SessionNode;

    open spec fn view(&self) -> SessionNode {
        session_node(*self)
    }
}

/// Serializable session state.
pub struct Session {
    /// Pane layout (the full pane tree)
    pub pane_layout: Option<PaneSession>,
    /// Focused pane ID
    pub focused_pane_id: u64,
    /// Flat tabs list of sessions saved before layouts were kept
    pub tabs: Vec<TabSession>,
    /// Active tab index of the flat tabs list
    pub active_tab_idx: usize,
    /// Workspace folder (None = no folder opened)
    pub workspace: Option<String>,
    /// Last used export directory
    pub last_export_dir: Option<String>,
}

impl Default for Session {
    fn default() -> (s: Self)
        ensures
            s.pane_layout is None,
            s.focused_pane_id == 0,
            s.tabs@.len() == 0,
            s.active_tab_idx == 0,
            s.workspace is None,
            s.last_export_dir is None,
    {
        Session { pane_layout: None, focused_pane_id: 0, tabs: Vec::new(), active_tab_idx: 0, workspace: None, last_export_dir: None }
    }
}

/// The focused pane a session file without one is read with.
pub fn default_focused_pane() -> (r: u64)
    ensures
        r == 1,
{
    1
}

/// How a saved tab is recorded: its path, its content when it has no path or
/// unsaved changes (clean files are read back from disk), its dirty flag and
/// its history.
pub open spec fn record_of(t: TabView) -> TabRecord {
    TabRecord {
        path: t.path,
        content: if t.path is None || t.is_dirty { Some(t.content) } else { None },
        is_dirty: t.is_dirty,
        history: Some(t.history),
    }
}

/// The tabs of `ts` that hold real source documents, in order.
pub open spec fn source_only(ts: Seq<TabView>) -> Seq<TabView>
    decreases ts.len(),
{
    if ts.len() == 0 {
        Seq::empty()
    } else if ts.last().persistable() {
        source_only(ts.drop_last()).push(ts.last())
    } else {
        source_only(ts.drop_last())
    }
}

/// The first index of `x` in `s`.
pub open spec fn index_in(s: Seq<TabId>, x: TabId) -> Option<nat>
    decreases s.len(),
{
    if s.len() == 0 {
        None
    } else if s[0] == x {
        Some(0)
    } else {
        match index_in(s.drop_first(), x) {
            Some(k) => Some(k + 1),
            None => None,
        }
    }
}

/// The active index among the kept tabs: where the previously active tab is,
/// else the first.
pub open spec fn saved_active(tabs: Seq<TabView>, active: usize) -> usize {
    let kept = source_only(tabs);
    if kept.len() == 0 || active >= tabs.len() {
        0
    } else {
        match index_in(crate::pane::ids_of(kept), tabs[active as int].id) {
            Some(k) => k as usize,
            None => 0,
        }
    }
}

/// The saved form of a layout: tool tabs are left out.
pub open spec fn save_node(n: PaneNode) -> SessionNode
    decreases n,
{
    match n {
        PaneNode::Group { id, tabs, active } => SessionNode::Group {
            id,
            tabs: source_only(tabs).map_values(|t: TabView| record_of(t)),
            active: saved_active(tabs, active),
        },
        PaneNode::Split { direction, first, second, ratio } => SessionNode::Split {
            direction,
            first: Box::new(save_node(*first)),
            second: Box::new(save_node(*second)),
            ratio,
        },
    }
}

/// The saved form of one tab.
fn tab_to_session(tab: &EditorTab) -> (r: TabSession)
    ensures
        r@ == record_of(tab@),
{
    let path = match &tab.path {
        Some(p) => Some(p.clone()),
        None => None,
    };
    let content = if tab.path.is_none() || tab.is_dirty {
        Some(tab.content.clone())
    } else {
        None
    };
    TabSession { path, content, is_dirty: tab.is_dirty, history: Some(tab.history.saved_copy()) }
}

/// The position of `x` in `ids`.
fn find_id(ids: &Vec<TabId>, x: TabId) -> (r: Option<usize>)
    ensures
        r matches Some(k) ==> index_in(ids@, x) == Some(k as nat),
        r is None ==> index_in(ids@, x) is None,
{
    let mut i: usize = 0;
    proof {
        assert(ids@.skip(0) =~= ids@);
    }
    while i < ids.len()
        invariant
            0 <= i <= ids@.len(),
            index_in(ids@, x) == crate::text::shift_index(index_in(ids@.skip(i as int), x), i as nat),
        decreases ids@.len() - i,
    {
        proof {
            assert(ids@.skip(i as int).drop_first() =~= ids@.skip(i as int + 1));
        }
        if ids[i] == x {
            return Some(i);
        }
        i = i + 1;
    }
    None
}

/// Convert a pane layout to its saved form; tool tabs (Settings, Preview,
/// Export, documentation) are not persisted, and the active index follows the
/// active tab among the kept ones.
pub fn pane_to_session(pane: &EditorPane) -> (r: PaneSession)
    ensures
        r@ == save_node(pane@),
    decreases pane,
{
    match pane {
        EditorPane::TabGroup { id, tabs, active_tab_idx } => {
            let ghost vs = tab_views(tabs@);
            let mut kept: Vec<TabSession> = Vec::new();
            let mut kept_ids: Vec<TabId> = Vec::new();
            let mut i: usize = 0;
            while i < tabs.len()
                invariant
                    0 <= i <= tabs@.len(),
                    vs == tab_views(tabs@),
                    kept_ids@ == crate::pane::ids_of(source_only(vs.take(i as int))),
                    record_views(kept@) == source_only(vs.take(i as int)).map_values(|t: TabView| record_of(t)),
                decreases tabs@.len() - i,
            {
                proof {
                    assert(vs.take(i as int + 1).drop_last() =~= vs.take(i as int));
                    assert(vs.take(i as int + 1).last() == tabs@[i as int]@);
                }
                let tab = &tabs[i];
                if tab.is_persistable() {
                    let ghost k0 = kept@;
                    let ghost i0 = kept_ids@;
                    kept.push(tab_to_session(tab));
                    kept_ids.push(tab.id);
                    assert(record_views(kept@) =~= record_views(k0).push(record_of(tab@)));
                    assert(kept_ids@ =~= i0.push(tab.id));
                    assert(source_only(vs.take(i as int + 1)).map_values(|t: TabView| record_of(t))
                        =~= source_only(vs.take(i as int)).map_values(|t: TabView| record_of(t)).push(record_of(tab@)));
                    assert(crate::pane::ids_of(source_only(vs.take(i as int + 1)))
                        =~= crate::pane::ids_of(source_only(vs.take(i as int))).push(tab.id));
                }
                i = i + 1;
            }
            proof {
                assert(vs.take(vs.len() as int) =~= vs);
            }
            let active = if kept.len() == 0 || *active_tab_idx >= tabs.len() {
                0
            } else {
                match find_id(&kept_ids, tabs[*active_tab_idx].id) {
                    Some(k) => k,
                    None => 0,
                }
            };
            PaneSession::TabGroup { id: *id, tabs: kept, active_tab_idx: active }
        },
        EditorPane::Split { direction, first, second, ratio } => PaneSession::Split {
            direction: *direction,
            first: Box::new(pane_to_session(first)),
            second: Box::new(pane_to_session(second)),
            ratio: *ratio,
        },
    }
}

/// Convert app state to a session for saving: the saved layout, the focused
/// pane, the workspace and the last export folder (no flat tab list).
pub fn state_to_session(state: &AppState) -> (r: Session)
    ensures
        r.pane_layout matches Some(p) && p@ == save_node(state.editor_pane@),
        r.focused_pane_id == state.focused_pane_id,
        r.tabs@.len() == 0,
        r.active_tab_idx == 0,
        opt_view(r.workspace) == opt_view(state.workspace),
        opt_view(r.last_export_dir) == opt_view(state.export_settings.last_export_dir),
{
    Session {
        pane_layout: Some(pane_to_session(&state.editor_pane)),
        focused_pane_id: state.focused_pane_id,
        tabs: Vec::new(),
        active_tab_idx: 0,
        workspace: match &state.workspace {
            Some(w) => Some(w.clone()),
            None => None,
        },
        last_export_dir: match &state.export_settings.last_export_dir {
            Some(d) => Some(d.clone()),
            None => None,
        },
    }
}


/// Where a saved tab's content comes from on restore.
pub enum ContentSource {
    /// The content saved with the tab.
    Stored(String),
    /// The file at this path (the tab is skipped when it cannot be read).
    File(String),
    /// An untitled tab without saved content: empty.
    Empty,
}

/// The mathematical value of a content source.
pub enum SourceView {
    Stored(Seq<char>),
    File(Seq<char>),
    Empty,
}

impl View for ContentSource {
    type V = SourceView;

    open spec fn view(&self) -> SourceView {
        match self {
            ContentSource::Stored(c) => SourceView::Stored(c@),
            ContentSource::File(p) => SourceView::File(p@),
            ContentSource::Empty => SourceView::Empty,
        }
    }
}

/// Stored content takes priority, then the file, then empty.
pub open spec fn content_source(path: Option<Seq<char>>, stored: Option<Seq<char>>) -> SourceView {
    match stored {
        Some(c) => SourceView::Stored(c),
        None => match path {
            Some(p) => SourceView::File(p),
            None => SourceView::Empty,
        },
    }
}

/// Where a tab's content is loaded from: the stored content if any, else the
/// file at its path, else nothing (empty).
pub fn load_tab_content(path: Option<&String>, stored_content: Option<&String>) -> (r: ContentSource)
    ensures
        r@ == content_source(
            match path { Some(p) => Some(p@), None => None },
            match stored_content { Some(c) => Some(c@), None => None },
        ),
{
    match (path, stored_content) {
        (_, Some(content)) => ContentSource::Stored(content.clone()),
        (Some(p), None) => ContentSource::File(p.clone()),
        (None, None) => ContentSource::Empty,
    }
}

/// The content sources of saved tabs.
pub open spec fn record_sources(tabs: Seq<TabRecord>) -> Seq<SourceView> {
    tabs.map_values(|t: TabRecord| content_source(t.path, t.content))
}

/// The content sources of the tabs of a saved layout, group by group.
pub open spec fn node_sources(n: SessionNode) -> Seq<SourceView>
    decreases n,
{
    match n {
        SessionNode::Group { tabs, .. } => record_sources(tabs),
        SessionNode::Split { first, second, .. } => node_sources(*first) + node_sources(*second),
    }
}

/// The content sources of the tabs a session restores, in order: those of the
/// layout, or those of the flat tab list when there is no layout.
pub open spec fn session_sources(s: Session) -> Seq<SourceView> {
    match s.pane_layout {
        Some(p) => node_sources(p@),
        None => record_sources(record_views(s.tabs@)),
    }
}

/// The views of the source list.
pub open spec fn source_views(v: Seq<ContentSource>) -> Seq<SourceView> {
    v.map_values(|c: ContentSource| c@)
}

/// Append the content sources of the tabs of `tabs`.
fn push_sources(tabs: &Vec<TabSession>, out: &mut Vec<ContentSource>)
    ensures
        source_views(final(out)@) == source_views(old(out)@) + record_sources(record_views(tabs@)),
{
    let ghost start = source_views(out@);
    let mut i: usize = 0;
    while i < tabs.len()
        invariant
            0 <= i <= tabs@.len(),
            source_views(out@) == start + record_sources(record_views(tabs@)).take(i as int),
        decreases tabs@.len() - i,
    {
        let ghost o0 = out@;
        out.push(load_tab_content(tabs[i].path.as_ref(), tabs[i].content.as_ref()));
        assert(source_views(out@) =~= source_views(o0).push(out@[out@.len() - 1]@));
        assert(record_sources(record_views(tabs@)).take(i as int + 1)
            =~= record_sources(record_views(tabs@)).take(i as int).push(record_sources(record_views(tabs@))[i as int]));
        i = i + 1;
    }
    assert(record_sources(record_views(tabs@)).take(tabs@.len() as int) =~= record_sources(record_views(tabs@)));
}

/// Append the content sources of the tabs of a saved layout, group by group.
fn push_node_sources(p: &PaneSession, out: &mut Vec<ContentSource>)
    ensures
        source_views(final(out)@) == source_views(old(out)@) + node_sources(p@),
    decreases p,
{
    match p {
        PaneSession::TabGroup { tabs, .. } => push_sources(tabs, out),
        PaneSession::Split { first, second, .. } => {
            push_node_sources(first, out);
            push_node_sources(second, out);
            assert(source_views(out@) =~= source_views(old(out)@) + node_sources(p@));
        },
    }
}

/// Where each tab the session restores takes its content from, in the order
/// `restore_session` expects the loaded contents.
pub fn content_sources(session: &Session) -> (r: Vec<ContentSource>)
    ensures
        source_views(r@) == session_sources(*session),
{
    let mut out: Vec<ContentSource> = Vec::new();
    assert(source_views(out@) =~= Seq::<SourceView>::empty());
    match &session.pane_layout {
        Some(p) => push_node_sources(p, &mut out),
        None => push_sources(&session.tabs, &mut out),
    }
    assert(source_views(out@) =~= session_sources(*session));
    out
}

/// The history a saved tab restores with (empty when none was saved).
pub open spec fn restored_history(h: Option<UndoModel>) -> UndoModel {
    match h {
        Some(m) => m,
        None => UndoModel { undo: Seq::empty(), redo: Seq::empty() },
    }
}

/// The content a saved tab restores with, given what was read for it
/// (`read`): its stored content if any, else what was read from its file
/// (`None` when unreadable), else empty.
pub open spec fn restored_content(t: TabRecord, read: Option<Seq<char>>) -> Option<Seq<char>> {
    match content_source(t.path, t.content) {
        SourceView::Stored(c) => Some(c),
        SourceView::File(_) => read,
        SourceView::Empty => Some(Seq::empty()),
    }
}

/// The first `k` saved tabs restored: those whose content is known (see
/// `restored_content`, with `loaded` from `pos` on, one per saved tab) become
/// tabs with consecutive ids from `next`; the active index moves down past
/// every skipped tab before it.
pub open spec fn restored_tabs(
    tabs: Seq<TabRecord>,
    loaded: Seq<Option<Seq<char>>>,
    pos: int,
    next: int,
    active: usize,
    k: int,
) -> (Seq<TabView>, usize)
    decreases k,
{
    if k <= 0 {
        (Seq::empty(), active)
    } else {
        let (r, adj) = restored_tabs(tabs, loaded, pos, next, active, k - 1);
        let t = tabs[k - 1];
        match restored_content(t, loaded[pos + k - 1]) {
            None => (r, if k - 1 < active && adj > 0 { (adj - 1) as usize } else { adj }),
            Some(c) => (
                r.push(TabView {
                    history: restored_history(t.history),
                    ..new_tab_view((next + r.len()) as TabId, TabKind::File, t.path, c, t.is_dirty)
                }),
                adj,
            ),
        }
    }
}

/// The active index of a restored group of `len` tabs.
pub open spec fn restored_active(len: nat, adj: usize) -> usize {
    if len == 0 {
        0
    } else if adj < len {
        adj
    } else {
        (len - 1) as usize
    }
}

/// The number of tabs in a saved layout.
pub open spec fn node_tab_count(n: SessionNode) -> nat
    decreases n,
{
    match n {
        SessionNode::Group { tabs, .. } => tabs.len(),
        SessionNode::Split { first, second, .. } => node_tab_count(*first) + node_tab_count(*second),
    }
}

/// Restoring a saved layout with the loaded contents from `pos` on and tab ids
/// from `next`: the layout, the next content position, the next tab id and the
/// largest pane id seen (starting from `maxp`).
pub open spec fn restore_node(n: SessionNode, loaded: Seq<Option<Seq<char>>>, pos: int, next: int, maxp: u64) -> (PaneNode, int, int, u64)
    decreases n,
{
    match n {
        SessionNode::Group { id, tabs, active } => {
            let (r, adj) = restored_tabs(tabs, loaded, pos, next, active, tabs.len() as int);
            (
                PaneNode::Group { id, tabs: r, active: restored_active(r.len(), adj) },
                pos + tabs.len(),
                next + r.len(),
                if id > maxp { id } else { maxp },
            )
        },
        SessionNode::Split { direction, first, second, ratio } => {
            let (f, p1, n1, m1) = restore_node(*first, loaded, pos, next, maxp);
            let (s, p2, n2, m2) = restore_node(*second, loaded, p1, n1, m1);
            (PaneNode::Split { direction, first: Box::new(f), second: Box::new(s), ratio }, p2, n2, m2)
        },
    }
}

/// The views of loaded contents.
pub open spec fn loaded_views(v: Seq<Option<String>>) -> Seq<Option<Seq<char>>> {
    v.map_values(|o: Option<String>| opt_view(o))
}

pub proof fn lemma_restored_len(tabs: Seq<TabRecord>, loaded: Seq<Option<Seq<char>>>, pos: int, next: int, active: usize, k: int)
    ensures
        restored_tabs(tabs, loaded, pos, next, active, k).0.len() <= if k < 0 { 0 } else { k },
    decreases k,
{
    if k > 0 {
        lemma_restored_len(tabs, loaded, pos, next, active, k - 1);
    }
}

/// Restore the saved tabs of a group (see `restored_tabs`).
fn restore_tabs(tabs: &Vec<TabSession>, active: usize, loaded: &Vec<Option<String>>, pos: usize, next_tab_id: &mut u64) -> (r: (Vec<EditorTab>, usize))
    requires
        pos + tabs@.len() <= loaded@.len(),
        *old(next_tab_id) + tabs@.len() <= u64::MAX,
    ensures
        (tab_views(r.0@), r.1) == restored_tabs(record_views(tabs@), loaded_views(loaded@), pos as int, *old(next_tab_id) as int, active, tabs@.len() as int),
        *final(next_tab_id) == *old(next_tab_id) + r.0@.len(),
{
    let ghost next0 = *next_tab_id as int;
    let ghost tv = record_views(tabs@);
    let ghost lv = loaded_views(loaded@);
    let total = loaded.len();
    let mut restored: Vec<EditorTab> = Vec::new();
    let mut adjusted = active;
    let mut k: usize = 0;
    while k < tabs.len()
        invariant
            0 <= k <= tabs@.len(),
            pos + tabs@.len() <= loaded@.len(),
            total == loaded@.len(),
            next0 + tabs@.len() <= u64::MAX,
            tv == record_views(tabs@),
            lv == loaded_views(loaded@),
            (tab_views(restored@), adjusted) == restored_tabs(tv, lv, pos as int, next0, active, k as int),
            *next_tab_id == next0 + restored@.len(),
            restored@.len() <= k,
        decreases tabs@.len() - k,
    {
        let t = &tabs[k];
        assert(lv[pos + k] == opt_view(loaded@[pos + k as int]));
        let content: Option<String> = match (&t.content, &t.path) {
            (Some(c), _) => Some(c.clone()),
            (None, Some(_)) => match &loaded[pos + k] {
                Some(c) => Some(c.clone()),
                None => None,
            },
            (None, None) => Some(String::new()),
        };
        assert(opt_view(content) == restored_content(tv[k as int], lv[pos + k]));
        match &content {
            None => {
                if k < active && adjusted > 0 {
                    adjusted = adjusted - 1;
                }
            },
            Some(text) => {
                let history = match &t.history {
                    Some(h) => h.saved_copy(),
                    None => UndoHistory::default(),
                };
                let path = match &t.path {
                    Some(p) => Some(p.clone()),
                    None => None,
                };
                let ghost r0 = restored@;
                let tab = EditorTab::with_history(*next_tab_id, path, text.clone(), t.is_dirty, history);
                restored.push(tab);
                assert(tab_views(restored@) =~= tab_views(r0).push(tab@));
                *next_tab_id = *next_tab_id + 1;
            },
        }
        k = k + 1;
    }
    (restored, adjusted)
}

/// Rebuild a pane layout from its saved form, taking the loaded contents from
/// `pos` on (one per saved tab, `None` when unreadable), tab ids from the next
/// tab id, and raising the largest pane id seen.
pub fn session_to_pane(
    session: &PaneSession,
    loaded: &Vec<Option<String>>,
    pos: &mut usize,
    next_tab_id: &mut u64,
    max_pane_id: &mut PaneId,
) -> (r: EditorPane)
    requires
        *old(pos) + node_tab_count(session@) <= loaded@.len(),
        *old(next_tab_id) + node_tab_count(session@) <= u64::MAX,
    ensures
        ({
            let (n, p, nx, m) = restore_node(session@, loaded_views(loaded@), *old(pos) as int, *old(next_tab_id) as int, *old(max_pane_id));
            &&& r@ == n
            &&& *final(pos) == p
            &&& *final(next_tab_id) == nx
            &&& *final(max_pane_id) == m
        }),
        *final(next_tab_id) <= *old(next_tab_id) + node_tab_count(session@),
        *final(pos) == *old(pos) + node_tab_count(session@),
    decreases session,
{
    match session {
        PaneSession::TabGroup { id, tabs, active_tab_idx } => {
            let total = loaded.len();
            if *id > *max_pane_id {
                *max_pane_id = *id;
            }
            let (restored, adjusted) = restore_tabs(tabs, *active_tab_idx, loaded, *pos, next_tab_id);
            proof {
                lemma_restored_len(record_views(tabs@), loaded_views(loaded@), *old(pos) as int, *old(next_tab_id) as int, *active_tab_idx, tabs@.len() as int);
            }
            let active = if restored.len() == 0 {
                0
            } else if adjusted < restored.len() {
                adjusted
            } else {
                restored.len() - 1
            };
            *pos = *pos + tabs.len();
            EditorPane::TabGroup { id: *id, tabs: restored, active_tab_idx: active }
        },
        PaneSession::Split { direction, first, second, ratio } => {
            let f = session_to_pane(first, loaded, pos, next_tab_id, max_pane_id);
            let s = session_to_pane(second, loaded, pos, next_tab_id, max_pane_id);
            EditorPane::Split { direction: *direction, first: Box::new(f), second: Box::new(s), ratio: *ratio }
        },
    }
}


/// Every pane id of a saved layout is below `u64::MAX`.
pub open spec fn ids_below_max(n: SessionNode) -> bool
    decreases n,
{
    match n {
        SessionNode::Group { id, .. } => id < u64::MAX,
        SessionNode::Split { first, second, .. } => ids_below_max(*first) && ids_below_max(*second),
    }
}

/// A saved layout's tab count is its number of content sources; restoring
/// keeps the largest pane id below `u64::MAX` when every id is.
pub proof fn lemma_restore_counts(n: SessionNode, loaded: Seq<Option<Seq<char>>>, pos: int, next: int, maxp: u64)
    ensures
        node_tab_count(n) == node_sources(n).len(),
        maxp < u64::MAX && ids_below_max(n) ==> restore_node(n, loaded, pos, next, maxp).3 < u64::MAX,
    decreases n,
{
    match n {
        SessionNode::Group { .. } => {},
        SessionNode::Split { first, second, .. } => {
            lemma_restore_counts(*first, loaded, pos, next, maxp);
            let (f, p1, n1, m1) = restore_node(*first, loaded, pos, next, maxp);
            lemma_restore_counts(*second, loaded, p1, n1, m1);
        },
    }
}

/// The layout a session restores, with the next tab id and the largest pane
/// id: its saved layout, or else a single group (id 1) of its flat tab list;
/// nothing when it has neither.
pub open spec fn restored_layout(s: Session, loaded: Seq<Option<Seq<char>>>) -> Option<(PaneNode, int, u64)> {
    match s.pane_layout {
        Some(p) => {
            let (n, _, nx, m) = restore_node(p@, loaded, 0, 1, 0);
            Some((n, nx, m))
        },
        None => if s.tabs@.len() > 0 {
            let tv = record_views(s.tabs@);
            let (r, adj) = restored_tabs(tv, loaded, 0, 1, s.active_tab_idx, tv.len() as int);
            Some((PaneNode::Group { id: 1, tabs: r, active: restored_active(r.len(), adj) }, 1 + r.len() as int, 1u64))
        } else {
            None
        },
    }
}

/// The focus after a restore: the saved focused pane when it exists, else the
/// first pane.
pub open spec fn restored_focus(n: PaneNode, saved: PaneId) -> PaneId {
    if n.group(saved) is Some {
        saved
    } else {
        n.pane_ids()[0]
    }
}

/// The requirements of a restore: one loaded content per saved tab, and ids
/// that leave room for the next ones.
pub open spec fn restorable(s: Session, loaded: Seq<Option<String>>) -> bool {
    &&& loaded.len() == session_sources(s).len()
    &&& loaded.len() < u64::MAX
    &&& s.pane_layout matches Some(p) ==> ids_below_max(p@)
}

/// Whether `restore_session` can take this session and these loaded contents.
pub fn can_restore(session: &Session, loaded: &Vec<Option<String>>) -> (r: bool)
    ensures
        r == restorable(*session, loaded@),
{
    let sources = content_sources(session);
    if sources.len() != loaded.len() || loaded.len() as u64 == u64::MAX {
        return false;
    }
    match &session.pane_layout {
        Some(p) => p.ids_fit(),
        None => true,
    }
}

impl PaneSession {
    /// Every pane id is below `u64::MAX`.
    fn ids_fit(&self) -> (r: bool)
        ensures
            r == ids_below_max(self@),
        decreases self,
    {
        match self {
            PaneSession::TabGroup { id, .. } => *id < u64::MAX,
            PaneSession::Split { first, second, .. } => first.ids_fit() && second.ids_fit(),
        }
    }
}

/// Restore the app state from a session. `loaded` holds one entry per tab
/// the session restores, in the order of `content_sources`: for a tab that
/// loads from its file, what was read (`None` when the file could not be
/// read: that tab is skipped so that a later save cannot overwrite the file);
/// tabs with stored content, and untitled ones, ignore their entry; `workspace_exists` and `export_dir_exists` tell
/// whether the saved folders still exist. The workspace comes back only when
/// the settings say to remember it.
pub fn restore_session(
    state: &mut AppState,
    session: Session,
    loaded: Vec<Option<String>>,
    workspace_exists: bool,
    export_dir_exists: bool,
)
    requires
        restorable(session, loaded@),
    ensures
        match restored_layout(session, loaded_views(loaded@)) {
            None => *final(state) == *old(state),
            Some((n, nx, m)) => {
                let l = crate::workbench::Layout {
                    pane: n,
                    next_tab_id: nx as u64,
                    next_pane_id: (m + 1) as u64,
                    focused: restored_focus(n, session.focused_pane_id),
                    last_source: None,
                };
                &&& final(state).layout() == crate::workbench::Layout { last_source: l.pick_source(), ..l }
                &&& opt_view(final(state).workspace) == if old(state).settings.remember_workspace && workspace_exists {
                    opt_view(session.workspace)
                } else {
                    None
                }
                &&& opt_view(final(state).export_settings.last_export_dir) == if export_dir_exists {
                    opt_view(session.last_export_dir)
                } else {
                    None
                }
                &&& final(state).settings == old(state).settings
                &&& final(state).recent_files@ == old(state).recent_files@
                &&& final(state).error_message == old(state).error_message
                &&& (session.pane_layout matches Some(p) ==> saved_pane_ids(p@).no_duplicates()) ==> final(state).inv()
            },
        },
{
    let mut next_tab_id: u64 = 1;
    let mut max_pane_id: u64 = 0;
    match &session.pane_layout {
        Some(layout) => {
            let mut pos: usize = 0;
            proof {
                lemma_restore_counts(layout@, loaded_views(loaded@), 0, 1, 0);
            }
            let pane = session_to_pane(layout, &loaded, &mut pos, &mut next_tab_id, &mut max_pane_id);
            state.editor_pane = pane;
        },
        None => {
            if session.tabs.len() == 0 {
                return;
            }
            let (tabs, adjusted) = restore_tabs(&session.tabs, session.active_tab_idx, &loaded, 0, &mut next_tab_id);
            let active = if tabs.len() == 0 {
                0
            } else if adjusted < tabs.len() {
                adjusted
            } else {
                tabs.len() - 1
            };
            state.editor_pane = EditorPane::TabGroup { id: 1, tabs, active_tab_idx: active };
            max_pane_id = 1;
        },
    }
    state.next_tab_id = next_tab_id;
    state.next_pane_id = max_pane_id + 1;
    if state.editor_pane.has_pane(session.focused_pane_id) {
        state.focused_pane_id = session.focused_pane_id;
    } else {
        state.focused_pane_id = state.editor_pane.first_pane_id();
    }
    state.workspace = if state.settings.remember_workspace && workspace_exists {
        session.workspace
    } else {
        None
    };
    state.export_settings.last_export_dir = if export_dir_exists {
        session.last_export_dir
    } else {
        None
    };
    state.last_source_tab_id = None;
    state.last_source_tab_id = state.pick_source_tab_id();
    proof {
        if session.pane_layout matches Some(p) ==> saved_pane_ids(p@).no_duplicates() {
            lemma_restore_inv(session, loaded_views(loaded@), state.focused_pane_id, state.last_source_tab_id);
        }
    }
}


/// The pane ids of a saved layout, first child before second.
pub open spec fn saved_pane_ids(n: SessionNode) -> Seq<PaneId>
    decreases n,
{
    match n {
        SessionNode::Group { id, .. } => seq![id],
        SessionNode::Split { first, second, .. } => saved_pane_ids(*first) + saved_pane_ids(*second),
    }
}

/// Restored tabs take consecutive ids from `next`.
pub proof fn lemma_restored_ids(tabs: Seq<TabRecord>, loaded: Seq<Option<Seq<char>>>, pos: int, next: int, active: usize, k: int)
    requires
        0 <= next,
        next + k <= u64::MAX,
    ensures
        ({
            let r = restored_tabs(tabs, loaded, pos, next, active, k).0;
            forall|j: int| 0 <= j < r.len() ==> r[j].id == next + j
        }),
    decreases k,
{
    if k > 0 {
        lemma_restored_ids(tabs, loaded, pos, next, active, k - 1);
        lemma_restored_len(tabs, loaded, pos, next, active, k - 1);
    }
}

/// Restoring keeps the saved pane ids in order, gives the tabs consecutive ids
/// from `next`, keeps every active index valid and raises the largest pane id
/// to cover every restored pane.
pub proof fn lemma_restore_node_shape(n: SessionNode, loaded: Seq<Option<Seq<char>>>, pos: int, next: int, maxp: u64)
    requires
        0 <= next,
        next + node_tab_count(n) <= u64::MAX,
    ensures
        ({
            let (pn, p2, nx, m) = restore_node(n, loaded, pos, next, maxp);
            &&& pn.pane_ids() == saved_pane_ids(n)
            &&& pn.tabs().len() <= node_tab_count(n)
            &&& nx == next + ids_of_len(pn)
            &&& forall|i: int| 0 <= i < pn.tabs().len() ==> #[trigger] pn.tabs()[i].id == next + i
            &&& pn.actives_ok()
            &&& m >= maxp
            &&& forall|i: int| 0 <= i < pn.pane_ids().len() ==> #[trigger] pn.pane_ids()[i] <= m
        }),
    decreases n,
{
    match n {
        SessionNode::Group { id, tabs, active } => {
            lemma_restored_ids(tabs, loaded, pos, next, active, tabs.len() as int);
            lemma_restored_len(tabs, loaded, pos, next, active, tabs.len() as int);
            let (pn, p2, nx, m) = restore_node(n, loaded, pos, next, maxp);
            assert(pn.pane_ids() =~= seq![id]);
        },
        SessionNode::Split { first, second, .. } => {
            lemma_restore_node_shape(*first, loaded, pos, next, maxp);
            let (f, p1, n1, m1) = restore_node(*first, loaded, pos, next, maxp);
            lemma_restore_node_shape(*second, loaded, p1, n1, m1);
            let (sn, p2, n2, m2) = restore_node(*second, loaded, p1, n1, m1);
            let (pn, _, _, _) = restore_node(n, loaded, pos, next, maxp);
            assert forall|i: int| 0 <= i < pn.tabs().len() implies #[trigger] pn.tabs()[i].id == next + i by {
                if i >= f.tabs().len() {
                    assert(pn.tabs()[i] == sn.tabs()[i - f.tabs().len()]);
                } else {
                    assert(pn.tabs()[i] == f.tabs()[i]);
                }
            }
            assert forall|i: int| 0 <= i < pn.pane_ids().len() implies #[trigger] pn.pane_ids()[i] <= m2 by {
                if i >= f.pane_ids().len() {
                    assert(pn.pane_ids()[i] == sn.pane_ids()[i - f.pane_ids().len()]);
                } else {
                    assert(pn.pane_ids()[i] == f.pane_ids()[i]);
                }
            }
        },
    }
}

/// The number of tabs of a layout.
pub open spec fn ids_of_len(n: PaneNode) -> int {
    n.tabs().len() as int
}

/// Tabs whose ids count up from `next` have distinct ids below `next` plus
/// their number.
pub proof fn lemma_consecutive_ids(ts: Seq<TabView>, next: int)
    requires
        forall|i: int| 0 <= i < ts.len() ==> #[trigger] ts[i].id == next + i,
    ensures
        ids_of(ts).no_duplicates(),
{
    assert forall|i: int, j: int| 0 <= i < ids_of(ts).len() && 0 <= j < ids_of(ts).len() && i != j implies ids_of(ts)[i] != ids_of(ts)[j] by {
        assert(ids_of(ts)[i] == ts[i].id);
        assert(ids_of(ts)[j] == ts[j].id);
    }
}

/// A restored session satisfies the workbench invariant when the saved pane
/// ids are distinct (a flat tab list always restores into one valid pane).
pub proof fn lemma_restore_inv(s: Session, loaded: Seq<Option<Seq<char>>>, focused: PaneId, last_source: Option<TabId>)
    requires
        loaded.len() < u64::MAX,
        loaded.len() == session_sources(s).len(),
        s.pane_layout matches Some(p) ==> ids_below_max(p@) && saved_pane_ids(p@).no_duplicates(),
        restored_layout(s, loaded) is Some,
    ensures
        ({
            let (n, nx, m) = restored_layout(s, loaded).unwrap();
            (crate::workbench::Layout {
                pane: n,
                next_tab_id: nx as u64,
                next_pane_id: (m + 1) as u64,
                focused,
                last_source,
            }).inv()
        }),
{
    let (n, nx, m) = restored_layout(s, loaded).unwrap();
    match s.pane_layout {
        Some(p) => {
            lemma_restore_counts(p@, loaded, 0, 1, 0);
            lemma_restore_node_shape(p@, loaded, 0, 1, 0);
            lemma_consecutive_ids(n.tabs(), 1);
        },
        None => {
            let tv = record_views(s.tabs@);
            assert(record_sources(tv).len() == tv.len());
            lemma_restored_ids(tv, loaded, 0, 1, s.active_tab_idx, tv.len() as int);
            lemma_restored_len(tv, loaded, 0, 1, s.active_tab_idx, tv.len() as int);
            lemma_consecutive_ids(n.tabs(), 1);
            assert(n.pane_ids() =~= seq![1u64]);
        },
    }
}


/// What a save and a restore keep of a tab: its path, content, dirty flag
/// and history.
pub open spec fn document(t: TabView) -> (Option<Seq<char>>, Seq<char>, bool, UndoModel) {
    (t.path, t.content, t.is_dirty, t.history)
}

/// The documents of a sequence of tabs.
pub open spec fn documents(ts: Seq<TabView>) -> Seq<(Option<Seq<char>>, Seq<char>, bool, UndoModel)> {
    ts.map_values(|t: TabView| document(t))
}

/// Two layouts with the same panes, splits and active indices, holding the
/// same documents (tab ids and cursors aside).
pub open spec fn same_documents(a: PaneNode, b: PaneNode) -> bool
    decreases a,
{
    match a {
        PaneNode::Group { id, tabs, active } => match b {
            PaneNode::Group { id: id2, tabs: tabs2, active: active2 } => id == id2 && documents(tabs) == documents(tabs2) && active == active2,
            _ => false,
        },
        PaneNode::Split { direction, first, second, ratio } => match b {
            PaneNode::Split { direction: d2, first: f2, second: s2, ratio: r2 } =>
                direction == d2 && ratio == r2 && same_documents(*first, *f2) && same_documents(*second, *s2),
            _ => false,
        },
    }
}

/// The layout a save keeps: each group with only its source tabs, the active
/// index following the active tab.
pub open spec fn kept_layout(n: PaneNode) -> PaneNode
    decreases n,
{
    match n {
        PaneNode::Group { id, tabs, active } => PaneNode::Group { id, tabs: source_only(tabs), active: saved_active(tabs, active) },
        PaneNode::Split { direction, first, second, ratio } => PaneNode::Split {
            direction,
            first: Box::new(kept_layout(*first)),
            second: Box::new(kept_layout(*second)),
            ratio,
        },
    }
}

/// What a restore reads back when every saved file still holds what its tab
/// shows: each saved tab's content, in order.
pub open spec fn current_contents(n: PaneNode) -> Seq<Option<Seq<char>>>
    decreases n,
{
    match n {
        PaneNode::Group { tabs, .. } => source_only(tabs).map_values(|t: TabView| Some(t.content)),
        PaneNode::Split { first, second, .. } => current_contents(*first) + current_contents(*second),
    }
}

/// A found index is inside the sequence.
proof fn lemma_index_in_bound(s: Seq<TabId>, x: TabId)
    ensures
        index_in(s, x) matches Some(k) ==> k < s.len(),
    decreases s.len(),
{
    if s.len() > 0 {
        lemma_index_in_bound(s.drop_first(), x);
    }
}

/// Restoring the saved source tabs of a group with their current contents
/// gives back the same documents, skipping none.
proof fn lemma_restore_saved_tabs(src: Seq<TabView>, loaded: Seq<Option<Seq<char>>>, pos: int, next: int, active: usize, k: int)
    requires
        0 <= k <= src.len(),
        0 <= pos,
        pos + src.len() <= loaded.len(),
        forall|j: int| 0 <= j < src.len() ==> #[trigger] loaded[pos + j] == Some(src[j].content),
    ensures
        ({
            let (r, adj) = restored_tabs(src.map_values(|t: TabView| record_of(t)), loaded, pos, next, active, k);
            documents(r) == documents(src.take(k)) && adj == active
        }),
    decreases k,
{
    if k > 0 {
        lemma_restore_saved_tabs(src, loaded, pos, next, active, k - 1);
        let rs = src.map_values(|t: TabView| record_of(t));
        let (r0, adj0) = restored_tabs(rs, loaded, pos, next, active, k - 1);
        let t = src[k - 1];
        assert(loaded[pos + (k - 1)] == Some(t.content));
        assert(restored_content(rs[k - 1], loaded[pos + k - 1]) == Some(t.content));
        let (r, adj) = restored_tabs(rs, loaded, pos, next, active, k);
        assert(documents(r) =~= documents(r0).push(document(t)));
        assert(documents(src.take(k)) =~= documents(src.take(k - 1)).push(document(t)));
    }
}

/// A restore reads one loaded content per saved tab.
proof fn lemma_restore_pos(sn: SessionNode, loaded: Seq<Option<Seq<char>>>, pos: int, next: int, maxp: u64)
    ensures
        restore_node(sn, loaded, pos, next, maxp).1 == pos + node_tab_count(sn),
    decreases sn,
{
    match sn {
        SessionNode::Group { .. } => {},
        SessionNode::Split { first, second, .. } => {
            lemma_restore_pos(*first, loaded, pos, next, maxp);
            let (f, p1, n1, m1) = restore_node(*first, loaded, pos, next, maxp);
            lemma_restore_pos(*second, loaded, p1, n1, m1);
        },
    }
}

/// The saved form of a layout has one content per saved tab.
proof fn lemma_saved_count(n: PaneNode)
    ensures
        node_tab_count(save_node(n)) == current_contents(n).len(),
    decreases n,
{
    match n {
        PaneNode::Group { .. } => {},
        PaneNode::Split { first, second, .. } => {
            lemma_saved_count(*first);
            lemma_saved_count(*second);
        },
    }
}

/// Restoring a saved layout, with the contents of its saved tabs read back
/// from `pos` on, gives back the kept layout.
proof fn lemma_restore_saved_node(n: PaneNode, loaded: Seq<Option<Seq<char>>>, pos: int, next: int, maxp: u64)
    requires
        0 <= pos,
        pos + current_contents(n).len() <= loaded.len(),
        loaded.subrange(pos, pos + current_contents(n).len()) == current_contents(n),
    ensures
        same_documents(restore_node(save_node(n), loaded, pos, next, maxp).0, kept_layout(n)),
    decreases n,
{
    match n {
        PaneNode::Group { id, tabs, active } => {
            let src = source_only(tabs);
            assert forall|j: int| 0 <= j < src.len() implies #[trigger] loaded[pos + j] == Some(src[j].content) by {
                assert(loaded.subrange(pos, pos + current_contents(n).len())[j] == loaded[pos + j]);
            }
            lemma_restore_saved_tabs(src, loaded, pos, next, saved_active(tabs, active), src.len() as int);
            assert(src.take(src.len() as int) =~= src);
            let (r, adj) = restored_tabs(src.map_values(|t: TabView| record_of(t)), loaded, pos, next, saved_active(tabs, active), src.len() as int);
            assert(r.len() == documents(r).len());
            if src.len() > 0 && active < tabs.len() {
                lemma_index_in_bound(crate::pane::ids_of(src), tabs[active as int].id);
            }
        },
        PaneNode::Split { first, second, .. } => {
            lemma_saved_count(*first);
            let c1 = current_contents(*first);
            let c2 = current_contents(*second);
            assert(loaded.subrange(pos, pos + c1.len()) =~= loaded.subrange(pos, pos + current_contents(n).len()).subrange(0, c1.len() as int));
            assert(current_contents(n).subrange(0, c1.len() as int) =~= c1);
            lemma_restore_saved_node(*first, loaded, pos, next, maxp);
            lemma_restore_pos(save_node(*first), loaded, pos, next, maxp);
            let (f, p1, n1, m1) = restore_node(save_node(*first), loaded, pos, next, maxp);
            assert(loaded.subrange(p1, p1 + c2.len()) =~= loaded.subrange(pos, pos + current_contents(n).len()).subrange(c1.len() as int, current_contents(n).len() as int));
            assert(current_contents(n).subrange(c1.len() as int, current_contents(n).len() as int) =~= c2);
            lemma_restore_saved_node(*second, loaded, p1, n1, m1);
        },
    }
}

/// The saved layout keeps the pane ids, in order.
proof fn lemma_saved_pane_ids(n: PaneNode)
    ensures
        saved_pane_ids(save_node(n)) == n.pane_ids(),
    decreases n,
{
    if let PaneNode::Split { first, second, .. } = n {
        lemma_saved_pane_ids(*first);
        lemma_saved_pane_ids(*second);
    }
}

/// The largest pane id a restore reports is the one it started from or one
/// of the restored pane ids.
proof fn lemma_restore_max_pane(n: SessionNode, loaded: Seq<Option<Seq<char>>>, pos: int, next: int, maxp: u64)
    ensures
        ({
            let (pn, _, _, m) = restore_node(n, loaded, pos, next, maxp);
            m == maxp || saved_pane_ids(n).contains(m)
        }),
    decreases n,
{
    match n {
        SessionNode::Group { id, .. } => {
            assert(saved_pane_ids(n)[0] == id);
        },
        SessionNode::Split { first, second, .. } => {
            lemma_restore_max_pane(*first, loaded, pos, next, maxp);
            let (f, p1, n1, m1) = restore_node(*first, loaded, pos, next, maxp);
            lemma_restore_max_pane(*second, loaded, p1, n1, m1);
            let m = restore_node(n, loaded, pos, next, maxp).3;
            let a = saved_pane_ids(*first);
            let b = saved_pane_ids(*second);
            if a.contains(m) {
                let i = choose|i: int| 0 <= i < a.len() && a[i] == m;
                assert((a + b)[i] == m);
            } else if b.contains(m) {
                let i = choose|i: int| 0 <= i < b.len() && b[i] == m;
                assert((a + b)[a.len() + i] == m);
            }
        },
    }
}

/// Saving a layout and restoring it into a fresh workbench, every saved file
/// still holding what its tab showed: the same panes, splits and active tabs
/// with the same documents (tool tabs left out), the tabs numbered from one
/// in tree order with the next tab id after them, the pane ids kept with the
/// next pane id past the largest of them, and the saved focus kept when it
/// names a pane.
pub proof fn lemma_session_round_trip(n: PaneNode, focused: PaneId)
    requires
        node_tab_count(save_node(n)) < u64::MAX,
    ensures
        ({
            let (pn, _, nx, m) = restore_node(save_node(n), current_contents(n), 0, 1, 0);
            &&& same_documents(pn, kept_layout(n))
            &&& forall|i: int| 0 <= i < pn.tabs().len() ==> #[trigger] pn.tabs()[i].id == i + 1
            &&& nx == pn.tabs().len() + 1
            &&& pn.pane_ids() == n.pane_ids()
            &&& forall|i: int| 0 <= i < pn.pane_ids().len() ==> #[trigger] pn.pane_ids()[i] <= m
            &&& (m == 0 || pn.pane_ids().contains(m))
            &&& n.group(focused) is Some ==> restored_focus(pn, focused) == focused
        }),
{
    let sn = save_node(n);
    let c = current_contents(n);
    lemma_save_then_restore(n, 1, 0);
    lemma_restore_node_shape(sn, c, 0, 1, 0);
    lemma_restore_max_pane(sn, c, 0, 1, 0);
    lemma_saved_pane_ids(n);
    let (pn, _, nx, m) = restore_node(sn, c, 0, 1, 0);
    crate::pane::lemma_group_iff_pane_id(n, focused);
    crate::pane::lemma_group_iff_pane_id(pn, focused);
}

/// The round trip through the session functions: for a session as
/// `state_to_session` makes it from a layout `n` with focus `focused`,
/// `restore_session` given the current contents of the saved files restores
/// (by its contract, over `restored_layout` and `restored_focus`) the same
/// panes, splits and active tabs with the same documents, tabs numbered from
/// one in tree order, the next tab id after them, the same pane ids with the
/// largest of them reported, and the saved focus when it names a pane.
pub proof fn lemma_state_round_trip(s: Session, n: PaneNode, focused: PaneId)
    requires
        s.pane_layout matches Some(p) && p@ == save_node(n),
        s.focused_pane_id == focused,
        node_tab_count(save_node(n)) < u64::MAX,
    ensures
        restored_layout(s, current_contents(n)) matches Some((pn, nx, m)) && {
            &&& same_documents(pn, kept_layout(n))
            &&& (forall|i: int| 0 <= i < pn.tabs().len() ==> #[trigger] pn.tabs()[i].id == i + 1)
            &&& nx == pn.tabs().len() + 1
            &&& pn.pane_ids() == n.pane_ids()
            &&& (forall|i: int| 0 <= i < pn.pane_ids().len() ==> #[trigger] pn.pane_ids()[i] <= m)
            &&& (m == 0 || pn.pane_ids().contains(m))
            &&& (n.group(focused) is Some ==> restored_focus(pn, s.focused_pane_id) == focused)
        },
{
    lemma_session_round_trip(n, focused);
}

/// Saving a layout and restoring it, every saved file still holding what its
/// tab showed, gives back the same panes, splits and active tabs with the
/// same documents; only tool tabs are left out.
pub proof fn lemma_save_then_restore(n: PaneNode, next: int, maxp: u64)
    ensures
        same_documents(restore_node(save_node(n), current_contents(n), 0, next, maxp).0, kept_layout(n)),
{
    let c = current_contents(n);
    assert(c.subrange(0, c.len() as int) =~= c);
    lemma_restore_saved_node(n, c, 0, next, maxp);
}

} // verus!
