//! The recursive pane layout: tab groups and splits.
use crate::text::shift_index;
use crate::paths::{path_equals, path_starts_with, same_path, starts_with_path};
use crate::editor::{EditorTab, MarkdownDoc, PaneId, SplitDirection, TabId, TabKind, TabView};
use vstd::prelude::*;

verus! {

/// A pane in the editor layout (recursive tree structure).
pub enum EditorPane {
    /// A single tab group with tabs
    TabGroup {
        /// Unique ID for this pane
        id: PaneId,
        tabs: Vec<EditorTab>,
        active_tab_idx: usize,
    },
    /// A split container with two child panes
    Split {
        /// Direction of the split
        direction: SplitDirection,
        /// First child (left for vertical, top for horizontal)
        first: Box<EditorPane>,
        /// Second child (right for vertical, bottom for horizontal)
        second: Box<EditorPane>,
        /// Proportion of space for the first pane, in ten-thousandths
        /// (5000 is half)
        ratio: u32,
    },
}

/// The mathematical value of a pane layout.
pub enum PaneNode {
    Group { id: PaneId, tabs: Seq<TabView>, active: usize },
    Split { direction: SplitDirection, first: Box<PaneNode>, second: Box<PaneNode>, ratio: u32 },
}

/// Views of a sequence of tabs.
pub open spec fn tab_views(tabs: Seq<EditorTab>) -> Seq<TabView> {
    tabs.map_values(|t: EditorTab| t@)
}

/// Ids of a sequence of tabs.
pub open spec fn ids_of(tabs: Seq<TabView>) -> Seq<TabId> {
    tabs.map_values(|t: TabView| t.id)
}

/// Whether `active` is a valid active index for `tabs` (0 for an empty group).
pub open spec fn active_ok(tabs: Seq<TabView>, active: usize) -> bool {
    active < tabs.len() || (tabs.len() == 0 && active == 0)
}

impl PaneNode {
    /// Ids of the tab groups, first child before second.
    pub open spec fn pane_ids(self) -> Seq<PaneId>
        decreases self,
    {
        match self {
            PaneNode::Group { id, .. } => seq![id],
            PaneNode::Split { first, second, .. } => first.pane_ids() + second.pane_ids(),
        }
    }

    /// All tabs, group by group, first child before second.
    pub open spec fn tabs(self) -> Seq<TabView>
        decreases self,
    {
        match self {
            PaneNode::Group { tabs, .. } => tabs,
            PaneNode::Split { first, second, .. } => first.tabs() + second.tabs(),
        }
    }

    /// The tabs and active index of the first group with id `id`.
    pub open spec fn group(self, id: PaneId) -> Option<(Seq<TabView>, usize)>
        decreases self,
    {
        match self {
            PaneNode::Group { id: gid, tabs, active } => if gid == id {
                Some((tabs, active))
            } else {
                None
            },
            PaneNode::Split { first, second, .. } => match first.group(id) {
                Some(g) => Some(g),
                None => second.group(id),
            },
        }
    }

    /// The layout with the first group of id `id` holding `tabs` with `active`.
    pub open spec fn with_group(self, id: PaneId, tabs: Seq<TabView>, active: usize) -> PaneNode
        decreases self,
    {
        match self {
            PaneNode::Group { id: gid, tabs: old_tabs, active: old_active } => if gid == id {
                PaneNode::Group { id: gid, tabs, active }
            } else {
                PaneNode::Group { id: gid, tabs: old_tabs, active: old_active }
            },
            PaneNode::Split { direction, first, second, ratio } => if first.group(id) is Some {
                PaneNode::Split { direction, first: Box::new(first.with_group(id, tabs, active)), second, ratio }
            } else {
                PaneNode::Split { direction, first, second: Box::new(second.with_group(id, tabs, active)), ratio }
            },
        }
    }

    /// Every group's active index is valid.
    pub open spec fn actives_ok(self) -> bool
        decreases self,
    {
        match self {
            PaneNode::Group { tabs, active, .. } => active_ok(tabs, active),
            PaneNode::Split { first, second, .. } => first.actives_ok() && second.actives_ok(),
        }
    }

    /// Well-formed layout: pane ids are distinct, tab ids are distinct and
    /// every group's active index is valid.
    pub open spec fn wf(self) -> bool {
        &&& self.pane_ids().no_duplicates()
        &&& ids_of(self.tabs()).no_duplicates()
        &&& self.actives_ok()
    }

    /// The active tab of the first group (following first children).
    pub open spec fn first_active(self) -> Option<TabView>
        decreases self,
    {
        match self {
            PaneNode::Group { tabs, active, .. } => if active < tabs.len() {
                Some(tabs[active as int])
            } else {
                None
            },
            PaneNode::Split { first, .. } => first.first_active(),
        }
    }
}

/// The view of a pane layout.
pub open spec fn node_of(p: EditorPane) -> PaneNode
    decreases p,
{
    match p {
        EditorPane::TabGroup { id, tabs, active_tab_idx } => PaneNode::Group { id, tabs: tab_views(tabs@), active: active_tab_idx },
        EditorPane::Split { direction, first, second, ratio } => PaneNode::Split {
            direction,
            first: Box::new(node_of(*first)),
            second: Box::new(node_of(*second)),
            ratio,
        },
    }
}

impl View for EditorPane {
    type V = PaneNode;

    open spec fn view(&self) -> PaneNode {
        node_of(*self)
    }
}

/// The first index in `tabs` of a tab with id `tab_id`.
pub open spec fn index_of_tab(tabs: Seq<TabView>, tab_id: TabId) -> Option<nat>
    decreases tabs.len(),
{
    if tabs.len() == 0 {
        None
    } else if tabs[0].id == tab_id {
        Some(0)
    } else {
        match index_of_tab(tabs.drop_first(), tab_id) {
            Some(k) => Some(k + 1),
            None => None,
        }
    }
}

/// Position of the first tab with id `tab_id` in `tabs`.
pub fn position_of_tab(tabs: &Vec<EditorTab>, tab_id: TabId) -> (r: Option<usize>)
    ensures
        r matches Some(k) ==> index_of_tab(tab_views(tabs@), tab_id) == Some(k as nat),
        r is None ==> index_of_tab(tab_views(tabs@), tab_id) is None,
{
    let mut i: usize = 0;
    let ghost vs = tab_views(tabs@);
    proof {
        assert(vs.skip(0) =~= vs);
    }
    while i < tabs.len()
        invariant
            0 <= i <= tabs@.len(),
            vs == tab_views(tabs@),
            index_of_tab(tab_views(tabs@), tab_id) == shift_index(index_of_tab(tab_views(tabs@).skip(i as int), tab_id), i as nat),
        decreases tabs@.len() - i,
    {
        proof {
            assert(vs.skip(i as int).drop_first() =~= vs.skip(i as int + 1));
            assert(vs.skip(i as int)[0] == tabs@[i as int]@);
        }
        if tabs[i].id == tab_id {
            return Some(i);
        }
        i = i + 1;
    }
    None
}


/// The (pane, index) of the first tab whose path is `path`, groups in layout order.
pub open spec fn tab_with_path(n: PaneNode, path: Seq<char>) -> Option<(PaneId, nat)>
    decreases n,
{
    match n {
        PaneNode::Group { id, tabs, .. } => match index_of_path(tabs, path) {
            Some(k) => Some((id, k)),
            None => None,
        },
        PaneNode::Split { first, second, .. } => match tab_with_path(*first, path) {
            Some(r) => Some(r),
            None => tab_with_path(*second, path),
        },
    }
}

/// The first index in `tabs` of a tab whose path equals `path`.
pub open spec fn index_of_path(tabs: Seq<TabView>, path: Seq<char>) -> Option<nat>
    decreases tabs.len(),
{
    if tabs.len() == 0 {
        None
    } else if tabs[0].path matches Some(p) && path_equals(p, path) {
        Some(0)
    } else {
        match index_of_path(tabs.drop_first(), path) {
            Some(k) => Some(k + 1),
            None => None,
        }
    }
}

/// The first group (in layout order) holding a tab with id `tab_id`.
pub open spec fn pane_of_tab(n: PaneNode, tab_id: TabId) -> Option<PaneId>
    decreases n,
{
    match n {
        PaneNode::Group { id, tabs, .. } => if index_of_tab(tabs, tab_id) is Some {
            Some(id)
        } else {
            None
        },
        PaneNode::Split { first, second, .. } => match pane_of_tab(*first, tab_id) {
            Some(r) => Some(r),
            None => pane_of_tab(*second, tab_id),
        },
    }
}

/// The first index in `tabs` of a tab of kind `kind`.
pub open spec fn index_of_kind(tabs: Seq<TabView>, kind: TabKind) -> Option<nat>
    decreases tabs.len(),
{
    if tabs.len() == 0 {
        None
    } else if tabs[0].kind == kind {
        Some(0)
    } else {
        match index_of_kind(tabs.drop_first(), kind) {
            Some(k) => Some(k + 1),
            None => None,
        }
    }
}

/// The (pane id, tab id) of the first tab of kind `kind`, groups in layout order.
pub open spec fn tab_of_kind(n: PaneNode, kind: TabKind) -> Option<(PaneId, TabId)>
    decreases n,
{
    match n {
        PaneNode::Group { id, tabs, .. } => match index_of_kind(tabs, kind) {
            Some(k) => Some((id, tabs[k as int].id)),
            None => None,
        },
        PaneNode::Split { first, second, .. } => match tab_of_kind(*first, kind) {
            Some(r) => Some(r),
            None => tab_of_kind(*second, kind),
        },
    }
}

/// The first tab (in layout order) with id `tab_id`.
pub open spec fn tab_with_id(n: PaneNode, tab_id: TabId) -> Option<TabView>
    decreases n,
{
    match n {
        PaneNode::Group { tabs, .. } => match index_of_tab(tabs, tab_id) {
            Some(k) => Some(tabs[k as int]),
            None => None,
        },
        PaneNode::Split { first, second, .. } => match tab_with_id(*first, tab_id) {
            Some(r) => Some(r),
            None => tab_with_id(*second, tab_id),
        },
    }
}

pub proof fn lemma_index_of_tab_bound(tabs: Seq<TabView>, tab_id: TabId)
    ensures
        index_of_tab(tabs, tab_id) matches Some(k) ==> k < tabs.len() && tabs[k as int].id == tab_id,
        index_of_tab(tabs, tab_id) is None ==> forall|i: int| 0 <= i < tabs.len() ==> tabs[i].id != tab_id,
    decreases tabs.len(),
{
    if tabs.len() > 0 {
        lemma_index_of_tab_bound(tabs.drop_first(), tab_id);
        if index_of_tab(tabs, tab_id) is None {
            assert forall|i: int| 0 <= i < tabs.len() implies tabs[i].id != tab_id by {
                if i > 0 {
                    assert(tabs[i] == tabs.drop_first()[i - 1]);
                }
            }
        }
    }
}

pub proof fn lemma_index_of_kind_bound(tabs: Seq<TabView>, kind: TabKind)
    ensures
        index_of_kind(tabs, kind) matches Some(k) ==> k < tabs.len() && tabs[k as int].kind == kind,
    decreases tabs.len(),
{
    if tabs.len() > 0 {
        lemma_index_of_kind_bound(tabs.drop_first(), kind);
    }
}

pub proof fn lemma_index_of_path_bound(tabs: Seq<TabView>, path: Seq<char>)
    ensures
        index_of_path(tabs, path) matches Some(k) ==> k < tabs.len()
            && (tabs[k as int].path matches Some(q) && path_equals(q, path)),
    decreases tabs.len(),
{
    if tabs.len() > 0 {
        lemma_index_of_path_bound(tabs.drop_first(), path);
    }
}

/// A group exists exactly when its id is among the pane ids.
pub proof fn lemma_group_iff_pane_id(n: PaneNode, id: PaneId)
    ensures
        n.group(id) is Some <==> n.pane_ids().contains(id),
    decreases n,
{
    match n {
        PaneNode::Group { id: gid, .. } => {
            assert(n.pane_ids() == seq![gid]);
            assert(n.pane_ids()[0] == gid);
        },
        PaneNode::Split { first, second, .. } => {
            lemma_group_iff_pane_id(*first, id);
            lemma_group_iff_pane_id(*second, id);
            vstd::seq_lib::lemma_seq_concat_contains_all_elements(first.pane_ids(), second.pane_ids(), id);
        },
    }
}

/// Position of the first tab whose path is `path` in `tabs`.
fn position_of_path(tabs: &Vec<EditorTab>, path: &str) -> (r: Option<usize>)
    ensures
        r matches Some(k) ==> index_of_path(tab_views(tabs@), path@) == Some(k as nat),
        r is None ==> index_of_path(tab_views(tabs@), path@) is None,
{
    let mut i: usize = 0;
    let ghost vs = tab_views(tabs@);
    proof {
        assert(vs.skip(0) =~= vs);
    }
    while i < tabs.len()
        invariant
            0 <= i <= tabs@.len(),
            vs == tab_views(tabs@),
            index_of_path(tab_views(tabs@), path@) == shift_index(index_of_path(tab_views(tabs@).skip(i as int), path@), i as nat),
        decreases tabs@.len() - i,
    {
        proof {
            assert(vs.skip(i as int).drop_first() =~= vs.skip(i as int + 1));
            assert(vs.skip(i as int)[0] == tabs@[i as int]@);
        }
        let matches = match &tabs[i].path {
            Some(p) => same_path(p.as_str(), path),
            None => false,
        };
        if matches {
            return Some(i);
        }
        i = i + 1;
    }
    None
}

/// Position of the first tab of kind `kind` in `tabs`.
fn position_of_kind(tabs: &Vec<EditorTab>, kind: TabKind) -> (r: Option<usize>)
    ensures
        r matches Some(k) ==> index_of_kind(tab_views(tabs@), kind) == Some(k as nat),
        r is None ==> index_of_kind(tab_views(tabs@), kind) is None,
{
    let mut i: usize = 0;
    let ghost vs = tab_views(tabs@);
    proof {
        assert(vs.skip(0) =~= vs);
    }
    while i < tabs.len()
        invariant
            0 <= i <= tabs@.len(),
            vs == tab_views(tabs@),
            index_of_kind(tab_views(tabs@), kind) == shift_index(index_of_kind(tab_views(tabs@).skip(i as int), kind), i as nat),
        decreases tabs@.len() - i,
    {
        proof {
            assert(vs.skip(i as int).drop_first() =~= vs.skip(i as int + 1));
            assert(vs.skip(i as int)[0] == tabs@[i as int]@);
        }
        if tabs[i].kind == kind {
            return Some(i);
        }
        i = i + 1;
    }
    None
}

impl EditorPane {
    /// Check if this is a single tab group (not a split).
    pub fn is_single_pane(&self) -> (r: bool)
        ensures
            r == (self@ is Group),
    {
        match self {
            EditorPane::TabGroup { .. } => true,
            EditorPane::Split { .. } => false,
        }
    }

    /// Get all tab group pane ids in the tree, first child before second.
    pub fn all_pane_ids(&self) -> (r: Vec<PaneId>)
        ensures
            r@ == self@.pane_ids(),
        decreases self,
    {
        match self {
            EditorPane::TabGroup { id, .. } => {
                let mut v = Vec::new();
                v.push(*id);
                v
            },
            EditorPane::Split { first, second, .. } => {
                let mut ids = first.all_pane_ids();
                let mut rest = second.all_pane_ids();
                ids.append(&mut rest);
                ids
            },
        }
    }

    /// Whether a tab group with id `pane_id` is in the tree.
    pub fn has_pane(&self, pane_id: PaneId) -> (r: bool)
        ensures
            r == (self@.group(pane_id) is Some),
        decreases self,
    {
        match self {
            EditorPane::TabGroup { id, .. } => *id == pane_id,
            EditorPane::Split { first, second, .. } => first.has_pane(pane_id) || second.has_pane(pane_id),
        }
    }

    /// Find a tab group by id (the first in layout order).
    pub fn find_pane(&self, pane_id: PaneId) -> (r: Option<&EditorPane>)
        ensures
            r is Some <==> self@.group(pane_id) is Some,
            r matches Some(p) ==> (p@ matches PaneNode::Group { id, tabs, active }
                && id == pane_id && self@.group(pane_id) == Some((tabs, active))),
        decreases self,
    {
        match self {
            EditorPane::TabGroup { id, .. } => if *id == pane_id {
                Some(self)
            } else {
                None
            },
            EditorPane::Split { first, second, .. } => {
                match first.find_pane(pane_id) {
                    Some(p) => Some(p),
                    None => second.find_pane(pane_id),
                }
            },
        }
    }

    /// Get the active tab of the first tab group (following first children).
    pub fn active_tab(&self) -> (r: Option<&EditorTab>)
        ensures
            r matches Some(t) ==> self@.first_active() == Some(t@),
            r is None ==> self@.first_active() is None,
        decreases self,
    {
        match self {
            EditorPane::TabGroup { tabs, active_tab_idx, .. } => {
                if *active_tab_idx < tabs.len() {
                    Some(&tabs[*active_tab_idx])
                } else {
                    None
                }
            },
            EditorPane::Split { first, .. } => first.active_tab(),
        }
    }

    /// Find a tab by its file path; returns (pane id, tab index).
    pub fn find_tab_by_path(&self, path: &str) -> (r: Option<(PaneId, usize)>)
        ensures
            r matches Some((p, k)) ==> tab_with_path(self@, path@) == Some((p, k as nat)),
            r is None ==> tab_with_path(self@, path@) is None,
        decreases self,
    {
        match self {
            EditorPane::TabGroup { id, tabs, .. } => match position_of_path(tabs, path) {
                Some(k) => Some((*id, k)),
                None => None,
            },
            EditorPane::Split { first, second, .. } => {
                match first.find_tab_by_path(path) {
                    Some(r) => Some(r),
                    None => second.find_tab_by_path(path),
                }
            },
        }
    }

    /// Find which tab group contains a tab by id.
    pub fn find_pane_containing_tab(&self, tab_id: TabId) -> (r: Option<PaneId>)
        ensures
            r == pane_of_tab(self@, tab_id),
        decreases self,
    {
        match self {
            EditorPane::TabGroup { id, tabs, .. } => {
                if position_of_tab(tabs, tab_id).is_some() {
                    Some(*id)
                } else {
                    None
                }
            },
            EditorPane::Split { first, second, .. } => {
                match first.find_pane_containing_tab(tab_id) {
                    Some(r) => Some(r),
                    None => second.find_pane_containing_tab(tab_id),
                }
            },
        }
    }

    /// Find a tab by id anywhere in the tree.
    pub fn find_tab(&self, tab_id: TabId) -> (r: Option<&EditorTab>)
        ensures
            r matches Some(t) ==> tab_with_id(self@, tab_id) == Some(t@),
            r is None ==> tab_with_id(self@, tab_id) is None,
        decreases self,
    {
        match self {
            EditorPane::TabGroup { tabs, .. } => {
                proof {
                    lemma_index_of_tab_bound(tab_views(tabs@), tab_id);
                }
                match position_of_tab(tabs, tab_id) {
                    Some(k) => Some(&tabs[k]),
                    None => None,
                }
            },
            EditorPane::Split { first, second, .. } => {
                match first.find_tab(tab_id) {
                    Some(t) => Some(t),
                    None => second.find_tab(tab_id),
                }
            },
        }
    }

    /// The (pane id, tab id) of the first tab of kind `kind`.
    pub(crate) fn find_tab_of_kind(&self, kind: TabKind) -> (r: Option<(PaneId, TabId)>)
        ensures
            r == tab_of_kind(self@, kind),
        decreases self,
    {
        match self {
            EditorPane::TabGroup { id, tabs, .. } => {
                proof {
                    lemma_index_of_kind_bound(tab_views(tabs@), kind);
                }
                match position_of_kind(tabs, kind) {
                    Some(k) => Some((*id, tabs[k].id)),
                    None => None,
                }
            },
            EditorPane::Split { first, second, .. } => {
                match first.find_tab_of_kind(kind) {
                    Some(r) => Some(r),
                    None => second.find_tab_of_kind(kind),
                }
            },
        }
    }

    /// Find the Settings tab if it exists (returns pane id, tab id).
    pub fn find_settings_tab(&self) -> (r: Option<(PaneId, TabId)>)
        ensures
            r == tab_of_kind(self@, TabKind::Settings),
    {
        self.find_tab_of_kind(TabKind::Settings)
    }

    /// Find the Preview tab if it exists (returns pane id, tab id).
    pub fn find_preview_tab(&self) -> (r: Option<(PaneId, TabId)>)
        ensures
            r == tab_of_kind(self@, TabKind::Preview),
    {
        self.find_tab_of_kind(TabKind::Preview)
    }

    /// Find the Export tab if it exists (returns pane id, tab id).
    pub fn find_export_tab(&self) -> (r: Option<(PaneId, TabId)>)
        ensures
            r == tab_of_kind(self@, TabKind::Export),
    {
        self.find_tab_of_kind(TabKind::Export)
    }

    /// Find a markdown documentation tab by document (returns pane id, tab id).
    pub fn find_markdown_tab(&self, doc: MarkdownDoc) -> (r: Option<(PaneId, TabId)>)
        ensures
            r == tab_of_kind(self@, TabKind::Markdown(doc)),
    {
        self.find_tab_of_kind(TabKind::Markdown(doc))
    }
}


impl PaneNode {
    /// Tabs of the groups before the first group with id `id` (all tabs when
    /// there is none).
    pub open spec fn tabs_before(self, id: PaneId) -> Seq<TabView>
        decreases self,
    {
        match self {
            PaneNode::Group { id: gid, tabs, .. } => if gid == id {
                Seq::empty()
            } else {
                tabs
            },
            PaneNode::Split { first, second, .. } => if first.group(id) is Some {
                first.tabs_before(id)
            } else {
                first.tabs() + second.tabs_before(id)
            },
        }
    }

    /// Tabs of the groups after the first group with id `id`.
    pub open spec fn tabs_after(self, id: PaneId) -> Seq<TabView>
        decreases self,
    {
        match self {
            PaneNode::Group { .. } => Seq::empty(),
            PaneNode::Split { first, second, .. } => if first.group(id) is Some {
                first.tabs_after(id) + second.tabs()
            } else {
                second.tabs_after(id)
            },
        }
    }
}

/// Replacing a group's contents keeps the pane ids; other groups keep theirs,
/// and the replaced group holds the new contents.
pub proof fn lemma_with_group(n: PaneNode, id: PaneId, tabs: Seq<TabView>, active: usize)
    ensures
        n.with_group(id, tabs, active).pane_ids() == n.pane_ids(),
        n.group(id) is None ==> n.with_group(id, tabs, active) == n,
        n.group(id) is Some ==> n.with_group(id, tabs, active).group(id) == Some((tabs, active)),
        forall|other: PaneId| other != id ==> #[trigger] n.with_group(id, tabs, active).group(other) == n.group(other),
        n.with_group(id, tabs, active).tabs_before(id) == n.tabs_before(id),
        n.with_group(id, tabs, active).tabs_after(id) == n.tabs_after(id),
        n.group(id) matches Some((old_tabs, _)) ==> n.tabs() == n.tabs_before(id) + old_tabs + n.tabs_after(id)
            && n.with_group(id, tabs, active).tabs() == n.tabs_before(id) + tabs + n.tabs_after(id),
        n.group(id) is None ==> n.tabs() == n.tabs_before(id),
        n.actives_ok() && active_ok(tabs, active) ==> n.with_group(id, tabs, active).actives_ok(),
    decreases n,
{
    match n {
        PaneNode::Group { .. } => {
            assert forall|other: PaneId| other != id implies #[trigger] n.with_group(id, tabs, active).group(other) == n.group(other) by {}
            assert(Seq::<TabView>::empty() + tabs + Seq::<TabView>::empty() =~= tabs);
            if let Some((old_tabs, _)) = n.group(id) {
                assert(Seq::<TabView>::empty() + old_tabs + Seq::<TabView>::empty() =~= old_tabs);
            }
        },
        PaneNode::Split { direction, first, second, ratio } => {
            lemma_with_group(*first, id, tabs, active);
            lemma_with_group(*second, id, tabs, active);
            assert forall|other: PaneId| other != id implies #[trigger] n.with_group(id, tabs, active).group(other) == n.group(other) by {
                assert(first.with_group(id, tabs, active).group(other) == first.group(other));
                assert(second.with_group(id, tabs, active).group(other) == second.group(other));
            }
            if first.group(id) is Some {
                let f2 = first.with_group(id, tabs, active);
                assert(f2.group(id) is Some);
                if let Some((old_tabs, _)) = n.group(id) {
                    assert(n.tabs() =~= first.tabs_before(id) + old_tabs + (first.tabs_after(id) + second.tabs()));
                }
                assert(n.with_group(id, tabs, active).tabs() =~= first.tabs_before(id) + tabs + (first.tabs_after(id) + second.tabs()));
            } else {
                if let Some((old_tabs, _)) = n.group(id) {
                    assert(n.tabs() =~= (first.tabs() + second.tabs_before(id)) + old_tabs + second.tabs_after(id));
                    assert(n.with_group(id, tabs, active).tabs() =~= (first.tabs() + second.tabs_before(id)) + tabs + second.tabs_after(id));
                } else {
                    assert(n.tabs() =~= first.tabs() + second.tabs_before(id));
                }
            }
        },
    }
}

/// Replacing a group twice is replacing it once with the second contents.
pub proof fn lemma_with_group_twice(n: PaneNode, id: PaneId, t1: Seq<TabView>, a1: usize, t2: Seq<TabView>, a2: usize)
    ensures
        n.with_group(id, t1, a1).with_group(id, t2, a2) == n.with_group(id, t2, a2),
    decreases n,
{
    match n {
        PaneNode::Group { .. } => {},
        PaneNode::Split { first, second, .. } => {
            lemma_with_group(*first, id, t1, a1);
            lemma_with_group(*second, id, t1, a1);
            lemma_with_group_twice(*first, id, t1, a1, t2, a2);
            lemma_with_group_twice(*second, id, t1, a1, t2, a2);
        },
    }
}

impl Default for EditorPane {
    /// The initial layout: one empty tab group with id 1 (shows the welcome screen).
    fn default() -> (p: Self)
        ensures
            p@ == (PaneNode::Group { id: 1, tabs: Seq::empty(), active: 0 }),
    {
        let tabs: Vec<EditorTab> = Vec::new();
        assert(tab_views(tabs@) =~= Seq::<TabView>::empty());
        EditorPane::TabGroup { id: 1, tabs, active_tab_idx: 0 }
    }
}

impl EditorPane {
    /// Collect all tabs from the pane tree, group by group.
    pub fn collect_tabs(&self) -> (r: Vec<&EditorTab>)
        ensures
            r@.len() == self@.tabs().len(),
            forall|i: int| 0 <= i < r@.len() ==> r@[i]@ == self@.tabs()[i],
        decreases self,
    {
        match self {
            EditorPane::TabGroup { tabs, .. } => {
                let mut v: Vec<&EditorTab> = Vec::new();
                let mut i: usize = 0;
                while i < tabs.len()
                    invariant
                        0 <= i <= tabs@.len(),
                        v@.len() == i,
                        forall|j: int| 0 <= j < i ==> v@[j]@ == tabs@[j]@,
                    decreases tabs@.len() - i,
                {
                    v.push(&tabs[i]);
                    i = i + 1;
                }
                v
            },
            EditorPane::Split { first, second, .. } => {
                let mut result = first.collect_tabs();
                let mut rest = second.collect_tabs();
                result.append(&mut rest);
                result
            },
        }
    }

    /// Move the tabs and active index out of the group with id `pane_id`,
    /// leaving it empty.
    pub fn take_group(&mut self, pane_id: PaneId) -> (r: Option<(Vec<EditorTab>, usize)>)
        ensures
            old(self)@.group(pane_id) matches Some((tabs, active)) ==> (r matches Some((v, a)) && tab_views(v@) == tabs && a == active
                && final(self)@ == old(self)@.with_group(pane_id, Seq::empty(), 0)),
            old(self)@.group(pane_id) is None ==> r is None && final(self)@ == old(self)@,
        decreases *old(self),
    {
        match self {
            EditorPane::TabGroup { id, tabs, active_tab_idx } => {
                if *id == pane_id {
                    let mut taken: Vec<EditorTab> = Vec::new();
                    std::mem::swap(&mut taken, tabs);
                    let a = *active_tab_idx;
                    *active_tab_idx = 0;
                    assert(tab_views(tabs@) =~= Seq::<TabView>::empty());
                    Some((taken, a))
                } else {
                    None
                }
            },
            EditorPane::Split { first, second, .. } => {
                if first.has_pane(pane_id) {
                    (&mut **first).take_group(pane_id)
                } else {
                    (&mut **second).take_group(pane_id)
                }
            },
        }
    }

    /// Store `tabs` and `active` as the contents of the group with id `pane_id`
    /// (nothing happens when there is no such group).
    pub fn put_group(&mut self, pane_id: PaneId, tabs: Vec<EditorTab>, active: usize)
        ensures
            final(self)@ == old(self)@.with_group(pane_id, tab_views(tabs@), active),
        decreases *old(self),
    {
        match self {
            EditorPane::TabGroup { id, tabs: slot, active_tab_idx } => {
                if *id == pane_id {
                    *slot = tabs;
                    *active_tab_idx = active;
                }
            },
            EditorPane::Split { first, second, .. } => {
                if first.has_pane(pane_id) {
                    (&mut **first).put_group(pane_id, tabs, active);
                } else {
                    (&mut **second).put_group(pane_id, tabs, active);
                }
            },
        }
    }
}


/// Whether `n` is a tab group with id `id`.
pub open spec fn is_group_of(n: PaneNode, id: PaneId) -> bool {
    match n {
        PaneNode::Group { id: g, .. } => g == id,
        PaneNode::Split { .. } => false,
    }
}

impl PaneNode {
    /// The layout with the group `target` removed: a split with `target` as a
    /// direct child is replaced by its other child (splits deeper in the tree
    /// are searched in both children). A lone group is left as it is.
    pub open spec fn collapse(self, target: PaneId) -> PaneNode
        decreases self,
    {
        match self {
            PaneNode::Group { .. } => self,
            PaneNode::Split { direction, first, second, ratio } => {
                if is_group_of(*first, target) {
                    *second
                } else if is_group_of(*second, target) {
                    *first
                } else {
                    PaneNode::Split {
                        direction,
                        first: Box::new(first.collapse(target)),
                        second: Box::new(second.collapse(target)),
                        ratio,
                    }
                }
            },
        }
    }

    /// The layout with the first group `target` replaced by a split (in
    /// `direction`, even ratio) of that group and a new group `new_id` holding
    /// only `tab`.
    pub open spec fn split_at(self, target: PaneId, direction: SplitDirection, tab: TabView, new_id: PaneId) -> PaneNode
        decreases self,
    {
        match self {
            PaneNode::Group { id, .. } => if id == target {
                PaneNode::Split {
                    direction,
                    first: Box::new(self),
                    second: Box::new(PaneNode::Group { id: new_id, tabs: seq![tab], active: 0 }),
                    ratio: 5000,
                }
            } else {
                self
            },
            PaneNode::Split { direction: d, first, second, ratio } => if first.group(target) is Some {
                PaneNode::Split { direction: d, first: Box::new(first.split_at(target, direction, tab, new_id)), second, ratio }
            } else {
                PaneNode::Split { direction: d, first, second: Box::new(second.split_at(target, direction, tab, new_id)), ratio }
            },
        }
    }

    /// The layout with the ratio of the split whose first child's first pane is
    /// `target` set to `ratio` (the outermost such split; others are searched
    /// in both children).
    pub open spec fn with_ratio(self, target: PaneId, ratio: u32) -> PaneNode
        decreases self,
    {
        match self {
            PaneNode::Group { .. } => self,
            PaneNode::Split { direction, first, second, ratio: r } => {
                if first.pane_ids().len() > 0 && first.pane_ids()[0] == target {
                    PaneNode::Split { direction, first, second, ratio }
                } else {
                    PaneNode::Split {
                        direction,
                        first: Box::new(first.with_ratio(target, ratio)),
                        second: Box::new(second.with_ratio(target, ratio)),
                        ratio: r,
                    }
                }
            },
        }
    }
}

/// Every sequence that `x` draws from `y`: each element of `x` is in `y`.
pub open spec fn drawn_from<A>(x: Seq<A>, y: Seq<A>) -> bool {
    forall|i: int| 0 <= i < x.len() ==> y.contains(#[trigger] x[i])
}

pub proof fn lemma_no_dup_concat_parts<A>(a: Seq<A>, b: Seq<A>)
    requires
        (a + b).no_duplicates(),
    ensures
        a.no_duplicates(),
        b.no_duplicates(),
        forall|x: A| a.contains(x) ==> !b.contains(x),
{
    let w = a + b;
    assert forall|i: int, j: int| 0 <= i < a.len() && 0 <= j < a.len() && i != j implies a[i] != a[j] by {
        assert(w[i] == a[i] && w[j] == a[j]);
    }
    assert forall|i: int, j: int| 0 <= i < b.len() && 0 <= j < b.len() && i != j implies b[i] != b[j] by {
        assert(w[a.len() + i] == b[i] && w[a.len() + j] == b[j]);
    }
    assert forall|x: A| a.contains(x) implies !b.contains(x) by {
        if b.contains(x) {
            let i = choose|i: int| 0 <= i < a.len() && a[i] == x;
            let j = choose|j: int| 0 <= j < b.len() && b[j] == x;
            assert(w[i] == x && w[a.len() + j] == x);
        }
    }
}

/// Concatenating duplicate-free sequences drawn from disjoint parts of a
/// duplicate-free concatenation gives a duplicate-free sequence drawn from it.
pub proof fn lemma_concat_drawn<A>(x: Seq<A>, y: Seq<A>, a: Seq<A>, b: Seq<A>)
    requires
        (a + b).no_duplicates(),
        x.no_duplicates(),
        y.no_duplicates(),
        drawn_from(x, a),
        drawn_from(y, b),
    ensures
        (x + y).no_duplicates(),
        drawn_from(x + y, a + b),
{
    lemma_no_dup_concat_parts(a, b);
    assert forall|i: int, j: int| 0 <= i < x.len() && 0 <= j < y.len() implies x[i] != y[j] by {
        assert(a.contains(x[i]));
        assert(b.contains(y[j]));
    }
    vstd::seq_lib::lemma_no_dup_in_concat(x, y);
    assert forall|i: int| 0 <= i < (x + y).len() implies (a + b).contains(#[trigger] (x + y)[i]) by {
        if i < x.len() {
            assert(a.contains(x[i]));
            let k = choose|k: int| 0 <= k < a.len() && a[k] == x[i];
            assert((a + b)[k] == x[i]);
        } else {
            assert(b.contains(y[i - x.len()]));
            let k = choose|k: int| 0 <= k < b.len() && b[k] == y[i - x.len()];
            assert((a + b)[a.len() + k] == y[i - x.len()]);
        }
    }
}

pub proof fn lemma_drawn_refl<A>(x: Seq<A>)
    ensures
        drawn_from(x, x),
{
    assert forall|i: int| 0 <= i < x.len() implies x.contains(#[trigger] x[i]) by {}
}

/// Collapsing keeps a well-formed layout well formed and only drops panes and tabs.
pub proof fn lemma_collapse_wf(n: PaneNode, target: PaneId)
    requires
        n.wf(),
    ensures
        n.collapse(target).wf(),
        drawn_from(n.collapse(target).pane_ids(), n.pane_ids()),
        drawn_from(ids_of(n.collapse(target).tabs()), ids_of(n.tabs())),
        n.collapse(target).tabs().len() <= n.tabs().len(),
        forall|i: int| 0 <= i < n.collapse(target).tabs().len() ==> n.tabs().contains(#[trigger] n.collapse(target).tabs()[i]),
    decreases n,
{
    match n {
        PaneNode::Group { .. } => {
            lemma_drawn_refl(n.pane_ids());
            lemma_drawn_refl(ids_of(n.tabs()));
        },
        PaneNode::Split { direction, first, second, ratio } => {
            lemma_no_dup_concat_parts(first.pane_ids(), second.pane_ids());
            assert(ids_of(n.tabs()) =~= ids_of(first.tabs()) + ids_of(second.tabs()));
            lemma_no_dup_concat_parts(ids_of(first.tabs()), ids_of(second.tabs()));
            assert(first.wf());
            assert(second.wf());
            let c = n.collapse(target);
            if is_group_of(*first, target) {
                lemma_drawn_refl(second.pane_ids());
                lemma_drawn_refl(ids_of(second.tabs()));
                assert forall|i: int| 0 <= i < c.pane_ids().len() implies n.pane_ids().contains(#[trigger] c.pane_ids()[i]) by {
                    assert(n.pane_ids()[first.pane_ids().len() + i] == c.pane_ids()[i]);
                }
                assert forall|i: int| 0 <= i < ids_of(c.tabs()).len() implies ids_of(n.tabs()).contains(#[trigger] ids_of(c.tabs())[i]) by {
                    assert(ids_of(n.tabs())[first.tabs().len() + i] == ids_of(c.tabs())[i]);
                }
                assert forall|i: int| 0 <= i < c.tabs().len() implies n.tabs().contains(#[trigger] c.tabs()[i]) by {
                    assert(n.tabs()[first.tabs().len() + i] == c.tabs()[i]);
                }
            } else if is_group_of(*second, target) {
                assert forall|i: int| 0 <= i < c.pane_ids().len() implies n.pane_ids().contains(#[trigger] c.pane_ids()[i]) by {
                    assert(n.pane_ids()[i] == c.pane_ids()[i]);
                }
                assert forall|i: int| 0 <= i < ids_of(c.tabs()).len() implies ids_of(n.tabs()).contains(#[trigger] ids_of(c.tabs())[i]) by {
                    assert(ids_of(n.tabs())[i] == ids_of(c.tabs())[i]);
                }
                assert forall|i: int| 0 <= i < c.tabs().len() implies n.tabs().contains(#[trigger] c.tabs()[i]) by {
                    assert(n.tabs()[i] == c.tabs()[i]);
                }
            } else {
                lemma_collapse_wf(*first, target);
                lemma_collapse_wf(*second, target);
                let f2 = first.collapse(target);
                let s2 = second.collapse(target);
                lemma_concat_drawn(f2.pane_ids(), s2.pane_ids(), first.pane_ids(), second.pane_ids());
                assert(ids_of(c.tabs()) =~= ids_of(f2.tabs()) + ids_of(s2.tabs()));
                lemma_concat_drawn(ids_of(f2.tabs()), ids_of(s2.tabs()), ids_of(first.tabs()), ids_of(second.tabs()));
                assert forall|i: int| 0 <= i < c.tabs().len() implies n.tabs().contains(#[trigger] c.tabs()[i]) by {
                    if i < f2.tabs().len() {
                        assert(c.tabs()[i] == f2.tabs()[i]);
                        assert(first.tabs().contains(f2.tabs()[i]));
                        let k = choose|k: int| 0 <= k < first.tabs().len() && first.tabs()[k] == f2.tabs()[i];
                        assert(n.tabs()[k] == first.tabs()[k]);
                    } else {
                        let j = i - f2.tabs().len();
                        assert(c.tabs()[i] == s2.tabs()[j]);
                        assert(second.tabs().contains(s2.tabs()[j]));
                        let k = choose|k: int| 0 <= k < second.tabs().len() && second.tabs()[k] == s2.tabs()[j];
                        assert(n.tabs()[first.tabs().len() + k] == second.tabs()[k]);
                    }
                }
            }
        },
    }
}

/// Concatenating duplicate-free sequences with no common element gives a
/// duplicate-free sequence holding the elements of both.
pub proof fn lemma_concat_disjoint<A>(a: Seq<A>, b: Seq<A>)
    requires
        a.no_duplicates(),
        b.no_duplicates(),
        forall|x: A| a.contains(x) ==> !b.contains(x),
    ensures
        (a + b).no_duplicates(),
        forall|x: A| #[trigger] (a + b).contains(x) <==> a.contains(x) || b.contains(x),
{
    assert forall|i: int, j: int| 0 <= i < a.len() && 0 <= j < b.len() implies a[i] != b[j] by {
        assert(a.contains(a[i]));
        assert(b.contains(b[j]));
    }
    vstd::seq_lib::lemma_no_dup_in_concat(a, b);
    assert forall|x: A| #[trigger] (a + b).contains(x) <==> a.contains(x) || b.contains(x) by {
        vstd::seq_lib::lemma_seq_concat_contains_all_elements(a, b, x);
    }
}

/// The ids of the tabs of a split are those of its first child, then its second.
pub proof fn lemma_split_ids(first: PaneNode, second: PaneNode)
    ensures
        ids_of(first.tabs() + second.tabs()) == ids_of(first.tabs()) + ids_of(second.tabs()),
{
    assert(ids_of(first.tabs() + second.tabs()) =~= ids_of(first.tabs()) + ids_of(second.tabs()));
}

/// Splitting an existing group with a fresh pane id and a tab with a fresh id
/// keeps the layout well formed, adds exactly that pane and that tab id, gives
/// the new pane the tab as its only (active) tab and leaves every other group as
/// it was.
pub proof fn lemma_split_at(n: PaneNode, target: PaneId, direction: SplitDirection, tab: TabView, new_id: PaneId)
    requires
        n.wf(),
        n.group(target) is Some,
        !n.pane_ids().contains(new_id),
        !ids_of(n.tabs()).contains(tab.id),
    ensures
        n.split_at(target, direction, tab, new_id).wf(),
        forall|x: PaneId| #[trigger] n.split_at(target, direction, tab, new_id).pane_ids().contains(x)
            <==> n.pane_ids().contains(x) || x == new_id,
        forall|x: TabId| #[trigger] ids_of(n.split_at(target, direction, tab, new_id).tabs()).contains(x)
            <==> ids_of(n.tabs()).contains(x) || x == tab.id,
        n.split_at(target, direction, tab, new_id).group(new_id) == Some((seq![tab], 0usize)),
        forall|other: PaneId| other != new_id ==> #[trigger] n.split_at(target, direction, tab, new_id).group(other) == n.group(other),
    decreases n,
{
    let s = n.split_at(target, direction, tab, new_id);
    match n {
        PaneNode::Group { id, tabs, active } => {
            let g2 = PaneNode::Group { id: new_id, tabs: seq![tab], active: 0 };
            assert(s == PaneNode::Split { direction, first: Box::new(n), second: Box::new(g2), ratio: 5000 });
            assert(n.pane_ids() == seq![id]);
            assert(g2.pane_ids() == seq![new_id]);
            assert(n.pane_ids()[0] == id);
            assert(n.pane_ids().contains(id));
            assert(id != new_id);
            assert(s.pane_ids() =~= seq![id, new_id]);
            assert forall|other: PaneId| other != new_id implies #[trigger] s.group(other) == n.group(other) by {
                assert(g2.group(other) is None);
            }
            assert(n.group(new_id) is None);
            assert(g2.group(new_id) == Some((seq![tab], 0usize)));
            assert(s.group(new_id) == Some((seq![tab], 0usize)));
            assert(n.tabs() == tabs);
            assert(g2.tabs() == seq![tab]);
            assert(s.tabs() == tabs + seq![tab]);
            assert(g2.actives_ok());
            assert(s.actives_ok());
            assert(ids_of(tabs + seq![tab]) =~= ids_of(tabs).push(tab.id));
            assert(ids_of(seq![tab]) =~= seq![tab.id]);
            lemma_concat_disjoint(ids_of(tabs), seq![tab.id]);
            assert(ids_of(tabs).push(tab.id) =~= ids_of(tabs) + seq![tab.id]);
            assert(ids_of(s.tabs()) == ids_of(tabs) + seq![tab.id]);
            assert forall|x: TabId| #[trigger] ids_of(s.tabs()).contains(x) <==> ids_of(n.tabs()).contains(x) || x == tab.id by {
                if x == tab.id {
                    assert(seq![tab.id][0] == x);
                }
            }
            assert forall|x: PaneId| #[trigger] s.pane_ids().contains(x) <==> n.pane_ids().contains(x) || x == new_id by {
                if x == id {
                    assert(s.pane_ids()[0] == x);
                }
                if x == new_id {
                    assert(s.pane_ids()[1] == x);
                }
            }
            assert(s.pane_ids().no_duplicates());
        },
        PaneNode::Split { direction: d, first, second, ratio } => {
            lemma_no_dup_concat_parts(first.pane_ids(), second.pane_ids());
            lemma_split_ids(*first, *second);
            lemma_no_dup_concat_parts(ids_of(first.tabs()), ids_of(second.tabs()));
            vstd::seq_lib::lemma_seq_concat_contains_all_elements(first.pane_ids(), second.pane_ids(), new_id);
            vstd::seq_lib::lemma_seq_concat_contains_all_elements(ids_of(first.tabs()), ids_of(second.tabs()), tab.id);
            lemma_group_iff_pane_id(*first, new_id);
            lemma_group_iff_pane_id(*second, new_id);
            assert forall|x: PaneId| #[trigger] n.pane_ids().contains(x) <==> first.pane_ids().contains(x) || second.pane_ids().contains(x) by {
                vstd::seq_lib::lemma_seq_concat_contains_all_elements(first.pane_ids(), second.pane_ids(), x);
            }
            assert forall|x: TabId| #[trigger] ids_of(n.tabs()).contains(x) <==> ids_of(first.tabs()).contains(x) || ids_of(second.tabs()).contains(x) by {
                vstd::seq_lib::lemma_seq_concat_contains_all_elements(ids_of(first.tabs()), ids_of(second.tabs()), x);
            }
            if first.group(target) is Some {
                lemma_split_at(*first, target, direction, tab, new_id);
                let f2 = first.split_at(target, direction, tab, new_id);
                lemma_concat_disjoint(f2.pane_ids(), second.pane_ids());
                lemma_split_ids(f2, *second);
                lemma_concat_disjoint(ids_of(f2.tabs()), ids_of(second.tabs()));
                assert forall|other: PaneId| other != new_id implies #[trigger] s.group(other) == n.group(other) by {
                    assert(f2.group(other) == first.group(other));
                }
            } else {
                lemma_group_iff_pane_id(*second, target);
                lemma_group_iff_pane_id(*first, target);
                lemma_split_at(*second, target, direction, tab, new_id);
                let s2 = second.split_at(target, direction, tab, new_id);
                lemma_concat_disjoint(first.pane_ids(), s2.pane_ids());
                lemma_split_ids(*first, s2);
                lemma_concat_disjoint(ids_of(first.tabs()), ids_of(s2.tabs()));
                assert forall|other: PaneId| other != new_id implies #[trigger] s.group(other) == n.group(other) by {
                    assert(s2.group(other) == second.group(other));
                }
            }
        },
    }
}

/// Setting a split ratio changes neither the groups nor their order.
pub proof fn lemma_with_ratio(n: PaneNode, target: PaneId, ratio: u32)
    ensures
        n.with_ratio(target, ratio).pane_ids() == n.pane_ids(),
        n.with_ratio(target, ratio).tabs() == n.tabs(),
        n.with_ratio(target, ratio).actives_ok() == n.actives_ok(),
        forall|id: PaneId| #[trigger] n.with_ratio(target, ratio).group(id) == n.group(id),
    decreases n,
{
    match n {
        PaneNode::Group { .. } => {
            assert(n.with_ratio(target, ratio) == n);
        },
        PaneNode::Split { first, second, .. } => {
            lemma_with_ratio(*first, target, ratio);
            lemma_with_ratio(*second, target, ratio);
            assert forall|id: PaneId| #[trigger] n.with_ratio(target, ratio).group(id) == n.group(id) by {
                assert(first.with_ratio(target, ratio).group(id) == first.group(id));
                assert(second.with_ratio(target, ratio).group(id) == second.group(id));
            }
        },
    }
}

impl EditorPane {
    /// Whether this is a tab group with id `id`.
    pub fn is_group_with(&self, id: PaneId) -> (r: bool)
        ensures
            r == is_group_of(self@, id),
    {
        match self {
            EditorPane::TabGroup { id: g, .. } => *g == id,
            EditorPane::Split { .. } => false,
        }
    }

    /// The id of the first tab group (following first children).
    pub fn first_pane_id(&self) -> (r: PaneId)
        ensures
            self@.pane_ids().len() > 0,
            r == self@.pane_ids()[0],
        decreases self,
    {
        match self {
            EditorPane::TabGroup { id, .. } => *id,
            EditorPane::Split { first, .. } => first.first_pane_id(),
        }
    }

    /// Remove the tab group `target_id` from the layout: its parent split is
    /// replaced by the sibling.
    pub fn collapse_pane(pane: EditorPane, target_id: PaneId) -> (r: EditorPane)
        ensures
            r@ == pane@.collapse(target_id),
        decreases pane,
    {
        match pane {
            EditorPane::TabGroup { id, tabs, active_tab_idx } => EditorPane::TabGroup { id, tabs, active_tab_idx },
            EditorPane::Split { direction, first, second, ratio } => {
                if first.is_group_with(target_id) {
                    return *second;
                }
                if second.is_group_with(target_id) {
                    return *first;
                }
                EditorPane::Split {
                    direction,
                    first: Box::new(Self::collapse_pane(*first, target_id)),
                    second: Box::new(Self::collapse_pane(*second, target_id)),
                    ratio,
                }
            },
        }
    }

    /// Replace the tab group `target_id` by a split of it and a new tab group
    /// `new_pane_id` holding `new_tab`.
    pub fn create_split_at(
        pane: EditorPane,
        target_id: PaneId,
        direction: SplitDirection,
        new_tab: EditorTab,
        new_pane_id: PaneId,
    ) -> (r: EditorPane)
        ensures
            r@ == pane@.split_at(target_id, direction, new_tab@, new_pane_id),
        decreases pane,
    {
        match pane {
            EditorPane::TabGroup { id, tabs, active_tab_idx } => {
                if id == target_id {
                    let mut only: Vec<EditorTab> = Vec::new();
                    only.push(new_tab);
                    assert(tab_views(only@) =~= seq![new_tab@]);
                    let first = EditorPane::TabGroup { id, tabs, active_tab_idx };
                    let second = EditorPane::TabGroup { id: new_pane_id, tabs: only, active_tab_idx: 0 };
                    assert(first@ == pane@);
                    assert(second@ == (PaneNode::Group { id: new_pane_id, tabs: seq![new_tab@], active: 0 }));
                    EditorPane::Split { direction, first: Box::new(first), second: Box::new(second), ratio: 5000 }
                } else {
                    EditorPane::TabGroup { id, tabs, active_tab_idx }
                }
            },
            EditorPane::Split { direction: d, first, second, ratio } => {
                if first.has_pane(target_id) {
                    EditorPane::Split {
                        direction: d,
                        first: Box::new(Self::create_split_at(*first, target_id, direction, new_tab, new_pane_id)),
                        second,
                        ratio,
                    }
                } else {
                    EditorPane::Split {
                        direction: d,
                        first,
                        second: Box::new(Self::create_split_at(*second, target_id, direction, new_tab, new_pane_id)),
                        ratio,
                    }
                }
            },
        }
    }

    /// Set the ratio of the split whose first child starts with the group
    /// `target_id` (the outermost such split).
    pub fn update_split_ratio(pane: EditorPane, target_id: PaneId, new_ratio: u32) -> (r: EditorPane)
        ensures
            r@ == pane@.with_ratio(target_id, new_ratio),
        decreases pane,
    {
        match pane {
            EditorPane::TabGroup { id, tabs, active_tab_idx } => EditorPane::TabGroup { id, tabs, active_tab_idx },
            EditorPane::Split { direction, first, second, ratio } => {
                if first.first_pane_id() == target_id {
                    EditorPane::Split { direction, first, second, ratio: new_ratio }
                } else {
                    EditorPane::Split {
                        direction,
                        first: Box::new(Self::update_split_ratio(*first, target_id, new_ratio)),
                        second: Box::new(Self::update_split_ratio(*second, target_id, new_ratio)),
                        ratio,
                    }
                }
            },
        }
    }
}


/// Whether tab `t` shows the deleted path `deleted`: the path itself for a
/// file, a path inside it for a folder.
pub open spec fn shows_deleted(t: TabView, deleted: Seq<char>, is_dir: bool) -> bool {
    match t.path {
        Some(tp) => if is_dir {
            path_starts_with(tp, deleted)
        } else {
            path_equals(tp, deleted)
        },
        None => false,
    }
}

/// The (pane, tab) pairs of the tabs among `tabs` (of pane `id`) that show a
/// deleted path, in order.
pub open spec fn deleted_in(id: PaneId, tabs: Seq<TabView>, deleted: Seq<char>, is_dir: bool) -> Seq<(PaneId, TabId)>
    decreases tabs.len(),
{
    if tabs.len() == 0 {
        Seq::empty()
    } else {
        let rest = deleted_in(id, tabs.drop_last(), deleted, is_dir);
        if shows_deleted(tabs.last(), deleted, is_dir) {
            rest.push((id, tabs.last().id))
        } else {
            rest
        }
    }
}

/// The (pane, tab) pairs of all tabs that show a deleted path, groups in
/// layout order.
pub open spec fn deleted_tabs(n: PaneNode, deleted: Seq<char>, is_dir: bool) -> Seq<(PaneId, TabId)>
    decreases n,
{
    match n {
        PaneNode::Group { id, tabs, .. } => deleted_in(id, tabs, deleted, is_dir),
        PaneNode::Split { first, second, .. } => deleted_tabs(*first, deleted, is_dir) + deleted_tabs(*second, deleted, is_dir),
    }
}

impl EditorPane {
    /// Append to `out` the (pane, tab) pairs of the tabs that show the deleted
    /// path `deleted` (see `shows_deleted`).
    pub(crate) fn collect_deleted(&self, deleted: &str, is_dir: bool, out: &mut Vec<(PaneId, TabId)>)
        ensures
            final(out)@ == old(out)@ + deleted_tabs(self@, deleted@, is_dir),
        decreases self,
    {
        match self {
            EditorPane::TabGroup { id, tabs, .. } => {
                let ghost start = out@;
                let ghost vs = tab_views(tabs@);
                let mut i: usize = 0;
                proof {
                    assert(vs.take(0) =~= Seq::<TabView>::empty());
                    assert(start + deleted_in(*id, vs.take(0), deleted@, is_dir) =~= start);
                }
                while i < tabs.len()
                    invariant
                        0 <= i <= tabs@.len(),
                        vs == tab_views(tabs@),
                        out@ == start + deleted_in(*id, vs.take(i as int), deleted@, is_dir),
                    decreases tabs@.len() - i,
                {
                    proof {
                        assert(vs.take(i as int + 1).drop_last() =~= vs.take(i as int));
                        assert(vs.take(i as int + 1).last() == tabs@[i as int]@);
                    }
                    let hit = match &tabs[i].path {
                        Some(tp) => if is_dir {
                            starts_with_path(tp.as_str(), deleted)
                        } else {
                            same_path(tp.as_str(), deleted)
                        },
                        None => false,
                    };
                    if hit {
                        out.push((*id, tabs[i].id));
                    }
                    i = i + 1;
                }
                proof {
                    assert(vs.take(vs.len() as int) =~= vs);
                }
            },
            EditorPane::Split { first, second, .. } => {
                first.collect_deleted(deleted, is_dir, out);
                second.collect_deleted(deleted, is_dir, out);
                assert(out@ =~= old(out)@ + deleted_tabs(self@, deleted@, is_dir));
            },
        }
    }
}


/// Collapsing a pane that is not in the layout changes nothing.
pub proof fn lemma_collapse_absent(n: PaneNode, p: PaneId)
    requires
        n.group(p) is None,
    ensures
        n.collapse(p) == n,
    decreases n,
{
    match n {
        PaneNode::Group { .. } => {},
        PaneNode::Split { first, second, .. } => {
            lemma_collapse_absent(*first, p);
            lemma_collapse_absent(*second, p);
        },
    }
}

/// With distinct pane ids, collapsing an existing pane of a split layout drops
/// exactly that pane's tabs.
pub proof fn lemma_collapse_tabs(n: PaneNode, p: PaneId)
    requires
        n.pane_ids().no_duplicates(),
        n.group(p) is Some,
        n is Split,
    ensures
        n.collapse(p).tabs() == n.tabs_before(p) + n.tabs_after(p),
    decreases n,
{
    match n {
        PaneNode::Group { .. } => {},
        PaneNode::Split { first, second, .. } => {
            lemma_no_dup_concat_parts(first.pane_ids(), second.pane_ids());
            lemma_group_iff_pane_id(*first, p);
            lemma_group_iff_pane_id(*second, p);
            if is_group_of(*first, p) {
                assert(first.tabs_before(p) =~= Seq::<TabView>::empty());
                assert(first.tabs_after(p) =~= Seq::<TabView>::empty());
                assert(n.tabs_before(p) + n.tabs_after(p) =~= second.tabs());
            } else if is_group_of(*second, p) {
                assert(first.pane_ids().contains(p) ==> !second.pane_ids().contains(p));
                assert(second.pane_ids() == seq![p]);
                assert(second.pane_ids()[0] == p);
                assert(first.group(p) is None);
                lemma_with_group(*first, p, Seq::empty(), 0);
                assert(second.tabs_before(p) =~= Seq::<TabView>::empty());
                assert(second.tabs_after(p) =~= Seq::<TabView>::empty());
                assert(n.tabs_before(p) == first.tabs() + second.tabs_before(p));
                assert(n.tabs_after(p) == second.tabs_after(p));
                assert(n.tabs_before(p) + n.tabs_after(p) =~= first.tabs());
            } else if first.group(p) is Some {
                assert(second.group(p) is None);
                lemma_collapse_absent(*second, p);
                assert(*first is Split);
                lemma_collapse_tabs(*first, p);
                assert(n.collapse(p).tabs() =~= first.tabs_before(p) + (first.tabs_after(p) + second.tabs()));
            } else {
                lemma_collapse_absent(*first, p);
                lemma_with_group(*first, p, Seq::empty(), 0);
                assert(*second is Split);
                lemma_collapse_tabs(*second, p);
                assert(n.collapse(p).tabs() =~= (first.tabs() + second.tabs_before(p)) + second.tabs_after(p));
            }
        },
    }
}

/// With distinct pane ids, the pane found for a tab holds it.
pub proof fn lemma_pane_of_tab_group(n: PaneNode, t: TabId)
    requires
        n.pane_ids().no_duplicates(),
    ensures
        pane_of_tab(n, t) matches Some(p) ==> (n.group(p) matches Some((ts, _)) && index_of_tab(ts, t) is Some),
    decreases n,
{
    match n {
        PaneNode::Group { .. } => {},
        PaneNode::Split { first, second, .. } => {
            lemma_no_dup_concat_parts(first.pane_ids(), second.pane_ids());
            lemma_pane_of_tab_group(*first, t);
            lemma_pane_of_tab_group(*second, t);
            if let Some(p) = pane_of_tab(*first, t) {
                lemma_group_iff_pane_id(*first, p);
            } else if let Some(p) = pane_of_tab(*second, t) {
                lemma_group_iff_pane_id(*first, p);
                lemma_group_iff_pane_id(*second, p);
            }
        },
    }
}


/// Whether pane `q` of `n` holds tab `x`.
pub open spec fn holds(n: PaneNode, q: PaneId, x: TabId) -> bool {
    n.group(q) matches Some((ts, _)) && index_of_tab(ts, x) is Some
}

/// Collapsing a split at group `p` (whose id occurs once) removes that group.
pub proof fn lemma_collapse_removes(n: PaneNode, p: PaneId)
    requires
        n.pane_ids().no_duplicates(),
        n.group(p) is Some,
        n is Split,
    ensures
        n.collapse(p).group(p) is None,
    decreases n,
{
    if let PaneNode::Split { first, second, .. } = n {
        lemma_no_dup_concat_parts(first.pane_ids(), second.pane_ids());
        lemma_group_iff_pane_id(*first, p);
        lemma_group_iff_pane_id(*second, p);
        if is_group_of(*first, p) {
            assert(first.pane_ids() == seq![p]);
            assert(first.pane_ids()[0] == p);
        } else if is_group_of(*second, p) {
            assert(second.pane_ids() == seq![p]);
            assert(second.pane_ids()[0] == p);
        } else {
            if first.group(p) is Some {
                lemma_collapse_removes(*first, p);
                lemma_collapse_absent(*second, p);
                assert(second.group(p) is None) by {
                    let j = choose|j: int| 0 <= j < first.pane_ids().len() && first.pane_ids()[j] == p;
                    if second.pane_ids().contains(p) {
                        let k = choose|k: int| 0 <= k < second.pane_ids().len() && second.pane_ids()[k] == p;
                        assert(n.pane_ids()[j] == n.pane_ids()[first.pane_ids().len() + k]);
                    }
                }
            } else {
                lemma_collapse_removes(*second, p);
                lemma_collapse_absent(*first, p);
            }
        }
    }
}

/// Collapsing a pane leaves every other group as it was.
pub proof fn lemma_collapse_keeps_groups(n: PaneNode, p: PaneId, q: PaneId)
    requires
        q != p,
    ensures
        n.collapse(p).group(q) == n.group(q),
    decreases n,
{
    match n {
        PaneNode::Group { .. } => {},
        PaneNode::Split { first, second, .. } => {
            if is_group_of(*first, p) {
                assert(first.group(q) is None);
            } else if is_group_of(*second, p) {
                assert(second.group(q) is None);
            } else {
                lemma_collapse_keeps_groups(*first, p, q);
                lemma_collapse_keeps_groups(*second, p, q);
            }
        },
    }
}

/// A tab other than the removed one is still found after a removal.
pub proof fn lemma_index_of_tab_remove(ts: Seq<TabView>, k: int, x: TabId)
    requires
        0 <= k < ts.len(),
        index_of_tab(ts, x) is Some,
        ts[k].id != x,
    ensures
        index_of_tab(ts.remove(k), x) is Some,
{
    lemma_index_of_tab_bound(ts, x);
    let j = index_of_tab(ts, x).unwrap() as int;
    let r = ts.remove(k);
    lemma_index_of_tab_bound(r, x);
    if j < k {
        assert(r[j] == ts[j]);
    } else {
        assert(r[j - 1] == ts[j]);
    }
}

/// Whether some tab of `tabs` with id `x` shows the deleted path.
pub open spec fn shows_deleted_id(tabs: Seq<TabView>, x: TabId, deleted: Seq<char>, is_dir: bool) -> bool {
    exists|i: int| 0 <= i < tabs.len() && tabs[i].id == x && #[trigger] shows_deleted(tabs[i], deleted, is_dir)
}

/// The (pane, tab) pairs of tabs in `tabs` of pane `id` name that pane and a
/// tab of `tabs`.
proof fn lemma_deleted_in_members(id: PaneId, tabs: Seq<TabView>, deleted: Seq<char>, is_dir: bool)
    ensures
        forall|j: int| 0 <= j < deleted_in(id, tabs, deleted, is_dir).len() ==> (#[trigger] deleted_in(id, tabs, deleted, is_dir)[j]).0 == id
            && index_of_tab(tabs, deleted_in(id, tabs, deleted, is_dir)[j].1) is Some,
        forall|i: int| 0 <= i < tabs.len() && shows_deleted(#[trigger] tabs[i], deleted, is_dir)
            ==> deleted_in(id, tabs, deleted, is_dir).map_values(|e: (PaneId, TabId)| e.1).contains(tabs[i].id),
        forall|j: int| 0 <= j < deleted_in(id, tabs, deleted, is_dir).len()
            ==> shows_deleted_id(tabs, (#[trigger] deleted_in(id, tabs, deleted, is_dir)[j]).1, deleted, is_dir),
    decreases tabs.len(),
{
    if tabs.len() > 0 {
        let d = tabs.drop_last();
        lemma_deleted_in_members(id, d, deleted, is_dir);
        let rest = deleted_in(id, d, deleted, is_dir);
        let r = deleted_in(id, tabs, deleted, is_dir);
        assert forall|j: int| 0 <= j < r.len() implies (#[trigger] r[j]).0 == id && index_of_tab(tabs, r[j].1) is Some by {
            let x = r[j].1;
            if j < rest.len() {
                assert(r[j] == rest[j]);
                lemma_index_of_tab_bound(d, x);
                lemma_index_of_tab_bound(tabs, x);
                let k = index_of_tab(d, x).unwrap() as int;
                assert(tabs[k] == d[k]);
            } else {
                lemma_index_of_tab_bound(tabs, x);
                assert(tabs[tabs.len() - 1].id == x);
            }
        }
        assert forall|i: int| 0 <= i < tabs.len() && shows_deleted(#[trigger] tabs[i], deleted, is_dir)
            implies r.map_values(|e: (PaneId, TabId)| e.1).contains(tabs[i].id) by {
            if i < d.len() {
                assert(tabs[i] == d[i]);
                let ids = rest.map_values(|e: (PaneId, TabId)| e.1);
                assert(ids.contains(d[i].id));
                let j = choose|j: int| 0 <= j < ids.len() && ids[j] == d[i].id;
                assert(r[j] == rest[j]);
                assert(r.map_values(|e: (PaneId, TabId)| e.1)[j] == d[i].id);
            } else {
                assert(r.map_values(|e: (PaneId, TabId)| e.1)[r.len() - 1] == tabs[i].id);
            }
        }
        assert forall|j: int| 0 <= j < r.len() implies shows_deleted_id(tabs, (#[trigger] r[j]).1, deleted, is_dir) by {
            if j < rest.len() {
                assert(r[j] == rest[j]);
                assert(shows_deleted_id(d, rest[j].1, deleted, is_dir));
                let i = choose|i: int| 0 <= i < d.len() && d[i].id == rest[j].1 && #[trigger] shows_deleted(d[i], deleted, is_dir);
                assert(tabs[i] == d[i]);
                assert(shows_deleted(tabs[i], deleted, is_dir));
            } else {
                let i = tabs.len() - 1;
                assert(tabs[i].id == r[j].1);
                assert(shows_deleted(tabs[i], deleted, is_dir));
            }
        }
    }
}

/// With distinct pane ids, every listed (pane, tab) pair is a tab that pane
/// holds, and every tab showing the deleted path is listed.
pub proof fn lemma_deleted_tabs_members(n: PaneNode, deleted: Seq<char>, is_dir: bool)
    requires
        n.pane_ids().no_duplicates(),
    ensures
        forall|j: int| 0 <= j < deleted_tabs(n, deleted, is_dir).len()
            ==> holds(n, (#[trigger] deleted_tabs(n, deleted, is_dir)[j]).0, deleted_tabs(n, deleted, is_dir)[j].1),
        forall|i: int| 0 <= i < n.tabs().len() && shows_deleted(#[trigger] n.tabs()[i], deleted, is_dir)
            ==> deleted_tabs(n, deleted, is_dir).map_values(|e: (PaneId, TabId)| e.1).contains(n.tabs()[i].id),
        forall|j: int| 0 <= j < deleted_tabs(n, deleted, is_dir).len()
            ==> shows_deleted_id(n.tabs(), (#[trigger] deleted_tabs(n, deleted, is_dir)[j]).1, deleted, is_dir),
    decreases n,
{
    match n {
        PaneNode::Group { id, tabs, .. } => {
            lemma_deleted_in_members(id, tabs, deleted, is_dir);
            let dt = deleted_tabs(n, deleted, is_dir);
            let r = deleted_in(id, tabs, deleted, is_dir);
            assert(n.tabs() == tabs);
            assert(dt == r);
            assert forall|j: int| 0 <= j < dt.len() implies shows_deleted_id(n.tabs(), (#[trigger] dt[j]).1, deleted, is_dir) by {
                assert(dt[j] == r[j]);
                assert(shows_deleted_id(tabs, r[j].1, deleted, is_dir));
            }
        },
        PaneNode::Split { first, second, .. } => {
            lemma_no_dup_concat_parts(first.pane_ids(), second.pane_ids());
            lemma_deleted_tabs_members(*first, deleted, is_dir);
            lemma_deleted_tabs_members(*second, deleted, is_dir);
            let d1 = deleted_tabs(*first, deleted, is_dir);
            let d2 = deleted_tabs(*second, deleted, is_dir);
            let dt = deleted_tabs(n, deleted, is_dir);
            assert forall|j: int| 0 <= j < dt.len() implies holds(n, (#[trigger] dt[j]).0, dt[j].1) by {
                if j < d1.len() {
                    assert(dt[j] == d1[j]);
                } else {
                    assert(dt[j] == d2[j - d1.len()]);
                    let q = dt[j].0;
                    lemma_group_iff_pane_id(*first, q);
                    lemma_group_iff_pane_id(*second, q);
                }
            }
            let ids = dt.map_values(|e: (PaneId, TabId)| e.1);
            assert forall|i: int| 0 <= i < n.tabs().len() && shows_deleted(#[trigger] n.tabs()[i], deleted, is_dir)
                implies ids.contains(n.tabs()[i].id) by {
                if i < first.tabs().len() {
                    assert(n.tabs()[i] == first.tabs()[i]);
                    let i1 = d1.map_values(|e: (PaneId, TabId)| e.1);
                    let j = choose|j: int| 0 <= j < i1.len() && i1[j] == first.tabs()[i].id;
                    assert(dt[j] == d1[j]);
                    assert(ids[j] == n.tabs()[i].id);
                } else {
                    let i2 = i - first.tabs().len();
                    assert(n.tabs()[i] == second.tabs()[i2]);
                    assert(shows_deleted(second.tabs()[i2], deleted, is_dir));
                    let ids2 = d2.map_values(|e: (PaneId, TabId)| e.1);
                    assert(ids2.contains(second.tabs()[i2].id));
                    let j = choose|j: int| 0 <= j < ids2.len() && ids2[j] == second.tabs()[i2].id;
                    assert(dt[d1.len() + j] == d2[j]);
                    assert(ids[d1.len() + j] == n.tabs()[i].id);
                }
            }
            assert forall|j: int| 0 <= j < dt.len() implies shows_deleted_id(n.tabs(), (#[trigger] dt[j]).1, deleted, is_dir) by {
                if j < d1.len() {
                    assert(dt[j] == d1[j]);
                    assert(shows_deleted_id(first.tabs(), d1[j].1, deleted, is_dir));
                    let i = choose|i: int| 0 <= i < first.tabs().len() && first.tabs()[i].id == d1[j].1
                        && #[trigger] shows_deleted(first.tabs()[i], deleted, is_dir);
                    assert(n.tabs()[i] == first.tabs()[i]);
                    assert(shows_deleted(n.tabs()[i], deleted, is_dir));
                } else {
                    let j2 = j - d1.len();
                    assert(dt[j] == d2[j2]);
                    assert(shows_deleted_id(second.tabs(), d2[j2].1, deleted, is_dir));
                    let i = choose|i: int| 0 <= i < second.tabs().len() && second.tabs()[i].id == d2[j2].1
                        && #[trigger] shows_deleted(second.tabs()[i], deleted, is_dir);
                    assert(n.tabs()[first.tabs().len() + i] == second.tabs()[i]);
                    assert(shows_deleted(n.tabs()[first.tabs().len() + i], deleted, is_dir));
                }
            }
        },
    }
}
} // verus!
