//! Dragging tabs between tab bars and panes: where a dragged tab would land
//! and which move a drop asks for.
use crate::editor::{PaneId, TabId};
use vstd::prelude::*;

verus! {

/// State for tab drag-and-drop operations.
#[derive(Clone, Copy, Debug, PartialEq, Eq)]
pub struct TabDragState {
    /// Source tab being dragged: (pane_id, tab_id, tab_index)
    pub source: Option<(PaneId, TabId, usize)>,
    /// Current drop target: (pane_id, insert_index, is_content_area)
    pub target: Option<(PaneId, usize, bool)>,
}

impl Default for TabDragState {
    /// Nothing is dragged.
    fn default() -> (s: Self)
        ensures
            s.source is None,
            s.target is None,
    {
        TabDragState { source: None, target: None }
    }
}

/// A move of tab `tab` into pane `pane` at index `index`, as a drop asks for
/// it.
pub struct TabMove {
    pub tab: TabId,
    pub pane: PaneId,
    pub index: usize,
}

/// The move a drop asks for: the dragged tab into `pane` at `index`, when a
/// tab is dragged.
pub open spec fn drop_move(s: TabDragState, pane: PaneId, index: usize) -> Option<TabMove> {
    match s.source {
        Some((_, tab, _)) => Some(TabMove { tab, pane, index }),
        None => None,
    }
}

impl TabDragState {
    /// A tab starts being dragged.
    pub fn start(&mut self, pane_id: PaneId, tab_id: TabId, tab_index: usize)
        ensures
            final(self).source == Some((pane_id, tab_id, tab_index)),
            final(self).target == old(self).target,
    {
        self.source = Some((pane_id, tab_id, tab_index));
    }

    /// The drag is over the tab at `tab_index` of pane `pane_id`: the tab
    /// would be inserted before it.
    pub fn over_tab(&mut self, pane_id: PaneId, tab_index: usize)
        ensures
            final(self).target == Some((pane_id, tab_index, false)),
            final(self).source == old(self).source,
    {
        self.target = Some((pane_id, tab_index, false));
    }

    /// The drag leaves the tab at `tab_index` of pane `pane_id`.
    pub fn leave_tab(&mut self, pane_id: PaneId, tab_index: usize)
        ensures
            final(self).target == (if old(self).target == Some((pane_id, tab_index, false)) {
                None
            } else {
                old(self).target
            }),
            final(self).source == old(self).source,
    {
        if let Some((p, i, content)) = self.target {
            if p == pane_id && i == tab_index && !content {
                self.target = None;
            }
        }
    }

    /// The drag is over the tab bar of pane `pane_id` (with `tabs_len` tabs)
    /// outside its tabs: the end of the bar, unless a place in this pane is
    /// already the target.
    pub fn over_bar(&mut self, pane_id: PaneId, tabs_len: usize)
        ensures
            final(self).target == (match old(self).target {
                Some((p, _, _)) if p == pane_id => old(self).target,
                _ => Some((pane_id, tabs_len, false)),
            }),
            final(self).source == old(self).source,
    {
        let keep = match self.target {
            Some((p, _, _)) => p == pane_id,
            None => false,
        };
        if !keep {
            self.target = Some((pane_id, tabs_len, false));
        }
    }

    /// The drag is over the content of pane `pane_id` (with `tabs_len` tabs):
    /// the tab would go to its end.
    pub fn over_content(&mut self, pane_id: PaneId, tabs_len: usize)
        ensures
            final(self).target == Some((pane_id, tabs_len, true)),
            final(self).source == old(self).source,
    {
        self.target = Some((pane_id, tabs_len, true));
    }

    /// The drag leaves the content of pane `pane_id`.
    pub fn leave_content(&mut self, pane_id: PaneId)
        ensures
            final(self).target == (match old(self).target {
                Some((p, _, true)) if p == pane_id => None,
                _ => old(self).target,
            }),
            final(self).source == old(self).source,
    {
        if let Some((p, _, content)) = self.target {
            if p == pane_id && content {
                self.target = None;
            }
        }
    }

    /// Whether the content of pane `pane_id` is the drop target.
    pub fn content_is_target(&self, pane_id: PaneId) -> (r: bool)
        ensures
            r == (self.target matches Some((p, _, c)) && p == pane_id && c),
    {
        match self.target {
            Some((p, _, c)) => p == pane_id && c,
            None => false,
        }
    }

    /// Whether the dragged tab would land before the tab at `tab_index` of
    /// pane `pane_id`.
    pub fn drops_before(&self, pane_id: PaneId, tab_index: usize) -> (r: bool)
        ensures
            r == (self.target == Some((pane_id, tab_index, false))),
    {
        match self.target {
            Some((p, i, c)) => p == pane_id && i == tab_index && !c,
            None => false,
        }
    }

    /// Whether tab `tab_id` is the one being dragged.
    pub fn is_dragging(&self, tab_id: TabId) -> (r: bool)
        ensures
            r == (self.source matches Some((_, t, _)) && t == tab_id),
    {
        match self.source {
            Some((_, t, _)) => t == tab_id,
            None => false,
        }
    }

    /// A drop on the tab at `tab_index` of pane `pane_id`: the dragged tab
    /// moves there; the drag ends.
    pub fn drop_on_tab(&mut self, pane_id: PaneId, tab_index: usize) -> (r: Option<TabMove>)
        ensures
            r == drop_move(*old(self), pane_id, tab_index),
            final(self).source is None,
            final(self).target is None,
    {
        let r = match self.source {
            Some((_, tab, _)) => Some(TabMove { tab, pane: pane_id, index: tab_index }),
            None => None,
        };
        self.source = None;
        self.target = None;
        r
    }

    /// A drop on the tab bar of pane `pane_id` (with `tabs_len` tabs): the
    /// dragged tab moves to the target index (the end without a target); the
    /// drag ends.
    pub fn drop_on_bar(&mut self, pane_id: PaneId, tabs_len: usize) -> (r: Option<TabMove>)
        ensures
            r == drop_move(*old(self), pane_id, match old(self).target {
                Some((_, i, _)) => i,
                None => tabs_len,
            }),
            final(self).source is None,
            final(self).target is None,
    {
        let index = match self.target {
            Some((_, i, _)) => i,
            None => tabs_len,
        };
        self.drop_on_tab(pane_id, index)
    }

    /// A drop on the content of pane `pane_id` (with `tabs_len` tabs): the
    /// dragged tab moves to its end; the drag ends.
    pub fn drop_on_content(&mut self, pane_id: PaneId, tabs_len: usize) -> (r: Option<TabMove>)
        ensures
            r == drop_move(*old(self), pane_id, tabs_len),
            final(self).source is None,
            final(self).target is None,
    {
        self.drop_on_tab(pane_id, tabs_len)
    }

    /// The drag ends without a drop.
    pub fn end(&mut self)
        ensures
            final(self).source is None,
            final(self).target is None,
    {
        self.source = None;
        self.target = None;
    }
}

} // verus!
