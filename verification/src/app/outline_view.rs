//! The outline panel: its rows, which sections are folded, and the selected row, with the
//! moves the keys make (step, jump, fold, unfold, fold all).
use std::collections::HashSet;
use vstd::prelude::*;

use crate::outline::{Row, Tree};
use crate::render::layout::Heading;

verus! {

broadcast use vstd::std_specs::hash::group_hash_axioms;

/// The outline panel's state.
pub struct OutlineView {
    pub tree: Tree,
    pub collapsed: HashSet<usize>,
    pub rows: Vec<Row>,
    pub selected: Option<usize>,
}

/// Section `i` holds headings, in the first `n`.
pub open spec fn folds(tree: Tree, n: int) -> Set<usize> {
    Set::new(|i: usize| i < n && tree.has_children_spec(i as int))
}

impl OutlineView {
    /// The rows are the tree's rows under the folded sections.
    pub open spec fn rows_match(&self) -> bool {
        let vis = self.tree.visible_upto(self.collapsed@, self.tree.len_spec() as int);
        &&& self.rows@.len() == vis.len()
        &&& forall|k: int|
            0 <= k < self.rows@.len() ==> #[trigger] self.rows@[k].index == vis[k] && self.tree.row_spec(
                self.rows@[k],
                self.collapsed@,
            )
    }

    /// The outline of `headings`: nothing folded, nothing selected.
    pub fn new(headings: &[Heading]) -> (r: OutlineView)
        ensures
            r.collapsed@ == Set::<usize>::empty(),
            r.rows_match(),
            r.selected is None,
    {
        let tree = Tree::new(headings);
        let collapsed: HashSet<usize> = HashSet::new();
        let rows = tree.rows(&collapsed);
        OutlineView { tree, collapsed, rows, selected: None }
    }

    fn refresh_rows(&mut self)
        ensures
            final(self).tree == old(self).tree,
            final(self).collapsed@ == old(self).collapsed@,
            final(self).selected == old(self).selected,
            final(self).rows_match(),
    {
        self.rows = self.tree.rows(&self.collapsed);
    }

    /// The first row whose heading is `index`.
    pub open spec fn first_row_of(rows: Seq<Row>, index: usize, from: int) -> Option<int>
        decreases rows.len() - from,
    {
        if from < 0 || from >= rows.len() {
            None
        } else if rows[from].index == index {
            Some(from)
        } else {
            Self::first_row_of(rows, index, from + 1)
        }
    }

    proof fn lemma_first_row_of(rows: Seq<Row>, index: usize, from: int)
        ensures
            Self::first_row_of(rows, index, from) matches Some(k) ==> 0 <= from <= k < rows.len()
                && rows[k].index == index,
        decreases rows.len() - from,
    {
        if 0 <= from < rows.len() && rows[from].index != index {
            Self::lemma_first_row_of(rows, index, from + 1);
        }
    }

    /// The row that shows heading `heading`: its own, or that of the folded section hiding it.
    pub open spec fn row_for_spec(&self, heading: usize) -> Option<int> {
        Self::first_row_of(
            self.rows@,
            self.tree.visible_ancestor_spec(heading as int, self.collapsed@) as usize,
            0,
        )
    }

    /// The row that shows heading `heading`.
    pub fn row_for_heading(&self, heading: usize) -> (r: Option<usize>)
        ensures
            r matches Some(k) ==> self.row_for_spec(heading) == Some(k as int),
            r is None ==> self.row_for_spec(heading) is None,
    {
        let shown = self.tree.visible_ancestor(heading, &self.collapsed);
        let mut k: usize = 0;
        while k < self.rows.len()
            invariant
                k <= self.rows@.len(),
                shown as int == self.tree.visible_ancestor_spec(heading as int, self.collapsed@),
                Self::first_row_of(self.rows@, shown, 0) == Self::first_row_of(self.rows@, shown, k as int),
            decreases self.rows.len() - k,
        {
            if self.rows[k].index == shown {
                return Some(k);
            }
            k = k + 1;
        }
        None
    }

    /// The selected row, when it is one of the rows.
    pub fn selected_row(&self) -> (r: Option<usize>)
        ensures
            r == (match self.selected {
                Some(s) => if s < self.rows@.len() {
                    Some(s)
                } else {
                    None
                },
                None => None,
            }),
    {
        match self.selected {
            Some(s) => if s < self.rows.len() {
                Some(s)
            } else {
                None
            },
            None => None,
        }
    }

    /// Selects row `row`, when there is one; answers the heading to scroll to.
    pub fn set(&mut self, row: usize) -> (r: Option<usize>)
        ensures
            final(self).tree == old(self).tree,
            final(self).collapsed@ == old(self).collapsed@,
            final(self).rows@ == old(self).rows@,
            row < old(self).rows@.len() ==> final(self).selected == Some(row) && r == Some(
                old(self).rows@[row as int].index,
            ),
            row >= old(self).rows@.len() ==> final(self).selected == old(self).selected && r is None,
    {
        if row < self.rows.len() {
            self.selected = Some(row);
            Some(self.rows[row].index)
        } else {
            None
        }
    }

    /// Folds or unfolds the section of row `row` (a row without children stays as it is),
    /// keeping its heading selected.
    pub fn toggle(&mut self, row: usize)
        requires
            old(self).rows_match(),
        ensures
            final(self).tree == old(self).tree,
            final(self).rows_match(),
            row < old(self).rows@.len() && old(self).rows@[row as int].has_children ==> ({
                let h = old(self).rows@[row as int].index;
                &&& final(self).collapsed@ == (if old(self).collapsed@.contains(h) {
                    old(self).collapsed@.remove(h)
                } else {
                    old(self).collapsed@.insert(h)
                })
                &&& final(self).selected == (match final(self).row_for_spec(h) {
                    Some(k) => Some(k as usize),
                    None => None::<usize>,
                })
            }),
            !(row < old(self).rows@.len() && old(self).rows@[row as int].has_children) ==> final(self).collapsed@ == old(self).collapsed@ && final(self).selected == old(self).selected
                && final(self).rows@ == old(self).rows@,
    {
        if row >= self.rows.len() {
            return;
        }
        if !self.rows[row].has_children {
            return;
        }
        let heading = self.rows[row].index;
        if !self.collapsed.remove(&heading) {
            self.collapsed.insert(heading);
        }
        self.refresh_rows();
        self.selected = self.row_for_heading(heading);
    }

    /// Unfolds the selected row when it is folded; answers whether it did.
    pub fn expand(&mut self) -> (r: bool)
        requires
            old(self).rows_match(),
        ensures
            final(self).tree == old(self).tree,
            final(self).rows_match(),
            r == (match old(self).selected {
                Some(s) => s < old(self).rows@.len() && old(self).rows@[s as int].collapsed,
                None => false,
            }),
            !r ==> final(self).collapsed@ == old(self).collapsed@ && final(self).selected == old(self).selected,
    {
        match self.selected_row() {
            Some(row) => {
                if self.rows[row].collapsed {
                    assert(self.tree.row_spec(self.rows@[row as int], self.collapsed@));
                    assert(self.rows@[row as int].has_children);
                    self.toggle(row);
                    true
                } else {
                    false
                }
            },
            None => false,
        }
    }

    /// Folds the selected row when it can fold, else selects its parent's row; answers the
    /// heading to scroll to when the selection moved.
    pub fn collapse(&mut self) -> (r: Option<usize>)
        requires
            old(self).rows_match(),
        ensures
            final(self).tree == old(self).tree,
            final(self).rows_match(),
            old(self).selected is None || old(self).selected->0 >= old(self).rows@.len() ==> final(self).collapsed@ == old(self).collapsed@ && final(self).selected == old(self).selected
                && r is None,
            r matches Some(h) ==> final(self).selected matches Some(k) && k < final(self).rows@.len()
                && final(self).rows@[k as int].index == h,
            old(self).selected is Some && old(self).selected->0 < old(self).rows@.len() ==> ({
                let x = old(self).rows@[old(self).selected->0 as int];
                if x.has_children && !x.collapsed {
                    &&& r is None
                    &&& final(self).collapsed@ == old(self).collapsed@.insert(x.index)
                    &&& final(self).selected == (match final(self).row_for_spec(x.index) {
                        Some(k) => Some(k as usize),
                        None => None::<usize>,
                    })
                } else {
                    &&& final(self).collapsed@ == old(self).collapsed@
                    &&& final(self).rows@ == old(self).rows@
                    &&& match old(self).tree.parent_spec(x.index as int) {
                        Some(p) => match old(self).row_for_spec(p) {
                            Some(k) => final(self).selected == Some(k as usize) && r == Some(
                                old(self).rows@[k].index,
                            ),
                            None => final(self).selected == old(self).selected && r is None,
                        },
                        None => final(self).selected == old(self).selected && r is None,
                    }
                }
            }),
    {
        let row = match self.selected_row() {
            Some(row) => row,
            None => {
                return None;
            },
        };
        let has_children = self.rows[row].has_children;
        let collapsed = self.rows[row].collapsed;
        if has_children && !collapsed {
            self.toggle(row);
            return None;
        }
        let index = self.rows[row].index;
        match self.tree.parent(index) {
            Some(parent) => {
                let found = self.row_for_heading(parent);
                proof {
                    Self::lemma_first_row_of(
                        self.rows@,
                        self.tree.visible_ancestor_spec(parent as int, self.collapsed@) as usize,
                        0,
                    );
                }
                match found {
                    Some(parent_row) => self.set(parent_row),
                    None => None,
                }
            },
            None => None,
        }
    }

    /// Folds every section that holds headings, or unfolds all, keeping the selected row's
    /// heading selected.
    pub fn fold_all(&mut self, fold: bool)
        requires
            old(self).rows_match(),
        ensures
            final(self).tree == old(self).tree,
            final(self).rows_match(),
            fold ==> final(self).collapsed@ == folds(old(self).tree, old(self).tree.len_spec() as int),
            !fold ==> final(self).collapsed@ == Set::<usize>::empty(),
            (match old(self).selected {
                Some(s) => s < old(self).rows@.len(),
                None => false,
            }) ==> final(self).selected == (match final(self).row_for_spec(
                old(self).rows@[old(self).selected->0 as int].index,
            ) {
                Some(k) => Some(k as usize),
                None => None::<usize>,
            }),
            !(match old(self).selected {
                Some(s) => s < old(self).rows@.len(),
                None => false,
            }) ==> final(self).selected == old(self).selected,
    {
        let keep = match self.selected_row() {
            Some(r) => Some(self.rows[r].index),
            None => None,
        };
        let mut set: HashSet<usize> = HashSet::new();
        if fold {
            let n = self.tree.len();
            let mut i: usize = 0;
            while i < n
                invariant
                    i <= n,
                    n == self.tree.len_spec(),
                    set@ == folds(self.tree, i as int),
                decreases n - i,
            {
                if self.tree.has_children(i) {
                    set.insert(i);
                    assert(set@ =~= folds(self.tree, i + 1));
                } else {
                    assert(set@ =~= folds(self.tree, i + 1));
                }
                i = i + 1;
            }
        } else {
            assert(set@ =~= Set::<usize>::empty());
        }
        self.collapsed = set;
        self.refresh_rows();
        match keep {
            Some(heading) => {
                self.selected = self.row_for_heading(heading);
            },
            None => {},
        }
    }

    /// Moves the selection `delta` rows (kept on the list) from the selected row, else from
    /// the row of the heading being read (`active`), else from the first row; answers the
    /// heading to scroll to. Nothing happens without rows.
    pub fn move_by(&mut self, delta: isize, active: Option<usize>) -> (r: Option<usize>)
        ensures
            final(self).tree == old(self).tree,
            final(self).collapsed@ == old(self).collapsed@,
            final(self).rows@ == old(self).rows@,
            old(self).rows@.len() == 0 ==> final(self).selected == old(self).selected && r is None,
            old(self).rows@.len() > 0 ==> ({
                let current: int = match old(self).selected {
                    Some(s) => if s < old(self).rows@.len() {
                        s as int
                    } else {
                        match active {
                            Some(h) => match old(self).row_for_spec(h) {
                                Some(k) => k,
                                None => 0,
                            },
                            None => 0,
                        }
                    },
                    None => match active {
                        Some(h) => match old(self).row_for_spec(h) {
                            Some(k) => k,
                            None => 0,
                        },
                        None => 0,
                    },
                };
                let moved = current + delta;
                let s: int = if moved < 0 {
                    0
                } else if moved > usize::MAX {
                    usize::MAX as int
                } else {
                    moved
                };
                let next: int = if s <= old(self).rows@.len() - 1 {
                    s
                } else {
                    old(self).rows@.len() - 1
                };
                &&& final(self).selected == Some(next as usize)
                &&& r == Some(old(self).rows@[next].index)
            }),
    {
        if self.rows.len() == 0 {
            return None;
        }
        let current: usize = match self.selected_row() {
            Some(s) => s,
            None => match active {
                Some(h) => match self.row_for_heading(h) {
                    Some(k) => k,
                    None => 0,
                },
                None => 0,
            },
        };
        let moved: usize = if delta >= 0 {
            current.saturating_add(delta as usize)
        } else {
            let back: usize = ((-(delta + 1)) as usize) + 1;
            current.saturating_sub(back)
        };
        let last = self.rows.len() - 1;
        let next = if moved <= last {
            moved
        } else {
            last
        };
        self.set(next)
    }
}

} // verus!
