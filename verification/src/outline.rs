//! The outline: headings as a tree, folded sections and the rows the panel draws.
use std::collections::HashSet;
use vstd::prelude::*;

use crate::render::layout::Heading;

verus! {

broadcast use vstd::std_specs::hash::group_hash_axioms;

/// One visible row of the outline.
#[derive(Debug, Clone, PartialEq, Eq)]
pub struct Row {
    pub index: usize,
    pub prefix: String,
    pub marker: &'static str,
    pub has_children: bool,
    pub collapsed: bool,
}

/// The headings of a document as a tree: each heading's depth and parent.
#[derive(Debug)]
pub struct Tree {
    depths: Vec<usize>,
    parents: Vec<Option<usize>>,
}

/// The levels of the headings.
pub open spec fn levels(hs: Seq<Heading>) -> Seq<u8> {
    hs.map_values(|h: Heading| h.level)
}

/// The nearest index before `j` whose level is below `x`.
pub open spec fn prev_smaller(lv: Seq<u8>, x: u8, j: int) -> Option<int>
    decreases j,
{
    if j <= 0 {
        None
    } else if lv[j - 1] < x {
        Some(j - 1)
    } else {
        prev_smaller(lv, x, j - 1)
    }
}

/// The parent of heading `i`: the nearest earlier heading of a higher rank (lower level).
pub open spec fn parent_of(lv: Seq<u8>, i: int) -> Option<int> {
    prev_smaller(lv, lv[i], i)
}

/// How many ancestors heading `i` has.
pub open spec fn depth_of(lv: Seq<u8>, i: int) -> nat
    decreases i,
{
    if i < 0 {
        0
    } else {
        match parent_of(lv, i) {
            Some(p) => if 0 <= p < i {
                depth_of(lv, p) + 1
            } else {
                0
            },
            None => 0,
        }
    }
}

pub proof fn lemma_prev_smaller(lv: Seq<u8>, x: u8, j: int)
    requires
        0 <= j <= lv.len(),
    ensures
        prev_smaller(lv, x, j) matches Some(s) ==> 0 <= s < j && lv[s] < x && forall|m: int|
            s < m < j ==> lv[m] >= x,
        prev_smaller(lv, x, j) is None ==> forall|m: int| 0 <= m < j ==> lv[m] >= x,
    decreases j,
{
    if j > 0 && !(lv[j - 1] < x) {
        lemma_prev_smaller(lv, x, j - 1);
    }
}

proof fn lemma_prev_smaller_is(lv: Seq<u8>, x: u8, j: int, s: Option<int>)
    requires
        0 <= j <= lv.len(),
        s matches Some(t) ==> 0 <= t < j && lv[t] < x && forall|m: int| t < m < j ==> lv[m] >= x,
        s is None ==> forall|m: int| 0 <= m < j ==> lv[m] >= x,
    ensures
        prev_smaller(lv, x, j) == s,
{
    lemma_prev_smaller(lv, x, j);
    match prev_smaller(lv, x, j) {
        Some(a) => {
            match s {
                Some(t) => {
                    if a < t {
                        assert(lv[t] >= x);
                    }
                    if t < a {
                        assert(lv[a] >= x);
                    }
                },
                None => {
                    assert(lv[a] >= x);
                },
            }
        },
        None => {
            match s {
                Some(t) => {
                    assert(lv[t] >= x);
                },
                None => {},
            }
        },
    }
}

/// The stack of open sections: strictly increasing positions whose levels strictly increase,
/// each the parent of the next, and everything between two entries (or before the first) at
/// or below the later entry's rank.
#[verifier::opaque]
spec fn stack_core(lv: Seq<u8>, st: Seq<usize>) -> bool {
    &&& forall|t: int| 0 < t < st.len() ==> st[t - 1] < #[trigger] st[t]
    &&& forall|t: int| 0 < t < st.len() ==> lv[st[t - 1] as int] < lv[#[trigger] st[t] as int]
    &&& forall|t: int, m: int|
        #![trigger lv[m], st[t]]
        0 < t < st.len() && st[t - 1] < m < st[t] ==> lv[m] >= lv[st[t] as int]
    &&& forall|m: int| st.len() > 0 && 0 <= m < st[0] ==> #[trigger] lv[m] >= lv[st[0] as int]
    &&& forall|t: int|
        0 <= t < st.len() ==> #[trigger] depth_of(lv, st[t] as int) == t && parent_of(
            lv,
            st[t] as int,
        ) == (if t == 0 {
            None::<int>
        } else {
            Some(st[t - 1] as int)
        })
}

/// The stack while reading heading `i`: the open sections, the last one being `i - 1`.
spec fn stack_ok(lv: Seq<u8>, st: Seq<usize>, i: int) -> bool {
    &&& stack_core(lv, st)
    &&& forall|t: int| 0 <= t < st.len() ==> #[trigger] st[t] < i
    &&& i > 0 ==> st.len() > 0 && st.last() == i - 1
}

proof fn lemma_pop(lv: Seq<u8>, st: Seq<usize>, i: int, level: u8)
    requires
        stack_core(lv, st),
        st.len() > 0,
        forall|t: int| 0 <= t < st.len() ==> #[trigger] st[t] < i,
        forall|m: int| (st.last() as int) < m < i ==> #[trigger] lv[m] >= level,
        lv[st.last() as int] >= level,
    ensures
        stack_core(lv, st.drop_last()),
        forall|m: int|
            (if st.len() > 1 {
                st[st.len() - 2] as int
            } else {
                -1
            }) < m < i ==> #[trigger] lv[m] >= level,
{
    reveal(stack_core);
    let top = st.last();
    let t = st.len() - 1;
    if st.len() > 1 {
        assert(st[t - 1] < st[t]);
        assert forall|m: int| st[st.len() - 2] < m < i implies #[trigger] lv[m] >= level by {
            if m < top {
                assert(lv[m] >= lv[st[t] as int]);
            }
        }
    } else {
        assert forall|m: int| -1 < m < i implies #[trigger] lv[m] >= level by {
            if m < top {
                assert(lv[m] >= lv[st[0] as int]);
            }
        }
    }
    let d = st.drop_last();
    assert forall|t: int, m: int|
        #![trigger lv[m], d[t]]
        0 < t < d.len() && d[t - 1] < m < d[t] implies lv[m] >= lv[d[t] as int] by {
        assert(d[t] == st[t] && d[t - 1] == st[t - 1]);
    }
    assert forall|t: int| 0 <= t < d.len() implies #[trigger] depth_of(lv, d[t] as int) == t
        && parent_of(lv, d[t] as int) == (if t == 0 {
        None::<int>
    } else {
        Some(d[t - 1] as int)
    }) by {
        assert(d[t] == st[t]);
        if t > 0 {
            assert(d[t - 1] == st[t - 1]);
        }
    }
}

proof fn lemma_push_parent(lv: Seq<u8>, st: Seq<usize>, i: int)
    requires
        0 <= i < lv.len(),
        stack_core(lv, st),
        forall|t: int| 0 <= t < st.len() ==> #[trigger] st[t] < i,
        forall|m: int|
            (if st.len() > 0 {
                st.last() as int
            } else {
                -1
            }) < m < i ==> #[trigger] lv[m] >= lv[i],
        st.len() > 0 ==> lv[st.last() as int] < lv[i],
    ensures
        parent_of(lv, i) == (if st.len() > 0 {
            Some(st.last() as int)
        } else {
            None::<int>
        }),
        depth_of(lv, i) == st.len(),
{
    reveal(stack_core);
    let s = if st.len() > 0 {
        Some(st.last() as int)
    } else {
        None::<int>
    };
    lemma_prev_smaller_is(lv, lv[i], i, s);
    assert(parent_of(lv, i) == s);
    if st.len() > 0 {
        assert(depth_of(lv, st[st.len() - 1] as int) == st.len() - 1);
        assert(st.last() < i);
        assert(depth_of(lv, i) == depth_of(lv, st.last() as int) + 1);
    } else {
        assert(depth_of(lv, i) == 0);
    }
}

proof fn lemma_push_links(lv: Seq<u8>, st: Seq<usize>, i: int)
    requires
        0 <= i < lv.len(),
        i <= usize::MAX,
        stack_core(lv, st),
        parent_of(lv, i) == (if st.len() > 0 {
            Some(st.last() as int)
        } else {
            None::<int>
        }),
        depth_of(lv, i) == st.len(),
    ensures
        forall|t: int|
            0 <= t < st.push(i as usize).len() ==> #[trigger] depth_of(
                lv,
                st.push(i as usize)[t] as int,
            ) == t && parent_of(lv, st.push(i as usize)[t] as int) == (if t == 0 {
                None::<int>
            } else {
                Some(st.push(i as usize)[t - 1] as int)
            }),
{
    reveal(stack_core);
    let n = st.push(i as usize);
    assert forall|t: int| 0 <= t < n.len() implies #[trigger] depth_of(lv, n[t] as int) == t
        && parent_of(lv, n[t] as int) == (if t == 0 {
        None::<int>
    } else {
        Some(n[t - 1] as int)
    }) by {
        if t < n.len() - 1 {
            assert(n[t] == st[t]);
            if t > 0 {
                assert(n[t - 1] == st[t - 1]);
            }
        } else {
            assert(n[t] as int == i);
        }
    }
}

proof fn lemma_push_order(lv: Seq<u8>, st: Seq<usize>, i: int)
    requires
        0 <= i < lv.len(),
        i <= usize::MAX,
        stack_core(lv, st),
        forall|t: int| 0 <= t < st.len() ==> #[trigger] st[t] < i,
        forall|m: int|
            (if st.len() > 0 {
                st.last() as int
            } else {
                -1
            }) < m < i ==> #[trigger] lv[m] >= lv[i],
        st.len() > 0 ==> lv[st.last() as int] < lv[i],
    ensures
        forall|t: int, m: int|
            #![trigger lv[m], st.push(i as usize)[t]]
            0 < t < st.push(i as usize).len() && st.push(i as usize)[t - 1] < m < st.push(
                i as usize,
            )[t] ==> lv[m] >= lv[st.push(i as usize)[t] as int],
        forall|t: int|
            0 < t < st.push(i as usize).len() ==> st.push(i as usize)[t - 1] < #[trigger] st.push(
                i as usize,
            )[t],
        forall|t: int|
            0 < t < st.push(i as usize).len() ==> lv[st.push(i as usize)[t - 1] as int]
                < lv[#[trigger] st.push(i as usize)[t] as int],
        forall|m: int|
            0 <= m < st.push(i as usize)[0] ==> #[trigger] lv[m] >= lv[st.push(
                i as usize,
            )[0] as int],
{
    reveal(stack_core);
    let n = st.push(i as usize);
    assert(n[n.len() - 1] as int == i);
    assert forall|t: int, m: int|
        #![trigger lv[m], n[t]]
        0 < t < n.len() && n[t - 1] < m < n[t] implies lv[m] >= lv[n[t] as int] by {
        if t < n.len() - 1 {
            assert(n[t] == st[t] && n[t - 1] == st[t - 1]);
        }
    }
    assert forall|t: int| 0 < t < n.len() implies n[t - 1] < #[trigger] n[t] by {
        if t < n.len() - 1 {
            assert(n[t] == st[t]);
        }
    }
    assert forall|t: int| 0 < t < n.len() implies lv[n[t - 1] as int] < lv[#[trigger] n[t] as int] by {
        if t < n.len() - 1 {
            assert(n[t] == st[t]);
        }
    }
    assert forall|m: int| 0 <= m < n[0] implies #[trigger] lv[m] >= lv[n[0] as int] by {
        if st.len() > 0 {
            assert(n[0] == st[0]);
        } else {
            assert(-1 < m < i);
        }
    }
}

proof fn lemma_push(lv: Seq<u8>, st: Seq<usize>, i: int)
    requires
        0 <= i < lv.len(),
        i <= usize::MAX,
        stack_core(lv, st),
        forall|t: int| 0 <= t < st.len() ==> #[trigger] st[t] < i,
        forall|m: int|
            (if st.len() > 0 {
                st.last() as int
            } else {
                -1
            }) < m < i ==> #[trigger] lv[m] >= lv[i],
        st.len() > 0 ==> lv[st.last() as int] < lv[i],
    ensures
        parent_of(lv, i) == (if st.len() > 0 {
            Some(st.last() as int)
        } else {
            None::<int>
        }),
        depth_of(lv, i) == st.len(),
        stack_ok(lv, st.push(i as usize), i + 1),
{
    lemma_push_parent(lv, st, i);
    lemma_push_links(lv, st, i);
    lemma_push_order(lv, st, i);
    let n = st.push(i as usize);
    assert(stack_core(lv, n)) by {
        reveal(stack_core);
    }
    assert forall|t: int| 0 <= t < n.len() implies #[trigger] n[t] < i + 1 by {
        if t < n.len() - 1 {
            assert(n[t] == st[t]);
        }
    }
}

impl Tree {
    #[verifier::type_invariant]
    spec fn wf(self) -> bool {
        &&& self.depths.len() == self.parents.len()
        &&& forall|i: int|
            0 <= i < self.parents.len() ==> match #[trigger] self.parents@[i] {
                Some(p) => p < i && self.depths@[i] == self.depths@[p as int] + 1,
                None => self.depths@[i] == 0,
            }
    }

    /// Parents come before their children, and a child is one deeper than its parent.
    pub closed spec fn valid(&self) -> bool {
        &&& self.depths.len() == self.parents.len()
        &&& forall|i: int|
            0 <= i < self.parents.len() ==> match #[trigger] self.parents@[i] {
                Some(p) => p < i && self.depths@[i] == self.depths@[p as int] + 1,
                None => self.depths@[i] == 0,
            }
    }

    pub proof fn lemma_valid(&self)
        requires
            self.valid(),
        ensures
            forall|i: int|
                0 <= i < self.parents_view().len() ==> (#[trigger] self.parents_view()[i] matches Some(
                    p,
                ) ==> p < i),
    {
    }

    /// Each heading's parent, in order.
    pub closed spec fn parents_view(&self) -> Seq<Option<usize>> {
        self.parents@
    }

    /// Each heading's depth, in order.
    pub closed spec fn depths_view(&self) -> Seq<usize> {
        self.depths@
    }

    /// The tree of `headings`: a heading's parent is the nearest earlier heading of a lower
    /// level, and its depth is one more than its parent's.
    pub fn new(headings: &[Heading]) -> (r: Self)
        ensures
            r.built_from(headings@),
            r.valid(),
            r.parents_view().len() == headings@.len(),
            r.depths_view().len() == headings@.len(),
            forall|i: int|
                0 <= i < headings@.len() ==> (match #[trigger] r.parents_view()[i] {
                    Some(p) => Some(p as int),
                    None => None::<int>,
                }) == parent_of(levels(headings@), i),
            forall|i: int|
                0 <= i < headings@.len() ==> #[trigger] r.depths_view()[i] == depth_of(
                    levels(headings@),
                    i,
                ),
    {
        let ghost lv = levels(headings@);
        let mut stack: Vec<usize> = Vec::new();
        let mut depths: Vec<usize> = Vec::new();
        let mut parents: Vec<Option<usize>> = Vec::new();
        let mut i: usize = 0;
        assert(stack_core(lv, stack@)) by {
            reveal(stack_core);
        }
        while i < headings.len()
            invariant
                i <= headings@.len(),
                lv == levels(headings@),
                lv.len() == headings@.len(),
                stack_ok(lv, stack@, i as int),
                stack.len() <= i,
                depths.len() == i,
                parents.len() == i,
                forall|k: int|
                    0 <= k < i ==> (match #[trigger] parents@[k] {
                        Some(p) => Some(p as int),
                        None => None::<int>,
                    }) == parent_of(lv, k),
                forall|k: int| 0 <= k < i ==> #[trigger] depths@[k] == depth_of(lv, k),
                forall|k: int|
                    0 <= k < i ==> match #[trigger] parents@[k] {
                        Some(p) => p < k && depths@[k] == depths@[p as int] + 1,
                        None => depths@[k] == 0,
                    },
            decreases headings@.len() - i,
        {
            let level = headings[i].level;
            assert(lv[i as int] == level);
            proof {
                if stack.len() > 0 {
                    assert(stack@[0] < i);
                    assert(stack@.last() == i - 1);
                }
            }
            while stack.len() > 0 && headings[stack[stack.len() - 1]].level >= level
                invariant
                    i < headings@.len(),
                    lv == levels(headings@),
                    lv.len() == headings@.len(),
                    level == lv[i as int],
                    stack_core(lv, stack@),
                    forall|t: int| 0 <= t < stack.len() ==> #[trigger] stack@[t] < i,
                    forall|m: int|
                        (if stack.len() > 0 {
                            stack@.last() as int
                        } else {
                            -1
                        }) < m < i ==> #[trigger] lv[m] >= level,
                    stack.len() <= i,
                decreases stack.len(),
            {
                let ghost old_stack = stack@;
                proof {
                    assert(lv[stack@.last() as int] == headings@[stack@.last() as int].level);
                    lemma_pop(lv, old_stack, i as int, level);
                }
                let _top = stack.pop();
            }
            let parent = if stack.len() > 0 {
                Some(stack[stack.len() - 1])
            } else {
                None
            };
            let depth = stack.len();
            proof {
                lemma_push(lv, stack@, i as int);
                match parent {
                    Some(p) => {
                        assert(depths@[p as int] == depth_of(lv, p as int));
                    },
                    None => {},
                }
            }
            parents.push(parent);
            depths.push(depth);
            stack.push(i);
            i = i + 1;
        }
        Tree { depths, parents }
    }

    pub open spec fn len_spec(&self) -> nat {
        self.parents_view().len()
    }

    /// How many headings the tree has.
    pub fn len(&self) -> (r: usize)
        ensures
            r == self.len_spec(),
    {
        proof {
            use_type_invariant(self);
        }
        self.depths.len()
    }

    pub open spec fn parent_spec(&self, i: int) -> Option<usize> {
        if 0 <= i < self.parents_view().len() {
            self.parents_view()[i]
        } else {
            None
        }
    }

    /// The parent of heading `i`, if it has one.
    pub fn parent(&self, i: usize) -> (r: Option<usize>)
        ensures
            r == self.parent_spec(i as int),
            r matches Some(p) ==> p < i,
    {
        proof {
            use_type_invariant(self);
        }
        if i < self.parents.len() {
            self.parents[i]
        } else {
            None
        }
    }

    pub open spec fn has_children_spec(&self, i: int) -> bool {
        0 <= i && i + 1 < self.parents_view().len() && self.parents_view()[i + 1] == Some(
            i as usize,
        )
    }

    /// The tree was built from headings `hs`: each parent is the one `parent_of` names.
    pub open spec fn built_from(&self, hs: Seq<Heading>) -> bool {
        &&& self.parents_view().len() == hs.len()
        &&& forall|k: int|
            0 <= k < hs.len() ==> (match #[trigger] self.parents_view()[k] {
                Some(p) => Some(p as int),
                None => None::<int>,
            }) == parent_of(levels(hs), k)
    }

    /// A heading's parent is the last heading before it of a lower level, and it has none
    /// when no heading before it is of a lower level.
    pub proof fn law_parent_is_last_lower_heading(&self, hs: Seq<Heading>, i: int)
        requires
            self.built_from(hs),
            0 <= i < hs.len(),
        ensures
            self.parent_spec(i) matches Some(p) ==> p < i && hs[p as int].level < hs[i].level
                && forall|j: int| p < j < i ==> hs[j].level >= hs[i].level,
            self.parent_spec(i) is None ==> forall|j: int| 0 <= j < i ==> hs[j].level >= hs[i].level,
    {
        let lv = levels(hs);
        assert forall|j: int| 0 <= j < hs.len() implies lv[j] == (#[trigger] hs[j]).level by {}
        lemma_prev_smaller(lv, lv[i], i);
        assert(self.parents_view()[i] matches Some(p) ==> Some(p as int) == parent_of(lv, i));
    }

    /// A heading has children exactly when some heading's parent is it.
    pub proof fn law_children_are_those_whose_parent_it_is(&self, hs: Seq<Heading>, i: usize)
        requires
            self.built_from(hs),
        ensures
            self.has_children_spec(i as int) <==> exists|j: int|
                0 <= j < self.len_spec() && #[trigger] self.parent_spec(j) == Some(i),
    {
        let lv = levels(hs);
        assert forall|j: int| 0 <= j < hs.len() implies lv[j] == (#[trigger] hs[j]).level by {}
        if self.has_children_spec(i as int) {
            assert(self.parent_spec(i + 1) == Some(i));
        }
        if exists|j: int| 0 <= j < self.len_spec() && #[trigger] self.parent_spec(j) == Some(i) {
            let j = choose|j: int| 0 <= j < self.len_spec() && #[trigger] self.parent_spec(j) == Some(i);
            self.law_parent_is_last_lower_heading(hs, j);
            assert(i < j);
            if i + 1 < j {
                assert(hs[i + 1].level >= hs[j].level);
                lemma_prev_smaller_is(lv, lv[i + 1], i + 1, Some(i as int));
                assert(self.parents_view()[i + 1] matches Some(p) && p == i);
            }
        }
    }

    /// Whether heading `i` has a child: the next heading is its child.
    pub fn has_children(&self, i: usize) -> (r: bool)
        ensures
            r == self.has_children_spec(i as int),
    {
        if i < self.parents.len() && i + 1 < self.parents.len() {
            match self.parents[i + 1] {
                Some(p) => p == i,
                None => false,
            }
        } else {
            false
        }
    }

    /// Walking up from `cursor`, the highest collapsed ancestor seen, or `shown`.
    pub open spec fn shown_from(&self, cursor: Option<usize>, shown: int, collapsed: Set<usize>) -> int
        decreases (match cursor {
            Some(p) => p + 1,
            None => 0,
        }),
    {
        match cursor {
            None => shown,
            Some(p) => {
                let next = self.parent_spec(p as int);
                if next matches Some(q) && q >= p {
                    shown
                } else {
                    self.shown_from(next, if collapsed.contains(p) { p as int } else { shown }, collapsed)
                }
            },
        }
    }

    /// The row that stands for heading `i`: `i` itself, or its highest collapsed ancestor.
    pub open spec fn visible_ancestor_spec(&self, i: int, collapsed: Set<usize>) -> int {
        self.shown_from(self.parent_spec(i), i, collapsed)
    }

    /// The heading whose row shows `i`: `i`, or the highest collapsed section holding it.
    pub fn visible_ancestor(&self, i: usize, collapsed: &HashSet<usize>) -> (r: usize)
        ensures
            r as int == self.visible_ancestor_spec(i as int, collapsed@),
    {
        proof {
            use_type_invariant(self);
        }
        let mut shown = i;
        let mut cursor = self.parent(i);
        while cursor.is_some()
            invariant
                self.visible_ancestor_spec(i as int, collapsed@) == self.shown_from(
                    cursor,
                    shown as int,
                    collapsed@,
                ),
            decreases (match cursor {
                Some(p) => p + 1,
                None => 0,
            }),
        {
            let p = cursor.unwrap();
            if collapsed.contains(&p) {
                shown = p;
            }
            cursor = self.parent(p);
        }
        shown
    }
}

/// The first position at or after `from` whose depth is at most `d`.
pub open spec fn first_not_deeper(depths: Seq<usize>, d: usize, from: int) -> Option<int>
    decreases depths.len() - from,
{
    if from < 0 || from >= depths.len() {
        None
    } else if depths[from] <= d {
        Some(from)
    } else {
        first_not_deeper(depths, d, from + 1)
    }
}

/// Whether a sibling of heading `i` follows it: the next heading not deeper than `i` is at
/// `i`'s depth.
pub open spec fn later_sibling(depths: Seq<usize>, i: int) -> bool {
    match first_not_deeper(depths, depths[i], i + 1) {
        Some(k) => depths[k] == depths[i],
        None => false,
    }
}

/// The last position before `upto` at depth `level`.
pub open spec fn last_at_level(depths: Seq<usize>, level: usize, upto: int) -> Option<int>
    decreases upto,
{
    if upto <= 0 {
        None
    } else if depths[upto - 1] == level {
        Some(upto - 1)
    } else {
        last_at_level(depths, level, upto - 1)
    }
}

/// The guide drawn for `level` in the row of heading `i`: a line while that level's section
/// continues below, blank otherwise.
pub open spec fn guide(depths: Seq<usize>, i: int, level: usize) -> Seq<char> {
    match last_at_level(depths, level, i) {
        Some(a) => if later_sibling(depths, a) {
            "│ "@
        } else {
            "  "@
        },
        None => "  "@,
    }
}

/// The guides for levels `1..upto`.
pub open spec fn guides(depths: Seq<usize>, i: int, upto: int) -> Seq<char>
    decreases upto,
{
    if upto <= 1 {
        seq![]
    } else {
        guides(depths, i, upto - 1) + guide(depths, i, (upto - 1) as usize)
    }
}

/// The tree drawing before heading `i`'s text: guides for its ancestors' levels, then a
/// branch (`├ `) or the last branch (`└ `) unless it is a root.
pub open spec fn prefix_spec(depths: Seq<usize>, i: int) -> Seq<char> {
    guides(depths, i, depths[i] as int) + if depths[i] > 0 {
        if later_sibling(depths, i) {
            "├ "@
        } else {
            "└ "@
        }
    } else {
        seq![]
    }
}

/// The fold marker: none without children, open or closed otherwise.
pub open spec fn marker_spec(has_children: bool, collapsed: bool) -> Seq<char> {
    if !has_children {
        "  "@
    } else if !collapsed {
        "▾ "@
    } else {
        "▸ "@
    }
}

impl Tree {
    /// The headings before `n` that are shown as rows: those no collapsed section hides.
    pub open spec fn visible_upto(&self, collapsed: Set<usize>, n: int) -> Seq<usize>
        decreases n,
    {
        if n <= 0 {
            seq![]
        } else if self.visible_ancestor_spec(n - 1, collapsed) == n - 1 {
            self.visible_upto(collapsed, n - 1).push((n - 1) as usize)
        } else {
            self.visible_upto(collapsed, n - 1)
        }
    }

    /// What the row of heading `row.index` shows.
    pub open spec fn row_spec(&self, row: Row, collapsed: Set<usize>) -> bool {
        let i = row.index as int;
        &&& row.prefix@ == prefix_spec(self.depths_view(), i)
        &&& row.has_children == self.has_children_spec(i)
        &&& row.collapsed == (self.has_children_spec(i) && collapsed.contains(row.index))
        &&& row.marker@ == marker_spec(row.has_children, row.collapsed)
    }

    fn has_later_sibling(&self, i: usize) -> (r: bool)
        requires
            i < self.len_spec(),
        ensures
            r == later_sibling(self.depths_view(), i as int),
    {
        proof {
            use_type_invariant(self);
        }
        let d = self.depths[i];
        let mut k = i + 1;
        while k < self.depths.len()
            invariant
                i < k,
                self.depths@.len() == self.len_spec(),
                d == self.depths@[i as int],
                first_not_deeper(self.depths@, d, i + 1) == first_not_deeper(
                    self.depths@,
                    d,
                    k as int,
                ),
            decreases self.depths.len() - k,
        {
            if self.depths[k] <= d {
                return self.depths[k] == d;
            }
            k = k + 1;
        }
        false
    }

    fn last_at(&self, level: usize, upto: usize) -> (r: Option<usize>)
        requires
            upto <= self.depths_view().len(),
        ensures
            r matches Some(a) ==> a < upto && last_at_level(self.depths_view(), level, upto as int)
                == Some(a as int),
            r is None ==> last_at_level(self.depths_view(), level, upto as int) is None,
    {
        let mut j = upto;
        while j > 0
            invariant
                j <= upto <= self.depths@.len(),
                last_at_level(self.depths@, level, upto as int) == last_at_level(
                    self.depths@,
                    level,
                    j as int,
                ),
            decreases j,
        {
            if self.depths[j - 1] == level {
                return Some(j - 1);
            }
            j = j - 1;
        }
        None
    }

    fn row_prefix(&self, i: usize) -> (r: String)
        requires
            i < self.len_spec(),
        ensures
            r@ == prefix_spec(self.depths_view(), i as int),
    {
        proof {
            use_type_invariant(self);
        }
        let ghost ds = self.depths@;
        let depth = self.depths[i];
        let mut prefix = String::new();
        let mut level: usize = 1;
        assert(prefix@ =~= guides(ds, i as int, 1));
        while level < depth
            invariant
                1 <= level,
                level <= depth || depth == 0,
                depth == 0 ==> level == 1,
                ds == self.depths@,
                ds.len() == self.len_spec(),
                i < ds.len(),
                depth == ds[i as int],
                prefix@ == guides(ds, i as int, level as int),
            decreases depth - level,
        {
            let found = self.last_at(level, i);
            let open = match found {
                Some(a) => self.has_later_sibling(a),
                None => false,
            };
            assert(found matches Some(a) ==> last_at_level(ds, level, i as int) == Some(a as int));
            assert(found is None ==> last_at_level(ds, level, i as int) is None);
            if open {
                prefix.append("│ ");
            } else {
                prefix.append("  ");
            }
            level = level + 1;
        }
        assert(prefix@ == guides(ds, i as int, depth as int));
        if depth > 0 {
            if self.has_later_sibling(i) {
                prefix.append("├ ");
            } else {
                prefix.append("└ ");
            }
        }
        assert(prefix@ =~= prefix_spec(ds, i as int));
        prefix
    }

    /// The outline rows: every heading no collapsed section hides, in order, with its tree
    /// guides and fold marker.
    pub fn rows(&self, collapsed: &HashSet<usize>) -> (r: Vec<Row>)
        ensures
            r@.len() == self.visible_upto(collapsed@, self.len_spec() as int).len(),
            forall|k: int|
                0 <= k < r@.len() ==> #[trigger] r@[k].index == self.visible_upto(
                    collapsed@,
                    self.len_spec() as int,
                )[k] && self.row_spec(r@[k], collapsed@),
    {
        let n = self.len();
        let mut out: Vec<Row> = Vec::new();
        let mut i: usize = 0;
        while i < n
            invariant
                i <= n,
                n == self.len_spec(),
                out@.len() == self.visible_upto(collapsed@, i as int).len(),
                forall|k: int|
                    0 <= k < out@.len() ==> #[trigger] out@[k].index == self.visible_upto(
                        collapsed@,
                        i as int,
                    )[k] && self.row_spec(out@[k], collapsed@),
            decreases n - i,
        {
            if self.visible_ancestor(i, collapsed) == i {
                let prefix = self.row_prefix(i);
                let has_children = self.has_children(i);
                let is_collapsed = has_children && collapsed.contains(&i);
                let marker = if !has_children {
                    "  "
                } else if !is_collapsed {
                    "▾ "
                } else {
                    "▸ "
                };
                out.push(Row { index: i, prefix, marker, has_children, collapsed: is_collapsed });
            }
            i = i + 1;
        }
        out
    }
}

impl Tree {
    /// Whether a collapsed heading sits on the chain of ancestors from `cursor` up.
    pub open spec fn collapsed_above(&self, cursor: Option<usize>, collapsed: Set<usize>) -> bool
        decreases (match cursor {
            Some(p) => p + 1,
            None => 0,
        }),
    {
        match cursor {
            None => false,
            Some(p) => {
                let next = self.parent_spec(p as int);
                if next matches Some(q) && q >= p {
                    collapsed.contains(p)
                } else {
                    collapsed.contains(p) || self.collapsed_above(next, collapsed)
                }
            },
        }
    }

    proof fn lemma_shown_from(&self, cursor: Option<usize>, shown: int, collapsed: Set<usize>)
        requires
            self.valid(),
            cursor matches Some(p) ==> p < shown,
        ensures
            !self.collapsed_above(cursor, collapsed) ==> self.shown_from(cursor, shown, collapsed)
                == shown,
            self.collapsed_above(cursor, collapsed) ==> {
                let r = self.shown_from(cursor, shown, collapsed);
                &&& 0 <= r < shown
                &&& collapsed.contains(r as usize)
                &&& !self.collapsed_above(self.parent_spec(r), collapsed)
            },
        decreases (match cursor {
            Some(p) => p + 1,
            None => 0,
        }),
    {
        self.lemma_valid();
        match cursor {
            None => {},
            Some(p) => {
                let next = self.parent_spec(p as int);
                let s2 = if collapsed.contains(p) {
                    p as int
                } else {
                    shown
                };
                match next {
                    Some(q) => {
                        assert(q < p);
                    },
                    None => {},
                }
                self.lemma_shown_from(next, s2, collapsed);
                if !self.collapsed_above(next, collapsed) && collapsed.contains(p) {
                    assert(self.shown_from(cursor, shown, collapsed) == p);
                }
            },
        }
    }

    /// A heading has its own row exactly when no section above it is collapsed.
    pub proof fn law_row_shown_iff_no_collapsed_ancestor(&self, i: usize, collapsed: Set<usize>)
        requires
            self.valid(),
            i < self.len_spec(),
        ensures
            (self.visible_ancestor_spec(i as int, collapsed) == i) <==> !self.collapsed_above(
                self.parent_spec(i as int),
                collapsed,
            ),
    {
        self.lemma_valid();
        self.lemma_shown_from(self.parent_spec(i as int), i as int, collapsed);
    }

    /// The row that stands for a hidden heading is a collapsed section that is itself shown.
    pub proof fn law_standing_row_is_shown(&self, i: usize, collapsed: Set<usize>)
        requires
            self.valid(),
            i < self.len_spec(),
        ensures
            ({
                let v = self.visible_ancestor_spec(i as int, collapsed);
                &&& 0 <= v <= i
                &&& self.visible_ancestor_spec(v, collapsed) == v
                &&& v != i ==> collapsed.contains(v as usize)
            }),
    {
        self.lemma_valid();
        let c = self.parent_spec(i as int);
        self.lemma_shown_from(c, i as int, collapsed);
        let v = self.visible_ancestor_spec(i as int, collapsed);
        if v != i {
            self.lemma_shown_from(self.parent_spec(v), v, collapsed);
        } else {
            self.lemma_shown_from(c, i as int, collapsed);
        }
    }
}

impl Default for Tree {
    fn default() -> (r: Self)
        ensures
            r.len_spec() == 0,
            r.valid(),
    {
        Tree { depths: Vec::new(), parents: Vec::new() }
    }
}

} // verus!
