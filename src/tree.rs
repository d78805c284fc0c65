use crate::board::{Markup, Stone};
use vstd::prelude::*;

verus! {

/// Something that happened in a game.
#[derive(Clone, PartialEq, Eq, Debug)]
pub enum Event {
    /// The root of every history.
    Start,
    Pass,
    /// The colour that resigned.
    Resign(Stone),
    /// The player to move plays at the point.
    Move(usize, usize),
    /// A stone of the colour is put down, as when setting up a position.
    Place(Stone, usize, usize),
    Mark(Markup, usize, usize),
}

impl Event {
    /// A copy that is equal to `self`.
    pub fn duplicate(&self) -> (r: Event)
        ensures
            r == *self,
    {
        match self {
            Event::Start => Event::Start,
            Event::Pass => Event::Pass,
            Event::Resign(s) => Event::Resign(*s),
            Event::Move(x, y) => Event::Move(*x, *y),
            Event::Place(s, x, y) => Event::Place(*s, *x, *y),
            Event::Mark(m, x, y) => Event::Mark(m.duplicate(), *x, *y),
        }
    }
}

/// One node of the history: an event and the positions of its children in
/// the tree's arena, in order.
pub struct EventNode {
    pub event: Event,
    pub children: Vec<usize>,
}

impl EventNode {
    pub fn new(e: Event) -> (r: EventNode)
        ensures
            r.event == e,
            r.children@.len() == 0,
    {
        EventNode { event: e, children: Vec::new() }
    }

    /// The arena position of child `i`, if there is one.
    pub fn get_child(&self, i: usize) -> (r: Option<usize>)
        ensures
            r == if i < self.children@.len() {
                Some(self.children@[i as int])
            } else {
                None
            },
    {
        if i < self.children.len() {
            Some(self.children[i])
        } else {
            None
        }
    }
}

fn copy_indices(v: &Vec<usize>) -> (r: Vec<usize>)
    ensures
        r@ == v@,
{
    let mut r: Vec<usize> = Vec::with_capacity(v.len());
    let mut i: usize = 0;
    while i < v.len()
        invariant
            i <= v@.len(),
            r@ == v@.subrange(0, i as int),
        decreases v@.len() - i,
    {
        r.push(v[i]);
        i += 1;
        assert(r@ =~= v@.subrange(0, i as int));
    }
    assert(v@.subrange(0, v@.len() as int) =~= v@);
    r
}

/// A branching history of events: an arena of nodes, the root at position
/// 0, and a current path of child choices from the root.
pub struct EventTree {
    nodes: Vec<EventNode>,
    /// The child chosen at each level, from the root down.
    path: Vec<usize>,
    /// The arena positions of the nodes along the path, the root first.
    trail: Vec<usize>,
}

impl EventTree {
    /// Children come after their parent in the arena, and the trail follows
    /// the path from the root.
    pub closed spec fn wf(&self) -> bool {
        &&& self.nodes@.len() >= 1
        &&& forall|i: int, j: int|
            0 <= i < self.nodes@.len() && 0 <= j < self.nodes@[i].children@.len() ==> i
                < #[trigger] self.nodes@[i].children@[j] < self.nodes@.len()
        &&& self.trail@.len() == self.path@.len() + 1
        &&& self.trail@[0] == 0
        &&& forall|k: int| 0 <= k <= self.path@.len() ==> #[trigger] self.trail@[k] < self.nodes@.len()
        &&& forall|k: int|
            0 <= k < self.path@.len() ==> #[trigger] self.path@[k] < self.nodes@[self.trail@[k] as int].children@.len()
                && self.trail@[k + 1] == self.nodes@[self.trail@[k] as int].children@[self.path@[k] as int]
        &&& forall|a: int, b: int| 0 <= a < b <= self.path@.len() ==> #[trigger] self.trail@[a] < #[trigger] self.trail@[b]
        &&& forall|i: int, j: int, i2: int, j2: int|
            0 <= i < self.nodes@.len() && 0 <= j < self.nodes@[i].children@.len() && 0 <= i2 < self.nodes@.len() && 0
                <= j2 < self.nodes@[i2].children@.len() && #[trigger] self.nodes@[i].children@[j]
                == #[trigger] self.nodes@[i2].children@[j2] ==> i == i2 && j == j2
    }

    /// Every node of the arena: its event and the positions of its children.
    pub closed spec fn arena(&self) -> Seq<(Event, Seq<usize>)> {
        Seq::new(self.nodes@.len(), |i: int| (self.nodes@[i].event, self.nodes@[i].children@))
    }

    /// The arena position of the current node.
    pub closed spec fn current(&self) -> int {
        self.trail@[self.path@.len() as int] as int
    }

    /// The arena position of the current node's parent, at depth one or more.
    pub closed spec fn parent(&self) -> int {
        self.trail@[self.path@.len() - 1] as int
    }

    /// The child chosen at each level, from the root down.
    pub closed spec fn path(&self) -> Seq<usize> {
        self.path@
    }

    /// The events from the root's first child down to the current node.
    pub closed spec fn history(&self) -> Seq<Event> {
        Seq::new(self.path@.len(), |k: int| self.nodes@[self.trail@[k + 1] as int].event)
    }

    spec fn kids(&self, id: int) -> Seq<Event> {
        Seq::new(self.nodes@[id].children@.len(), |j: int| self.nodes@[self.nodes@[id].children@[j] as int].event)
    }

    /// There is one event in the history for each step of the path.
    pub proof fn lemma_history_len(&self)
        ensures
            self.history().len() == self.path().len(),
    {
    }

    /// The events of the current node's children, in order.
    pub closed spec fn child_events(&self) -> Seq<Event> {
        self.kids(self.trail@[self.path@.len() as int] as int)
    }

    /// The events of the current node and its siblings, in order; empty at
    /// the root.
    pub closed spec fn sibling_events(&self) -> Seq<Event> {
        if self.path@.len() == 0 {
            Seq::empty()
        } else {
            self.kids(self.trail@[self.path@.len() - 1] as int)
        }
    }

    /// A tree with nothing but `Event::Start` at the root.
    pub fn blank() -> (r: EventTree)
        ensures
            r.wf(),
            r.path().len() == 0,
            r.history().len() == 0,
            r.child_events().len() == 0,
    {
        let mut nodes: Vec<EventNode> = Vec::new();
        nodes.push(EventNode::new(Event::Start));
        let mut trail: Vec<usize> = Vec::new();
        trail.push(0);
        EventTree { nodes, path: Vec::new(), trail }
    }

    /// The events from the root down to the current node, the root's own
    /// `Start` left out: what is replayed to rebuild the board.
    pub fn get_history(&self) -> (r: Vec<Event>)
        requires
            self.wf(),
        ensures
            r@ == self.history(),
    {
        let mut v: Vec<Event> = Vec::new();
        let mut k: usize = 0;
        while k < self.path.len()
            invariant
                self.wf(),
                k <= self.path@.len(),
                v@ == self.history().subrange(0, k as int),
            decreases self.path@.len() - k,
        {
            let id = self.trail[k + 1];
            v.push(self.nodes[id].event.duplicate());
            k += 1;
            assert(v@ =~= self.history().subrange(0, k as int));
        }
        assert(self.history().subrange(0, self.path@.len() as int) =~= self.history());
        v
    }

    /// Adds `e` as the last child of the current node and moves into it.
    pub fn push(&mut self, e: Event)
        requires
            old(self).wf(),
        ensures
            final(self).wf(),
            final(self).path() == old(self).path().push(old(self).child_events().len() as usize),
            final(self).history() == old(self).history().push(e),
            final(self).sibling_events() == old(self).child_events().push(e),
            final(self).child_events().len() == 0,
            final(self).current() == old(self).arena().len(),
            final(self).arena() == old(self).arena().update(
                old(self).current(),
                (
                    old(self).arena()[old(self).current()].0,
                    old(self).arena()[old(self).current()].1.push(old(self).arena().len() as usize),
                ),
            ).push((e, Seq::empty())),
    {
        let m = self.path.len();
        let cur = self.trail[m];
        let last = self.nodes[cur].children.len();
        let new_id = self.nodes.len();
        let mut kids = copy_indices(&self.nodes[cur].children);
        kids.push(new_id);
        let ev = self.nodes[cur].event.duplicate();
        let ghost old_nodes = self.nodes@;
        self.nodes.set(cur, EventNode { event: ev, children: kids });
        self.nodes.push(EventNode::new(e));
        self.path.push(last);
        self.trail.push(new_id);
        proof {
            assert forall|k: int| 0 <= k < m implies #[trigger] self.trail@[k] != cur by {
                assert(self.trail@[k] < self.trail@[m as int]);
            }
            assert forall|i: int| 0 <= i < old_nodes.len() && i != cur implies #[trigger] self.nodes@[i] == old_nodes[i] by {}
            assert(self.history() =~= old(self).history().push(e));
            assert(self.sibling_events() =~= old(self).child_events().push(e));
            assert forall|i: int, j: int, i2: int, j2: int|
                0 <= i < self.nodes@.len() && 0 <= j < self.nodes@[i].children@.len() && 0 <= i2 < self.nodes@.len() && 0
                    <= j2 < self.nodes@[i2].children@.len() && #[trigger] self.nodes@[i].children@[j]
                    == #[trigger] self.nodes@[i2].children@[j2] implies i == i2 && j == j2 by {
                if i != cur && i < old_nodes.len() {
                    assert(self.nodes@[i].children@[j] == old_nodes[i].children@[j]);
                }
                if i2 != cur && i2 < old_nodes.len() {
                    assert(self.nodes@[i2].children@[j2] == old_nodes[i2].children@[j2]);
                }
                if i == cur && j < last {
                    assert(self.nodes@[i].children@[j] == old_nodes[i].children@[j]);
                }
                if i2 == cur && j2 < last {
                    assert(self.nodes@[i2].children@[j2] == old_nodes[i2].children@[j2]);
                }
            }
            assert(self.nodes@[new_id as int].children@ =~= Seq::<usize>::empty());
            assert(self.nodes@[cur as int].children@ =~= old_nodes[cur as int].children@.push(new_id));
            assert(self.arena() =~= old(self).arena().update(
                cur as int,
                (old(self).arena()[cur as int].0, old(self).arena()[cur as int].1.push(new_id)),
            ).push((e, Seq::empty())));
        }
    }

    /// Removes the current node from its parent's children, moves to the
    /// parent, and returns the removed event; `None` at the root.
    pub fn pop(&mut self) -> (r: Option<Event>)
        requires
            old(self).wf(),
        ensures
            final(self).wf(),
            old(self).path().len() == 0 ==> r is None && *final(self) == *old(self),
            old(self).path().len() > 0 ==> {
                &&& r == Some(old(self).history().last())
                &&& final(self).path() == old(self).path().drop_last()
                &&& final(self).history() == old(self).history().drop_last()
                &&& final(self).child_events() == old(self).sibling_events().remove(
                    old(self).path().last() as int,
                )
                &&& final(self).current() == old(self).parent()
                &&& ({
                    let cur = old(self).current();
                    let p = old(self).parent();
                    let a = old(self).arena();
                    let kept = a.update(p, (a[p].0, a[p].1.remove(old(self).path().last() as int)));
                    &&& a[cur].1.len() == 0 && cur == a.len() - 1 ==> final(self).arena() == kept.drop_last()
                    &&& !(a[cur].1.len() == 0 && cur == a.len() - 1) ==> final(self).arena() == kept
                })
            },
    {
        if self.path.len() == 0 {
            return None;
        }
        let last_idx = self.path.pop().unwrap();
        let removed = self.trail.pop().unwrap();
        let m = self.path.len();
        let parent = self.trail[m];
        let ev = self.nodes[removed].event.duplicate();
        let mut kids = copy_indices(&self.nodes[parent].children);
        kids.remove(last_idx);
        let pev = self.nodes[parent].event.duplicate();
        let ghost old_nodes = self.nodes@;
        self.nodes.set(parent, EventNode { event: pev, children: kids });
        proof {
            assert(old(self).trail@[m as int] == parent);
            assert forall|k: int| 0 <= k < m implies #[trigger] self.trail@[k] != parent by {
                assert(old(self).trail@[k] < old(self).trail@[m as int]);
            }
            assert forall|i: int, j: int|
                0 <= i < self.nodes@.len() && 0 <= j < self.nodes@[i].children@.len() implies i
                    < #[trigger] self.nodes@[i].children@[j] < self.nodes@.len() by {
                if i == parent {
                    if j < last_idx {
                        assert(self.nodes@[i].children@[j] == old_nodes[i].children@[j]);
                    } else {
                        assert(self.nodes@[i].children@[j] == old_nodes[i].children@[j + 1]);
                    }
                }
            }
            assert(self.history() =~= old(self).history().drop_last());
            assert(self.child_events() =~= old(self).sibling_events().remove(last_idx as int));
            assert(old_nodes[parent as int].children@[last_idx as int] == removed);
            assert forall|i: int, j: int, i2: int, j2: int|
                0 <= i < self.nodes@.len() && 0 <= j < self.nodes@[i].children@.len() && 0 <= i2 < self.nodes@.len() && 0
                    <= j2 < self.nodes@[i2].children@.len() && #[trigger] self.nodes@[i].children@[j]
                    == #[trigger] self.nodes@[i2].children@[j2] implies i == i2 && j == j2 by {
                let oj = if i == parent && j >= last_idx { j + 1 } else { j };
                let oj2 = if i2 == parent && j2 >= last_idx { j2 + 1 } else { j2 };
                assert(self.nodes@[i].children@[j] == old_nodes[i].children@[oj]);
                assert(self.nodes@[i2].children@[j2] == old_nodes[i2].children@[oj2]);
            }
            assert forall|i: int, j: int|
                0 <= i < self.nodes@.len() && 0 <= j < self.nodes@[i].children@.len() implies #[trigger] self.nodes@[i].children@[j]
                    != removed by {
                let oj = if i == parent && j >= last_idx { j + 1 } else { j };
                assert(self.nodes@[i].children@[j] == old_nodes[i].children@[oj]);
            }
            assert(self.arena() =~= old(self).arena().update(
                parent as int,
                (old(self).arena()[parent as int].0, old(self).arena()[parent as int].1.remove(last_idx as int)),
            ));
        }
        if self.nodes[removed].children.len() == 0 && removed == self.nodes.len() - 1 {
            let ghost before = self.nodes@;
            self.nodes.pop();
            proof {
                assert forall|i: int, j: int|
                    0 <= i < self.nodes@.len() && 0 <= j < self.nodes@[i].children@.len() implies i
                        < #[trigger] self.nodes@[i].children@[j] < self.nodes@.len() by {
                    assert(self.nodes@[i] == before[i]);
                    assert(before[i].children@[j] != removed);
                }
                assert forall|k: int| 0 <= k <= self.path@.len() implies #[trigger] self.trail@[k] < self.nodes@.len() by {
                    assert(old(self).trail@[k] < old(self).trail@[m + 1]);
                }
                assert forall|k: int| 0 <= k < self.path@.len() implies #[trigger] self.path@[k]
                    < self.nodes@[self.trail@[k] as int].children@.len() && self.trail@[k + 1]
                    == self.nodes@[self.trail@[k] as int].children@[self.path@[k] as int] by {
                    assert(old(self).trail@[k] < old(self).trail@[m + 1]);
                }
                assert(self.arena() =~= old(self).arena().update(
                    parent as int,
                    (old(self).arena()[parent as int].0, old(self).arena()[parent as int].1.remove(last_idx as int)),
                ).drop_last());
                assert(self.history() =~= old(self).history().drop_last());
                assert(self.child_events() =~= old(self).sibling_events().remove(last_idx as int));
            }
        }
        Some(ev)
    }

    /// Moves to the parent; nothing happens at the root.
    pub fn move_to_parent(&mut self)
        requires
            old(self).wf(),
        ensures
            final(self).wf(),
            old(self).path().len() == 0 ==> *final(self) == *old(self),
            old(self).path().len() > 0 ==> final(self).path() == old(self).path().drop_last() && final(self).history()
                == old(self).history().drop_last(),
    {
        if self.path.len() > 0 {
            self.path.pop();
            self.trail.pop();
            assert(self.history() =~= old(self).history().drop_last());
        }
    }

    /// Moves to the first child; nothing happens at a leaf.
    pub fn move_to_first_child(&mut self)
        requires
            old(self).wf(),
        ensures
            final(self).wf(),
            old(self).child_events().len() == 0 ==> *final(self) == *old(self),
            old(self).child_events().len() > 0 ==> final(self).path() == old(self).path().push(0) && final(self).history()
                == old(self).history().push(old(self).child_events()[0]),
    {
        let m = self.path.len();
        let cur = self.trail[m];
        if self.nodes[cur].children.len() > 0 {
            let id = self.nodes[cur].children[0];
            self.path.push(0);
            self.trail.push(id);
            assert(self.history() =~= old(self).history().push(old(self).child_events()[0]));
        }
    }

    /// Moves to the previous sibling; nothing happens at the root or on a
    /// first child.
    pub fn move_to_last_sibling(&mut self)
        requires
            old(self).wf(),
        ensures
            final(self).wf(),
            old(self).path().len() == 0 || old(self).path().last() == 0 ==> *final(self) == *old(self),
            old(self).path().len() > 0 && old(self).path().last() > 0 ==> {
                let m = old(self).path().len() - 1;
                let l = old(self).path().last();
                &&& final(self).path() == old(self).path().update(m, (l - 1) as usize)
                &&& final(self).history() == old(self).history().update(m, old(self).sibling_events()[l - 1])
            },
    {
        let n = self.path.len();
        if n == 0 {
            return;
        }
        let m = n - 1;
        let l = self.path[m];
        if l == 0 {
            return;
        }
        let parent = self.trail[m];
        let id = self.nodes[parent].children[l - 1];
        self.path.set(m, l - 1);
        self.trail.set(m + 1, id);
        proof {
            assert forall|a: int, b: int| 0 <= a < b <= self.path@.len() implies #[trigger] self.trail@[a]
                < #[trigger] self.trail@[b] by {
                if b == n {
                    assert(old(self).trail@[a] <= old(self).trail@[m as int]);
                }
            }
            assert(self.history() =~= old(self).history().update(m as int, old(self).sibling_events()[l - 1]));
        }
    }

    /// Moves to the next sibling; nothing happens at the root or on a last
    /// child.
    pub fn move_to_next_sibling(&mut self)
        requires
            old(self).wf(),
        ensures
            final(self).wf(),
            old(self).path().len() == 0 || old(self).path().last() + 1 >= old(self).sibling_events().len()
                ==> *final(self) == *old(self),
            old(self).path().len() > 0 && old(self).path().last() + 1 < old(self).sibling_events().len() ==> {
                let m = old(self).path().len() - 1;
                let l = old(self).path().last();
                &&& final(self).path() == old(self).path().update(m, (l + 1) as usize)
                &&& final(self).path()[m] == l + 1
                &&& final(self).history() == old(self).history().update(m, old(self).sibling_events()[l + 1])
            },
    {
        let n = self.path.len();
        if n == 0 {
            return;
        }
        let m = n - 1;
        let l = self.path[m];
        let parent = self.trail[m];
        let len = self.nodes[parent].children.len();
        assert(l < len);
        if l + 1 >= len {
            return;
        }
        let id = self.nodes[parent].children[l + 1];
        self.path.set(m, l + 1);
        self.trail.set(m + 1, id);
        proof {
            assert forall|a: int, b: int| 0 <= a < b <= self.path@.len() implies #[trigger] self.trail@[a]
                < #[trigger] self.trail@[b] by {
                if b == n {
                    assert(old(self).trail@[a] <= old(self).trail@[m as int]);
                }
            }
            assert(self.history() =~= old(self).history().update(m as int, old(self).sibling_events()[l + 1]));
        }
    }

    /// The number of children of the current node.
    pub fn num_children(&self) -> (r: usize)
        requires
            self.wf(),
        ensures
            r == self.child_events().len(),
    {
        let cur = self.trail[self.path.len()];
        self.nodes[cur].children.len()
    }
}

} // verus!
