//! Tree nodes: identity, style state, one polymorphic implementation each,
//! shared ownership with weak parent links, deterministic foreign teardown,
//! and the per-node parse-result channel.

use vstd::prelude::*;

verus! {

use crate::attribute::AttributeBag;
use crate::filter::{parse_attributes_v, SubregionAttr};
use crate::flood::Flood;
use crate::style::StyleValues;

/// A per-node parse failure, recorded on the node and never fatal to the
/// rest of the tree.
#[derive(Clone, Copy, PartialEq, Eq, Structural, Debug)]
pub enum ParseError {
    /// A subregion attribute did not hold an integer in range.
    InvalidNumber(SubregionAttr),
    /// A foreign attribute setter reported a failure.
    Foreign,
}

/// The outcome of setting a node's attributes.
pub type NodeResult = Result<(), ParseError>;

/// The element kind a node was created for.
#[derive(Clone, Copy, PartialEq, Eq, Structural, Debug)]
pub enum NodeType {
    /// A flood filter primitive element.
    FeFlood,
    /// An element whose behaviour is supplied by foreign code.
    Foreign,
}

/// The callbacks foreign code supplies for its node kinds: an attribute
/// setter and a teardown (free) routine, each invoked with the opaque state
/// handle of the bridge being dispatched. Nothing is assumed of either: the
/// setter reports its outcome, which the caller records on the node, and
/// the library only guarantees when and how often they are invoked.
pub trait ForeignOps: Sized {
    /// Sets attributes on the foreign side for the state `state`; the
    /// returned outcome is recorded on the node.
    fn set_atts(&mut self, state: usize, bag: &AttributeBag) -> NodeResult;

    /// Tears the foreign state `state` down. Invoked exactly once per
    /// bridge, when the owning node's last reference is released.
    fn free(&mut self, state: usize);
}

/// Forwards node behaviour to foreign callbacks. Holds the opaque state
/// handle, non-null for the bridge's whole life and never shared, so the
/// teardown of that state cannot run twice.
pub struct ForeignBridge {
    state: usize,
}

impl ForeignBridge {
    /// The opaque state handle.
    pub closed spec fn state_handle(self) -> usize {
        self.state
    }

    /// A bridge never holds a null state handle.
    pub open spec fn wf(self) -> bool {
        self.state_handle() != 0
    }

    /// Wraps an opaque foreign state handle. A null handle is a
    /// programming-contract violation and is refused at verification time.
    pub fn new(state: usize) -> (r: ForeignBridge)
        requires
            state != 0,
        ensures
            r.wf(),
            r.state_handle() == state,
    {
        ForeignBridge { state }
    }

    /// Checked construction: refuses a null state handle by returning
    /// nothing instead of a bridge.
    pub fn try_new(state: usize) -> (r: Option<ForeignBridge>)
        ensures
            r is Some <==> state != 0,
            r is Some ==> r->Some_0.wf() && r->Some_0.state_handle() == state,
    {
        if state == 0 {
            None
        } else {
            Some(ForeignBridge::new(state))
        }
    }

    /// Reads the opaque state handle back, for foreign callers that only
    /// hold the node.
    pub fn opaque_state(&self) -> (r: usize)
        ensures
            r == self.state_handle(),
    {
        self.state
    }
}

/// The implementation variants a node can carry: a native flood primitive
/// or a foreign bridge.
pub enum NodeImpl {
    Foreign(ForeignBridge),
    Flood(Flood),
}

/// A tree node: type tag, optional identity, owned style state, ordered
/// children, a weak parent reference, one implementation fixed for life,
/// and the recorded outcome of the last attribute-setting call.
pub struct Node {
    pub node_type: NodeType,
    pub parent: Option<usize>,
    pub id: Option<String>,
    pub class: Option<String>,
    pub style: StyleValues,
    pub children: Vec<usize>,
    pub imp: NodeImpl,
    pub result: NodeResult,
}

impl Node {
    /// A node's implementation invariant: a foreign bridge holds a
    /// non-null state handle.
    pub open spec fn wf(self) -> bool {
        match self.imp {
            NodeImpl::Foreign(b) => b.wf(),
            NodeImpl::Flood(_) => true,
        }
    }

    /// Builds a node with its implementation fixed for life, no children
    /// and a clean result channel.
    pub fn new(
        node_type: NodeType,
        parent: Option<usize>,
        id: Option<String>,
        class: Option<String>,
        style: StyleValues,
        imp: NodeImpl,
    ) -> (r: Node)
        ensures
            r.node_type == node_type,
            r.parent == parent,
            r.id == id,
            r.class == class,
            r.style == style,
            r.imp == imp,
            r.children@ == Seq::<usize>::empty(),
            r.result == Ok::<(), ParseError>(()),
            imp.wf_as_node() ==> r.wf(),
    {
        let r = Node {
            node_type,
            parent,
            id,
            class,
            style,
            children: Vec::new(),
            imp,
            result: Ok(()),
        };
        proof {
            assert(r.children@ =~= Seq::<usize>::empty());
        }
        r
    }
}

impl NodeImpl {
    /// The implementation invariant, before the implementation is wrapped
    /// in a node.
    pub open spec fn wf_as_node(self) -> bool {
        match self {
            NodeImpl::Foreign(b) => b.wf(),
            NodeImpl::Flood(_) => true,
        }
    }
}

/// One arena slot: a live node and the number of shared references that
/// keep it alive.
pub struct Slot {
    pub count: usize,
    pub node: Node,
}

/// Whether handle `h` refers to a live node in `s`.
pub open spec fn slot_live(s: Seq<Option<Slot>>, h: int) -> bool {
    0 <= h < s.len() && s[h] is Some
}

/// The reference count of the node behind handle `h`.
pub open spec fn slot_count(s: Seq<Option<Slot>>, h: int) -> int {
    s[h]->Some_0.count as int
}

/// The node behind handle `h`.
pub open spec fn slot_node(s: Seq<Option<Slot>>, h: int) -> Node {
    s[h]->Some_0.node
}

/// Replaces the node behind `h`, keeping its reference count.
pub open spec fn record_result(s: Seq<Option<Slot>>, h: int, n: Node) -> Seq<Option<Slot>> {
    s.update(h, Some(Slot { count: s[h]->Some_0.count, node: n }))
}

/// Whether releasing handle `h` destroys its node: it is live and held by
/// exactly one reference.
pub open spec fn release_destroys(s: Seq<Option<Slot>>, h: int) -> bool {
    slot_live(s, h) && slot_count(s, h) == 1
}

/// The slots after releasing one reference to `h`: the slot disappears at
/// the last reference, otherwise only its count drops.
pub open spec fn after_release(s: Seq<Option<Slot>>, h: int) -> Seq<Option<Slot>> {
    if !slot_live(s, h) {
        s
    } else if slot_count(s, h) == 1 {
        s.update(h, None)
    } else {
        s.update(
            h,
            Some(Slot { count: (s[h]->Some_0.count - 1) as usize, node: s[h]->Some_0.node }),
        )
    }
}

/// What release reports: the node stayed alive, or it was destroyed — then
/// whether a foreign teardown ran, and which owned child references the
/// caller must release in turn.
pub enum ReleaseOutcome {
    Alive,
    Destroyed { foreign_freed: bool, owned_children: Vec<usize> },
}

/// Holds every node of one tree; handles are indices, shared ownership is
/// an explicit reference count per node, and a weak reference is a handle
/// resolved against liveness at each use.
pub struct NodeArena {
    pub slots: Vec<Option<Slot>>,
}

impl NodeArena {
    /// Every live node is held by at least one reference and satisfies its
    /// implementation invariant.
    pub open spec fn wf(self) -> bool {
        forall|h: int|
            #[trigger] slot_live(self.slots@, h) ==> slot_count(self.slots@, h) >= 1 && slot_node(
                self.slots@,
                h,
            ).wf()
    }

    /// An arena with no nodes.
    pub fn new() -> (r: NodeArena)
        ensures
            r.wf(),
            r.slots@.len() == 0,
    {
        let r = NodeArena { slots: Vec::new() };
        proof {
            assert(r.slots@ =~= Seq::<Option<Slot>>::empty());
        }
        r
    }

    /// Adds a node, returning the handle of its first shared reference.
    pub fn new_node(&mut self, node: Node) -> (h: usize)
        requires
            old(self).wf(),
            node.wf(),
        ensures
            final(self).wf(),
            h == old(self).slots@.len(),
            final(self).slots@ == old(self).slots@.push(Some(Slot { count: 1, node })),
            slot_live(final(self).slots@, h as int),
            slot_count(final(self).slots@, h as int) == 1,
            slot_node(final(self).slots@, h as int) == node,
    {
        let h = self.slots.len();
        self.slots.push(Some(Slot { count: 1, node }));
        proof {
            assert forall|j: int| #[trigger] slot_live(self.slots@, j) implies slot_count(
                self.slots@,
                j,
            ) >= 1 && slot_node(self.slots@, j).wf() by {
                if j < h {
                    assert(slot_live(old(self).slots@, j));
                }
            }
        }
        h
    }

    /// Takes one more shared reference to a live node.
    pub fn retain(&mut self, h: usize)
        requires
            old(self).wf(),
            slot_live(old(self).slots@, h as int),
            slot_count(old(self).slots@, h as int) < usize::MAX,
        ensures
            final(self).wf(),
            final(self).slots@ == old(self).slots@.update(
                h as int,
                Some(
                    Slot {
                        count: (slot_count(old(self).slots@, h as int) + 1) as usize,
                        node: slot_node(old(self).slots@, h as int),
                    },
                ),
            ),
    {
        match &mut self.slots[h] {
            Some(slot) => {
                slot.count = slot.count + 1;
            },
            None => {
                proof {
                    assert(false);
                }
            },
        }
        proof {
            assert(self.slots@ =~= old(self).slots@.update(
                h as int,
                Some(
                    Slot {
                        count: (slot_count(old(self).slots@, h as int) + 1) as usize,
                        node: slot_node(old(self).slots@, h as int),
                    },
                ),
            ));
            assert forall|j: int| #[trigger] slot_live(self.slots@, j) implies slot_count(
                self.slots@,
                j,
            ) >= 1 && slot_node(self.slots@, j).wf() by {
                assert(slot_live(old(self).slots@, j));
            }
        }
    }

    /// Releases one shared reference to a live node. At the last reference
    /// the node is destroyed: a foreign implementation's teardown runs
    /// here, exactly once, and the handles of the children the node owned
    /// are handed back for the caller to release in turn.
    pub fn release<O: ForeignOps>(&mut self, h: usize, ops: &mut O) -> (r: ReleaseOutcome)
        requires
            old(self).wf(),
            slot_live(old(self).slots@, h as int),
        ensures
            final(self).wf(),
            final(self).slots@ == after_release(old(self).slots@, h as int),
            release_destroys(old(self).slots@, h as int) ==> (r matches
                ReleaseOutcome::Destroyed { foreign_freed, owned_children } && foreign_freed == (
            slot_node(old(self).slots@, h as int).imp is Foreign) && owned_children@ == slot_node(
                old(self).slots@,
                h as int,
            ).children@),
            !release_destroys(old(self).slots@, h as int) ==> r is Alive,
    {
        let mut destroy = false;
        match &mut self.slots[h] {
            Some(slot) => {
                if slot.count > 1 {
                    slot.count = slot.count - 1;
                } else {
                    destroy = true;
                }
            },
            None => {
                proof {
                    assert(false);
                }
            },
        }
        if !destroy {
            proof {
                assert(self.slots@ =~= after_release(old(self).slots@, h as int));
                assert forall|j: int| #[trigger] slot_live(self.slots@, j) implies slot_count(
                    self.slots@,
                    j,
                ) >= 1 && slot_node(self.slots@, j).wf() by {
                    assert(slot_live(old(self).slots@, j));
                }
            }
            return ReleaseOutcome::Alive;
        }
        let mut is_foreign = false;
        let mut state: usize = 0;
        let mut children: Vec<usize> = Vec::new();
        match &self.slots[h] {
            Some(slot) => {
                match &slot.node.imp {
                    NodeImpl::Foreign(b) => {
                        is_foreign = true;
                        state = b.opaque_state();
                    },
                    NodeImpl::Flood(_) => {},
                }
                let m = slot.node.children.len();
                let mut j: usize = 0;
                while j < m
                    invariant
                        j <= m,
                        m == slot.node.children@.len(),
                        children@ == slot.node.children@.take(j as int),
                    decreases m - j,
                {
                    let c = slot.node.children[j];
                    children.push(c);
                    proof {
                        assert(children@ =~= slot.node.children@.take(j + 1));
                    }
                    j = j + 1;
                }
                proof {
                    assert(children@ =~= slot.node.children@);
                }
            },
            None => {
                proof {
                    assert(false);
                }
            },
        }
        if is_foreign {
            ops.free(state);
        }
        self.slots[h] = None;
        proof {
            assert(self.slots@ =~= after_release(old(self).slots@, h as int));
            assert forall|j: int| #[trigger] slot_live(self.slots@, j) implies slot_count(
                self.slots@,
                j,
            ) >= 1 && slot_node(self.slots@, j).wf() by {
                assert(slot_live(old(self).slots@, j));
            }
        }
        ReleaseOutcome::Destroyed { foreign_freed: is_foreign, owned_children: children }
    }

    /// Makes `child` an owned child of `parent`: the tree takes one more
    /// reference to the child and records the edge, in order.
    pub fn add_child(&mut self, parent: usize, child: usize)
        requires
            old(self).wf(),
            slot_live(old(self).slots@, parent as int),
            slot_live(old(self).slots@, child as int),
            parent != child,
            slot_count(old(self).slots@, child as int) < usize::MAX,
        ensures
            final(self).wf(),
            final(self).slots@.len() == old(self).slots@.len(),
            slot_live(final(self).slots@, parent as int),
            slot_live(final(self).slots@, child as int),
            slot_node(final(self).slots@, parent as int).children@ == slot_node(
                old(self).slots@,
                parent as int,
            ).children@.push(child),
            slot_count(final(self).slots@, child as int) == slot_count(
                old(self).slots@,
                child as int,
            ) + 1,
            slot_count(final(self).slots@, parent as int) == slot_count(
                old(self).slots@,
                parent as int,
            ),
            slot_node(final(self).slots@, child as int) == slot_node(
                old(self).slots@,
                child as int,
            ),
            forall|j: int|
                0 <= j < old(self).slots@.len() && j != parent && j != child
                    ==> final(self).slots@[j] == old(self).slots@[j],
    {
        self.retain(child);
        match &mut self.slots[parent] {
            Some(slot) => {
                slot.node.children.push(child);
            },
            None => {
                proof {
                    assert(false);
                }
            },
        }
        proof {
            assert forall|j: int| #[trigger] slot_live(self.slots@, j) implies slot_count(
                self.slots@,
                j,
            ) >= 1 && slot_node(self.slots@, j).wf() by {
                assert(slot_live(old(self).slots@, j));
            }
        }
    }

    /// Resolves a node's weak parent reference: the parent's handle while
    /// the parent is still alive, nothing once it is gone.
    pub fn resolve_parent(&self, h: usize) -> (r: Option<usize>)
        requires
            slot_live(self.slots@, h as int),
        ensures
            r == (match slot_node(self.slots@, h as int).parent {
                Some(p) => if slot_live(self.slots@, p as int) {
                    Some(p)
                } else {
                    None::<usize>
                },
                None => None::<usize>,
            }),
    {
        let parent: Option<usize> = match &self.slots[h] {
            Some(slot) => slot.node.parent,
            None => {
                proof {
                    assert(false);
                }
                None
            },
        };
        match parent {
            Some(p) => {
                if p < self.slots.len() {
                    match &self.slots[p] {
                        Some(_) => Some(p),
                        None => None,
                    }
                } else {
                    None
                }
            },
            None => None,
        }
    }

    /// Dispatches attribute-setting to the node's implementation and
    /// records the outcome on the node; a failure never goes beyond this
    /// node's result channel.
    pub fn set_attributes<O: ForeignOps>(
        &mut self,
        h: usize,
        bag: &AttributeBag,
        ops: &mut O,
    ) -> (r: NodeResult)
        requires
            old(self).wf(),
            slot_live(old(self).slots@, h as int),
        ensures
            final(self).wf(),
            ({
                let s0 = old(self).slots@;
                let n0 = slot_node(s0, h as int);
                let n1 = slot_node(final(self).slots@, h as int);
                &&& final(self).slots@ == record_result(s0, h as int, n1)
                &&& slot_live(final(self).slots@, h as int)
                &&& n1.result == r
                &&& n1.node_type == n0.node_type
                &&& n1.parent == n0.parent
                &&& n1.id == n0.id
                &&& n1.class == n0.class
                &&& n1.style == n0.style
                &&& n1.children == n0.children
                &&& match n0.imp {
                    NodeImpl::Flood(f) => {
                        let pr = parse_attributes_v(f.base@, bag.entries_view());
                        &&& n1.imp is Flood
                        &&& (pr is Ok ==> r is Ok && (n1.imp matches NodeImpl::Flood(f2)
                            && f2.base@ == pr->Ok_0))
                        &&& (pr is Err ==> r == Err::<(), ParseError>(pr->Err_0))
                    },
                    NodeImpl::Foreign(b) => n1.imp matches NodeImpl::Foreign(b2)
                        && b2.state_handle() == b.state_handle(),
                }
            }),
    {
        let r: NodeResult;
        match &mut self.slots[h] {
            Some(slot) => {
                match &mut slot.node.imp {
                    NodeImpl::Flood(f) => {
                        r = match f.set_atts(bag) {
                            Ok(_) => Ok(()),
                            Err(e) => Err(e),
                        };
                    },
                    NodeImpl::Foreign(b) => {
                        let state = b.opaque_state();
                        r = ops.set_atts(state, bag);
                    },
                }
                slot.node.result = r;
            },
            None => {
                proof {
                    assert(false);
                }
                r = Ok(());
            },
        }
        proof {
            assert(self.slots@ =~= record_result(
                old(self).slots@,
                h as int,
                slot_node(self.slots@, h as int),
            ));
            assert forall|j: int| #[trigger] slot_live(self.slots@, j) implies slot_count(
                self.slots@,
                j,
            ) >= 1 && slot_node(self.slots@, j).wf() by {
                assert(slot_live(old(self).slots@, j));
            }
        }
        r
    }

    /// Reads the recorded outcome of the last attribute-setting call.
    pub fn get_result(&self, h: usize) -> (r: NodeResult)
        requires
            slot_live(self.slots@, h as int),
        ensures
            r == slot_node(self.slots@, h as int).result,
    {
        match &self.slots[h] {
            Some(slot) => slot.node.result,
            None => {
                proof {
                    assert(false);
                }
                Ok(())
            },
        }
    }

    /// Reads the node's resolved style; cascade resolution itself is the
    /// external engine's work and has happened before the values got here.
    pub fn get_cascaded_values(&self, h: usize) -> (r: StyleValues)
        requires
            slot_live(self.slots@, h as int),
        ensures
            r == slot_node(self.slots@, h as int).style,
    {
        match &self.slots[h] {
            Some(slot) => slot.node.style,
            None => {
                proof {
                    assert(false);
                }
                StyleValues {
                    color: crate::style::ColorRgba { red: 0, green: 0, blue: 0, alpha: 255 },
                    flood_color: crate::style::CssColor::CurrentColor,
                    flood_opacity: 255,
                }
            },
        }
    }

    /// Reads the opaque foreign state behind a node, for foreign callers
    /// that only hold the node's handle; a native implementation has none.
    pub fn get_foreign_state(&self, h: usize) -> (r: Option<usize>)
        requires
            slot_live(self.slots@, h as int),
        ensures
            r == (match slot_node(self.slots@, h as int).imp {
                NodeImpl::Foreign(b) => Some(b.state_handle()),
                NodeImpl::Flood(_) => None::<usize>,
            }),
    {
        match &self.slots[h] {
            Some(slot) => match &slot.node.imp {
                NodeImpl::Foreign(b) => Some(b.opaque_state()),
                NodeImpl::Flood(_) => None,
            },
            None => {
                proof {
                    assert(false);
                }
                None
            },
        }
    }
}

/// Law: after an attribute-setting call records its outcome, reading the
/// node's result yields exactly that outcome; a second call overwrites the
/// first, so the channel always reflects the latest call.
pub proof fn lemma_result_reflects_outcome(s: Seq<Option<Slot>>, h: int, n1: Node, n2: Node)
    requires
        slot_live(s, h),
    ensures
        slot_node(record_result(s, h, n1), h).result == n1.result,
        slot_node(record_result(record_result(s, h, n1), h, n2), h).result == n2.result,
{
}

/// Law: teardown happens only at the transition that destroys the node —
/// afterwards the handle is dead, so no release of it can destroy again,
/// however many references existed before. Together with `release`'s
/// contract, the foreign teardown of one bridge runs exactly once.
pub proof fn lemma_teardown_once(s: Seq<Option<Slot>>, h: int)
    requires
        release_destroys(s, h),
    ensures
        !slot_live(after_release(s, h), h),
        !release_destroys(after_release(s, h), h),
        after_release(after_release(s, h), h) == after_release(s, h),
{
}

} // verus!
