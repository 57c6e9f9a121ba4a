use rsvg_core::attribute::AttributeBag;
use rsvg_core::flood::Flood;
use rsvg_core::node::{
    ForeignBridge, ForeignOps, Node, NodeArena, NodeImpl, NodeResult, NodeType, ParseError,
    ReleaseOutcome,
};
use rsvg_core::style::{ColorRgba, CssColor, StyleValues};

fn plain_style() -> StyleValues {
    StyleValues {
        color: ColorRgba { red: 0, green: 0, blue: 0, alpha: 255 },
        flood_color: CssColor::CurrentColor,
        flood_opacity: 255,
    }
}

struct RecordingOps {
    freed: Vec<usize>,
    set_calls: Vec<usize>,
    set_answer: NodeResult,
}

impl RecordingOps {
    fn new(answer: NodeResult) -> RecordingOps {
        RecordingOps { freed: Vec::new(), set_calls: Vec::new(), set_answer: answer }
    }
}

impl ForeignOps for RecordingOps {
    fn set_atts(&mut self, state: usize, _bag: &AttributeBag) -> NodeResult {
        self.set_calls.push(state);
        self.set_answer
    }

    fn free(&mut self, state: usize) {
        self.freed.push(state);
    }
}

fn foreign_node(state: usize) -> Node {
    Node::new(
        NodeType::Foreign,
        None,
        None,
        None,
        plain_style(),
        NodeImpl::Foreign(ForeignBridge::new(state)),
    )
}

fn flood_node(parent: Option<usize>) -> Node {
    Node::new(
        NodeType::FeFlood,
        parent,
        Some("n".to_string()),
        None,
        plain_style(),
        NodeImpl::Flood(Flood::new()),
    )
}

#[test]
fn set_attributes_outcome_is_what_get_result_reads() {
    let mut arena = NodeArena::new();
    let h = arena.new_node(flood_node(None));
    let mut ops = RecordingOps::new(Ok(()));

    let mut bad = AttributeBag::new();
    bad.push("x".to_string(), "abc".to_string());
    let r1 = arena.set_attributes(h, &bad, &mut ops);
    assert!(matches!(r1, Err(ParseError::InvalidNumber(_))));
    assert_eq!(arena.get_result(h), r1);

    let mut good = AttributeBag::new();
    good.push("x".to_string(), "5".to_string());
    let r2 = arena.set_attributes(h, &good, &mut ops);
    assert_eq!(r2, Ok(()));
    assert_eq!(arena.get_result(h), Ok(()));
}

#[test]
fn foreign_setter_outcome_is_recorded_on_the_node() {
    let mut arena = NodeArena::new();
    let h = arena.new_node(foreign_node(0x51));
    let mut ops = RecordingOps::new(Err(ParseError::Foreign));
    let bag = AttributeBag::new();
    let r = arena.set_attributes(h, &bag, &mut ops);
    assert_eq!(r, Err(ParseError::Foreign));
    assert_eq!(arena.get_result(h), Err(ParseError::Foreign));
    assert_eq!(ops.set_calls, vec![0x51]);
}

#[test]
fn teardown_fires_exactly_once_whatever_the_reference_count() {
    let mut arena = NodeArena::new();
    let h = arena.new_node(foreign_node(0xBEEF));
    arena.retain(h);
    arena.retain(h);
    arena.retain(h);
    let mut ops = RecordingOps::new(Ok(()));
    for _ in 0..3 {
        let out = arena.release(h, &mut ops);
        assert!(matches!(out, ReleaseOutcome::Alive));
        assert_eq!(ops.freed.len(), 0);
    }
    let out = arena.release(h, &mut ops);
    match out {
        ReleaseOutcome::Destroyed { foreign_freed, owned_children } => {
            assert!(foreign_freed);
            assert!(owned_children.is_empty());
        },
        ReleaseOutcome::Alive => panic!("last release must destroy the node"),
    }
    assert_eq!(ops.freed, vec![0xBEEF]);
}

#[test]
fn native_node_destruction_frees_nothing_foreign() {
    let mut arena = NodeArena::new();
    let h = arena.new_node(flood_node(None));
    let mut ops = RecordingOps::new(Ok(()));
    match arena.release(h, &mut ops) {
        ReleaseOutcome::Destroyed { foreign_freed, .. } => assert!(!foreign_freed),
        ReleaseOutcome::Alive => panic!("sole reference released must destroy"),
    }
    assert!(ops.freed.is_empty());
}

#[test]
fn null_opaque_state_is_refused() {
    assert!(ForeignBridge::try_new(0).is_none());
    let b = ForeignBridge::try_new(7).expect("non-null state must be accepted");
    assert_eq!(b.opaque_state(), 7);
}

#[test]
fn weak_parent_resolves_only_while_parent_lives() {
    let mut arena = NodeArena::new();
    let parent = arena.new_node(flood_node(None));
    let child = arena.new_node(flood_node(Some(parent)));
    arena.add_child(parent, child);
    assert_eq!(arena.resolve_parent(child), Some(parent));

    let mut ops = RecordingOps::new(Ok(()));
    let out = arena.release(parent, &mut ops);
    let released_children = match out {
        ReleaseOutcome::Destroyed { owned_children, .. } => owned_children,
        ReleaseOutcome::Alive => panic!("last release must destroy the parent"),
    };
    assert_eq!(released_children, vec![child]);
    for c in released_children {
        arena.release(c, &mut ops);
    }
    assert_eq!(arena.resolve_parent(child), None);
    assert_eq!(arena.get_result(child), Ok(()));
}

#[test]
fn foreign_state_is_recoverable_from_the_node_alone() {
    let mut arena = NodeArena::new();
    let hf = arena.new_node(foreign_node(0x77));
    let hn = arena.new_node(flood_node(None));
    assert_eq!(arena.get_foreign_state(hf), Some(0x77));
    assert_eq!(arena.get_foreign_state(hn), None);
}
