use vstd::prelude::*;

verus! {

broadcast use vstd::std_specs::vec::axiom_vec_index_decreases;

/// The result of running a node of a behaviour tree for one tick.
#[derive(Clone, Copy, PartialEq, Eq, Debug, Structural)]
pub enum NodeStatus {
    Success,
    Failure,
    Running,
}

/// A node of an NPC's behaviour tree. Leaves name a check or an action of the NPC by its
/// number; what a leaf gives in a tick is read from the tables handed to `execute_node`.
pub enum Node {
    /// Runs the children in order while they succeed.
    Sequence(Vec<Node>),
    /// Runs the children in order while they fail.
    Fallback(Vec<Node>),
    /// A check: succeeds when it holds, else fails.
    Condition(u32),
    /// An action, which reports its own status.
    Action(u32),
    /// Runs the child only when the check holds, else fails.
    Decorator(u32, Box<Node>),
}

/// The status of `node` in a tick where check `i` gives `checks[i]` and action `i` gives
/// `actions[i]`.
pub open spec fn eval(node: Node, checks: Seq<bool>, actions: Seq<NodeStatus>) -> NodeStatus
    decreases node,
{
    match node {
        Node::Sequence(children) => eval_sequence(children@, checks, actions),
        Node::Fallback(children) => eval_fallback(children@, checks, actions),
        Node::Condition(c) => if checks[c as int] {
            NodeStatus::Success
        } else {
            NodeStatus::Failure
        },
        Node::Action(a) => actions[a as int],
        Node::Decorator(c, child) => if checks[c as int] {
            eval(*child, checks, actions)
        } else {
            NodeStatus::Failure
        },
    }
}

/// A sequence stops at the first child that does not succeed and gives its status;
/// it succeeds when every child does.
pub open spec fn eval_sequence(
    children: Seq<Node>,
    checks: Seq<bool>,
    actions: Seq<NodeStatus>,
) -> NodeStatus
    decreases children,
{
    if children.len() == 0 {
        NodeStatus::Success
    } else {
        let first = eval(children[0], checks, actions);
        if first == NodeStatus::Success {
            eval_sequence(children.subrange(1, children.len() as int), checks, actions)
        } else {
            first
        }
    }
}

/// A fallback stops at the first child that does not fail and gives its status;
/// it fails when every child does.
pub open spec fn eval_fallback(
    children: Seq<Node>,
    checks: Seq<bool>,
    actions: Seq<NodeStatus>,
) -> NodeStatus
    decreases children,
{
    if children.len() == 0 {
        NodeStatus::Failure
    } else {
        let first = eval(children[0], checks, actions);
        if first == NodeStatus::Failure {
            eval_fallback(children.subrange(1, children.len() as int), checks, actions)
        } else {
            first
        }
    }
}

/// The leaves that a tick runs, in order: each leaf is listed by its number when the tick
/// reaches it.
pub open spec fn visits(node: Node, checks: Seq<bool>, actions: Seq<NodeStatus>) -> Seq<u32>
    decreases node,
{
    match node {
        Node::Sequence(children) => visits_sequence(children@, checks, actions),
        Node::Fallback(children) => visits_fallback(children@, checks, actions),
        Node::Condition(c) => seq![c],
        Node::Action(a) => seq![a],
        Node::Decorator(c, child) => if checks[c as int] {
            seq![c] + visits(*child, checks, actions)
        } else {
            seq![c]
        },
    }
}

/// The leaves a tick of a sequence reaches: each child's, up to the first that does not succeed.
pub open spec fn visits_sequence(
    children: Seq<Node>,
    checks: Seq<bool>,
    actions: Seq<NodeStatus>,
) -> Seq<u32>
    decreases children,
{
    if children.len() == 0 {
        Seq::empty()
    } else {
        let first = visits(children[0], checks, actions);
        if eval(children[0], checks, actions) == NodeStatus::Success {
            first + visits_sequence(children.subrange(1, children.len() as int), checks, actions)
        } else {
            first
        }
    }
}

/// The leaves a tick of a fallback reaches: each child's, up to the first that does not fail.
pub open spec fn visits_fallback(
    children: Seq<Node>,
    checks: Seq<bool>,
    actions: Seq<NodeStatus>,
) -> Seq<u32>
    decreases children,
{
    if children.len() == 0 {
        Seq::empty()
    } else {
        let first = visits(children[0], checks, actions);
        if eval(children[0], checks, actions) == NodeStatus::Failure {
            first + visits_fallback(children.subrange(1, children.len() as int), checks, actions)
        } else {
            first
        }
    }
}

/// Every leaf of the tree names a check or an action of the tables.
pub open spec fn leaves_in(node: Node, n_checks: nat, n_actions: nat) -> bool
    decreases node,
{
    match node {
        Node::Sequence(children) => forall|i: int|
            0 <= i < children@.len() ==> leaves_in(#[trigger] children@[i], n_checks, n_actions),
        Node::Fallback(children) => forall|i: int|
            0 <= i < children@.len() ==> leaves_in(#[trigger] children@[i], n_checks, n_actions),
        Node::Condition(c) => c < n_checks,
        Node::Action(a) => a < n_actions,
        Node::Decorator(c, child) => c < n_checks && leaves_in(*child, n_checks, n_actions),
    }
}

/// Runs `node` for one tick. Check `i` gives `checks[i]`, action `i` gives `actions[i]`;
/// the numbers of the leaves that the tick reaches are appended to `trace` in order.
pub fn execute_node(
    node: &Node,
    checks: &Vec<bool>,
    actions: &Vec<NodeStatus>,
    trace: &mut Vec<u32>,
) -> (status: NodeStatus)
    requires
        leaves_in(*node, checks@.len(), actions@.len()),
    ensures
        status == eval(*node, checks@, actions@),
        final(trace)@ == old(trace)@ + visits(*node, checks@, actions@),
    decreases *node,
{
    match node {
        Node::Sequence(children) => {
            let mut i: usize = 0;
            let ghost start = trace@;
            assert(children@.subrange(0, children@.len() as int) =~= children@);
            while i < children.len()
                invariant
                    i <= children@.len(),
                    *node == Node::Sequence(*children),
                    start == old(trace)@,
                    forall|j: int|
                        0 <= j < children@.len() ==> leaves_in(
                            #[trigger] children@[j],
                            checks@.len(),
                            actions@.len(),
                        ),
                    eval_sequence(children@, checks@, actions@) == eval_sequence(
                        children@.subrange(i as int, children@.len() as int),
                        checks@,
                        actions@,
                    ),
                    start + visits_sequence(children@, checks@, actions@) == trace@
                        + visits_sequence(
                        children@.subrange(i as int, children@.len() as int),
                        checks@,
                        actions@,
                    ),
                decreases children@.len() - i,
            {
                let ghost rest = children@.subrange(i as int, children@.len() as int);
                assert(rest[0] == children@[i as int]);
                assert(rest.subrange(1, rest.len() as int) =~= children@.subrange(
                    i + 1,
                    children@.len() as int,
                ));
                let ghost before = trace@;
                proof {
                    assert(decreases_to!(*node => children@[i as int]));
                }
                let status = execute_node(&children[i], checks, actions, trace);
                if status != NodeStatus::Success {
                    assert(before + visits_sequence(rest, checks@, actions@) == trace@);
                    return status;
                }
                assert(before + visits_sequence(rest, checks@, actions@) =~= trace@
                    + visits_sequence(rest.subrange(1, rest.len() as int), checks@, actions@));
                i = i + 1;
            }
            assert(children@.subrange(i as int, children@.len() as int) =~= Seq::<Node>::empty());
            assert(start + visits_sequence(children@, checks@, actions@) =~= trace@);
            NodeStatus::Success
        },
        Node::Fallback(children) => {
            let mut i: usize = 0;
            let ghost start = trace@;
            assert(children@.subrange(0, children@.len() as int) =~= children@);
            while i < children.len()
                invariant
                    i <= children@.len(),
                    *node == Node::Fallback(*children),
                    start == old(trace)@,
                    forall|j: int|
                        0 <= j < children@.len() ==> leaves_in(
                            #[trigger] children@[j],
                            checks@.len(),
                            actions@.len(),
                        ),
                    eval_fallback(children@, checks@, actions@) == eval_fallback(
                        children@.subrange(i as int, children@.len() as int),
                        checks@,
                        actions@,
                    ),
                    start + visits_fallback(children@, checks@, actions@) == trace@
                        + visits_fallback(
                        children@.subrange(i as int, children@.len() as int),
                        checks@,
                        actions@,
                    ),
                decreases children@.len() - i,
            {
                let ghost rest = children@.subrange(i as int, children@.len() as int);
                assert(rest[0] == children@[i as int]);
                assert(rest.subrange(1, rest.len() as int) =~= children@.subrange(
                    i + 1,
                    children@.len() as int,
                ));
                let ghost before = trace@;
                proof {
                    assert(decreases_to!(*node => children@[i as int]));
                }
                let status = execute_node(&children[i], checks, actions, trace);
                if status != NodeStatus::Failure {
                    assert(before + visits_fallback(rest, checks@, actions@) == trace@);
                    return status;
                }
                assert(before + visits_fallback(rest, checks@, actions@) =~= trace@
                    + visits_fallback(rest.subrange(1, rest.len() as int), checks@, actions@));
                i = i + 1;
            }
            assert(children@.subrange(i as int, children@.len() as int) =~= Seq::<Node>::empty());
            assert(start + visits_fallback(children@, checks@, actions@) =~= trace@);
            NodeStatus::Failure
        },
        Node::Condition(c) => {
            trace.push(*c);
            if checks[*c as usize] {
                NodeStatus::Success
            } else {
                NodeStatus::Failure
            }
        },
        Node::Action(a) => {
            trace.push(*a);
            actions[*a as usize]
        },
        Node::Decorator(c, child) => {
            trace.push(*c);
            if checks[*c as usize] {
                let ghost mid = trace@;
                let status = execute_node(child, checks, actions, trace);
                assert(trace@ =~= old(trace)@ + visits(*node, checks@, actions@));
                status
            } else {
                NodeStatus::Failure
            }
        },
    }
}

/// Check of the NPC tree: a ball is about to hit the NPC.
pub const DANGER_CHECK: u32 = 0;
/// Check of the NPC tree: the NPC is in the aggression state.
pub const AGGRESSION_CHECK: u32 = 1;
/// Check of the NPC tree: the NPC's bat is ready to swing again.
pub const SWING_COOLDOWN_CHECK: u32 = 2;
/// Check of the NPC tree: the player is close to the NPC.
pub const PLAYER_PROXIMITY_CHECK: u32 = 3;
/// Check of the NPC tree: the NPC has no goal.
pub const TAG_IS_NULL: u32 = 4;

/// Number of checks of the NPC tree.
pub const NUM_CHECKS: u32 = 5;

/// Action of the NPC tree: swing the bat.
pub const SWING: u32 = 0;
/// Action of the NPC tree: step out of the ball's way.
pub const SIDESTEP: u32 = 1;
/// Action of the NPC tree: head for the closest ball.
pub const SET_TAG_TO_CLOSEST_BALL: u32 = 2;
/// Action of the NPC tree: head for a spot behind the closest piece of furniture.
pub const SET_TAG_TO_CLOSEST_OBJECT: u32 = 3;
/// Action of the NPC tree: walk along the planned path.
pub const PERFORM_A_STAR: u32 = 4;

/// Number of actions of the NPC tree.
pub const NUM_ACTIONS: u32 = 5;

/// The node is the check leaf `c`.
pub open spec fn is_condition(n: Node, c: u32) -> bool {
    n == Node::Condition(c)
}

/// The node is the action leaf `a`.
pub open spec fn is_action(n: Node, a: u32) -> bool {
    n == Node::Action(a)
}

/// `Sequence[Condition(aggression), Action(a)]`.
pub open spec fn is_aggressive_act(n: Node, a: u32) -> bool {
    &&& n matches Node::Sequence(ch)
    &&& ch@.len() == 2
    &&& is_condition(ch@[0], AGGRESSION_CHECK)
    &&& is_action(ch@[1], a)
}

/// The danger branch: `Sequence[danger?, Fallback[aggression?, cooldown?, Sequence[swing]],
/// sidestep]`.
pub open spec fn is_danger_branch(n: Node) -> bool {
    &&& n matches Node::Sequence(ch)
    &&& ch@.len() == 3
    &&& is_condition(ch@[0], DANGER_CHECK)
    &&& ch@[1] matches Node::Fallback(f)
    &&& f@.len() == 3
    &&& is_condition(f@[0], AGGRESSION_CHECK)
    &&& is_condition(f@[1], SWING_COOLDOWN_CHECK)
    &&& f@[2] matches Node::Sequence(sw)
    &&& sw@.len() == 1
    &&& is_action(sw@[0], SWING)
    &&& is_action(ch@[2], SIDESTEP)
}

/// The chase branch: `Sequence[Decorator(player close?, Fallback[Sequence[aggression?,
/// swing]]), Decorator(no goal?, Fallback[Sequence[aggression?, goal := closest ball],
/// goal := behind closest object]), A*]`.
pub open spec fn is_chase_branch(n: Node) -> bool {
    &&& n matches Node::Sequence(ch)
    &&& ch@.len() == 3
    &&& ch@[0] matches Node::Decorator(c0, d0)
    &&& c0 == PLAYER_PROXIMITY_CHECK
    &&& *d0 matches Node::Fallback(f0)
    &&& f0@.len() == 1
    &&& is_aggressive_act(f0@[0], SWING)
    &&& ch@[1] matches Node::Decorator(c1, d1)
    &&& c1 == TAG_IS_NULL
    &&& *d1 matches Node::Fallback(f1)
    &&& f1@.len() == 2
    &&& is_aggressive_act(f1@[0], SET_TAG_TO_CLOSEST_BALL)
    &&& is_action(f1@[1], SET_TAG_TO_CLOSEST_OBJECT)
    &&& is_action(ch@[2], PERFORM_A_STAR)
}

/// The NPC's tree: try the danger branch, and fall back on the chase branch.
pub open spec fn is_npc_tree(n: Node) -> bool {
    &&& n matches Node::Fallback(ch)
    &&& ch@.len() == 2
    &&& is_danger_branch(ch@[0])
    &&& is_chase_branch(ch@[1])
}

fn aggressive_act(a: u32) -> (n: Node)
    ensures
        is_aggressive_act(n, a),
{
    let mut ch: Vec<Node> = Vec::new();
    ch.push(Node::Condition(AGGRESSION_CHECK));
    ch.push(Node::Action(a));
    Node::Sequence(ch)
}

/// Builds the behaviour tree of an NPC.
pub fn behavior_tree() -> (root: Node)
    ensures
        is_npc_tree(root),
        leaves_in(root, NUM_CHECKS as nat, NUM_ACTIONS as nat),
{
    let mut swing_only: Vec<Node> = Vec::new();
    swing_only.push(Node::Action(SWING));
    let mut guard: Vec<Node> = Vec::new();
    guard.push(Node::Condition(AGGRESSION_CHECK));
    guard.push(Node::Condition(SWING_COOLDOWN_CHECK));
    guard.push(Node::Sequence(swing_only));
    let mut danger: Vec<Node> = Vec::new();
    danger.push(Node::Condition(DANGER_CHECK));
    danger.push(Node::Fallback(guard));
    danger.push(Node::Action(SIDESTEP));

    let mut near: Vec<Node> = Vec::new();
    near.push(aggressive_act(SWING));
    let mut tag: Vec<Node> = Vec::new();
    tag.push(aggressive_act(SET_TAG_TO_CLOSEST_BALL));
    tag.push(Node::Action(SET_TAG_TO_CLOSEST_OBJECT));
    let mut chase: Vec<Node> = Vec::new();
    chase.push(Node::Decorator(PLAYER_PROXIMITY_CHECK, Box::new(Node::Fallback(near))));
    chase.push(Node::Decorator(TAG_IS_NULL, Box::new(Node::Fallback(tag))));
    chase.push(Node::Action(PERFORM_A_STAR));

    let mut top: Vec<Node> = Vec::new();
    top.push(Node::Sequence(danger));
    top.push(Node::Sequence(chase));
    let root = Node::Fallback(top);
    proof {
        lemma_npc_tree_leaves(root);
    }
    root
}

proof fn lemma_npc_tree_leaves(root: Node)
    requires
        is_npc_tree(root),
    ensures
        leaves_in(root, NUM_CHECKS as nat, NUM_ACTIONS as nat),
{
    let ch = root->Fallback_0@;
    let a = ch[0]->Sequence_0@;
    let f = a[1]->Fallback_0@;
    let sw = f[2]->Sequence_0@;
    assert(leaves_in(sw[0], 5, 5));
    assert(leaves_in(f[2], 5, 5));
    assert(leaves_in(f[0], 5, 5) && leaves_in(f[1], 5, 5));
    assert(leaves_in(a[1], 5, 5));
    assert(leaves_in(a[0], 5, 5) && leaves_in(a[2], 5, 5));
    assert(leaves_in(ch[0], 5, 5));
    let b = ch[1]->Sequence_0@;
    let d0 = *b[0]->Decorator_1;
    let f0 = d0->Fallback_0@;
    let s0 = f0[0]->Sequence_0@;
    assert(leaves_in(s0[0], 5, 5) && leaves_in(s0[1], 5, 5));
    assert(leaves_in(f0[0], 5, 5));
    assert(leaves_in(d0, 5, 5));
    assert(leaves_in(b[0], 5, 5));
    let d1 = *b[1]->Decorator_1;
    let f1 = d1->Fallback_0@;
    let s1 = f1[0]->Sequence_0@;
    assert(leaves_in(s1[0], 5, 5) && leaves_in(s1[1], 5, 5));
    assert(leaves_in(f1[0], 5, 5));
    assert(leaves_in(f1[1], 5, 5));
    assert(leaves_in(d1, 5, 5));
    assert(leaves_in(b[1], 5, 5));
    assert(leaves_in(b[2], 5, 5));
    assert(leaves_in(ch[1], 5, 5));
}

/// A sequence succeeds exactly when every child succeeds.
pub proof fn law_sequence_succeeds_iff_all_succeed(
    children: Seq<Node>,
    checks: Seq<bool>,
    actions: Seq<NodeStatus>,
)
    ensures
        (eval_sequence(children, checks, actions) == NodeStatus::Success) <==> (forall|i: int|
            0 <= i < children.len() ==> eval(#[trigger] children[i], checks, actions)
                == NodeStatus::Success),
    decreases children.len(),
{
    if children.len() > 0 {
        let rest = children.subrange(1, children.len() as int);
        law_sequence_succeeds_iff_all_succeed(rest, checks, actions);
        if eval_sequence(children, checks, actions) == NodeStatus::Success {
            assert forall|i: int| 0 <= i < children.len() implies eval(
                #[trigger] children[i],
                checks,
                actions,
            ) == NodeStatus::Success by {
                if i > 0 {
                    assert(children[i] == rest[i - 1]);
                }
            }
        } else if eval(children[0], checks, actions) == NodeStatus::Success {
            let j = choose|j: int|
                0 <= j < rest.len() && eval(#[trigger] rest[j], checks, actions)
                    != NodeStatus::Success;
            assert(children[j + 1] == rest[j]);
        }
    }
}

/// A fallback fails exactly when every child fails.
pub proof fn law_fallback_fails_iff_all_fail(
    children: Seq<Node>,
    checks: Seq<bool>,
    actions: Seq<NodeStatus>,
)
    ensures
        (eval_fallback(children, checks, actions) == NodeStatus::Failure) <==> (forall|i: int|
            0 <= i < children.len() ==> eval(#[trigger] children[i], checks, actions)
                == NodeStatus::Failure),
    decreases children.len(),
{
    if children.len() > 0 {
        let rest = children.subrange(1, children.len() as int);
        law_fallback_fails_iff_all_fail(rest, checks, actions);
        if eval_fallback(children, checks, actions) == NodeStatus::Failure {
            assert forall|i: int| 0 <= i < children.len() implies eval(
                #[trigger] children[i],
                checks,
                actions,
            ) == NodeStatus::Failure by {
                if i > 0 {
                    assert(children[i] == rest[i - 1]);
                }
            }
        } else if eval(children[0], checks, actions) == NodeStatus::Failure {
            let j = choose|j: int|
                0 <= j < rest.len() && eval(#[trigger] rest[j], checks, actions)
                    != NodeStatus::Failure;
            assert(children[j + 1] == rest[j]);
        }
    }
}

/// A decorator whose check fails fails without running its child.
pub proof fn law_decorator_guards_child(
    c: u32,
    child: Box<Node>,
    checks: Seq<bool>,
    actions: Seq<NodeStatus>,
)
    requires
        !checks[c as int],
    ensures
        eval(Node::Decorator(c, child), checks, actions) == NodeStatus::Failure,
        visits(Node::Decorator(c, child), checks, actions) == seq![c],
{
}

} // verus!
