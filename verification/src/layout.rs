//! Layout of assembly: roots become instructions at addresses. A node whose labels are all
//! defined before it is pushed directly; any other is given room (one byte at first) and filled
//! in once every label is known. When a node needs more room than it was given, the whole layout
//! is done again with more room for that node, until every node fits. Labels that are defined
//! and never referred to are reported.

use vstd::prelude::*;
use crate::assembler::{
    copy_label, copy_pos, codegen_push_immediate, label_address, label_eq, push_hex_pad2, resolve_node_value,
    spec_errors, spec_hex_pad2, spec_label_address, spec_node_value, spec_push_immediate,
    spec_value_agrees, Node,
};
use crate::common::{spec_decoded_valid, spec_instruction_valid, Instruction, Size};
use crate::expansion::Root;
use crate::text::{chars_of, push_str, string_chars, string_from_chars};
use crate::token::{
    spec_token_mnemonic, token_to_mnemonic, Error, Label, LabelView, Pos, Token, TokenView,
};

verus! {

/// A node with its labels taken by their views.
pub enum NodeView {
    LabelRef(LabelView),
    Value(u8),
    Add(Box<NodeView>, Box<NodeView>),
    Sub(Box<NodeView>, Box<NodeView>),
    Rot(Box<NodeView>, Box<NodeView>),
    Orr(Box<NodeView>, Box<NodeView>),
    And(Box<NodeView>, Box<NodeView>),
    Xor(Box<NodeView>, Box<NodeView>),
    Xnd(Box<NodeView>, Box<NodeView>),
    Shl(Box<NodeView>),
    Shr(Box<NodeView>),
    Not(Box<NodeView>),
}

/// The view of a node: two nodes are the same key when their views are equal.
pub open spec fn spec_node_view(n: Node) -> NodeView
    decreases n,
{
    match n {
        Node::LabelRef(l) => NodeView::LabelRef(l@),
        Node::Value(v) => NodeView::Value(v),
        Node::Add(a, b) => NodeView::Add(Box::new(spec_node_view(*a)), Box::new(spec_node_view(*b))),
        Node::Sub(a, b) => NodeView::Sub(Box::new(spec_node_view(*a)), Box::new(spec_node_view(*b))),
        Node::Rot(a, b) => NodeView::Rot(Box::new(spec_node_view(*a)), Box::new(spec_node_view(*b))),
        Node::Orr(a, b) => NodeView::Orr(Box::new(spec_node_view(*a)), Box::new(spec_node_view(*b))),
        Node::And(a, b) => NodeView::And(Box::new(spec_node_view(*a)), Box::new(spec_node_view(*b))),
        Node::Xor(a, b) => NodeView::Xor(Box::new(spec_node_view(*a)), Box::new(spec_node_view(*b))),
        Node::Xnd(a, b) => NodeView::Xnd(Box::new(spec_node_view(*a)), Box::new(spec_node_view(*b))),
        Node::Shl(a) => NodeView::Shl(Box::new(spec_node_view(*a))),
        Node::Shr(a) => NodeView::Shr(Box::new(spec_node_view(*a))),
        Node::Not(a) => NodeView::Not(Box::new(spec_node_view(*a))),
    }
}

/// The room given to a node: the first entry for it in `sizes`, one byte if there is none.
pub open spec fn spec_allocation(sizes: Seq<(Node, usize)>, n: NodeView) -> nat
    decreases sizes.len(),
{
    if sizes.len() == 0 {
        1
    } else if spec_node_view(sizes[0].0) == n {
        sizes[0].1 as nat
    } else {
        spec_allocation(sizes.drop_first(), n)
    }
}

/// The state of a layout pass: the instructions so far (their count is the location counter),
/// the labels defined so far (the latest first), the nodes and data bytes left to fill in,
/// each at its address, and the errors.
pub struct Pass {
    pub out: Seq<(Pos, Result<Instruction, u8>)>,
    pub defs: Seq<(Label, u8)>,
    pub nodes: Seq<Option<(Pos, Node)>>,
    pub datas: Seq<Option<(Pos, Node)>>,
    pub errors: Seq<(Pos, Seq<char>)>,
}

/// The state before the first root.
pub open spec fn spec_pass_start() -> Pass {
    Pass {
        out: Seq::empty(),
        defs: Seq::empty(),
        nodes: Seq::new(256, |_k: int| None),
        datas: Seq::new(256, |_k: int| None),
        errors: Seq::empty(),
    }
}

/// The address of a location: the location counter taken modulo 256.
pub open spec fn spec_slot(lc: nat) -> int {
    (lc % 256) as int
}

/// `k` placeholder `nop`s.
pub open spec fn spec_nops(pos: Pos, k: nat) -> Seq<(Pos, Result<Instruction, u8>)> {
    Seq::new(k, |_i: int| (pos, Ok(Instruction::Nop)))
}

/// `k` zero bytes.
pub open spec fn spec_padding(pos: Pos, k: nat) -> Seq<(Pos, Result<Instruction, u8>)> {
    Seq::new(k, |_i: int| (pos, Err(0u8)))
}

/// The instructions that push `value`.
pub open spec fn spec_pushes(pos: Pos, value: u8) -> Seq<(Pos, Result<Instruction, u8>)> {
    Seq::new(spec_push_immediate(value).len(), |i: int| (pos, Ok(spec_push_immediate(value)[i])))
}

/// How a label is quoted in messages.
pub open spec fn spec_label_text(l: LabelView) -> Seq<char> {
    seq!['`'] + spec_token_mnemonic(TokenView::LabelRef(l)) + seq!['`']
}

/// The message for a label defined twice.
pub open spec fn spec_duplicate_label(l: LabelView) -> Seq<char> {
    "Duplicate label definition "@ + spec_label_text(l)
}

/// The message for a reference to a label that is never defined.
pub open spec fn spec_undefined_label(l: LabelView) -> Seq<char> {
    "Reference to undefined label "@ + spec_label_text(l)
}

/// The message for an `@org` whose argument references a label not defined before it.
pub open spec fn spec_unresolved_org(l: LabelView) -> Seq<char> {
    "`@org` argument references currently unresolved label "@ + spec_label_text(l)
}

/// The message for an `@org` to an address below the location counter.
pub open spec fn spec_backward_org(lc: nat, value: u8) -> Seq<char> {
    "`@org` cannot move location counter backward from "@ + spec_hex_pad2(lc) + " to "@
        + spec_hex_pad2(value as nat)
}

/// The message for a `@const` that was not reduced to a constant.
pub open spec fn spec_const_message() -> Seq<char> {
    "`@const` argument could not be reduced to a constant expression"@
}

/// The message for a `@data` without a value.
pub open spec fn spec_data_message() -> Seq<char> {
    "`@data` argument could not be reduced to a constant expression"@
}

/// The message for a `@dyn` without an instruction.
pub open spec fn spec_dyn_message() -> Seq<char> {
    "`@dyn` argument could not be reduced to an instruction"@
}

/// The message for an `@org` without a value.
pub open spec fn spec_org_message() -> Seq<char> {
    "`@org` argument could not be reduced to a constant expression"@
}

/// The state with one more error.
pub open spec fn spec_with_error(st: Pass, pos: Pos, message: Seq<char>) -> Pass {
    Pass { errors: st.errors.push((pos, message)), ..st }
}

/// Defining labels at the location counter, in order; a label defined before is reported, and
/// the new definition takes its place.
pub open spec fn spec_label_defs(st: Pass, pos: Pos, labels: Seq<Label>) -> Pass
    decreases labels.len(),
{
    if labels.len() == 0 {
        st
    } else {
        let st1 = spec_label_defs(st, pos, labels.drop_last());
        let l = labels.last();
        let errors = if spec_label_address(st1.defs, l@) is Some {
            st1.errors.push((pos, spec_duplicate_label(l@)))
        } else {
            st1.errors
        };
        Pass { defs: seq![(l, (st1.out.len() % 256) as u8)] + st1.defs, errors, ..st1 }
    }
}

/// The node `n - 0`, which pushes the negation of `n`.
pub open spec fn spec_negated(n: Node) -> Node {
    Node::Sub(Box::new(n), Box::new(Node::Value(0)))
}

/// One root laid out after the state `st`.
pub open spec fn spec_root_step(st: Pass, pos: Pos, root: Root, sizes: Seq<(Node, usize)>) -> Pass {
    let lc = st.out.len();
    match root {
        Root::Instruction(i) => Pass { out: st.out.push((pos, Ok(i))), ..st },
        Root::Dyn(Some(i)) => Pass { out: st.out.push((pos, Ok(i))), ..st },
        Root::Conditional(n1, n2) => {
            let a1 = spec_allocation(sizes, spec_node_view(n1));
            let a2 = spec_allocation(sizes, spec_node_view(n2));
            if a1 > 1 && a2 > 1 {
                let m1 = spec_negated(n1);
                let m2 = spec_negated(n2);
                let b1 = spec_allocation(sizes, spec_node_view(m1));
                let b2 = spec_allocation(sizes, spec_node_view(m2));
                Pass {
                    out: st.out + spec_nops(pos, b1 + b2) + seq![
                        (pos, Ok(Instruction::Iff(Size(1)))),
                        (pos, Ok(Instruction::Neg)),
                    ],
                    nodes: st.nodes.update(spec_slot(lc), Some((pos, m1))).update(
                        spec_slot(lc + b1),
                        Some((pos, m2)),
                    ),
                    ..st
                }
            } else {
                Pass {
                    out: st.out + spec_nops(pos, a1 + a2) + seq![(pos, Ok(Instruction::Iff(Size(1))))],
                    nodes: st.nodes.update(spec_slot(lc), Some((pos, n1))).update(
                        spec_slot(lc + a1),
                        Some((pos, n2)),
                    ),
                    ..st
                }
            }
        },
        Root::LabelDefs(labels) => spec_label_defs(st, pos, labels@),
        Root::Node(n) => match spec_node_value(n, st.defs) {
            Ok(v) => Pass { out: st.out + spec_pushes(pos, v), ..st },
            Err(_) => Pass {
                out: st.out + spec_nops(pos, spec_allocation(sizes, spec_node_view(n))),
                nodes: st.nodes.update(spec_slot(lc), Some((pos, n))),
                ..st
            },
        },
        Root::Const => spec_with_error(st, pos, spec_const_message()),
        Root::Data(Some(n)) => Pass {
            out: st.out.push((pos, Err(0u8))),
            datas: st.datas.update(spec_slot(lc), Some((pos, n))),
            ..st
        },
        Root::Data(None) => spec_with_error(st, pos, spec_data_message()),
        Root::Dyn(None) => spec_with_error(st, pos, spec_dyn_message()),
        Root::Org(Some(n)) => match spec_node_value(n, st.defs) {
            Ok(v) => if v >= lc {
                Pass { out: st.out + spec_padding(pos, (v - lc) as nat), ..st }
            } else {
                spec_with_error(st, pos, spec_backward_org(lc, v))
            },
            Err(l) => spec_with_error(st, pos, spec_unresolved_org(l)),
        },
        Root::Org(None) => spec_with_error(st, pos, spec_org_message()),
    }
}

/// All roots laid out, in order.
pub open spec fn spec_pass(roots: Seq<(Pos, Root)>, sizes: Seq<(Node, usize)>) -> Pass
    decreases roots.len(),
{
    if roots.len() == 0 {
        spec_pass_start()
    } else {
        spec_root_step(spec_pass(roots.drop_last(), sizes), roots.last().0, roots.last().1, sizes)
    }
}

/// The data bytes at the first `k` addresses filled in, in order of address.
pub open spec fn spec_fill_datas(st: Pass, k: nat) -> Pass
    decreases k,
{
    if k == 0 {
        st
    } else {
        let s = spec_fill_datas(st, (k - 1) as nat);
        match st.datas[k - 1] {
            None => s,
            Some((pos, n)) => match spec_node_value(n, st.defs) {
                Ok(v) => Pass { out: s.out.update(k - 1, (pos, Err(v))), ..s },
                Err(l) => spec_with_error(s, pos, spec_undefined_label(l)),
            },
        }
    }
}

/// `out` with the instructions that push `value` written from address `k` on.
pub open spec fn spec_write_pushes(
    out: Seq<(Pos, Result<Instruction, u8>)>,
    k: int,
    pos: Pos,
    value: u8,
) -> Seq<(Pos, Result<Instruction, u8>)> {
    Seq::new(
        out.len(),
        |i: int|
            if k <= i < k + spec_push_immediate(value).len() {
                (pos, Ok(spec_push_immediate(value)[i - k]))
            } else {
                out[i]
            },
    )
}

/// The nodes at the first `k` addresses filled in, in order of address, stopping at the first
/// node that needs more room than it was given, with that node and the room it needs.
pub open spec fn spec_fill_nodes(st: Pass, sizes: Seq<(Node, usize)>, k: nat) -> (Pass, Option<(Node, nat)>)
    decreases k,
{
    if k == 0 {
        (st, None)
    } else {
        let (s, grow) = spec_fill_nodes(st, sizes, (k - 1) as nat);
        if grow is Some {
            (s, grow)
        } else {
            match st.nodes[k - 1] {
                None => (s, None),
                Some((pos, n)) => match spec_node_value(n, st.defs) {
                    Ok(v) => if spec_push_immediate(v).len() > spec_allocation(sizes, spec_node_view(n)) {
                        (s, Some((n, spec_push_immediate(v).len())))
                    } else {
                        (Pass { out: spec_write_pushes(s.out, k - 1, pos, v), ..s }, None)
                    },
                    Err(l) => (spec_with_error(s, pos, spec_undefined_label(l)), None),
                },
            }
        }
    }
}

/// One attempt at a layout with the given room for nodes: all roots laid out, then the data
/// bytes and the nodes filled in.
pub open spec fn spec_attempt(roots: Seq<(Pos, Root)>, sizes: Seq<(Node, usize)>) -> (Pass, Option<(Node, nat)>) {
    spec_fill_nodes(spec_fill_datas(spec_pass(roots, sizes), 256), sizes, 256)
}

/// The nodes that may need room: those pushed by a root and the two operands of a conditional,
/// each also negated.
pub open spec fn spec_root_candidates(root: Root) -> Seq<Node> {
    match root {
        Root::Node(n) => seq![n],
        Root::Conditional(a, b) => seq![a, b, spec_negated(a), spec_negated(b)],
        _ => Seq::empty(),
    }
}

/// The nodes of all roots that may need room.
pub open spec fn spec_candidates(roots: Seq<(Pos, Root)>) -> Seq<Node>
    decreases roots.len(),
{
    if roots.len() == 0 {
        Seq::empty()
    } else {
        spec_candidates(roots.drop_last()) + spec_root_candidates(roots.last().1)
    }
}

/// How far the nodes are from the most room any of them can need: two bytes each.
pub open spec fn spec_deficit(nodes: Seq<Node>, sizes: Seq<(Node, usize)>) -> nat
    decreases nodes.len(),
{
    if nodes.len() == 0 {
        0
    } else {
        let a = spec_allocation(sizes, spec_node_view(nodes.last()));
        spec_deficit(nodes.drop_last(), sizes) + if a < 2 { (2 - a) as nat } else { 0 }
    }
}

/// Defining labels leaves the instructions and the nodes and data bytes to fill in as they are.
proof fn lemma_label_defs_keeps(st: Pass, pos: Pos, labels: Seq<Label>)
    ensures
        spec_label_defs(st, pos, labels).out == st.out,
        spec_label_defs(st, pos, labels).nodes == st.nodes,
        spec_label_defs(st, pos, labels).datas == st.datas,
    decreases labels.len(),
{
    if labels.len() > 0 {
        lemma_label_defs_keeps(st, pos, labels.drop_last());
    }
}

/// A location counter is at least its address.
proof fn lemma_slot(lc: nat)
    ensures
        0 <= spec_slot(lc) <= lc,
        spec_slot(lc) < 256,
{
}

/// What a pass keeps: 256 addresses for nodes and for data bytes; each node to fill in may need
/// room, and its room lies within the instructions; each data byte lies within them.
pub open spec fn spec_pass_wf(p: Pass, roots: Seq<(Pos, Root)>, sizes: Seq<(Node, usize)>) -> bool {
    &&& p.nodes.len() == 256
    &&& p.datas.len() == 256
    &&& forall|k: int| 0 <= k < 256 && #[trigger] p.nodes[k] is Some ==> {
        &&& spec_candidates(roots).contains(p.nodes[k].unwrap().1)
        &&& k + spec_allocation(sizes, spec_node_view(p.nodes[k].unwrap().1)) <= p.out.len()
    }
    &&& forall|k: int| 0 <= k < 256 && #[trigger] p.datas[k] is Some ==> k < p.out.len()
}

/// Every pass keeps `spec_pass_wf`.
proof fn lemma_pass_wf(roots: Seq<(Pos, Root)>, sizes: Seq<(Node, usize)>)
    ensures
        spec_pass_wf(spec_pass(roots, sizes), roots, sizes),
    decreases roots.len(),
{
    if roots.len() > 0 {
        let prev = roots.drop_last();
        lemma_pass_wf(prev, sizes);
        let st = spec_pass(prev, sizes);
        let (pos, root) = roots.last();
        let p = spec_pass(roots, sizes);
        let lc = st.out.len();
        lemma_slot(lc);
        let c0 = spec_candidates(prev);
        let c = spec_candidates(roots);
        assert(c == c0 + spec_root_candidates(root));
        assert forall|x: Node| c0.contains(x) implies c.contains(x) by {
            let j = choose|j: int| 0 <= j < c0.len() && c0[j] == x;
            assert(c[j] == x);
        }
        match root {
            Root::LabelDefs(labels) => {
                lemma_label_defs_keeps(st, pos, labels@);
            },
            Root::Node(n) => {
                assert(c[c0.len() as int] == n);
            },
            Root::Conditional(n1, n2) => {
                assert(c[c0.len() as int] == n1);
                assert(c[c0.len() as int + 1] == n2);
                assert(c[c0.len() as int + 2] == spec_negated(n1));
                assert(c[c0.len() as int + 3] == spec_negated(n2));
                let a1 = spec_allocation(sizes, spec_node_view(n1));
                let b1 = spec_allocation(sizes, spec_node_view(spec_negated(n1)));
                lemma_slot(lc + a1);
                lemma_slot(lc + b1);
            },
            _ => {},
        }
    }
}

/// The addresses of a pass: 256 for nodes and for data bytes, each data byte within the
/// instructions.
pub open spec fn spec_pass_wf_bounds(p: Pass) -> bool {
    &&& p.nodes.len() == 256
    &&& p.datas.len() == 256
    &&& forall|k: int| 0 <= k < 256 && #[trigger] p.datas[k] is Some ==> k < p.out.len()
}

/// The addresses of a pass, with the room of each node within the instructions.
pub open spec fn spec_pass_wf_bounds_sized(p: Pass, sizes: Seq<(Node, usize)>) -> bool {
    &&& p.nodes.len() == 256
    &&& forall|k: int| 0 <= k < 256 && #[trigger] p.nodes[k] is Some
        ==> k + spec_allocation(sizes, spec_node_view(p.nodes[k].unwrap().1)) <= p.out.len()
}

/// Once a node needs more room, later addresses change nothing.
proof fn lemma_fill_nodes_after_grow(st: Pass, sizes: Seq<(Node, usize)>, k: nat)
    ensures
        spec_fill_nodes(st, sizes, k).1 is Some ==> forall|m: nat| k <= m ==> #[trigger] spec_fill_nodes(st, sizes, m) == spec_fill_nodes(st, sizes, k),
    decreases 256 - k,
{
    if spec_fill_nodes(st, sizes, k).1 is Some {
        assert forall|m: nat| k <= m implies #[trigger] spec_fill_nodes(st, sizes, m) == spec_fill_nodes(st, sizes, k) by {
            lemma_fill_nodes_stays(st, sizes, k, m);
        }
    }
}

/// Once a node needs more room, the result stays.
proof fn lemma_fill_nodes_stays(st: Pass, sizes: Seq<(Node, usize)>, k: nat, m: nat)
    requires
        k <= m,
        spec_fill_nodes(st, sizes, k).1 is Some,
    ensures
        spec_fill_nodes(st, sizes, m) == spec_fill_nodes(st, sizes, k),
    decreases m - k,
{
    if m > k {
        lemma_fill_nodes_stays(st, sizes, k, (m - 1) as nat);
    }
}

/// Filling in data bytes changes only the instructions, in place, and the errors.
proof fn lemma_fill_datas_keeps(st: Pass, k: nat)
    requires
        forall|j: int| 0 <= j < k && #[trigger] st.datas[j] is Some ==> j < st.out.len(),
    ensures
        spec_fill_datas(st, k).out.len() == st.out.len(),
        spec_fill_datas(st, k).defs == st.defs,
        spec_fill_datas(st, k).nodes == st.nodes,
        spec_fill_datas(st, k).datas == st.datas,
    decreases k,
{
    if k > 0 {
        lemma_fill_datas_keeps(st, (k - 1) as nat);
    }
}

/// A node that needs more room is one of the nodes to fill in, and needs one or two bytes more
/// than it was given.
proof fn lemma_fill_nodes_grow(st: Pass, sizes: Seq<(Node, usize)>, k: nat)
    requires
        k <= st.nodes.len(),
    ensures
        spec_fill_nodes(st, sizes, k).1 matches Some((n, len)) ==> {
            &&& exists|j: int| 0 <= j < k && #[trigger] st.nodes[j] is Some && st.nodes[j].unwrap().1 == n
            &&& spec_allocation(sizes, spec_node_view(n)) < len <= 2
        },
    decreases k,
{
    if k > 0 {
        lemma_fill_nodes_grow(st, sizes, (k - 1) as nat);
        let j = k - 1;
        if spec_fill_nodes(st, sizes, (k - 1) as nat).1 is None {
            if st.nodes[j] is Some {
                assert(st.nodes[j] is Some);
            }
        }
    }
}

/// The room given to nodes after one more entry: that entry's room for its node, the old room
/// for any other.
proof fn lemma_allocation_insert(sizes: Seq<(Node, usize)>, n: Node, len: usize, v: NodeView)
    ensures
        spec_allocation(seq![(n, len)] + sizes, v) == if spec_node_view(n) == v {
            len as nat
        } else {
            spec_allocation(sizes, v)
        },
{
    let s = seq![(n, len)] + sizes;
    assert(s[0] == (n, len));
    assert(s.drop_first() =~= sizes);
}

/// More room for one node, up to two bytes, never raises the deficit, and lowers it when that
/// node is among the nodes.
proof fn lemma_deficit_decreases(nodes: Seq<Node>, sizes: Seq<(Node, usize)>, n: Node, len: usize)
    requires
        spec_allocation(sizes, spec_node_view(n)) < len <= 2,
    ensures
        spec_deficit(nodes, seq![(n, len)] + sizes) <= spec_deficit(nodes, sizes),
        nodes.contains(n) ==> spec_deficit(nodes, seq![(n, len)] + sizes) < spec_deficit(nodes, sizes),
    decreases nodes.len(),
{
    if nodes.len() > 0 {
        let rest = nodes.drop_last();
        lemma_deficit_decreases(rest, sizes, n, len);
        lemma_allocation_insert(sizes, n, len, spec_node_view(nodes.last()));
        if nodes.contains(n) && nodes.last() != n {
            let j = choose|j: int| 0 <= j < nodes.len() && nodes[j] == n;
            assert(rest[j] == n);
        }
    }
}

/// An attempt that asks for more room for a node leaves less deficit for the next one.
pub proof fn lemma_attempt_decreases(roots: Seq<(Pos, Root)>, sizes: Seq<(Node, usize)>)
    ensures
        spec_attempt(roots, sizes).1 matches Some((n, len)) ==> spec_deficit(
            spec_candidates(roots),
            seq![(n, len as usize)] + sizes,
        ) < spec_deficit(spec_candidates(roots), sizes),
{
    let p = spec_pass(roots, sizes);
    lemma_pass_wf(roots, sizes);
    let d = spec_fill_datas(p, 256);
    lemma_fill_datas_keeps(p, 256);
    lemma_fill_nodes_grow(d, sizes, 256);
    if let Some((n, len)) = spec_attempt(roots, sizes).1 {
        let j = choose|j: int| 0 <= j < 256 && #[trigger] d.nodes[j] is Some && d.nodes[j].unwrap().1 == n;
        assert(p.nodes[j] is Some);
        lemma_deficit_decreases(spec_candidates(roots), sizes, n, len as usize);
    }
}

/// The layout: attempts with more room for the node that needed it, until an attempt fills in
/// every node or reports an error; its instructions and errors.
pub open spec fn spec_layout(roots: Seq<(Pos, Root)>, sizes: Seq<(Node, usize)>) -> (
    Seq<(Pos, Result<Instruction, u8>)>,
    Seq<(Pos, Seq<char>)>,
)
    decreases spec_deficit(spec_candidates(roots), sizes),
{
    let attempt = spec_attempt(roots, sizes);
    let s = attempt.0;
    match attempt.1 {
        Some((n, len)) => if s.errors.len() == 0 {
            proof {
                lemma_attempt_decreases(roots, sizes);
            }
            spec_layout(roots, seq![(n, len as usize)] + sizes)
        } else {
            (s.out, s.errors)
        },
        None => (s.out, s.errors),
    }
}

/// Whether a label has its scope: a local label must belong to a macro expansion.
pub open spec fn spec_scoped(l: Label) -> bool {
    !(l matches Label::Local(_, None))
}

/// Whether every label a root defines has its scope.
pub open spec fn spec_root_scoped(root: Root) -> bool {
    root matches Root::LabelDefs(labels) ==> forall|j: int| 0 <= j < labels@.len() ==> spec_scoped(#[trigger] labels@[j])
}

/// A copy of a node.
fn copy_node(n: &Node) -> (r: Node)
    ensures
        r == *n,
    decreases n,
{
    match n {
        Node::LabelRef(l) => Node::LabelRef(copy_label(l)),
        Node::Value(v) => Node::Value(*v),
        Node::Add(a, b) => Node::Add(Box::new(copy_node(a)), Box::new(copy_node(b))),
        Node::Sub(a, b) => Node::Sub(Box::new(copy_node(a)), Box::new(copy_node(b))),
        Node::Rot(a, b) => Node::Rot(Box::new(copy_node(a)), Box::new(copy_node(b))),
        Node::Orr(a, b) => Node::Orr(Box::new(copy_node(a)), Box::new(copy_node(b))),
        Node::And(a, b) => Node::And(Box::new(copy_node(a)), Box::new(copy_node(b))),
        Node::Xor(a, b) => Node::Xor(Box::new(copy_node(a)), Box::new(copy_node(b))),
        Node::Xnd(a, b) => Node::Xnd(Box::new(copy_node(a)), Box::new(copy_node(b))),
        Node::Shl(a) => Node::Shl(Box::new(copy_node(a))),
        Node::Shr(a) => Node::Shr(Box::new(copy_node(a))),
        Node::Not(a) => Node::Not(Box::new(copy_node(a))),
    }
}

/// Whether two nodes are the same key.
fn node_eq(a: &Node, b: &Node) -> (r: bool)
    ensures
        r == (spec_node_view(*a) == spec_node_view(*b)),
    decreases a,
{
    match (a, b) {
        (Node::LabelRef(x), Node::LabelRef(y)) => label_eq(x, y),
        (Node::Value(x), Node::Value(y)) => *x == *y,
        (Node::Add(a1, a2), Node::Add(b1, b2)) => node_eq(a1, b1) && node_eq(a2, b2),
        (Node::Sub(a1, a2), Node::Sub(b1, b2)) => node_eq(a1, b1) && node_eq(a2, b2),
        (Node::Rot(a1, a2), Node::Rot(b1, b2)) => node_eq(a1, b1) && node_eq(a2, b2),
        (Node::Orr(a1, a2), Node::Orr(b1, b2)) => node_eq(a1, b1) && node_eq(a2, b2),
        (Node::And(a1, a2), Node::And(b1, b2)) => node_eq(a1, b1) && node_eq(a2, b2),
        (Node::Xor(a1, a2), Node::Xor(b1, b2)) => node_eq(a1, b1) && node_eq(a2, b2),
        (Node::Xnd(a1, a2), Node::Xnd(b1, b2)) => node_eq(a1, b1) && node_eq(a2, b2),
        (Node::Shl(x), Node::Shl(y)) => node_eq(x, y),
        (Node::Shr(x), Node::Shr(y)) => node_eq(x, y),
        (Node::Not(x), Node::Not(y)) => node_eq(x, y),
        _ => false,
    }
}

/// Whether every entry gives at most two bytes.
pub open spec fn spec_sizes_bounded(sizes: Seq<(Node, usize)>) -> bool {
    forall|i: int| 0 <= i < sizes.len() ==> #[trigger] sizes[i].1 <= 2
}

/// With bounded entries, a node is given at most two bytes.
proof fn lemma_allocation_bounded(sizes: Seq<(Node, usize)>, v: NodeView)
    requires
        spec_sizes_bounded(sizes),
    ensures
        spec_allocation(sizes, v) <= 2,
    decreases sizes.len(),
{
    if sizes.len() > 0 {
        assert(sizes[0].1 <= 2);
        assert forall|i: int| 0 <= i < sizes.drop_first().len() implies #[trigger] sizes.drop_first()[i].1 <= 2 by {
            assert(sizes.drop_first()[i] == sizes[i + 1]);
        }
        lemma_allocation_bounded(sizes.drop_first(), v);
    }
}

/// The room given to a node.
fn allocation_size(sizes: &Vec<(Node, usize)>, n: &Node) -> (r: usize)
    ensures
        r == spec_allocation(sizes@, spec_node_view(*n)),
{
    let mut i: usize = 0;
    assert(sizes@.subrange(0, sizes.len() as int) == sizes@);
    while i < sizes.len()
        invariant
            i <= sizes.len(),
            spec_allocation(sizes@, spec_node_view(*n)) == spec_allocation(
                sizes@.subrange(i as int, sizes.len() as int),
                spec_node_view(*n),
            ),
        decreases sizes.len() - i,
    {
        let ghost rest = sizes@.subrange(i as int, sizes.len() as int);
        assert(rest[0] == sizes@[i as int]);
        assert(rest.drop_first() == sizes@.subrange(i + 1, sizes.len() as int));
        if node_eq(&sizes[i].0, n) {
            return sizes[i].1;
        }
        i = i + 1;
    }
    1
}

/// Appends how a label is quoted in messages.
fn push_label_text(out: &mut Vec<char>, l: &Label)
    ensures
        final(out)@ == old(out)@ + spec_label_text(l@),
{
    let token = Token::LabelRef(copy_label(l));
    let mnemonic = token_to_mnemonic(token);
    let mut text = string_chars(&mnemonic.0);
    out.push('`');
    out.append(&mut text);
    out.push('`');
    assert(out@ =~= old(out)@ + spec_label_text(l@));
}

/// A message followed by a quoted label.
fn label_message(prefix: &str, l: &Label) -> (r: Vec<char>)
    ensures
        r@ == prefix@ + spec_label_text(l@),
{
    let mut message = chars_of(prefix);
    push_label_text(&mut message, l);
    message
}

/// The state of a layout pass, as it is computed.
struct PassState {
    out: Vec<(Pos, Result<Instruction, u8>)>,
    defs: Vec<(Label, u8)>,
    nodes: Vec<Option<(Pos, Node)>>,
    datas: Vec<Option<(Pos, Node)>>,
    errors: Vec<(Pos, Error)>,
}

impl View for PassState {
    type V = Pass;

    closed spec fn view(&self) -> Pass {
        Pass {
            out: self.out@,
            defs: self.defs@,
            nodes: self.nodes@,
            datas: self.datas@,
            errors: spec_errors(self.errors@),
        }
    }
}

impl PassState {
    /// Reports an error.
    fn report(&mut self, pos: &Pos, message: Vec<char>)
        ensures
            final(self)@ == spec_with_error(old(self)@, *pos, message@),
    {
        self.errors.push((copy_pos(pos), Error(string_from_chars(&message))));
        assert(spec_errors(self.errors@) =~= spec_errors(old(self).errors@).push((*pos, message@)));
    }

    /// Appends `k` placeholder `nop`s.
    fn push_nops(&mut self, pos: &Pos, k: usize)
        ensures
            final(self)@ == (Pass { out: old(self)@.out + spec_nops(*pos, k as nat), ..old(self)@ }),
    {
        let ghost start = self.out@;
        let mut i: usize = 0;
        while i < k
            invariant
                i <= k,
                self.defs@ == old(self).defs@,
                self.nodes@ == old(self).nodes@,
                self.datas@ == old(self).datas@,
                self.errors@ == old(self).errors@,
                start == old(self).out@,
                self.out@ =~= start + spec_nops(*pos, i as nat),
            decreases k - i,
        {
            self.out.push((copy_pos(pos), Ok(Instruction::Nop)));
            i = i + 1;
            assert(self.out@ =~= start + spec_nops(*pos, i as nat));
        }
    }

    /// Appends `k` zero bytes.
    fn push_padding(&mut self, pos: &Pos, k: usize)
        ensures
            final(self)@ == (Pass { out: old(self)@.out + spec_padding(*pos, k as nat), ..old(self)@ }),
    {
        let ghost start = self.out@;
        let mut i: usize = 0;
        while i < k
            invariant
                i <= k,
                self.defs@ == old(self).defs@,
                self.nodes@ == old(self).nodes@,
                self.datas@ == old(self).datas@,
                self.errors@ == old(self).errors@,
                start == old(self).out@,
                self.out@ =~= start + spec_padding(*pos, i as nat),
            decreases k - i,
        {
            self.out.push((copy_pos(pos), Err(0u8)));
            i = i + 1;
            assert(self.out@ =~= start + spec_padding(*pos, i as nat));
        }
    }

    /// Appends the instructions that push `value`.
    fn push_value(&mut self, pos: &Pos, value: u8)
        ensures
            final(self)@ == (Pass { out: old(self)@.out + spec_pushes(*pos, value), ..old(self)@ }),
    {
        let pushes = codegen_push_immediate(value, pos);
        let ghost start = self.out@;
        let mut i: usize = 0;
        while i < pushes.len()
            invariant
                i <= pushes@.len(),
                pushes@.len() == spec_push_immediate(value).len(),
                forall|j: int| #![trigger pushes@[j]] 0 <= j < pushes@.len() ==> pushes@[j].0 == *pos && pushes@[j].1 == spec_push_immediate(value)[j],
                self.defs@ == old(self).defs@,
                self.nodes@ == old(self).nodes@,
                self.datas@ == old(self).datas@,
                self.errors@ == old(self).errors@,
                start == old(self).out@,
                self.out@ =~= start + spec_pushes(*pos, value).subrange(0, i as int),
            decreases pushes.len() - i,
        {
            self.out.push((copy_pos(&pushes[i].0), Ok(pushes[i].1)));
            i = i + 1;
            assert(self.out@ =~= start + spec_pushes(*pos, value).subrange(0, i as int));
        }
        assert(spec_pushes(*pos, value).subrange(0, i as int) =~= spec_pushes(*pos, value));
    }

    /// Defines labels at the location counter, reporting those defined before.
    fn define_labels(&mut self, pos: &Pos, labels: &Vec<Label>)
        requires
            forall|j: int| 0 <= j < labels@.len() ==> spec_scoped(#[trigger] labels@[j]),
        ensures
            final(self)@ == spec_label_defs(old(self)@, *pos, labels@),
    {
        let mut j: usize = 0;
        assert(labels@.subrange(0, 0) =~= Seq::<Label>::empty());
        while j < labels.len()
            invariant
                j <= labels@.len(),
                self@ == spec_label_defs(old(self)@, *pos, labels@.subrange(0, j as int)),
            decreases labels.len() - j,
        {
            let ghost before = self@;
            let l = &labels[j];
            let lc = self.out.len();
            proof {
                let sub = labels@.subrange(0, j + 1);
                assert(sub.drop_last() =~= labels@.subrange(0, j as int));
                assert(sub.last() == labels@[j as int]);
            }
            if label_address(&self.defs, l).is_some() {
                let message = label_message("Duplicate label definition ", l);
                self.report(pos, message);
            }
            self.defs.insert(0, (copy_label(l), (lc % 256) as u8));
            assert(self.defs@ =~= seq![(*l, (lc % 256) as u8)] + before.defs);
            j = j + 1;
        }
        assert(labels@.subrange(0, labels@.len() as int) =~= labels@);
    }

    /// Lays out one root.
    #[verifier::rlimit(50)]
    fn lay_out_root(&mut self, pos: &Pos, root: &Root, sizes: &Vec<(Node, usize)>)
        requires
            old(self)@.nodes.len() == 256,
            old(self)@.datas.len() == 256,
            old(self)@.out.len() + 256 <= usize::MAX,
            spec_sizes_bounded(sizes@),
            spec_root_scoped(*root),
        ensures
            final(self)@ == spec_root_step(old(self)@, *pos, *root, sizes@),
            final(self)@.out.len() <= old(self)@.out.len() + 256,
    {
        let lc = self.out.len();
        let ghost st = self@;
        match root {
            Root::Instruction(i) => {
                self.out.push((copy_pos(pos), Ok(*i)));
            },
            Root::Dyn(Some(i)) => {
                self.out.push((copy_pos(pos), Ok(*i)));
            },
            Root::Conditional(n1, n2) => {
                let a1 = allocation_size(sizes, n1);
                let a2 = allocation_size(sizes, n2);
                proof {
                    lemma_allocation_bounded(sizes@, spec_node_view(*n1));
                    lemma_allocation_bounded(sizes@, spec_node_view(*n2));
                }
                if a1 > 1 && a2 > 1 {
                    let m1 = Node::Sub(Box::new(copy_node(n1)), Box::new(Node::Value(0)));
                    let m2 = Node::Sub(Box::new(copy_node(n2)), Box::new(Node::Value(0)));
                    assert(m1 == spec_negated(*n1));
                    assert(m2 == spec_negated(*n2));
                    let b1 = allocation_size(sizes, &m1);
                    let b2 = allocation_size(sizes, &m2);
                    proof {
                        lemma_allocation_bounded(sizes@, spec_node_view(m1));
                        lemma_allocation_bounded(sizes@, spec_node_view(m2));
                    }
                    self.push_nops(pos, b1 + b2);
                    self.out.push((copy_pos(pos), Ok(Instruction::Iff(Size(1)))));
                    self.out.push((copy_pos(pos), Ok(Instruction::Neg)));
                    let k1 = lc % 256;
                    let k2 = (lc + b1) % 256;
                    self.nodes.set(k1, Some((copy_pos(pos), m1)));
                    self.nodes.set(k2, Some((copy_pos(pos), m2)));
                    assert(self.out@ =~= st.out + spec_nops(*pos, (b1 + b2) as nat) + seq![
                        (*pos, Ok(Instruction::Iff(Size(1)))),
                        (*pos, Ok(Instruction::Neg)),
                    ]);
                } else {
                    self.push_nops(pos, a1 + a2);
                    self.out.push((copy_pos(pos), Ok(Instruction::Iff(Size(1)))));
                    let k1 = lc % 256;
                    let k2 = (lc + a1) % 256;
                    self.nodes.set(k1, Some((copy_pos(pos), copy_node(n1))));
                    self.nodes.set(k2, Some((copy_pos(pos), copy_node(n2))));
                    assert(self.out@ =~= st.out + spec_nops(*pos, (a1 + a2) as nat) + seq![
                        (*pos, Ok(Instruction::Iff(Size(1)))),
                    ]);
                }
            },
            Root::LabelDefs(labels) => {
                self.define_labels(pos, labels);
                proof {
                    lemma_label_defs_keeps(st, *pos, labels@);
                }
            },
            Root::Node(n) => {
                match resolve_node_value(n, &self.defs) {
                    Ok(v) => {
                        self.push_value(pos, v);
                    },
                    Err(_) => {
                        let a = allocation_size(sizes, n);
                        proof {
                            lemma_allocation_bounded(sizes@, spec_node_view(*n));
                        }
                        self.push_nops(pos, a);
                        self.nodes.set(lc % 256, Some((copy_pos(pos), copy_node(n))));
                    },
                }
            },
            Root::Const => {
                self.report(pos, chars_of("`@const` argument could not be reduced to a constant expression"));
            },
            Root::Data(Some(n)) => {
                self.out.push((copy_pos(pos), Err(0u8)));
                self.datas.set(lc % 256, Some((copy_pos(pos), copy_node(n))));
            },
            Root::Data(None) => {
                self.report(pos, chars_of("`@data` argument could not be reduced to a constant expression"));
            },
            Root::Dyn(None) => {
                self.report(pos, chars_of("`@dyn` argument could not be reduced to an instruction"));
            },
            Root::Org(Some(n)) => {
                match resolve_node_value(n, &self.defs) {
                    Ok(v) => {
                        if v as usize >= lc {
                            self.push_padding(pos, v as usize - lc);
                        } else {
                            let mut message = chars_of("`@org` cannot move location counter backward from ");
                            push_hex_pad2(&mut message, lc);
                            push_str(&mut message, " to ");
                            push_hex_pad2(&mut message, v as usize);
                            assert(message@ =~= spec_backward_org(lc as nat, v));
                            self.report(pos, message);
                        }
                    },
                    Err(l) => {
                        let message = label_message("`@org` argument references currently unresolved label ", &l);
                        self.report(pos, message);
                    },
                }
            },
            Root::Org(None) => {
                self.report(pos, chars_of("`@org` argument could not be reduced to a constant expression"));
            },
        }
    }
}

/// Whether every root defines only labels with their scope.
pub open spec fn spec_roots_scoped(roots: Seq<(Pos, Root)>) -> bool {
    forall|i: int| 0 <= i < roots.len() ==> spec_root_scoped(#[trigger] roots[i].1)
}

/// Lays out all roots.
fn lay_out_pass(roots: &Vec<(Pos, Root)>, sizes: &Vec<(Node, usize)>) -> (st: PassState)
    requires
        256 * roots@.len() <= usize::MAX,
        spec_sizes_bounded(sizes@),
        spec_roots_scoped(roots@),
    ensures
        st@ == spec_pass(roots@, sizes@),
{
    let mut nodes: Vec<Option<(Pos, Node)>> = Vec::new();
    let mut datas: Vec<Option<(Pos, Node)>> = Vec::new();
    let mut k: usize = 0;
    while k < 256
        invariant
            k <= 256,
            nodes@ =~= Seq::new(k as nat, |_j: int| None::<(Pos, Node)>),
            datas@ =~= Seq::new(k as nat, |_j: int| None::<(Pos, Node)>),
        decreases 256 - k,
    {
        nodes.push(None);
        datas.push(None);
        k = k + 1;
    }
    let mut st = PassState { out: Vec::new(), defs: Vec::new(), nodes, datas, errors: Vec::new() };
    assert(spec_errors(st.errors@) =~= Seq::empty());
    assert(st@ == spec_pass_start());
    assert(roots@.subrange(0, 0) =~= Seq::<(Pos, Root)>::empty());
    let mut i: usize = 0;
    while i < roots.len()
        invariant
            i <= roots@.len(),
            256 * roots@.len() <= usize::MAX,
            spec_sizes_bounded(sizes@),
            spec_roots_scoped(roots@),
            st@ == spec_pass(roots@.subrange(0, i as int), sizes@),
            st@.out.len() <= 256 * i,
        decreases roots.len() - i,
    {
        proof {
            lemma_pass_wf(roots@.subrange(0, i as int), sizes@);
            assert(256 * i + 256 <= 256 * roots@.len()) by (nonlinear_arith)
                requires
                    i < roots@.len(),
            ;
            let sub = roots@.subrange(0, i + 1);
            assert(sub.drop_last() =~= roots@.subrange(0, i as int));
            assert(sub.last() == roots@[i as int]);
        }
        st.lay_out_root(&roots[i].0, &roots[i].1, sizes);
        i = i + 1;
    }
    assert(roots@.subrange(0, roots@.len() as int) =~= roots@);
    st
}

impl PassState {
    /// Fills in the data bytes, in order of address.
    fn fill_datas(&mut self)
        requires
            spec_pass_wf_bounds(old(self)@),
        ensures
            final(self)@ == spec_fill_datas(old(self)@, 256),
    {
        let ghost st = self@;
        let mut k: usize = 0;
        while k < 256
            invariant
                k <= 256,
                spec_pass_wf_bounds(st),
                self@ == spec_fill_datas(st, k as nat),
            decreases 256 - k,
        {
            proof {
                lemma_fill_datas_keeps(st, k as nat);
            }
            let entry = match &self.datas[k] {
                Some((p, n)) => Some((copy_pos(p), copy_node(n))),
                None => None,
            };
            match entry {
                None => {},
                Some((pos, n)) => {
                    match resolve_node_value(&n, &self.defs) {
                        Ok(v) => {
                            self.out.set(k, (pos, Err(v)));
                        },
                        Err(l) => {
                            let message = label_message("Reference to undefined label ", &l);
                            self.report(&pos, message);
                        },
                    }
                },
            }
            k = k + 1;
        }
    }

    /// Writes the instructions that push `value` from address `k` on.
    fn write_pushes(&mut self, k: usize, pos: &Pos, value: u8)
        requires
            k + spec_push_immediate(value).len() <= old(self).out@.len(),
        ensures
            final(self)@ == (Pass { out: spec_write_pushes(old(self)@.out, k as int, *pos, value), ..old(self)@ }),
    {
        let pushes = codegen_push_immediate(value, pos);
        let ghost start = self.out@;
        let mut i: usize = 0;
        while i < pushes.len()
            invariant
                i <= pushes@.len(),
                k + pushes@.len() <= self.out.len(),
                self.out@.len() == start.len(),
                pushes@.len() == spec_push_immediate(value).len(),
                forall|j: int| #![trigger pushes@[j]] 0 <= j < pushes@.len() ==> pushes@[j].0 == *pos && pushes@[j].1 == spec_push_immediate(value)[j],
                self.defs@ == old(self).defs@,
                self.nodes@ == old(self).nodes@,
                self.datas@ == old(self).datas@,
                self.errors@ == old(self).errors@,
                start == old(self).out@,
                self.out@ =~= Seq::new(
                    start.len(),
                    |j: int| if k <= j < k + i { (*pos, Ok(spec_push_immediate(value)[j - k])) } else { start[j] },
                ),
            decreases pushes.len() - i,
        {
            self.out.set(k + i, (copy_pos(&pushes[i].0), Ok(pushes[i].1)));
            i = i + 1;
        }
        assert(self.out@ =~= spec_write_pushes(start, k as int, *pos, value));
    }

    /// Fills in the nodes, in order of address, stopping at the first that needs more room
    /// than it was given, which is returned with the room it needs.
    fn fill_nodes(&mut self, sizes: &Vec<(Node, usize)>) -> (grow: Option<(Node, usize)>)
        requires
            spec_pass_wf_bounds_sized(old(self)@, sizes@),
        ensures
            final(self)@ == spec_fill_nodes(old(self)@, sizes@, 256).0,
            grow is Some <==> spec_fill_nodes(old(self)@, sizes@, 256).1 is Some,
            grow matches Some((n, len)) ==> spec_fill_nodes(old(self)@, sizes@, 256).1 == Some((n, len as nat)) && len <= 2,
    {
        let ghost st = self@;
        let mut k: usize = 0;
        while k < 256
            invariant
                k <= 256,
                st == old(self)@,
                spec_pass_wf_bounds_sized(st, sizes@),
                spec_fill_nodes(st, sizes@, k as nat).1 is None,
                self@ == spec_fill_nodes(st, sizes@, k as nat).0,
                self@.out.len() == st.out.len(),
                self@.defs == st.defs,
                self@.nodes == st.nodes,
            decreases 256 - k,
        {
            let entry = match &self.nodes[k] {
                Some((p, n)) => Some((copy_pos(p), copy_node(n))),
                None => None,
            };
            match entry {
                None => {},
                Some((pos, n)) => {
                    match resolve_node_value(&n, &self.defs) {
                        Ok(v) => {
                            let needed = codegen_push_immediate(v, &pos).len();
                            let room = allocation_size(sizes, &n);
                            if needed > room {
                                proof {
                                    assert(st.nodes[k as int] == Some((pos, n)));
                                    assert(spec_fill_nodes(st, sizes@, (k + 1) as nat) == (self@, Some((n, needed as nat))));
                                    lemma_fill_nodes_after_grow(st, sizes@, (k + 1) as nat);
                                    assert(spec_fill_nodes(st, sizes@, 256) == spec_fill_nodes(st, sizes@, (k + 1) as nat));
                                }
                                return Some((n, needed));
                            }
                            self.write_pushes(k, &pos, v);
                        },
                        Err(l) => {
                            let message = label_message("Reference to undefined label ", &l);
                            self.report(&pos, message);
                        },
                    }
                },
            }
            k = k + 1;
        }
        None
    }
}

/// One attempt at a layout with the given room for nodes.
fn attempt(roots: &Vec<(Pos, Root)>, sizes: &Vec<(Node, usize)>) -> (r: (PassState, Option<(Node, usize)>))
    requires
        256 * roots@.len() <= usize::MAX,
        spec_sizes_bounded(sizes@),
        spec_roots_scoped(roots@),
    ensures
        r.0@ == spec_attempt(roots@, sizes@).0,
        r.1 is Some <==> spec_attempt(roots@, sizes@).1 is Some,
        r.1 matches Some((n, len)) ==> spec_attempt(roots@, sizes@).1 == Some((n, len as nat)) && len <= 2,
{
    let mut st = lay_out_pass(roots, sizes);
    let ghost p = st@;
    proof {
        lemma_pass_wf(roots@, sizes@);
    }
    st.fill_datas();
    proof {
        lemma_fill_datas_keeps(p, 256);
    }
    let grow = st.fill_nodes(sizes);
    (st, grow)
}

/// Lays out roots as instructions: each root in turn at the location counter, a node whose
/// labels are all defined before it pushed directly, any other given room and filled in once
/// every label is known, as are data bytes. When a node needs more room than it was given, the
/// layout is attempted again with that room for it, until an attempt fills in every node or
/// reports an error. Returns the instructions of the last attempt, whose errors are appended to
/// `errors`. A root lays out at most 256 instructions, so their count must fit in `usize`.
pub fn layout(roots: &Vec<(Pos, Root)>, errors: &mut Vec<(Pos, Error)>) -> (r: Vec<(Pos, Result<Instruction, u8>)>)
    requires
        256 * roots@.len() <= usize::MAX,
        spec_roots_scoped(roots@),
    ensures
        r@ == spec_layout(roots@, Seq::empty()).0,
        spec_errors(final(errors)@) == spec_errors(old(errors)@) + spec_layout(roots@, Seq::empty()).1,
        spec_roots_valid(roots@) ==> spec_out_valid(r@),
{
    proof {
        if spec_roots_valid(roots@) {
            lemma_layout_valid(roots@);
        }
    }
    let mut sizes: Vec<(Node, usize)> = Vec::new();
    loop
        invariant
            256 * roots@.len() <= usize::MAX,
            spec_roots_scoped(roots@),
            spec_sizes_bounded(sizes@),
            spec_layout(roots@, sizes@) == spec_layout(roots@, Seq::empty()),
            spec_roots_valid(roots@) ==> spec_out_valid(spec_layout(roots@, Seq::empty()).0),
            errors@ == old(errors)@,
        decreases spec_deficit(spec_candidates(roots@), sizes@),
    {
        let (st, grow) = attempt(roots, &sizes);
        let PassState { out, defs: _, nodes: _, datas: _, errors: mut attempt_errors } = st;
        let ghost old_errors = errors@;
        match grow {
            Some((n, len)) => {
                if attempt_errors.len() == 0 {
                    proof {
                        lemma_attempt_decreases(roots@, sizes@);
                    }
                    let ghost before = sizes@;
                    sizes.insert(0, (n, len));
                    assert(sizes@ =~= seq![(n, len)] + before);
                    assert forall|i: int| 0 <= i < sizes@.len() implies #[trigger] sizes@[i].1 <= 2 by {
                        if i > 0 {
                            assert(sizes@[i] == before[i - 1]);
                        }
                    }
                } else {
                    errors.append(&mut attempt_errors);
                    assert(spec_errors(errors@) =~= spec_errors(old_errors) + spec_layout(roots@, Seq::empty()).1);
                    return out;
                }
            },
            None => {
                errors.append(&mut attempt_errors);
                assert(spec_errors(errors@) =~= spec_errors(old_errors) + spec_layout(roots@, Seq::empty()).1);
                return out;
            },
        }
    }
}

/// A label defined by a root has, right after it, the address of the location counter: the
/// `label:` token defines the label at the current address.
pub proof fn law_label_defined_at_location_counter(st: Pass, pos: Pos, labels: Seq<Label>, j: int)
    requires
        0 <= j < labels.len(),
    ensures
        spec_label_address(spec_label_defs(st, pos, labels).defs, labels[j]@) == Some((st.out.len() % 256) as u8),
    decreases labels.len(),
{
    let prev = labels.drop_last();
    let st1 = spec_label_defs(st, pos, prev);
    lemma_label_defs_keeps(st, pos, prev);
    let defs = spec_label_defs(st, pos, labels).defs;
    let l = labels.last();
    assert(defs == seq![(l, (st1.out.len() % 256) as u8)] + st1.defs);
    assert(defs[0] == (l, (st.out.len() % 256) as u8));
    assert(defs.drop_first() =~= st1.defs);
    if j < labels.len() - 1 && l@ != labels[j]@ {
        assert(prev[j] == labels[j]);
        law_label_defined_at_location_counter(st, pos, prev, j);
    }
}

/// An `@org` to an address at or past the location counter moves the location counter there,
/// padding with zero bytes, and reports nothing.
pub proof fn law_org_sets_location_counter(st: Pass, pos: Pos, n: Node, v: u8, sizes: Seq<(Node, usize)>)
    requires
        spec_node_value(n, st.defs) == Ok::<u8, LabelView>(v),
        st.out.len() <= v,
    ensures
        spec_root_step(st, pos, Root::Org(Some(n)), sizes).out.len() == v,
        spec_root_step(st, pos, Root::Org(Some(n)), sizes).out.subrange(0, st.out.len() as int) == st.out,
        spec_root_step(st, pos, Root::Org(Some(n)), sizes).errors == st.errors,
{
    let r = spec_root_step(st, pos, Root::Org(Some(n)), sizes);
    assert(r.out.subrange(0, st.out.len() as int) =~= st.out);
}

/// Whether every entry gives one or two bytes, as every entry the layout makes does.
pub open spec fn spec_sizes_positive(sizes: Seq<(Node, usize)>) -> bool {
    forall|i: int| 0 <= i < sizes.len() ==> 1 <= #[trigger] sizes[i].1 <= 2
}

/// With such entries, a node is given one or two bytes.
proof fn lemma_allocation_range(sizes: Seq<(Node, usize)>, v: NodeView)
    requires
        spec_sizes_positive(sizes),
    ensures
        1 <= spec_allocation(sizes, v) <= 2,
    decreases sizes.len(),
{
    if sizes.len() > 0 {
        assert(1 <= sizes[0].1 <= 2);
        assert forall|i: int| 0 <= i < sizes.drop_first().len() implies 1 <= #[trigger] sizes.drop_first()[i].1 <= 2 by {
            assert(sizes.drop_first()[i] == sizes[i + 1]);
        }
        lemma_allocation_range(sizes.drop_first(), v);
    }
}

/// The room of the node at address `k` of a pass.
pub open spec fn spec_room(p: Pass, sizes: Seq<(Node, usize)>, k: int) -> nat {
    spec_allocation(sizes, spec_node_view(p.nodes[k].unwrap().1))
}

/// Whether the room of nodes and the data bytes of a pass lie apart: the room of a node ends
/// at or before any later node, and holds no data byte.
pub open spec fn spec_apart(p: Pass, sizes: Seq<(Node, usize)>) -> bool {
    &&& forall|k1: int, k2: int|
        #![trigger p.nodes[k1], p.nodes[k2]]
        0 <= k1 < k2 < 256 && p.nodes[k1] is Some && p.nodes[k2] is Some ==> k1 + spec_room(p, sizes, k1) <= k2
    &&& forall|k1: int, k2: int|
        #![trigger p.nodes[k1], p.datas[k2]]
        0 <= k1 < 256 && 0 <= k2 < 256 && p.nodes[k1] is Some && p.datas[k2] is Some
            ==> !(k1 <= k2 < k1 + spec_room(p, sizes, k1))
}

/// A root never removes instructions.
proof fn lemma_step_grows(st: Pass, pos: Pos, root: Root, sizes: Seq<(Node, usize)>)
    ensures
        spec_root_step(st, pos, root, sizes).out.len() >= st.out.len(),
{
    if let Root::LabelDefs(labels) = root {
        lemma_label_defs_keeps(st, pos, labels@);
    }
}

/// In a pass of at most 256 bytes, the room of nodes and the data bytes lie apart.
proof fn lemma_pass_apart(roots: Seq<(Pos, Root)>, sizes: Seq<(Node, usize)>)
    requires
        spec_sizes_positive(sizes),
        spec_pass(roots, sizes).out.len() <= 256,
    ensures
        spec_apart(spec_pass(roots, sizes), sizes),
    decreases roots.len(),
{
    if roots.len() > 0 {
        let prev = roots.drop_last();
        let st = spec_pass(prev, sizes);
        let (pos, root) = roots.last();
        let p = spec_pass(roots, sizes);
        lemma_step_grows(st, pos, root, sizes);
        lemma_pass_apart(prev, sizes);
        lemma_pass_wf(prev, sizes);
        lemma_pass_wf(roots, sizes);
        let lc = st.out.len();
        assert forall|k: int| 0 <= k < 256 && #[trigger] st.nodes[k] is Some implies k + spec_room(st, sizes, k) <= lc
            && 1 <= spec_room(st, sizes, k) by {
            lemma_allocation_range(sizes, spec_node_view(st.nodes[k].unwrap().1));
        }
        match root {
            Root::LabelDefs(labels) => {
                lemma_label_defs_keeps(st, pos, labels@);
            },
            Root::Node(n) => {
                if spec_node_value(n, st.defs) is Err {
                    lemma_allocation_range(sizes, spec_node_view(n));
                    assert(spec_slot(lc) == lc);
                    assert(p.nodes == st.nodes.update(lc as int, Some((pos, n))));
                }
            },
            Root::Conditional(n1, n2) => {
                let a1 = spec_allocation(sizes, spec_node_view(n1));
                let a2 = spec_allocation(sizes, spec_node_view(n2));
                lemma_allocation_range(sizes, spec_node_view(n1));
                lemma_allocation_range(sizes, spec_node_view(n2));
                lemma_allocation_range(sizes, spec_node_view(spec_negated(n1)));
                lemma_allocation_range(sizes, spec_node_view(spec_negated(n2)));
                if a1 > 1 && a2 > 1 {
                    let b1 = spec_allocation(sizes, spec_node_view(spec_negated(n1)));
                    assert(spec_slot(lc) == lc);
                    assert(spec_slot(lc + b1) == lc + b1);
                } else {
                    assert(spec_slot(lc) == lc);
                    assert(spec_slot(lc + a1) == lc + a1);
                }
            },
            Root::Data(Some(n)) => {
                assert(spec_slot(lc) == lc);
            },
            _ => {},
        }
    }
}

/// Whether `out` holds, from address `k`, the instructions that push `value`.
pub open spec fn spec_pushed_at(out: Seq<(Pos, Result<Instruction, u8>)>, k: int, pos: Pos, value: u8) -> bool {
    &&& k + spec_push_immediate(value).len() <= out.len()
    &&& forall|i: int|
        #![trigger spec_push_immediate(value)[i]]
        0 <= i < spec_push_immediate(value).len() ==> out[k + i] == (pos, Ok::<Instruction, u8>(spec_push_immediate(value)[i]))
}

/// Whether the data byte at address `j` of a pass has a value.
pub open spec fn spec_data_known(p: Pass, j: int) -> bool {
    p.datas[j] is Some && spec_node_value(p.datas[j].unwrap().1, p.defs) is Ok
}

/// The data byte at address `j` of a pass, filled in with its value.
pub open spec fn spec_data_filled(p: Pass, j: int) -> (Pos, Result<Instruction, u8>) {
    (p.datas[j].unwrap().0, Err(spec_node_value(p.datas[j].unwrap().1, p.defs)->Ok_0))
}

/// What filling in data bytes does: each data byte with a value at an address below `m` holds
/// it, every other instruction is kept, and a data byte without a value adds an error.
proof fn lemma_fill_datas_content(p: Pass, m: nat)
    requires
        m <= 256,
        spec_pass_wf_bounds(p),
    ensures
        spec_fill_datas(p, m).out.len() == p.out.len(),
        forall|j: int| #![trigger spec_fill_datas(p, m).out[j]]
            0 <= j < p.out.len() ==> spec_fill_datas(p, m).out[j] == if j < m && spec_data_known(p, j) {
                spec_data_filled(p, j)
            } else {
                p.out[j]
            },
        spec_fill_datas(p, m).errors.len() >= p.errors.len(),
        forall|j: int| 0 <= j < m && #[trigger] p.datas[j] is Some && !spec_data_known(p, j)
            ==> spec_fill_datas(p, m).errors.len() > p.errors.len(),
    decreases m,
{
    lemma_fill_datas_keeps(p, m);
    if m > 0 {
        lemma_fill_datas_content(p, (m - 1) as nat);
        lemma_fill_datas_keeps(p, (m - 1) as nat);
        let s = spec_fill_datas(p, (m - 1) as nat);
        let d = spec_fill_datas(p, m);
        assert forall|j: int| #![trigger d.out[j]] 0 <= j < p.out.len() implies d.out[j] == if j < m && spec_data_known(p, j) {
            spec_data_filled(p, j)
        } else {
            p.out[j]
        } by {
            assert(s.out[j] == if j < m - 1 && spec_data_known(p, j) { spec_data_filled(p, j) } else { p.out[j] });
        }
    }
}

/// What filling in nodes does, when no node needs more room: each node with a value at an
/// address below `m` pushes it from there within its room, every data byte is kept, and a
/// node without a value adds an error.
proof fn lemma_fill_nodes_content(st: Pass, sizes: Seq<(Node, usize)>, m: nat)
    requires
        m <= 256,
        st.datas.len() == 256,
        spec_pass_wf_bounds_sized(st, sizes),
        spec_apart(st, sizes),
        forall|j: int| 0 <= j < 256 && #[trigger] st.datas[j] is Some ==> j < st.out.len(),
        spec_fill_nodes(st, sizes, m).1 is None,
    ensures
        spec_fill_nodes(st, sizes, m).0.out.len() == st.out.len(),
        forall|k: int| 0 <= k < m && #[trigger] st.nodes[k] is Some && spec_node_value(st.nodes[k].unwrap().1, st.defs) is Ok ==> {
            let v = spec_node_value(st.nodes[k].unwrap().1, st.defs)->Ok_0;
            &&& spec_push_immediate(v).len() <= spec_room(st, sizes, k)
            &&& spec_pushed_at(spec_fill_nodes(st, sizes, m).0.out, k, st.nodes[k].unwrap().0, v)
        },
        forall|j: int| 0 <= j < 256 && #[trigger] st.datas[j] is Some ==> spec_fill_nodes(st, sizes, m).0.out[j] == st.out[j],
        spec_fill_nodes(st, sizes, m).0.errors.len() >= st.errors.len(),
        forall|k: int| 0 <= k < m && #[trigger] st.nodes[k] is Some && spec_node_value(st.nodes[k].unwrap().1, st.defs) is Err
            ==> spec_fill_nodes(st, sizes, m).0.errors.len() > st.errors.len(),
    decreases m,
{
    if m > 0 {
        let k = m - 1;
        let prev = spec_fill_nodes(st, sizes, (m - 1) as nat);
        assert(prev.1 is None);
        lemma_fill_nodes_content(st, sizes, (m - 1) as nat);
        let f = spec_fill_nodes(st, sizes, m).0;
        if let Some((pos, n)) = st.nodes[k] {
            if let Ok(v) = spec_node_value(n, st.defs) {
                let len = spec_push_immediate(v).len();
                assert(len <= spec_room(st, sizes, k));
                assert(f.out == spec_write_pushes(prev.0.out, k, pos, v));
                assert forall|k2: int| 0 <= k2 < k && #[trigger] st.nodes[k2] is Some && spec_node_value(st.nodes[k2].unwrap().1, st.defs) is Ok implies {
                    let v2 = spec_node_value(st.nodes[k2].unwrap().1, st.defs)->Ok_0;
                    spec_pushed_at(f.out, k2, st.nodes[k2].unwrap().0, v2)
                } by {
                    let v2 = spec_node_value(st.nodes[k2].unwrap().1, st.defs)->Ok_0;
                    assert(st.nodes[k2] is Some && st.nodes[k] is Some);
                    assert(k2 + spec_room(st, sizes, k2) <= k);
                    assert forall|i: int| #![trigger spec_push_immediate(v2)[i]] 0 <= i < spec_push_immediate(v2).len()
                        implies f.out[k2 + i] == (st.nodes[k2].unwrap().0, Ok::<Instruction, u8>(spec_push_immediate(v2)[i])) by {
                        assert(prev.0.out[k2 + i] == (st.nodes[k2].unwrap().0, Ok::<Instruction, u8>(spec_push_immediate(v2)[i])));
                    }
                }
                assert forall|i: int| #![trigger spec_push_immediate(v)[i]] 0 <= i < len
                    implies f.out[k + i] == (pos, Ok::<Instruction, u8>(spec_push_immediate(v)[i])) by {
                }
                assert forall|j: int| 0 <= j < 256 && #[trigger] st.datas[j] is Some implies f.out[j] == st.out[j] by {
                    assert(st.nodes[k] is Some && st.datas[j] is Some);
                    assert(!(k <= j < k + spec_room(st, sizes, k)));
                    assert(prev.0.out[j] == st.out[j]);
                }
            }
        }
    }
}

/// The room given to nodes in the last attempt of a layout.
pub open spec fn spec_layout_sizes(roots: Seq<(Pos, Root)>, sizes: Seq<(Node, usize)>) -> Seq<(Node, usize)>
    decreases spec_deficit(spec_candidates(roots), sizes),
{
    let attempt = spec_attempt(roots, sizes);
    match attempt.1 {
        Some((n, len)) => if attempt.0.errors.len() == 0 {
            proof {
                lemma_attempt_decreases(roots, sizes);
            }
            spec_layout_sizes(roots, seq![(n, len as usize)] + sizes)
        } else {
            sizes
        },
        None => sizes,
    }
}

/// Filling in nodes keeps the number of instructions.
proof fn lemma_fill_nodes_keeps(st: Pass, sizes: Seq<(Node, usize)>, m: nat)
    ensures
        spec_fill_nodes(st, sizes, m).0.out.len() == st.out.len(),
    decreases m,
{
    if m > 0 {
        lemma_fill_nodes_keeps(st, sizes, (m - 1) as nat);
    }
}

/// A layout is its last attempt, made with one or two bytes of room for each node that has an
/// entry; that attempt fills in every node, or reports an error.
proof fn lemma_layout_last_attempt(roots: Seq<(Pos, Root)>, sizes: Seq<(Node, usize)>)
    requires
        spec_sizes_positive(sizes),
    ensures
        spec_sizes_positive(spec_layout_sizes(roots, sizes)),
        spec_layout(roots, sizes) == (
            spec_attempt(roots, spec_layout_sizes(roots, sizes)).0.out,
            spec_attempt(roots, spec_layout_sizes(roots, sizes)).0.errors,
        ),
        spec_attempt(roots, spec_layout_sizes(roots, sizes)).1 is Some
            ==> spec_attempt(roots, spec_layout_sizes(roots, sizes)).0.errors.len() > 0,
    decreases spec_deficit(spec_candidates(roots), sizes),
{
    let attempt = spec_attempt(roots, sizes);
    if let Some((n, len)) = attempt.1 {
        if attempt.0.errors.len() == 0 {
            lemma_attempt_decreases(roots, sizes);
            let p = spec_pass(roots, sizes);
            lemma_pass_wf(roots, sizes);
            lemma_fill_datas_keeps(p, 256);
            lemma_fill_nodes_grow(spec_fill_datas(p, 256), sizes, 256);
            let next = seq![(n, len as usize)] + sizes;
            assert forall|i: int| 0 <= i < next.len() implies 1 <= #[trigger] next[i].1 <= 2 by {
                if i > 0 {
                    assert(next[i] == sizes[i - 1]);
                }
            }
            lemma_layout_last_attempt(roots, next);
        }
    }
}

/// Whether, after the pass `p`, `out` pushes from the address of each node the node's value
/// and holds at the address of each data byte its value.
pub open spec fn spec_filled_in(p: Pass, out: Seq<(Pos, Result<Instruction, u8>)>) -> bool {
    &&& forall|k: int| 0 <= k < 256 && #[trigger] p.nodes[k] is Some ==> {
        &&& spec_node_value(p.nodes[k].unwrap().1, p.defs) is Ok
        &&& spec_pushed_at(out, k, p.nodes[k].unwrap().0, spec_node_value(p.nodes[k].unwrap().1, p.defs)->Ok_0)
    }
    &&& forall|j: int| 0 <= j < 256 && #[trigger] p.datas[j] is Some ==> {
        &&& spec_data_known(p, j)
        &&& out[j] == spec_data_filled(p, j)
    }
}

/// A layout that reports no error and fits in 256 bytes resolves every label: from the
/// address of each node that was not pushed directly, its instructions push the node's value
/// under the final label addresses, and each data byte holds its value.
pub proof fn law_layout_fills_in_values(roots: Seq<(Pos, Root)>)
    requires
        spec_layout(roots, Seq::empty()).1.len() == 0,
        spec_layout(roots, Seq::empty()).0.len() <= 256,
    ensures
        spec_filled_in(spec_pass(roots, spec_layout_sizes(roots, Seq::empty())), spec_layout(roots, Seq::empty()).0),
{
    let empty = Seq::<(Node, usize)>::empty();
    lemma_layout_last_attempt(roots, empty);
    let fs = spec_layout_sizes(roots, empty);
    let p = spec_pass(roots, fs);
    lemma_pass_wf(roots, fs);
    lemma_fill_datas_keeps(p, 256);
    lemma_fill_datas_content(p, 256);
    let d = spec_fill_datas(p, 256);
    lemma_fill_nodes_keeps(d, fs, 256);
    assert(p.out.len() <= 256);
    lemma_pass_apart(roots, fs);
    assert(d.nodes == p.nodes && d.datas == p.datas);
    assert(spec_apart(d, fs));
    assert(spec_pass_wf_bounds_sized(d, fs));
    lemma_fill_nodes_content(d, fs, 256);
    let f = spec_fill_nodes(d, fs, 256).0;
    assert forall|k: int| 0 <= k < 256 && #[trigger] p.nodes[k] is Some implies {
        &&& spec_node_value(p.nodes[k].unwrap().1, p.defs) is Ok
        &&& spec_pushed_at(f.out, k, p.nodes[k].unwrap().0, spec_node_value(p.nodes[k].unwrap().1, p.defs)->Ok_0)
    } by {
        assert(d.nodes[k] is Some);
    }
    assert forall|j: int| 0 <= j < 256 && #[trigger] p.datas[j] is Some implies {
        &&& spec_data_known(p, j)
        &&& f.out[j] == spec_data_filled(p, j)
    } by {
        assert(d.datas[j] is Some);
        assert(d.out[j] == if j < 256 && spec_data_known(p, j) { spec_data_filled(p, j) } else { p.out[j] });
    }
}

/// Whether every instruction that roots hold has its operand in range.
pub open spec fn spec_roots_valid(roots: Seq<(Pos, Root)>) -> bool {
    forall|i: int| 0 <= i < roots.len() ==> match #[trigger] roots[i].1 {
        Root::Instruction(ins) => spec_instruction_valid(ins),
        Root::Dyn(Some(ins)) => spec_instruction_valid(ins),
        _ => true,
    }
}

/// Whether every instruction laid out has its operand in range.
pub open spec fn spec_out_valid(out: Seq<(Pos, Result<Instruction, u8>)>) -> bool {
    forall|i: int| 0 <= i < out.len() ==> spec_decoded_valid(#[trigger] out[i].1)
}

/// The instructions that push a byte have their operands in range.
proof fn lemma_pushes_valid(value: u8)
    ensures
        forall|i: int| 0 <= i < spec_push_immediate(value).len() ==> spec_instruction_valid(#[trigger] spec_push_immediate(value)[i]),
{
}

/// A pass over roots whose instructions are in range lays out only instructions in range.
proof fn lemma_pass_valid(roots: Seq<(Pos, Root)>, sizes: Seq<(Node, usize)>)
    requires
        spec_roots_valid(roots),
    ensures
        spec_out_valid(spec_pass(roots, sizes).out),
    decreases roots.len(),
{
    if roots.len() > 0 {
        let prev = roots.drop_last();
        assert forall|i: int| 0 <= i < prev.len() implies match #[trigger] prev[i].1 {
            Root::Instruction(ins) => spec_instruction_valid(ins),
            Root::Dyn(Some(ins)) => spec_instruction_valid(ins),
            _ => true,
        } by {
            assert(prev[i] == roots[i]);
        }
        lemma_pass_valid(prev, sizes);
        let st = spec_pass(prev, sizes);
        let (pos, root) = roots.last();
        assert(match roots[roots.len() - 1].1 {
            Root::Instruction(ins) => spec_instruction_valid(ins),
            Root::Dyn(Some(ins)) => spec_instruction_valid(ins),
            _ => true,
        });
        match root {
            Root::LabelDefs(labels) => {
                lemma_label_defs_keeps(st, pos, labels@);
            },
            Root::Node(n) => {
                if let Ok(v) = spec_node_value(n, st.defs) {
                    lemma_pushes_valid(v);
                }
            },
            _ => {},
        }
    }
}

/// An attempt over roots whose instructions are in range lays out only instructions in range.
proof fn lemma_attempt_valid(roots: Seq<(Pos, Root)>, sizes: Seq<(Node, usize)>)
    requires
        spec_roots_valid(roots),
    ensures
        spec_out_valid(spec_attempt(roots, sizes).0.out),
{
    let p = spec_pass(roots, sizes);
    lemma_pass_valid(roots, sizes);
    lemma_pass_wf(roots, sizes);
    lemma_fill_datas_valid(p, 256);
    lemma_fill_nodes_valid(spec_fill_datas(p, 256), sizes, 256);
}

/// Filling in data bytes keeps instructions in range.
proof fn lemma_fill_datas_valid(st: Pass, k: nat)
    requires
        spec_out_valid(st.out),
        forall|j: int| 0 <= j < k && #[trigger] st.datas[j] is Some ==> j < st.out.len(),
    ensures
        spec_out_valid(spec_fill_datas(st, k).out),
    decreases k,
{
    if k > 0 {
        lemma_fill_datas_valid(st, (k - 1) as nat);
        lemma_fill_datas_keeps(st, (k - 1) as nat);
    }
}

/// Filling in nodes keeps instructions in range.
proof fn lemma_fill_nodes_valid(st: Pass, sizes: Seq<(Node, usize)>, k: nat)
    requires
        spec_out_valid(st.out),
    ensures
        spec_out_valid(spec_fill_nodes(st, sizes, k).0.out),
    decreases k,
{
    if k > 0 {
        lemma_fill_nodes_valid(st, sizes, (k - 1) as nat);
        let s = spec_fill_nodes(st, sizes, (k - 1) as nat).0;
        if let Some((pos, n)) = st.nodes[k - 1] {
            if let Ok(v) = spec_node_value(n, st.defs) {
                lemma_pushes_valid(v);
                let w = spec_write_pushes(s.out, k - 1, pos, v);
                assert forall|i: int| 0 <= i < w.len() implies spec_decoded_valid(#[trigger] w[i].1) by {
                    if k - 1 <= i < k - 1 + spec_push_immediate(v).len() {
                        assert(spec_instruction_valid(spec_push_immediate(v)[i - (k - 1)]));
                    }
                }
            }
        }
    }
}

/// A layout of roots whose instructions are in range lays out only instructions in range.
pub proof fn lemma_layout_valid(roots: Seq<(Pos, Root)>)
    requires
        spec_roots_valid(roots),
    ensures
        spec_out_valid(spec_layout(roots, Seq::empty()).0),
{
    lemma_layout_last_attempt(roots, Seq::empty());
    lemma_attempt_valid(roots, spec_layout_sizes(roots, Seq::empty()));
}

/// Whether every root is an instruction.
pub open spec fn spec_all_instructions(roots: Seq<(Pos, Root)>) -> bool {
    forall|i: int| 0 <= i < roots.len() ==> #[trigger] roots[i].1 is Instruction
}

/// The instructions of roots that are all instructions, each at its position.
pub open spec fn spec_instructions_of(roots: Seq<(Pos, Root)>) -> Seq<(Pos, Result<Instruction, u8>)> {
    roots.map_values(|r: (Pos, Root)| (r.0, Ok::<Instruction, u8>(r.1->Instruction_0)))
}

/// A pass over instructions only emits them, in order, leaving nothing to fill in.
proof fn lemma_pass_instructions(roots: Seq<(Pos, Root)>, sizes: Seq<(Node, usize)>)
    requires
        spec_all_instructions(roots),
    ensures
        spec_pass(roots, sizes).out == spec_instructions_of(roots),
        spec_pass(roots, sizes).errors.len() == 0,
        spec_pass(roots, sizes).nodes == spec_pass_start().nodes,
        spec_pass(roots, sizes).datas == spec_pass_start().datas,
    decreases roots.len(),
{
    if roots.len() > 0 {
        let prev = roots.drop_last();
        assert forall|i: int| 0 <= i < prev.len() implies #[trigger] prev[i].1 is Instruction by {
            assert(prev[i] == roots[i]);
        }
        lemma_pass_instructions(prev, sizes);
        assert(roots[roots.len() - 1].1 is Instruction);
        assert(spec_instructions_of(roots) =~= spec_instructions_of(prev).push(
            (roots.last().0, Ok::<Instruction, u8>(roots.last().1->Instruction_0)),
        ));
    }
}

/// Filling in a pass with no data bytes changes nothing.
proof fn lemma_fill_datas_none(st: Pass, k: nat)
    requires
        k <= st.datas.len(),
        forall|j: int| 0 <= j < st.datas.len() ==> #[trigger] st.datas[j] is None,
    ensures
        spec_fill_datas(st, k) == st,
    decreases k,
{
    if k > 0 {
        lemma_fill_datas_none(st, (k - 1) as nat);
        assert(st.datas[k - 1] is None);
    }
}

/// Filling in a pass with no nodes changes nothing.
proof fn lemma_fill_nodes_none(st: Pass, sizes: Seq<(Node, usize)>, k: nat)
    requires
        k <= st.nodes.len(),
        forall|j: int| 0 <= j < st.nodes.len() ==> #[trigger] st.nodes[j] is None,
    ensures
        spec_fill_nodes(st, sizes, k) == (st, None::<(Node, nat)>),
    decreases k,
{
    if k > 0 {
        lemma_fill_nodes_none(st, sizes, (k - 1) as nat);
        assert(st.nodes[k - 1] is None);
    }
}

/// Roots that are all instructions lay out as exactly those instructions, in order, each at
/// its position, with no error: each instruction token emits its instruction.
pub proof fn law_layout_of_instructions(roots: Seq<(Pos, Root)>)
    requires
        spec_all_instructions(roots),
    ensures
        spec_layout(roots, Seq::empty()).0 == spec_instructions_of(roots),
        spec_layout(roots, Seq::empty()).1.len() == 0,
{
    let sizes = Seq::<(Node, usize)>::empty();
    lemma_pass_instructions(roots, sizes);
    let p = spec_pass(roots, sizes);
    lemma_fill_datas_none(p, 256);
    lemma_fill_nodes_none(p, sizes, 256);
}


/// Whether some token refers to the label `l`.
pub open spec fn spec_label_referenced(tokens: Seq<(Pos, Token)>, l: LabelView) -> bool {
    exists|j: int| 0 <= j < tokens.len() && #[trigger] tokens[j].1@ == TokenView::LabelRef(l)
}

/// Whether token `i` is the last definition of a label that no token refers to.
pub open spec fn spec_unused_definition(tokens: Seq<(Pos, Token)>, i: int) -> bool {
    tokens[i].1@ matches TokenView::LabelDef(l) && !spec_label_referenced(tokens, l) && forall|j: int|
        i < j < tokens.len() ==> #[trigger] tokens[j].1@ != TokenView::LabelDef(l)
}

/// The message for a label that is defined and never referred to.
pub open spec fn spec_unused_label(l: LabelView) -> Seq<char> {
    "Unused label definition "@ + spec_label_text(l)
}

/// The reports of unused labels among the first `k` tokens: one at the last definition of
/// each label that no token refers to, in order.
pub open spec fn spec_unused_labels(tokens: Seq<(Pos, Token)>, k: nat) -> Seq<(Pos, Seq<char>)>
    decreases k,
{
    if k == 0 || k > tokens.len() {
        Seq::empty()
    } else {
        let i = k - 1;
        spec_unused_labels(tokens, (k - 1) as nat) + if spec_unused_definition(tokens, i) {
            match tokens[i].1@ {
                TokenView::LabelDef(l) => seq![(tokens[i].0, spec_unused_label(l))],
                _ => Seq::empty(),
            }
        } else {
            Seq::empty()
        }
    }
}

/// Whether some token refers to `l`.
fn label_referenced(tokens: &Vec<(Pos, Token)>, l: &Label) -> (r: bool)
    ensures
        r == spec_label_referenced(tokens@, l@),
{
    let mut j: usize = 0;
    while j < tokens.len()
        invariant
            j <= tokens.len(),
            forall|k: int| 0 <= k < j ==> tokens@[k].1@ != TokenView::LabelRef(l@),
        decreases tokens.len() - j,
    {
        if let Token::LabelRef(m) = &tokens[j].1 {
            if label_eq(m, l) {
                assert(tokens@[j as int].1@ == TokenView::LabelRef(l@));
                return true;
            }
        }
        j = j + 1;
    }
    false
}

/// Whether a token after `i` defines `l` again.
fn label_redefined(tokens: &Vec<(Pos, Token)>, i: usize, l: &Label) -> (r: bool)
    ensures
        r == exists|j: int| i < j < tokens.len() && #[trigger] tokens@[j].1@ == TokenView::LabelDef(l@),
{
    if i >= tokens.len() {
        return false;
    }
    let mut j: usize = i + 1;
    while j < tokens.len()
        invariant
            i < j <= tokens.len(),
            forall|k: int| i < k < j ==> tokens@[k].1@ != TokenView::LabelDef(l@),
        decreases tokens.len() - j,
    {
        if let Token::LabelDef(m) = &tokens[j].1 {
            if label_eq(m, l) {
                assert(tokens@[j as int].1@ == TokenView::LabelDef(l@));
                return true;
            }
        }
        j = j + 1;
    }
    false
}

/// Reports every label that is defined and never referred to: an error at its last definition,
/// in the order of those definitions.
pub fn report_unused_labels(tokens: &Vec<(Pos, Token)>, errors: &mut Vec<(Pos, Error)>)
    ensures
        spec_errors(final(errors)@) == spec_errors(old(errors)@) + spec_unused_labels(tokens@, tokens@.len()),
{
    let mut i: usize = 0;
    assert(spec_errors(errors@) =~= spec_errors(old(errors)@) + spec_unused_labels(tokens@, 0));
    while i < tokens.len()
        invariant
            i <= tokens.len(),
            spec_errors(errors@) == spec_errors(old(errors)@) + spec_unused_labels(tokens@, i as nat),
        decreases tokens.len() - i,
    {
        let ghost before = spec_errors(errors@);
        if let Token::LabelDef(l) = &tokens[i].1 {
            if !label_referenced(tokens, l) && !label_redefined(tokens, i, l) {
                let message = label_message("Unused label definition ", l);
                errors.push((copy_pos(&tokens[i].0), Error(string_from_chars(&message))));
                assert(spec_errors(errors@) =~= before.push((tokens@[i as int].0, message@)));
                assert(spec_unused_definition(tokens@, i as int));
            } else {
                assert(!spec_unused_definition(tokens@, i as int));
            }
        }
        assert(spec_unused_labels(tokens@, (i + 1) as nat) =~= spec_unused_labels(tokens@, i as nat) + if spec_unused_definition(tokens@, i as int) {
            match tokens@[i as int].1@ {
                TokenView::LabelDef(l) => seq![(tokens@[i as int].0, spec_unused_label(l))],
                _ => Seq::empty(),
            }
        } else {
            Seq::empty()
        });
        i = i + 1;
    }
}

} // verus!
