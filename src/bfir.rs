use vstd::prelude::*;

verus! {

broadcast use vstd::std_specs::vec::axiom_vec_index_decreases;

/// A half-open byte range `[start, end)` into the source text.
#[derive(Clone, Copy, Debug, PartialEq, Eq, Structural)]
pub struct Position {
    pub start: usize,
    pub end: usize,
}

/// A node of the instruction tree.
#[derive(Debug)]
#[allow(inconsistent_fields)]
pub enum AstNode {
    Increment { amount: u8, offset: i64, position: Position },
    PointerIncrement { amount: i64, position: Position },
    Read { position: Position },
    Write { position: Position },
    Loop { body: Vec<AstNode>, position: Position },
    SetValue { amount: u8, offset: i64, position: Position },
}

/// The mathematical model of an instruction node.
#[allow(inconsistent_fields)]
pub enum Instr {
    Increment { amount: u8, offset: i64, position: Position },
    PointerIncrement { amount: i64, position: Position },
    Read { position: Position },
    Write { position: Position },
    Loop { body: Seq<Instr>, position: Position },
    SetValue { amount: u8, offset: i64, position: Position },
}

/// The model of the first `k` nodes of `v`.
pub open spec fn view_prefix(v: Vec<AstNode>, k: int) -> Seq<Instr>
    decreases v, k,
{
    if k <= 0 || k > v@.len() {
        Seq::empty()
    } else {
        view_prefix(v, k - 1).push(view_node(v[k - 1]))
    }
}

/// The model of a sequence of nodes.
pub open spec fn view_nodes(v: Vec<AstNode>) -> Seq<Instr> {
    view_prefix(v, v@.len() as int)
}

pub open spec fn view_node(n: AstNode) -> Instr
    decreases n,
{
    match n {
        AstNode::Increment { amount, offset, position } => Instr::Increment { amount, offset, position },
        AstNode::PointerIncrement { amount, position } => Instr::PointerIncrement { amount, position },
        AstNode::Read { position } => Instr::Read { position },
        AstNode::Write { position } => Instr::Write { position },
        AstNode::Loop { body, position } => Instr::Loop { body: view_prefix(body, body@.len() as int), position },
        AstNode::SetValue { amount, offset, position } => Instr::SetValue { amount, offset, position },
    }
}

} // verus!

verus! {

/// The model of a vector of nodes is the model of each node, in order.
pub proof fn lemma_view_nodes(v: Vec<AstNode>)
    ensures
        view_nodes(v).len() == v@.len(),
        forall|i: int| 0 <= i < v@.len() ==> #[trigger] view_nodes(v)[i] == view_node(v@[i]),
{
    lemma_view_prefix(v, v@.len() as int);
}

proof fn lemma_view_prefix(v: Vec<AstNode>, k: int)
    requires
        0 <= k <= v@.len(),
    ensures
        view_prefix(v, k).len() == k,
        forall|i: int| 0 <= i < k ==> #[trigger] view_prefix(v, k)[i] == view_node(v@[i]),
    decreases k,
{
    if k > 0 {
        lemma_view_prefix(v, k - 1);
    }
}

} // verus!

verus! {

pub open spec fn instr_position(n: Instr) -> Position {
    match n {
        Instr::Increment { position, .. } => position,
        Instr::PointerIncrement { position, .. } => position,
        Instr::Read { position } => position,
        Instr::Write { position } => position,
        Instr::Loop { position, .. } => position,
        Instr::SetValue { position, .. } => position,
    }
}

impl AstNode {
    /// The source range of this node.
    pub fn position(&self) -> (r: Position)
        ensures
            r == instr_position(view_node(*self)),
    {
        match self {
            AstNode::Increment { position, .. } => *position,
            AstNode::PointerIncrement { position, .. } => *position,
            AstNode::Read { position } => *position,
            AstNode::Write { position } => *position,
            AstNode::Loop { position, .. } => *position,
            AstNode::SetValue { position, .. } => *position,
        }
    }
}

} // verus!

verus! {

/// The model of a vector of nodes, element by element.
pub broadcast proof fn lemma_view_nodes_map(v: Vec<AstNode>)
    ensures
        #[trigger] view_nodes(v) == v@.map_values(|n: AstNode| view_node(n)),
{
    lemma_view_nodes(v);
    assert(view_nodes(v) =~= v@.map_values(|n: AstNode| view_node(n)));
}


/// A deep copy of a sequence of nodes.
pub fn copy_nodes(s: &Vec<AstNode>) -> (r: Vec<AstNode>)
    ensures
        view_nodes(r) == view_nodes(*s),
    decreases s, 0nat,
{
    let mut r: Vec<AstNode> = Vec::new();
    let mut i: usize = 0;
    proof {
        lemma_view_nodes_map(r);
        lemma_view_nodes_map(*s);
        assert(view_nodes(r) =~= view_nodes(*s).take(0));
    }
    while i < s.len()
        invariant
            0 <= i <= s@.len(),
            view_nodes(r) == view_nodes(*s).take(i as int),
        decreases s@.len() - i,
    {
        proof {
            lemma_view_nodes_map(r);
            lemma_view_nodes_map(*s);
        }
        let ghost before = view_nodes(r);
        let x = copy_node(&s[i]);
        r.push(x);
        proof {
            lemma_view_nodes_map(r);
        }
        assert(view_nodes(r) =~= before.push(view_node(x)));
        assert(view_nodes(r) =~= view_nodes(*s).take(i + 1));
        i = i + 1;
    }
    proof {
        lemma_view_nodes_map(r);
        lemma_view_nodes_map(*s);
    }
    assert(view_nodes(r) =~= view_nodes(*s));
    r
}

pub fn copy_node(n: &AstNode) -> (r: AstNode)
    ensures
        view_node(r) == view_node(*n),
    decreases n, 1nat,
{
    match n {
        AstNode::Increment { amount, offset, position } => AstNode::Increment { amount: *amount, offset: *offset, position: *position },
        AstNode::PointerIncrement { amount, position } => AstNode::PointerIncrement { amount: *amount, position: *position },
        AstNode::Read { position } => AstNode::Read { position: *position },
        AstNode::Write { position } => AstNode::Write { position: *position },
        AstNode::SetValue { amount, offset, position } => AstNode::SetValue { amount: *amount, offset: *offset, position: *position },
        AstNode::Loop { body, position } => AstNode::Loop { body: copy_nodes(body), position: *position },
    }
}

} // verus!
