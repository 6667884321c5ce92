use vstd::prelude::*;
use std::collections::HashMap;

use vstd::string::StringExecFns;

use crate::bfir::{AstNode, Instr, Position, instr_position, view_node, view_nodes, lemma_view_nodes};
use crate::diagnostics::Warning;

verus! {

broadcast use vstd::std_specs::hash::group_hash_axioms;

/// Why abstract execution stopped.
#[derive(Clone, Copy, Debug, PartialEq, Eq, Structural)]
pub enum Outcome {
    /// Every instruction was executed.
    Completed,
    /// The step budget ran out, which suggests an infinite loop.
    StepBudgetExhausted,
    /// A `Read` was reached: what follows depends on runtime input.
    ReadEncountered,
    /// A pointer or cell offset left the range of `i64`.
    OffsetOutOfRange,
    /// Nothing was executed at compile time: the whole program runs at
    /// runtime.
    NotExecuted,
}

/// The model of a machine in the middle of abstract execution.
pub struct Machine {
    /// Cells ever written; absent cells hold 0.
    pub cells: Map<i64, u8>,
    /// The offsets of the cells written, in the order of their first write.
    pub written: Seq<i64>,
    pub ptr: i64,
    pub steps: u64,
    /// `None` while execution goes on.
    pub halt: Option<Outcome>,
    /// The first instruction whose arithmetic wrapped around.
    pub wrapped: Option<Position>,
}

pub open spec fn cell_value(cells: Map<i64, u8>, k: i64) -> u8 {
    if cells.contains_key(k) {
        cells[k]
    } else {
        0
    }
}

/// Whether adding `amount` (read as a signed byte) to `v` wraps around.
pub open spec fn wraps(v: u8, amount: u8) -> bool {
    if amount < 128 {
        v as int + amount as int > 255
    } else {
        (v as int) < 256 - amount as int
    }
}

pub open spec fn in_i64(x: int) -> bool {
    i64::MIN <= x <= i64::MAX
}

pub open spec fn halted(m: Machine, o: Outcome) -> Machine {
    Machine { halt: Some(o), ..m }
}

/// Writes `v` to the cell at `offset` from the pointer, as one step.
pub open spec fn store(m: Machine, offset: i64, v: u8, wrap: bool, pos: Position) -> Machine {
    let k = m.ptr + offset;
    if !in_i64(k) {
        halted(m, Outcome::OffsetOutOfRange)
    } else {
        Machine {
            cells: m.cells.insert(k as i64, v),
            written: if m.cells.contains_key(k as i64) { m.written } else { m.written.push(k as i64) },
            steps: (m.steps + 1) as u64,
            wrapped: if wrap && m.wrapped is None { Some(pos) } else { m.wrapped },
            ..m
        }
    }
}

/// The effect of one instruction; loops may iterate at most `fuel` times.
pub open spec fn run_instr(n: Instr, m: Machine, max: u64, fuel: nat) -> Machine
    decreases fuel, n, 0nat,
{
    if m.steps >= max {
        halted(m, Outcome::StepBudgetExhausted)
    } else {
        match n {
            Instr::Increment { amount, offset, position } => {
                let k = m.ptr + offset;
                let old_v = if in_i64(k) { cell_value(m.cells, k as i64) } else { 0 };
                store(m, offset, ((old_v + amount) % 256) as u8, wraps(old_v, amount), position)
            },
            Instr::SetValue { amount, offset, position } => store(m, offset, amount, false, position),
            Instr::PointerIncrement { amount, .. } => {
                if in_i64(m.ptr + amount) {
                    Machine { ptr: (m.ptr + amount) as i64, steps: (m.steps + 1) as u64, ..m }
                } else {
                    halted(m, Outcome::OffsetOutOfRange)
                }
            },
            Instr::Read { .. } => halted(m, Outcome::ReadEncountered),
            Instr::Write { .. } => Machine { steps: (m.steps + 1) as u64, ..m },
            Instr::Loop { body, .. } => run_loop(body, m, max, fuel),
        }
    }
}

/// Runs `s[i..]` until the end or until execution halts.
pub open spec fn run_seq(s: Seq<Instr>, i: int, m: Machine, max: u64, fuel: nat) -> Machine
    decreases fuel, s, s.len() - i,
{
    if i < 0 || i >= s.len() || m.halt is Some {
        m
    } else {
        run_seq(s, i + 1, run_instr(s[i], m, max, fuel), max, fuel)
    }
}

/// A loop: each test of the current cell is one step.
pub open spec fn run_loop(body: Seq<Instr>, m: Machine, max: u64, fuel: nat) -> Machine
    decreases fuel, body, 1nat,
{
    if m.steps >= max || fuel == 0 {
        halted(m, Outcome::StepBudgetExhausted)
    } else if cell_value(m.cells, m.ptr) == 0 {
        Machine { steps: (m.steps + 1) as u64, ..m }
    } else {
        let after = run_seq(body, 0, Machine { steps: (m.steps + 1) as u64, ..m }, max, (fuel - 1) as nat);
        if after.halt is Some {
            after
        } else {
            run_loop(body, after, max, (fuel - 1) as nat)
        }
    }
}

pub open spec fn initial_machine() -> Machine {
    Machine { cells: Map::empty(), written: Seq::empty(), ptr: 0, steps: 0, halt: None, wrapped: None }
}

/// Runs the top-level instructions `s[i..]`. Where one of them halts,
/// the result is the machine as it stood before that instruction, with the
/// steps that were executed and why execution stopped, and that
/// instruction's index.
pub open spec fn run_top(s: Seq<Instr>, i: int, m: Machine, max: u64) -> (Machine, Option<int>)
    decreases s.len() - i,
{
    if i < 0 || i >= s.len() {
        (Machine { halt: Some(Outcome::Completed), ..m }, None)
    } else {
        let next = run_instr(s[i], m, max, max as nat);
        if next.halt is Some {
            (Machine { steps: next.steps, halt: next.halt, ..m }, Some(i))
        } else {
            run_top(s, i + 1, next, max)
        }
    }
}

/// The result of abstract execution of `s` within `max` steps.
pub open spec fn execution(s: Seq<Instr>, max: u64) -> (Machine, Option<int>) {
    run_top(s, 0, initial_machine(), max)
}

/// A machine that executes instructions against a sparse tape.
pub struct Sim {
    cells: HashMap<i64, u8>,
    written: Vec<i64>,
    ptr: i64,
    steps: u64,
    halt: Option<Outcome>,
    wrapped: Option<Position>,
}

impl Sim {
    pub closed spec fn model(&self) -> Machine {
        Machine {
            cells: self.cells@,
            written: self.written@,
            ptr: self.ptr,
            steps: self.steps,
            halt: self.halt,
            wrapped: self.wrapped,
        }
    }

    /// The step count stays within the budget, loops can still use it up,
    /// and a run that stopped for want of steps used them all.
    pub closed spec fn budget_ok(&self, max: u64, fuel: u64) -> bool {
        &&& self.steps <= max
        &&& self.steps + fuel >= max
        &&& self.halt == Some(Outcome::StepBudgetExhausted) ==> self.steps == max
    }

    pub(crate) fn new() -> (r: Sim)
        ensures
            r.model() == initial_machine(),
            forall|max: u64| #[trigger] r.budget_ok(max, max),
    {
        Sim { cells: HashMap::new(), written: Vec::new(), ptr: 0, steps: 0, halt: None, wrapped: None }
    }

    pub(crate) fn is_halted(&self) -> (r: bool)
        ensures
            r == self.model().halt is Some,
    {
        self.halt.is_some()
    }

    pub(crate) fn pointer(&self) -> (r: i64)
        ensures
            r == self.model().ptr,
    {
        self.ptr
    }

    pub(crate) fn written_offsets(&self) -> (r: &Vec<i64>)
        ensures
            r@ == self.model().written,
    {
        &self.written
    }

    pub(crate) fn cell_at(&self, k: i64) -> (r: u8)
        ensures
            r == cell_value(self.model().cells, k),
    {
        match self.cells.get(&k) {
            Some(v) => *v,
            None => 0,
        }
    }

    fn store(&mut self, offset: i64, v: u8, wrap: bool, pos: Position)
        requires
            old(self).steps < u64::MAX,
        ensures
            final(self).model() == store(old(self).model(), offset, v, wrap, pos),
    {
        match self.ptr.checked_add(offset) {
            Some(k) => {
                if !self.cells.contains_key(&k) {
                    self.written.push(k);
                }
                self.cells.insert(k, v);
                self.steps = self.steps + 1;
                if wrap && self.wrapped.is_none() {
                    self.wrapped = Some(pos);
                }
            },
            None => {
                self.halt = Some(Outcome::OffsetOutOfRange);
            },
        }
    }
    pub(crate) fn exec_instr(&mut self, n: &AstNode, max: u64, fuel: u64)
        requires
            old(self).budget_ok(max, fuel),
        ensures
            final(self).budget_ok(max, fuel),
            final(self).model().steps >= old(self).model().steps,
            final(self).model() == run_instr(view_node(*n), old(self).model(), max, fuel as nat),
        decreases fuel, n, 0nat,
    {
        if self.steps >= max {
            self.halt = Some(Outcome::StepBudgetExhausted);
            return;
        }
        match n {
            AstNode::Increment { amount, offset, position } => {
                let old_v: u8 = match self.ptr.checked_add(*offset) {
                    Some(k) => self.cell_at(k),
                    None => 0,
                };
                let wrap = if *amount < 128 {
                    old_v as u16 + *amount as u16 > 255
                } else {
                    (old_v as u16) < 256 - *amount as u16
                };
                self.store(*offset, old_v.wrapping_add(*amount), wrap, *position);
            },
            AstNode::SetValue { amount, offset, position } => {
                self.store(*offset, *amount, false, *position);
            },
            AstNode::PointerIncrement { amount, .. } => {
                match self.ptr.checked_add(*amount) {
                    Some(p) => {
                        self.ptr = p;
                        self.steps = self.steps + 1;
                    },
                    None => {
                        self.halt = Some(Outcome::OffsetOutOfRange);
                    },
                }
            },
            AstNode::Read { .. } => {
                self.halt = Some(Outcome::ReadEncountered);
            },
            AstNode::Write { .. } => {
                self.steps = self.steps + 1;
            },
            AstNode::Loop { body, .. } => {
                self.exec_loop(body, max, fuel);
            },
        }
    }

    fn exec_seq(&mut self, s: &Vec<AstNode>, max: u64, fuel: u64)
        requires
            old(self).budget_ok(max, fuel),
        ensures
            final(self).budget_ok(max, fuel),
            final(self).model().steps >= old(self).model().steps,
            final(self).model() == run_seq(view_nodes(*s), 0, old(self).model(), max, fuel as nat),
        decreases fuel, s, 2nat,
    {
        proof {
            lemma_view_nodes(*s);
        }
        let ghost sv = view_nodes(*s);
        let ghost m0 = self.model();
        let mut i: usize = 0;
        while i < s.len() && self.halt.is_none()
            invariant
                0 <= i <= s@.len(),
                sv == view_nodes(*s),
                sv.len() == s@.len(),
                forall|j: int| 0 <= j < s@.len() ==> #[trigger] sv[j] == view_node(s@[j]),
                run_seq(sv, 0, m0, max, fuel as nat) == run_seq(sv, i as int, self.model(), max, fuel as nat),
            self.budget_ok(max, fuel),
            self.steps >= m0.steps,
            decreases s@.len() - i,
        {
            self.exec_instr(&s[i], max, fuel);
            i = i + 1;
        }
    }

    fn exec_loop(&mut self, body: &Vec<AstNode>, max: u64, fuel: u64)
        requires
            old(self).budget_ok(max, fuel),
        ensures
            final(self).budget_ok(max, fuel),
            final(self).model().steps >= old(self).model().steps,
            final(self).model() == run_loop(view_nodes(*body), old(self).model(), max, fuel as nat),
        decreases fuel, body, 1nat,
    {
        if self.steps >= max || fuel == 0 {
            self.halt = Some(Outcome::StepBudgetExhausted);
            return;
        }
        let c = self.cell_at(self.ptr);
        self.steps = self.steps + 1;
        if c == 0 {
            return;
        }
        self.exec_seq(body, max, fuel - 1);
        if self.halt.is_none() {
            self.exec_loop(body, max, fuel - 1);
        }
    }
}

/// The machine state that abstract execution hands to code generation.
pub struct ExecutionState {
    /// The cells that compile-time execution wrote.
    pub tape: HashMap<i64, u8>,
    pub ptr: i64,
    pub steps_executed: u64,
    /// The top-level instruction where runtime code must resume, if any.
    pub start_instr: Option<usize>,
    pub outcome: Outcome,
}

impl ExecutionState {
    /// The state of a program that is not executed at compile time: a
    /// zeroed tape, and runtime code from its first instruction on.
    pub fn initial(instrs: &Vec<AstNode>) -> (r: Self)
        ensures
            r.tape@ == Map::<i64, u8>::empty(),
            r.ptr == 0,
            r.steps_executed == 0,
            r.start_instr == if instrs@.len() == 0 { None } else { Some(0usize) },
            r.outcome == if instrs@.len() == 0 { Outcome::Completed } else { Outcome::NotExecuted },
    {
        let empty = instrs.len() == 0;
        ExecutionState {
            tape: HashMap::new(),
            ptr: 0,
            steps_executed: 0,
            start_instr: if empty { None } else { Some(0) },
            outcome: if empty { Outcome::Completed } else { Outcome::NotExecuted },
        }
    }

    /// The value of the cell at `offset`; cells never written hold 0.
    pub fn cell(&self, offset: i64) -> (r: u8)
        ensures
            r == cell_value(self.tape@, offset),
    {
        match self.tape.get(&offset) {
            Some(v) => *v,
            None => 0,
        }
    }
}

/// The warning for a run that used up its step budget.
pub open spec fn budget_message() -> Seq<char> {
    "Step budget exhausted: this loop may never terminate"@
}

/// The warning for a cell value that wrapped around.
pub open spec fn wrap_message() -> Seq<char> {
    "This instruction makes a cell value wrap around"@
}

/// Executes `instrs` at compile time, from a zeroed tape with the pointer at
/// 0, for at most `max_steps` steps.
pub fn execute(instrs: &Vec<AstNode>, max_steps: u64) -> (r: (ExecutionState, Option<Warning>))
    ensures
        ({
            let (m, start) = execution(view_nodes(*instrs), max_steps);
            &&& r.0.tape@ == m.cells
            &&& r.0.ptr == m.ptr
            &&& r.0.steps_executed == m.steps
            &&& Some(r.0.outcome) == m.halt
            &&& start is Some <==> r.0.start_instr is Some
            &&& start is Some ==> start->0 == r.0.start_instr->0 as int
            &&& match r.1 {
                Some(w) => if r.0.outcome == Outcome::StepBudgetExhausted {
                    w.message@ == budget_message() && w.position == Some(
                        instr_position(view_node(instrs@[start->0])),
                    )
                } else {
                    m.wrapped is Some && w.message@ == wrap_message() && w.position == m.wrapped
                },
                None => r.0.outcome != Outcome::StepBudgetExhausted && m.wrapped is None,
            }
        }),
        r.0.steps_executed <= max_steps,
        r.0.outcome == Outcome::StepBudgetExhausted ==> r.0.steps_executed == max_steps,
        r.0.start_instr is Some ==> r.0.start_instr->0 < instrs@.len(),
{
    proof {
        lemma_view_nodes(*instrs);
    }
    let ghost sv = view_nodes(*instrs);
    let mut sim = Sim::new();
    let mut i: usize = 0;
    while i < instrs.len()
        invariant
            0 <= i <= instrs@.len(),
            sv == view_nodes(*instrs),
            sv.len() == instrs@.len(),
            forall|j: int| 0 <= j < instrs@.len() ==> #[trigger] sv[j] == view_node(instrs@[j]),
            sim.halt is None,
            sim.budget_ok(max_steps, max_steps),
            execution(sv, max_steps) == run_top(sv, i as int, sim.model(), max_steps),
        decreases instrs@.len() - i,
    {
        let snapshot = sim.cells.clone();
        let ptr = sim.ptr;
        let wrapped = sim.wrapped;
        sim.exec_instr(&instrs[i], max_steps, max_steps);
        match sim.halt {
            Some(outcome) => {
                let state = ExecutionState {
                    tape: snapshot,
                    ptr,
                    steps_executed: sim.steps,
                    start_instr: Some(i),
                    outcome,
                };
                let warning = if outcome == Outcome::StepBudgetExhausted {
                    Some(Warning {
                        message: String::from_str("Step budget exhausted: this loop may never terminate"),
                        position: Some(instrs[i].position()),
                    })
                } else {
                    match wrapped {
                        Some(p) => Some(Warning {
                            message: String::from_str("This instruction makes a cell value wrap around"),
                            position: Some(p),
                        }),
                        None => None,
                    }
                };
                return (state, warning);
            },
            None => {},
        }
        i = i + 1;
    }
    let state = ExecutionState {
        tape: sim.cells,
        ptr: sim.ptr,
        steps_executed: sim.steps,
        start_instr: None,
        outcome: Outcome::Completed,
    };
    let warning = match sim.wrapped {
        Some(p) => Some(Warning {
            message: String::from_str("This instruction makes a cell value wrap around"),
            position: Some(p),
        }),
        None => None,
    };
    (state, warning)
}

} // verus!

verus! {

proof fn lemma_empty_loop_spins(m: Machine, max: u64, fuel: nat)
    requires
        m.halt is None,
        cell_value(m.cells, m.ptr) != 0,
        m.steps <= max,
        m.steps + fuel >= max,
    ensures
        run_loop(Seq::empty(), m, max, fuel).halt == Some(Outcome::StepBudgetExhausted),
        run_loop(Seq::empty(), m, max, fuel).steps == max,
    decreases fuel,
{
    if !(m.steps >= max || fuel == 0) {
        let next = Machine { steps: (m.steps + 1) as u64, ..m };
        assert(run_seq(Seq::empty(), 0, next, max, (fuel - 1) as nat) == next);
        lemma_empty_loop_spins(next, max, (fuel - 1) as nat);
    }
}

/// The program that sets the current cell to a nonzero value and then
/// loops over an empty body.
pub open spec fn spinning_program(amount: u8, p: Position, q: Position) -> Seq<Instr> {
    seq![
        Instr::Increment { amount, offset: 0, position: p },
        Instr::Loop { body: Seq::empty(), position: q },
    ]
}

/// A loop that never changes its nonzero cell uses up any budget of at
/// least one step: execution stops for want of steps after exactly that
/// many, at the loop.
pub proof fn lemma_budget_exhausted(amount: u8, p: Position, q: Position, n: u64)
    requires
        amount != 0,
        n >= 1,
    ensures
        execution(spinning_program(amount, p, q), n).0.halt == Some(Outcome::StepBudgetExhausted),
        execution(spinning_program(amount, p, q), n).0.steps == n,
        execution(spinning_program(amount, p, q), n).1 == Some(1int),
{
    let s = spinning_program(amount, p, q);
    let m0 = initial_machine();
    let m1 = run_instr(s[0], m0, n, n as nat);
    assert(m1.cells == Map::<i64, u8>::empty().insert(0, amount));
    assert(cell_value(m1.cells, 0) == amount);
    assert(m1.steps == 1 && m1.halt is None && m1.ptr == 0);
    assert(run_top(s, 0, m0, n) == run_top(s, 1, m1, n));
    if n > 1 {
        lemma_empty_loop_spins(m1, n, n as nat);
    }
    let m2 = run_instr(s[1], m1, n, n as nat);
    assert(m2.halt == Some(Outcome::StepBudgetExhausted) && m2.steps == n);
}

} // verus!
