use vstd::prelude::*;
use crate::disasm::{FunctionDisasm, Instr, ModuleDisasm};

verus! {

broadcast use vstd::std_specs::vec::group_vec_axioms;

/// The states of a debugging session.
#[derive(Debug, Clone, Copy, PartialEq, Eq, Structural)]
pub enum DebugState {
    Idle,
    Running,
    AtBreakpoint,
    Stepping,
    Terminated,
}

/// What the driver must ask of the engine after a transition.
#[derive(Debug, Clone, Copy, PartialEq, Eq, Structural)]
pub enum Action {
    /// Call the initialisation exports in order.
    CallInitSequence,
    /// Make one step of progress in the engine.
    StepInstruction,
    /// Nothing.
    Nothing,
}

/// What one step reports: the function and instruction it stood on.
#[derive(Debug)]
pub struct StepReport {
    pub func_position: u32,
    pub func_name: String,
    pub instr_index: usize,
    pub instr: Instr,
    pub source: Option<(String, u64)>,
}

/// A debugging session over a disassembled module.
pub struct WasmDebugger {
    pub disasm: ModuleDisasm,
    pub breakpoints: Vec<String>,
    pub state: DebugState,
    pub current_func: u32,
    pub current_instr: usize,
}

/// `name` is in the breakpoint list.
pub open spec fn is_break(bps: Seq<String>, name: Seq<char>) -> bool {
    exists|i: int| 0 <= i < bps.len() && #[trigger] bps[i]@ == name
}

/// The first function at or after position `from` whose name is a breakpoint.
pub open spec fn next_break(fs: Seq<FunctionDisasm>, bps: Seq<String>, from: int) -> Option<int>
    decreases fs.len() - from,
{
    if from < 0 || from >= fs.len() {
        None
    } else if is_break(bps, fs[from].name@) {
        Some(from)
    } else {
        next_break(fs, bps, from + 1)
    }
}

proof fn lemma_next_break(fs: Seq<FunctionDisasm>, bps: Seq<String>, from: int)
    requires
        0 <= from,
    ensures
        match next_break(fs, bps, from) {
            Some(k) => from <= k < fs.len() && is_break(bps, fs[k].name@),
            None => true,
        },
    decreases fs.len() - from,
{
    if from < fs.len() && !is_break(bps, fs[from].name@) {
        lemma_next_break(fs, bps, from + 1);
    }
}

impl WasmDebugger {
    /// The breakpoints, as a set of function names.
    pub open spec fn breaks(&self) -> Seq<String> {
        self.breakpoints@
    }

    pub open spec fn break_set(&self) -> Set<Seq<char>> {
        Set::new(|n: Seq<char>| is_break(self.breaks(), n))
    }

    pub fn new(disasm: ModuleDisasm) -> (r: Self)
        ensures
            r.state == DebugState::Idle,
            r.current_func == 0,
            r.current_instr == 0,
            r.break_set() == Set::<Seq<char>>::empty(),
            r.disasm == disasm,
    {
        let r = WasmDebugger {
            disasm,
            breakpoints: Vec::new(),
            state: DebugState::Idle,
            current_func: 0,
            current_instr: 0,
        };
        proof {
            assert(r.break_set() =~= Set::<Seq<char>>::empty());
        }
        r
    }

    /// Adds a breakpoint on the function named `name`.
    pub fn set_breakpoint(&mut self, name: &str)
        ensures
            final(self).break_set() == old(self).break_set().insert(name@),
            final(self).state == old(self).state,
            final(self).current_func == old(self).current_func,
            final(self).current_instr == old(self).current_instr,
            final(self).disasm == old(self).disasm,
    {
        let key = name.to_owned();
        let mut i: usize = 0;
        while i < self.breakpoints.len()
            invariant
                i <= self.breakpoints@.len(),
                key@ == name@,
                *self == *old(self),
                forall|j: int| 0 <= j < i ==> #[trigger] self.breakpoints@[j]@ != name@,
            decreases self.breakpoints@.len() - i,
        {
            if self.breakpoints[i] == key {
                proof {
                    assert(self.breakpoints@[i as int]@ == name@);
                    assert(self.break_set() =~= self.break_set().insert(name@));
                }
                return;
            }
            i = i + 1;
        }
        let ghost before = self.breakpoints@;
        self.breakpoints.push(key);
        proof {
            assert forall|n: Seq<char>| #[trigger] self.break_set().contains(n) == old(self).break_set().insert(name@).contains(n) by {
                if is_break(before, n) {
                    let j = choose|j: int| 0 <= j < before.len() && #[trigger] before[j]@ == n;
                    assert(self.breakpoints@[j]@ == n);
                }
                if is_break(self.breakpoints@, n) && n != name@ {
                    let j = choose|j: int| 0 <= j < self.breakpoints@.len() && #[trigger] self.breakpoints@[j]@ == n;
                    assert(before[j]@ == n);
                }
                if n == name@ {
                    assert(self.breakpoints@[before.len() as int]@ == n);
                }
            }
            assert(self.break_set() =~= old(self).break_set().insert(name@));
        }
    }

    /// Whether the function at position `k` carries a breakpoint.
    fn breaks_at(&self, k: usize) -> (r: bool)
        requires
            k < self.disasm.functions@.len(),
        ensures
            r == is_break(self.breaks(), self.disasm.functions@[k as int].name@),
    {
        let name = &self.disasm.functions[k].name;
        let mut i: usize = 0;
        while i < self.breakpoints.len()
            invariant
                i <= self.breakpoints@.len(),
                k < self.disasm.functions@.len(),
                name@ == self.disasm.functions@[k as int].name@,
                forall|j: int| 0 <= j < i ==> #[trigger] self.breakpoints@[j]@ != name@,
            decreases self.breakpoints@.len() - i,
        {
            if self.breakpoints[i] == *name {
                proof {
                    assert(self.breakpoints@[i as int]@ == name@);
                }
                return true;
            }
            i = i + 1;
        }
        false
    }

    /// The first function at or after `from` that carries a breakpoint.
    fn find_break(&self, from: usize) -> (r: Option<usize>)
        ensures
            match next_break(self.disasm.functions@, self.breaks(), from as int) {
                Some(k) => r matches Some(j) && j == k,
                None => r is None,
            },
    {
        let n = self.disasm.functions.len();
        let mut k = from;
        while k < n
            invariant
                n == self.disasm.functions@.len(),
                from <= k,
                next_break(self.disasm.functions@, self.breaks(), from as int) == next_break(
                    self.disasm.functions@,
                    self.breaks(),
                    k as int,
                ),
            decreases n - k,
        {
            if self.breaks_at(k) {
                return Some(k);
            }
            k = k + 1;
        }
        None
    }

    /// Halts at the first breakpoint function at or after `from`, at its first instruction.
    /// Returns whether it halted.
    fn halt_from(&mut self, from: usize) -> (r: bool)
        ensures
            final(self).disasm == old(self).disasm,
            final(self).breaks() == old(self).breaks(),
            match next_break(old(self).disasm.functions@, old(self).breaks(), from as int) {
                Some(k) => if k <= u32::MAX {
                    r && final(self).state == DebugState::AtBreakpoint && final(self).current_func
                        == k && final(self).current_instr == 0
                } else {
                    !r
                },
                None => !r,
            },
            !r ==> final(self).state == old(self).state && final(self).current_func == old(
                self,
            ).current_func && final(self).current_instr == old(self).current_instr,
    {
        match self.find_break(from) {
            Some(k) => {
                if k > u32::MAX as usize {
                    return false;
                }
                self.state = DebugState::AtBreakpoint;
                self.current_func = k as u32;
                self.current_instr = 0;
                true
            },
            None => false,
        }
    }

    /// `run`: from `Idle` the session starts and the driver calls the initialisation sequence;
    /// it halts at the first function that carries a breakpoint, before any of its
    /// instructions, else it is `Running` at the start of the first function.
    pub fn run(&mut self) -> (r: Action)
        ensures
            final(self).disasm == old(self).disasm,
            final(self).breaks() == old(self).breaks(),
            old(self).state != DebugState::Idle ==> r == Action::Nothing && final(self).state
                == old(self).state && final(self).current_func == old(self).current_func
                && final(self).current_instr == old(self).current_instr,
            old(self).state == DebugState::Idle ==> r == Action::CallInitSequence && match next_break(
                old(self).disasm.functions@,
                old(self).breaks(),
                0,
            ) {
                Some(k) => k <= u32::MAX ==> final(self).state == DebugState::AtBreakpoint
                    && final(self).current_func == k && final(self).current_instr == 0,
                None => final(self).state == DebugState::Running && final(self).current_func == 0
                    && final(self).current_instr == 0,
            },
    {
        if self.state != DebugState::Idle {
            return Action::Nothing;
        }
        self.state = DebugState::Running;
        self.current_func = 0;
        self.current_instr = 0;
        self.halt_from(0);
        Action::CallInitSequence
    }

    /// `continue`: runs to the next function after the current one that carries a breakpoint,
    /// or to the end of the program.
    pub fn continue_exec(&mut self) -> (r: Action)
        ensures
            final(self).disasm == old(self).disasm,
            final(self).breaks() == old(self).breaks(),
            r == Action::Nothing,
            (old(self).state == DebugState::Idle || old(self).state == DebugState::Terminated)
                ==> final(self).state == old(self).state && final(self).current_func == old(
                self,
            ).current_func && final(self).current_instr == old(self).current_instr,
            !(old(self).state == DebugState::Idle || old(self).state == DebugState::Terminated)
                ==> match next_break(
                old(self).disasm.functions@,
                old(self).breaks(),
                old(self).current_func + 1,
            ) {
                Some(k) => k <= u32::MAX ==> final(self).state == DebugState::AtBreakpoint
                    && final(self).current_func == k && final(self).current_instr == 0,
                None => final(self).state == DebugState::Terminated,
            },
    {
        if self.state == DebugState::Idle || self.state == DebugState::Terminated {
            return Action::Nothing;
        }
        let n = self.disasm.functions.len();
        self.state = DebugState::Running;
        let from: usize = if (self.current_func as usize) < usize::MAX {
            self.current_func as usize + 1
        } else {
            usize::MAX
        };
        proof {
            assert(next_break(self.disasm.functions@, self.breaks(), from as int) == next_break(
                self.disasm.functions@,
                self.breaks(),
                self.current_func + 1,
            ));
        }
        if !self.halt_from(from) {
            self.state = DebugState::Terminated;
        }
        Action::Nothing
    }

    /// The action a `step` needs from the engine before `step` records it.
    pub fn step_action(&self) -> (r: Action)
        ensures
            r == (if self.state == DebugState::Running || self.state == DebugState::Stepping
                || self.state == DebugState::AtBreakpoint {
                Action::StepInstruction
            } else {
                Action::Nothing
            }),
    {
        if self.state == DebugState::Running || self.state == DebugState::Stepping || self.state
            == DebugState::AtBreakpoint {
            Action::StepInstruction
        } else {
            Action::Nothing
        }
    }

    /// `step`: reports the instruction at the current position and moves to the next one;
    /// past a function's last instruction it moves to the start of the next function.
    pub fn step(&mut self) -> (r: Option<StepReport>)
        requires
            old(self).disasm.wf(),
        ensures
            final(self).disasm == old(self).disasm,
            final(self).breaks() == old(self).breaks(),
            !(old(self).state == DebugState::Running || old(self).state == DebugState::Stepping
                || old(self).state == DebugState::AtBreakpoint) ==> r is None && final(self).state
                == old(self).state && final(self).current_func == old(self).current_func
                && final(self).current_instr == old(self).current_instr,
            (old(self).state == DebugState::Running || old(self).state == DebugState::Stepping
                || old(self).state == DebugState::AtBreakpoint) ==> {
                let fs = old(self).disasm.functions@;
                let f = old(self).current_func as int;
                let i = old(self).current_instr as int;
                &&& final(self).state == DebugState::Stepping
                &&& if f < fs.len() && i < fs[f].instrs@.len() {
                    &&& r matches Some(rep) && rep.func_position == f && rep.func_name@
                        == fs[f].name@ && rep.instr_index == i && rep.instr == fs[f].instrs@[i]
                    &&& final(self).current_func == f && final(self).current_instr == i + 1
                } else {
                    &&& r is None
                    &&& final(self).current_instr == 0
                    &&& final(self).current_func == (if f < u32::MAX {
                        f + 1
                    } else {
                        f
                    })
                }
            },
    {
        if !(self.state == DebugState::Running || self.state == DebugState::Stepping || self.state
            == DebugState::AtBreakpoint) {
            return None;
        }
        self.state = DebugState::Stepping;
        let f = self.current_func;
        let i = self.current_instr;
        match self.disasm.get_instr(f as usize, i) {
            Some(ins) => {
                let len = self.disasm.functions[f as usize].instrs.len();
                let source = match &self.disasm.lines {
                    Some(t) => t.lookup(ins.0 as u64),
                    None => None,
                };
                let name = self.disasm.functions[f as usize].name.clone();
                self.current_instr = i + 1;
                Some(StepReport { func_position: f, func_name: name, instr_index: i, instr: ins, source })
            },
            None => {
                if f < u32::MAX {
                    self.current_func = f + 1;
                }
                self.current_instr = 0;
                None
            },
        }
    }

    /// `quit`, or a trap reported by the engine: the session ends.
    pub fn terminate(&mut self)
        ensures
            final(self).state == DebugState::Terminated,
            final(self).disasm == old(self).disasm,
            final(self).breaks() == old(self).breaks(),
            final(self).current_func == old(self).current_func,
            final(self).current_instr == old(self).current_instr,
    {
        self.state = DebugState::Terminated;
    }
}

} // verus!
