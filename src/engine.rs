//! The execution engine: a fetch-decode-execute loop over the program that
//! uses the jump table for `[` and `]`.
use std::collections::HashMap;
use vstd::prelude::*;

use crate::brackets::{balanced, create_bracket_map, is_jump_table, lemma_table_entry_is_partner};
use crate::error::{message_of, ErrorKind};
use crate::machine::{
    cursor_left, cursor_right, initial_machine, run_from, run_spec, step_machine, Machine, Outcome,
    TAPE_LEN,
};
use crate::text::chars_of;

verus! {

/// The state a run leaves behind: the tape, the cursor, what was written,
/// and how many input characters were read.
#[derive(Debug)]
pub struct State {
    pub memory: Vec<u8>,
    pub ptr: usize,
    pub output: String,
    pub input_pos: usize,
}

/// Where control goes after one instruction.
#[derive(Clone, Copy, Debug, PartialEq, Eq, Structural)]
pub enum Transfer {
    /// On to the next instruction.
    Advance,
    /// To the instruction at this position, which is evaluated next.
    JumpTo(usize),
}

impl Transfer {
    /// The program counter after this transfer from `pc`.
    pub open spec fn target(self, pc: int) -> int {
        match self {
            Transfer::Advance => pc + 1,
            Transfer::JumpTo(j) => j as int,
        }
    }
}

impl State {
    /// The machine this state stands for, at program counter `pc`.
    pub open spec fn machine_at(&self, pc: int) -> Machine {
        Machine {
            tape: self.memory@,
            cursor: self.ptr as int,
            pc,
            consumed: self.input_pos as int,
            output: self.output@,
        }
    }

    /// The tape has its fixed length and the cursor is on it.
    pub open spec fn wf(&self) -> bool {
        self.memory@.len() == TAPE_LEN && self.ptr < TAPE_LEN
    }

    /// A fresh state: every cell zero, the cursor on cell 0, nothing read or
    /// written.
    pub fn new() -> (s: State)
        ensures
            s.wf(),
            s.machine_at(0) == initial_machine(),
    {
        let s = State { memory: vec![0u8; TAPE_LEN], ptr: 0, output: String::new(), input_pos: 0 };
        assert(s.memory@ =~= initial_machine().tape);
        s
    }

    /// The cell the cursor is on.
    pub fn cursor(&self) -> (r: usize)
        ensures
            r == self.ptr,
    {
        self.ptr
    }
}

/// Relies on String::push: the character is appended at the end.
#[verifier::external_body]
fn push_char(s: &mut String, c: char)
    ensures
        final(s)@ == old(s)@.push(c),
{
    s.push(c);
}

/// Executes the instruction at `pc` on `state` and says where control goes
/// next; fails when the instruction is a read and the input is used up.
pub fn step(
    state: &mut State,
    programs: &[char],
    table: &HashMap<usize, usize>,
    pc: usize,
    input: &[char],
) -> (r: Result<Transfer, String>)
    requires
        old(state).wf(),
        is_jump_table(programs@, table@),
        pc < programs@.len(),
        old(state).input_pos <= input@.len(),
    ensures
        match (step_machine(programs@, input@, old(state).machine_at(pc as int)), r) {
            (Some(t), Ok(tr)) => {
                &&& final(state).wf()
                &&& final(state).machine_at(tr.target(pc as int)) == t
                &&& tr.target(pc as int) <= programs@.len()
                &&& final(state).input_pos <= input@.len()
            },
            (None, Err(e)) => e@ == message_of(ErrorKind::InputExhausted),
            _ => false,
        },
{
    broadcast use vstd::std_specs::hash::group_hash_axioms;

    let ghost s0 = state.machine_at(pc as int);
    let c = programs[pc];
    let ptr = state.ptr;
    let cell = state.memory[ptr];
    if c == '+' {
        let v: u8 = if cell == 255 {
            0
        } else {
            cell + 1
        };
        state.memory.set(ptr, v);
    } else if c == '-' {
        let v: u8 = if cell == 0 {
            255
        } else {
            cell - 1
        };
        state.memory.set(ptr, v);
    } else if c == '>' {
        if ptr + 1 < TAPE_LEN {
            state.ptr = ptr + 1;
        }
        assert(state.ptr == cursor_right(ptr as int));
    } else if c == '<' {
        if ptr != 0 {
            state.ptr = ptr - 1;
        }
        assert(state.ptr == cursor_left(ptr as int));
    } else if c == '.' {
        push_char(&mut state.output, cell as char);
    } else if c == ',' {
        if state.input_pos >= input.len() {
            return Err(ErrorKind::InputExhausted.message());
        }
        let ch = input[state.input_pos];
        state.memory.set(ptr, ((ch as u32) % 256) as u8);
        state.input_pos = state.input_pos + 1;
    } else if (c == '[' && cell == 0) || (c == ']' && cell != 0) {
        proof {
            lemma_table_entry_is_partner(programs@, table@, pc);
        }
        let target = *table.get(&pc).unwrap();
        return Ok(Transfer::JumpTo(target));
    }
    let r = Transfer::Advance;
    assert(state.machine_at(r.target(pc as int)) =~= step_machine(programs@, input@, s0)->Some_0);
    Ok(r)
}

/// Whether a run's result is the one the abstract machine gives: on success
/// the state stands for the halted machine, on failure the message is the
/// text of the failure.
pub open spec fn result_matches(r: Result<State, String>, s: Result<Machine, ErrorKind>) -> bool {
    match (s, r) {
        (Ok(m), Ok(st)) => st.wf() && st.machine_at(m.pc) == m,
        (Err(k), Err(e)) => e@ == message_of(k),
        _ => false,
    }
}

/// Runs `programs` on `input`, executing at most `max_steps` instructions.
pub fn run_with_limit(programs: &str, input: &str, max_steps: u64) -> (r: Result<State, String>)
    ensures
        result_matches(r, run_spec(programs@, input@, max_steps as nat)),
{
    let chars = chars_of(programs);
    let input_chars = chars_of(input);
    let ghost p = programs@;
    let ghost inp = input@;
    let table = match create_bracket_map(chars.as_slice()) {
        Ok(t) => t,
        Err(e) => {
            return Err(e);
        },
    };
    let mut state = State::new();
    let mut pc: usize = 0;
    let mut steps: u64 = 0;
    while pc < chars.len()
        invariant
            p == programs@,
            inp == input@,
            chars@ == p,
            input_chars@ == inp,
            is_jump_table(p, table@),
            balanced(p),
            state.wf(),
            pc <= p.len(),
            state.input_pos <= inp.len(),
            steps <= max_steps,
            run_from(p, inp, initial_machine(), max_steps as nat) == run_from(
                p,
                inp,
                state.machine_at(pc as int),
                (max_steps - steps) as nat,
            ),
        decreases max_steps - steps,
    {
        if steps == max_steps {
            assert(run_from(p, inp, state.machine_at(pc as int), 0) == Outcome::OutOfSteps);
            return Err(ErrorKind::StepLimitReached.message());
        }
        let ghost before = state.machine_at(pc as int);
        let ghost fuel = (max_steps - steps) as nat;
        assert(run_from(p, inp, before, fuel) == match step_machine(p, inp, before) {
            Some(t) => run_from(p, inp, t, (fuel - 1) as nat),
            None => Outcome::InputExhausted,
        });
        let tr = match step(&mut state, chars.as_slice(), &table, pc, input_chars.as_slice()) {
            Ok(tr) => tr,
            Err(e) => {
                assert(step_machine(p, inp, before) is None);
                return Err(e);
            },
        };
        pc = match tr {
            Transfer::Advance => pc + 1,
            Transfer::JumpTo(j) => j,
        };
        steps = steps + 1;
    }
    Ok(state)
}

/// Runs `programs` on `input` until the program counter reaches the end of
/// the program, a read finds no input, or `u64::MAX` instructions have run.
pub fn run(programs: &str, input: &str) -> (r: Result<State, String>)
    ensures
        result_matches(r, run_spec(programs@, input@, u64::MAX as nat)),
{
    run_with_limit(programs, input, u64::MAX)
}

} // verus!
