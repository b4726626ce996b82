//! The abstract machine: what one instruction does, and what a whole run
//! computes. The executable engine is proved against these definitions.
use vstd::prelude::*;

use crate::brackets::{
    balanced, is_bracket, lemma_bracket_free_balanced, lemma_open_has_partner, never_underflows,
    partner,
};
use crate::error::ErrorKind;

verus! {

/// Number of cells on the tape.
pub const TAPE_LEN: usize = 1024;

/// The state of a run: tape, cursor, program counter, how many input
/// characters have been read, and what has been written so far.
pub struct Machine {
    pub tape: Seq<u8>,
    pub cursor: int,
    pub pc: int,
    pub consumed: int,
    pub output: Seq<char>,
}

/// The machine a run starts in: every cell zero, nothing read or written.
pub open spec fn initial_machine() -> Machine {
    Machine {
        tape: Seq::new(TAPE_LEN as nat, |i: int| 0u8),
        cursor: 0,
        pc: 0,
        consumed: 0,
        output: Seq::empty(),
    }
}

/// The tape and cursor fit together and the counters are in range.
pub open spec fn machine_wf(p: Seq<char>, input: Seq<char>, s: Machine) -> bool {
    &&& s.tape.len() == TAPE_LEN
    &&& 0 <= s.cursor < TAPE_LEN
    &&& 0 <= s.pc <= p.len()
    &&& 0 <= s.consumed <= input.len()
}

/// `b + 1`, wrapping 255 to 0.
pub open spec fn cell_inc(b: u8) -> u8 {
    ((b as int + 1) % 256) as u8
}

/// `b - 1`, wrapping 0 to 255.
pub open spec fn cell_dec(b: u8) -> u8 {
    ((b as int + 255) % 256) as u8
}

/// The cell value stored by a read: the low eight bits of the character's
/// code point.
pub open spec fn input_byte(c: char) -> u8 {
    ((c as u32) % 256) as u8
}

/// The output unit written for a cell value: the character with that code.
pub open spec fn output_char(b: u8) -> char {
    b as char
}

/// The cursor after `>`: one cell right, staying put on the last cell.
pub open spec fn cursor_right(c: int) -> int {
    if c + 1 < TAPE_LEN {
        c + 1
    } else {
        c
    }
}

/// The cursor after `<`: one cell left, staying put on cell 0.
pub open spec fn cursor_left(c: int) -> int {
    if c > 0 {
        c - 1
    } else {
        c
    }
}

/// The instruction at `s.pc` applied to `s`; `None` when it is a read and
/// the input is used up.
pub open spec fn step_machine(p: Seq<char>, input: Seq<char>, s: Machine) -> Option<Machine> {
    let c = p[s.pc];
    let cell = s.tape[s.cursor];
    let next = Machine { pc: s.pc + 1, ..s };
    if c == '+' {
        Some(Machine { tape: s.tape.update(s.cursor, cell_inc(cell)), ..next })
    } else if c == '-' {
        Some(Machine { tape: s.tape.update(s.cursor, cell_dec(cell)), ..next })
    } else if c == '>' {
        Some(Machine { cursor: cursor_right(s.cursor), ..next })
    } else if c == '<' {
        Some(Machine { cursor: cursor_left(s.cursor), ..next })
    } else if c == '.' {
        Some(Machine { output: s.output.push(output_char(cell)), ..next })
    } else if c == ',' {
        if s.consumed < input.len() {
            Some(
                Machine {
                    tape: s.tape.update(s.cursor, input_byte(input[s.consumed])),
                    consumed: s.consumed + 1,
                    ..next
                },
            )
        } else {
            None
        }
    } else if c == '[' && cell == 0 {
        Some(Machine { pc: partner(p, s.pc), ..s })
    } else if c == ']' && cell != 0 {
        Some(Machine { pc: partner(p, s.pc), ..s })
    } else {
        Some(next)
    }
}

/// How a run from some machine ends within a number of steps.
pub enum Outcome {
    /// The program counter reached the end of the program.
    Halted(Machine),
    /// A read found no input left.
    InputExhausted,
    /// The steps ran out first.
    OutOfSteps,
}

/// Runs `s` for at most `fuel` instructions.
pub open spec fn run_from(p: Seq<char>, input: Seq<char>, s: Machine, fuel: nat) -> Outcome
    decreases fuel,
{
    if s.pc >= p.len() {
        Outcome::Halted(s)
    } else if fuel == 0 {
        Outcome::OutOfSteps
    } else {
        match step_machine(p, input, s) {
            Some(t) => run_from(p, input, t, (fuel - 1) as nat),
            None => Outcome::InputExhausted,
        }
    }
}

/// What a run of `p` on `input` with a budget of `fuel` instructions
/// produces: the bracket errors come before any instruction is executed.
pub open spec fn run_spec(p: Seq<char>, input: Seq<char>, fuel: nat) -> Result<Machine, ErrorKind> {
    if !balanced(p) {
        Err(
            if never_underflows(p) {
                ErrorKind::UnmatchedOpen
            } else {
                ErrorKind::UnmatchedClose
            },
        )
    } else {
        match run_from(p, input, initial_machine(), fuel) {
            Outcome::Halted(m) => Ok(m),
            Outcome::InputExhausted => Err(ErrorKind::InputExhausted),
            Outcome::OutOfSteps => Err(ErrorKind::StepLimitReached),
        }
    }
}

/// One of the eight characters that do something.
pub open spec fn is_instruction(c: char) -> bool {
    c == '+' || c == '-' || c == '>' || c == '<' || c == '.' || c == ',' || c == '[' || c == ']'
}

/// `-` on a zero cell stores 255 there and moves on; it never fails.
pub proof fn lemma_decrement_zero_wraps(p: Seq<char>, input: Seq<char>, s: Machine)
    requires
        machine_wf(p, input, s),
        s.pc < p.len(),
        p[s.pc] == '-',
        s.tape[s.cursor] == 0,
    ensures
        step_machine(p, input, s) == Some(
            Machine { tape: s.tape.update(s.cursor, 255u8), pc: s.pc + 1, ..s },
        ),
{
}

/// `<` on cell 0 leaves the cursor on cell 0, changes nothing else but the
/// program counter, and never fails.
pub proof fn lemma_left_at_zero_stays(p: Seq<char>, input: Seq<char>, s: Machine)
    requires
        machine_wf(p, input, s),
        s.pc < p.len(),
        p[s.pc] == '<',
        s.cursor == 0,
    ensures
        step_machine(p, input, s) == Some(Machine { pc: s.pc + 1, ..s }),
{
}

/// A `[` reached with a zero cell skips its loop: control goes to the
/// matching `]`, which falls through, and the tape, cursor, input and
/// output are as they were before the `[`.
pub proof fn lemma_zero_cell_skips_loop(p: Seq<char>, input: Seq<char>, s: Machine)
    requires
        balanced(p),
        machine_wf(p, input, s),
        s.pc < p.len(),
        p[s.pc] == '[',
        s.tape[s.cursor] == 0,
    ensures
        s.pc < partner(p, s.pc) < p.len(),
        p[partner(p, s.pc)] == ']',
        step_machine(p, input, s) == Some(Machine { pc: partner(p, s.pc), ..s }),
        step_machine(p, input, Machine { pc: partner(p, s.pc), ..s }) == Some(
            Machine { pc: partner(p, s.pc) + 1, ..s },
        ),
{
    lemma_open_has_partner(p, s.pc);
}

/// A read with no input left ends the run at once, whatever the budget.
pub proof fn lemma_read_without_input_stops(
    p: Seq<char>,
    input: Seq<char>,
    s: Machine,
    fuel: nat,
)
    requires
        machine_wf(p, input, s),
        s.pc < p.len(),
        p[s.pc] == ',',
        s.consumed == input.len(),
        fuel > 0,
    ensures
        step_machine(p, input, s) is None,
        run_from(p, input, s, fuel) == Outcome::InputExhausted,
{
}

/// A program with no instruction characters ends with every cell zero, the
/// cursor on cell 0, nothing read and nothing written.
pub proof fn lemma_comment_program(p: Seq<char>, input: Seq<char>, fuel: nat)
    requires
        forall|i: int| 0 <= i < p.len() ==> !is_instruction(#[trigger] p[i]),
        fuel >= p.len(),
    ensures
        run_spec(p, input, fuel) == Ok::<Machine, ErrorKind>(
            Machine { pc: p.len() as int, ..initial_machine() },
        ),
{
    assert forall|i: int| 0 <= i < p.len() implies !is_bracket(#[trigger] p[i]) by {
        assert(!is_instruction(p[i]));
    }
    lemma_bracket_free_balanced(p);
    lemma_comment_run(p, input, initial_machine(), fuel);
}

proof fn lemma_comment_run(p: Seq<char>, input: Seq<char>, s: Machine, fuel: nat)
    requires
        forall|i: int| 0 <= i < p.len() ==> !is_instruction(#[trigger] p[i]),
        0 <= s.pc <= p.len(),
        fuel >= p.len() - s.pc,
    ensures
        run_from(p, input, s, fuel) == Outcome::Halted(Machine { pc: p.len() as int, ..s }),
    decreases p.len() - s.pc,
{
    if s.pc < p.len() {
        assert(!is_instruction(p[s.pc]));
        let t = Machine { pc: s.pc + 1, ..s };
        assert(step_machine(p, input, s) == Some(t));
        lemma_comment_run(p, input, t, (fuel - 1) as nat);
        assert(Machine { pc: p.len() as int, ..t } == Machine { pc: p.len() as int, ..s });
    } else {
        assert(s == Machine { pc: p.len() as int, ..s });
    }
}

/// `n` increments followed by an output write the single unit `n mod 256`
/// and leave `n mod 256` in cell 0.
pub proof fn lemma_increments_then_output(p: Seq<char>, input: Seq<char>, n: nat, fuel: nat)
    requires
        p.len() == n + 1,
        forall|i: int| 0 <= i < n ==> #[trigger] p[i] == '+',
        p[n as int] == '.',
        fuel > n,
    ensures
        run_spec(p, input, fuel) == Ok::<Machine, ErrorKind>(
            Machine {
                tape: initial_machine().tape.update(0, (n % 256) as u8),
                pc: (n + 1) as int,
                output: seq![output_char((n % 256) as u8)],
                ..initial_machine()
            },
        ),
{
    assert forall|i: int| 0 <= i < p.len() implies !is_bracket(#[trigger] p[i]) by {
        if i < n {
            assert(p[i] == '+');
        }
    }
    lemma_bracket_free_balanced(p);
    let s0 = Machine { tape: initial_machine().tape.update(0, 0u8), ..initial_machine() };
    assert(s0.tape =~= initial_machine().tape);
    assert(s0 == initial_machine());
    lemma_increments_run(p, input, n, 0, fuel);
}

proof fn lemma_increments_run(p: Seq<char>, input: Seq<char>, n: nat, k: nat, fuel: nat)
    requires
        p.len() == n + 1,
        forall|i: int| 0 <= i < n ==> #[trigger] p[i] == '+',
        p[n as int] == '.',
        k <= n,
        fuel >= n + 1 - k,
    ensures
        run_from(
            p,
            input,
            Machine {
                tape: initial_machine().tape.update(0, (k % 256) as u8),
                pc: k as int,
                ..initial_machine()
            },
            fuel,
        ) == Outcome::Halted(
            Machine {
                tape: initial_machine().tape.update(0, (n % 256) as u8),
                pc: (n + 1) as int,
                output: seq![output_char((n % 256) as u8)],
                ..initial_machine()
            },
        ),
    decreases n - k,
{
    let z = initial_machine().tape;
    let s = Machine { tape: z.update(0, (k % 256) as u8), pc: k as int, ..initial_machine() };
    if k < n {
        assert(p[k as int] == '+');
        assert(cell_inc((k % 256) as u8) == ((k + 1) % 256) as u8);
        let t = Machine { tape: z.update(0, ((k + 1) % 256) as u8), pc: (k + 1) as int, ..initial_machine() };
        assert(s.tape.update(0, ((k + 1) % 256) as u8) =~= t.tape);
        assert(step_machine(p, input, s) == Some(t));
        lemma_increments_run(p, input, n, k + 1, (fuel - 1) as nat);
    } else {
        let t = Machine { pc: (n + 1) as int, output: seq![output_char((n % 256) as u8)], ..s };
        assert(Seq::<char>::empty().push(output_char((n % 256) as u8)) =~= seq![
            output_char((n % 256) as u8),
        ]);
        assert(step_machine(p, input, s) == Some(t));
        assert(run_from(p, input, t, (fuel - 1) as nat) == Outcome::Halted(t));
    }
}

} // verus!
