//! The meaning of Befreak programs, as spec functions over a plain model of
//! the machine.
//!
//! `process` says what executing the cell under the cursor does, `step`
//! moves first and then processes, and `checked_step` and
//! `checked_reverse_direction` add the execution-state machine around them.
use vstd::prelude::*;
use crate::direction::{Direction, moved};
use crate::grid::{cell_at, width};

verus! {

/// Why an instruction could not run.
#[derive(Clone, Copy, Debug, PartialEq, Eq, Structural)]
pub enum BefreakError {
    InvalidPosition,
    InvalidOperation,
    EmptyMainStack,
    EmptyControlStack,
    EmptyOutputStack,
    NonBoolInControlStack,
    InvalidUnduplicate,
    InvalidPopZero,
    InvalidUnder,
    InvalidStringRemoval,
}

/// Where a machine stands in the run of its program.
#[derive(Clone, Copy, Debug, PartialEq, Eq, Structural)]
pub enum ExecutionState {
    NotStarted,
    Running,
    Done,
    Error(BefreakError),
}

/// The plain model of a machine: its stacks, cursor, flags and grid.
#[verifier::ext_equal]
pub struct Machine {
    pub stack: Seq<i64>,
    pub control_stack: Seq<i64>,
    pub output_stack: Seq<i64>,
    pub location: (usize, usize),
    pub direction: Direction,
    pub direction_reversed: bool,
    pub inverse_mode: bool,
    pub string_mode: bool,
    pub digits: Seq<char>,
    pub start_pos: (usize, usize),
    pub state: ExecutionState,
    pub step: i64,
    pub grid: Seq<Seq<char>>,
}

/// The outcome of one operation: the machine after it, and whether it ran.
pub type Outcome = (Machine, Result<(), BefreakError>);

pub open spec fn succeed(m: Machine) -> Outcome {
    (m, Ok(()))
}

pub open spec fn fail(m: Machine, e: BefreakError) -> Outcome {
    (m, Err(e))
}

/// The item `i` places below the top of `s` (`i == 0` is the top).
pub open spec fn top(s: Seq<i64>, i: int) -> i64 {
    s[s.len() - 1 - i]
}

/// `s` without its top `k` items.
pub open spec fn below(s: Seq<i64>, k: int) -> Seq<i64> {
    s.subrange(0, s.len() - k)
}

pub open spec fn bool_value(b: bool) -> i64 {
    if b {
        1
    } else {
        0
    }
}

pub open spec fn is_digit(c: char) -> bool {
    48 <= (c as u32) <= 57
}

pub open spec fn digit_value(c: char) -> i64 {
    ((c as u32) - 48) as i64
}

/// The decimal number that `ds` spells, most significant digit first,
/// wrapping to 64 bits.
pub open spec fn number_value(ds: Seq<char>) -> i64
    decreases ds.len(),
{
    if ds.len() == 0 {
        0
    } else {
        number_value(ds.drop_last()).wrapping_mul(10).wrapping_add(digit_value(ds.last()))
    }
}

/// The literal that the digits met in travel order stand for: read forward
/// in normal mode, backward in inverse mode.
pub open spec fn literal_value(ds: Seq<char>, inverse: bool) -> i64 {
    if inverse {
        number_value(ds.reverse())
    } else {
        number_value(ds)
    }
}

/// The character that an opcode stands for in inverse mode.
pub open spec fn inverse_char(c: char) -> char {
    match c {
        '(' => ')',
        ')' => '(',
        '[' => ']',
        ']' => '[',
        'r' => ' ',
        '\'' => '`',
        '`' => '\'',
        '+' => '-',
        '-' => '+',
        '%' => '*',
        '*' => '%',
        '{' => '}',
        '}' => '{',
        'd' => 'b',
        'b' => 'd',
        'o' => 'u',
        'u' => 'o',
        ':' => ';',
        ';' => ':',
        _ => c,
    }
}

pub open spec fn decode(c: char, inverse: bool) -> char {
    if inverse {
        inverse_char(c)
    } else {
        c
    }
}

/// Truncating division wrapping to 64 bits (`y / x`), for `x != 0`.
pub open spec fn quotient(y: i64, x: i64) -> i64 {
    match y.checked_div(x) {
        Some(q) => q,
        None => i64::MIN,
    }
}

/// The remainder that goes with `quotient` (`y % x`), for `x != 0`.
pub open spec fn remainder(y: i64, x: i64) -> i64 {
    match y.checked_rem(x) {
        Some(r) => r,
        None => 0,
    }
}

/// The rotation amount that a stack value gives: its value modulo 64.
pub open spec fn rotation(x: i64) -> u64 {
    (x & 63) as u64
}

/// `y` rotated left by `k < 64` bits.
pub open spec fn rotated_left(y: i64, k: u64) -> i64 {
    let u = y as u64;
    (if k == 0 {
        u
    } else {
        (u << k) | (u >> (64 - k) as u64)
    }) as i64
}

/// `y` rotated right by `k < 64` bits.
pub open spec fn rotated_right(y: i64, k: u64) -> i64 {
    let u = y as u64;
    (if k == 0 {
        u
    } else {
        (u >> k) | (u << (64 - k) as u64)
    }) as i64
}

pub open spec fn with_stack(m: Machine, s: Seq<i64>) -> Machine {
    Machine { stack: s, ..m }
}

pub open spec fn with_control(m: Machine, c: Seq<i64>) -> Machine {
    Machine { control_stack: c, ..m }
}

/// The control stack with its top toggled between 0 and 1.
pub open spec fn toggled(c: Seq<i64>) -> Seq<i64> {
    below(c, 1).push(top(c, 0) ^ 1)
}

/// The machine after a reversal of time: heading, inverse mode and the
/// reversal flag flip, and an error state is cleared.
pub open spec fn reversed(m: Machine) -> Machine {
    Machine {
        direction_reversed: !m.direction_reversed,
        direction: m.direction.spec_opposite(),
        inverse_mode: !m.inverse_mode,
        state: if m.state is Error {
            ExecutionState::Running
        } else {
            m.state
        },
        ..m
    }
}

/// The heading an arrow points to.
pub open spec fn arrow_heading(a: char) -> Direction {
    if a == '>' {
        Direction::East
    } else if a == '<' {
        Direction::West
    } else if a == 'v' {
        Direction::South
    } else {
        Direction::North
    }
}

/// The side heading on which an arrow records `!inverse_mode`.
pub open spec fn arrow_side(a: char) -> Direction {
    if a == '>' {
        Direction::North
    } else if a == '<' {
        Direction::South
    } else if a == 'v' {
        Direction::East
    } else {
        Direction::West
    }
}

pub open spec fn is_arrow(c: char) -> bool {
    c == '>' || c == '<' || c == 'v' || c == '^'
}

/// A branch arrow: write on a side heading, read on the merge heading, and
/// the hinge on its own heading.
pub open spec fn branch(m: Machine, a: char) -> Outcome {
    let h = arrow_heading(a);
    let side = arrow_side(a);
    let c = m.control_stack;
    if m.direction == h {
        if c.len() < 1 {
            fail(m, BefreakError::EmptyControlStack)
        } else {
            succeed(
                Machine {
                    control_stack: toggled(c),
                    inverse_mode: !m.inverse_mode,
                    direction: h.spec_opposite(),
                    ..m
                },
            )
        }
    } else if m.direction == h.spec_opposite() {
        if c.len() < 1 {
            fail(m, BefreakError::EmptyControlStack)
        } else if top(c, 0) == bool_value(m.inverse_mode) {
            succeed(Machine { control_stack: below(c, 1), direction: side.spec_opposite(), ..m })
        } else if top(c, 0) == bool_value(!m.inverse_mode) {
            succeed(Machine { control_stack: below(c, 1), direction: side, ..m })
        } else {
            fail(m, BefreakError::NonBoolInControlStack)
        }
    } else {
        succeed(
            Machine {
                control_stack: c.push(
                    if m.direction == side {
                        bool_value(!m.inverse_mode)
                    } else {
                        bool_value(m.inverse_mode)
                    },
                ),
                direction: h,
                ..m
            },
        )
    }
}

/// A comparison: toggle the control stack's top when `holds`, keeping the
/// operands.
pub open spec fn compare(m: Machine, holds: bool) -> Outcome {
    if !holds {
        succeed(m)
    } else if m.control_stack.len() < 1 {
        fail(m, BefreakError::EmptyControlStack)
    } else {
        succeed(with_control(m, toggled(m.control_stack)))
    }
}

/// Operations on the main stack alone that need its top two items.
pub open spec fn binary_op(op: char, s: Seq<i64>) -> Seq<i64> {
    let x = top(s, 0);
    let y = top(s, 1);
    let rest = below(s, 2);
    match op {
        '+' => rest.push(y.wrapping_add(x)).push(x),
        '-' => rest.push(y.wrapping_sub(x)).push(x),
        '%' => rest.push(quotient(y, x)).push(remainder(y, x)).push(x),
        '#' => rest.push(y ^ x).push(x),
        '{' => rest.push(rotated_left(y, rotation(x))).push(x),
        '}' => rest.push(rotated_right(y, rotation(x))).push(x),
        's' => rest.push(x).push(y),
        _ => rest.push(y).push(x).push(y),  // 'o'
    }
}

pub open spec fn is_binary_op(op: char) -> bool {
    op == '+' || op == '-' || op == '%' || op == '#' || op == '{' || op == '}' || op == 's'
        || op == 'o'
}

/// Operations on the main stack alone that need its top three items.
pub open spec fn ternary_op(op: char, s: Seq<i64>) -> Seq<i64> {
    let x = top(s, 0);
    let y = top(s, 1);
    let z = top(s, 2);
    let rest = below(s, 3);
    match op {
        '*' => rest.push(z.wrapping_mul(x).wrapping_add(y)).push(x),
        '&' => rest.push(z ^ (y & x)).push(y).push(x),
        '|' => rest.push(z ^ (y | x)).push(y).push(x),
        'd' => rest.push(y).push(x).push(z),
        'b' => rest.push(x).push(z).push(y),
        'f' => rest.push(x).push(y).push(z),
        _ => rest.push(y).push(z).push(x),  // 'c'
    }
}

pub open spec fn is_ternary_op(op: char) -> bool {
    op == '*' || op == '&' || op == '|' || op == 'd' || op == 'b' || op == 'f' || op == 'c'
}

/// The bitwise complement.
pub open spec fn complement(x: i64) -> i64 {
    !x
}

/// Operations that need only the main stack's top item.
pub open spec fn unary_op(op: char, s: Seq<i64>) -> Seq<i64> {
    let x = top(s, 0);
    let rest = below(s, 1);
    match op {
        '\'' => rest.push(x.wrapping_add(1)),
        '`' => rest.push(x.wrapping_sub(1)),
        '~' => rest.push(complement(x)),
        _ => s.push(x),  // ':'
    }
}

pub open spec fn is_unary_op(op: char) -> bool {
    op == '\'' || op == '`' || op == '~' || op == ':'
}

/// What the opcode `op` (already decoded for the mode) does to `m`.
pub open spec fn execute(m: Machine, op: char) -> Outcome {
    let s = m.stack;
    let c = m.control_stack;
    let o = m.output_stack;
    if is_unary_op(op) {
        if s.len() < 1 {
            fail(m, BefreakError::EmptyMainStack)
        } else {
            succeed(with_stack(m, unary_op(op, s)))
        }
    } else if is_binary_op(op) {
        if s.len() < 2 {
            fail(m, BefreakError::EmptyMainStack)
        } else {
            succeed(with_stack(m, binary_op(op, s)))
        }
    } else if is_ternary_op(op) {
        if s.len() < 3 {
            fail(m, BefreakError::EmptyMainStack)
        } else {
            succeed(with_stack(m, ternary_op(op, s)))
        }
    } else if op == '=' || op == 'l' || op == 'g' {
        if s.len() < 2 {
            fail(m, BefreakError::EmptyMainStack)
        } else {
            let x = top(s, 0);
            let y = top(s, 1);
            compare(m, if op == '=' { y == x } else if op == 'l' { y < x } else { y > x })
        }
    } else if is_arrow(op) {
        branch(m, op)
    } else {
        match op {
            '(' => succeed(with_stack(m, s.push(0))),
            ')' => if s.len() < 1 {
                fail(m, BefreakError::EmptyMainStack)
            } else if top(s, 0) != 0 {
                fail(m, BefreakError::InvalidPopZero)
            } else {
                succeed(with_stack(m, below(s, 1)))
            },
            '[' => if s.len() < 1 {
                fail(m, BefreakError::EmptyMainStack)
            } else {
                succeed(Machine { stack: below(s, 1), control_stack: c.push(top(s, 0)), ..m })
            },
            ']' => if c.len() < 1 {
                fail(m, BefreakError::EmptyControlStack)
            } else {
                succeed(Machine { stack: s.push(top(c, 0)), control_stack: below(c, 1), ..m })
            },
            '$' => if s.len() < 1 {
                fail(m, BefreakError::EmptyMainStack)
            } else if c.len() < 1 {
                fail(m, BefreakError::EmptyControlStack)
            } else {
                succeed(
                    Machine {
                        stack: below(s, 1).push(top(c, 0)),
                        control_stack: below(c, 1).push(top(s, 0)),
                        ..m
                    },
                )
            },
            'w' => if m.inverse_mode {
                if o.len() < 1 {
                    fail(m, BefreakError::EmptyOutputStack)
                } else {
                    succeed(Machine { stack: s.push(top(o, 0)), output_stack: below(o, 1), ..m })
                }
            } else {
                if s.len() < 1 {
                    fail(m, BefreakError::EmptyMainStack)
                } else {
                    succeed(Machine { stack: below(s, 1), output_stack: o.push(top(s, 0)), ..m })
                }
            },
            '!' => if c.len() < 1 {
                fail(m, BefreakError::EmptyControlStack)
            } else {
                succeed(with_control(m, toggled(c)))
            },
            'u' => if s.len() < 3 {
                fail(m, BefreakError::EmptyMainStack)
            } else if top(s, 0) != top(s, 2) {
                fail(m, BefreakError::InvalidUnder)
            } else {
                succeed(with_stack(m, below(s, 3).push(top(s, 0)).push(top(s, 1))))
            },
            ';' => if s.len() < 2 {
                fail(m, BefreakError::EmptyMainStack)
            } else if top(s, 0) != top(s, 1) {
                fail(m, BefreakError::InvalidUnduplicate)
            } else {
                succeed(with_stack(m, below(s, 1)))
            },
            '"' => succeed(Machine { string_mode: true, ..m }),
            '?' => succeed(Machine { inverse_mode: !m.inverse_mode, ..m }),
            '@' => if m.direction_reversed {
                succeed(reversed(Machine { state: ExecutionState::NotStarted, ..m }))
            } else {
                succeed(Machine { state: ExecutionState::Done, ..m })
            },
            '\\' => succeed(Machine { direction: m.direction.spec_back_mirror(), ..m }),
            '/' => succeed(Machine { direction: m.direction.spec_forward_mirror(), ..m }),
            ' ' => succeed(m),
            _ => fail(m, BefreakError::InvalidOperation),
        }
    }
}

/// The machine with the pending literal combined into the top of the main
/// stack by XOR and the digit buffer emptied.
pub open spec fn resolve_literal(m: Machine) -> Machine {
    Machine {
        stack: below(m.stack, 1).push(top(m.stack, 0) ^ literal_value(m.digits, m.inverse_mode)),
        digits: Seq::empty(),
        ..m
    }
}

/// A character met in string mode.
pub open spec fn string_char(m: Machine, ch: char) -> Outcome {
    let s = m.stack;
    if ch == '"' {
        succeed(Machine { string_mode: false, ..m })
    } else if m.inverse_mode {
        if s.len() < 1 {
            fail(m, BefreakError::EmptyMainStack)
        } else if top(s, 0) != (ch as u32) as i64 {
            fail(m, BefreakError::InvalidStringRemoval)
        } else {
            succeed(with_stack(m, below(s, 1)))
        }
    } else {
        succeed(with_stack(m, s.push((ch as u32) as i64)))
    }
}

/// Executes the cell under the cursor.
pub open spec fn process(m: Machine) -> Outcome {
    match cell_at(m.grid, m.location) {
        None => fail(m, BefreakError::InvalidPosition),
        Some(ch) => if m.string_mode {
            string_char(m, ch)
        } else if is_digit(ch) {
            succeed(Machine { digits: m.digits.push(ch), ..m })
        } else if m.digits.len() > 0 {
            if m.stack.len() < 1 {
                fail(m, BefreakError::EmptyMainStack)
            } else {
                execute(resolve_literal(m), decode(ch, m.inverse_mode))
            }
        } else {
            execute(m, decode(ch, m.inverse_mode))
        },
    }
}

/// Whether `process` would divide by zero: the decoded opcode is `%` and
/// the divisor on top of the main stack is zero.
pub open spec fn process_divides_by_zero(m: Machine) -> bool {
    match cell_at(m.grid, m.location) {
        None => false,
        Some(ch) => {
            let n = if m.digits.len() > 0 {
                resolve_literal(m)
            } else {
                m
            };
            &&& !m.string_mode
            &&& !is_digit(ch)
            &&& m.stack.len() >= 2
            &&& decode(ch, m.inverse_mode) == '%'
            &&& top(n.stack, 0) == 0
        },
    }
}

/// The cursor moved one cell and the step counter advanced in the
/// direction of time.
pub open spec fn advanced(m: Machine) -> Machine {
    Machine {
        location: moved(m.location, m.direction, width(m.grid), m.grid.len()),
        step: if m.direction_reversed {
            m.step.wrapping_sub(1)
        } else {
            m.step.wrapping_add(1)
        },
        ..m
    }
}

/// One step: move, then execute the new cell.
pub open spec fn step(m: Machine) -> Outcome {
    process(advanced(m))
}

/// A fresh machine on `grid`, ready to start at `start`.
pub open spec fn initial(start: (usize, usize), grid: Seq<Seq<char>>) -> Machine {
    Machine {
        stack: Seq::empty(),
        control_stack: Seq::empty(),
        output_stack: Seq::empty(),
        location: start,
        direction: Direction::East,
        direction_reversed: false,
        inverse_mode: false,
        string_mode: false,
        digits: Seq::empty(),
        start_pos: start,
        state: ExecutionState::NotStarted,
        step: 0,
        grid,
    }
}

/// The machine made ready to step: a finished forward run or an unwound
/// backward run starts over; other states pass through.
pub open spec fn recovered(m: Machine) -> Machine {
    match m.state {
        ExecutionState::Done => if !m.direction_reversed {
            Machine { state: ExecutionState::Running, ..initial(m.start_pos, m.grid) }
        } else {
            Machine { state: ExecutionState::Running, ..m }
        },
        ExecutionState::NotStarted => if m.direction_reversed {
            Machine { state: ExecutionState::Running, ..initial(m.start_pos, m.grid) }
        } else {
            Machine { state: ExecutionState::Running, ..m }
        },
        _ => m,
    }
}

/// An outcome folded into the machine: an error becomes the error state.
pub open spec fn settle(o: Outcome) -> Machine {
    match o.1 {
        Ok(()) => o.0,
        Err(e) => Machine { state: ExecutionState::Error(e), ..o.0 },
    }
}

/// A step request: recover, then step once if running.
pub open spec fn checked_step(m: Machine) -> Machine {
    let r = recovered(m);
    if r.state == ExecutionState::Running {
        settle(step(r))
    } else {
        r
    }
}

/// Whether a step request would divide by zero.
pub open spec fn step_divides_by_zero(m: Machine) -> bool {
    let r = recovered(m);
    r.state == ExecutionState::Running && process_divides_by_zero(advanced(r))
}

/// A reversal request: reverse time, and when the machine was running,
/// execute the current cell again under the new mode.
pub open spec fn checked_reverse_direction(m: Machine) -> Machine {
    if m.state == ExecutionState::Running {
        settle(process(reversed(m)))
    } else {
        reversed(m)
    }
}

/// Whether a reversal request would divide by zero.
pub open spec fn reverse_divides_by_zero(m: Machine) -> bool {
    m.state == ExecutionState::Running && process_divides_by_zero(reversed(m))
}

} // verus!
