//! The Befreak machine: a grid, a cursor, three stacks and the mode flags,
//! and the operations that step it forward and backward in time.
use vstd::prelude::*;
use array2d::Array2D;
pub use crate::direction::Direction;
pub use crate::semantics::{BefreakError, ExecutionState};
use crate::direction::move_on_torus;
use crate::grid::{
    array_clone, array_column_len, array_get, array_row_len, cells, cell_at, rectangular,
};
use crate::semantics::{
    Machine, arrow_heading, arrow_side, below, binary_op,
    bool_value, branch, execute, initial, inverse_char, is_arrow, is_binary_op,
    is_digit, is_ternary_op, is_unary_op, literal_value, number_value, process,
    process_divides_by_zero, quotient, recovered, advanced, checked_step, checked_reverse_direction,
    step_divides_by_zero, reverse_divides_by_zero, remainder, resolve_literal, reversed, rotated_left,
    rotated_right, rotation, string_char, ternary_op, toggled, top, unary_op, with_control,
    with_stack,
};

verus! {

/// A Befreak machine loaded with a program.
#[derive(Debug)]
pub struct BefreakState {
    pub stack: Vec<i64>,
    pub control_stack: Vec<i64>,
    /// The cell under the cursor, as (column, row).
    pub location: (usize, usize),
    pub direction: Direction,
    pub output_stack: Vec<i64>,
    pub direction_reversed: bool,
    pub inverse_mode: bool,
    pub string_mode: bool,
    /// The digits of a numeric literal met so far, in travel order.
    pub number_stack: Vec<char>,
    /// The cell of the start/halt marker.
    pub start_pos: (usize, usize),
    pub state: ExecutionState,
    /// Counts up while running forward and down while unwinding.
    pub step: i64,
    /// The program, row by row.
    pub code: Array2D<char>,
}

impl View for BefreakState {
    type V = Machine;

    open spec fn view(&self) -> Machine {
        Machine {
            stack: self.stack@,
            control_stack: self.control_stack@,
            output_stack: self.output_stack@,
            location: self.location,
            direction: self.direction,
            direction_reversed: self.direction_reversed,
            inverse_mode: self.inverse_mode,
            string_mode: self.string_mode,
            digits: self.number_stack@,
            start_pos: self.start_pos,
            state: self.state,
            step: self.step,
            grid: cells(self.code),
        }
    }
}

/// A non-empty rectangular grid holding both cells.
pub open spec fn grid_holds(g: Seq<Seq<char>>, a: (usize, usize), b: (usize, usize)) -> bool {
    &&& g.len() > 0
    &&& rectangular(g)
    &&& a.1 < g.len() && a.0 < g[0].len()
    &&& b.1 < g.len() && b.0 < g[0].len()
}

/// The machine's grid holds its cursor and its start cell, and its literal
/// buffer holds digits only.
pub open spec fn wf_machine(m: Machine) -> bool {
    &&& grid_holds(m.grid, m.location, m.start_pos)
    &&& forall|i: int| 0 <= i < m.digits.len() ==> is_digit(#[trigger] m.digits[i])
}

impl BefreakState {
    /// The grid is a non-empty rectangle that holds the cursor and the
    /// start marker's cell.
    pub open spec fn wf(&self) -> bool {
        wf_machine(self@)
    }

    /// A fresh machine on `code` whose cursor starts at `location`.
    pub fn new(location: (usize, usize), code: Array2D<char>) -> (r: Self)
        ensures
            r@ == initial(location, cells(code)),
    {
        let r = Self {
            location,
            code,
            start_pos: location,
            stack: Vec::new(),
            control_stack: Vec::new(),
            direction: Direction::East,
            output_stack: Vec::new(),
            direction_reversed: false,
            inverse_mode: false,
            string_mode: false,
            number_stack: Vec::new(),
            step: 0,
            state: ExecutionState::NotStarted,
        };
        assert(r@ =~= initial(location, cells(r.code)));
        r
    }

    /// Puts the machine back to where its program starts.
    pub fn reset(&mut self)
        ensures
            final(self)@ == initial(old(self).start_pos, cells(old(self).code)),
    {
        let code = array_clone(&self.code);
        *self = Self::new(self.start_pos, code);
    }

    /// The cell at (column, row).
    fn get_instruction(&self, location: (usize, usize)) -> (r: Result<char, BefreakError>)
        ensures
            r == (match cell_at(self@.grid, location) {
                Some(c) => Ok(c),
                None => Err(BefreakError::InvalidPosition),
            }),
    {
        match array_get(&self.code, location.1, location.0) {
            Some(c) => Ok(c),
            None => Err(BefreakError::InvalidPosition),
        }
    }

    /// The next cell from `location` in `direction`, wrapping around the
    /// grid's edges.
    pub fn move_location(&self, location: (usize, usize), direction: Direction) -> (r: (
        usize,
        usize,
    ))
        requires
            self.wf(),
        ensures
            r == crate::direction::moved(
                location,
                direction,
                crate::grid::width(self@.grid),
                self@.grid.len(),
            ),
            location.0 < crate::grid::width(self@.grid) && location.1 < self@.grid.len() ==> r.0
                < crate::grid::width(self@.grid) && r.1 < self@.grid.len(),
    {
        let width = array_row_len(&self.code);
        let height = array_column_len(&self.code);
        move_on_torus(location, direction, width, height)
    }

    fn pop_main(&mut self) -> (r: Result<i64, BefreakError>)
        ensures
            old(self)@.stack.len() == 0 ==> r == Err::<i64, BefreakError>(
                BefreakError::EmptyMainStack,
            ) && final(self)@ == old(self)@,
            old(self)@.stack.len() > 0 ==> r == Ok::<i64, BefreakError>(top(old(self)@.stack, 0))
                && final(self)@ == with_stack(old(self)@, below(old(self)@.stack, 1)),
    {
        match self.stack.pop() {
            Some(x) => {
                proof {
                    assert(self@ =~= with_stack(old(self)@, below(old(self)@.stack, 1)));
                }
                Ok(x)
            },
            None => Err(BefreakError::EmptyMainStack),
        }
    }

    fn pop_ctrl(&mut self) -> (r: Result<i64, BefreakError>)
        ensures
            old(self)@.control_stack.len() == 0 ==> r == Err::<i64, BefreakError>(
                BefreakError::EmptyControlStack,
            ) && final(self)@ == old(self)@,
            old(self)@.control_stack.len() > 0 ==> r == Ok::<i64, BefreakError>(
                top(old(self)@.control_stack, 0),
            ) && final(self)@ == with_control(old(self)@, below(old(self)@.control_stack, 1)),
    {
        match self.control_stack.pop() {
            Some(x) => {
                proof {
                    assert(self@ =~= with_control(
                        old(self)@,
                        below(old(self)@.control_stack, 1),
                    ));
                }
                Ok(x)
            },
            None => Err(BefreakError::EmptyControlStack),
        }
    }

    /// Flips the control stack's top between 0 and 1.
    fn toggle_control_stack(&mut self) -> (r: Result<(), BefreakError>)
        ensures
            old(self)@.control_stack.len() == 0 ==> r == Err::<(), BefreakError>(
                BefreakError::EmptyControlStack,
            ) && final(self)@ == old(self)@,
            old(self)@.control_stack.len() > 0 ==> r == Ok::<(), BefreakError>(())
                && final(self)@ == with_control(old(self)@, toggled(old(self)@.control_stack)),
    {
        let n = self.control_stack.len();
        if n == 0 {
            return Err(BefreakError::EmptyControlStack);
        }
        let t = self.control_stack[n - 1];
        self.control_stack.set(n - 1, t ^ 1);
        proof {
            assert(self@ =~= with_control(old(self)@, toggled(old(self)@.control_stack)));
        }
        Ok(())
    }
}

/// `y` rotated left by `k` bits.
fn rotate_left_by(y: i64, k: u64) -> (r: i64)
    requires
        k < 64,
    ensures
        r == rotated_left(y, k),
{
    let u = y as u64;
    let v = if k == 0 {
        u
    } else {
        (u << k) | (u >> (64 - k))
    };
    v as i64
}

/// `y` rotated right by `k` bits.
fn rotate_right_by(y: i64, k: u64) -> (r: i64)
    requires
        k < 64,
    ensures
        r == rotated_right(y, k),
{
    let u = y as u64;
    let v = if k == 0 {
        u
    } else {
        (u >> k) | (u << (64 - k))
    };
    v as i64
}

/// The rotation amount that `x` gives.
fn rotation_of(x: i64) -> (r: u64)
    ensures
        r == rotation(x),
        r < 64,
{
    let k = (x & 63) as u64;
    assert(((x & 63) as u64) < 64) by (bit_vector);
    k
}

fn divide(y: i64, x: i64) -> (r: i64)
    ensures
        r == quotient(y, x),
{
    match y.checked_div(x) {
        Some(q) => q,
        None => i64::MIN,
    }
}

fn modulo(y: i64, x: i64) -> (r: i64)
    ensures
        r == remainder(y, x),
{
    match y.checked_rem(x) {
        Some(q) => q,
        None => 0,
    }
}

impl BefreakState {
    /// An operation that rewrites the top item of the main stack.
    fn apply_unary(&mut self, op: char) -> (r: Result<(), BefreakError>)
        requires
            is_unary_op(op),
        ensures
            final(self)@ == execute(old(self)@, op).0,
            r == execute(old(self)@, op).1,
    {
        let x = match self.pop_main() {
            Ok(x) => x,
            Err(e) => return Err(e),
        };
        if op == '\'' {
            self.stack.push(x.wrapping_add(1));
        } else if op == '`' {
            self.stack.push(x.wrapping_sub(1));
        } else if op == '~' {
            self.stack.push(!x);
        } else {
            self.stack.push(x);
            self.stack.push(x);
        }
        proof {
            assert(self@ =~= with_stack(old(self)@, unary_op(op, old(self)@.stack)));
        }
        Ok(())
    }

    /// An operation on the main stack's top two items.
    fn apply_binary(&mut self, op: char) -> (r: Result<(), BefreakError>)
        requires
            is_binary_op(op),
            op == '%' && old(self)@.stack.len() >= 2 ==> top(old(self)@.stack, 0) != 0,
        ensures
            final(self)@ == execute(old(self)@, op).0,
            r == execute(old(self)@, op).1,
    {
        if self.stack.len() < 2 {
            return Err(BefreakError::EmptyMainStack);
        }
        let x = self.stack.pop().unwrap();
        let y = self.stack.pop().unwrap();
        if op == '+' {
            self.stack.push(y.wrapping_add(x));
            self.stack.push(x);
        } else if op == '-' {
            self.stack.push(y.wrapping_sub(x));
            self.stack.push(x);
        } else if op == '%' {
            self.stack.push(divide(y, x));
            self.stack.push(modulo(y, x));
            self.stack.push(x);
        } else if op == '#' {
            self.stack.push(y ^ x);
            self.stack.push(x);
        } else if op == '{' {
            self.stack.push(rotate_left_by(y, rotation_of(x)));
            self.stack.push(x);
        } else if op == '}' {
            self.stack.push(rotate_right_by(y, rotation_of(x)));
            self.stack.push(x);
        } else if op == 's' {
            self.stack.push(x);
            self.stack.push(y);
        } else {
            self.stack.push(y);
            self.stack.push(x);
            self.stack.push(y);
        }
        proof {
            assert(self@ =~= with_stack(old(self)@, binary_op(op, old(self)@.stack)));
        }
        Ok(())
    }

    /// An operation on the main stack's top three items.
    fn apply_ternary(&mut self, op: char) -> (r: Result<(), BefreakError>)
        requires
            is_ternary_op(op),
        ensures
            final(self)@ == execute(old(self)@, op).0,
            r == execute(old(self)@, op).1,
    {
        if self.stack.len() < 3 {
            return Err(BefreakError::EmptyMainStack);
        }
        let x = self.stack.pop().unwrap();
        let y = self.stack.pop().unwrap();
        let z = self.stack.pop().unwrap();
        if op == '*' {
            self.stack.push(z.wrapping_mul(x).wrapping_add(y));
            self.stack.push(x);
        } else if op == '&' {
            self.stack.push(z ^ (y & x));
            self.stack.push(y);
            self.stack.push(x);
        } else if op == '|' {
            self.stack.push(z ^ (y | x));
            self.stack.push(y);
            self.stack.push(x);
        } else if op == 'd' {
            self.stack.push(y);
            self.stack.push(x);
            self.stack.push(z);
        } else if op == 'b' {
            self.stack.push(x);
            self.stack.push(z);
            self.stack.push(y);
        } else if op == 'f' {
            self.stack.push(x);
            self.stack.push(y);
            self.stack.push(z);
        } else {
            self.stack.push(y);
            self.stack.push(z);
            self.stack.push(x);
        }
        proof {
            assert(self@ =~= with_stack(old(self)@, ternary_op(op, old(self)@.stack)));
        }
        Ok(())
    }
}


fn bool_to_i64(b: bool) -> (r: i64)
    ensures
        r == bool_value(b),
{
    if b {
        1
    } else {
        0
    }
}

fn is_digit_char(c: char) -> (r: bool)
    ensures
        r == is_digit(c),
{
    48 <= (c as u32) && (c as u32) <= 57
}

/// The character an opcode stands for in inverse mode.
pub fn inverse_of(c: char) -> (r: char)
    ensures
        r == inverse_char(c),
{
    match c {
        '(' => ')',
        ')' => '(',
        '[' => ']',
        ']' => '[',
        'r' => ' ',
        '\'' => '`',
        '`' => '\'',
        '+' => '-',
        '-' => '+',
        '%' => '*',
        '*' => '%',
        '{' => '}',
        '}' => '{',
        'd' => 'b',
        'b' => 'd',
        'o' => 'u',
        'u' => 'o',
        ':' => ';',
        ';' => ':',
        _ => c,
    }
}

fn arrow_heading_of(a: char) -> (r: Direction)
    ensures
        r == arrow_heading(a),
{
    if a == '>' {
        Direction::East
    } else if a == '<' {
        Direction::West
    } else if a == 'v' {
        Direction::South
    } else {
        Direction::North
    }
}

fn arrow_side_of(a: char) -> (r: Direction)
    ensures
        r == arrow_side(a),
{
    if a == '>' {
        Direction::North
    } else if a == '<' {
        Direction::South
    } else if a == 'v' {
        Direction::East
    } else {
        Direction::West
    }
}

/// The value of a numeric literal from its digits in travel order: read
/// backward in inverse mode, so that either direction of travel gives the
/// same number.
pub fn literal_of(digits: &Vec<char>, inverse: bool) -> (r: i64)
    requires
        forall|i: int| 0 <= i < digits@.len() ==> is_digit(#[trigger] digits@[i]),
    ensures
        r == literal_value(digits@, inverse),
{
    let n = digits.len();
    let mut number: i64 = 0;
    let mut i: usize = 0;
    if inverse {
        let ghost rev = digits@.reverse();
        while i < n
            invariant
                n == digits@.len(),
                rev == digits@.reverse(),
                i <= n,
                forall|j: int| 0 <= j < digits@.len() ==> is_digit(#[trigger] digits@[j]),
                number == number_value(rev.take(i as int)),
            decreases n - i,
        {
            let c = digits[n - 1 - i];
            proof {
                assert(rev.take(i as int + 1).drop_last() =~= rev.take(i as int));
            }
            number = number.wrapping_mul(10).wrapping_add((c as u32 - 48) as i64);
            i = i + 1;
        }
        assert(rev.take(n as int) =~= rev);
    } else {
        while i < n
            invariant
                n == digits@.len(),
                i <= n,
                forall|j: int| 0 <= j < digits@.len() ==> is_digit(#[trigger] digits@[j]),
                number == number_value(digits@.take(i as int)),
            decreases n - i,
        {
            let c = digits[i];
            proof {
                assert(digits@.take(i as int + 1).drop_last() =~= digits@.take(i as int));
            }
            number = number.wrapping_mul(10).wrapping_add((c as u32 - 48) as i64);
            i = i + 1;
        }
        assert(digits@.take(n as int) =~= digits@);
    }
    number
}

impl BefreakState {
    /// A comparison of the main stack's top two items that toggles the
    /// control stack's top when it holds.
    fn apply_compare(&mut self, op: char) -> (r: Result<(), BefreakError>)
        requires
            op == '=' || op == 'l' || op == 'g',
        ensures
            final(self)@ == execute(old(self)@, op).0,
            r == execute(old(self)@, op).1,
    {
        let n = self.stack.len();
        if n < 2 {
            return Err(BefreakError::EmptyMainStack);
        }
        let x = self.stack[n - 1];
        let y = self.stack[n - 2];
        let holds = if op == '=' {
            y == x
        } else if op == 'l' {
            y < x
        } else {
            y > x
        };
        if holds {
            self.toggle_control_stack()
        } else {
            Ok(())
        }
    }

    /// A branch arrow `a`, keyed by the current heading.
    fn apply_branch(&mut self, a: char) -> (r: Result<(), BefreakError>)
        requires
            is_arrow(a),
        ensures
            final(self)@ == branch(old(self)@, a).0,
            r == branch(old(self)@, a).1,
    {
        let h = arrow_heading_of(a);
        let side = arrow_side_of(a);
        if self.direction == h {
            match self.toggle_control_stack() {
                Ok(()) => {},
                Err(e) => return Err(e),
            }
            self.inverse_mode = !self.inverse_mode;
            self.direction = h.opposite();
            Ok(())
        } else if self.direction == h.opposite() {
            let v = match self.pop_ctrl() {
                Ok(v) => v,
                Err(e) => return Err(e),
            };
            if v == bool_to_i64(self.inverse_mode) {
                self.direction = side.opposite();
                Ok(())
            } else if v == bool_to_i64(!self.inverse_mode) {
                self.direction = side;
                Ok(())
            } else {
                self.control_stack.push(v);
                proof {
                    assert(self@ =~= old(self)@);
                }
                Err(BefreakError::NonBoolInControlStack)
            }
        } else {
            let v = if self.direction == side {
                bool_to_i64(!self.inverse_mode)
            } else {
                bool_to_i64(self.inverse_mode)
            };
            self.control_stack.push(v);
            self.direction = h;
            Ok(())
        }
    }

    /// Executes the opcode `op`, already decoded for the current mode.
    fn execute(&mut self, op: char) -> (r: Result<(), BefreakError>)
        requires
            op == '%' && old(self)@.stack.len() >= 2 ==> top(old(self)@.stack, 0) != 0,
        ensures
            final(self)@ == execute(old(self)@, op).0,
            r == execute(old(self)@, op).1,
    {
        if op == '\'' || op == '`' || op == '~' || op == ':' {
            return self.apply_unary(op);
        }
        if op == '+' || op == '-' || op == '%' || op == '#' || op == '{' || op == '}' || op == 's'
            || op == 'o' {
            return self.apply_binary(op);
        }
        if op == '*' || op == '&' || op == '|' || op == 'd' || op == 'b' || op == 'f' || op
            == 'c' {
            return self.apply_ternary(op);
        }
        if op == '=' || op == 'l' || op == 'g' {
            return self.apply_compare(op);
        }
        if op == '>' || op == '<' || op == 'v' || op == '^' {
            return self.apply_branch(op);
        }
        if op == '(' || op == ')' || op == '[' || op == ']' || op == '$' || op == 'w' || op == '!'
            || op == 'u' || op == ';' {
            return self.apply_transfer(op);
        }
        self.apply_control(op)
    }

    /// An opcode that moves items between stacks or checks and drops them.
    fn apply_transfer(&mut self, op: char) -> (r: Result<(), BefreakError>)
        requires
            op == '(' || op == ')' || op == '[' || op == ']' || op == '$' || op == 'w' || op == '!'
                || op == 'u' || op == ';',
        ensures
            final(self)@ == execute(old(self)@, op).0,
            r == execute(old(self)@, op).1,
    {
        let ghost m = self@;
        match op {
            '(' => {
                self.stack.push(0);
                Ok(())
            },
            ')' => {
                let x = match self.pop_main() {
                    Ok(x) => x,
                    Err(e) => return Err(e),
                };
                if x != 0 {
                    self.stack.push(x);
                    proof {
                        assert(self@ =~= m);
                    }
                    return Err(BefreakError::InvalidPopZero);
                }
                Ok(())
            },
            '[' => {
                let x = match self.pop_main() {
                    Ok(x) => x,
                    Err(e) => return Err(e),
                };
                self.control_stack.push(x);
                Ok(())
            },
            ']' => {
                let x = match self.pop_ctrl() {
                    Ok(x) => x,
                    Err(e) => return Err(e),
                };
                self.stack.push(x);
                Ok(())
            },
            '$' => {
                if self.stack.len() == 0 {
                    return Err(BefreakError::EmptyMainStack);
                }
                if self.control_stack.len() == 0 {
                    return Err(BefreakError::EmptyControlStack);
                }
                let main = self.stack.pop().unwrap();
                let control = self.control_stack.pop().unwrap();
                self.stack.push(control);
                self.control_stack.push(main);
                Ok(())
            },
            'w' => {
                if self.inverse_mode {
                    match self.output_stack.pop() {
                        None => return Err(BefreakError::EmptyOutputStack),
                        Some(x) => self.stack.push(x),
                    }
                } else {
                    let x = match self.pop_main() {
                        Ok(x) => x,
                        Err(e) => return Err(e),
                    };
                    self.output_stack.push(x);
                }
                Ok(())
            },
            '!' => self.toggle_control_stack(),
            'u' => {
                let n = self.stack.len();
                if n < 3 {
                    return Err(BefreakError::EmptyMainStack);
                }
                if self.stack[n - 1] != self.stack[n - 3] {
                    return Err(BefreakError::InvalidUnder);
                }
                let y1 = self.stack.pop().unwrap();
                let x = self.stack.pop().unwrap();
                let _ = self.stack.pop();
                self.stack.push(y1);
                self.stack.push(x);
                Ok(())
            },
            _ => {
                // ';'
                let n = self.stack.len();
                if n < 2 {
                    return Err(BefreakError::EmptyMainStack);
                }
                if self.stack[n - 1] != self.stack[n - 2] {
                    return Err(BefreakError::InvalidUnduplicate);
                }
                let _ = self.stack.pop();
                Ok(())
            },
        }
    }

    /// An opcode that changes the cursor, the modes or the execution state.
    fn apply_control(&mut self, op: char) -> (r: Result<(), BefreakError>)
        requires
            !is_unary_op(op),
            !is_binary_op(op),
            !is_ternary_op(op),
            !is_arrow(op),
            !(op == '=' || op == 'l' || op == 'g'),
            !(op == '(' || op == ')' || op == '[' || op == ']' || op == '$' || op == 'w' || op
                == '!' || op == 'u' || op == ';'),
        ensures
            final(self)@ == execute(old(self)@, op).0,
            r == execute(old(self)@, op).1,
    {
        match op {
            '"' => {
                self.string_mode = true;
                Ok(())
            },
            '?' => {
                self.inverse_mode = !self.inverse_mode;
                Ok(())
            },
            '@' => {
                if self.direction_reversed {
                    self.state = ExecutionState::NotStarted;
                    self.flip_time();
                } else {
                    self.state = ExecutionState::Done;
                }
                Ok(())
            },
            '\\' => {
                self.direction = self.direction.back_mirror();
                Ok(())
            },
            '/' => {
                self.direction = self.direction.forward_mirror();
                Ok(())
            },
            ' ' => Ok(()),
            _ => Err(BefreakError::InvalidOperation),
        }
    }

    /// Reverses time: heading, inverse mode and the reversal flag flip, and
    /// an error state gives way to running.
    fn flip_time(&mut self)
        ensures
            final(self)@ == reversed(old(self)@),
    {
        self.direction_reversed = !self.direction_reversed;
        self.direction = self.direction.opposite();
        self.inverse_mode = !self.inverse_mode;
        if matches!(self.state, ExecutionState::Error(..)) {
            self.state = ExecutionState::Running;
        }
    }
}


/// Processing a cell keeps the cursor, the grid and the start cell, and
/// buffers digits only.
pub proof fn lemma_process_keeps_wf(m: Machine)
    requires
        wf_machine(m),
    ensures
        wf_machine(process(m).0),
        process(m).0.location == m.location,
        process(m).0.grid == m.grid,
        process(m).0.start_pos == m.start_pos,
{
}

impl BefreakState {
    /// A character met in string mode.
    fn string_char(&mut self, ch: char) -> (r: Result<(), BefreakError>)
        ensures
            final(self)@ == string_char(old(self)@, ch).0,
            r == string_char(old(self)@, ch).1,
    {
        if ch == '"' {
            self.string_mode = false;
            Ok(())
        } else if self.inverse_mode {
            let current = match self.pop_main() {
                Ok(x) => x,
                Err(e) => return Err(e),
            };
            if current != (ch as u32) as i64 {
                self.stack.push(current);
                proof {
                    assert(self@ =~= old(self)@);
                }
                return Err(BefreakError::InvalidStringRemoval);
            }
            Ok(())
        } else {
            self.stack.push((ch as u32) as i64);
            Ok(())
        }
    }

    /// Executes the cell under the cursor.
    fn process_instruction(&mut self) -> (r: Result<(), BefreakError>)
        requires
            old(self).wf(),
            !process_divides_by_zero(old(self)@),
        ensures
            final(self)@ == process(old(self)@).0,
            r == process(old(self)@).1,
            final(self).wf(),
    {
        proof {
            lemma_process_keeps_wf(self@);
        }
        let ch = match self.get_instruction(self.location) {
            Ok(c) => c,
            Err(e) => return Err(e),
        };
        if self.string_mode {
            return self.string_char(ch);
        }
        if is_digit_char(ch) {
            self.number_stack.push(ch);
            return Ok(());
        }
        if self.number_stack.len() > 0 {
            let n = self.stack.len();
            if n == 0 {
                return Err(BefreakError::EmptyMainStack);
            }
            let literal = literal_of(&self.number_stack, self.inverse_mode);
            let t = self.stack[n - 1];
            self.stack.set(n - 1, t ^ literal);
            self.number_stack = Vec::new();
            proof {
                assert(self@ =~= resolve_literal(old(self)@));
            }
        }
        let op = if self.inverse_mode {
            inverse_of(ch)
        } else {
            ch
        };
        self.execute(op)
    }

    /// Moves the cursor one cell and executes the cell it lands on.
    fn step(&mut self) -> (r: Result<(), BefreakError>)
        requires
            old(self).wf(),
            !process_divides_by_zero(advanced(old(self)@)),
        ensures
            final(self)@ == crate::semantics::step(old(self)@).0,
            r == crate::semantics::step(old(self)@).1,
            final(self).wf(),
    {
        self.location = self.move_location(self.location, self.direction);
        if self.direction_reversed {
            self.step = self.step.wrapping_sub(1);
        } else {
            self.step = self.step.wrapping_add(1);
        }
        proof {
            assert(self@ =~= advanced(old(self)@));
        }
        self.process_instruction()
    }

    /// Makes a finished or unwound machine ready to step again.
    fn recover_from_state(&mut self)
        requires
            old(self).wf(),
        ensures
            final(self)@ == recovered(old(self)@),
            final(self).wf(),
    {
        match self.state {
            ExecutionState::Done => {
                if !self.direction_reversed {
                    self.reset();
                }
                self.state = ExecutionState::Running;
            },
            ExecutionState::NotStarted => {
                if self.direction_reversed {
                    self.reset();
                }
                self.state = ExecutionState::Running;
            },
            _ => {},
        }
        proof {
            assert(self@ =~= recovered(old(self)@));
        }
    }

    /// Executes one step of the program, first starting it over when a
    /// forward run has finished or a backward run has unwound. An error
    /// moves the machine into the error state.
    pub fn checked_step(&mut self)
        requires
            old(self).wf(),
            !step_divides_by_zero(old(self)@),
        ensures
            final(self).wf(),
            final(self)@ == checked_step(old(self)@),
    {
        self.recover_from_state();
        if matches!(self.state, ExecutionState::Running) {
            match self.step() {
                Ok(()) => {},
                Err(e) => self.state = ExecutionState::Error(e),
            }
        }
        proof {
            assert(self@ =~= checked_step(old(self)@));
        }
    }

    /// Reverses time; with `run_step`, executes the current cell again
    /// under the new mode.
    fn reverse_direction(&mut self, run_step: bool) -> (r: Result<(), BefreakError>)
        requires
            old(self).wf(),
            run_step ==> old(self).state == ExecutionState::Running,
            run_step ==> !process_divides_by_zero(reversed(old(self)@)),
        ensures
            final(self).wf(),
            run_step ==> final(self)@ == process(reversed(old(self)@)).0 && r == process(
                reversed(old(self)@),
            ).1,
            !run_step ==> final(self)@ == reversed(old(self)@) && r is Ok,
    {
        self.flip_time();
        if run_step {
            self.recover_from_state();
            self.process_instruction()
        } else {
            Ok(())
        }
    }

    /// Reverses the direction of time. A running machine executes its
    /// current cell again under the new mode, undoing what that cell did;
    /// an error there moves it into the error state.
    pub fn checked_reverse_direction(&mut self)
        requires
            old(self).wf(),
            !reverse_divides_by_zero(old(self)@),
        ensures
            final(self).wf(),
            final(self)@ == checked_reverse_direction(old(self)@),
    {
        let run_step = matches!(self.state, ExecutionState::Running);
        match self.reverse_direction(run_step) {
            Ok(()) => {},
            Err(e) => self.state = ExecutionState::Error(e),
        }
        proof {
            assert(self@ =~= checked_reverse_direction(old(self)@));
        }
    }

    /// Whether processing `location` under `inverse` with this machine's
    /// stacks and buffers would divide by zero.
    fn divides_at(&self, location: (usize, usize), inverse: bool) -> (r: bool)
        requires
            self.wf(),
        ensures
            r == process_divides_by_zero(Machine { location, inverse_mode: inverse, ..self@ }),
    {
        let ch = match self.get_instruction(location) {
            Ok(c) => c,
            Err(_) => return false,
        };
        let n = self.stack.len();
        if self.string_mode || is_digit_char(ch) || n < 2 {
            return false;
        }
        let op = if inverse {
            inverse_of(ch)
        } else {
            ch
        };
        if op != '%' {
            return false;
        }
        let divisor = if self.number_stack.len() > 0 {
            self.stack[n - 1] ^ literal_of(&self.number_stack, inverse)
        } else {
            self.stack[n - 1]
        };
        divisor == 0
    }

    /// Whether the next `checked_step` would divide by zero, which the
    /// language leaves undefined.
    pub fn step_divides_by_zero(&self) -> (r: bool)
        requires
            self.wf(),
        ensures
            r == step_divides_by_zero(self@),
    {
        match self.state {
            ExecutionState::Done => if !self.direction_reversed {
                return false;
            },
            ExecutionState::NotStarted => if self.direction_reversed {
                return false;
            },
            ExecutionState::Error(_) => return false,
            ExecutionState::Running => {},
        }
        let next = self.move_location(self.location, self.direction);
        self.divides_at(next, self.inverse_mode)
    }

    /// Whether the next `checked_reverse_direction` would divide by zero.
    pub fn reverse_divides_by_zero(&self) -> (r: bool)
        requires
            self.wf(),
        ensures
            r == reverse_divides_by_zero(self@),
    {
        if !matches!(self.state, ExecutionState::Running) {
            return false;
        }
        self.divides_at(self.location, !self.inverse_mode)
    }
}

} // verus!
