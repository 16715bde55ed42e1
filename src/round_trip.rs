//! Running a program backward undoes running it forward.
//!
//! A machine that is unwinding sits on the same cell as the forward machine
//! did, with heading, inverse mode and the reversal flag flipped; executing
//! the cell there undoes what executing it forward did.
use vstd::prelude::*;
use crate::direction::{Direction, moved};
use crate::befreak::{grid_holds, lemma_process_keeps_wf, wf_machine};
use crate::grid::{cell_at, width};
use crate::laws::{is_paired, is_self_inverse, lemma_inverse_undoes, lemma_self_inverse};
use crate::semantics::{
    ExecutionState, Machine, advanced, arrow_heading, arrow_side, below, decode, execute,
    inverse_char, is_arrow, is_binary_op, is_digit, is_ternary_op, is_unary_op, literal_value,
    checked_reverse_direction, checked_step, initial, process, quotient, recovered, remainder,
    resolve_literal, succeed, top, toggled,
};

verus! {

/// The machine seen from the other direction of time.
pub open spec fn mirror(m: Machine) -> Machine {
    Machine {
        direction: m.direction.spec_opposite(),
        inverse_mode: !m.inverse_mode,
        direction_reversed: !m.direction_reversed,
        ..m
    }
}

/// Executing `op` can be undone by executing its partner: `r` only runs
/// forward, and multiplication is undone by division only where its
/// operands are a quotient and a remainder that division gives back.
pub open spec fn invertible_op(n: Machine, op: char) -> bool {
    let s = n.stack;
    &&& op == '%' && s.len() >= 2 ==> top(s, 0) != 0
    &&& op == '*' && s.len() >= 3 ==> {
        let x = top(s, 0);
        let y = top(s, 1);
        let z = top(s, 2);
        let p = z.wrapping_mul(x).wrapping_add(y);
        x != 0 && quotient(p, x) == z && remainder(p, x) == y
    }
}

/// Operations that read and write the stacks only.
pub open spec fn is_stack_op(op: char) -> bool {
    is_self_inverse(op) || is_paired(op) || op == '*'
}

proof fn lemma_stack_op_commutes(x: Machine, op: char)
    requires
        is_stack_op(op),
    ensures
        execute(mirror(x), op).1 == execute(x, op).1,
        execute(mirror(x), op).0 == mirror(execute(x, op).0),
{
    assert(execute(mirror(x), op).0 =~= mirror(execute(x, op).0));
}

/// The opcodes that can run at all.
proof fn lemma_known_ops(m: Machine, op: char)
    requires
        execute(m, op).1 is Ok,
    ensures
        is_stack_op(op) || is_arrow(op) || op == '?' || op == '\\' || op == '/' || op == ' '
            || op == 'w' || op == '"' || op == '@',
        is_stack_op(op) ==> is_stack_op(inverse_char(op)),
{
    if !(is_stack_op(op) || is_arrow(op) || op == '?' || op == '\\' || op == '/' || op == ' '
        || op == 'w' || op == '"' || op == '@') {
        assert(!is_unary_op(op) && !is_binary_op(op) && !is_ternary_op(op));
        assert(execute(m, op).1 is Err);
    }
    // one branch per stack opcode, so that its partner is computed
    if op == '=' {
    } else if op == 'l' {
    } else if op == 'g' {
    } else if op == '!' {
    } else if op == '~' {
    } else if op == '&' {
    } else if op == '|' {
    } else if op == '#' {
    } else if op == 'f' {
    } else if op == 's' {
    } else if op == 'c' {
    } else if op == '$' {
    } else if op == '(' {
    } else if op == ')' {
    } else if op == '[' {
    } else if op == ']' {
    } else if op == '\'' {
    } else if op == '`' {
    } else if op == '+' {
    } else if op == '-' {
    } else if op == '%' {
    } else if op == '*' {
    } else if op == '{' {
    } else if op == '}' {
    } else if op == 'd' {
    } else if op == 'b' {
    } else if op == 'o' {
    } else if op == 'u' {
    } else if op == ':' {
    } else if op == ';' {
    }
}

/// `*` undone by `%` where its operands are a quotient and a remainder.
proof fn lemma_multiplication_undone(n: Machine)
    requires
        execute(n, '*').1 is Ok,
        invertible_op(n, '*'),
    ensures
        execute(execute(n, '*').0, '%') == succeed(n),
{
    let s = n.stack;
    let m = execute(n, '*').0;
    assert(m.stack =~= below(s, 3).push(top(s, 2).wrapping_mul(top(s, 0)).wrapping_add(top(s, 1))).push(top(s, 0)));
    let m2 = execute(m, '%').0;
    assert(m2.stack =~= s);
    assert(m2 =~= n);
}

/// Executing a cell and then executing it again in the mirrored machine
/// gives back the mirrored starting machine.
pub proof fn lemma_cell_reverses(n: Machine, c: char)
    requires
        c != '"',
        c != '@',
        !(c == 'r' && n.inverse_mode),
        invertible_op(n, decode(c, n.inverse_mode)),
        execute(n, decode(c, n.inverse_mode)).1 is Ok,
    ensures
        execute(
            mirror(execute(n, decode(c, n.inverse_mode)).0),
            decode(c, !execute(n, decode(c, n.inverse_mode)).0.inverse_mode),
        ) == succeed(mirror(n)),
{
    let op = decode(c, n.inverse_mode);
    let m = execute(n, op).0;
    lemma_known_ops(n, op);
    if is_arrow(op) {
        assert(op == c);
        let h = arrow_heading(c);
        let side = arrow_side(c);
        let back = decode(c, !m.inverse_mode);
        assert(back == c);
        let r = execute(mirror(m), back).0;
        if n.direction == h {
            let t = top(n.control_stack, 0);
            assert((t ^ 1) ^ 1 == t) by (bit_vector);
            assert(toggled(toggled(n.control_stack)) =~= n.control_stack);
        } else if n.direction == h.spec_opposite() {
            assert(m.control_stack.push(top(n.control_stack, 0)) =~= n.control_stack);
        } else {
            assert(below(m.control_stack, 1) =~= n.control_stack);
        }
        assert(r =~= mirror(n));
    } else if op == '?' || op == '\\' || op == '/' || op == ' ' {
        assert(execute(mirror(m), decode(c, !m.inverse_mode)).0 =~= mirror(n));
    } else if op == 'w' {
        assert(c == 'w');
        let r = execute(mirror(m), 'w').0;
        if n.inverse_mode {
            assert(below(m.stack, 1) =~= n.stack);
            assert(m.output_stack.push(top(m.stack, 0)) =~= n.output_stack);
        } else {
            assert(below(m.output_stack, 1) =~= n.output_stack);
            assert(m.stack.push(top(m.output_stack, 0)) =~= n.stack);
        }
        assert(r =~= mirror(n));
    } else {
        assert(m.inverse_mode == n.inverse_mode);
        assert(decode(c, !n.inverse_mode) == inverse_char(op));
        if op == '*' {
            lemma_multiplication_undone(n);
        } else if is_self_inverse(op) || op == '$' {
            lemma_self_inverse(n, op);
        } else if is_paired(op) {
            lemma_inverse_undoes(n, op);
        }
        lemma_stack_op_commutes(m, inverse_char(op));
    }
}

/// A move on the torus is undone by a move the opposite way, and stays on
/// the grid.
pub proof fn lemma_moved_back(location: (usize, usize), d: Direction, width: nat, height: nat)
    requires
        location.0 < width,
        location.1 < height,
        width <= usize::MAX,
        height <= usize::MAX,
    ensures
        moved(moved(location, d, width, height), d.spec_opposite(), width, height) == location,
        moved(location, d, width, height).0 < width,
        moved(location, d, width, height).1 < height,
{
}

/// What an opcode leaves alone: the cursor cell, the grid, the counters and
/// the literal buffer; string mode except for `"`; the execution state and
/// the reversal flag except for `@`.
pub proof fn lemma_execute_frame(m: Machine, op: char)
    ensures
        execute(m, op).0.location == m.location,
        execute(m, op).0.grid == m.grid,
        execute(m, op).0.start_pos == m.start_pos,
        execute(m, op).0.step == m.step,
        execute(m, op).0.digits == m.digits,
        op != '"' ==> execute(m, op).0.string_mode == m.string_mode,
        op == '"' && execute(m, op).1 is Ok ==> execute(m, op).0 == (Machine { string_mode: true, ..m }),
        op != '@' ==> execute(m, op).0.state == m.state,
        op != '@' ==> execute(m, op).0.direction_reversed == m.direction_reversed,
        op == '@' && !m.direction_reversed ==> execute(m, op) == succeed(
            Machine { state: ExecutionState::Done, ..m },
        ),
{
}

/// `s` with `v` combined into its top item by XOR.
pub open spec fn xor_top(s: Seq<i64>, v: i64) -> Seq<i64> {
    below(s, 1).push(top(s, 0) ^ v)
}

/// The forward machine `a` is about to process a cell that belongs to, or
/// ends, the literal `full`.
pub open spec fn digit_cell(a: Machine) -> bool {
    !a.string_mode && match cell_at(a.grid, a.location) {
        Some(c) => is_digit(c),
        None => false,
    }
}

/// `r` is the unwinding machine that corresponds to the forward machine
/// `a` about to process its cell, where `full` is the literal that cell
/// belongs to or ends: `r` stands on the same cell, mirrored, having undone
/// everything after it, holds the digits of `full` from this cell on, in
/// the order it met them, and still has `full` combined into its stack.
pub open spec fn unwinds(r: Machine, a: Machine, full: Seq<char>) -> bool {
    &&& r == Machine {
        direction: a.direction.spec_opposite(),
        inverse_mode: !a.inverse_mode,
        direction_reversed: !a.direction_reversed,
        digits: full.skip(a.digits.len() as int).reverse(),
        stack: if full.len() > 0 {
            xor_top(a.stack, literal_value(full, a.inverse_mode))
        } else {
            a.stack
        },
        ..a
    }
    &&& a.digits.len() <= full.len()
    &&& full.take(a.digits.len() as int) == a.digits
    &&& !digit_cell(a) ==> full == a.digits
    &&& full.len() > 0 ==> a.stack.len() > 0
}

/// The forward step from `a` can be undone: `r` does not run forward, and
/// multiplication only meets operands that division gives back.
pub open spec fn step_invertible(a: Machine) -> bool {
    match cell_at(a.grid, a.location) {
        None => true,
        Some(c) => a.string_mode || is_digit(c) || {
            let n = if a.digits.len() > 0 {
                resolve_literal(a)
            } else {
                a
            };
            &&& !(c == 'r' && a.inverse_mode)
            &&& invertible_op(n, decode(c, a.inverse_mode))
        },
    }
}

/// The literal that the cell of `a` belongs to or ends, given the one of
/// the next cell.
pub open spec fn literal_here(a: Machine, next: Seq<char>) -> Seq<char> {
    if digit_cell(a) {
        next
    } else {
        a.digits
    }
}

proof fn lemma_xor_cancels(s: Seq<i64>, ds: Seq<char>, inverse: bool)
    requires
        s.len() > 0,
    ensures
        xor_top(xor_top(s, literal_value(ds, inverse)), literal_value(ds.reverse(), !inverse)) == s,
{
    let v = literal_value(ds, inverse);
    assert(ds.reverse().reverse() =~= ds);
    assert(literal_value(ds.reverse(), !inverse) == v);
    let t = top(s, 0);
    assert((t ^ v) ^ v == t) by (bit_vector);
    assert(xor_top(xor_top(s, v), v) =~= s);
}

/// The forward step from `a` runs without error, stays running, and can be
/// undone; the unwinding machine `r` corresponds to the machine after it.
pub open spec fn unwind_premise(a: Machine, r: Machine, next: Seq<char>) -> bool {
    &&& wf_machine(a)
    &&& a.grid.len() <= usize::MAX
    &&& width(a.grid) <= usize::MAX
    &&& !a.direction_reversed
    &&& a.state == ExecutionState::Running
    &&& a.string_mode ==> a.digits.len() == 0
    &&& process(a).1 is Ok
    &&& process(a).0.state == ExecutionState::Running
    &&& step_invertible(a)
    &&& unwinds(r, advanced(process(a).0), next)
}

/// The unwinding machine after stepping back onto `a`'s cell sits where
/// `a` does, at the same count.
proof fn lemma_step_back_lands(a: Machine, r: Machine, next: Seq<char>)
    requires
        unwind_premise(a, r, next),
    ensures
        advanced(r).location == a.location,
        advanced(r).step == a.step,
        process(a).0.location == a.location,
        process(a).0.grid == a.grid,
        process(a).0.start_pos == a.start_pos,
        process(a).0.step == a.step,
        cell_at(a.grid, a.location) is Some,
{
    let m = process(a).0;
    let g = a.grid;
    lemma_process_keeps_wf(a);
    lemma_moved_back(a.location, m.direction, width(g), g.len());
    assert(m.step.wrapping_add(1).wrapping_sub(1) == m.step);
}

/// Stepping back over a cell met in string mode.
proof fn lemma_unwind_string(a: Machine, r: Machine, next: Seq<char>)
    requires
        unwind_premise(a, r, next),
        a.string_mode,
    ensures
        process(advanced(r)).1 is Ok,
        unwinds(process(advanced(r)).0, a, literal_here(a, next)),
{
    lemma_step_back_lands(a, r, next);
    let m = process(a).0;
    let a2 = advanced(m);
    let c = cell_at(a.grid, a.location)->Some_0;
    let here = literal_here(a, next);
    assert(here =~= Seq::<char>::empty());
    assert(here.take(a.digits.len() as int) =~= a.digits);
    let target = Machine {
        direction: a.direction.spec_opposite(),
        inverse_mode: !a.inverse_mode,
        direction_reversed: !a.direction_reversed,
        digits: here.skip(a.digits.len() as int).reverse(),
        ..a
    };
    if c == '"' {
        let b = advanced(r);
        assert(m == Machine { string_mode: false, ..a });
        assert(a.digits.len() == 0);
        assert(next.skip(0) =~= next);
        assert(b.digits == next.reverse());
        assert(!b.string_mode);
        if next.len() > 0 {
            lemma_xor_cancels(a.stack, next, a.inverse_mode);
            assert(b.stack == xor_top(a.stack, literal_value(next, a.inverse_mode)));
            assert(resolve_literal(b).stack == a.stack);
        }
        let b1 = if b.digits.len() > 0 {
            resolve_literal(b)
        } else {
            b
        };
        assert(b1.stack == a.stack);
        assert(process(b) == execute(b1, '"'));
        lemma_execute_frame(b1, '"');
        assert(process(advanced(r)).0 =~= target);
    } else {
        assert(!digit_cell(a2));
        assert(next =~= Seq::<char>::empty());
        if a.inverse_mode {
            assert(below(a.stack, 1).push(top(a.stack, 0)) =~= a.stack);
        } else {
            assert(below(a.stack.push(#[verifier::truncate] (c as u32) as i64), 1) =~= a.stack);
        }
        assert(process(advanced(r)).0 =~= target);
    }
}

/// Stepping back over a digit of a literal.
proof fn lemma_unwind_digit(a: Machine, r: Machine, next: Seq<char>)
    requires
        unwind_premise(a, r, next),
        digit_cell(a),
    ensures
        process(advanced(r)).1 is Ok,
        unwinds(process(advanced(r)).0, a, literal_here(a, next)),
{
    lemma_step_back_lands(a, r, next);
    let c = cell_at(a.grid, a.location)->Some_0;
    let here = literal_here(a, next);
    let k = a.digits.len() as int;
    assert(next[k] == c) by {
        assert(next.take(k + 1)[k] == a.digits.push(c)[k]);
    }
    assert(next.take(k) =~= a.digits) by {
        assert(next.take(k) =~= next.take(k + 1).take(k));
        assert(a.digits.push(c).take(k) =~= a.digits);
    }
    assert(next.skip(k + 1).reverse().push(c) =~= next.skip(k).reverse());
    assert(process(advanced(r)).0 =~= Machine {
        direction: a.direction.spec_opposite(),
        inverse_mode: !a.inverse_mode,
        direction_reversed: !a.direction_reversed,
        digits: here.skip(a.digits.len() as int).reverse(),
        stack: if here.len() > 0 {
            xor_top(a.stack, literal_value(here, a.inverse_mode))
        } else {
            a.stack
        },
        ..a
    });
}

/// Stepping back over an opcode.
#[verifier::rlimit(40)]
proof fn lemma_unwind_op(a: Machine, r: Machine, next: Seq<char>)
    requires
        unwind_premise(a, r, next),
        !a.string_mode,
        !digit_cell(a),
    ensures
        process(advanced(r)).1 is Ok,
        unwinds(process(advanced(r)).0, a, literal_here(a, next)),
{
    lemma_step_back_lands(a, r, next);
    let m = process(a).0;
    let a2 = advanced(m);
    let b = advanced(r);
    let c = cell_at(a.grid, a.location)->Some_0;
    let here = literal_here(a, next);
    let n = if a.digits.len() > 0 {
        resolve_literal(a)
    } else {
        a
    };
    let op = decode(c, a.inverse_mode);
    assert(process(a) == execute(n, op));
    lemma_execute_frame(n, op);
    assert(here == a.digits);
    assert(here.skip(a.digits.len() as int) =~= Seq::<char>::empty());
    if c == '"' {
        assert(!digit_cell(a2));
        assert(next =~= Seq::<char>::empty());
        assert(process(advanced(r)).0 =~= mirror(n));
    } else {
        assert(c != '@');
        assert(m.digits =~= Seq::<char>::empty());
        assert(next.skip(0) =~= next);
        assert(b.digits == next.reverse());
        if next.len() > 0 {
            lemma_xor_cancels(m.stack, next, m.inverse_mode);
            assert(b.stack == xor_top(m.stack, literal_value(next, m.inverse_mode)));
            assert(resolve_literal(b).stack == m.stack);
        }
        let b1 = if b.digits.len() > 0 {
            resolve_literal(b)
        } else {
            b
        };
        assert(b1 =~= mirror(m));
        lemma_cell_reverses(n, c);
        assert(process(advanced(r)) == execute(b1, decode(c, b.inverse_mode)));
        assert(process(advanced(r)).0 =~= mirror(n));
    }
    assert(a.digits.len() > 0 ==> a.stack.len() > 0);
    assert(mirror(n) =~= Machine {
        direction: a.direction.spec_opposite(),
        inverse_mode: !a.inverse_mode,
        direction_reversed: !a.direction_reversed,
        digits: here.skip(a.digits.len() as int).reverse(),
        stack: if here.len() > 0 {
            xor_top(a.stack, literal_value(here, a.inverse_mode))
        } else {
            a.stack
        },
        ..a
    });
    assert(here.take(a.digits.len() as int) =~= a.digits);
}

/// One step of unwinding: from the machine that corresponds to the forward
/// machine after `a`'s step, stepping back gives the machine that
/// corresponds to `a`.
pub proof fn lemma_unwind_step(a: Machine, r: Machine, next: Seq<char>)
    requires
        unwind_premise(a, r, next),
    ensures
        process(advanced(r)).1 is Ok,
        unwinds(process(advanced(r)).0, a, literal_here(a, next)),
{
    if a.string_mode {
        lemma_unwind_string(a, r, next);
    } else if digit_cell(a) {
        lemma_unwind_digit(a, r, next);
    } else {
        lemma_unwind_op(a, r, next);
    }
}

/// `k` step requests from `m`.
pub open spec fn run(m: Machine, k: nat) -> Machine
    decreases k,
{
    if k == 0 {
        m
    } else {
        checked_step(run(m, (k - 1) as nat))
    }
}

/// The machine of a run from `m` about to process the cell of step `k`
/// (counting from 1).
pub open spec fn pre(m: Machine, k: nat) -> Machine {
    advanced(recovered(run(m, (k - 1) as nat)))
}

/// The run from `m` halts normally at step `n`: it runs until then and
/// the last step finishes it.
pub open spec fn halts_at(m: Machine, n: nat) -> bool {
    &&& n >= 1
    &&& run(m, n).state == ExecutionState::Done
    &&& forall|k: nat| 1 <= k < n ==> (#[trigger] run(m, k)).state == ExecutionState::Running
}

/// The literal that the cell of step `k` belongs to or ends, in a run from
/// `m` that halts at step `n`.
pub open spec fn pending(m: Machine, n: nat, k: nat) -> Seq<char>
    decreases n - k,
{
    if k < n && digit_cell(pre(m, k)) {
        pending(m, n, k + 1)
    } else {
        pre(m, k).digits
    }
}

/// What processing a cell does to the reversal flag, the execution state
/// and the literal buffer of a forward machine.
proof fn lemma_process_frame(a: Machine)
    requires
        wf_machine(a),
        !a.direction_reversed,
        a.string_mode ==> a.digits.len() == 0,
    ensures
        !process(a).0.direction_reversed,
        process(a).0.string_mode ==> process(a).0.digits.len() == 0,
        process(a).0.state == a.state || process(a).0.state == ExecutionState::Done,
        process(a).1 is Ok && process(a).0.state == ExecutionState::Done && a.state
            != ExecutionState::Done ==> {
            let n = if a.digits.len() > 0 {
                resolve_literal(a)
            } else {
                a
            };
            &&& !a.string_mode
            &&& cell_at(a.grid, a.location) == Some('@')
            &&& process(a).0 == (Machine { state: ExecutionState::Done, ..n })
        },
{
    lemma_process_keeps_wf(a);
    let c = cell_at(a.grid, a.location)->Some_0;
    if !a.string_mode && !is_digit(c) {
        let n = if a.digits.len() > 0 {
            resolve_literal(a)
        } else {
            a
        };
        let op = decode(c, a.inverse_mode);
        lemma_execute_frame(n, op);
        if op == '@' {
            assert(c == '@');
        }
    }
}

/// The forward run: every step up to the halt runs without error from a
/// well-formed machine, and the next step starts where it ended.
proof fn lemma_forward(m: Machine, n: nat, k: nat)
    requires
        wf_machine(m),
        m == initial(m.start_pos, m.grid),
        m.grid.len() <= usize::MAX,
        width(m.grid) <= usize::MAX,
        halts_at(m, n),
        1 <= k <= n,
    ensures
        wf_machine(pre(m, k)),
        !pre(m, k).direction_reversed,
        pre(m, k).state == ExecutionState::Running,
        pre(m, k).string_mode ==> pre(m, k).digits.len() == 0,
        pre(m, k).grid == m.grid,
        pre(m, k).start_pos == m.start_pos,
        process(pre(m, k)).1 is Ok,
        run(m, k) == process(pre(m, k)).0,
        k < n ==> pre(m, k + 1) == advanced(run(m, k)),
    decreases k,
{
    let g = m.grid;
    if k == 1 {
        lemma_moved_back(m.location, m.direction, width(g), g.len());
        assert(run(m, 0) == m);
    } else {
        lemma_forward(m, n, (k - 1) as nat);
        let prev = run(m, (k - 1) as nat);
        assert(prev.state == ExecutionState::Running);
        lemma_process_keeps_wf(pre(m, (k - 1) as nat));
        lemma_process_frame(pre(m, (k - 1) as nat));
        lemma_moved_back(prev.location, prev.direction, width(g), g.len());
    }
    let a = pre(m, k);
    lemma_process_frame(a);
    assert(run(m, k) == checked_step(run(m, (k - 1) as nat)));
    if k < n {
        assert(run(m, k).state == ExecutionState::Running);
    }
}

/// Reversing at the halt gives the machine that corresponds to the forward
/// machine about to process the halt.
proof fn lemma_unwind_start(m: Machine, n: nat)
    requires
        wf_machine(m),
        m == initial(m.start_pos, m.grid),
        m.grid.len() <= usize::MAX,
        width(m.grid) <= usize::MAX,
        halts_at(m, n),
    ensures
        unwinds(
            recovered(checked_reverse_direction(run(m, n))),
            pre(m, n),
            pending(m, n, n),
        ),
{
    lemma_forward(m, n, n);
    let a = pre(m, n);
    lemma_process_frame(a);
    let c = cell_at(a.grid, a.location)->Some_0;
    let nm = if a.digits.len() > 0 {
        resolve_literal(a)
    } else {
        a
    };
    assert(pending(m, n, n) == a.digits);
    let here = a.digits;
    assert(here.skip(a.digits.len() as int) =~= Seq::<char>::empty());
    assert(here.take(a.digits.len() as int) =~= a.digits);
    assert(a.digits.len() > 0 ==> a.stack.len() > 0);
    assert(recovered(checked_reverse_direction(run(m, n))) =~= Machine {
        direction: a.direction.spec_opposite(),
        inverse_mode: !a.inverse_mode,
        direction_reversed: !a.direction_reversed,
        digits: here.skip(a.digits.len() as int).reverse(),
        stack: if here.len() > 0 {
            xor_top(a.stack, literal_value(here, a.inverse_mode))
        } else {
            a.stack
        },
        ..a
    });
}

/// After `j` steps back from the halt, the unwinding machine corresponds to
/// the forward machine about to process the cell of step `n - j`.
proof fn lemma_unwinding(m: Machine, n: nat, j: nat)
    requires
        wf_machine(m),
        m == initial(m.start_pos, m.grid),
        m.grid.len() <= usize::MAX,
        width(m.grid) <= usize::MAX,
        halts_at(m, n),
        forall|k: nat| 1 <= k <= n ==> step_invertible(#[trigger] pre(m, k)),
        j < n,
    ensures
        unwinds(
            recovered(run(checked_reverse_direction(run(m, n)), j)),
            pre(m, (n - j) as nat),
            pending(m, n, (n - j) as nat),
        ),
    decreases j,
{
    let back = checked_reverse_direction(run(m, n));
    if j == 0 {
        lemma_unwind_start(m, n);
    } else {
        let k = (n - j) as nat;
        lemma_unwinding(m, n, (j - 1) as nat);
        lemma_forward(m, n, k);
        assert(run(m, k).state == ExecutionState::Running);
        let r = recovered(run(back, (j - 1) as nat));
        assert(step_invertible(pre(m, k)));
        assert(unwind_premise(pre(m, k), r, pending(m, n, k + 1)));
        lemma_unwind_step(pre(m, k), r, pending(m, n, k + 1));
        assert(pending(m, n, k) == literal_here(pre(m, k), pending(m, n, k + 1)));
        assert(run(back, j) == checked_step(run(back, (j - 1) as nat)));
    }
}

/// Running a program backward undoes running it forward: a program that
/// halts normally after `n` step requests, reversed and stepped `n` times,
/// is back in its initial state, with empty stacks, the step count at
/// zero, the cursor on its start and the state `NotStarted`. This holds for
/// programs that never run `r` in inverse mode, and whose multiplications
/// meet a quotient and remainder that division gives back; on others the
/// backward run stops with an error.
pub proof fn theorem_round_trip(start: (usize, usize), g: Seq<Seq<char>>, n: nat)
    requires
        grid_holds(g, start, start),
        g.len() <= usize::MAX,
        width(g) <= usize::MAX,
        cell_at(g, start) == Some('@'),
        halts_at(initial(start, g), n),
        forall|k: nat| 1 <= k <= n ==> step_invertible(#[trigger] pre(initial(start, g), k)),
    ensures
        run(checked_reverse_direction(run(initial(start, g), n)), n) == initial(start, g),
{
    let m = initial(start, g);
    assert(wf_machine(m));
    let back = checked_reverse_direction(run(m, n));
    lemma_unwinding(m, n, (n - 1) as nat);
    lemma_forward(m, n, 1);
    let a = pre(m, 1);
    let r = recovered(run(back, (n - 1) as nat));
    assert(a.stack.len() == 0);
    assert(pending(m, n, 1).len() == 0);
    lemma_moved_back(start, Direction::East, width(g), g.len());
    assert(advanced(r).location == start);
    assert(r.digits =~= Seq::<char>::empty());
    assert(run(back, n) == checked_step(run(back, (n - 1) as nat)));
    assert(run(back, n) =~= m);
}

} // verus!
