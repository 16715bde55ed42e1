//! Laws of the instruction set: literals cancel, failures change nothing,
//! and every opcode is undone by its inverse.
use vstd::prelude::*;
use crate::semantics::{
    BefreakError, Machine, below, execute, fail, inverse_char, literal_value,
    complement, quotient, remainder, resolve_literal, rotated_left, rotated_right, rotation, succeed, top,
    toggled,
};

verus! {

/// A numeric literal read on the way forward and read again on the way back
/// cancels: the way back meets the digits in the opposite order, under the
/// opposite mode, and XORs the same value into the same stack slot.
pub proof fn lemma_literal_cancels(m: Machine)
    requires
        m.stack.len() > 0,
    ensures
        resolve_literal(
            Machine {
                digits: m.digits.reverse(),
                inverse_mode: !m.inverse_mode,
                ..resolve_literal(m)
            },
        ).stack == m.stack,
{
    let n = literal_value(m.digits, m.inverse_mode);
    assert(m.digits.reverse().reverse() =~= m.digits);
    assert(literal_value(m.digits.reverse(), !m.inverse_mode) == n);
    let t = top(m.stack, 0);
    assert((t ^ n) ^ n == t) by (bit_vector);
    assert(resolve_literal(
        Machine { digits: m.digits.reverse(), inverse_mode: !m.inverse_mode, ..resolve_literal(m) },
    ).stack =~= m.stack);
}

/// How many main-stack items an opcode needs.
pub open spec fn main_items(op: char, inverse: bool) -> nat {
    if op == '\'' || op == '`' || op == '~' || op == ':' || op == ')' || op == '[' || op == '$'
        || (op == 'w' && !inverse) {
        1
    } else if op == '+' || op == '-' || op == '%' || op == '#' || op == '{' || op == '}' || op
        == 's' || op == 'o' || op == '=' || op == 'l' || op == 'g' || op == ';' {
        2
    } else if op == '*' || op == '&' || op == '|' || op == 'd' || op == 'b' || op == 'f' || op
        == 'c' || op == 'u' {
        3
    } else {
        0
    }
}

/// An opcode that fails leaves the machine exactly as it was.
pub proof fn lemma_failure_is_atomic(m: Machine, op: char)
    ensures
        execute(m, op).1 is Err ==> execute(m, op).0 == m,
{
}

/// An opcode that needs more main-stack items than there are reports
/// `EmptyMainStack` and changes nothing; one that needs the top of an empty
/// control or output stack reports that stack's error and changes nothing.
pub proof fn lemma_short_stack_fails(m: Machine, op: char)
    ensures
        m.stack.len() < main_items(op, m.inverse_mode) ==> execute(m, op) == fail(
            m,
            BefreakError::EmptyMainStack,
        ),
        (op == ']' || op == '!') && m.control_stack.len() == 0 ==> execute(m, op) == fail(
            m,
            BefreakError::EmptyControlStack,
        ),
        op == '$' && m.stack.len() > 0 && m.control_stack.len() == 0 ==> execute(m, op) == fail(
            m,
            BefreakError::EmptyControlStack,
        ),
        op == 'w' && m.inverse_mode && m.output_stack.len() == 0 ==> execute(m, op) == fail(
            m,
            BefreakError::EmptyOutputStack,
        ),
{
}

/// The opcodes that are their own inverse.
pub open spec fn is_self_inverse(op: char) -> bool {
    op == '=' || op == 'l' || op == 'g' || op == '!' || op == '~' || op == '&' || op == '|' || op
        == '#' || op == 'f' || op == 's' || op == 'c' || op == '$'
}

/// Running a self-inverse opcode twice in a row gives back the machine it
/// started from.
pub proof fn lemma_self_inverse(m: Machine, op: char)
    requires
        is_self_inverse(op),
        execute(m, op).1 is Ok,
    ensures
        execute(execute(m, op).0, op) == succeed(m),
{
    let s = m.stack;
    let m1 = execute(m, op).0;
    let m2 = execute(m1, op).0;
    if op == '!' || op == '=' || op == 'l' || op == 'g' {
        if m1.control_stack != m.control_stack {
            let c = m.control_stack;
            let t = top(c, 0);
            assert((t ^ 1) ^ 1 == t) by (bit_vector);
            assert(toggled(toggled(c)) =~= c);
        }
        assert(m2 =~= m);
    } else if op == '~' {
        let x = top(s, 0);
        let nx = complement(x);
        assert(!nx == x) by (bit_vector)
            requires
                nx == !x,
        ;
        let s1 = below(s, 1).push(nx);
        assert(m1.stack == s1);
        assert(below(s1, 1) =~= below(s, 1));
        assert(m2.stack =~= s);
    } else if op == '#' {
        let x = top(s, 0);
        let y = top(s, 1);
        assert((y ^ x) ^ x == y) by (bit_vector);
        assert(m2.stack =~= s);
    } else if op == '&' || op == '|' {
        let x = top(s, 0);
        let y = top(s, 1);
        let z = top(s, 2);
        assert((z ^ (y & x)) ^ (y & x) == z) by (bit_vector);
        assert((z ^ (y | x)) ^ (y | x) == z) by (bit_vector);
        assert(m2.stack =~= s);
    } else {
        assert(m2.stack =~= s);
        assert(m2.control_stack =~= m.control_stack);
    }
    assert(m2 =~= m);
}

/// Rotating right undoes rotating left by the same amount.
pub proof fn lemma_rotations_cancel(y: i64, k: u64)
    requires
        k < 64,
    ensures
        rotated_right(rotated_left(y, k), k) == y,
        rotated_left(rotated_right(y, k), k) == y,
{
    let u = y as u64;
    assert(((u as i64) as u64) == u && (u as i64) == y) by (bit_vector)
        requires
            u == y as u64,
    ;
    if k > 0 {
        let a = (u << k) | (u >> (64 - k) as u64);
        let b = (u >> k) | (u << (64 - k) as u64);
        assert(((a as i64) as u64) == a) by (bit_vector);
        assert(((b as i64) as u64) == b) by (bit_vector);
        assert((a >> k) | (a << (64 - k) as u64) == u) by (bit_vector)
            requires
                0 < k < 64,
                a == (u << k) | (u >> (64 - k) as u64),
        ;
        assert((b << k) | (b >> (64 - k) as u64) == u) by (bit_vector)
            requires
                0 < k < 64,
                b == (u >> k) | (u << (64 - k) as u64),
        ;
    }
}

/// Division of a non-negative number by a positive one.
proof fn lemma_nonneg_division(a: int, b: int)
    requires
        a >= 0,
        b > 0,
    ensures
        a == (a / b) * b + a % b,
        0 <= a % b < b,
        0 <= a / b <= a,
        a % b <= a,
{
    assert(a == (a / b) * b + a % b && 0 <= a % b < b) by (nonlinear_arith)
        requires
            a >= 0,
            b > 0,
    ;
    assert(0 <= a / b <= a) by (nonlinear_arith)
        requires
            a >= 0,
            b > 0,
            a == (a / b) * b + a % b,
            0 <= a % b < b,
    ;
}

/// Truncating division and its remainder rebuild the dividend, wrapping
/// to 64 bits.
pub proof fn lemma_division_rebuilds(y: i64, x: i64)
    requires
        x != 0,
    ensures
        quotient(y, x).wrapping_mul(x).wrapping_add(remainder(y, x)) == y,
{
    let q = quotient(y, x);
    let r = remainder(y, x);
    let yi = y as int;
    let xi = x as int;
    if y == i64::MIN && x == -1 {
        assert((yi * -1) / (xi * -1) == 0x8000_0000_0000_0000int);
        assert(y.checked_div(x) is None);
        assert(q == i64::MIN);
        assert(r == 0);
        assert((i64::MIN as int) * -1 == 0x8000_0000_0000_0000);
        assert(0x8000_0000_0000_0000int % 0x1_0000_0000_0000_0000int == 0x8000_0000_0000_0000);
        assert(q.wrapping_mul(x) == i64::MIN);
    } else if yi == 0 {
        assert(q == 0 && r == 0);
        assert(q.wrapping_mul(x) == 0);
    } else {
        let a = if yi < 0 {
            -yi
        } else {
            yi
        };
        let b = if xi < 0 {
            -xi
        } else {
            xi
        };
        lemma_nonneg_division(a, b);
        let qa = a / b;
        let ra = a % b;
        if b == 1 {
            assert(qa == a) by (nonlinear_arith)
                requires
                    a == qa * b + ra,
                    0 <= ra < b,
                    b == 1,
            ;
        } else {
            assert(qa <= a / 2) by (nonlinear_arith)
                requires
                    a == qa * b + ra,
                    0 <= ra < b,
                    b >= 2,
                    qa >= 0,
            ;
        }
        let qi = if (yi < 0) == (xi < 0) {
            qa
        } else {
            -qa
        };
        let ri = if yi < 0 {
            -ra
        } else {
            ra
        };
        assert(q as int == qi);
        assert(r as int == ri);
        assert(qi * xi + ri == yi) by (nonlinear_arith)
            requires
                a == qa * b + ra,
                a == (if yi < 0 { -yi } else { yi }),
                b == (if xi < 0 { -xi } else { xi }),
                qi == (if (yi < 0) == (xi < 0) { qa } else { -qa }),
                ri == (if yi < 0 { -ra } else { ra }),
        ;
        assert(i64::MIN <= qi * xi <= i64::MAX);
        assert(q.wrapping_mul(x) as int == qi * xi);
    }
}

/// The opcodes that the inverse table pairs with another, and which only
/// touch the stacks.
pub open spec fn is_paired(op: char) -> bool {
    op == '(' || op == ')' || op == '[' || op == ']' || op == '\'' || op == '`' || op == '+' || op
        == '-' || op == '%' || op == '{' || op == '}' || op == 'd' || op == 'b' || op == 'o' || op
        == 'u' || op == ':' || op == ';'
}

/// An opcode that runs is undone by its inverse from the table. Division
/// is undone by multiplication for every non-zero divisor; the converse
/// holds only where the remainder is one that division leaves.
pub proof fn lemma_inverse_undoes(m: Machine, op: char)
    requires
        is_paired(op),
        execute(m, op).1 is Ok,
        op == '%' ==> top(m.stack, 0) != 0,
    ensures
        execute(execute(m, op).0, inverse_char(op)) == succeed(m),
{
    let s = m.stack;
    let m1 = execute(m, op).0;
    let m2 = execute(m1, inverse_char(op)).0;
    if op == '\'' || op == '`' || op == '+' || op == '-' {
        let x = top(s, 0);
        let y = top(s, 1);
        assert(x.wrapping_add(1).wrapping_sub(1) == x);
        assert(x.wrapping_sub(1).wrapping_add(1) == x);
        assert(y.wrapping_add(x).wrapping_sub(x) == y);
        assert(y.wrapping_sub(x).wrapping_add(x) == y);
        assert(m2.stack =~= s);
    } else if op == '%' {
        lemma_division_rebuilds(top(s, 1), top(s, 0));
        assert(m2.stack =~= s);
    } else if op == '{' || op == '}' {
        let x = top(s, 0);
        assert(((x & 63) as u64) < 64) by (bit_vector);
        lemma_rotations_cancel(top(s, 1), rotation(x));
        assert(m2.stack =~= s);
    } else {
        assert(m2.stack =~= s);
        assert(m2.control_stack =~= m.control_stack);
    }
    assert(m2 =~= m);
}

} // verus!
