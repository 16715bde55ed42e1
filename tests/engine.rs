use befreak::befreak::{inverse_of, literal_of, BefreakState};
use befreak::befreak::Direction;
use befreak::direction::move_on_torus;
use befreak::program::LoadError;
use befreak::befreak::{BefreakError, ExecutionState};

fn load(text: &str) -> BefreakState {
    BefreakState::new_from_string(text).expect("program should load")
}

fn run(state: &mut BefreakState, steps: usize) {
    for _ in 0..steps {
        assert!(!state.step_divides_by_zero());
        state.checked_step();
    }
}

fn run_until_settled(state: &mut BefreakState, limit: usize) -> usize {
    let mut n = 0;
    while n < limit {
        assert!(!state.step_divides_by_zero());
        state.checked_step();
        n += 1;
        if !matches!(state.state, ExecutionState::Running) {
            break;
        }
    }
    n
}

fn codes(s: &str) -> Vec<i64> {
    s.chars().map(|c| c as i64).collect()
}

#[test]
fn hello_program_writes_and_unwrites_its_output() {
    let mut m = load("@\"!olleH\"wwwwww");
    let n = run_until_settled(&mut m, 100);
    assert_eq!(m.state, ExecutionState::Done);
    assert_eq!(m.output_stack, codes("Hello!"));
    assert!(m.stack.is_empty());
    assert_eq!(m.step, n as i64);

    assert!(!m.reverse_divides_by_zero());
    m.checked_reverse_direction();
    let back = run_until_settled(&mut m, 100);
    assert_eq!(back, n);
    assert_eq!(m.state, ExecutionState::NotStarted);
    assert!(m.output_stack.is_empty());
    assert!(m.stack.is_empty());
    assert!(m.control_stack.is_empty());
    assert_eq!(m.step, 0);
    assert_eq!(m.location, m.start_pos);
    assert_eq!(m.direction, Direction::East);
    assert!(!m.direction_reversed);
    assert!(!m.inverse_mode);
}

#[test]
fn branching_program_round_trips() {
    // a loop that writes three characters, steered by branch arrows
    let text = "\n/\"Hello world!\"01\\\n\\(13v     `wsv)@(/\n    \\(=13=13)/    ";
    let mut m = load(text);
    let n = run_until_settled(&mut m, 10_000);
    assert_eq!(m.state, ExecutionState::Done);
    assert_eq!(m.output_stack, codes("Hello world!\n"));
    m.checked_reverse_direction();
    let back = run_until_settled(&mut m, 10_000);
    assert_eq!(back, n);
    assert_eq!(m.state, ExecutionState::NotStarted);
    assert!(m.output_stack.is_empty());
    assert!(m.stack.is_empty());
    assert!(m.control_stack.is_empty());
    assert_eq!(m.step, 0);
    assert_eq!(m.location, m.start_pos);
}

#[test]
fn division_then_multiplication() {
    let mut m = load("@(17(5%*");
    run(&mut m, 6);
    assert_eq!(m.stack, vec![3, 2, 5]);
    run(&mut m, 1);
    assert_eq!(m.stack, vec![17, 5]);
    run(&mut m, 1);
    assert_eq!(m.state, ExecutionState::Done);
}

#[test]
fn division_of_negative_numbers_truncates() {
    let mut m = load("@(17~(5%");
    // 17 complemented is -18
    run(&mut m, 7);
    assert_eq!(m.stack, vec![-3, -3, 5]);
}

#[test]
fn division_by_zero_is_detected_before_the_step() {
    let mut m = load("@((%");
    run(&mut m, 2);
    assert!(m.step_divides_by_zero());
}

#[test]
fn hinge_toggles_control_flips_mode_and_turns_back() {
    let mut m = load("@(1[(7 >");
    run(&mut m, 6);
    assert_eq!(m.control_stack, vec![1]);
    assert_eq!(m.stack, vec![7]);
    assert_eq!(m.direction, Direction::East);
    run(&mut m, 1);
    assert_eq!(m.location, (7, 0));
    assert_eq!(m.control_stack, vec![0]);
    assert!(m.inverse_mode);
    assert_eq!(m.direction, Direction::West);
    assert_eq!(m.stack, vec![7]);
    assert_eq!(m.state, ExecutionState::Running);
}

#[test]
fn branch_write_then_read() {
    // heading south into `>` pushes 0 (normal mode) and turns east
    let mut m = load("@v\n >\n  ");
    run(&mut m, 2);
    assert_eq!(m.direction, Direction::East);
    assert_eq!(m.control_stack, vec![1, 0]);
}

#[test]
fn literal_read_back_cancels() {
    let mut m = load("@(123 ");
    run(&mut m, 5);
    assert_eq!(m.stack, vec![123]);
    m.checked_reverse_direction();
    assert_eq!(m.stack, vec![123]);
    run(&mut m, 4);
    assert!(m.stack.is_empty());
    assert!(m.number_stack.is_empty());
}

#[test]
fn literal_values_in_both_orders() {
    let digits = vec!['1', '2', '3'];
    assert_eq!(literal_of(&digits, false), 123);
    assert_eq!(literal_of(&digits, true), 321);
    let reversed = vec!['3', '2', '1'];
    let x: i64 = 987;
    assert_eq!((x ^ literal_of(&digits, false)) ^ literal_of(&reversed, true), x);
}

#[test]
fn failing_add_keeps_the_stack() {
    let mut m = load("@(+");
    run(&mut m, 2);
    assert_eq!(m.state, ExecutionState::Error(BefreakError::EmptyMainStack));
    assert_eq!(m.stack, vec![0]);
    run(&mut m, 1);
    assert_eq!(m.state, ExecutionState::Error(BefreakError::EmptyMainStack));
    assert_eq!(m.stack, vec![0]);
    m.checked_reverse_direction();
    assert_eq!(m.state, ExecutionState::Running);
    assert!(m.direction_reversed);
}

#[test]
fn failing_pop_on_empty_stack() {
    let mut m = load("@)");
    run(&mut m, 1);
    assert_eq!(m.state, ExecutionState::Error(BefreakError::EmptyMainStack));
    assert!(m.stack.is_empty());
}

#[test]
fn error_invalid_operation() {
    let mut m = load("@x");
    run(&mut m, 1);
    assert_eq!(m.state, ExecutionState::Error(BefreakError::InvalidOperation));
}

#[test]
fn error_read_is_unsupported_forward() {
    let mut m = load("@r");
    run(&mut m, 1);
    assert_eq!(m.state, ExecutionState::Error(BefreakError::InvalidOperation));
}

#[test]
fn error_empty_control_stack() {
    let mut m = load("@]");
    run(&mut m, 1);
    assert_eq!(m.state, ExecutionState::Error(BefreakError::EmptyControlStack));
}

#[test]
fn error_swap_with_empty_control_keeps_main() {
    let mut m = load("@(4$");
    run(&mut m, 3);
    assert_eq!(m.state, ExecutionState::Error(BefreakError::EmptyControlStack));
    assert_eq!(m.stack, vec![4]);
}

#[test]
fn error_empty_output_stack() {
    let mut m = load("@?w");
    run(&mut m, 2);
    assert_eq!(m.state, ExecutionState::Error(BefreakError::EmptyOutputStack));
}

#[test]
fn error_non_bool_in_control_stack() {
    let mut m = load("@(5[<");
    run(&mut m, 5);
    assert_eq!(m.state, ExecutionState::Error(BefreakError::NonBoolInControlStack));
    assert_eq!(m.control_stack, vec![5]);
}

#[test]
fn error_invalid_unduplicate() {
    let mut m = load("@(1(;");
    run(&mut m, 5);
    assert_eq!(m.state, ExecutionState::Error(BefreakError::InvalidUnduplicate));
    assert_eq!(m.stack, vec![1, 0]);
}

#[test]
fn error_invalid_pop_zero() {
    let mut m = load("@(1)");
    run(&mut m, 4);
    assert_eq!(m.state, ExecutionState::Error(BefreakError::InvalidPopZero));
    assert_eq!(m.stack, vec![1]);
}

#[test]
fn error_invalid_under() {
    let mut m = load("@(1((u");
    run(&mut m, 6);
    assert_eq!(m.state, ExecutionState::Error(BefreakError::InvalidUnder));
    assert_eq!(m.stack, vec![1, 0, 0]);
}

#[test]
fn error_invalid_string_removal() {
    let mut m = load("@(?\"a\"");
    run(&mut m, 4);
    assert_eq!(m.state, ExecutionState::Error(BefreakError::InvalidStringRemoval));
    assert_eq!(m.stack, vec![0]);
}

#[test]
fn self_inverse_opcodes_twice() {
    for op in ["ss", "~~", "##", "ff", "cc", "&&", "||"] {
        let text = format!("@(1(2(3 {}", op);
        let mut m = load(&text);
        run(&mut m, 7);
        assert_eq!(m.stack, vec![1, 2, 3]);
        run(&mut m, 1);
        assert_ne!(m.stack, vec![1, 2, 3], "{op} should change the stack once");
        run(&mut m, 1);
        assert_eq!(m.stack, vec![1, 2, 3], "{op} twice");
    }
}

#[test]
fn comparisons_twice_restore_control() {
    for (operands, op) in [("(3(3", "=="), ("(2(3", "ll"), ("(3(2", "gg")] {
        let text = format!("@(1[{} {}", operands, op);
        let mut m = load(&text);
        run(&mut m, 8);
        assert_eq!(m.control_stack, vec![1]);
        let before = m.stack.clone();
        run(&mut m, 1);
        assert_eq!(m.control_stack, vec![0], "{op} once");
        assert_eq!(m.stack, before);
        run(&mut m, 1);
        assert_eq!(m.control_stack, vec![1], "{op} twice");
        assert_eq!(m.stack, before);
    }
    let mut m = load("@(1[(3(2 l");
    run(&mut m, 9);
    assert_eq!(m.control_stack, vec![1]);
}

#[test]
fn stack_permutations() {
    let mut m = load("@(1(2(3d");
    run(&mut m, 7);
    assert_eq!(m.stack, vec![2, 3, 1]);
    let mut m = load("@(1(2(3b");
    run(&mut m, 7);
    assert_eq!(m.stack, vec![3, 1, 2]);
    let mut m = load("@(1(2(3f");
    run(&mut m, 7);
    assert_eq!(m.stack, vec![3, 2, 1]);
    let mut m = load("@(1(2(3c");
    run(&mut m, 7);
    assert_eq!(m.stack, vec![2, 1, 3]);
    let mut m = load("@(1(2o");
    run(&mut m, 5);
    assert_eq!(m.stack, vec![1, 2, 1]);
    let mut m = load("@(1(2ou");
    run(&mut m, 6);
    assert_eq!(m.stack, vec![1, 2]);
    let mut m = load("@(9:");
    run(&mut m, 3);
    assert_eq!(m.stack, vec![9, 9]);
    let mut m = load("@(9:;");
    run(&mut m, 4);
    assert_eq!(m.stack, vec![9]);
}

#[test]
fn arithmetic_and_bits() {
    let mut m = load("@(7(2+");
    run(&mut m, 5);
    assert_eq!(m.stack, vec![9, 2]);
    let mut m = load("@(7(2-");
    run(&mut m, 5);
    assert_eq!(m.stack, vec![5, 2]);
    let mut m = load("@(`");
    run(&mut m, 2);
    assert_eq!(m.stack, vec![-1]);
    let mut m = load("@(''");
    run(&mut m, 3);
    assert_eq!(m.stack, vec![2]);
    let mut m = load("@(12(10(6&");
    run(&mut m, 9);
    assert_eq!(m.stack, vec![12 ^ (10 & 6), 10, 6]);
    let mut m = load("@(12(10(6|");
    run(&mut m, 9);
    assert_eq!(m.stack, vec![12 ^ (10 | 6), 10, 6]);
    let mut m = load("@(12(10#");
    run(&mut m, 7);
    assert_eq!(m.stack, vec![12 ^ 10, 10]);
}

#[test]
fn increment_wraps_at_the_largest_value() {
    let mut m = load("@(9223372036854775807 '");
    run(&mut m, 21);
    assert_eq!(m.stack, vec![i64::MAX]);
    run(&mut m, 1);
    assert_eq!(m.stack, vec![i64::MIN]);
}

#[test]
fn rotations() {
    let mut m = load("@(1(3{");
    run(&mut m, 5);
    assert_eq!(m.stack, vec![8, 3]);
    let mut m = load("@(1(3{}");
    run(&mut m, 6);
    assert_eq!(m.stack, vec![1, 3]);
    let mut m = load("@(1(1}");
    run(&mut m, 5);
    assert_eq!(m.stack, vec![i64::MIN, 1]);
}

#[test]
fn transfers_between_stacks() {
    let mut m = load("@(4[");
    run(&mut m, 3);
    assert!(m.stack.is_empty());
    assert_eq!(m.control_stack, vec![4]);
    let mut m = load("@(4[]");
    run(&mut m, 4);
    assert_eq!(m.stack, vec![4]);
    assert!(m.control_stack.is_empty());
    let mut m = load("@(4[(5$");
    run(&mut m, 6);
    assert_eq!(m.stack, vec![4]);
    assert_eq!(m.control_stack, vec![5]);
    let mut m = load("@(1[!");
    run(&mut m, 4);
    assert_eq!(m.control_stack, vec![0]);
}

#[test]
fn mirrors_redirect() {
    let mut m = load("@\\\n  ");
    run(&mut m, 1);
    assert_eq!(m.direction, Direction::South);
    let mut m = load("@/\n  ");
    run(&mut m, 1);
    assert_eq!(m.direction, Direction::North);
}

#[test]
fn question_mark_toggles_inverse_mode() {
    let mut m = load("@?");
    run(&mut m, 1);
    assert!(m.inverse_mode);
}

#[test]
fn reversal_mid_run_undoes_the_current_cell() {
    let mut m = load("@(5 ");
    run(&mut m, 3);
    assert_eq!(m.stack, vec![5]);
    let mut m = load("@((");
    run(&mut m, 2);
    assert_eq!(m.stack, vec![0, 0]);
    m.checked_reverse_direction();
    assert_eq!(m.stack, vec![0]);
    assert!(m.inverse_mode);
    assert_eq!(m.direction, Direction::West);
}

#[test]
fn done_machine_starts_over_on_step() {
    let mut m = load("@(");
    run(&mut m, 2);
    assert_eq!(m.state, ExecutionState::Done);
    assert_eq!(m.stack, vec![0]);
    run(&mut m, 1);
    assert_eq!(m.state, ExecutionState::Running);
    assert_eq!(m.stack, vec![0]);
    assert_eq!(m.step, 1);
}

#[test]
fn load_pads_lines_and_skips_empty_ones() {
    let m = load("\n@ab\r\nc\n\n");
    assert_eq!(m.serialize(), "@ab\nc  \n");
    assert_eq!(m.start_pos, (0, 0));
    assert_eq!(m.location, (0, 0));
    assert_eq!(m.state, ExecutionState::NotStarted);
}

#[test]
fn load_finds_the_start_marker() {
    let m = load("   \n  @\n");
    assert_eq!(m.start_pos, (2, 1));
    assert_eq!(BefreakState::get_start_pos(&m.code), Some((2, 1)));
}

#[test]
fn load_rejects_missing_start() {
    assert!(matches!(
        BefreakState::new_from_string("abc\ndef"),
        Err(LoadError::MissingStart)
    ));
    assert!(matches!(BefreakState::new_from_string(""), Err(LoadError::MissingStart)));
}

#[test]
fn load_rejects_several_starts() {
    assert!(matches!(
        BefreakState::new_from_string("@ \n @"),
        Err(LoadError::MultipleStarts)
    ));
}

#[test]
fn empty_program() {
    let m = BefreakState::new_empty();
    assert_eq!(m.start_pos, (1, 1));
    let text = m.serialize();
    assert_eq!(text.lines().count(), 10);
    assert_eq!(text.lines().nth(1), Some(" @        "));
    assert!(text.lines().all(|l| l.len() == 10));
}

#[test]
fn reset_restores_the_start() {
    let mut m = load("@(1(2");
    run(&mut m, 4);
    m.reset();
    assert!(m.stack.is_empty());
    assert_eq!(m.location, (0, 0));
    assert_eq!(m.step, 0);
    assert_eq!(m.state, ExecutionState::NotStarted);
    assert_eq!(m.serialize(), "@(1(2\n");
}

#[test]
fn moves_wrap_around_the_edges() {
    let m = load("@  \n   ");
    assert_eq!(m.move_location((0, 0), Direction::West), (2, 0));
    assert_eq!(m.move_location((0, 0), Direction::North), (0, 1));
    assert_eq!(m.move_location((2, 1), Direction::East), (0, 1));
    assert_eq!(m.move_location((2, 1), Direction::South), (2, 0));
    assert_eq!(m.move_location((1, 0), Direction::East), (2, 0));
    assert_eq!(move_on_torus((4, 4), Direction::South, 5, 5), (4, 0));
}

#[test]
fn steps_on_the_plane() {
    assert_eq!(Direction::step_location(Direction::North, (3, 3)), (3, 2));
    assert_eq!(Direction::step_location(Direction::South, (3, 3)), (3, 4));
    assert_eq!(Direction::step_location(Direction::East, (3, 3)), (4, 3));
    assert_eq!(Direction::step_location(Direction::West, (3, 3)), (2, 3));
}

#[test]
fn headings_turn() {
    assert_eq!(Direction::North.opposite(), Direction::South);
    assert_eq!(Direction::East.back_mirror(), Direction::South);
    assert_eq!(Direction::East.forward_mirror(), Direction::North);
}

#[test]
fn inverse_table() {
    assert_eq!(inverse_of('('), ')');
    assert_eq!(inverse_of('%'), '*');
    assert_eq!(inverse_of('o'), 'u');
    assert_eq!(inverse_of('r'), ' ');
    assert_eq!(inverse_of('w'), 'w');
    assert_eq!(inverse_of('c'), 'c');
}
