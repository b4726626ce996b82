use bf::engine::{State, Transfer, step};
use bf::error::ErrorKind;
use bf::{create_bracket_map, run, run_with_limit};

fn chars(s: &str) -> Vec<char> {
    s.chars().collect()
}

#[test]
fn comment_only_program_leaves_tape_zero_and_writes_nothing() {
    let state = run("hello world  no code here", "").unwrap();
    assert!(state.memory.iter().all(|&c| c == 0));
    assert_eq!(state.memory.len(), 1024);
    assert_eq!(state.output, "");
    assert_eq!(state.cursor(), 0);
    assert_eq!(state.input_pos, 0);
}

#[test]
fn increments_then_output_write_count_mod_256() {
    let program = format!("{}.", "+".repeat(256));
    let state = run(&program, "").unwrap();
    assert_eq!(state.output, "\u{0}");
    assert_eq!(state.memory[0], 0);

    let program = format!("{}.", "+".repeat(300));
    let state = run(&program, "").unwrap();
    assert_eq!(state.output.chars().collect::<Vec<_>>(), vec!['\u{2c}']);
    assert_eq!(state.memory[0], 44);

    let program = format!("{}.", "+".repeat(7));
    let state = run(&program, "").unwrap();
    assert_eq!(state.output, "\u{7}");
}

#[test]
fn decrement_on_zero_wraps_to_255() {
    let program = "-.";
    let state = run(program, "").unwrap();
    assert_eq!(state.memory[0], 255);
    assert_eq!(state.output, "\u{ff}");
}

#[test]
fn left_at_cell_zero_keeps_cursor() {
    let state = run("<<<", "").unwrap();
    assert_eq!(state.cursor(), 0);
    let state = run("<<<+", "").unwrap();
    assert_eq!(state.memory[0], 1);
}

#[test]
fn right_at_last_cell_keeps_cursor() {
    let program = format!("{}>>+", ">".repeat(1023));
    let state = run(&program, "").unwrap();
    assert_eq!(state.cursor(), 1023);
    assert_eq!(state.memory[1023], 1);
    assert_eq!(state.memory[1022], 0);
}

#[test]
fn bracket_table_is_a_bijection() {
    let program = chars("a[[-]b[]]c[]");
    let m = create_bracket_map(&program).unwrap();
    assert_eq!(m.len(), 8);
    for (i, &c) in program.iter().enumerate() {
        if c == '[' || c == ']' {
            let j = *m.get(&i).unwrap();
            assert_eq!(*m.get(&j).unwrap(), i);
            if c == '[' {
                assert!(j > i);
                assert_eq!(program[j], ']');
            } else {
                assert!(j < i);
                assert_eq!(program[j], '[');
            }
        } else {
            assert!(m.get(&i).is_none());
        }
    }
}

#[test]
fn bracket_table_twice_is_identical() {
    let program = chars("+[>[-]<[.]]");
    let a = create_bracket_map(&program).unwrap();
    let b = create_bracket_map(&program).unwrap();
    assert_eq!(a, b);
}

#[test]
fn bracket_table_of_program_without_brackets_is_empty() {
    let m = create_bracket_map(&chars("+-.,<>")).unwrap();
    assert!(m.is_empty());
}

#[test]
fn zero_cell_skips_loop_body() {
    let state = run("[+]", "").unwrap();
    assert!(state.memory.iter().all(|&c| c == 0));
    assert_eq!(state.output, "");
    let state = run("[.+>,]", "").unwrap();
    assert!(state.memory.iter().all(|&c| c == 0));
    assert_eq!(state.output, "");
    assert_eq!(state.cursor(), 0);
}

#[test]
fn copy_loop_moves_three() {
    let state = run("+++[->+<]", "").unwrap();
    assert_eq!(state.memory[0], 0);
    assert_eq!(state.memory[1], 3);
}

#[test]
fn read_on_empty_input_fails() {
    assert_eq!(run(",", "").unwrap_err(), "入力が与えられませんでした。");
    assert_eq!(run(",+.", "").unwrap_err(), ErrorKind::InputExhausted.message());
}

#[test]
fn unmatched_brackets_fail_before_running() {
    assert_eq!(run("[[", "").unwrap_err(), "`[`に対応する`]`が見つかりません。");
    assert_eq!(run("]", "").unwrap_err(), "`]`に対応する`[`が見つかりません。");
    // the reads would fail if anything ran
    assert_eq!(run(",]", "").unwrap_err(), "`]`に対応する`[`が見つかりません。");
    assert_eq!(run(",[", "").unwrap_err(), "`[`に対応する`]`が見つかりません。");
    // a close that underflows is reported even when opens follow
    assert_eq!(run("][[", "").unwrap_err(), "`]`に対応する`[`が見つかりません。");
}

#[test]
fn plus_then_output_writes_one_unit() {
    let state = run("+.", "").unwrap();
    assert_eq!(state.output.chars().count(), 1);
    assert_eq!(state.output, "\u{1}");
}

#[test]
fn input_keeps_low_eight_bits() {
    let state = run(",>,", "\u{101}A").unwrap();
    assert_eq!(state.memory[0], 1);
    assert_eq!(state.memory[1], 65);
    assert_eq!(state.input_pos, 2);
}

#[test]
fn step_budget_stops_endless_loop() {
    assert_eq!(
        run_with_limit("+[]", "", 100).unwrap_err(),
        "実行ステップ数の上限に達しました。"
    );
    let state = run_with_limit("+++", "", 3).unwrap();
    assert_eq!(state.memory[0], 3);
    assert_eq!(
        run_with_limit("+++", "", 2).unwrap_err(),
        ErrorKind::StepLimitReached.message()
    );
}

#[test]
fn step_reports_transfer() {
    let program = chars("-[+]");
    let table = create_bracket_map(&program).unwrap();
    let input: Vec<char> = Vec::new();
    let mut state = State::new();
    assert_eq!(step(&mut state, &program, &table, 0, &input), Ok(Transfer::Advance));
    assert_eq!(state.memory[0], 255);
    assert_eq!(step(&mut state, &program, &table, 1, &input), Ok(Transfer::Advance));
    state.memory[0] = 0;
    assert_eq!(step(&mut state, &program, &table, 1, &input), Ok(Transfer::JumpTo(3)));
    assert_eq!(step(&mut state, &program, &table, 3, &input), Ok(Transfer::Advance));
    state.memory[0] = 5;
    assert_eq!(step(&mut state, &program, &table, 3, &input), Ok(Transfer::JumpTo(1)));
}

#[test]
fn step_read_without_input_fails() {
    let program = chars(",");
    let table = create_bracket_map(&program).unwrap();
    let input: Vec<char> = Vec::new();
    let mut state = State::new();
    assert_eq!(
        step(&mut state, &program, &table, 0, &input),
        Err(ErrorKind::InputExhausted.message())
    );
}

#[test]
fn error_messages_are_distinct() {
    let all = [
        ErrorKind::UnmatchedClose,
        ErrorKind::UnmatchedOpen,
        ErrorKind::InputExhausted,
        ErrorKind::StepLimitReached,
    ];
    for a in all.iter() {
        for b in all.iter() {
            assert_eq!(a == b, a.message() == b.message());
        }
    }
}
