use digital_garden::apps::calculator::{keypad, typed_key, Calculator, Entry, Key, Op};

// The calculator window's floating-point arithmetic, which the keypad
// logic is handed.
fn apply_op(a: f64, b: f64, op: Op) -> Result<f64, ()> {
    let r = match op {
        Op::Add => a + b,
        Op::Sub => a - b,
        Op::Mul => a * b,
        Op::Div => {
            if b == 0.0 {
                return Err(());
            }
            a / b
        }
    };
    if !r.is_finite() {
        return Err(());
    }
    Ok(r)
}

fn format_number(n: f64) -> String {
    if !n.is_finite() {
        return "Error".to_string();
    }
    if n == 0.0 {
        return "0".to_string();
    }
    if n.fract() == 0.0 && n.abs() < 1e15 {
        return format!("{}", n as i64);
    }
    let s = format!("{:.10}", n);
    s.trim_end_matches('0').trim_end_matches('.').to_string()
}

fn parse(s: String) -> f64 {
    s.parse::<f64>().unwrap_or(0.0)
}

fn hundredth(n: f64) -> f64 {
    n / 100.0
}

fn press(calc: &mut Calculator<f64>, ch: char) {
    match ch {
        '0'..='9' => calc.press_digit(ch),
        '.' => calc.press_decimal(),
        '+' => calc.press_op(Op::Add, &parse, &apply_op, &format_number),
        '-' => calc.press_op(Op::Sub, &parse, &apply_op, &format_number),
        '*' => calc.press_op(Op::Mul, &parse, &apply_op, &format_number),
        '/' => calc.press_op(Op::Div, &parse, &apply_op, &format_number),
        '=' => calc.press_equals(&parse, &apply_op, &format_number),
        'C' => calc.press_clear(),
        'n' => calc.press_negate(),
        '%' => calc.press_percent(&parse, &hundredth, &format_number),
        'B' => calc.press_backspace(),
        ' ' => {}
        other => panic!("unknown key {other:?}"),
    }
}

/// Walk a key sequence through the state machine.
fn run(keys: &str) -> String {
    let mut calc = Calculator::default();
    for ch in keys.chars() {
        press(&mut calc, ch);
    }
    calc.display
}

#[test]
fn addition() {
    assert_eq!(run("5+3="), "8");
}

#[test]
fn subtraction() {
    assert_eq!(run("10-7="), "3");
}

#[test]
fn multiplication() {
    assert_eq!(run("6*7="), "42");
}

#[test]
fn division() {
    assert_eq!(run("20/4="), "5");
}

#[test]
fn division_direction_is_correct() {
    assert_eq!(run("8/2="), "4");
}

#[test]
fn division_by_zero_is_error_not_panic() {
    assert_eq!(run("8/0="), "Error");
}

#[test]
fn decimals_are_supported() {
    assert_eq!(run("0.5+0.25="), "0.75");
}

#[test]
fn chained_operators_left_to_right() {
    assert_eq!(run("5+3+2="), "10");
    assert_eq!(run("5+3*2="), "16");
    assert_eq!(run("10-3+2="), "9");
}

#[test]
fn zero_digit_does_not_double_up() {
    assert_eq!(run("00"), "0");
    assert_eq!(run("000"), "0");
}

#[test]
fn decimal_only_once() {
    assert_eq!(run("1.2.3"), "1.23");
}

#[test]
fn negate_toggles_sign() {
    assert_eq!(run("5n"), "-5");
    assert_eq!(run("5nn"), "5");
}

#[test]
fn negate_on_zero_is_noop() {
    assert_eq!(run("n"), "0");
}

#[test]
fn percent_divides_by_100() {
    assert_eq!(run("50%"), "0.5");
}

#[test]
fn clear_resets_everything() {
    assert_eq!(run("5+3C"), "0");
    assert_eq!(run("5+3C7+2="), "9");
}

#[test]
fn backspace_drops_last_digit() {
    assert_eq!(run("123B"), "12");
    assert_eq!(run("1B"), "0");
}

#[test]
fn equals_starts_fresh_calculation_on_next_digit() {
    assert_eq!(run("5+3=7"), "7");
    assert_eq!(run("5+3=7+1="), "8");
}

#[test]
fn equals_with_no_pending_op_is_noop() {
    assert_eq!(run("5="), "5");
}

#[test]
fn operator_after_equals_uses_previous_result() {
    assert_eq!(run("5+3=*2="), "16");
}

#[test]
fn double_operator_just_swaps_the_pending_one() {
    assert_eq!(run("5+-3="), "2");
}

#[test]
fn error_latches_until_clear() {
    let mut calc = Calculator::default();
    for ch in "8/0=".chars() {
        press(&mut calc, ch);
    }
    assert_eq!(calc.display, "Error");
    calc.press_digit('5');
    assert_eq!(calc.display, "Error");
    calc.press_clear();
    calc.press_digit('5');
    assert_eq!(calc.display, "5");
}

#[test]
fn keypad_edge_cases() {
    // A negated zero takes the next digit in place of the zero.
    let mut calc = Calculator::<f64>::default();
    calc.display = "-0".into();
    calc.press_digit('7');
    assert_eq!(calc.display, "-7");
    // Backspace over a lone minus sign shows zero; an error is cleared.
    assert_eq!(run("5nB"), "0");
    assert_eq!(run("12nB"), "-1");
    assert_eq!(run("8/0=B"), "0");
    // A decimal point right after an operator starts "0.".
    assert_eq!(run("5+.5="), "5.5");
    let mut calc = Calculator::<f64>::default();
    for ch in "5+".chars() {
        press(&mut calc, ch);
    }
    assert_eq!(calc.entry, Entry::RightOperand);
    assert_eq!(calc.pending_op, Some(Op::Add));
}

#[test]
fn typed_characters_map_to_keys() {
    assert_eq!(typed_key('7'), Some(Key::Digit('7')));
    assert_eq!(typed_key('.'), Some(Key::Decimal));
    assert_eq!(typed_key('x'), Some(Key::Operator(Op::Mul)));
    assert_eq!(typed_key('X'), Some(Key::Operator(Op::Mul)));
    assert_eq!(typed_key('*'), Some(Key::Operator(Op::Mul)));
    assert_eq!(typed_key('-'), Some(Key::Operator(Op::Sub)));
    assert_eq!(typed_key('/'), Some(Key::Operator(Op::Div)));
    assert_eq!(typed_key('%'), Some(Key::Percent));
    assert_eq!(typed_key('='), Some(Key::Equals));
    assert_eq!(typed_key('N'), Some(Key::Negate));
    assert_eq!(typed_key('c'), None);
    assert_eq!(typed_key(' '), None);
}

#[test]
fn keypad_rows_press_their_keys() {
    let rows = keypad();
    let labels: Vec<Vec<&str>> = rows.iter().map(|r| r.iter().map(|b| b.0).collect()).collect();
    assert_eq!(
        labels,
        vec![
            vec!["C", "±", "%", "÷"],
            vec!["7", "8", "9", "×"],
            vec!["4", "5", "6", "−"],
            vec!["1", "2", "3", "+"],
            vec!["0", ".", "="],
        ]
    );
    assert_eq!(rows[0][0].1, Key::Clear);
    assert_eq!(rows[0][3].1, Key::Operator(Op::Div));
    assert_eq!(rows[2][3].1, Key::Operator(Op::Sub));
    assert_eq!(rows[4][0].1, Key::Digit('0'));
    assert_eq!(rows[4][2].1, Key::Equals);
}
