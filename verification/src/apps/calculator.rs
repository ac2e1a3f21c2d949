//! The calculator: what each key does to the display, the pending
//! operator and the entry state. The number type `N` and its arithmetic
//! (parsing the display, applying an operator, formatting a result) are
//! handed in by the caller, which works in floating point.
use vstd::prelude::*;

use crate::text::{chars_of, push_char, string_of};

verus! {

/// Arithmetic operators the calculator understands.
#[derive(Clone, Copy, PartialEq, Eq, Debug, Structural)]
pub enum Op {
    Add,
    Sub,
    Mul,
    Div,
}

pub open spec fn spec_op_symbol(op: Op) -> Seq<char> {
    match op {
        Op::Add => "+"@,
        Op::Sub => "−"@,
        Op::Mul => "×"@,
        Op::Div => "÷"@,
    }
}

impl Op {
    /// The symbol shown on the display.
    pub fn symbol(self) -> (r: &'static str)
        ensures
            r@ == spec_op_symbol(self),
    {
        match self {
            Op::Add => "+",
            Op::Sub => "−",
            Op::Mul => "×",
            Op::Div => "÷",
        }
    }
}

/// A calculator key.
#[derive(Clone, Copy, PartialEq, Eq, Debug, Structural)]
pub enum Key {
    Digit(char),
    Decimal,
    Operator(Op),
    Percent,
    Equals,
    Negate,
    Clear,
    Backspace,
}

/// The key a typed character stands for: the digits, `.`, `+`, `-`, `*`
/// (also `x` and `X`), `/`, `%`, `=`, and `n` or `N` for negate.
pub open spec fn spec_typed_key(ch: char) -> Option<Key> {
    if '0' <= ch <= '9' {
        Some(Key::Digit(ch))
    } else if ch == '.' {
        Some(Key::Decimal)
    } else if ch == '+' {
        Some(Key::Operator(Op::Add))
    } else if ch == '-' {
        Some(Key::Operator(Op::Sub))
    } else if ch == '*' || ch == 'x' || ch == 'X' {
        Some(Key::Operator(Op::Mul))
    } else if ch == '/' {
        Some(Key::Operator(Op::Div))
    } else if ch == '%' {
        Some(Key::Percent)
    } else if ch == '=' {
        Some(Key::Equals)
    } else if ch == 'n' || ch == 'N' {
        Some(Key::Negate)
    } else {
        None
    }
}

/// The key a typed character stands for, if any; other characters are
/// ignored.
pub fn typed_key(ch: char) -> (r: Option<Key>)
    ensures
        r == spec_typed_key(ch),
{
    if '0' <= ch && ch <= '9' {
        Some(Key::Digit(ch))
    } else if ch == '.' {
        Some(Key::Decimal)
    } else if ch == '+' {
        Some(Key::Operator(Op::Add))
    } else if ch == '-' {
        Some(Key::Operator(Op::Sub))
    } else if ch == '*' || ch == 'x' || ch == 'X' {
        Some(Key::Operator(Op::Mul))
    } else if ch == '/' {
        Some(Key::Operator(Op::Div))
    } else if ch == '%' {
        Some(Key::Percent)
    } else if ch == '=' {
        Some(Key::Equals)
    } else if ch == 'n' || ch == 'N' {
        Some(Key::Negate)
    } else {
        None
    }
}

/// The keypad, row by row: each button's label and the key it presses.
pub open spec fn spec_keypad() -> Seq<Seq<(Seq<char>, Key)>> {
    seq![
        seq![("C"@, Key::Clear), ("±"@, Key::Negate), ("%"@, Key::Percent), ("÷"@, Key::Operator(Op::Div))],
        seq![("7"@, Key::Digit('7')), ("8"@, Key::Digit('8')), ("9"@, Key::Digit('9')), ("×"@, Key::Operator(Op::Mul))],
        seq![("4"@, Key::Digit('4')), ("5"@, Key::Digit('5')), ("6"@, Key::Digit('6')), ("−"@, Key::Operator(Op::Sub))],
        seq![("1"@, Key::Digit('1')), ("2"@, Key::Digit('2')), ("3"@, Key::Digit('3')), ("+"@, Key::Operator(Op::Add))],
        seq![("0"@, Key::Digit('0')), ("."@, Key::Decimal), ("="@, Key::Equals)],
    ]
}

/// The keypad's buttons, row by row, with the key each presses; the `0`
/// button is drawn double width.
pub fn keypad() -> (r: Vec<Vec<(&'static str, Key)>>)
    ensures
        r@.len() == spec_keypad().len(),
        forall|i: int|
            0 <= i < r@.len() ==> (#[trigger] r@[i])@.len() == spec_keypad()[i].len() && forall|j: int|
                0 <= j < r@[i]@.len() ==> (#[trigger] r@[i]@[j]).0@ == spec_keypad()[i][j].0 && r@[i]@[j].1
                    == spec_keypad()[i][j].1,
{
    let rows = vec![
        vec![("C", Key::Clear), ("±", Key::Negate), ("%", Key::Percent), ("÷", Key::Operator(Op::Div))],
        vec![("7", Key::Digit('7')), ("8", Key::Digit('8')), ("9", Key::Digit('9')), ("×", Key::Operator(Op::Mul))],
        vec![("4", Key::Digit('4')), ("5", Key::Digit('5')), ("6", Key::Digit('6')), ("−", Key::Operator(Op::Sub))],
        vec![("1", Key::Digit('1')), ("2", Key::Digit('2')), ("3", Key::Digit('3')), ("+", Key::Operator(Op::Add))],
        vec![("0", Key::Digit('0')), (".", Key::Decimal), ("=", Key::Equals)],
    ];
    rows
}

/// Where the calculator is in the "left op right = result" flow.
#[derive(Clone, Copy, PartialEq, Eq, Debug, Structural)]
pub enum Entry {
    /// Typing the first (or only) operand: digits append to the display.
    LeftOperand,
    /// An operator was just pressed: the next digit replaces the display.
    RightOperand,
    /// `=` was just pressed: the next digit starts a fresh calculation.
    Evaluated,
}

/// The calculator's state.
pub struct Calculator<N> {
    /// The number on screen.
    pub display: String,
    /// Left operand carried over from the last operator press.
    pub accumulator: Option<N>,
    /// Operator waiting for its right operand.
    pub pending_op: Option<Op>,
    pub entry: Entry,
    /// Latched on a failed operation (division by zero, overflow); only
    /// `C` (or backspace) clears it.
    pub error: bool,
}

/// The display after typing digit `c` into the left operand: a lone `0`
/// (or `-0`) is replaced, otherwise the digit is appended.
pub open spec fn with_digit(d: Seq<char>, c: char) -> Seq<char> {
    if d == seq!['0'] {
        seq![c]
    } else if d == seq!['-', '0'] {
        seq!['-', c]
    } else {
        d.push(c)
    }
}

/// The display with its sign flipped; `0` and `0.` stay as they are.
pub open spec fn spec_negate(d: Seq<char>) -> Seq<char> {
    if d == seq!['0'] || d == seq!['0', '.'] {
        d
    } else if d.len() > 0 && d[0] == '-' {
        d.drop_first()
    } else {
        seq!['-'] + d
    }
}

/// The display with its last character removed; nothing left (or a lone
/// `-`) shows `0`.
pub open spec fn spec_backspace(d: Seq<char>) -> Seq<char> {
    let e = if d.len() > 0 {
        d.drop_last()
    } else {
        d
    };
    if e.len() == 0 || e == seq!['-'] {
        seq!['0']
    } else {
        e
    }
}

/// The state after a failed operation: "Error" shown, nothing pending.
pub open spec fn is_error_state<N>(c: Calculator<N>) -> bool {
    &&& c.display@ == seq!['E', 'r', 'r', 'o', 'r']
    &&& c.accumulator is None
    &&& c.pending_op is None
    &&& c.entry == Entry::LeftOperand
    &&& c.error
}

/// The state after `C`: `0` shown, nothing pending, no error.
pub open spec fn is_cleared<N>(c: Calculator<N>) -> bool {
    &&& c.display@ == seq!['0']
    &&& c.accumulator is None
    &&& c.pending_op is None
    &&& c.entry == Entry::LeftOperand
    &&& !c.error
}

/// `x` is what `parse` makes of the display `d`.
pub open spec fn parsed<N, P: Fn(String) -> N>(parse: P, d: Seq<char>, x: N) -> bool {
    exists|s: String| s@ == d && call_ensures(parse, (s,), x)
}

/// Applying `p` to `a` and the parsed display `d` gives `r`.
pub open spec fn applied<N, P: Fn(String) -> N, A: Fn(N, N, Op) -> Result<N, ()>>(
    parse: P,
    apply: A,
    a: N,
    d: Seq<char>,
    p: Op,
    r: Result<N, ()>,
) -> bool {
    exists|rhs: N| parsed(parse, d, rhs) && call_ensures(apply, (a, rhs, p), r)
}

/// `t` is what `format` shows for `v`.
pub open spec fn formatted<N, F: Fn(N) -> String>(format: F, v: N, t: Seq<char>) -> bool {
    exists|s: String| s@ == t && call_ensures(format, (v,), s)
}

impl<N> Default for Calculator<N> {
    /// `0` shown, nothing pending.
    fn default() -> (c: Self)
        ensures
            is_cleared(c),
    {
        let display = String::from_str("0");
        proof {
            reveal_strlit("0");
        }
        assert(display@ =~= seq!['0']);
        Calculator { display, accumulator: None, pending_op: None, entry: Entry::LeftOperand, error: false }
    }
}

/// A string holding `c`.
fn one_char(c: char) -> (r: String)
    ensures
        r@ == seq![c],
{
    let mut r = String::new();
    push_char(&mut r, c);
    assert(r@ =~= seq![c]);
    r
}

/// Whether the string is exactly `t`.
fn is_text(s: &String, t: &str) -> (r: bool)
    ensures
        r == (s@ == t@),
{
    crate::text::str_eq(s.as_str(), t)
}

impl<N: Copy> Calculator<N> {
    /// Shows "Error" and drops what was pending; latched until `C`.
    fn set_error(&mut self)
        ensures
            is_error_state(*final(self)),
    {
        self.display = String::from_str("Error");
        proof {
            reveal_strlit("Error");
        }
        assert(self.display@ =~= seq!['E', 'r', 'r', 'o', 'r']);
        self.accumulator = None;
        self.pending_op = None;
        self.entry = Entry::LeftOperand;
        self.error = true;
    }

    /// A digit key: extends the left operand, or starts the right operand
    /// or a fresh calculation.
    pub fn press_digit(&mut self, d: char)
        ensures
            old(self).error ==> *final(self) == *old(self),
            !old(self).error ==> match old(self).entry {
                Entry::LeftOperand => final(self).display@ == with_digit(old(self).display@, d)
                    && final(self).accumulator == old(self).accumulator
                    && final(self).pending_op == old(self).pending_op && final(self).entry == Entry::LeftOperand,
                Entry::RightOperand => final(self).display@ == seq![d] && final(self).accumulator
                    == old(self).accumulator && final(self).pending_op == old(self).pending_op
                    && final(self).entry == Entry::LeftOperand,
                Entry::Evaluated => final(self).display@ == seq![d] && final(self).accumulator is None
                    && final(self).pending_op is None && final(self).entry == Entry::LeftOperand,
            },
            final(self).error == old(self).error,
    {
        if self.error {
            return;
        }
        match self.entry {
            Entry::LeftOperand => {
                proof {
                    reveal_strlit("0");
                    reveal_strlit("-0");
                }
                if is_text(&self.display, "0") {
                    assert(self.display@ =~= seq!['0']);
                    self.display = one_char(d);
                } else if is_text(&self.display, "-0") {
                    assert(self.display@ =~= seq!['-', '0']);
                    let mut t = one_char('-');
                    push_char(&mut t, d);
                    assert(t@ =~= seq!['-', d]);
                    self.display = t;
                } else {
                    assert(self.display@ != seq!['0']) by {
                        if self.display@ == seq!['0'] {
                            assert(self.display@ =~= "0"@);
                        }
                    }
                    assert(self.display@ != seq!['-', '0']) by {
                        if self.display@ == seq!['-', '0'] {
                            assert(self.display@ =~= "-0"@);
                        }
                    }
                    push_char(&mut self.display, d);
                }
            },
            Entry::RightOperand => {
                self.display = one_char(d);
                self.entry = Entry::LeftOperand;
            },
            Entry::Evaluated => {
                self.display = one_char(d);
                self.accumulator = None;
                self.pending_op = None;
                self.entry = Entry::LeftOperand;
            },
        }
    }

    /// The decimal point key: at most one point in the left operand; a new
    /// operand starts as `0.`.
    pub fn press_decimal(&mut self)
        ensures
            old(self).error ==> *final(self) == *old(self),
            !old(self).error ==> match old(self).entry {
                Entry::LeftOperand => final(self).display@ == (if old(self).display@.contains('.') {
                    old(self).display@
                } else {
                    old(self).display@.push('.')
                }) && final(self).accumulator == old(self).accumulator && final(self).pending_op
                    == old(self).pending_op && final(self).entry == Entry::LeftOperand,
                Entry::RightOperand => final(self).display@ == seq!['0', '.'] && final(self).accumulator
                    == old(self).accumulator && final(self).pending_op == old(self).pending_op
                    && final(self).entry == Entry::LeftOperand,
                Entry::Evaluated => final(self).display@ == seq!['0', '.'] && final(self).accumulator is None
                    && final(self).pending_op is None && final(self).entry == Entry::LeftOperand,
            },
            final(self).error == old(self).error,
    {
        if self.error {
            return;
        }
        match self.entry {
            Entry::LeftOperand => {
                let cv = chars_of(self.display.as_str());
                let mut has_point = false;
                let mut i: usize = 0;
                while i < cv.len()
                    invariant
                        i <= cv@.len(),
                        has_point == exists|k: int| 0 <= k < i && cv@[k] == '.',
                    decreases cv@.len() - i,
                {
                    if cv[i] == '.' {
                        has_point = true;
                    }
                    i = i + 1;
                }
                assert(has_point == self.display@.contains('.'));
                if !has_point {
                    push_char(&mut self.display, '.');
                }
            },
            Entry::RightOperand => {
                self.display = String::from_str("0.");
                proof {
                    reveal_strlit("0.");
                }
                assert(self.display@ =~= seq!['0', '.']);
                self.entry = Entry::LeftOperand;
            },
            Entry::Evaluated => {
                self.display = String::from_str("0.");
                proof {
                    reveal_strlit("0.");
                }
                assert(self.display@ =~= seq!['0', '.']);
                self.accumulator = None;
                self.pending_op = None;
                self.entry = Entry::LeftOperand;
            },
        }
    }

    /// An operator key. After a left operand with an operator already
    /// pending, that operation is done first (so `5 + 3 + 2` shows 8 then
    /// 10); right after an operator it just replaces the pending one.
    pub fn press_op<P: Fn(String) -> N, A: Fn(N, N, Op) -> Result<N, ()>, F: Fn(N) -> String>(
        &mut self,
        op: Op,
        parse: &P,
        apply: &A,
        format: &F,
    )
        requires
            forall|s: String| call_requires(*parse, (s,)),
            forall|a: N, b: N, o: Op| call_requires(*apply, (a, b, o)),
            forall|v: N| call_requires(*format, (v,)),
        ensures
            old(self).error ==> *final(self) == *old(self),
            !old(self).error ==> match old(self).entry {
                Entry::LeftOperand => match (old(self).accumulator, old(self).pending_op) {
                    (Some(a), Some(p)) => exists|r: Result<N, ()>|
                        applied(*parse, *apply, a, old(self).display@, p, r) && match r {
                            Ok(v) => formatted(*format, v, final(self).display@) && final(self).accumulator
                                == Some(v) && final(self).pending_op == Some(op) && final(self).entry
                                == Entry::RightOperand && !final(self).error,
                            Err(_) => is_error_state(*final(self)),
                        },
                    _ => final(self).accumulator matches Some(x) && parsed(*parse, old(self).display@, x)
                        && final(self).display == old(self).display && final(self).pending_op == Some(op)
                        && final(self).entry == Entry::RightOperand && !final(self).error,
                },
                Entry::RightOperand => final(self).display == old(self).display && final(self).accumulator
                    == old(self).accumulator && final(self).pending_op == Some(op) && final(self).entry
                    == Entry::RightOperand && !final(self).error,
                Entry::Evaluated => final(self).accumulator matches Some(x) && parsed(
                    *parse,
                    old(self).display@,
                    x,
                ) && final(self).display == old(self).display && final(self).pending_op == Some(op)
                    && final(self).entry == Entry::RightOperand && !final(self).error,
            },
    {
        if self.error {
            return;
        }
        match self.entry {
            Entry::LeftOperand => {
                match (self.accumulator, self.pending_op) {
                    (Some(acc), Some(pending)) => {
                        let ghost d = self.display@;
                        let s = self.display.clone();
                        let ghost sg = s;
                        let rhs = parse(s);
                        assert(parsed(*parse, d, rhs)) by {
                            assert(sg@ == d && call_ensures(*parse, (sg,), rhs));
                        }
                        let r = apply(acc, rhs, pending);
                        assert(applied(*parse, *apply, acc, d, pending, r));
                        match r {
                            Ok(result) => {
                                let t = format(result);
                                self.accumulator = Some(result);
                                self.display = t;
                            },
                            Err(()) => {
                                self.set_error();
                                return;
                            },
                        }
                    },
                    _ => {
                        let s = self.display.clone();
                        let x = parse(s);
                        self.accumulator = Some(x);
                    },
                }
            },
            Entry::RightOperand => {},
            Entry::Evaluated => {
                let s = self.display.clone();
                let x = parse(s);
                self.accumulator = Some(x);
            },
        }
        self.pending_op = Some(op);
        self.entry = Entry::RightOperand;
    }

    /// The `=` key: does the pending operation, if there is one.
    pub fn press_equals<P: Fn(String) -> N, A: Fn(N, N, Op) -> Result<N, ()>, F: Fn(N) -> String>(
        &mut self,
        parse: &P,
        apply: &A,
        format: &F,
    )
        requires
            forall|s: String| call_requires(*parse, (s,)),
            forall|a: N, b: N, o: Op| call_requires(*apply, (a, b, o)),
            forall|v: N| call_requires(*format, (v,)),
        ensures
            match (old(self).error, old(self).accumulator, old(self).pending_op) {
                (false, Some(a), Some(p)) => exists|r: Result<N, ()>|
                    applied(*parse, *apply, a, old(self).display@, p, r) && match r {
                        Ok(v) => formatted(*format, v, final(self).display@) && final(self).accumulator is None
                            && final(self).pending_op is None && final(self).entry == Entry::Evaluated
                            && !final(self).error,
                        Err(_) => is_error_state(*final(self)),
                    },
                _ => *final(self) == *old(self),
            },
    {
        if self.error {
            return;
        }
        match (self.accumulator, self.pending_op) {
            (Some(acc), Some(pending)) => {
                let ghost d = self.display@;
                let s = self.display.clone();
                let ghost sg = s;
                let rhs = parse(s);
                assert(parsed(*parse, d, rhs)) by {
                    assert(sg@ == d && call_ensures(*parse, (sg,), rhs));
                }
                let r = apply(acc, rhs, pending);
                assert(applied(*parse, *apply, acc, d, pending, r));
                match r {
                    Ok(result) => {
                        self.display = format(result);
                        self.accumulator = None;
                        self.pending_op = None;
                        self.entry = Entry::Evaluated;
                    },
                    Err(()) => self.set_error(),
                }
            },
            _ => {},
        }
    }

    /// The `±` key: flips the sign of the display, except on `0` and `0.`.
    pub fn press_negate(&mut self)
        ensures
            old(self).error ==> *final(self) == *old(self),
            !old(self).error ==> final(self).display@ == spec_negate(old(self).display@)
                && final(self).accumulator == old(self).accumulator && final(self).pending_op
                == old(self).pending_op && final(self).entry == old(self).entry,
            final(self).error == old(self).error,
    {
        if self.error {
            return;
        }
        proof {
            reveal_strlit("0");
            reveal_strlit("0.");
        }
        if is_text(&self.display, "0") || is_text(&self.display, "0.") {
            assert(self.display@ == seq!['0'] || self.display@ == seq!['0', '.']) by {
                if self.display@ == "0"@ {
                    assert(self.display@ =~= seq!['0']);
                } else {
                    assert(self.display@ =~= seq!['0', '.']);
                }
            }
            return;
        }
        assert(self.display@ != seq!['0'] && self.display@ != seq!['0', '.']) by {
            if self.display@ == seq!['0'] {
                assert("0"@ =~= seq!['0']);
            }
            if self.display@ == seq!['0', '.'] {
                assert("0."@ =~= seq!['0', '.']);
            }
        }
        let cv = chars_of(self.display.as_str());
        if cv.len() > 0 && cv[0] == '-' {
            let t = string_of(&cv.as_slice()[1..cv.len()]);
            assert(t@ =~= cv@.drop_first());
            self.display = t;
        } else {
            let mut t = one_char('-');
            crate::text::push_all(&mut t, &cv);
            self.display = t;
        }
    }

    /// The `%` key: divides the display by a hundred.
    pub fn press_percent<P: Fn(String) -> N, H: Fn(N) -> N, F: Fn(N) -> String>(
        &mut self,
        parse: &P,
        hundredth: &H,
        format: &F,
    )
        requires
            forall|s: String| call_requires(*parse, (s,)),
            forall|v: N| call_requires(*hundredth, (v,)),
            forall|v: N| call_requires(*format, (v,)),
        ensures
            old(self).error ==> *final(self) == *old(self),
            !old(self).error ==> (exists|x: N, y: N|
                parsed(*parse, old(self).display@, x) && call_ensures(*hundredth, (x,), y) && formatted(
                    *format,
                    y,
                    final(self).display@,
                )) && final(self).accumulator == old(self).accumulator && final(self).pending_op
                == old(self).pending_op && final(self).entry == old(self).entry,
            final(self).error == old(self).error,
    {
        if self.error {
            return;
        }
        let ghost d = self.display@;
        let s = self.display.clone();
        let x = parse(s);
        let y = hundredth(x);
        self.display = format(y);
        assert(parsed(*parse, d, x));
    }

    /// The `C` key: back to `0` with nothing pending and no error.
    pub fn press_clear(&mut self)
        ensures
            is_cleared(*final(self)),
    {
        self.display = String::from_str("0");
        proof {
            reveal_strlit("0");
        }
        assert(self.display@ =~= seq!['0']);
        self.accumulator = None;
        self.pending_op = None;
        self.entry = Entry::LeftOperand;
        self.error = false;
    }

    /// The backspace key: clears an error; otherwise removes the last
    /// character of the left operand.
    pub fn press_backspace(&mut self)
        ensures
            old(self).error ==> is_cleared(*final(self)),
            !old(self).error && old(self).entry != Entry::LeftOperand ==> *final(self) == *old(self),
            !old(self).error && old(self).entry == Entry::LeftOperand ==> final(self).display@ == spec_backspace(
                old(self).display@,
            ) && final(self).accumulator == old(self).accumulator && final(self).pending_op
                == old(self).pending_op && final(self).entry == old(self).entry && !final(self).error,
    {
        if self.error {
            self.press_clear();
            return;
        }
        if self.entry != Entry::LeftOperand {
            return;
        }
        let cv = chars_of(self.display.as_str());
        let n = if cv.len() > 0 {
            cv.len() - 1
        } else {
            0
        };
        let e = string_of(&cv.as_slice()[0..n]);
        assert(e@ =~= (if self.display@.len() > 0 {
            self.display@.drop_last()
        } else {
            self.display@
        }));
        proof {
            reveal_strlit("-");
            reveal_strlit("0");
        }
        if e.as_str().unicode_len() == 0 || is_text(&e, "-") {
            assert(e@.len() == 0 || e@ == seq!['-']) by {
                if e@ == "-"@ {
                    assert(e@ =~= seq!['-']);
                }
            }
            self.display = String::from_str("0");
            assert(self.display@ =~= seq!['0']);
        } else {
            assert(e@ != seq!['-']) by {
                if e@ == seq!['-'] {
                    assert("-"@ =~= seq!['-']);
                }
            }
            self.display = e;
        }
    }
}

/// Pressing `±` twice gives back the display, unless it is `0` or `0.`
/// (with or without a sign), which the key leaves alone, or starts with
/// two minus signs (which no key press produces).
pub proof fn law_negate_twice(d: Seq<char>)
    requires
        d != seq!['0'],
        d != seq!['0', '.'],
        d != seq!['-', '0'],
        d != seq!['-', '0', '.'],
        !(d.len() > 1 && d[0] == '-' && d[1] == '-'),
    ensures
        spec_negate(spec_negate(d)) == d,
{
    if d.len() > 0 && d[0] == '-' {
        let e = d.drop_first();
        assert(e != seq!['0']) by {
            if e == seq!['0'] {
                assert(e.len() == 1 && e[0] == '0');
                assert(d =~= seq!['-', '0']);
            }
        }
        assert(e != seq!['0', '.']) by {
            if e == seq!['0', '.'] {
                assert(e.len() == 2 && e[0] == '0' && e[1] == '.');
                assert(d =~= seq!['-', '0', '.']);
            }
        }
        assert(!(e.len() > 0 && e[0] == '-'));
        assert(seq!['-'] + e =~= d);
    } else {
        let e = seq!['-'] + d;
        assert(spec_negate(d) == e);
        assert(e[0] == '-');
        assert(e != seq!['0']) by {
            if e == seq!['0'] {
                assert(seq!['0'][0] == '0');
            }
        }
        assert(e != seq!['0', '.']) by {
            if e == seq!['0', '.'] {
                assert(seq!['0', '.'][0] == '0');
            }
        }
        assert(e.drop_first() =~= d);
    }
}

/// Some button of the keypad presses `k`.
pub open spec fn on_keypad(k: Key) -> bool {
    exists|i: int, j: int|
        0 <= i < spec_keypad().len() && 0 <= j < spec_keypad()[i].len() && #[trigger] spec_keypad()[i][j].1 == k
}

/// Typing on the keyboard presses the keypad: every button whose label
/// is one ASCII character other than `C` is pressed by typing that
/// character
/// (so `+` adds), the operators drawn as `−`, `×` and `÷` by `-`, by `*`,
/// `x` or `X`, and by `/`, and `±` by `n` or `N`; a typed character never
/// presses anything off the keypad, nor `C`, and a typed digit is that
/// digit; no other character presses anything.
pub proof fn law_typing_presses_the_keypad(ch: char)
    ensures
        forall|i: int, j: int|
            0 <= i < spec_keypad().len() && 0 <= j < spec_keypad()[i].len() && (#[trigger] spec_keypad()[i][j]).0.len()
                == 1 && (spec_keypad()[i][j].0[0] as u32) < 128 && spec_keypad()[i][j].1 != Key::Clear ==> spec_typed_key(spec_keypad()[i][j].0[0]) == Some(
                spec_keypad()[i][j].1,
            ),
        spec_typed_key('+') == Some(Key::Operator(Op::Add)),
        spec_typed_key('-') == Some(Key::Operator(Op::Sub)),
        spec_typed_key('*') == Some(Key::Operator(Op::Mul)),
        spec_typed_key('x') == Some(Key::Operator(Op::Mul)),
        spec_typed_key('X') == Some(Key::Operator(Op::Mul)),
        spec_typed_key('/') == Some(Key::Operator(Op::Div)),
        spec_typed_key('n') == Some(Key::Negate),
        spec_typed_key('N') == Some(Key::Negate),
        spec_typed_key(ch) matches Some(k) ==> on_keypad(k) && k != Key::Clear,
        spec_typed_key(ch) matches Some(Key::Digit(d)) ==> d == ch,
        spec_typed_key(ch) is Some ==> ('0' <= ch <= '9' || ch == '.' || ch == '+' || ch == '-' || ch == '*' || ch
            == 'x' || ch == 'X' || ch == '/' || ch == '%' || ch == '=' || ch == 'n' || ch == 'N'),
{
    reveal_strlit("C");
    reveal_strlit("±");
    reveal_strlit("%");
    reveal_strlit("÷");
    reveal_strlit("7");
    reveal_strlit("8");
    reveal_strlit("9");
    reveal_strlit("×");
    reveal_strlit("4");
    reveal_strlit("5");
    reveal_strlit("6");
    reveal_strlit("−");
    reveal_strlit("1");
    reveal_strlit("2");
    reveal_strlit("3");
    reveal_strlit("+");
    reveal_strlit("0");
    reveal_strlit(".");
    reveal_strlit("=");
    let kp = spec_keypad();
    assert forall|i: int, j: int|
        0 <= i < kp.len() && 0 <= j < kp[i].len() && (#[trigger] kp[i][j]).0.len() == 1 && (kp[i][j].0[0] as u32) < 128
            && kp[i][j].1 != Key::Clear implies spec_typed_key(kp[i][j].0[0]) == Some(kp[i][j].1) by {
        if i == 0 {
            if j == 0 {
                assert(kp[0][0] == spec_keypad()[0][0]);
            } else if j == 1 {
                assert(kp[0][1] == spec_keypad()[0][1]);
            } else if j == 2 {
                assert(kp[0][2] == spec_keypad()[0][2]);
            } else if j == 3 {
                assert(kp[0][3] == spec_keypad()[0][3]);
            }
        } else if i == 1 {
            if j == 0 {
                assert(kp[1][0] == spec_keypad()[1][0]);
            } else if j == 1 {
                assert(kp[1][1] == spec_keypad()[1][1]);
            } else if j == 2 {
                assert(kp[1][2] == spec_keypad()[1][2]);
            } else if j == 3 {
                assert(kp[1][3] == spec_keypad()[1][3]);
            }
        } else if i == 2 {
            if j == 0 {
                assert(kp[2][0] == spec_keypad()[2][0]);
            } else if j == 1 {
                assert(kp[2][1] == spec_keypad()[2][1]);
            } else if j == 2 {
                assert(kp[2][2] == spec_keypad()[2][2]);
            } else if j == 3 {
                assert(kp[2][3] == spec_keypad()[2][3]);
            }
        } else if i == 3 {
            if j == 0 {
                assert(kp[3][0] == spec_keypad()[3][0]);
            } else if j == 1 {
                assert(kp[3][1] == spec_keypad()[3][1]);
            } else if j == 2 {
                assert(kp[3][2] == spec_keypad()[3][2]);
            } else if j == 3 {
                assert(kp[3][3] == spec_keypad()[3][3]);
            }
        } else if i == 4 {
            if j == 0 {
                assert(kp[4][0] == spec_keypad()[4][0]);
            } else if j == 1 {
                assert(kp[4][1] == spec_keypad()[4][1]);
            } else if j == 2 {
                assert(kp[4][2] == spec_keypad()[4][2]);
            }
        }
    }
    if let Some(k) = spec_typed_key(ch) {
        if '0' <= ch <= '9' {
            assert(kp[4][0].1 == Key::Digit('0'));
            assert(kp[3][0].1 == Key::Digit('1'));
            assert(kp[3][1].1 == Key::Digit('2'));
            assert(kp[3][2].1 == Key::Digit('3'));
            assert(kp[2][0].1 == Key::Digit('4'));
            assert(kp[2][1].1 == Key::Digit('5'));
            assert(kp[2][2].1 == Key::Digit('6'));
            assert(kp[1][0].1 == Key::Digit('7'));
            assert(kp[1][1].1 == Key::Digit('8'));
            assert(kp[1][2].1 == Key::Digit('9'));
        } else {
            assert(kp[0][1].1 == Key::Negate);
            assert(kp[0][2].1 == Key::Percent);
            assert(kp[0][3].1 == Key::Operator(Op::Div));
            assert(kp[1][3].1 == Key::Operator(Op::Mul));
            assert(kp[2][3].1 == Key::Operator(Op::Sub));
            assert(kp[3][3].1 == Key::Operator(Op::Add));
            assert(kp[4][1].1 == Key::Decimal);
            assert(kp[4][2].1 == Key::Equals);
        }
    }
}

} // verus!
