//! What the shell tells the user after each command line.
use vstd::prelude::*;

use crate::executor::ExecutionResult;
use crate::text::string_push;

verus! {

/// The character of a decimal digit.
pub open spec fn digit_char(d: nat) -> char {
    ((48 + d) as u8) as char
}

/// The decimal digits of a natural number, most significant first.
pub open spec fn digits(n: nat) -> Seq<char>
    decreases n,
{
    if n < 10 {
        seq![digit_char(n)]
    } else {
        digits(n / 10).push(digit_char(n % 10))
    }
}

/// The decimal text of an integer, with a minus sign when it is negative.
pub open spec fn decimal(n: int) -> Seq<char> {
    if n < 0 {
        seq!['-'] + digits((-n) as nat)
    } else {
        digits(n as nat)
    }
}

/// The number that a text of decimal digits stands for.
pub open spec fn decimal_value(s: Seq<char>) -> int
    decreases s.len(),
{
    if s.len() == 0 {
        0
    } else {
        decimal_value(s.drop_last()) * 10 + (s.last() as int - 48)
    }
}

/// A decimal digit character, `'0'` to `'9'`.
pub open spec fn is_digit(c: char) -> bool {
    '0' <= c && c <= '9'
}

/// The digits of a natural number are decimal digits, read back as that
/// number, and do not start with `0` unless the number is 0.
pub proof fn law_digits_read_back(n: nat)
    ensures
        decimal_value(digits(n)) == n,
        forall|i: int| 0 <= i < digits(n).len() ==> is_digit(#[trigger] digits(n)[i]),
        digits(n).len() > 0,
        n >= 10 ==> digits(n)[0] != '0',
    decreases n,
{
    if n < 10 {
        assert(digit_char(n) as int == 48 + n);
        assert(digits(n).drop_last() =~= Seq::<char>::empty());
        assert(decimal_value(Seq::<char>::empty()) == 0);
        assert(digits(n).last() == digit_char(n));
    } else {
        law_digits_read_back(n / 10);
        let d = digits(n / 10);
        assert(digit_char(n % 10) as int == 48 + n % 10);
        assert(digits(n).drop_last() == d);
        assert(digits(n).last() == digit_char(n % 10));
        assert(n == (n / 10) * 10 + n % 10);
        assert(decimal_value(digits(n)) == decimal_value(d) * 10 + (n % 10) as int);
        assert forall|i: int| 0 <= i < digits(n).len() implies is_digit(#[trigger] digits(n)[i]) by {
            if i < d.len() {
                assert(digits(n)[i] == d[i]);
            }
        }
        if n / 10 < 10 {
            assert(d[0] as int == 48 + n / 10);
        }
        assert(digits(n)[0] == d[0]);
    }
}

/// The decimal text of an integer is a minus sign exactly when it is
/// negative, followed by the digits of its magnitude.
pub proof fn law_decimal_sign(n: int)
    ensures
        n < 0 ==> decimal(n)[0] == '-' && decimal(n).drop_first() == digits((-n) as nat),
        n >= 0 ==> decimal(n) == digits(n as nat) && decimal(n)[0] != '-',
{
    if n < 0 {
        assert((seq!['-'] + digits((-n) as nat)).drop_first() =~= digits((-n) as nat));
    } else {
        law_digits_read_back(n as nat);
        assert(is_digit(digits(n as nat)[0]));
    }
}

fn digit(d: u64) -> (c: char)
    requires
        d < 10,
    ensures
        c == digit_char(d as nat),
{
    ((48 + d) as u8) as char
}

/// The decimal text of `n`.
pub fn decimal_string(n: i32) -> (r: String)
    ensures
        r@ == decimal(n as int),
{
    let magnitude: u64 = if n < 0 {
        (-(n as i64)) as u64
    } else {
        n as u64
    };
    let mut rest = magnitude;
    let mut acc: Vec<char> = Vec::new();
    while rest >= 10
        invariant
            digits(magnitude as nat) == digits(rest as nat) + acc@,
        decreases rest,
    {
        let ghost before = acc@;
        acc.insert(0, digit(rest % 10));
        assert(acc@ == seq![digit_char((rest % 10) as nat)] + before);
        assert(digits(rest as nat) == digits((rest / 10) as nat).push(digit_char((rest % 10) as nat)));
        assert(digits(rest as nat) + before =~= digits((rest / 10) as nat) + acc@);
        rest = rest / 10;
    }
    let ghost before = acc@;
    acc.insert(0, digit(rest));
    assert(acc@ =~= digits(rest as nat) + before);
    let mut r = String::new();
    if n < 0 {
        string_push(&mut r, '-');
    }
    let ghost prefix = r@;
    let mut i: usize = 0;
    while i < acc.len()
        invariant
            i <= acc@.len(),
            r@ == prefix + acc@.take(i as int),
        decreases acc@.len() - i,
    {
        string_push(&mut r, acc[i]);
        assert(acc@.take(i + 1) == acc@.take(i as int).push(acc@[i as int]));
        i = i + 1;
    }
    assert(acc@.take(acc@.len() as int) == acc@);
    r
}

/// What the shell does after a command line.
#[derive(Debug)]
pub enum ShellReply {
    /// Leave the shell.
    Stop,
    /// Prompt for the next line.
    Continue,
    /// Print this text, then prompt for the next line.
    Print(String),
}

/// The report of a finished line.
pub open spec fn finished_message(code: i32) -> Seq<char> {
    "Program Finished with code: "@ + decimal(code as int) + " \n"@
}

/// The shell stops when asked, reports the exit code of a line that ran,
/// and says nothing after an empty line.
pub fn shell_reply(result: ExecutionResult) -> (r: ShellReply)
    ensures
        result is ShellStop ==> r is Stop,
        result is Empty ==> r is Continue,
        result matches ExecutionResult::ShellRun { exit_code } ==> (r matches ShellReply::Print(m) && m@
            == finished_message(exit_code.0)),
{
    match result {
        ExecutionResult::ShellStop => ShellReply::Stop,
        ExecutionResult::Empty => ShellReply::Continue,
        ExecutionResult::ShellRun { exit_code } => {
            let mut m = String::from_str("Program Finished with code: ");
            let code = decimal_string(exit_code.code());
            m.append(code.as_str());
            m.append(" \n");
            ShellReply::Print(m)
        },
    }
}

} // verus!
