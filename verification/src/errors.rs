//! Diagnostic formatting: the text the error-reporting collaborator writes
//! for a `(line, message)` pair. Writing it to the diagnostic stream is the
//! caller's business.
use vstd::prelude::*;

verus! {

/// The decimal digit character for `d`.
pub open spec fn digit_char(d: nat) -> char {
    if d == 0 {
        '0'
    } else if d == 1 {
        '1'
    } else if d == 2 {
        '2'
    } else if d == 3 {
        '3'
    } else if d == 4 {
        '4'
    } else if d == 5 {
        '5'
    } else if d == 6 {
        '6'
    } else if d == 7 {
        '7'
    } else if d == 8 {
        '8'
    } else {
        '9'
    }
}

/// The decimal rendering of `n`, most significant digit first, no sign and
/// no padding.
pub open spec fn decimal(n: nat) -> Seq<char>
    decreases n,
{
    if n < 10 {
        seq![digit_char(n)]
    } else {
        decimal(n / 10).push(digit_char(n % 10))
    }
}

/// The decimal rendering of `n`.
fn decimal_string(n: usize) -> (r: std::string::String)
    ensures
        r@ == decimal(n as nat),
    decreases n,
{
    let d = n % 10;
    let digit: &str = if d == 0 {
        "0"
    } else if d == 1 {
        "1"
    } else if d == 2 {
        "2"
    } else if d == 3 {
        "3"
    } else if d == 4 {
        "4"
    } else if d == 5 {
        "5"
    } else if d == 6 {
        "6"
    } else if d == 7 {
        "7"
    } else if d == 8 {
        "8"
    } else {
        "9"
    };
    proof {
        reveal_strlit("0");
        reveal_strlit("1");
        reveal_strlit("2");
        reveal_strlit("3");
        reveal_strlit("4");
        reveal_strlit("5");
        reveal_strlit("6");
        reveal_strlit("7");
        reveal_strlit("8");
        reveal_strlit("9");
        assert(digit@ =~= seq![digit_char((n % 10) as nat)]);
    }
    if n < 10 {
        String::from_str(digit)
    } else {
        let mut s = decimal_string(n / 10);
        s.append(digit);
        proof {
            assert(s@ =~= decimal((n / 10) as nat).push(digit_char((n % 10) as nat)));
        }
        s
    }
}

/// The diagnostic line `[line {line}] Error{where}: {message}`.
pub fn report(line: usize, where_: &str, message: &str) -> (r: std::string::String)
    ensures
        r@ == "[line "@ + decimal(line as nat) + "] Error"@ + where_@ + ": "@ + message@,
{
    let mut s = String::from_str("[line ");
    let num = decimal_string(line);
    s.append(num.as_str());
    s.append("] Error");
    s.append(where_);
    s.append(": ");
    s.append(message);
    s
}

/// The diagnostic line for an error with no contextual location:
/// `[line {line}] Error: {message}`.
pub fn error(line: usize, message: &str) -> (r: std::string::String)
    ensures
        r@ == "[line "@ + decimal(line as nat) + "] Error: "@ + message@,
{
    let r = report(line, "", message);
    proof {
        reveal_strlit("] Error");
        reveal_strlit("");
        reveal_strlit(": ");
        reveal_strlit("] Error: ");
        assert(r@ =~= "[line "@ + decimal(line as nat) + "] Error: "@ + message@);
    }
    r
}

} // verus!
