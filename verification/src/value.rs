//! Primitive attribute values and their textual form.
use vstd::prelude::*;
use vstd::std_specs::cmp::PartialEqSpecImpl;
use vstd::string::StringExecFns;

verus! {

/// A primitive value carried by a plain attribute.
#[derive(Debug)]
pub enum Value {
    Str(String),
    Num(i64),
    Bool(bool),
    Null,
}

/// The mathematical content of a [`Value`].
pub enum ValueView {
    Str(Seq<char>),
    Num(int),
    Bool(bool),
    Null,
}

/// The character that stands for the decimal digit `d`.
pub open spec fn digit_char(d: nat) -> char {
    if d == 0 {
        '0'
    } else if d == 1 {
        '1'
    } else if d == 2 {
        '2'
    } else if d == 3 {
        '3'
    } else if d == 4 {
        '4'
    } else if d == 5 {
        '5'
    } else if d == 6 {
        '6'
    } else if d == 7 {
        '7'
    } else if d == 8 {
        '8'
    } else {
        '9'
    }
}

/// The decimal digits of `n`, most significant first, without leading zeros.
pub open spec fn decimal_digits(n: nat) -> Seq<char>
    decreases n,
{
    if n < 10 {
        seq![digit_char(n)]
    } else {
        decimal_digits(n / 10).push(digit_char(n % 10))
    }
}

/// The decimal form of an integer: a minus sign for negative numbers, then
/// the digits of the magnitude.
pub open spec fn decimal(n: int) -> Seq<char> {
    if n < 0 {
        seq!['-'] + decimal_digits((-n) as nat)
    } else {
        decimal_digits(n as nat)
    }
}

impl ValueView {
    /// The textual form of a value: a string is itself, a number is written
    /// in decimal, a boolean is `true` or `false`, and null is `null`.
    pub open spec fn text(self) -> Seq<char> {
        match self {
            ValueView::Str(s) => s,
            ValueView::Num(n) => decimal(n),
            ValueView::Bool(b) => if b {
                seq!['t', 'r', 'u', 'e']
            } else {
                seq!['f', 'a', 'l', 's', 'e']
            },
            ValueView::Null => seq!['n', 'u', 'l', 'l'],
        }
    }
}

impl View for Value {
    type V = ValueView;

    open spec fn view(&self) -> ValueView {
        match self {
            Value::Str(s) => ValueView::Str(s@),
            Value::Num(n) => ValueView::Num(*n as int),
            Value::Bool(b) => ValueView::Bool(*b),
            Value::Null => ValueView::Null,
        }
    }
}

/// The decimal digit `d` as a string.
fn digit_str(d: u64) -> (s: &'static str)
    requires
        d < 10,
    ensures
        s@ == seq![digit_char(d as nat)],
{
    proof {
        reveal_strlit("0");
        reveal_strlit("1");
        reveal_strlit("2");
        reveal_strlit("3");
        reveal_strlit("4");
        reveal_strlit("5");
        reveal_strlit("6");
        reveal_strlit("7");
        reveal_strlit("8");
        reveal_strlit("9");
    }
    if d == 0 {
        "0"
    } else if d == 1 {
        "1"
    } else if d == 2 {
        "2"
    } else if d == 3 {
        "3"
    } else if d == 4 {
        "4"
    } else if d == 5 {
        "5"
    } else if d == 6 {
        "6"
    } else if d == 7 {
        "7"
    } else if d == 8 {
        "8"
    } else {
        "9"
    }
}

/// Appends the decimal digits of `n` to `out`.
fn append_digits(out: &mut String, n: u64)
    ensures
        final(out)@ == old(out)@ + decimal_digits(n as nat),
    decreases n,
{
    if n >= 10 {
        append_digits(out, n / 10);
    }
    out.append(digit_str(n % 10));
}

/// Writes an integer in decimal.
pub fn decimal_string(n: i64) -> (s: String)
    ensures
        s@ == decimal(n as int),
{
    let mut out = String::new();
    if n < 0 {
        proof {
            reveal_strlit("-");
        }
        out.append("-");
        let magnitude: u64 = (-(n + 1)) as u64 + 1;
        append_digits(&mut out, magnitude);
    } else {
        append_digits(&mut out, n as u64);
    }
    out
}

impl Value {
    /// The textual form of the value.
    pub fn render(&self) -> (s: String)
        ensures
            s@ == self@.text(),
    {
        match self {
            Value::Str(text) => text.clone(),
            Value::Num(n) => decimal_string(*n),
            Value::Bool(b) => {
                proof {
                    reveal_strlit("true");
                    reveal_strlit("false");
                }
                if *b {
                    String::from_str("true")
                } else {
                    String::from_str("false")
                }
            },
            Value::Null => {
                proof {
                    reveal_strlit("null");
                }
                String::from_str("null")
            },
        }
    }
}

impl Clone for Value {
    fn clone(&self) -> (out: Self)
        ensures
            out@ == self@,
    {
        match self {
            Value::Str(text) => Value::Str(text.clone()),
            Value::Num(n) => Value::Num(*n),
            Value::Bool(b) => Value::Bool(*b),
            Value::Null => Value::Null,
        }
    }
}

impl PartialEq for Value {
    fn eq(&self, other: &Value) -> (b: bool) {
        match self {
            Value::Str(a) => match other {
                Value::Str(b) => *a == *b,
                _ => false,
            },
            Value::Num(a) => match other {
                Value::Num(b) => *a == *b,
                _ => false,
            },
            Value::Bool(a) => match other {
                Value::Bool(b) => *a == *b,
                _ => false,
            },
            Value::Null => match other {
                Value::Null => true,
                _ => false,
            },
        }
    }
}

impl PartialEqSpecImpl for Value {
    open spec fn obeys_eq_spec() -> bool {
        true
    }

    open spec fn eq_spec(&self, other: &Value) -> bool {
        self@ == other@
    }
}

} // verus!
