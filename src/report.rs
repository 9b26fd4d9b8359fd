use crate::ast::{Position, Span};
use crate::parser::SyntaxError;
use vstd::prelude::*;
use vstd::string::StringExecFns;

verus! {

/// The character of a decimal digit.
pub open spec fn digit_char(d: nat) -> char {
    seq!['0', '1', '2', '3', '4', '5', '6', '7', '8', '9'][d as int]
}

/// The decimal numeral of `n`, without leading zeros.
pub open spec fn decimal(n: nat) -> Seq<char>
    decreases n,
{
    if n < 10 {
        seq![digit_char(n)]
    } else {
        decimal(n / 10).push(digit_char(n % 10))
    }
}

/// A position written as `line:column`.
pub open spec fn position_text(p: Position) -> Seq<char> {
    decimal(p.line as nat) + ":"@ + decimal(p.column as nat)
}

/// A range written as `start-end`.
pub open spec fn span_text(s: Span) -> Seq<char> {
    position_text(s.start) + "-"@ + position_text(s.end)
}

/// The message of an error that points at a place: the place in parentheses,
/// then what went wrong.
pub open spec fn located(place: Seq<char>, what: Seq<char>) -> Seq<char> {
    "Syntax error: ("@ + place + ") "@ + what
}

/// The message that reports an error to a person.
pub open spec fn message_text(e: SyntaxError) -> Seq<char> {
    match e {
        SyntaxError::NoTokensFound => "Syntax error: No tokens found"@,
        SyntaxError::UnexpectedToken(s) => located(span_text(s), "Unexpected token"@),
        SyntaxError::UnexpectedEndOfLine(p) => located(position_text(p), "Unexpected end of line"@),
        SyntaxError::ExpectedEquals(s) => located(span_text(s), "Expected `=`"@),
        SyntaxError::ExpectedIdentifier(s) => located(span_text(s), "Expected identifier"@),
        SyntaxError::ExpectedExpression(s) => located(span_text(s), "Expected expression"@),
    }
}

fn digit_str(d: usize) -> (r: &'static str)
    requires
        d < 10,
    ensures
        r@ == seq![digit_char(d as nat)],
{
    let r = match d {
            0 => {
                proof {
                    reveal_strlit("0");
                }
                "0"
            },
            1 => {
                proof {
                    reveal_strlit("1");
                }
                "1"
            },
            2 => {
                proof {
                    reveal_strlit("2");
                }
                "2"
            },
            3 => {
                proof {
                    reveal_strlit("3");
                }
                "3"
            },
            4 => {
                proof {
                    reveal_strlit("4");
                }
                "4"
            },
            5 => {
                proof {
                    reveal_strlit("5");
                }
                "5"
            },
            6 => {
                proof {
                    reveal_strlit("6");
                }
                "6"
            },
            7 => {
                proof {
                    reveal_strlit("7");
                }
                "7"
            },
            8 => {
                proof {
                    reveal_strlit("8");
                }
                "8"
            },
            _ => {
                proof {
                    reveal_strlit("9");
                }
                "9"
            },
        };
    assert(r@ =~= seq![digit_char(d as nat)]);
    r
}

fn push_decimal(out: &mut String, n: usize)
    ensures
        final(out)@ == old(out)@ + decimal(n as nat),
    decreases n,
{
    if n >= 10 {
        push_decimal(out, n / 10);
    }
    out.append(digit_str(n % 10));
    assert(final(out)@ =~= old(out)@ + decimal(n as nat));
}

fn push_position(out: &mut String, p: Position)
    ensures
        final(out)@ == old(out)@ + position_text(p),
{
    push_decimal(out, p.line);
    out.append(":");
    push_decimal(out, p.column);
    assert(final(out)@ =~= old(out)@ + position_text(p));
}

fn push_span(out: &mut String, s: Span)
    ensures
        final(out)@ == old(out)@ + span_text(s),
{
    push_position(out, s.start);
    out.append("-");
    push_position(out, s.end);
    assert(final(out)@ =~= old(out)@ + span_text(s));
}

fn located_message(s: Span, what: &str) -> (r: String)
    ensures
        r@ == located(span_text(s), what@),
{
    let mut out = "Syntax error: (".to_owned();
    push_span(&mut out, s);
    out.append(") ");
    out.append(what);
    assert(out@ =~= located(span_text(s), what@));
    out
}

impl SyntaxError {
    /// The message that reports this error to a person.
    pub fn message(&self) -> (r: String)
        ensures
            r@ == message_text(*self),
    {
        match *self {
            SyntaxError::NoTokensFound => "Syntax error: No tokens found".to_owned(),
            SyntaxError::UnexpectedToken(s) => located_message(s, "Unexpected token"),
            SyntaxError::UnexpectedEndOfLine(p) => {
                let mut out = "Syntax error: (".to_owned();
                push_position(&mut out, p);
                out.append(") ");
                out.append("Unexpected end of line");
                assert(out@ =~= message_text(*self));
                out
            },
            SyntaxError::ExpectedEquals(s) => located_message(s, "Expected `=`"),
            SyntaxError::ExpectedIdentifier(s) => located_message(s, "Expected identifier"),
            SyntaxError::ExpectedExpression(s) => located_message(s, "Expected expression"),
        }
    }
}

} // verus!
