//! Textual rendering of runtime values: the "display" rendering prints the
//! bare value, the "debug" rendering prefixes the variant name. Also the
//! rendering of a whole stack, bottom to top, ending in the `<- Top` marker.

use vstd::prelude::*;
use vstd::string::StringExecFns;

use crate::data::Data;

verus! {

/// The decimal digit character for `d`, for `0 <= d <= 9`.
pub open spec fn digit_char(d: int) -> char
    recommends
        0 <= d <= 9,
{
    if d == 0 {
        '0'
    } else if d == 1 {
        '1'
    } else if d == 2 {
        '2'
    } else if d == 3 {
        '3'
    } else if d == 4 {
        '4'
    } else if d == 5 {
        '5'
    } else if d == 6 {
        '6'
    } else if d == 7 {
        '7'
    } else if d == 8 {
        '8'
    } else {
        '9'
    }
}

/// The decimal rendering of a natural number, without sign or padding.
pub open spec fn dec_nat(n: nat) -> Seq<char>
    decreases n,
{
    if n < 10 {
        seq![digit_char(n as int)]
    } else {
        dec_nat(n / 10).push(digit_char((n % 10) as int))
    }
}

/// The decimal rendering of a signed integer: a leading `-` for negative
/// values, then the digits of the magnitude.
pub open spec fn dec_int(x: int) -> Seq<char> {
    if x < 0 {
        seq!['-'] + dec_nat((-x) as nat)
    } else {
        dec_nat(x as nat)
    }
}

/// The display rendering: only the underlying value.
pub open spec fn display_text(d: Data) -> Seq<char> {
    match d {
        Data::Int(x) => dec_int(x as int),
        Data::Char(c) => seq![c],
    }
}

/// The debug rendering: the variant name round the underlying value.
pub open spec fn debug_text(d: Data) -> Seq<char> {
    match d {
        Data::Int(x) => "Int("@ + dec_int(x as int) + ")"@,
        Data::Char(c) => "Char("@ + seq![c] + ")"@,
    }
}

/// The renderings of the values of a stack, bottom to top, each followed
/// by one space.
pub open spec fn values_text(s: Seq<Data>) -> Seq<char>
    decreases s.len(),
{
    if s.len() == 0 {
        Seq::<char>::empty()
    } else {
        values_text(s.drop_last()) + display_text(s.last()) + " "@
    }
}

/// The rendering of a whole stack: the values bottom to top, then the
/// `<- Top` marker.
pub open spec fn stack_text(s: Seq<Data>) -> Seq<char> {
    values_text(s) + "<- Top"@
}

/// Relies on `String::push`: appends exactly the given character.
#[verifier::external_body]
fn push_char(s: &mut String, c: char)
    ensures
        final(s)@ == old(s)@.push(c),
{
    s.push(c)
}

/// Append the digit character for `d` to `out`.
fn push_digit(out: &mut String, d: u32)
    requires
        d <= 9,
    ensures
        final(out)@ == old(out)@.push(digit_char(d as int)),
{
    let c: char = if d == 0 {
        '0'
    } else if d == 1 {
        '1'
    } else if d == 2 {
        '2'
    } else if d == 3 {
        '3'
    } else if d == 4 {
        '4'
    } else if d == 5 {
        '5'
    } else if d == 6 {
        '6'
    } else if d == 7 {
        '7'
    } else if d == 8 {
        '8'
    } else {
        '9'
    };
    push_char(out, c);
}

/// Append the decimal rendering of `n` to `out`.
fn push_dec_u32(out: &mut String, n: u32)
    ensures
        final(out)@ == old(out)@ + dec_nat(n as nat),
    decreases n,
{
    if n >= 10 {
        push_dec_u32(out, n / 10);
    }
    push_digit(out, n % 10);
    proof {
        assert(out@ =~= old(out)@ + dec_nat(n as nat));
    }
}

/// Append the display rendering of `d` to `out`.
pub fn push_display(out: &mut String, d: Data)
    ensures
        final(out)@ == old(out)@ + display_text(d),
{
    match d {
        Data::Int(x) => {
            if x < 0 {
                push_char(out, '-');
                let mag: u32 = (-(x as i64)) as u32;
                push_dec_u32(out, mag);
                proof {
                    assert(out@ =~= old(out)@ + display_text(d));
                }
            } else {
                push_dec_u32(out, x as u32);
            }
        },
        Data::Char(c) => {
            push_char(out, c);
            proof {
                assert(out@ =~= old(out)@ + display_text(d));
            }
        },
    }
}

/// Append the debug rendering of `d` to `out`.
pub fn push_debug(out: &mut String, d: Data)
    ensures
        final(out)@ == old(out)@ + debug_text(d),
{
    match d {
        Data::Int(_) => {
            out.append("Int(");
        },
        Data::Char(_) => {
            out.append("Char(");
        },
    }
    push_display(out, d);
    out.append(")");
    proof {
        assert(out@ =~= old(out)@ + debug_text(d));
    }
}

/// The display rendering of one value as a fresh string.
pub fn display_render(d: Data) -> (r: String)
    ensures
        r@ == display_text(d),
{
    let mut out = String::new();
    push_display(&mut out, d);
    proof {
        assert(out@ =~= display_text(d));
    }
    out
}

/// The debug rendering of one value as a fresh string.
pub fn debug_render(d: Data) -> (r: String)
    ensures
        r@ == debug_text(d),
{
    let mut out = String::new();
    push_debug(&mut out, d);
    proof {
        assert(out@ =~= debug_text(d));
    }
    out
}

/// The rendering of the final stack contents: one display rendering per
/// element, bottom to top, each followed by a space, then `<- Top`.
pub fn render_stack(stack: &Vec<Data>) -> (r: String)
    ensures
        r@ == stack_text(stack@),
{
    let mut out = String::new();
    let mut i: usize = 0;
    while i < stack.len()
        invariant
            i <= stack.len(),
            out@ == values_text(stack@.take(i as int)),
        decreases stack.len() - i,
    {
        push_display(&mut out, stack[i]);
        out.append(" ");
        proof {
            assert(stack@.take(i + 1 as int).drop_last() =~= stack@.take(i as int));
            assert(stack@.take(i + 1 as int).last() == stack@[i as int]);
            assert(out@ =~= values_text(stack@.take(i + 1 as int)));
        }
        i = i + 1;
    }
    out.append("<- Top");
    proof {
        assert(stack@.take(stack@.len() as int) =~= stack@);
        assert(out@ =~= stack_text(stack@));
    }
    out
}

} // verus!
