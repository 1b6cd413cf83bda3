//! Numbers as text.
use vstd::prelude::*;
use vstd::string::StringExecFns;

verus! {

/// The character of a decimal digit.
pub open spec fn digit(d: int) -> char {
    (0x30 + d) as char
}

/// The decimal digits of a number.
pub open spec fn digits(n: nat) -> Seq<char>
    decreases n,
{
    if n < 10 {
        seq![digit(n as int)]
    } else {
        digits(n / 10).push(digit((n % 10) as int))
    }
}

/// A number in decimal, with a sign if it is negative.
pub open spec fn decimal(n: int) -> Seq<char> {
    if n < 0 {
        seq!['-'] + digits((-n) as nat)
    } else {
        digits(n as nat)
    }
}

/// A digit as text.
fn digit_text(d: u64) -> (r: &'static str)
    requires
        d < 10,
    ensures
        r@ == seq![digit(d as int)],
{
    proof {
        reveal_strlit("0");
        reveal_strlit("1");
        reveal_strlit("2");
        reveal_strlit("3");
        reveal_strlit("4");
        reveal_strlit("5");
        reveal_strlit("6");
        reveal_strlit("7");
        reveal_strlit("8");
        reveal_strlit("9");
        assert("0"@ =~= seq![digit(0)]);
        assert("1"@ =~= seq![digit(1)]);
        assert("2"@ =~= seq![digit(2)]);
        assert("3"@ =~= seq![digit(3)]);
        assert("4"@ =~= seq![digit(4)]);
        assert("5"@ =~= seq![digit(5)]);
        assert("6"@ =~= seq![digit(6)]);
        assert("7"@ =~= seq![digit(7)]);
        assert("8"@ =~= seq![digit(8)]);
        assert("9"@ =~= seq![digit(9)]);
    }
    match d {
        0 => "0",
        1 => "1",
        2 => "2",
        3 => "3",
        4 => "4",
        5 => "5",
        6 => "6",
        7 => "7",
        8 => "8",
        _ => "9",
    }
}

/// Append the digits of a number.
fn push_digits(out: &mut String, n: u64)
    ensures
        final(out)@ == old(out)@ + digits(n as nat),
    decreases n,
{
    if n < 10 {
        out.append(digit_text(n));
    } else {
        push_digits(out, n / 10);
        out.append(digit_text(n % 10));
        assert(out@ =~= old(out)@ + digits(n as nat));
    }
}

/// Append a number in decimal.
pub fn push_decimal(out: &mut String, n: i64)
    requires
        n > i64::MIN,
    ensures
        final(out)@ == old(out)@ + decimal(n as int),
{
    if n < 0 {
        proof {
            reveal_strlit("-");
            assert("-"@ =~= seq!['-']);
        }
        out.append("-");
        push_digits(out, (-n) as u64);
        assert(out@ =~= old(out)@ + decimal(n as int));
    } else {
        push_digits(out, n as u64);
    }
}

/// The number that a row of decimal digits writes out.
pub open spec fn number_of(text: Seq<char>) -> int
    decreases text.len(),
{
    if text.len() == 0 {
        0
    } else {
        10 * number_of(text.drop_last()) + (text.last() as int - 0x30)
    }
}

/// The digits of a number write that number out, with nothing but digits and
/// without a zero in front.
pub proof fn digits_write_their_number(n: nat)
    ensures
        number_of(digits(n)) == n,
        digits(n).len() > 0,
        forall|i: int| 0 <= i < digits(n).len() ==> 0x30 <= #[trigger] digits(n)[i] as int <= 0x39,
        n > 0 ==> digits(n)[0] != '0',
        n == 0 ==> digits(n) == seq!['0'],
    decreases n,
{
    if n < 10 {
        assert(digits(n).drop_last() =~= Seq::<char>::empty());
        assert(number_of(Seq::<char>::empty()) == 0);
        assert(digits(n).last() as int == 0x30 + n);
    } else {
        let front = digits(n / 10);
        digits_write_their_number(n / 10);
        assert(digits(n).drop_last() =~= front);
        assert(digits(n).last() as int == 0x30 + n % 10);
        assert forall|i: int| 0 <= i < digits(n).len() implies 0x30 <= #[trigger] digits(
            n,
        )[i] as int <= 0x39 by {
            if i < front.len() {
                assert(digits(n)[i] == front[i]);
            }
        }
        assert(digits(n)[0] == front[0]);
    }
}

/// A number is written with a minus sign in front exactly if it is negative, and
/// its digits write out how large it is.
pub proof fn a_decimal_writes_its_number(n: int)
    ensures
        n >= 0 ==> number_of(decimal(n)) == n && decimal(n)[0] != '-',
        n < 0 ==> decimal(n)[0] == '-' && number_of(decimal(n).skip(1)) == -n,
{
    if n < 0 {
        digits_write_their_number((-n) as nat);
        assert(decimal(n).skip(1) =~= digits((-n) as nat));
    } else {
        digits_write_their_number(n as nat);
    }
}

/// A number is written behind what is there, and nothing else changes.
pub proof fn a_number_is_written_behind()
    ensures
        forall|out: &mut String, n: i64|
            #[trigger] call_ensures(push_decimal, (out, n), ()) ==> final(out)@ == (*out)@
                + decimal(n as int),
{
}

} // verus!
