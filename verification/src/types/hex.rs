//! Bytes in hexadecimal writing.

use vstd::prelude::*;
use vstd::string::StringExecFns;

verus! {

/// The hexadecimal digit of a number below sixteen, in lower case.
pub open spec fn hex_char(n: int) -> char {
    if n == 0 {
        '0'
    } else if n == 1 {
        '1'
    } else if n == 2 {
        '2'
    } else if n == 3 {
        '3'
    } else if n == 4 {
        '4'
    } else if n == 5 {
        '5'
    } else if n == 6 {
        '6'
    } else if n == 7 {
        '7'
    } else if n == 8 {
        '8'
    } else if n == 9 {
        '9'
    } else if n == 10 {
        'a'
    } else if n == 11 {
        'b'
    } else if n == 12 {
        'c'
    } else if n == 13 {
        'd'
    } else if n == 14 {
        'e'
    } else {
        'f'
    }
}

/// The hexadecimal writing of a byte string: two digits for each byte, the
/// high one first.
pub open spec fn hex_chars(bytes: Seq<u8>) -> Seq<char>
    decreases bytes.len(),
{
    if bytes.len() == 0 {
        Seq::empty()
    } else {
        hex_chars(bytes.drop_last()).push(hex_char(bytes.last() as int / 16)).push(
            hex_char(bytes.last() as int % 16),
        )
    }
}

/// The hexadecimal digit of a number below sixteen, as a string.
fn hex_digit(n: u8) -> (s: &'static str)
    requires
        n < 16,
    ensures
        s@ == seq![hex_char(n as int)],
{
    proof {
        reveal_strlit("0");
        reveal_strlit("1");
        reveal_strlit("2");
        reveal_strlit("3");
        reveal_strlit("4");
        reveal_strlit("5");
        reveal_strlit("6");
        reveal_strlit("7");
        reveal_strlit("8");
        reveal_strlit("9");
        reveal_strlit("a");
        reveal_strlit("b");
        reveal_strlit("c");
        reveal_strlit("d");
        reveal_strlit("e");
        reveal_strlit("f");
    }
    let s = if n == 0 {
        "0"
    } else if n == 1 {
        "1"
    } else if n == 2 {
        "2"
    } else if n == 3 {
        "3"
    } else if n == 4 {
        "4"
    } else if n == 5 {
        "5"
    } else if n == 6 {
        "6"
    } else if n == 7 {
        "7"
    } else if n == 8 {
        "8"
    } else if n == 9 {
        "9"
    } else if n == 10 {
        "a"
    } else if n == 11 {
        "b"
    } else if n == 12 {
        "c"
    } else if n == 13 {
        "d"
    } else if n == 14 {
        "e"
    } else {
        "f"
    };
    assert(s@ =~= seq![hex_char(n as int)]);
    s
}

/// The hexadecimal writing of a byte string, in lower case.
pub fn encode(bytes: &[u8]) -> (s: String)
    ensures
        s@ == hex_chars(bytes@),
        s@.len() == 2 * bytes@.len(),
{
    let mut s = String::new();
    let mut i: usize = 0;
    while i < bytes.len()
        invariant
            i <= bytes.len(),
            s@ == hex_chars(bytes@.take(i as int)),
            s@.len() == 2 * i,
        decreases bytes.len() - i,
    {
        let b = bytes[i];
        proof {
            let part = bytes@.take(i as int + 1);
            assert(part.drop_last() =~= bytes@.take(i as int));
            assert(part.last() == b);
        }
        let ghost before = s@;
        s.append(hex_digit(b / 16));
        s.append(hex_digit(b % 16));
        assert(s@ =~= before.push(hex_char(b as int / 16)).push(hex_char(b as int % 16)));
        i += 1;
    }
    assert(bytes@.take(i as int) =~= bytes@);
    s
}

/// The decimal writing of a number, without leading zeros.
pub open spec fn decimal_chars(n: nat) -> Seq<char>
    decreases n,
{
    if n < 10 {
        seq![hex_char(n as int)]
    } else {
        decimal_chars(n / 10).push(hex_char((n % 10) as int))
    }
}

/// The decimal writing of a number.
pub fn decimal(n: u64) -> (s: String)
    ensures
        s@ == decimal_chars(n as nat),
{
    let mut digits: Vec<u8> = Vec::new();
    let mut rest = n;
    while rest >= 10
        invariant
            forall|j: int| 0 <= j < digits.len() ==> digits@[j] < 10,
            decimal_chars(n as nat) == decimal_chars(rest as nat) + Seq::new(
                digits@.len(),
                |j: int| hex_char(digits@[digits@.len() - 1 - j] as int),
            ),
        decreases rest,
    {
        let ghost held = digits@;
        digits.push((rest % 10) as u8);
        proof {
            let tail = Seq::new(held.len(), |j: int| hex_char(held[held.len() - 1 - j] as int));
            let longer = Seq::new(
                digits@.len(),
                |j: int| hex_char(digits@[digits@.len() - 1 - j] as int),
            );
            assert(longer =~= seq![hex_char((rest % 10) as int)] + tail);
            assert(decimal_chars(rest as nat) == decimal_chars((rest / 10) as nat).push(
                hex_char((rest % 10) as int),
            ));
            assert(decimal_chars(rest as nat) + tail =~= decimal_chars((rest / 10) as nat) + longer);
        }
        rest = rest / 10;
    }
    let mut s = String::new();
    s.append(hex_digit(rest as u8));
    let mut k: usize = digits.len();
    let ghost tail = Seq::new(digits@.len(), |j: int| hex_char(digits@[digits@.len() - 1 - j] as int));
    assert(s@ =~= decimal_chars(rest as nat) + tail.take(0));
    while k > 0
        invariant
            k <= digits.len(),
            forall|j: int| 0 <= j < digits.len() ==> digits@[j] < 10,
            tail == Seq::new(digits@.len(), |j: int| hex_char(digits@[digits@.len() - 1 - j] as int)),
            s@ == decimal_chars(rest as nat) + tail.take(digits@.len() - k),
        decreases k,
    {
        k -= 1;
        let ghost before = s@;
        s.append(hex_digit(digits[k]));
        proof {
            let at = digits@.len() - 1 - k;
            assert(tail[at] == hex_char(digits@[k as int] as int));
            assert(tail.take(at + 1) =~= tail.take(at).push(tail[at]));
            assert(s@ =~= before.push(hex_char(digits@[k as int] as int)));
        }
    }
    assert(tail.take(digits@.len() as int) =~= tail);
    s
}

} // verus!
