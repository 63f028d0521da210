//! Plain-text rendering of one variable-length binary element: the bytes
//! of the value, decimal, comma-separated, in brackets.

use vstd::prelude::*;

use crate::array::binary::BinaryArray;
use crate::model::wf;

verus! {

/// The decimal digit character of `d` (a single digit).
pub open spec fn digit_char(d: int) -> char {
    if d == 0 {
        '0'
    } else if d == 1 {
        '1'
    } else if d == 2 {
        '2'
    } else if d == 3 {
        '3'
    } else if d == 4 {
        '4'
    } else if d == 5 {
        '5'
    } else if d == 6 {
        '6'
    } else if d == 7 {
        '7'
    } else if d == 8 {
        '8'
    } else {
        '9'
    }
}

/// The decimal text of one byte value, without leading zeros.
pub open spec fn u8_text(b: int) -> Seq<char> {
    if b < 10 {
        seq![digit_char(b)]
    } else if b < 100 {
        seq![digit_char(b / 10), digit_char(b % 10)]
    } else {
        seq![digit_char(b / 100), digit_char((b / 10) % 10), digit_char(b % 10)]
    }
}

/// The byte values joined with `", "`.
pub open spec fn joined_text(s: Seq<u8>) -> Seq<char>
    decreases s,
{
    if s.len() == 0 {
        Seq::empty()
    } else if s.len() == 1 {
        u8_text(s[0] as int)
    } else {
        joined_text(s.drop_last()) + seq![',', ' '] + u8_text(s.last() as int)
    }
}

/// The full rendering: the joined bytes in brackets.
pub open spec fn bytes_text(s: Seq<u8>) -> Seq<char> {
    seq!['['] + joined_text(s) + seq![']']
}

/// The one-character string of a decimal digit.
fn digit_str(d: u8) -> (r: &'static str)
    requires
        d < 10,
    ensures
        r@ == seq![digit_char(d as int)],
{
    proof {
        reveal_strlit("0");
        reveal_strlit("1");
        reveal_strlit("2");
        reveal_strlit("3");
        reveal_strlit("4");
        reveal_strlit("5");
        reveal_strlit("6");
        reveal_strlit("7");
        reveal_strlit("8");
        reveal_strlit("9");
    }
    let r = match d {
        0u8 => "0",
        1u8 => "1",
        2u8 => "2",
        3u8 => "3",
        4u8 => "4",
        5u8 => "5",
        6u8 => "6",
        7u8 => "7",
        8u8 => "8",
        _ => "9",
    };
    proof {
        assert(r@ =~= seq![digit_char(d as int)]);
    }
    r
}

/// Appends one byte's decimal text.
fn push_u8(out: &mut String, b: u8)
    ensures
        final(out)@ == old(out)@ + u8_text(b as int),
{
    if b >= 100 {
        out.append(digit_str(b / 100));
        out.append(digit_str((b / 10) % 10));
        out.append(digit_str(b % 10));
        proof {
            assert(out@ =~= old(out)@ + u8_text(b as int));
        }
    } else if b >= 10 {
        out.append(digit_str(b / 10));
        out.append(digit_str(b % 10));
        proof {
            assert(out@ =~= old(out)@ + u8_text(b as int));
        }
    } else {
        out.append(digit_str(b));
        proof {
            assert(out@ =~= old(out)@ + u8_text(b as int));
        }
    }
}

/// Renders element `index` of a variable-length binary array as decimal
/// byte values in brackets.
#[verifier::loop_isolation(false)]
pub fn write_value(array: &BinaryArray, index: usize) -> (r: String)
    requires
        wf(array@),
        (index as int) < array@->VarBin_offsets.len() - 1,
    ensures
        r@ == bytes_text(
            array@->VarBin_data.subrange(
                array@->VarBin_offsets[index as int],
                array@->VarBin_offsets[index as int + 1],
            ),
        ),
{
    let bytes = array.value(index);
    let mut out = String::new();
    proof {
        reveal_strlit("[");
        reveal_strlit("]");
        reveal_strlit(", ");
    }
    out.append("[");
    let n: usize = bytes.len();
    let mut i: usize = 0;
    proof {
        assert(bytes@.take(0) =~= Seq::<u8>::empty());
        assert(out@ =~= seq!['['] + joined_text(bytes@.take(0)));
    }
    while i < n
        invariant
            n == bytes@.len(),
            0 <= i <= n,
            out@ == seq!['['] + joined_text(bytes@.take(i as int)),
        decreases n - i,
    {
        if i > 0 {
            out.append(", ");
        }
        push_u8(&mut out, bytes[i]);
        proof {
            assert(bytes@.take(i as int + 1).drop_last() =~= bytes@.take(i as int));
            assert(bytes@.take(i as int + 1).last() == bytes@[i as int]);
            assert(out@ =~= seq!['['] + joined_text(bytes@.take(i as int + 1)));
        }
        i = i + 1;
    }
    out.append("]");
    proof {
        assert(bytes@.take(n as int) =~= bytes@);
        assert(out@ =~= bytes_text(bytes@));
    }
    out
}

} // verus!
