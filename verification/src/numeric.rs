use vstd::prelude::*;

verus! {

/// `b` is an ASCII decimal digit.
pub open spec fn is_digit(b: u8) -> bool {
    48 <= b <= 57
}

/// `s` is one or more ASCII decimal digits and nothing else — the grammar
/// this library accepts for an unsigned integer field.
pub open spec fn is_dec_digits(s: Seq<u8>) -> bool {
    s.len() > 0 && forall|i: int| 0 <= i < s.len() ==> is_digit(#[trigger] s[i])
}

/// Numeric value of a sequence of ASCII decimal digits, most significant
/// first.
pub open spec fn dec_value(s: Seq<u8>) -> nat
    decreases s.len(),
{
    if s.len() == 0 {
        0
    } else {
        dec_value(s.drop_last()) * 10 + (s.last() - 48) as nat
    }
}

/// What parsing a field as an unsigned integer yields: defined exactly when
/// the field is all decimal digits and its value fits in a `u32`.
pub open spec fn parse_u32_spec(s: Seq<u8>) -> Option<u32> {
    if is_dec_digits(s) && dec_value(s) <= u32::MAX {
        Some(dec_value(s) as u32)
    } else {
        None
    }
}

/// In an all-digit field, the value of a prefix never exceeds the value of
/// the whole field.
proof fn lemma_dec_value_monotone(s: Seq<u8>, j: int)
    requires
        0 <= j <= s.len(),
        forall|i: int| 0 <= i < s.len() ==> is_digit(#[trigger] s[i]),
    ensures
        dec_value(s.take(j)) <= dec_value(s),
    decreases s.len() - j,
{
    if j < s.len() {
        assert(s.take(j + 1).drop_last() =~= s.take(j));
        assert(s.take(j + 1).last() == s[j]);
        lemma_dec_value_monotone(s, j + 1);
    } else {
        assert(s.take(j) =~= s);
    }
}

/// Parse a field as an unsigned 32-bit integer: one or more decimal digits,
/// value at most `u32::MAX`; anything else is rejected.
pub fn parse_u32(field: &Vec<u8>) -> (r: Option<u32>)
    ensures
        r == parse_u32_spec(field@),
{
    let n = field.len();
    if n == 0 {
        return None;
    }
    let mut acc: u64 = 0;
    let mut i: usize = 0;
    proof {
        assert(field@.take(0) =~= Seq::<u8>::empty());
    }
    while i < n
        invariant
            n == field@.len(),
            i <= n,
            forall|j: int| 0 <= j < i ==> is_digit(#[trigger] field@[j]),
            acc == dec_value(field@.take(i as int)),
            acc <= u32::MAX,
        decreases n - i,
    {
        let b = field[i];
        if b < 48 || b > 57 {
            return None;
        }
        proof {
            assert(field@.take(i as int + 1).drop_last() =~= field@.take(i as int));
            assert(field@.take(i as int + 1).last() == field@[i as int]);
        }
        acc = acc * 10 + (b - 48) as u64;
        if acc > u32::MAX as u64 {
            proof {
                if is_dec_digits(field@) {
                    lemma_dec_value_monotone(field@, i as int + 1);
                }
            }
            return None;
        }
        i = i + 1;
    }
    proof {
        assert(field@.take(n as int) =~= field@);
    }
    Some(acc as u32)
}

/// One transition of the numeric-text recognizer.  States: 0 start,
/// 1 after sign, 2 integer digits, 3 dot with no integer part, 4 fraction
/// digits (or trailing dot), 5 after `e`/`E`, 6 after exponent sign,
/// 7 exponent digits, 8 reject.  States 2, 4 and 7 accept.
pub open spec fn numeric_step(state: u8, b: u8) -> u8 {
    if state == 0 {
        if b == 43 || b == 45 {
            1
        } else if is_digit(b) {
            2
        } else if b == 46 {
            3
        } else {
            8
        }
    } else if state == 1 {
        if is_digit(b) {
            2
        } else if b == 46 {
            3
        } else {
            8
        }
    } else if state == 2 {
        if is_digit(b) {
            2
        } else if b == 46 {
            4
        } else if b == 101 || b == 69 {
            5
        } else {
            8
        }
    } else if state == 3 {
        if is_digit(b) {
            4
        } else {
            8
        }
    } else if state == 4 {
        if is_digit(b) {
            4
        } else if b == 101 || b == 69 {
            5
        } else {
            8
        }
    } else if state == 5 {
        if b == 43 || b == 45 {
            6
        } else if is_digit(b) {
            7
        } else {
            8
        }
    } else if state == 6 {
        if is_digit(b) {
            7
        } else {
            8
        }
    } else if state == 7 {
        if is_digit(b) {
            7
        } else {
            8
        }
    } else {
        8
    }
}

/// The recognizer state after reading all of `s` from the start state.
pub open spec fn numeric_state(s: Seq<u8>) -> u8
    decreases s.len(),
{
    if s.len() == 0 {
        0
    } else {
        numeric_step(numeric_state(s.drop_last()), s.last())
    }
}

/// `s` is numeric text: an optional sign, then decimal digits with an
/// optional fractional part (or a bare `.digits`), then an optional
/// exponent (`e` or `E`, an optional sign, digits).  This grammar — the one
/// this library accepts for a coordinate field — is a strict subset of what
/// floating-point parsing accepts, so a kept field always renders.
pub open spec fn is_numeric(s: Seq<u8>) -> bool {
    numeric_state(s) == 2 || numeric_state(s) == 4 || numeric_state(s) == 7
}

/// Run one recognizer transition.
fn numeric_step_run(state: u8, b: u8) -> (r: u8)
    ensures
        r == numeric_step(state, b),
{
    let digit = 48 <= b && b <= 57;
    if state == 0 {
        if b == 43 || b == 45 {
            1
        } else if digit {
            2
        } else if b == 46 {
            3
        } else {
            8
        }
    } else if state == 1 {
        if digit {
            2
        } else if b == 46 {
            3
        } else {
            8
        }
    } else if state == 2 {
        if digit {
            2
        } else if b == 46 {
            4
        } else if b == 101 || b == 69 {
            5
        } else {
            8
        }
    } else if state == 3 {
        if digit {
            4
        } else {
            8
        }
    } else if state == 4 {
        if digit {
            4
        } else if b == 101 || b == 69 {
            5
        } else {
            8
        }
    } else if state == 5 {
        if b == 43 || b == 45 {
            6
        } else if digit {
            7
        } else {
            8
        }
    } else if state == 6 {
        if digit {
            7
        } else {
            8
        }
    } else if state == 7 {
        if digit {
            7
        } else {
            8
        }
    } else {
        8
    }
}

/// Decide whether a field is numeric text.
pub fn check_numeric(field: &Vec<u8>) -> (r: bool)
    ensures
        r == is_numeric(field@),
{
    let n = field.len();
    let mut state: u8 = 0;
    let mut i: usize = 0;
    proof {
        assert(field@.take(0) =~= Seq::<u8>::empty());
    }
    while i < n
        invariant
            n == field@.len(),
            i <= n,
            state == numeric_state(field@.take(i as int)),
        decreases n - i,
    {
        proof {
            assert(field@.take(i as int + 1).drop_last() =~= field@.take(i as int));
            assert(field@.take(i as int + 1).last() == field@[i as int]);
        }
        state = numeric_step_run(state, field[i]);
        i = i + 1;
    }
    proof {
        assert(field@.take(n as int) =~= field@);
    }
    state == 2 || state == 4 || state == 7
}

/// The decimal digit character for `d` (defined for 0 through 9).
pub open spec fn dec_digit_char(d: nat) -> char {
    if d == 0 {
        '0'
    } else if d == 1 {
        '1'
    } else if d == 2 {
        '2'
    } else if d == 3 {
        '3'
    } else if d == 4 {
        '4'
    } else if d == 5 {
        '5'
    } else if d == 6 {
        '6'
    } else if d == 7 {
        '7'
    } else if d == 8 {
        '8'
    } else {
        '9'
    }
}

/// The decimal rendering of `v`: most significant digit first, no leading
/// zeros (a lone `0` for zero).
pub open spec fn dec_chars(v: nat) -> Seq<char>
    decreases v,
{
    if v < 10 {
        seq![dec_digit_char(v)]
    } else {
        dec_chars(v / 10).push(dec_digit_char(v % 10))
    }
}

} // verus!
