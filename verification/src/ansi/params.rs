//! The numeric parameters of a control sequence.

use vstd::prelude::*;
use crate::ansi::ansi_codes::PARAM_SEPARATOR;

verus! {

/// Whether `b` is an ASCII decimal digit.
pub open spec fn is_digit(b: u8) -> bool {
    0x30 <= b <= 0x39
}

/// Whether every byte of `bytes` is a decimal digit.
pub open spec fn all_digits(bytes: Seq<u8>) -> bool {
    forall|i: int| 0 <= i < bytes.len() ==> is_digit(#[trigger] bytes[i])
}

/// The number that a string of decimal digits writes, most significant first.
pub open spec fn decimal_value(bytes: Seq<u8>) -> nat
    decreases bytes.len(),
{
    if bytes.len() == 0 {
        0
    } else {
        (decimal_value(bytes.drop_last()) * 10 + (bytes.last() - 0x30)) as nat
    }
}

/// What one parameter stands for: its decimal value where it is a non-empty
/// string of digits whose value fits in `usize`, and 0 in every other case.
pub open spec fn param_value(bytes: Seq<u8>) -> usize {
    if bytes.len() > 0 && all_digits(bytes) && decimal_value(bytes) <= usize::MAX {
        decimal_value(bytes) as usize
    } else {
        0
    }
}

/// The pieces of `bytes` between separators. There is always one piece more
/// than there are separators, so the empty string is one empty piece.
pub open spec fn split_params(bytes: Seq<u8>) -> Seq<Seq<u8>>
    decreases bytes.len(),
{
    if bytes.len() == 0 {
        seq![Seq::<u8>::empty()]
    } else {
        let before = split_params(bytes.drop_last());
        if bytes.last() == PARAM_SEPARATOR {
            before.push(Seq::<u8>::empty())
        } else {
            before.update(before.len() - 1, before.last().push(bytes.last()))
        }
    }
}

/// The parameter list of a control sequence: nothing for no bytes at all,
/// else the value of each piece between separators.
pub open spec fn params_of(bytes: Seq<u8>) -> Seq<usize> {
    if bytes.len() == 0 {
        Seq::<usize>::empty()
    } else {
        let pieces = split_params(bytes);
        Seq::new(pieces.len(), |i: int| param_value(pieces[i]))
    }
}

/// A string of digits is worth at least as much as any of its prefixes.
proof fn lemma_decimal_value_grows(bytes: Seq<u8>, n: int)
    requires
        0 <= n <= bytes.len(),
        all_digits(bytes),
    ensures
        decimal_value(bytes.take(n)) <= decimal_value(bytes),
    decreases bytes.len() - n,
{
    if n == bytes.len() {
        assert(bytes.take(n) == bytes);
    } else {
        let longer = bytes.take(n + 1);
        assert(longer.drop_last() == bytes.take(n));
        assert(is_digit(bytes[n]));
        assert(longer.last() == bytes[n]);
        lemma_decimal_value_grows(bytes, n + 1);
    }
}

/// Reads one parameter. A piece that is empty, holds anything but digits, or
/// writes a number too large for the machine counts as 0.
pub fn parse_usize_param(param: &[u8]) -> (value: usize)
    ensures
        value == param_value(param@),
{
    let n: usize = param.len();
    if n == 0 {
        return 0;
    }
    let mut value: usize = 0;
    let mut i: usize = 0;
    while i < n
        invariant
            i <= n,
            n == param@.len(),
            all_digits(param@.take(i as int)),
            value == decimal_value(param@.take(i as int)),
        decreases n - i,
    {
        let b: u8 = param[i];
        if b < 0x30 || b > 0x39 {
            assert(!is_digit(param@[i as int]));
            return 0;
        }
        let digit: usize = (b - 0x30) as usize;
        proof {
            let longer = param@.take(i as int + 1);
            assert(longer.drop_last() == param@.take(i as int));
            assert(longer.last() == b);
            assert forall|k: int| 0 <= k < longer.len() implies is_digit(#[trigger] longer[k]) by {
                if k < i {
                    assert(longer[k] == param@.take(i as int)[k]);
                }
            }
            if all_digits(param@) {
                lemma_decimal_value_grows(param@, i as int + 1);
            }
        }
        let next: Option<usize> = match value.checked_mul(10) {
            Some(tens) => tens.checked_add(digit),
            None => None,
        };
        match next {
            Some(v) => {
                value = v;
            },
            None => {
                return 0;
            },
        }
        i += 1;
    }
    assert(param@.take(n as int) == param@);
    value
}

/// Splits the parameter bytes of a control sequence at each separator and
/// reads every piece.
pub fn parse_params(params: &[u8]) -> (values: Vec<usize>)
    ensures
        values@ == params_of(params@),
{
    let n: usize = params.len();
    let mut values: Vec<usize> = Vec::new();
    if n == 0 {
        return values;
    }
    let mut piece: Vec<u8> = Vec::new();
    let mut i: usize = 0;
    while i < n
        invariant
            i <= n,
            n == params@.len(),
            split_params(params@.take(i as int)).len() == values@.len() + 1,
            split_params(params@.take(i as int)).last() == piece@,
            forall|k: int| 0 <= k < values@.len() ==> values@[k] == param_value(
                #[trigger] split_params(params@.take(i as int))[k],
            ),
        decreases n - i,
    {
        let b: u8 = params[i];
        proof {
            let longer = params@.take(i as int + 1);
            assert(longer.drop_last() == params@.take(i as int));
            assert(longer.last() == b);
        }
        if b == PARAM_SEPARATOR {
            let value: usize = parse_usize_param(piece.as_slice());
            values.push(value);
            piece = Vec::new();
        } else {
            piece.push(b);
        }
        i += 1;
    }
    let value: usize = parse_usize_param(piece.as_slice());
    values.push(value);
    assert(params@.take(n as int) == params@);
    assert(values@ =~= params_of(params@));
    values
}

} // verus!
