//! Decimal numbers and parameter lists of the SIXEL grammar.

use vstd::prelude::*;

verus! {

/// Whether `b` is an ASCII digit.
pub open spec fn is_digit(b: u8) -> bool {
    0x30 <= b <= 0x39
}

/// The value of the ASCII digit `b`.
pub open spec fn digit_value(b: u8) -> int {
    b - 0x30
}

/// Whether `b` may stand in a parameter list: a digit or `;`.
pub open spec fn is_param_byte(b: u8) -> bool {
    is_digit(b) || b == 0x3b
}

/// `value`, or `limit` where it is larger.
pub open spec fn capped(value: int, limit: int) -> int {
    if value > limit {
        limit
    } else {
        value
    }
}

/// The end of the longest run of digits that begins at `start`.
pub open spec fn digits_end(data: Seq<u8>, start: int) -> int
    decreases data.len() - start,
{
    if 0 <= start < data.len() && is_digit(data[start]) {
        digits_end(data, start + 1)
    } else {
        start
    }
}

/// The number that the digits `data[start..end]` write in decimal.
pub open spec fn decimal_value(data: Seq<u8>, start: int, end: int) -> int
    decreases end - start,
{
    if end <= start {
        0
    } else {
        decimal_value(data, start, end - 1) * 10 + digit_value(data[end - 1])
    }
}

/// The end of the longest run of digits and `;` that begins at `start`.
pub open spec fn params_end(data: Seq<u8>, start: int) -> int
    decreases data.len() - start,
{
    if 0 <= start < data.len() && is_param_byte(data[start]) {
        params_end(data, start + 1)
    } else {
        start
    }
}

/// The fields of the parameter run from `idx` on, where `current` is
/// what the digits of the first of them have given up to `idx`. Fields
/// are separated by `;`; each is its decimal value, at most `limit`, and
/// zero where it has no digits.
pub open spec fn param_fields(data: Seq<u8>, idx: int, current: int, limit: int) -> Seq<int>
    decreases data.len() - idx,
{
    if 0 <= idx < data.len() && is_digit(data[idx]) {
        param_fields(data, idx + 1, capped(current * 10 + digit_value(data[idx]), limit), limit)
    } else if 0 <= idx < data.len() && data[idx] == 0x3b {
        seq![current] + param_fields(data, idx + 1, 0, limit)
    } else {
        seq![current]
    }
}

/// The parameters written at `start`: none where no digit or `;` stands
/// there.
pub open spec fn param_list(data: Seq<u8>, start: int, limit: int) -> Seq<int> {
    if params_end(data, start) == start {
        Seq::empty()
    } else {
        param_fields(data, start, 0, limit)
    }
}

/// The smaller of two numbers.
pub open spec fn smaller(a: int, b: int) -> int {
    if a <= b {
        a
    } else {
        b
    }
}

/// A run of digits ends inside the data, at or after its start.
pub proof fn lemma_digits_end_bounds(data: Seq<u8>, start: int)
    requires
        0 <= start <= data.len(),
    ensures
        start <= digits_end(data, start) <= data.len(),
        forall|i: int| start <= i < digits_end(data, start) ==> is_digit(#[trigger] data[i]),
        digits_end(data, start) < data.len() ==> !is_digit(data[digits_end(data, start)]),
    decreases data.len() - start,
{
    if start < data.len() && is_digit(data[start]) {
        lemma_digits_end_bounds(data, start + 1);
    }
}

/// A parameter run ends inside the data, at or after its start.
pub proof fn lemma_params_end_bounds(data: Seq<u8>, start: int)
    requires
        0 <= start <= data.len(),
    ensures
        start <= params_end(data, start) <= data.len(),
    decreases data.len() - start,
{
    if start < data.len() && is_param_byte(data[start]) {
        lemma_params_end_bounds(data, start + 1);
    }
}

/// A decimal value is never negative.
pub proof fn lemma_decimal_value_nonnegative(data: Seq<u8>, start: int, end: int)
    requires
        0 <= start,
        end <= data.len(),
        forall|i: int| start <= i < end ==> is_digit(#[trigger] data[i]),
    ensures
        decimal_value(data, start, end) >= 0,
    decreases end - start,
{
    if end > start {
        lemma_decimal_value_nonnegative(data, start, end - 1);
    }
}

/// Reads the decimal number at `start`. Returns its value, at most
/// `usize::MAX`, and the number of digits.
pub fn read_number(data: &[u8], start: usize) -> (out: (usize, usize))
    ensures
        out.1 == digits_end(data@, start as int) - start,
        out.0 == capped(decimal_value(data@, start as int, start + out.1), usize::MAX as int),
{
    let mut idx: usize = start;
    let mut value: usize = 0;
    let mut consumed: usize = 0;
    if start > data.len() {
        return (0, 0);
    }
    while idx < data.len() && data[idx] >= 0x30 && data[idx] <= 0x39
        invariant
            start <= idx <= data@.len(),
            consumed == idx - start,
            digits_end(data@, start as int) == digits_end(data@, idx as int),
            forall|i: int| start <= i < idx ==> is_digit(#[trigger] data@[i]),
            value == capped(decimal_value(data@, start as int, idx as int), usize::MAX as int),
        decreases data@.len() - idx,
    {
        let digit: usize = (data[idx] - 0x30) as usize;
        proof {
            lemma_decimal_value_nonnegative(data@, start as int, idx as int);
        }
        value = match value.checked_mul(10) {
            Some(tens) => match tens.checked_add(digit) {
                Some(sum) => sum,
                None => usize::MAX,
            },
            None => usize::MAX,
        };
        idx += 1;
        consumed += 1;
    }
    (value, consumed)
}

/// Reads the parameter list at `start` into `storage`: decimal numbers
/// separated by `;`, each at most `i32::MAX`, an empty one counting as
/// zero. Parameters that do not fit in `storage` are read and dropped.
/// Returns the number of bytes read and the number of parameters stored.
pub fn collect_params(data: &[u8], start: usize, storage: &mut [i32]) -> (out: (usize, usize))
    ensures
        final(storage)@.len() == old(storage)@.len(),
        out.0 == params_end(data@, start as int) - start,
        out.1 == smaller(
            param_list(data@, start as int, i32::MAX as int).len() as int,
            old(storage)@.len() as int,
        ),
        forall|k: int|
            0 <= k < out.1 ==> final(storage)@[k] == param_list(
                data@,
                start as int,
                i32::MAX as int,
            )[k],
        forall|k: int| out.1 <= k < old(storage)@.len() ==> final(storage)@[k] == old(storage)@[k],
{
    let cap: usize = storage.len();
    let ghost limit = i32::MAX as int;
    if start > data.len() {
        return (0, 0);
    }
    let mut idx: usize = start;
    let mut consumed: usize = 0;
    let mut written: usize = 0;
    let mut current: i32 = 0;
    let ghost mut done: Seq<int> = Seq::empty();
    while idx < data.len() && ((data[idx] >= 0x30 && data[idx] <= 0x39) || data[idx] == 0x3b)
        invariant
            start <= idx <= data@.len(),
            consumed == idx - start,
            storage@.len() == cap,
            cap == old(storage)@.len(),
            limit == i32::MAX,
            0 <= current,
            params_end(data@, start as int) == params_end(data@, idx as int),
            param_fields(data@, start as int, 0, limit) == done + param_fields(
                data@,
                idx as int,
                current as int,
                limit,
            ),
            written == smaller(done.len() as int, cap as int),
            forall|k: int| 0 <= k < written ==> storage@[k] == done[k],
            forall|k: int| written <= k < cap ==> storage@[k] == old(storage)@[k],
        decreases data@.len() - idx,
    {
        if data[idx] == 0x3b {
            proof {
                let rest = param_fields(data@, idx + 1, 0, limit);
                assert(done + (seq![current as int] + rest) =~= done.push(current as int) + rest);
                done = done.push(current as int);
            }
            if written < cap {
                storage[written] = current;
                written += 1;
            }
            current = 0;
        } else {
            let digit: i32 = (data[idx] - 0x30) as i32;
            current = match current.checked_mul(10) {
                Some(tens) => match tens.checked_add(digit) {
                    Some(sum) => sum,
                    None => i32::MAX,
                },
                None => i32::MAX,
            };
        }
        idx += 1;
        consumed += 1;
    }
    if idx > start && written < cap {
        storage[written] = current;
        written += 1;
    }
    proof {
        let fields = param_list(data@, start as int, limit);
        if idx > start {
            assert(fields =~= done.push(current as int));
        }
    }
    (consumed, written)
}

} // verus!
