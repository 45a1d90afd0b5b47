//! Reading a window's position out of the text in which a window tool
//! reports its geometry, such as `Position: 10,20 (screen: 0)`.

use vstd::prelude::*;
use crate::wire::decimal_digits;

verus! {

/// The joint of a position, `,`.
pub const COMMA: u8 = 0x2c;

/// The joint of an extent, `x`.
pub const TIMES: u8 = 0x78;

pub open spec fn is_digit(byte: u8) -> bool {
    0x30 <= byte <= 0x39
}

/// A pair of numbers is joined by a comma or by an `x`.
pub open spec fn is_joint(byte: u8) -> bool {
    byte == COMMA || byte == TIMES
}

/// Where the run of digits that begins at `from` ends: the first place at
/// or after `from` that holds no digit.
pub open spec fn run_end(text: Seq<u8>, from: int) -> int
    decreases text.len() - from,
{
    if 0 <= from < text.len() && is_digit(text[from]) {
        run_end(text, from + 1)
    } else {
        from
    }
}

/// Whether a pair of numbers begins at `start`: a run of digits, a joint
/// and a digit.
pub open spec fn pair_begins(text: Seq<u8>, start: int) -> bool {
    let joint = run_end(text, start);
    &&& 0 <= start < joint
    &&& joint + 1 < text.len()
    &&& is_joint(text[joint])
    &&& is_digit(text[joint + 1])
}

/// Where the first pair of numbers at or after `from` begins, if there is
/// one.
pub open spec fn first_pair(text: Seq<u8>, from: int) -> Option<int>
    decreases text.len() - from,
{
    if from < 0 || from >= text.len() {
        None
    } else if pair_begins(text, from) {
        Some(from)
    } else {
        first_pair(text, from + 1)
    }
}

/// The number that a run of decimal digits spells.
pub open spec fn digits_value(digits: Seq<u8>) -> nat
    decreases digits.len(),
{
    if digits.len() == 0 {
        0
    } else {
        10 * digits_value(digits.drop_last()) + (digits.last() - 0x30) as nat
    }
}

/// The position that `text` reports: the two numbers of its first pair,
/// if a comma joins them and each fits in 32 bits. A first pair that an `x`
/// joins is an extent, and no position.
pub open spec fn position_of(text: Seq<u8>) -> Option<(u32, u32)> {
    match first_pair(text, 0) {
        None => None,
        Some(start) => {
            let joint = run_end(text, start);
            let end = run_end(text, joint + 1);
            let x = digits_value(text.subrange(start, joint));
            let y = digits_value(text.subrange(joint + 1, end));
            if text[joint] == COMMA && x <= u32::MAX && y <= u32::MAX {
                Some((x as u32, y as u32))
            } else {
                None
            }
        },
    }
}

/// A run ends within the text, holds digits only, and stops at what is no
/// digit.
pub proof fn lemma_run_end(text: Seq<u8>, from: int)
    requires
        0 <= from <= text.len(),
    ensures
        from <= run_end(text, from) <= text.len(),
        forall|i: int| from <= i < run_end(text, from) ==> is_digit(#[trigger] text[i]),
        run_end(text, from) < text.len() ==> !is_digit(text[run_end(text, from)]),
        forall|i: int| from <= i <= run_end(text, from) ==> run_end(text, i) == run_end(text, from),
    decreases text.len() - from,
{
    if from < text.len() && is_digit(text[from]) {
        lemma_run_end(text, from + 1);
    }
}

/// No pair begins between `from` and `to` if none begins at any place of
/// that stretch.
proof fn lemma_first_pair_skip(text: Seq<u8>, from: int, to: int)
    requires
        0 <= from <= to <= text.len(),
        forall|i: int| from <= i < to ==> !pair_begins(text, i),
    ensures
        first_pair(text, from) == first_pair(text, to),
    decreases to - from,
{
    if from < to {
        lemma_first_pair_skip(text, from + 1, to);
    }
}

/// A number does not get smaller as digits follow.
proof fn lemma_digits_value_grows(digits: Seq<u8>, k: int)
    requires
        0 <= k <= digits.len(),
    ensures
        digits_value(digits.take(k)) <= digits_value(digits),
    decreases digits.len() - k,
{
    if k < digits.len() {
        lemma_digits_value_grows(digits, k + 1);
        assert(digits.take(k + 1).drop_last() =~= digits.take(k));
    } else {
        assert(digits.take(k) =~= digits);
    }
}

/// The digits that a number is written with spell that number.
pub proof fn lemma_digits_value_of_decimal(n: nat)
    ensures
        digits_value(decimal_digits(n)) == n,
    decreases n,
{
    if n >= 10 {
        let front = decimal_digits(n / 10);
        let last = (0x30 + n % 10) as u8;
        lemma_digits_value_of_decimal(n / 10);
        assert(front.push(last).drop_last() =~= front);
        assert(front.push(last).last() == last);
    } else {
        let only = (0x30 + n) as u8;
        assert(seq![only].drop_last() =~= Seq::<u8>::empty());
        assert(seq![only].last() == only);
        assert(digits_value(Seq::<u8>::empty()) == 0);
    }
}

fn digit(byte: u8) -> (yes: bool)
    ensures
        yes == is_digit(byte),
{
    0x30 <= byte && byte <= 0x39
}

/// Where the run of digits that begins at `from` ends.
fn scan_run(text: &[u8], from: usize) -> (end: usize)
    requires
        from <= text@.len(),
    ensures
        end == run_end(text@, from as int),
        from <= end <= text@.len(),
{
    let mut end: usize = from;
    proof {
        lemma_run_end(text@, from as int);
    }
    while end < text.len() && digit(text[end])
        invariant
            from <= end <= text@.len(),
            run_end(text@, end as int) == run_end(text@, from as int),
            forall|i: int|
                from <= i <= run_end(text@, from as int) ==> run_end(text@, i) == run_end(
                    text@,
                    from as int,
                ),
            end <= run_end(text@, from as int),
        decreases text@.len() - end,
    {
        proof {
            lemma_run_end(text@, end as int);
        }
        end += 1;
    }
    end
}

/// The number that the digits of `text` from `from` up to `to` spell, if
/// it fits in 32 bits.
fn read_number(text: &[u8], from: usize, to: usize) -> (number: Option<u32>)
    requires
        from <= to <= text@.len(),
        forall|i: int| from <= i < to ==> is_digit(#[trigger] text@[i]),
    ensures
        number is Some <==> digits_value(text@.subrange(from as int, to as int)) <= u32::MAX,
        number matches Some(n) ==> n == digits_value(text@.subrange(from as int, to as int)),
{
    let ghost digits = text@.subrange(from as int, to as int);
    let mut value: u64 = 0;
    let mut k: usize = from;
    while k < to
        invariant
            from <= k <= to <= text@.len(),
            digits == text@.subrange(from as int, to as int),
            forall|i: int| from <= i < to ==> is_digit(#[trigger] text@[i]),
            value == digits_value(digits.take(k - from)),
            value <= u32::MAX,
        decreases to - k,
    {
        let d: u64 = (text[k] - 0x30) as u64;
        assert(digits.take(k - from + 1).drop_last() =~= digits.take(k - from));
        assert(digits.take(k - from + 1).last() == text@[k as int]);
        value = 10 * value + d;
        if value > 0xffff_ffff {
            proof {
                lemma_digits_value_grows(digits, k - from + 1);
            }
            return None;
        }
        k += 1;
    }
    assert(digits.take(to - from) =~= digits);
    Some(value as u32)
}

/// The position that `text` reports: the two numbers of the first pair of
/// numbers in it, if a comma joins them and each fits in 32 bits.
pub fn parse_position(text: &[u8]) -> (position: Option<(u32, u32)>)
    ensures
        position == position_of(text@),
{
    let mut start: usize = 0;
    while start < text.len()
        invariant
            start <= text@.len(),
            first_pair(text@, 0) == first_pair(text@, start as int),
        decreases text@.len() - start,
    {
        let joint: usize = scan_run(text, start);
        proof {
            lemma_run_end(text@, start as int);
        }
        if start < joint && joint < text.len() && joint + 1 < text.len() && (text[joint] == COMMA
            || text[joint] == TIMES) && digit(text[joint + 1]) {
            let end: usize = scan_run(text, joint + 1);
            proof {
                lemma_run_end(text@, joint + 1);
            }
            if text[joint] != COMMA {
                return None;
            }
            let x = read_number(text, start, joint);
            let y = read_number(text, joint + 1, end);
            return match (x, y) {
                (Some(x), Some(y)) => Some((x, y)),
                _ => None,
            };
        }
        let next: usize = if joint > start {
            joint
        } else {
            start + 1
        };
        proof {
            assert forall|i: int| start <= i < next implies !pair_begins(text@, i) by {
                assert(run_end(text@, i) == joint);
            }
            lemma_first_pair_skip(text@, start as int, next as int);
        }
        start = next;
    }
    None
}

} // verus!
