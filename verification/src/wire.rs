//! What goes over the wire: the request that asks for a frame, and the
//! framed message that carries one.

use vstd::prelude::*;
use crate::img::{interleave, RgbImage};

verus! {

/// The byte between the fields of a framed message, `|`.
pub const SEPARATOR: u8 = 0x7c;

/// The request that asks for the latest frame: the four letters `more`.
pub open spec fn more_token() -> Seq<u8> {
    seq![0x6d, 0x6f, 0x72, 0x65]
}

/// `n` in decimal ASCII digits, without sign or leading zeros.
pub open spec fn decimal_digits(n: nat) -> Seq<u8>
    decreases n,
{
    if n < 10 {
        seq![(0x30 + n) as u8]
    } else {
        decimal_digits(n / 10).push((0x30 + n % 10) as u8)
    }
}

/// The message that carries a frame: the height in decimal, the
/// separator, the number of payload bytes in decimal, the separator, and the
/// payload itself. The width is not sent: it is the payload length divided by
/// the height and by three.
pub open spec fn frame_message(height: nat, payload: Seq<u8>) -> Seq<u8> {
    decimal_digits(height) + seq![SEPARATOR] + decimal_digits(payload.len()) + seq![SEPARATOR]
        + payload
}

/// A number has at least one digit, and every digit is a digit.
pub proof fn lemma_decimal_digits(n: nat)
    ensures
        decimal_digits(n).len() >= 1,
        forall|i: int|
            0 <= i < decimal_digits(n).len() ==> 0x30 <= #[trigger] decimal_digits(n)[i] <= 0x39,
    decreases n,
{
    if n >= 10 {
        lemma_decimal_digits(n / 10);
    }
}

/// Different numbers have different digits.
pub proof fn lemma_decimal_digits_injective(a: nat, b: nat)
    requires
        decimal_digits(a) == decimal_digits(b),
    ensures
        a == b,
    decreases a,
{
    lemma_decimal_digits(a / 10);
    lemma_decimal_digits(b / 10);
    if a >= 10 && b >= 10 {
        let front_a = decimal_digits(a / 10);
        let front_b = decimal_digits(b / 10);
        let last_a = (0x30 + a % 10) as u8;
        let last_b = (0x30 + b % 10) as u8;
        assert(front_a.push(last_a).drop_last() =~= front_a);
        assert(front_b.push(last_b).drop_last() =~= front_b);
        assert(front_a.push(last_a).last() == last_a);
        assert(front_b.push(last_b).last() == last_b);
        lemma_decimal_digits_injective(a / 10, b / 10);
    } else if a >= 10 {
        assert(decimal_digits(a).len() == decimal_digits(a / 10).len() + 1);
        assert(decimal_digits(b).len() == 1);
    } else if b >= 10 {
        assert(decimal_digits(b).len() == decimal_digits(b / 10).len() + 1);
        assert(decimal_digits(a).len() == 1);
    } else {
        assert(decimal_digits(a)[0] == (0x30 + a) as u8);
        assert(decimal_digits(b)[0] == (0x30 + b) as u8);
    }
}

/// A field of digits ends where the separator stands: two messages that
/// begin with such a field and are the same have the same field and the same
/// rest.
proof fn lemma_field_split(field1: Seq<u8>, rest1: Seq<u8>, field2: Seq<u8>, rest2: Seq<u8>)
    requires
        forall|i: int| 0 <= i < field1.len() ==> #[trigger] field1[i] != SEPARATOR,
        forall|i: int| 0 <= i < field2.len() ==> #[trigger] field2[i] != SEPARATOR,
        field1 + seq![SEPARATOR] + rest1 == field2 + seq![SEPARATOR] + rest2,
    ensures
        field1 == field2,
        rest1 == rest2,
{
    let m1 = field1 + seq![SEPARATOR] + rest1;
    let m2 = field2 + seq![SEPARATOR] + rest2;
    let n1 = field1.len() as int;
    let n2 = field2.len() as int;
    assert(m1[n1] == SEPARATOR);
    assert(m2[n2] == SEPARATOR);
    if n1 < n2 {
        assert(m2[n1] == field2[n1]);
    } else if n2 < n1 {
        assert(m1[n2] == field1[n2]);
    }
    assert(n1 == n2);
    assert forall|i: int| 0 <= i < n1 implies field1[i] == field2[i] by {
        assert(m1[i] == field1[i]);
        assert(m2[i] == field2[i]);
    }
    assert(field1 =~= field2);
    assert(m1.len() == n1 + 1 + rest1.len());
    assert(m2.len() == n2 + 1 + rest2.len());
    assert forall|i: int| 0 <= i < rest1.len() implies rest1[i] == rest2[i] by {
        assert(m1[n1 + 1 + i] == rest1[i]);
        assert(m2[n2 + 1 + i] == rest2[i]);
    }
    assert(rest1 =~= rest2);
}

/// A framed message tells its height and its payload: messages of
/// different frames differ.
pub proof fn lemma_frame_message_injective(
    height1: nat,
    payload1: Seq<u8>,
    height2: nat,
    payload2: Seq<u8>,
)
    requires
        frame_message(height1, payload1) == frame_message(height2, payload2),
    ensures
        height1 == height2,
        payload1 == payload2,
{
    lemma_decimal_digits(height1);
    lemma_decimal_digits(height2);
    lemma_decimal_digits(payload1.len());
    lemma_decimal_digits(payload2.len());
    let tail1 = decimal_digits(payload1.len()) + seq![SEPARATOR] + payload1;
    let tail2 = decimal_digits(payload2.len()) + seq![SEPARATOR] + payload2;
    assert(frame_message(height1, payload1) =~= decimal_digits(height1) + seq![SEPARATOR] + tail1);
    assert(frame_message(height2, payload2) =~= decimal_digits(height2) + seq![SEPARATOR] + tail2);
    lemma_field_split(decimal_digits(height1), tail1, decimal_digits(height2), tail2);
    lemma_decimal_digits_injective(height1, height2);
    lemma_field_split(
        decimal_digits(payload1.len()),
        payload1,
        decimal_digits(payload2.len()),
        payload2,
    );
}

/// A framed message is never the empty reply that stands for "nothing
/// new".
pub proof fn lemma_frame_message_not_empty(height: nat, payload: Seq<u8>)
    ensures
        frame_message(height, payload).len() >= payload.len() + 4,
{
    lemma_decimal_digits(height);
    lemma_decimal_digits(payload.len());
}

/// The width of a sent raster can be had back from the two numbers of its
/// message.
pub proof fn lemma_width_recoverable(width: nat, height: nat, pixels: Seq<[u8; 3]>)
    requires
        pixels.len() == width * height,
        height > 0,
    ensures
        interleave(pixels).len() / height / 3 == width,
{
    let w = width as int;
    let h = height as int;
    assert((3 * (w * h)) / h == 3 * w) by (nonlinear_arith)
        requires
            h > 0,
            w >= 0,
    ;
}

/// Appends `n` in decimal ASCII digits to `out`.
fn push_decimal(out: &mut Vec<u8>, n: u64)
    ensures
        final(out)@ == old(out)@ + decimal_digits(n as nat),
    decreases n,
{
    if n >= 10 {
        push_decimal(out, n / 10);
    }
    out.push(0x30 + (n % 10) as u8);
    assert(out@ =~= old(out)@ + decimal_digits(n as nat));
}

/// `n` in decimal ASCII digits, without sign or leading zeros.
pub fn decimal_ascii(n: u64) -> (digits: Vec<u8>)
    ensures
        digits@ == decimal_digits(n as nat),
{
    let mut digits: Vec<u8> = Vec::new();
    push_decimal(&mut digits, n);
    assert(digits@ =~= decimal_digits(n as nat));
    digits
}

/// The message that carries `image` to a client.
pub fn encode_frame(image: &RgbImage) -> (message: Vec<u8>)
    ensures
        message@ == frame_message(image@.height, interleave(image@.pixels)),
{
    let mut payload: Vec<u8> = image.as_vec_u8();
    let mut message: Vec<u8> = decimal_ascii(image.height() as u64);
    message.push(SEPARATOR);
    let mut length: Vec<u8> = decimal_ascii(payload.len() as u64);
    message.append(&mut length);
    message.push(SEPARATOR);
    message.append(&mut payload);
    message
}

/// True if `request` asks for the latest frame: if it is the token `more`
/// and nothing else.
pub fn is_more_request(request: &[u8]) -> (more: bool)
    ensures
        more == (request@ == more_token()),
{
    let more: bool = request.len() == 4 && request[0] == 0x6d && request[1] == 0x6f && request[2]
        == 0x72 && request[3] == 0x65;
    assert(more ==> request@ =~= more_token());
    more
}

} // verus!
