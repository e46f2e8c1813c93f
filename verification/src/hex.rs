//! Lower-case hexadecimal text: how a digest is written, and the test for
//! the run of zero digits that a proof-of-work target asks for.

use vstd::prelude::*;

verus! {

/// The lower-case hex digit that stands for `v`.
pub open spec fn hex_digit(v: u8) -> char
    recommends
        v < 16,
{
    if v < 10 {
        (48 + v) as u8 as char
    } else {
        (87 + v) as u8 as char
    }
}

/// The hex digit at position `i` of the text for `bytes`: the high half of
/// byte `i / 2` at even positions, its low half at odd ones.
pub open spec fn hex_at(bytes: Seq<u8>, i: int) -> char {
    if i % 2 == 0 {
        hex_digit(bytes[i / 2] / 16)
    } else {
        hex_digit(bytes[i / 2] % 16)
    }
}

/// The lower-case hex text of `bytes`: two digits per byte, high half first.
pub open spec fn lower_hex(bytes: Seq<u8>) -> Seq<char> {
    Seq::new(2 * bytes.len(), |i: int| hex_at(bytes, i))
}

/// Whether `text` starts with `count` zero digits.
pub open spec fn has_zero_prefix(text: Seq<char>, count: nat) -> bool {
    &&& count <= text.len()
    &&& forall|i: int| 0 <= i < count ==> text[i] == '0'
}

/// Different values below sixteen have different hex digits.
pub proof fn lemma_hex_digit_injective(a: u8, b: u8)
    requires
        a < 16,
        b < 16,
        hex_digit(a) == hex_digit(b),
    ensures
        a == b,
{
}

/// Hex text determines the bytes it was written from.
pub proof fn lemma_lower_hex_injective(a: Seq<u8>, b: Seq<u8>)
    requires
        lower_hex(a) == lower_hex(b),
    ensures
        a == b,
{
    assert(lower_hex(a).len() == 2 * a.len());
    assert(lower_hex(b).len() == 2 * b.len());
    assert forall|k: int| 0 <= k < a.len() implies a[k] == b[k] by {
        assert(lower_hex(a)[2 * k] == hex_digit(a[k] / 16));
        assert(lower_hex(b)[2 * k] == hex_digit(b[k] / 16));
        assert(lower_hex(a)[2 * k + 1] == hex_digit(a[k] % 16));
        assert(lower_hex(b)[2 * k + 1] == hex_digit(b[k] % 16));
        lemma_hex_digit_injective(a[k] / 16, b[k] / 16);
        lemma_hex_digit_injective(a[k] % 16, b[k] % 16);
    }
    assert(a =~= b);
}

/// The number that `bytes` write in base 256, most significant byte first.
pub open spec fn big_endian(bytes: Seq<u8>) -> nat
    decreases bytes.len(),
{
    if bytes.len() == 0 {
        0
    } else {
        256 * big_endian(bytes.drop_last()) + bytes.last() as nat
    }
}

/// Sixteen to the power `n`.
pub open spec fn pow16(n: nat) -> nat
    decreases n,
{
    if n == 0 {
        1
    } else {
        16 * pow16((n - 1) as nat)
    }
}

/// Only the value zero is written with the digit `0`.
pub proof fn lemma_zero_digit(v: u8)
    requires
        v < 16,
    ensures
        hex_digit(v) == '0' <==> v == 0,
{
}

/// A proof-of-work target read as a bound: the hex text of `bytes` starts
/// with `count` zero digits exactly when `bytes`, read as a number, is below
/// sixteen to the power of the number of digits that are left.
pub proof fn lemma_zero_prefix_bounds_value(bytes: Seq<u8>, count: nat)
    requires
        count <= 2 * bytes.len(),
    ensures
        has_zero_prefix(lower_hex(bytes), count) <==> big_endian(bytes) < pow16(
            (2 * bytes.len() - count) as nat,
        ),
    decreases bytes.len(),
{
    let n = bytes.len() as int;
    if n > 0 {
        let front = bytes.drop_last();
        let last = bytes.last();
        let text = lower_hex(bytes);
        let front_text = lower_hex(front);
        let inner = if count <= 2 * n - 2 {
            count
        } else {
            (2 * n - 2) as nat
        };
        lemma_zero_prefix_bounds_value(front, inner);
        assert forall|i: int| 0 <= i < 2 * n - 2 implies text[i] == front_text[i] by {
            assert(bytes[i / 2] == front[i / 2]);
        }
        assert(text[2 * n - 2] == hex_digit(last / 16));
        assert(text[2 * n - 1] == hex_digit(last % 16));
        lemma_zero_digit(last / 16);
        lemma_zero_digit(last % 16);
        assert(has_zero_prefix(text, inner) <==> has_zero_prefix(front_text, inner)) by {
            if has_zero_prefix(text, inner) {
                assert forall|i: int| 0 <= i < inner implies front_text[i] == '0' by {
                    assert(text[i] == '0');
                }
            }
            if has_zero_prefix(front_text, inner) {
                assert forall|i: int| 0 <= i < inner implies text[i] == '0' by {
                    assert(front_text[i] == '0');
                }
            }
        }
        let room = (2 * n - 2 - inner) as nat;
        assert(pow16(room + 2) == 256 * pow16(room)) by {
            assert(pow16(room + 2) == 16 * pow16(room + 1));
            assert(pow16(room + 1) == 16 * pow16(room));
        }
        if count <= 2 * n - 2 {
            assert((2 * n - count) as nat == room + 2);
        } else {
            assert(room == 0);
            assert(pow16(0) == 1);
            assert(pow16(1) == 16) by {
                assert(pow16(1) == 16 * pow16(0));
            }
            if count == 2 * n - 1 {
                assert(has_zero_prefix(text, count) <==> has_zero_prefix(text, inner) && last / 16
                    == 0) by {
                    if has_zero_prefix(text, count) {
                        assert(text[2 * n - 2] == '0');
                        assert forall|i: int| 0 <= i < inner implies text[i] == '0' by {}
                    }
                }
            } else {
                assert(has_zero_prefix(text, count) <==> has_zero_prefix(text, inner) && last
                    == 0) by {
                    if has_zero_prefix(text, count) {
                        assert(text[2 * n - 2] == '0');
                        assert(text[2 * n - 1] == '0');
                        assert forall|i: int| 0 <= i < inner implies text[i] == '0' by {}
                    }
                }
            }
        }
    }
}

fn hex_char(v: u8) -> (c: char)
    requires
        v < 16,
    ensures
        c == hex_digit(v),
{
    if v < 10 {
        (48u8 + v) as char
    } else {
        (87u8 + v) as char
    }
}

/// Writes `bytes` as lower-case hex text.
pub fn to_hex(bytes: &[u8]) -> (text: String)
    ensures
        text@ == lower_hex(bytes@),
{
    let mut text = String::new();
    let mut i: usize = 0;
    while i < bytes.len()
        invariant
            i <= bytes@.len(),
            text@ == lower_hex(bytes@.take(i as int)),
        decreases bytes@.len() - i,
    {
        let b: u8 = bytes[i];
        text.push(hex_char(b / 16));
        text.push(hex_char(b % 16));
        proof {
            let before = bytes@.take(i as int);
            let after = bytes@.take(i + 1);
            assert(after == before.push(b));
            assert(text@ =~= lower_hex(after)) by {
                assert forall|k: int| 0 <= k < 2 * (i + 1) implies text@[k] == hex_at(after, k) by {
                    if k < 2 * i {
                        assert(text@[k] == lower_hex(before)[k]);
                        assert(after[k / 2] == before[k / 2]);
                    }
                }
            }
        }
        i += 1;
    }
    assert(bytes@.take(i as int) == bytes@);
    text
}

/// Tests whether `text` starts with `count` zero digits.
pub fn starts_with_zeros(text: &str, count: usize) -> (yes: bool)
    ensures
        yes == has_zero_prefix(text@, count as nat),
{
    if count > text.unicode_len() {
        return false;
    }
    let mut i: usize = 0;
    while i < count
        invariant
            i <= count <= text@.len(),
            forall|k: int| 0 <= k < i ==> text@[k] == '0',
        decreases count - i,
    {
        if text.get_char(i) != '0' {
            return false;
        }
        i += 1;
    }
    true
}

} // verus!
