//! What the texts of numbers, sessions and addresses say, character by character.

use vstd::prelude::*;
use vstd::utf8::encode_utf8;

verus! {

use crate::endpoint::{hex_digit, hex_pair, mac_chars};
use crate::rows::row_precedes;
use crate::series::session_chars;
use crate::text::{
    bytes_precede,
    decimal,
    digit,
    lemma_decimal_digits,
    lemma_padded_len,
    padded_decimal,
    power_of_ten,
    signed_decimal,
    text_precedes,
};

/// Whether every character is a decimal digit.
pub open spec fn all_digits(text: Seq<char>) -> bool {
    forall|i: int| 0 <= i < text.len() ==> '0' <= #[trigger] text[i] <= '9'
}

/// The number that digits stand for by their places.
pub open spec fn place_value(digits: Seq<char>) -> int
    decreases digits.len(),
{
    if digits.len() == 0 {
        0
    } else {
        10 * place_value(digits.drop_last()) + (digits.last() as int - '0' as int)
    }
}

/// Whether this is a number in decimal: digits that stand for it, and no leading zero but for zero
/// itself.
pub open spec fn is_numeral(text: Seq<char>, n: int) -> bool {
    &&& text.len() > 0
    &&& all_digits(text)
    &&& place_value(text) == n
    &&& text.len() > 1 ==> text[0] != '0'
}

/// Whether this is an integer in decimal, with a minus sign where it is negative.
pub open spec fn is_integer_text(text: Seq<char>, n: int) -> bool {
    if n < 0 {
        text.len() > 0 && text[0] == '-' && is_numeral(text.skip(1), -n)
    } else {
        is_numeral(text, n)
    }
}

/// Whether this is a number in decimal, with zeros before it to fill the width.
pub open spec fn is_padded_text(text: Seq<char>, n: int, width: int) -> bool {
    text.len() == width && all_digits(text) && place_value(text) == n
}

/// Whether this is the session of a rack: its identifier, a colon, the seconds of its creation
/// time, a point, and the nanoseconds in nine digits.
pub open spec fn is_session_text(
    text: Seq<char>,
    rack_id: Seq<char>,
    seconds: int,
    nanos: int,
) -> bool {
    exists|whole: Seq<char>, fraction: Seq<char>|
        {
            &&& #[trigger] is_integer_text(whole, seconds)
            &&& #[trigger] is_padded_text(fraction, nanos, 9)
            &&& text == rack_id + seq![':'] + whole + seq!['.'] + fraction
        }
}

/// Whether the bytes `a` come before the bytes `b`: up to some place they are the same, and there
/// `a` ends or has the smaller byte.
pub open spec fn bytes_before(a: Seq<u8>, b: Seq<u8>) -> bool {
    exists|k: int|
        {
            &&& 0 <= k <= a.len()
            &&& k < b.len()
            &&& #[trigger] a.take(k) == b.take(k)
            &&& k == a.len() || a[k] < b[k]
        }
}

/// The digits of a number stand for it.
proof fn lemma_decimal_value(n: nat)
    ensures
        is_numeral(decimal(n), n as int),
    decreases n,
{
    lemma_decimal_digits(n);
    if n < 10 {
        assert(decimal(n).drop_last() =~= Seq::empty());
        assert(decimal(n).last() as int == '0' as int + n);
        assert(place_value(decimal(n).drop_last()) == 0);
    } else {
        lemma_decimal_value(n / 10);
        assert(decimal(n).drop_last() =~= decimal(n / 10));
        assert(decimal(n).last() == digit(n % 10));
        assert(digit(n % 10) as int == '0' as int + n % 10);
        assert(decimal(n)[0] == decimal(n / 10)[0]);
        if n / 10 < 10 {
            assert(decimal(n / 10)[0] == digit(n / 10));
            assert(digit(n / 10) as int == '0' as int + n / 10);
        } else {
            lemma_decimal_digits(n / 100);
            assert(decimal(n / 10).len() > 1);
        }
    }
}

/// Digits stand for a number that is not negative.
proof fn lemma_place_value_bound(text: Seq<char>)
    requires
        all_digits(text),
    ensures
        place_value(text) >= 0,
        text.len() > 0 && text[0] != '0' ==> place_value(text) >= 1,
    decreases text.len(),
{
    if text.len() > 0 {
        assert(all_digits(text.drop_last())) by {
            assert forall|i: int| 0 <= i < text.drop_last().len() implies '0' <= #[trigger]
                text.drop_last()[i] <= '9' by {
                assert(text.drop_last()[i] == text[i]);
            }
        }
        lemma_place_value_bound(text.drop_last());
        assert('0' <= text[text.len() - 1] <= '9');
        if text.len() > 1 {
            assert(text.drop_last()[0] == text[0]);
        }
    }
}

/// There is one way to write a number in decimal.
proof fn lemma_numeral_is_decimal(text: Seq<char>, n: int)
    requires
        is_numeral(text, n),
    ensures
        n >= 0,
        text == decimal(n as nat),
    decreases text.len(),
{
    let init = text.drop_last();
    let last = text.last();
    lemma_place_value_bound(text);
    assert('0' <= text[text.len() - 1] <= '9');
    assert forall|i: int| 0 <= i < init.len() implies '0' <= #[trigger] init[i] <= '9' by {
        assert(init[i] == text[i]);
    }
    let d = (last as int - '0' as int) as nat;
    assert(digit(d) == last);
    if text.len() == 1 {
        assert(place_value(init) == 0);
        assert(text =~= seq![last]);
    } else {
        assert(init[0] == text[0]);
        lemma_place_value_bound(init);
        let tens = place_value(init);
        assert(n == 10 * tens + d);
        assert(n / 10 == tens && n % 10 == d);
        lemma_numeral_is_decimal(init, tens);
        assert(text =~= init.push(last));
    }
}

/// The digits of a number that fits in the width stand for it.
proof fn lemma_padded_value(n: nat, width: nat)
    requires
        n < power_of_ten(width),
    ensures
        is_padded_text(padded_decimal(n, width), n as int, width as int),
    decreases width,
{
    lemma_padded_len(n, width);
    if width > 0 {
        let w = (width - 1) as nat;
        let text = padded_decimal(n, width);
        lemma_padded_value(n / 10, w);
        assert(text.drop_last() =~= padded_decimal(n / 10, w));
        assert(text.last() == digit(n % 10));
        assert(digit(n % 10) as int == '0' as int + n % 10);
        assert forall|i: int| 0 <= i < text.len() implies '0' <= #[trigger] text[i] <= '9' by {
            if i < text.len() - 1 {
                assert(text[i] == padded_decimal(n / 10, w)[i]);
            }
        }
    }
}

/// There is one way to write a number in a width.
proof fn lemma_padded_is_decimal(text: Seq<char>, n: int, width: nat)
    requires
        is_padded_text(text, n, width as int),
    ensures
        n >= 0,
        text == padded_decimal(n as nat, width),
    decreases width,
{
    lemma_place_value_bound(text);
    if width == 0 {
        assert(text =~= Seq::empty());
    } else {
        let init = text.drop_last();
        let last = text.last();
        assert('0' <= text[text.len() - 1] <= '9');
        assert forall|i: int| 0 <= i < init.len() implies '0' <= #[trigger] init[i] <= '9' by {
            assert(init[i] == text[i]);
        }
        let d = (last as int - '0' as int) as nat;
        assert(digit(d) == last);
        lemma_padded_is_decimal(init, place_value(init), (width - 1) as nat);
        assert(n / 10 == place_value(init) && n % 10 == d);
        assert(text =~= init.push(last));
    }
}

/// Law: the text of an integer is that integer in decimal, and nothing else is.
pub proof fn law_integer_text(text: Seq<char>, n: int)
    ensures
        text == signed_decimal(n) <==> is_integer_text(text, n),
{
    if n < 0 {
        lemma_decimal_value((-n) as nat);
        assert(signed_decimal(n).skip(1) =~= decimal((-n) as nat));
        if is_integer_text(text, n) {
            lemma_numeral_is_decimal(text.skip(1), -n);
            assert(text =~= seq!['-'] + text.skip(1));
        }
    } else {
        lemma_decimal_value(n as nat);
        if is_integer_text(text, n) {
            lemma_numeral_is_decimal(text, n);
        }
    }
}

/// Law: the session of a rack names the rack and its creation time, and nothing else is its session.
pub proof fn law_session_text(text: Seq<char>, rack_id: Seq<char>, seconds: int, nanos: nat)
    requires
        nanos < 1_000_000_000,
    ensures
        text == session_chars(rack_id, seconds, nanos) <==> is_session_text(
            text,
            rack_id,
            seconds,
            nanos as int,
        ),
{
    let whole = signed_decimal(seconds);
    let fraction = padded_decimal(nanos, 9);
    law_integer_text(whole, seconds);
    assert(power_of_ten(9) == 1_000_000_000) by {
        reveal_with_fuel(power_of_ten, 10);
    }
    lemma_padded_value(nanos, 9);
    assert(is_integer_text(whole, seconds) && is_padded_text(fraction, nanos as int, 9));
    if is_session_text(text, rack_id, seconds, nanos as int) {
        let (w, f) = choose|w: Seq<char>, f: Seq<char>|
            {
                &&& #[trigger] is_integer_text(w, seconds)
                &&& #[trigger] is_padded_text(f, nanos as int, 9)
                &&& text == rack_id + seq![':'] + w + seq!['.'] + f
            };
        law_integer_text(w, seconds);
        lemma_padded_is_decimal(f, nanos as int, 9);
    }
}

/// The order of bytes is decided where they first differ.
proof fn lemma_bytes_before(a: Seq<u8>, b: Seq<u8>)
    ensures
        bytes_precede(a, b) <==> bytes_before(a, b),
    decreases a.len(),
{
    if a.len() > 0 && b.len() > 0 {
        let x = a.skip(1);
        let y = b.skip(1);
        lemma_bytes_before(x, y);
        if a[0] < b[0] {
            assert(a.take(0) =~= b.take(0));
        }
        if a[0] == b[0] && bytes_before(x, y) {
            let k = choose|k: int|
                {
                    &&& 0 <= k <= x.len()
                    &&& k < y.len()
                    &&& #[trigger] x.take(k) == y.take(k)
                    &&& k == x.len() || x[k] < y[k]
                };
            assert(a.take(k + 1) =~= seq![a[0]] + x.take(k));
            assert(b.take(k + 1) =~= seq![b[0]] + y.take(k));
        }
        if bytes_before(a, b) {
            let k = choose|k: int|
                {
                    &&& 0 <= k <= a.len()
                    &&& k < b.len()
                    &&& #[trigger] a.take(k) == b.take(k)
                    &&& k == a.len() || a[k] < b[k]
                };
            if k > 0 {
                assert(a.take(k)[0] == a[0] && b.take(k)[0] == b[0]);
                assert(x.take(k - 1) =~= a.take(k).skip(1));
                assert(y.take(k - 1) =~= b.take(k).skip(1));
            }
        }
    } else if a.len() == 0 && b.len() > 0 {
        assert(a.take(0) =~= b.take(0));
    }
}

/// Law: texts are ordered by the bytes of their encoding, at the first place where they differ.
pub proof fn law_texts_are_ordered_by_bytes(a: Seq<char>, b: Seq<char>)
    ensures
        text_precedes(a, b) <==> bytes_before(encode_utf8(a), encode_utf8(b)),
{
    lemma_bytes_before(encode_utf8(a), encode_utf8(b));
}

/// Law: rows are ordered by the first text in which they differ.
pub proof fn law_rows_are_ordered_by_texts(a: Seq<Seq<char>>, b: Seq<Seq<char>>)
    requires
        a.len() == b.len(),
    ensures
        row_precedes(a, b) <==> exists|k: int|
            {
                &&& 0 <= k < a.len()
                &&& #[trigger] a.take(k) == b.take(k)
                &&& bytes_before(encode_utf8(a[k]), encode_utf8(b[k]))
            },
    decreases a.len(),
{
    if a.len() > 0 {
        let x = a.skip(1);
        let y = b.skip(1);
        law_rows_are_ordered_by_texts(x, y);
        law_texts_are_ordered_by_bytes(a[0], b[0]);
        if text_precedes(a[0], b[0]) {
            assert(a.take(0) =~= b.take(0));
        }
        if a[0] == b[0] && row_precedes(x, y) {
            let k = choose|k: int|
                {
                    &&& 0 <= k < x.len()
                    &&& #[trigger] x.take(k) == y.take(k)
                    &&& bytes_before(encode_utf8(x[k]), encode_utf8(y[k]))
                };
            assert(a.take(k + 1) =~= seq![a[0]] + x.take(k));
            assert(b.take(k + 1) =~= seq![b[0]] + y.take(k));
            assert(a[k + 1] == x[k] && b[k + 1] == y[k]);
        }
        if exists|k: int|
            {
                &&& 0 <= k < a.len()
                &&& #[trigger] a.take(k) == b.take(k)
                &&& bytes_before(encode_utf8(a[k]), encode_utf8(b[k]))
            } {
            let k = choose|k: int|
                {
                    &&& 0 <= k < a.len()
                    &&& #[trigger] a.take(k) == b.take(k)
                    &&& bytes_before(encode_utf8(a[k]), encode_utf8(b[k]))
                };
            if k > 0 {
                assert(a.take(k)[0] == a[0] && b.take(k)[0] == b[0]);
                assert(x.take(k - 1) =~= a.take(k).skip(1));
                assert(y.take(k - 1) =~= b.take(k).skip(1));
                assert(x[k - 1] == a[k] && y[k - 1] == b[k]);
            }
        }
    }
}

/// The number that an upper-case hexadecimal digit stands for.
pub open spec fn hex_value(c: char) -> int {
    if '0' <= c <= '9' {
        c as int - '0' as int
    } else {
        c as int - 'A' as int + 10
    }
}

/// Whether this is an upper-case hexadecimal digit.
pub open spec fn is_hex_digit(c: char) -> bool {
    '0' <= c <= '9' || 'A' <= c <= 'F'
}

/// Law: the text of a MAC address is its six bytes, each as two upper-case hexadecimal digits, with
/// a colon between two bytes.
pub proof fn law_mac_text(mac: Seq<u8>)
    ensures
        mac_chars(mac).len() == 17,
        forall|i: int|
            0 <= i < 6 ==> {
                let high = mac_chars(mac)[3 * i];
                let low = mac_chars(mac)[3 * i + 1];
                is_hex_digit(high) && is_hex_digit(low) && 16 * hex_value(high) + hex_value(low)
                    == #[trigger] mac[i]
            },
        mac_chars(mac)[2] == ':',
        mac_chars(mac)[5] == ':',
        mac_chars(mac)[8] == ':',
        mac_chars(mac)[11] == ':',
        mac_chars(mac)[14] == ':',
{
    let text = mac_chars(mac);
    assert forall|i: int| 0 <= i < 6 implies {
        let high = text[3 * i];
        let low = text[3 * i + 1];
        is_hex_digit(high) && is_hex_digit(low) && 16 * hex_value(high) + hex_value(low)
            == #[trigger] mac[i]
    } by {
        lemma_hex_pair(mac[i]);
        assert(text[3 * i] == hex_pair(mac[i])[0]);
        assert(text[3 * i + 1] == hex_pair(mac[i])[1]);
    }
}

/// Two hexadecimal digits stand for their byte.
proof fn lemma_hex_pair(b: u8)
    ensures
        is_hex_digit(hex_pair(b)[0]),
        is_hex_digit(hex_pair(b)[1]),
        16 * hex_value(hex_pair(b)[0]) + hex_value(hex_pair(b)[1]) == b,
{
    let high = b as nat / 16;
    let low = b as nat % 16;
    lemma_hex_digit(high);
    lemma_hex_digit(low);
    assert(b == 16 * high + low);
}

/// A hexadecimal digit stands for its number.
proof fn lemma_hex_digit(d: nat)
    requires
        d < 16,
    ensures
        is_hex_digit(hex_digit(d)),
        hex_value(hex_digit(d)) == d,
{
    if d < 10 {
        assert(hex_digit(d) as int == '0' as int + d);
    } else {
        assert(hex_digit(d) as int == 'A' as int + d - 10);
    }
}

} // verus!
