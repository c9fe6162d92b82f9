use vstd::prelude::*;

verus! {

/// The lowercase hexadecimal digit that stands for a value below sixteen.
pub open spec fn hex_digit(nibble: int) -> char {
    if nibble == 0 {
        '0'
    } else if nibble == 1 {
        '1'
    } else if nibble == 2 {
        '2'
    } else if nibble == 3 {
        '3'
    } else if nibble == 4 {
        '4'
    } else if nibble == 5 {
        '5'
    } else if nibble == 6 {
        '6'
    } else if nibble == 7 {
        '7'
    } else if nibble == 8 {
        '8'
    } else if nibble == 9 {
        '9'
    } else if nibble == 10 {
        'a'
    } else if nibble == 11 {
        'b'
    } else if nibble == 12 {
        'c'
    } else if nibble == 13 {
        'd'
    } else if nibble == 14 {
        'e'
    } else {
        'f'
    }
}

/// The lowercase hexadecimal text of a byte string: two digits per byte, the
/// high half of each byte first.
pub open spec fn hex_encoding(bytes: Seq<u8>) -> Seq<char> {
    Seq::new(
        2 * bytes.len(),
        |i: int|
            if i % 2 == 0 {
                hex_digit(bytes[i / 2] as int / 16)
            } else {
                hex_digit(bytes[i / 2] as int % 16)
            },
    )
}

/// Whether a character is one of the sixteen lowercase hexadecimal digits.
pub open spec fn is_hex_digit(c: char) -> bool {
    ('0' <= c && c <= '9') || ('a' <= c && c <= 'f')
}

/// Every character of a hexadecimal encoding is a lowercase hexadecimal
/// digit, and there are two of them for each byte.
pub proof fn lemma_hex_encoding_shape(bytes: Seq<u8>)
    ensures
        hex_encoding(bytes).len() == 2 * bytes.len(),
        forall|i: int| 0 <= i < 2 * bytes.len() ==> is_hex_digit(#[trigger] hex_encoding(bytes)[i]),
{
    assert forall|i: int| 0 <= i < 2 * bytes.len() implies is_hex_digit(
        #[trigger] hex_encoding(bytes)[i],
    ) by {
        let b: int = bytes[i / 2] as int;
        assert(0 <= b / 16 < 16 && 0 <= b % 16 < 16);
    }
}

/// Two digits below sixteen that are written alike are equal.
pub proof fn lemma_hex_digit_injective(m: int, n: int)
    requires
        0 <= m < 16,
        0 <= n < 16,
        hex_digit(m) == hex_digit(n),
    ensures
        m == n,
{
}

/// Byte strings with the same hexadecimal text are the same byte string: the
/// text loses nothing of the bytes.
pub proof fn lemma_hex_encoding_injective(a: Seq<u8>, b: Seq<u8>)
    requires
        hex_encoding(a) == hex_encoding(b),
    ensures
        a == b,
{
    assert(hex_encoding(a).len() == 2 * a.len());
    assert(hex_encoding(b).len() == 2 * b.len());
    assert(a.len() == b.len());
    assert forall|k: int| 0 <= k < a.len() implies a[k] == b[k] by {
        let x: int = a[k] as int;
        let y: int = b[k] as int;
        assert((2 * k) % 2 == 0 && (2 * k) / 2 == k);
        assert((2 * k + 1) % 2 == 1 && (2 * k + 1) / 2 == k);
        assert(hex_encoding(a)[2 * k] == hex_digit(x / 16));
        assert(hex_encoding(b)[2 * k] == hex_digit(y / 16));
        assert(hex_encoding(a)[2 * k + 1] == hex_digit(x % 16));
        assert(hex_encoding(b)[2 * k + 1] == hex_digit(y % 16));
        lemma_hex_digit_injective(x / 16, y / 16);
        lemma_hex_digit_injective(x % 16, y % 16);
        assert(x == 16 * (x / 16) + x % 16);
        assert(y == 16 * (y / 16) + y % 16);
    }
    assert(a =~= b);
}

/// Calls `hex::encode`, which writes each byte of its input as two lowercase
/// hexadecimal digits, high half first, and nothing else.
#[verifier::external_body]
pub(crate) fn hex_encode(bytes: &Vec<u8>) -> (text: String)
    ensures
        text@ == hex_encoding(bytes@),
{
    hex::encode(bytes)
}

} // verus!
