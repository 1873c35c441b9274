use vstd::prelude::*;

verus! {

/// The lower-case hexadecimal digit for `n` (below 16), as an ASCII byte.
pub open spec fn hex_digit(n: int) -> u8 {
    if n < 10 {
        (48 + n) as u8
    } else {
        (87 + n) as u8
    }
}

/// Lower-case hexadecimal text of `b`: two digits per byte, the high half
/// first.
pub open spec fn hex_text(b: Seq<u8>) -> Seq<u8> {
    Seq::new(
        2 * b.len(),
        |i: int|
            if i % 2 == 0 {
                hex_digit(b[i / 2] as int / 16)
            } else {
                hex_digit(b[i / 2] as int % 16)
            },
    )
}

/// The value of one hexadecimal digit, of either case.
pub open spec fn hex_value(c: u8) -> Option<u8> {
    if 48 <= c <= 57 {
        Some((c - 48) as u8)
    } else if 97 <= c <= 102 {
        Some((c - 87) as u8)
    } else if 65 <= c <= 70 {
        Some((c - 55) as u8)
    } else {
        None
    }
}

/// The bytes that hexadecimal text `s` stands for; `None` when its length
/// is odd or it holds a byte that is no hexadecimal digit.
#[verifier::opaque]
pub open spec fn hex_bytes(s: Seq<u8>) -> Option<Seq<u8>> {
    if s.len() % 2 == 0 && forall|i: int| 0 <= i < s.len() ==> (#[trigger] hex_value(s[i])).is_some() {
        Some(
            Seq::new(
                s.len() / 2,
                |k: int| (hex_value(s[2 * k]).unwrap() * 16 + hex_value(s[2 * k + 1]).unwrap()) as u8,
            ),
        )
    } else {
        None
    }
}

/// ASCII bytes read as characters.
pub open spec fn ascii_chars(s: Seq<u8>) -> Seq<char> {
    s.map_values(|c: u8| c as char)
}

/// Relies on `hex::encode`: two lower-case digits per byte, high half first.
#[verifier::external_body]
pub(crate) fn hex_encode(b: &[u8]) -> (r: String)
    ensures
        r@ == ascii_chars(hex_text(b@)),
{
    hex::encode(b)
}

/// Relies on `hex::decode`: fails on odd length or a byte outside
/// `0-9a-fA-F`, else gives one byte per pair of digits.
#[verifier::external_body]
pub(crate) fn hex_decode(s: &[u8]) -> (r: Option<Vec<u8>>)
    ensures
        match r {
            Some(v) => hex_bytes(s@) == Some(v@),
            None => hex_bytes(s@).is_none(),
        },
{
    hex::decode(s).ok()
}

/// Decoded hexadecimal text is half as long as the text.
pub proof fn lemma_hex_bytes_len(s: Seq<u8>)
    ensures
        hex_bytes(s) matches Some(b) ==> b.len() == s.len() / 2,
{
    reveal(hex_bytes);
}

/// Hexadecimal text is twice as long as its bytes and made of lower-case
/// hexadecimal digits.
pub proof fn lemma_hex_text_shape(b: Seq<u8>)
    ensures
        hex_text(b).len() == 2 * b.len(),
        forall|i: int|
            0 <= i < hex_text(b).len() ==> {
                let c = #[trigger] hex_text(b)[i];
                48 <= c <= 57 || 97 <= c <= 102
            },
{
    reveal(hex_text);
}

proof fn lemma_digit_value(n: int)
    requires
        0 <= n < 16,
    ensures
        hex_value(hex_digit(n)) == Some(n as u8),
{
}

/// Decoding the hexadecimal text of a byte string gives the byte string back.
pub proof fn lemma_hex_round_trip(b: Seq<u8>)
    ensures
        hex_bytes(hex_text(b)) == Some(b),
{
    reveal(hex_text);
    reveal(hex_bytes);
    let s = hex_text(b);
    assert forall|i: int| 0 <= i < s.len() implies (#[trigger] hex_value(s[i])).is_some() by {
        if i % 2 == 0 {
            lemma_digit_value(b[i / 2] as int / 16);
        } else {
            lemma_digit_value(b[i / 2] as int % 16);
        }
    }
    let d = hex_bytes(s).unwrap();
    assert forall|k: int| 0 <= k < b.len() implies d[k] == b[k] by {
        assert((2 * k) / 2 == k && (2 * k) % 2 == 0);
        assert((2 * k + 1) / 2 == k && (2 * k + 1) % 2 == 1);
        lemma_digit_value(b[k] as int / 16);
        lemma_digit_value(b[k] as int % 16);
    }
    assert(d =~= b);
}

/// Two byte strings with the same hexadecimal text are equal.
pub proof fn lemma_hex_injective(a: Seq<u8>, b: Seq<u8>)
    ensures
        hex_text(a) == hex_text(b) <==> a == b,
{
    lemma_hex_round_trip(a);
    lemma_hex_round_trip(b);
}

} // verus!
