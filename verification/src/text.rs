use vstd::prelude::*;

verus! {

/// The characters that `String::from_utf8_lossy` makes of some bytes.
pub uninterp spec fn utf8_lossy(bytes: Seq<u8>) -> Seq<char>;

/// Bytes that are all ASCII.
pub open spec fn is_ascii_bytes(bytes: Seq<u8>) -> bool {
    forall|i: int| 0 <= i < bytes.len() ==> #[trigger] bytes[i] < 0x80
}

/// Each byte as the character with that code.
pub open spec fn ascii_chars(bytes: Seq<u8>) -> Seq<char> {
    Seq::new(bytes.len(), |i: int| bytes[i] as char)
}

/// Calls `String::from_utf8_lossy`, which decodes UTF-8 and puts U+FFFD in
/// place of invalid sequences; ASCII bytes decode to the characters with
/// their codes. What it gives for other bytes is named, not stated.
#[verifier::external_body]
pub(crate) fn string_from_utf8_lossy(bytes: &[u8]) -> (r: String)
    ensures
        r@ == utf8_lossy(bytes@),
        is_ascii_bytes(bytes@) ==> r@ == ascii_chars(bytes@),
{
    String::from_utf8_lossy(bytes).into_owned()
}

/// The lowercase hexadecimal digit for a value below 16.
pub open spec fn hex_digit(n: u8) -> u8 {
    if n < 10 {
        (0x30 + n) as u8
    } else {
        (0x61 + n - 10) as u8
    }
}

/// Two lowercase hexadecimal digits per byte, high digit first.
pub open spec fn hex_bytes(data: Seq<u8>) -> Seq<u8> {
    Seq::new(
        2 * data.len(),
        |i: int|
            if i % 2 == 0 {
                hex_digit(data[i / 2] / 16)
            } else {
                hex_digit(data[i / 2] % 16)
            },
    )
}

/// The lowercase hexadecimal text of some bytes, two digits a byte.
pub fn to_hex(data: &[u8]) -> (r: Vec<u8>)
    requires
        data@.len() < 0x4000_0000,
    ensures
        r@ == hex_bytes(data@),
        is_ascii_bytes(r@),
{
    let mut r: Vec<u8> = Vec::new();
    let mut i: usize = 0;
    while i < data.len()
        invariant
            i <= data@.len(),
            data@.len() < 0x4000_0000,
            r@ == hex_bytes(data@.subrange(0, i as int)),
        decreases data@.len() - i,
    {
        let b = data[i];
        let high = b / 16;
        let low = b % 16;
        r.push(if high < 10 { 0x30 + high } else { 0x61 + high - 10 });
        r.push(if low < 10 { 0x30 + low } else { 0x61 + low - 10 });
        i = i + 1;
        proof {
            assert(r@ =~= hex_bytes(data@.subrange(0, i as int)));
        }
    }
    proof {
        assert(data@.subrange(0, data@.len() as int) =~= data@);
    }
    r
}

/// The decimal digits of a number, most significant first, as ASCII.
pub open spec fn decimal_digits(n: nat) -> Seq<u8>
    decreases n,
{
    if n < 10 {
        seq![(0x30 + n) as u8]
    } else {
        decimal_digits(n / 10).push((0x30 + n % 10) as u8)
    }
}

proof fn lemma_decimal_digits_ascii(n: nat)
    ensures
        is_ascii_bytes(decimal_digits(n)),
    decreases n,
{
    if n >= 10 {
        lemma_decimal_digits_ascii(n / 10);
    }
}

/// The decimal text of a number.
pub fn decimal(n: u64) -> (r: Vec<u8>)
    ensures
        r@ == decimal_digits(n as nat),
    decreases n,
{
    if n < 10 {
        let mut r: Vec<u8> = Vec::new();
        r.push(0x30 + n as u8);
        proof {
            assert(r@ =~= decimal_digits(n as nat));
        }
        r
    } else {
        let mut r = decimal(n / 10);
        r.push(0x30 + (n % 10) as u8);
        r
    }
}

/// The eight lowercase hexadecimal digits of a word, most significant first.
pub open spec fn hex_word_digits(n: u32) -> Seq<u8> {
    Seq::new(8, |i: int| hex_digit(((n >> (28 - 4 * i) as u32) & 0xF) as u8))
}

/// The eight-digit lowercase hexadecimal text of a word.
pub fn hex_word(n: u32) -> (r: Vec<u8>)
    ensures
        r@ == hex_word_digits(n),
{
    let mut r: Vec<u8> = Vec::new();
    let mut i: u32 = 0;
    while i < 8
        invariant
            i <= 8,
            r@.len() == i,
            forall|k: int| 0 <= k < i ==> #[trigger] r@[k] == hex_digit(((n >> (28 - 4 * k) as u32) & 0xF) as u8),
        decreases 8 - i,
    {
        let shift: u32 = 28 - 4 * i;
        assert((n >> shift) & 0xF < 16) by (bit_vector);
        let d = ((n >> shift) & 0xF) as u8;
        r.push(if d < 10 { 0x30 + d } else { 0x61 + d - 10 });
        i = i + 1;
    }
    assert(r@ =~= hex_word_digits(n));
    r
}

/// Appends some bytes.
pub fn append_bytes(v: &mut Vec<u8>, bytes: &[u8])
    ensures
        final(v)@ == old(v)@ + bytes@,
{
    let mut i: usize = 0;
    while i < bytes.len()
        invariant
            i <= bytes@.len(),
            v@ == old(v)@ + bytes@.subrange(0, i as int),
        decreases bytes@.len() - i,
    {
        v.push(bytes[i]);
        i = i + 1;
        proof {
            assert(v@ =~= old(v)@ + bytes@.subrange(0, i as int));
        }
    }
    assert(bytes@.subrange(0, bytes@.len() as int) =~= bytes@);
}

/// The text of ASCII bytes, each byte the character with its code.
pub fn ascii_string(bytes: &[u8]) -> (r: String)
    requires
        is_ascii_bytes(bytes@),
    ensures
        r@ == ascii_chars(bytes@),
{
    string_from_utf8_lossy(bytes)
}

/// Decimal and hexadecimal digits are ASCII.
pub proof fn lemma_digits_ascii(n: nat, w: u32)
    ensures
        is_ascii_bytes(decimal_digits(n)),
        is_ascii_bytes(hex_word_digits(w)),
{
    lemma_decimal_digits_ascii(n);
    assert forall|i: int| 0 <= i < 8 implies #[trigger] hex_word_digits(w)[i] < 0x80 by {
        let sh = (28 - 4 * i) as u32;
        assert((w >> sh) & 0xF < 16) by (bit_vector);
    }
}

} // verus!
verus! {

/// The value of a lowercase hexadecimal or decimal digit character.
pub open spec fn digit_value(c: u8) -> int {
    if 0x30 <= c <= 0x39 {
        c - 0x30
    } else if 0x61 <= c <= 0x66 {
        c - 0x61 + 10
    } else {
        -1
    }
}

/// The number that some digit characters spell in the given base, most
/// significant first.
pub open spec fn digits_value(digits: Seq<u8>, base: int) -> int
    decreases digits.len(),
{
    if digits.len() == 0 {
        0
    } else {
        digits_value(digits.drop_last(), base) * base + digit_value(digits.last())
    }
}

/// Each hexadecimal digit reads back as the value it was made from.
pub proof fn lemma_hex_digit_reads_back(n: u8)
    requires
        n < 16,
    ensures
        digit_value(hex_digit(n)) == n,
{
}

/// Hexadecimal text reads back as the bytes it was made from: each byte is
/// 16 times its first digit plus its second.
pub proof fn lemma_hex_bytes_read_back(data: Seq<u8>, i: int)
    requires
        0 <= i < data.len(),
    ensures
        hex_bytes(data).len() == 2 * data.len(),
        16 * digit_value(hex_bytes(data)[2 * i]) + digit_value(hex_bytes(data)[2 * i + 1]) == data[i],
{
    assert((2 * i) % 2 == 0 && (2 * i) / 2 == i);
    assert((2 * i + 1) % 2 == 1 && (2 * i + 1) / 2 == i);
    lemma_hex_digit_reads_back(data[i] / 16);
    lemma_hex_digit_reads_back(data[i] % 16);
}

/// Decimal text reads back as the number it was made from, and starts with
/// a zero only when it is the number zero.
pub proof fn lemma_decimal_reads_back(n: nat)
    ensures
        digits_value(decimal_digits(n), 10) == n,
        decimal_digits(n)[0] == 0x30 ==> n == 0,
    decreases n,
{
    let d = decimal_digits(n);
    if n >= 10 {
        lemma_decimal_reads_back(n / 10);
        assert(d.drop_last() =~= decimal_digits(n / 10));
        assert(d[0] == decimal_digits(n / 10)[0]);
        assert(digit_value(d.last()) == n % 10);
        assert(digits_value(d, 10) == digits_value(d.drop_last(), 10) * 10 + digit_value(d.last()));
        vstd::arithmetic::div_mod::lemma_fundamental_div_mod(n as int, 10);
    } else {
        assert(d.drop_last().len() == 0);
        assert(digits_value(d, 10) == digits_value(d.drop_last(), 10) * 10 + digit_value(d.last()));
    }
}

/// The eight hexadecimal digits of a word read back as the word.
pub proof fn lemma_hex_word_reads_back(n: u32)
    ensures
        digits_value(hex_word_digits(n), 16) == n,
{
    let d = hex_word_digits(n);
    lemma_hex_word_prefix(n, 7);
    assert(d.subrange(0, 8) =~= d);
    assert(n >> 0u32 == n) by (bit_vector);
}

proof fn lemma_hex_word_prefix(n: u32, k: int)
    requires
        0 <= k < 8,
    ensures
        digits_value(hex_word_digits(n).subrange(0, k + 1), 16) == (n >> (28 - 4 * k) as u32),
    decreases k,
{
    let d = hex_word_digits(n);
    let sh = (28 - 4 * k) as u32;
    let nib = ((n >> sh) & 0xF) as u8;
    assert((n >> sh) & 0xF < 16 && (n >> sh) == (n >> ((sh + 4) as u32)) * 16 + ((n >> sh) & 0xF)
        && (sh == 28 ==> n >> ((sh + 4) as u32) == 0)) by (bit_vector)
        requires
            sh <= 28,
    ;
    lemma_hex_digit_reads_back(nib);
    let p = d.subrange(0, k + 1);
    assert(p.drop_last() =~= d.subrange(0, k));
    assert(p.last() == hex_digit(nib));
    assert(digits_value(p, 16) == digits_value(p.drop_last(), 16) * 16 + digit_value(p.last()));
    if k > 0 {
        lemma_hex_word_prefix(n, k - 1);
        assert(((28 - 4 * (k - 1)) as u32) == sh + 4);
    } else {
        assert(d.subrange(0, 0).len() == 0);
    }
}

} // verus!
