//! Package addresses and their hex literals.

use vstd::prelude::*;

use crate::text::push_char;

verus! {

/// The lower-case hex digit of a value below 16.
pub open spec fn hex_digit(d: nat) -> char {
    if d < 10 {
        ((48 + d) as u8) as char
    } else {
        ((87 + d) as u8) as char
    }
}

/// Two lower-case hex digits per byte, most significant first.
pub open spec fn hex_of_bytes(bytes: Seq<u8>) -> Seq<char>
    decreases bytes.len(),
{
    if bytes.len() == 0 {
        Seq::empty()
    } else {
        hex_of_bytes(bytes.drop_last()) + seq![
            hex_digit((bytes.last() / 16) as nat),
            hex_digit((bytes.last() % 16) as nat),
        ]
    }
}

/// `digits` without its leading zeros.
pub open spec fn trim_leading_zeros(digits: Seq<char>) -> Seq<char>
    decreases digits.len(),
{
    if digits.len() > 0 && digits[0] == '0' {
        trim_leading_zeros(digits.drop_first())
    } else {
        digits
    }
}

/// The hex literal of an address (`AccountAddress::to_hex_literal` of Move):
/// `0x`, then the lower-case hex digits of its bytes without leading zeros, or
/// `0` for the zero address.
pub open spec fn address_hex_literal(address: Seq<u8>) -> Seq<char> {
    let digits = trim_leading_zeros(hex_of_bytes(address));
    "0x"@ + if digits.len() == 0 {
        "0"@
    } else {
        digits
    }
}

fn hex_digit_char(d: u8) -> (c: char)
    requires
        d < 16,
    ensures
        c == hex_digit(d as nat),
{
    if d < 10 {
        (48u8 + d) as char
    } else {
        (87u8 + d) as char
    }
}

/// The hex literal of an address, as the generated code writes package ids.
pub fn hex_literal(address: &[u8; 32]) -> (res: String)
    ensures
        res@ == address_hex_literal(address@),
{
    let mut digits: Vec<char> = Vec::new();
    let mut i: usize = 0;
    while i < 32
        invariant
            i <= 32,
            address@.len() == 32,
            digits@ == hex_of_bytes(address@.take(i as int)),
        decreases 32 - i,
    {
        assert(address@.take(i + 1).drop_last() =~= address@.take(i as int));
        let b = address[i];
        digits.push(hex_digit_char(b / 16));
        digits.push(hex_digit_char(b % 16));
        assert(digits@ =~= hex_of_bytes(address@.take(i + 1)));
        i += 1;
    }
    assert(address@.take(32) =~= address@);
    let mut k: usize = 0;
    assert(digits@.skip(0) =~= digits@);
    while k < digits.len() && digits[k] == '0'
        invariant
            k <= digits@.len(),
            trim_leading_zeros(digits@) == trim_leading_zeros(digits@.skip(k as int)),
        decreases digits@.len() - k,
    {
        assert(digits@.skip(k as int).drop_first() =~= digits@.skip(k + 1));
        k += 1;
    }
    let mut res = String::new();
    res.append("0x");
    if k == digits.len() {
        assert(digits@.skip(k as int) =~= Seq::<char>::empty());
        res.append("0");
    } else {
        let ghost head = res@;
        let mut j: usize = k;
        while j < digits.len()
            invariant
                k <= j <= digits@.len(),
                res@ == head + digits@.subrange(k as int, j as int),
            decreases digits@.len() - j,
        {
            push_char(&mut res, digits[j]);
            assert(digits@.subrange(k as int, j + 1) =~= digits@.subrange(k as int, j as int).push(
                digits@[j as int],
            ));
            j += 1;
        }
        assert(digits@.subrange(k as int, digits@.len() as int) =~= digits@.skip(k as int));
    }
    res
}

/// Each hex digit is the lower-case digit of the table `0123456789abcdef`.
pub proof fn lemma_hex_digit_table(d: nat)
    requires
        d < 16,
    ensures
        hex_digit(d) == "0123456789abcdef"@[d as int],
{
    reveal_strlit("0123456789abcdef");
    if d == 0 { assert(hex_digit(d) == '0'); }
    else if d == 1 { assert(hex_digit(d) == '1'); }
    else if d == 2 { assert(hex_digit(d) == '2'); }
    else if d == 3 { assert(hex_digit(d) == '3'); }
    else if d == 4 { assert(hex_digit(d) == '4'); }
    else if d == 5 { assert(hex_digit(d) == '5'); }
    else if d == 6 { assert(hex_digit(d) == '6'); }
    else if d == 7 { assert(hex_digit(d) == '7'); }
    else if d == 8 { assert(hex_digit(d) == '8'); }
    else if d == 9 { assert(hex_digit(d) == '9'); }
    else if d == 10 { assert(hex_digit(d) == 'a'); }
    else if d == 11 { assert(hex_digit(d) == 'b'); }
    else if d == 12 { assert(hex_digit(d) == 'c'); }
    else if d == 13 { assert(hex_digit(d) == 'd'); }
    else if d == 14 { assert(hex_digit(d) == 'e'); }
    else { assert(hex_digit(d) == 'f'); }
}

/// The hex of a byte string has two characters per byte, the high nibble of
/// byte `i` at `2 * i` and its low nibble at `2 * i + 1`, each written with
/// the digits `0123456789abcdef`.
pub proof fn lemma_hex_of_bytes_digits(bytes: Seq<u8>)
    ensures
        hex_of_bytes(bytes).len() == 2 * bytes.len(),
        forall|i: int|
            0 <= i < bytes.len() ==> hex_of_bytes(bytes)[2 * i] == "0123456789abcdef"@[(
            #[trigger] bytes[i] / 16) as int] && hex_of_bytes(bytes)[2 * i + 1]
                == "0123456789abcdef"@[(bytes[i] % 16) as int],
    decreases bytes.len(),
{
    if bytes.len() > 0 {
        lemma_hex_of_bytes_digits(bytes.drop_last());
        let last = bytes.last();
        lemma_hex_digit_table((last / 16) as nat);
        lemma_hex_digit_table((last % 16) as nat);
        assert forall|i: int| 0 <= i < bytes.len() implies hex_of_bytes(bytes)[2 * i]
            == "0123456789abcdef"@[(#[trigger] bytes[i] / 16) as int] && hex_of_bytes(bytes)[2 * i
            + 1] == "0123456789abcdef"@[(bytes[i] % 16) as int] by {
            if i < bytes.len() - 1 {
                assert(bytes.drop_last()[i] == bytes[i]);
            }
        }
    }
}

proof fn first_non_zero(digits: Seq<char>, from: int) -> (z: int)
    requires
        0 <= from <= digits.len(),
        forall|j: int| 0 <= j < from ==> digits[j] == '0',
    ensures
        from <= z <= digits.len(),
        forall|j: int| 0 <= j < z ==> digits[j] == '0',
        z < digits.len() ==> digits[z] != '0',
    decreases digits.len() - from,
{
    if from < digits.len() && digits[from] == '0' {
        first_non_zero(digits, from + 1)
    } else {
        from
    }
}

proof fn lemma_trim_skips_zeros(digits: Seq<char>, z: int)
    requires
        0 <= z <= digits.len(),
        forall|j: int| 0 <= j < z ==> digits[j] == '0',
    ensures
        trim_leading_zeros(digits) == trim_leading_zeros(digits.skip(z)),
    decreases z,
{
    if z > 0 {
        lemma_trim_skips_zeros(digits.drop_first(), z - 1);
        assert(digits.drop_first().skip(z - 1) =~= digits.skip(z));
    } else {
        assert(digits.skip(0) =~= digits);
    }
}

/// The hex literal of an address is `0x` followed by the hex of its bytes with
/// the leading zeros dropped: all of those digits from the first one that is
/// not `0`, or the single digit `0` when every digit is `0`. The result `z` is
/// the number of leading zeros dropped.
pub proof fn lemma_hex_literal_shape(address: Seq<u8>) -> (z: int)
    ensures
        0 <= z <= hex_of_bytes(address).len(),
        forall|j: int| 0 <= j < z ==> #[trigger] hex_of_bytes(address)[j] == '0',
        z < hex_of_bytes(address).len() ==> hex_of_bytes(address)[z] != '0',
        address_hex_literal(address) == "0x"@ + if z == hex_of_bytes(address).len() {
            "0"@
        } else {
            hex_of_bytes(address).skip(z)
        },
{
    let h = hex_of_bytes(address);
    let z = first_non_zero(h, 0);
    lemma_trim_skips_zeros(h, z);
    if z == h.len() {
        assert(h.skip(z) =~= Seq::<char>::empty());
        assert(trim_leading_zeros(h) == Seq::<char>::empty());
    } else {
        assert(h.skip(z)[0] == h[z]);
        assert(trim_leading_zeros(h.skip(z)) == h.skip(z));
    }
    assert(forall|j: int| 0 <= j < z ==> #[trigger] h[j] == '0');
    z
}

} // verus!
