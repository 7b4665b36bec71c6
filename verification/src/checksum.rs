use vstd::prelude::*;

verus! {

/// The byte is a hexadecimal digit, in either case.
pub open spec fn is_hex(b: u8) -> bool {
    (0x30 <= b && b <= 0x39) || (0x41 <= b && b <= 0x46) || (0x61 <= b && b <= 0x66)
}

/// The number that a hexadecimal digit stands for.
pub open spec fn hex_value(b: u8) -> int {
    if 0x30 <= b && b <= 0x39 {
        b - 0x30
    } else if 0x41 <= b && b <= 0x46 {
        b - 0x41 + 10
    } else {
        b - 0x61 + 10
    }
}

/// What the digit at index `i` of a run of digit pairs counts for: the first
/// digit of a pair is the high half of its byte.
pub open spec fn digit_weight(i: int) -> int {
    if i % 2 == 0 {
        16
    } else {
        1
    }
}

/// The sum of the bytes that a run of digit pairs writes.
pub open spec fn hex_sum(digits: Seq<u8>) -> int
    decreases digits.len(),
{
    if digits.len() == 0 {
        0
    } else {
        hex_sum(digits.drop_last()) + digit_weight(digits.len() - 1) * hex_value(digits.last())
    }
}

/// The line is a colon followed by whole bytes in hexadecimal digits, and
/// those bytes (byte count, address, record type, data and checksum) add up
/// to zero modulo 256.
pub open spec fn checksum_holds(line: Seq<u8>) -> bool {
    &&& line.len() >= 1
    &&& line[0] == 0x3a
    &&& (line.len() - 1) % 2 == 0
    &&& forall|i: int| 1 <= i < line.len() ==> is_hex(#[trigger] line[i])
    &&& hex_sum(line.subrange(1, line.len() as int)) % 256 == 0
}

/// Tells whether `b` is a hexadecimal digit, and which number it stands for.
pub fn hex_digit(b: u8) -> (r: Option<u8>)
    ensures
        r.is_some() == is_hex(b),
        r matches Some(v) ==> v == hex_value(b) && v < 16,
{
    if 0x30 <= b && b <= 0x39 {
        Some(b - 0x30)
    } else if 0x41 <= b && b <= 0x46 {
        Some(b - 0x41 + 10)
    } else if 0x61 <= b && b <= 0x66 {
        Some(b - 0x61 + 10)
    } else {
        None
    }
}

/// Checks the form and the checksum of a line.
pub fn verify_checksum(line: &[u8]) -> (r: bool)
    ensures
        r == checksum_holds(line@),
{
    if line.len() == 0 || line[0] != 0x3a || (line.len() - 1) % 2 != 0 {
        return false;
    }
    let ghost digits = line@.subrange(1, line@.len() as int);
    let mut sum: u32 = 0;
    let mut i: usize = 1;
    while i < line.len()
        invariant
            1 <= i <= line@.len(),
            digits == line@.subrange(1, line@.len() as int),
            forall|k: int| 1 <= k < i ==> is_hex(#[trigger] line@[k]),
            sum < 256,
            sum == hex_sum(digits.subrange(0, i - 1)) % 256,
        decreases line@.len() - i,
    {
        let weight: u32 = if (i - 1) % 2 == 0 { 16 } else { 1 };
        match hex_digit(line[i]) {
            None => {
                return false;
            },
            Some(v) => {
                proof {
                    let upto = digits.subrange(0, i as int);
                    assert(upto.drop_last() =~= digits.subrange(0, i - 1));
                    assert(upto.last() == line@[i as int]);
                    assert(weight == digit_weight(upto.len() - 1));
                    assert(weight * v == digit_weight(upto.len() - 1) * hex_value(upto.last()))
                        by (nonlinear_arith)
                        requires
                            weight == digit_weight(upto.len() - 1),
                            v == hex_value(upto.last()),
                    ;
                    assert(weight * v <= 240) by (nonlinear_arith)
                        requires
                            weight == 16 || weight == 1,
                            v < 16,
                    ;
                }
                sum = (sum + weight * (v as u32)) % 256;
            },
        }
        i = i + 1;
    }
    proof {
        assert(digits.subrange(0, digits.len() as int) =~= digits);
    }
    sum == 0
}

/// Writing another digit at index `k` moves the sum by the difference of the
/// two digits, at the weight of that index.
pub proof fn lemma_hex_sum_update(digits: Seq<u8>, k: int, d: u8)
    requires
        0 <= k < digits.len(),
    ensures
        hex_sum(digits.update(k, d)) == hex_sum(digits) + digit_weight(k) * (hex_value(d)
            - hex_value(digits[k])),
    decreases digits.len(),
{
    let changed = digits.update(k, d);
    if k == digits.len() - 1 {
        assert(changed.drop_last() =~= digits.drop_last());
        assert(digit_weight(k) * (hex_value(d) - hex_value(digits[k])) == digit_weight(k)
            * hex_value(d) - digit_weight(k) * hex_value(digits[k])) by (nonlinear_arith);
    } else {
        assert(changed.drop_last() =~= digits.drop_last().update(k, d));
        lemma_hex_sum_update(digits.drop_last(), k, d);
    }
}

/// In a line whose checksum holds, putting a digit of another value in the
/// place of any one digit breaks the checksum.
pub proof fn lemma_changed_digit_breaks_checksum(line: Seq<u8>, k: int, d: u8)
    requires
        checksum_holds(line),
        1 <= k < line.len(),
        is_hex(d),
        hex_value(d) != hex_value(line[k]),
    ensures
        !checksum_holds(line.update(k, d)),
{
    let digits = line.subrange(1, line.len() as int);
    let changed = line.update(k, d);
    assert(changed.subrange(1, changed.len() as int) =~= digits.update(k - 1, d));
    assert(digits[k - 1] == line[k]);
    assert(is_hex(line[k]));
    lemma_hex_sum_update(digits, k - 1, d);
    let delta = digit_weight(k - 1) * (hex_value(d) - hex_value(line[k]));
    assert(-240 <= delta <= 240 && delta != 0) by (nonlinear_arith)
        requires
            delta == digit_weight(k - 1) * (hex_value(d) - hex_value(line[k])),
            digit_weight(k - 1) == 16 || digit_weight(k - 1) == 1,
            0 <= hex_value(d) < 16,
            0 <= hex_value(line[k]) < 16,
            hex_value(d) != hex_value(line[k]),
    ;
}

} // verus!
