//! Decimal and hexadecimal numerals: the spec-level value of a digit string,
//! executable conversions in both directions, and the facts about them that
//! the lexer, the parser and the renderers need.

use vstd::prelude::*;

verus! {

/// Relies on std's String::push: appends one character to the string.
pub assume_specification[ String::push ](s: &mut String, c: char)
    ensures
        final(s)@ == old(s)@.push(c),
;

pub open spec fn is_digit(c: char) -> bool {
    '0' <= c && c <= '9'
}

pub open spec fn is_upper_hex(c: char) -> bool {
    is_digit(c) || ('A' <= c && c <= 'F')
}

pub open spec fn digit_val(c: char) -> int {
    c as u32 - 48
}

pub open spec fn hex_val(c: char) -> int {
    if is_digit(c) {
        digit_val(c)
    } else {
        c as u32 - 55
    }
}

pub open spec fn char_of_digit(d: int) -> char {
    if d == 0 {
        '0'
    } else if d == 1 {
        '1'
    } else if d == 2 {
        '2'
    } else if d == 3 {
        '3'
    } else if d == 4 {
        '4'
    } else if d == 5 {
        '5'
    } else if d == 6 {
        '6'
    } else if d == 7 {
        '7'
    } else if d == 8 {
        '8'
    } else {
        '9'
    }
}

pub open spec fn lower_hex_char(d: int) -> char {
    if d < 10 {
        char_of_digit(d)
    } else if d == 10 {
        'a'
    } else if d == 11 {
        'b'
    } else if d == 12 {
        'c'
    } else if d == 13 {
        'd'
    } else if d == 14 {
        'e'
    } else {
        'f'
    }
}

/// The decimal numeral of `n`, without leading zeros (`0` for zero).
pub open spec fn dec_str(n: nat) -> Seq<char>
    decreases n,
{
    if n < 10 {
        seq![char_of_digit(n as int)]
    } else {
        dec_str(n / 10).push(char_of_digit((n % 10) as int))
    }
}

/// The value denoted by a string of decimal digits (0 when empty).
pub open spec fn dec_val(s: Seq<char>) -> int
    decreases s.len(),
{
    if s.len() == 0 {
        0
    } else {
        dec_val(s.drop_last()) * 10 + digit_val(s.last())
    }
}

/// The value denoted by a string of (upper-case) hexadecimal digits.
pub open spec fn hex_seq_val(s: Seq<char>) -> int
    decreases s.len(),
{
    if s.len() == 0 {
        0
    } else {
        hex_seq_val(s.drop_last()) * 16 + hex_val(s.last())
    }
}

/// The fixed-width lower-case hexadecimal numeral of `v`.
pub open spec fn hex_fixed(v: int, width: nat) -> Seq<char>
    decreases width,
{
    if width == 0 {
        Seq::empty()
    } else {
        hex_fixed(v / 16, (width - 1) as nat).push(lower_hex_char(v % 16))
    }
}

pub proof fn lemma_digits_are_hex(s: Seq<char>)
    requires
        all_digits(s),
    ensures
        all_upper_hex(s),
{
    assert forall|i: int| 0 <= i < s.len() implies is_upper_hex(#[trigger] s[i]) by {
        assert(is_digit(s[i]));
    }
}

pub open spec fn all_digits(s: Seq<char>) -> bool {
    forall|i: int| 0 <= i < s.len() ==> is_digit(#[trigger] s[i])
}

pub open spec fn all_upper_hex(s: Seq<char>) -> bool {
    forall|i: int| 0 <= i < s.len() ==> is_upper_hex(#[trigger] s[i])
}

pub proof fn lemma_dec_val_nonneg(s: Seq<char>)
    requires
        all_digits(s),
    ensures
        dec_val(s) >= 0,
    decreases s.len(),
{
    if s.len() > 0 {
        assert(all_digits(s.drop_last())) by {
            assert(forall|i: int|
                0 <= i < s.len() - 1 ==> s.drop_last()[i] == #[trigger] s[i]);
        }
        lemma_dec_val_nonneg(s.drop_last());
    }
}

pub proof fn lemma_dec_val_prefix_monotonic(s: Seq<char>, i: int)
    requires
        all_digits(s),
        0 <= i <= s.len(),
    ensures
        dec_val(s.take(i)) <= dec_val(s),
    decreases s.len() - i,
{
    if i < s.len() {
        assert(all_digits(s.take(i + 1))) by {
            assert(forall|j: int| 0 <= j < i + 1 ==> s.take(i + 1)[j] == #[trigger] s[j]);
        }
        assert(s.take(i + 1).drop_last() =~= s.take(i));
        assert(dec_val(s.take(i + 1)) == dec_val(s.take(i)) * 10 + digit_val(s.take(i + 1).last()));
        lemma_dec_val_nonneg(s.take(i));
        assert(digit_val(s.take(i + 1).last()) >= 0);
        assert(dec_val(s.take(i)) <= dec_val(s.take(i + 1)));
        lemma_dec_val_prefix_monotonic(s, i + 1);
    } else {
        assert(s.take(i) =~= s);
    }
}

pub proof fn lemma_dec_str_digits(n: nat)
    ensures
        all_digits(dec_str(n)),
        dec_str(n).len() >= 1,
    decreases n,
{
    if n < 10 {
        assert(is_digit(char_of_digit(n as int)));
    } else {
        lemma_dec_str_digits(n / 10);
        assert(is_digit(char_of_digit((n % 10) as int)));
        assert(forall|i: int|
            0 <= i < dec_str(n / 10).len() ==> #[trigger] dec_str(n)[i] == dec_str(n / 10)[i]);
    }
}

pub proof fn lemma_dec_str_roundtrip(n: nat)
    ensures
        dec_val(dec_str(n)) == n,
    decreases n,
{
    if n < 10 {
        let s = dec_str(n);
        assert(s == seq![char_of_digit(n as int)]);
        assert(s.len() == 1);
        assert(s.last() == char_of_digit(n as int));
        assert(s.drop_last() =~= Seq::<char>::empty());
        assert(dec_val(s) == dec_val(s.drop_last()) * 10 + digit_val(s.last()));
        assert(dec_val(Seq::<char>::empty()) == 0);
        assert(digit_val(char_of_digit(n as int)) == n);
        assert(dec_val(dec_str(n)) == n);
    } else {
        lemma_dec_str_roundtrip(n / 10);
        lemma_dec_str_digits(n / 10);
        assert(dec_str(n) == dec_str(n / 10).push(char_of_digit((n % 10) as int)));
        assert(dec_str(n).drop_last() =~= dec_str(n / 10));
        assert(dec_str(n).last() == char_of_digit((n % 10) as int));
        assert(digit_val(char_of_digit((n % 10) as int)) == n % 10);
        assert(dec_val(dec_str(n)) == dec_val(dec_str(n / 10)) * 10 + (n % 10));
        assert(n / 10 * 10 + n % 10 == n);
        assert(dec_val(dec_str(n)) == n);
    }
}

fn push_digit(s: &mut String, d: u64)
    requires
        d < 10,
    ensures
        final(s)@ == old(s)@.push(char_of_digit(d as int)),
{
    let c: char = if d == 0 {
        '0'
    } else if d == 1 {
        '1'
    } else if d == 2 {
        '2'
    } else if d == 3 {
        '3'
    } else if d == 4 {
        '4'
    } else if d == 5 {
        '5'
    } else if d == 6 {
        '6'
    } else if d == 7 {
        '7'
    } else if d == 8 {
        '8'
    } else {
        '9'
    };
    s.push(c);
}

fn append_dec(s: &mut String, n: u64)
    ensures
        final(s)@ == old(s)@ + dec_str(n as nat),
    decreases n,
{
    if n < 10 {
        push_digit(s, n);
        assert(final(s)@ =~= old(s)@ + dec_str(n as nat));
    } else {
        append_dec(s, n / 10);
        push_digit(s, n % 10);
        assert(final(s)@ =~= old(s)@ + dec_str(n as nat));
    }
}

/// The decimal numeral of `n` as an owned string.
pub fn u64_to_string(n: u64) -> (r: String)
    ensures
        r@ == dec_str(n as nat),
{
    let mut s = String::new();
    append_dec(&mut s, n);
    assert(s@ =~= dec_str(n as nat));
    s
}

/// The value of a string of decimal digits, `None` when it exceeds `bound`.
pub fn parse_dec_bounded(s: &str, bound: u64) -> (r: Option<u64>)
    requires
        all_digits(s@),
    ensures
        dec_val(s@) <= bound ==> r == Option::Some(dec_val(s@) as u64),
        dec_val(s@) > bound ==> r is None,
{
    let len = s.unicode_len();
    let mut i: usize = 0;
    let mut acc: u64 = 0;
    proof {
        assert(s@.take(0) =~= Seq::<char>::empty());
    }
    while i < len
        invariant
            0 <= i <= len,
            len == s@.len(),
            all_digits(s@),
            acc == dec_val(s@.take(i as int)),
            acc <= bound,
        decreases len - i,
    {
        let c = s.get_char(i);
        let d: u64 = if c == '0' {
            0
        } else if c == '1' {
            1
        } else if c == '2' {
            2
        } else if c == '3' {
            3
        } else if c == '4' {
            4
        } else if c == '5' {
            5
        } else if c == '6' {
            6
        } else if c == '7' {
            7
        } else {
            if c == '8' {
                8
            } else {
                9
            }
        };
        proof {
            assert(is_digit(s@[i as int]));
            assert(d == digit_val(s@[i as int]));
            assert(s@.take(i as int + 1).drop_last() =~= s@.take(i as int));
            assert(dec_val(s@.take(i as int + 1)) == dec_val(s@.take(i as int)) * 10 + digit_val(
                s@[i as int],
            ));
        }
        if d > bound {
            proof {
                lemma_dec_val_nonneg(s@.take(i as int));
                assert(dec_val(s@.take(i as int + 1)) >= d) by (nonlinear_arith)
                    requires
                        dec_val(s@.take(i as int + 1)) == dec_val(s@.take(i as int)) * 10 + d,
                        dec_val(s@.take(i as int)) >= 0,
                ;
                lemma_dec_val_prefix_monotonic(s@, i as int + 1);
                assert(s@.take(len as int) =~= s@);
            }
            return Option::None;
        }
        if acc > (bound - d) / 10 {
            proof {
                assert(acc * 10 + d > bound) by (nonlinear_arith)
                    requires
                        acc > (bound - d) / 10,
                        0 <= d < 10,
                        d <= bound,
                        bound <= u64::MAX,
                ;
                lemma_dec_val_prefix_monotonic(s@, i as int + 1);
                assert(s@.take(len as int) =~= s@);
            }
            return Option::None;
        }
        proof {
            assert(acc * 10 + d <= bound) by (nonlinear_arith)
                requires
                    acc <= (bound - d) / 10,
                    0 <= d < 10,
                    d <= bound,
                    bound <= u64::MAX,
            ;
        }
        acc = acc * 10 + d;
        i = i + 1;
    }
    proof {
        assert(s@.take(len as int) =~= s@);
    }
    Option::Some(acc)
}

/// The value of a string of exactly 32 upper-case hexadecimal digits.
pub fn parse_hex32(s: &str) -> (r: u128)
    requires
        all_upper_hex(s@),
        s@.len() == 32,
    ensures
        r == hex_seq_val(s@),
{
    let len = s.unicode_len();
    let mut i: usize = 0;
    let mut acc: u128 = 0;
    proof {
        assert(s@.take(0) =~= Seq::<char>::empty());
        lemma_hex_seq_val_bound(s@.take(0));
    }
    while i < len
        invariant
            0 <= i <= len,
            len == s@.len(),
            s@.len() == 32,
            all_upper_hex(s@),
            acc == hex_seq_val(s@.take(i as int)),
            acc < pow16(i as nat),
        decreases len - i,
    {
        let c = s.get_char(i);
        let u = c as u32;
        let d: u128 = if u >= 65 {
            (u - 55) as u128
        } else {
            (u - 48) as u128
        };
        proof {
            assert(is_upper_hex(s@[i as int]));
            assert(d == hex_val(s@[i as int]));
            assert(s@.take(i as int + 1).drop_last() =~= s@.take(i as int));
            lemma_pow16_monotonic(i as nat + 1, 32);
            assert(acc * 16 + d < pow16(i as nat + 1)) by (nonlinear_arith)
                requires
                    acc < pow16(i as nat),
                    0 <= d < 16,
                    pow16(i as nat + 1) == pow16(i as nat) * 16,
            ;
            assert(pow16(32) == 0x1_0000_0000_0000_0000_0000_0000_0000_0000) by {
                reveal_with_fuel(pow16, 33);
            }
        }
        acc = acc * 16 + d;
        i = i + 1;
    }
    proof {
        assert(s@.take(len as int) =~= s@);
    }
    acc
}

pub open spec fn pow16(n: nat) -> int
    decreases n,
{
    if n == 0 {
        1
    } else {
        pow16((n - 1) as nat) * 16
    }
}

pub proof fn lemma_pow16_pos(n: nat)
    ensures
        pow16(n) >= 1,
    decreases n,
{
    if n > 0 {
        lemma_pow16_pos((n - 1) as nat);
        assert(pow16(n) == pow16((n - 1) as nat) * 16);
    }
}

pub proof fn lemma_pow16_monotonic(i: nat, j: nat)
    requires
        i <= j,
    ensures
        pow16(i) <= pow16(j),
        pow16(i) >= 1,
    decreases j - i,
{
    lemma_pow16_pos(i);
    if i < j {
        lemma_pow16_monotonic(i, (j - 1) as nat);
        assert(pow16(j) == pow16((j - 1) as nat) * 16);
    }
}

pub proof fn lemma_hex_seq_val_bound(s: Seq<char>)
    requires
        all_upper_hex(s),
    ensures
        0 <= hex_seq_val(s) < pow16(s.len()),
    decreases s.len(),
{
    if s.len() == 0 {
    } else {
        assert(all_upper_hex(s.drop_last())) by {
            assert(forall|i: int|
                0 <= i < s.len() - 1 ==> s.drop_last()[i] == #[trigger] s[i]);
        }
        lemma_hex_seq_val_bound(s.drop_last());
        assert(is_upper_hex(s.last()));
        assert(0 <= hex_val(s.last()) < 16);
        assert(pow16(s.len()) == pow16((s.len() - 1) as nat) * 16);
        assert(hex_seq_val(s.drop_last()) * 16 + hex_val(s.last()) < pow16(s.len()))
            by (nonlinear_arith)
            requires
                0 <= hex_seq_val(s.drop_last()) < pow16((s.len() - 1) as nat),
                0 <= hex_val(s.last()) < 16,
                pow16(s.len()) == pow16((s.len() - 1) as nat) * 16,
        ;
    }
}

fn push_lower_hex_digit(s: &mut String, d: u128)
    requires
        d < 16,
    ensures
        final(s)@ == old(s)@.push(lower_hex_char(d as int)),
{
    let c: char = if d == 0 {
        '0'
    } else if d == 1 {
        '1'
    } else if d == 2 {
        '2'
    } else if d == 3 {
        '3'
    } else if d == 4 {
        '4'
    } else if d == 5 {
        '5'
    } else if d == 6 {
        '6'
    } else if d == 7 {
        '7'
    } else if d == 8 {
        '8'
    } else if d == 9 {
        '9'
    } else if d == 10 {
        'a'
    } else if d == 11 {
        'b'
    } else if d == 12 {
        'c'
    } else if d == 13 {
        'd'
    } else if d == 14 {
        'e'
    } else {
        'f'
    };
    s.push(c);
}

/// Appends the fixed-width lower-case hexadecimal numeral of `v`.
pub fn append_hex_fixed(s: &mut String, v: u128, width: u32)
    ensures
        final(s)@ == old(s)@ + hex_fixed(v as int, width as nat),
    decreases width,
{
    if width == 0 {
        assert(final(s)@ =~= old(s)@ + hex_fixed(v as int, 0));
    } else {
        append_hex_fixed(s, v / 16, width - 1);
        push_lower_hex_digit(s, v % 16);
        assert(final(s)@ =~= old(s)@ + hex_fixed(v as int, width as nat));
    }
}

} // verus!

