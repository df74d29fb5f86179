//! Decimal digit strings: parsing byte strings into integers and rendering
//! integers as (optionally zero-padded) character sequences.

use vstd::prelude::*;
use vstd::string::StringExecFns;

verus! {

/// `b` is an ASCII decimal digit.
pub open spec fn is_digit(b: u8) -> bool {
    48 <= b && b <= 57
}

/// Numeric value of an ASCII digit byte.
pub open spec fn digit_val(b: u8) -> nat {
    (b - 48) as nat
}

/// Every byte of `s` is an ASCII digit.
pub open spec fn all_digits(s: Seq<u8>) -> bool {
    forall|i: int| 0 <= i < s.len() ==> is_digit(#[trigger] s[i])
}

/// The number denoted by the digit string `s`, most significant digit first.
pub open spec fn dec_value(s: Seq<u8>) -> nat
    decreases s.len(),
{
    if s.len() == 0 {
        0
    } else {
        dec_value(s.drop_last()) * 10 + digit_val(s.last())
    }
}

/// `s` is a well-formed decimal numeral whose value fits in `u64`.
pub open spec fn u64_parsable(s: Seq<u8>) -> bool {
    s.len() > 0 && all_digits(s) && dec_value(s) <= u64::MAX
}

/// `s` is a well-formed decimal numeral whose value fits in `u32`.
pub open spec fn u32_parsable(s: Seq<u8>) -> bool {
    s.len() > 0 && all_digits(s) && dec_value(s) <= u32::MAX
}

/// A prefix of a digit string never denotes more than the whole string.
proof fn lemma_dec_value_take_le(s: Seq<u8>, k: int)
    requires
        0 <= k <= s.len(),
    ensures
        dec_value(s.take(k)) <= dec_value(s),
    decreases s.len() - k,
{
    if k < s.len() {
        assert(s.take(k + 1).drop_last() =~= s.take(k));
        assert(s.take(k + 1).last() == s[k]);
        assert(dec_value(s.take(k)) * 10 >= dec_value(s.take(k))) by (nonlinear_arith);
        lemma_dec_value_take_le(s, k + 1);
    } else {
        assert(s.take(k) =~= s);
    }
}

/// Parses an unsigned decimal numeral: digits only, no sign, no blanks.
pub fn parse_u64(s: &[u8]) -> (r: Option<u64>)
    ensures
        r == (if u64_parsable(s@) {
            Option::Some(dec_value(s@) as u64)
        } else {
            Option::<u64>::None
        }),
{
    if s.len() == 0 {
        return None;
    }
    let mut acc: u64 = 0;
    let mut i: usize = 0;
    while i < s.len()
        invariant
            0 <= i <= s@.len(),
            all_digits(s@.take(i as int)),
            acc == dec_value(s@.take(i as int)),
        decreases s@.len() - i,
    {
        let b: u8 = s[i];
        if b < 48 || 57 < b {
            assert(!all_digits(s@));
            return None;
        }
        let d: u64 = (b - 48) as u64;
        proof {
            assert(s@.take(i + 1).drop_last() =~= s@.take(i as int));
            assert(s@.take(i + 1).last() == s@[i as int]);
            assert(all_digits(s@.take(i + 1)));
        }
        if acc > (u64::MAX - d) / 10 {
            proof {
                assert(acc * 10 + d > u64::MAX) by (nonlinear_arith)
                    requires
                        acc > ((u64::MAX - d) / 10) as int,
                        0 <= d < 10,
                        0 <= acc <= u64::MAX,
                ;
                assert(dec_value(s@.take(i + 1)) > u64::MAX);
                lemma_dec_value_take_le(s@, i + 1);
            }
            return None;
        }
        proof {
            assert(acc * 10 + d <= u64::MAX) by (nonlinear_arith)
                requires
                    acc <= ((u64::MAX - d) / 10) as int,
                    0 <= d < 10,
                    0 <= acc,
            ;
        }
        acc = acc * 10 + d;
        i = i + 1;
    }
    proof {
        assert(s@.take(i as int) =~= s@);
    }
    Some(acc)
}

/// Parses an unsigned decimal numeral that must fit in `u32`.
pub fn parse_u32(s: &[u8]) -> (r: Option<u32>)
    ensures
        r == (if u32_parsable(s@) {
            Option::Some(dec_value(s@) as u32)
        } else {
            Option::<u32>::None
        }),
{
    match parse_u64(s) {
        Some(v) => {
            if v <= 0xffff_ffff {
                Some(v as u32)
            } else {
                None
            }
        },
        None => None,
    }
}

/// Powers of ten.
pub open spec fn pow10(k: nat) -> nat
    decreases k,
{
    if k == 0 {
        1
    } else {
        10 * pow10((k - 1) as nat)
    }
}

/// Concatenating digit strings: the left part is shifted by one decimal
/// place per digit of the right part.
pub proof fn lemma_dec_value_concat(a: Seq<u8>, b: Seq<u8>)
    ensures
        dec_value(a + b) == dec_value(a) * pow10(b.len()) + dec_value(b),
    decreases b.len(),
{
    if b.len() == 0 {
        assert(a + b =~= a);
        assert(pow10(b.len()) == 1);
        assert(dec_value(a) * 1 == dec_value(a)) by (nonlinear_arith);
    } else {
        assert((a + b).drop_last() =~= a + b.drop_last());
        assert((a + b).last() == b.last());
        lemma_dec_value_concat(a, b.drop_last());
        assert(dec_value(a + b) == dec_value(a) * pow10(b.len()) + dec_value(b)) by (nonlinear_arith)
            requires
                dec_value(a + b) == dec_value((a + b).drop_last()) * 10 + digit_val((a + b).last()),
                dec_value((a + b).drop_last()) == dec_value(a) * pow10(b.drop_last().len()) + dec_value(
                    b.drop_last(),
                ),
                dec_value(b) == dec_value(b.drop_last()) * 10 + digit_val(b.last()),
                (a + b).last() == b.last(),
                pow10(b.len()) == 10 * pow10(b.drop_last().len()),
                b.drop_last().len() == b.len() - 1,
        ;
    }
}

/// A digit string of length `n` denotes a value below `10^n`.
pub proof fn lemma_dec_value_bound(s: Seq<u8>)
    requires
        all_digits(s),
    ensures
        dec_value(s) < pow10(s.len()),
    decreases s.len(),
{
    if s.len() > 0 {
        lemma_dec_value_bound(s.drop_last());
        assert(is_digit(s.last()));
        assert(dec_value(s.drop_last()) * 10 + digit_val(s.last()) < pow10(s.len())) by (nonlinear_arith)
            requires
                dec_value(s.drop_last()) < pow10(s.drop_last().len()),
                digit_val(s.last()) < 10,
                pow10(s.len()) == 10 * pow10(s.drop_last().len()),
                s.drop_last().len() == s.len() - 1,
        ;
    }
}

/// The first ten powers of ten, unfolded.
pub proof fn lemma_pow10_small()
    ensures
        pow10(0) == 1,
        pow10(1) == 10,
        pow10(2) == 100,
        pow10(3) == 1000,
        pow10(4) == 10000,
        pow10(5) == 100000,
        pow10(6) == 1000000,
        pow10(7) == 10000000,
        pow10(8) == 100000000,
        pow10(9) == 1000000000,
{
    reveal_with_fuel(pow10, 11);
}

/// Computes a small power of ten.
pub fn pow10_u32(k: usize) -> (r: u32)
    requires
        k <= 9,
    ensures
        r == pow10(k as nat),
        r >= 1,
{
    proof {
        lemma_pow10_small();
    }
    if k == 0 {
        1
    } else if k == 1 {
        10
    } else if k == 2 {
        100
    } else if k == 3 {
        1000
    } else if k == 4 {
        10000
    } else if k == 5 {
        100000
    } else if k == 6 {
        1000000
    } else if k == 7 {
        10000000
    } else if k == 8 {
        100000000
    } else {
        1000000000
    }
}

/// Exec check that every byte of `s` is an ASCII digit.
pub fn check_all_digits(s: &[u8]) -> (r: bool)
    ensures
        r == all_digits(s@),
{
    let mut i: usize = 0;
    while i < s.len()
        invariant
            0 <= i <= s@.len(),
            forall|j: int| 0 <= j < i ==> is_digit(#[trigger] s@[j]),
        decreases s@.len() - i,
    {
        let b: u8 = s[i];
        if b < 48 || 57 < b {
            return false;
        }
        i = i + 1;
    }
    true
}

/// `b` is an ASCII whitespace byte.
pub open spec fn is_space(b: u8) -> bool {
    b == 32 || b == 9 || b == 10 || b == 11 || b == 12 || b == 13
}

/// `s` with its leading whitespace removed.
pub open spec fn trim_front(s: Seq<u8>) -> Seq<u8>
    decreases s.len(),
{
    if s.len() > 0 && is_space(s.first()) {
        trim_front(s.drop_first())
    } else {
        s
    }
}

/// `s` with its trailing whitespace removed.
pub open spec fn trim_back(s: Seq<u8>) -> Seq<u8>
    decreases s.len(),
{
    if s.len() > 0 && is_space(s.last()) {
        trim_back(s.drop_last())
    } else {
        s
    }
}

/// `s` with whitespace removed at both ends.
pub open spec fn trimmed(s: Seq<u8>) -> Seq<u8> {
    trim_back(trim_front(s))
}

proof fn lemma_trim_front_skip(s: Seq<u8>, i: int)
    requires
        0 <= i <= s.len(),
        forall|j: int| 0 <= j < i ==> is_space(#[trigger] s[j]),
        i == s.len() || !is_space(s[i]),
    ensures
        trim_front(s) =~= s.subrange(i, s.len() as int),
    decreases i,
{
    if i == 0 {
        assert(trim_front(s) =~= s.subrange(0, s.len() as int));
    } else {
        assert(is_space(s.first()));
        assert(s.drop_first() =~= s.subrange(1, s.len() as int));
        lemma_trim_front_skip(s.drop_first(), i - 1);
        assert(s.drop_first().subrange(i - 1, s.drop_first().len() as int) =~= s.subrange(
            i,
            s.len() as int,
        ));
    }
}

proof fn lemma_trim_back_skip(s: Seq<u8>, k: int)
    requires
        0 <= k <= s.len(),
        forall|j: int| k <= j < s.len() ==> is_space(#[trigger] s[j]),
        k == 0 || !is_space(s[k - 1]),
    ensures
        trim_back(s) =~= s.subrange(0, k),
    decreases s.len() - k,
{
    if k == s.len() {
        assert(trim_back(s) =~= s.subrange(0, k));
    } else {
        assert(is_space(s.last()));
        assert(s.drop_last() =~= s.subrange(0, s.len() - 1));
        lemma_trim_back_skip(s.drop_last(), k);
    }
}

/// Exec check for an ASCII whitespace byte.
pub fn byte_is_space(b: u8) -> (r: bool)
    ensures
        r == is_space(b),
{
    b == 32 || b == 9 || b == 10 || b == 11 || b == 12 || b == 13
}

/// Copies `s` with ASCII whitespace removed at both ends.
pub fn trim_bytes(s: &[u8]) -> (r: Vec<u8>)
    ensures
        r@ == trimmed(s@),
{
    let mut lo: usize = 0;
    while lo < s.len() && byte_is_space(s[lo])
        invariant
            0 <= lo <= s@.len(),
            forall|j: int| 0 <= j < lo ==> is_space(#[trigger] s@[j]),
        decreases s@.len() - lo,
    {
        lo = lo + 1;
    }
    let mut hi: usize = s.len();
    while hi > lo && byte_is_space(s[hi - 1])
        invariant
            lo <= hi <= s@.len(),
            forall|j: int| 0 <= j < lo ==> is_space(#[trigger] s@[j]),
            lo == s@.len() || !is_space(s@[lo as int]),
            forall|j: int| hi <= j < s@.len() ==> is_space(#[trigger] s@[j]),
        decreases hi,
    {
        hi = hi - 1;
    }
    proof {
        lemma_trim_front_skip(s@, lo as int);
        let t = s@.subrange(lo as int, s@.len() as int);
        lemma_trim_back_skip(t, hi - lo);
        assert(t.subrange(0, hi - lo) =~= s@.subrange(lo as int, hi as int));
    }
    vstd::slice::slice_to_vec(vstd::slice::slice_subrange(s, lo, hi))
}

/// The index of the first occurrence of `b` in `s`, or `-1` if absent.
pub open spec fn first_index_of(s: Seq<u8>, b: u8) -> int
    decreases s.len(),
{
    if s.len() == 0 {
        -1
    } else if s.first() == b {
        0
    } else if first_index_of(s.drop_first(), b) == -1 {
        -1
    } else {
        first_index_of(s.drop_first(), b) + 1
    }
}

/// The first-occurrence index is `-1` or a valid index of `b`.
pub proof fn lemma_first_index_range(s: Seq<u8>, b: u8)
    ensures
        first_index_of(s, b) == -1 || (0 <= first_index_of(s, b) < s.len() && s[first_index_of(
            s,
            b,
        )] == b),
    decreases s.len(),
{
    if s.len() > 0 && s.first() != b {
        lemma_first_index_range(s.drop_first(), b);
    }
}

proof fn lemma_first_index_char(s: Seq<u8>, b: u8, i: int)
    requires
        0 <= i <= s.len(),
        forall|j: int| 0 <= j < i ==> s[j] != b,
        i == s.len() || s[i] == b,
    ensures
        first_index_of(s, b) == (if i == s.len() {
            -1
        } else {
            i
        }),
    decreases i,
{
    if s.len() == 0 {
    } else if i == 0 {
    } else {
        assert(s.first() != b);
        lemma_first_index_char(s.drop_first(), b, i - 1);
    }
}

/// Finds the first occurrence of `b` in `s`.
pub fn find_first(s: &[u8], b: u8) -> (r: Option<usize>)
    ensures
        r == (if first_index_of(s@, b) == -1 {
            Option::<usize>::None
        } else {
            Option::Some(first_index_of(s@, b) as usize)
        }),
        r matches Some(i) ==> i as int == first_index_of(s@, b) && i < s@.len() && s@[i as int]
            == b && (forall|j: int| 0 <= j < i ==> s@[j] != b),
        r is None ==> forall|j: int| 0 <= j < s@.len() ==> s@[j] != b,
{
    let mut i: usize = 0;
    while i < s.len()
        invariant
            0 <= i <= s@.len(),
            forall|j: int| 0 <= j < i ==> s@[j] != b,
        decreases s@.len() - i,
    {
        if s[i] == b {
            proof {
                lemma_first_index_char(s@, b, i as int);
            }
            return Some(i);
        }
        i = i + 1;
    }
    proof {
        lemma_first_index_char(s@, b, s@.len() as int);
    }
    None
}

/// The decimal rendering of `n` as ASCII bytes, most significant first.
pub open spec fn dec_bytes(n: nat) -> Seq<u8>
    decreases n,
{
    if n < 10 {
        seq![(48 + n) as u8]
    } else {
        dec_bytes(n / 10).push((48 + n % 10) as u8)
    }
}

/// A rendered numeral is digits throughout and reads back as its value.
pub proof fn lemma_dec_bytes(n: nat)
    ensures
        all_digits(dec_bytes(n)),
        dec_value(dec_bytes(n)) == n,
        dec_bytes(n).len() >= 1,
    decreases n,
{
    if n < 10 {
        assert(dec_value(Seq::<u8>::empty()) == 0);
        assert(dec_bytes(n).drop_last() =~= Seq::<u8>::empty());
        assert(dec_value(dec_bytes(n)) == 0 * 10 + digit_val((48 + n) as u8));
    } else {
        lemma_dec_bytes(n / 10);
        assert(dec_bytes(n).drop_last() =~= dec_bytes(n / 10));
        assert(dec_value(dec_bytes(n)) == (n / 10) * 10 + n % 10);
    }
}

/// Short all-zero numerals denote zero.
proof fn lemma_zeros_value()
    ensures
        dec_value(seq![48u8]) == 0,
        dec_value(seq![48u8, 48u8]) == 0,
        dec_value(seq![48u8, 48u8, 48u8]) == 0,
{
    assert(dec_value(Seq::<u8>::empty()) == 0);
    assert(seq![48u8].drop_last() =~= Seq::<u8>::empty());
    assert(dec_value(seq![48u8]) == 0 * 10 + digit_val(48u8));
    assert(seq![48u8, 48u8].drop_last() =~= seq![48u8]);
    assert(dec_value(seq![48u8, 48u8]) == dec_value(seq![48u8]) * 10 + digit_val(48u8));
    assert(seq![48u8, 48u8, 48u8].drop_last() =~= seq![48u8, 48u8]);
    assert(dec_value(seq![48u8, 48u8, 48u8]) == dec_value(seq![48u8, 48u8]) * 10 + digit_val(
        48u8,
    ));
}

/// The byte rendering of `n`, zero-padded to at least four digits.
pub open spec fn padded4_bytes(n: nat) -> Seq<u8> {
    if n < 10 {
        seq![48u8, 48u8, 48u8] + dec_bytes(n)
    } else if n < 100 {
        seq![48u8, 48u8] + dec_bytes(n)
    } else if n < 1000 {
        seq![48u8] + dec_bytes(n)
    } else {
        dec_bytes(n)
    }
}

/// Padding zeros change neither the digits property nor the value.
pub proof fn lemma_padded4_bytes(n: nat)
    ensures
        all_digits(padded4_bytes(n)),
        dec_value(padded4_bytes(n)) == n,
        padded4_bytes(n).len() >= 4,
{
    lemma_dec_bytes(n);
    lemma_zeros_value();
    if n < 10 {
        lemma_dec_value_concat(seq![48u8, 48u8, 48u8], dec_bytes(n));
        assert(0 * pow10(dec_bytes(n).len()) == 0) by (nonlinear_arith);
    } else if n < 100 {
        lemma_dec_value_concat(seq![48u8, 48u8], dec_bytes(n));
        assert(0 * pow10(dec_bytes(n).len()) == 0) by (nonlinear_arith);
        assert(dec_bytes(n).len() >= 2) by {
            lemma_dec_bytes(n / 10);
        }
    } else if n < 1000 {
        lemma_dec_value_concat(seq![48u8], dec_bytes(n));
        assert(0 * pow10(dec_bytes(n).len()) == 0) by (nonlinear_arith);
        assert(dec_bytes(n).len() >= 3) by {
            lemma_dec_bytes(n / 10);
            lemma_dec_bytes(n / 10 / 10);
        }
    } else {
        assert(dec_bytes(n).len() >= 4) by {
            lemma_dec_bytes(n / 10);
            lemma_dec_bytes(n / 10 / 10);
            lemma_dec_bytes(n / 10 / 10 / 10);
        }
    }
}

/// Appends the byte rendering of `n`.
pub fn push_dec_bytes(v: &mut Vec<u8>, n: u32)
    ensures
        final(v)@ == old(v)@ + dec_bytes(n as nat),
    decreases n,
{
    if n >= 10 {
        push_dec_bytes(v, n / 10);
        v.push(48 + (n % 10) as u8);
        proof {
            assert(final(v)@ =~= old(v)@ + dec_bytes(n as nat));
        }
    } else {
        v.push(48 + n as u8);
        proof {
            assert(final(v)@ =~= old(v)@ + dec_bytes(n as nat));
        }
    }
}

/// The character of a single decimal digit.
pub open spec fn digit_char(d: nat) -> char {
    if d == 0 {
        '0'
    } else if d == 1 {
        '1'
    } else if d == 2 {
        '2'
    } else if d == 3 {
        '3'
    } else if d == 4 {
        '4'
    } else if d == 5 {
        '5'
    } else if d == 6 {
        '6'
    } else if d == 7 {
        '7'
    } else if d == 8 {
        '8'
    } else {
        '9'
    }
}

/// The decimal rendering of `n`, most significant digit first, no padding.
pub open spec fn dec_digits(n: nat) -> Seq<char>
    decreases n,
{
    if n < 10 {
        seq![digit_char(n)]
    } else {
        dec_digits(n / 10).push(digit_char(n % 10))
    }
}

/// The decimal rendering of `n`, zero-padded to at least two characters.
pub open spec fn padded2(n: nat) -> Seq<char> {
    if n < 10 {
        seq!['0'] + dec_digits(n)
    } else {
        dec_digits(n)
    }
}

/// The decimal rendering of `n`, zero-padded to at least three characters.
pub open spec fn padded3(n: nat) -> Seq<char> {
    if n < 10 {
        seq!['0', '0'] + dec_digits(n)
    } else if n < 100 {
        seq!['0'] + dec_digits(n)
    } else {
        dec_digits(n)
    }
}

/// The decimal rendering of `n`, zero-padded to at least four characters.
pub open spec fn padded4(n: nat) -> Seq<char> {
    if n < 10 {
        seq!['0', '0', '0'] + dec_digits(n)
    } else if n < 100 {
        seq!['0', '0'] + dec_digits(n)
    } else if n < 1000 {
        seq!['0'] + dec_digits(n)
    } else {
        dec_digits(n)
    }
}

/// Appends one digit character to `s`.
fn push_digit(s: &mut String, d: u128)
    requires
        d < 10,
    ensures
        final(s)@ == old(s)@ + seq![digit_char(d as nat)],
{
    if d == 0 {
        s.append("0");
        proof {
            reveal_strlit("0");
            assert("0"@ =~= seq![digit_char(0)]);
            assert(final(s)@ =~= old(s)@ + seq![digit_char(d as nat)]);
        }
    } else if d == 1 {
        s.append("1");
        proof {
            reveal_strlit("1");
            assert("1"@ =~= seq![digit_char(1)]);
            assert(final(s)@ =~= old(s)@ + seq![digit_char(d as nat)]);
        }
    } else if d == 2 {
        s.append("2");
        proof {
            reveal_strlit("2");
            assert("2"@ =~= seq![digit_char(2)]);
            assert(final(s)@ =~= old(s)@ + seq![digit_char(d as nat)]);
        }
    } else if d == 3 {
        s.append("3");
        proof {
            reveal_strlit("3");
            assert("3"@ =~= seq![digit_char(3)]);
            assert(final(s)@ =~= old(s)@ + seq![digit_char(d as nat)]);
        }
    } else if d == 4 {
        s.append("4");
        proof {
            reveal_strlit("4");
            assert("4"@ =~= seq![digit_char(4)]);
            assert(final(s)@ =~= old(s)@ + seq![digit_char(d as nat)]);
        }
    } else if d == 5 {
        s.append("5");
        proof {
            reveal_strlit("5");
            assert("5"@ =~= seq![digit_char(5)]);
            assert(final(s)@ =~= old(s)@ + seq![digit_char(d as nat)]);
        }
    } else if d == 6 {
        s.append("6");
        proof {
            reveal_strlit("6");
            assert("6"@ =~= seq![digit_char(6)]);
            assert(final(s)@ =~= old(s)@ + seq![digit_char(d as nat)]);
        }
    } else if d == 7 {
        s.append("7");
        proof {
            reveal_strlit("7");
            assert("7"@ =~= seq![digit_char(7)]);
            assert(final(s)@ =~= old(s)@ + seq![digit_char(d as nat)]);
        }
    } else if d == 8 {
        s.append("8");
        proof {
            reveal_strlit("8");
            assert("8"@ =~= seq![digit_char(8)]);
            assert(final(s)@ =~= old(s)@ + seq![digit_char(d as nat)]);
        }
    } else {
        s.append("9");
        proof {
            reveal_strlit("9");
            assert("9"@ =~= seq![digit_char(9)]);
            assert(final(s)@ =~= old(s)@ + seq![digit_char(d as nat)]);
        }
    }
}

/// Appends the unpadded decimal rendering of `n` to `s`.
pub fn push_decimal(s: &mut String, n: u128)
    ensures
        final(s)@ == old(s)@ + dec_digits(n as nat),
    decreases n,
{
    if n >= 10 {
        push_decimal(s, n / 10);
        push_digit(s, n % 10);
        proof {
            assert(final(s)@ =~= old(s)@ + dec_digits(n as nat));
        }
    } else {
        push_digit(s, n);
    }
}

/// Appends the decimal rendering of `n`, zero-padded to two characters.
pub fn push_padded2(s: &mut String, n: u64)
    ensures
        final(s)@ == old(s)@ + padded2(n as nat),
{
    if n < 10 {
        s.append("0");
        proof {
            reveal_strlit("0");
            assert("0"@ =~= seq!['0']);
        }
    }
    push_decimal(s, n as u128);
    proof {
        assert(final(s)@ =~= old(s)@ + padded2(n as nat));
    }
}

/// Appends the decimal rendering of `n`, zero-padded to three characters.
pub fn push_padded3(s: &mut String, n: u64)
    ensures
        final(s)@ == old(s)@ + padded3(n as nat),
{
    if n < 10 {
        s.append("00");
        proof {
            reveal_strlit("00");
            assert("00"@ =~= seq!['0', '0']);
        }
    } else if n < 100 {
        s.append("0");
        proof {
            reveal_strlit("0");
            assert("0"@ =~= seq!['0']);
        }
    }
    push_decimal(s, n as u128);
    proof {
        assert(final(s)@ =~= old(s)@ + padded3(n as nat));
    }
}

/// Appends the decimal rendering of `n`, zero-padded to four characters.
pub fn push_padded4(s: &mut String, n: u64)
    ensures
        final(s)@ == old(s)@ + padded4(n as nat),
{
    if n < 10 {
        s.append("000");
        proof {
            reveal_strlit("000");
            assert("000"@ =~= seq!['0', '0', '0']);
        }
    } else if n < 100 {
        s.append("00");
        proof {
            reveal_strlit("00");
            assert("00"@ =~= seq!['0', '0']);
        }
    } else if n < 1000 {
        s.append("0");
        proof {
            reveal_strlit("0");
            assert("0"@ =~= seq!['0']);
        }
    }
    push_decimal(s, n as u128);
    proof {
        assert(final(s)@ =~= old(s)@ + padded4(n as nat));
    }
}

} // verus!
