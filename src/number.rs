use vstd::prelude::*;
use vstd::string::*;

verus! {

/// The decimal digit character for `d`, for `d` below ten.
pub open spec fn digit_char(d: nat) -> char {
    (('0' as nat) + d) as char
}

/// Whether `c` is one of the characters `0` to `9`.
pub open spec fn is_digit(c: char) -> bool {
    '0' <= c <= '9'
}

/// The value of `c` as a decimal digit.
pub open spec fn digit_value(c: char) -> nat {
    (c as nat - '0' as nat) as nat
}

/// The decimal numeral of `n`, without leading zeros.
pub open spec fn decimal(n: nat) -> Seq<char>
    decreases n,
{
    if n < 10 {
        seq![digit_char(n)]
    } else {
        decimal(n / 10).push(digit_char(n % 10))
    }
}

/// The value of a string of decimal digits, read left to right.
pub open spec fn numeral_value(s: Seq<char>) -> nat
    decreases s.len(),
{
    if s.len() == 0 {
        0
    } else {
        numeral_value(s.drop_last()) * 10 + digit_value(s.last())
    }
}

/// The digits of an unsigned numeral: an optional leading `+` is dropped.
pub open spec fn unsigned_digits(s: Seq<char>) -> Seq<char> {
    if s.len() > 0 && s[0] == '+' {
        s.skip(1)
    } else {
        s
    }
}

/// What reading `s` as a `u32` in decimal gives: an optional `+`, then one or
/// more digits whose value fits in `u32`; anything else is no number.
pub open spec fn u32_of(s: Seq<char>) -> Option<u32> {
    let d = unsigned_digits(s);
    if d.len() > 0 && (forall|i: int| 0 <= i < d.len() ==> is_digit(#[trigger] d[i]))
        && numeral_value(d) <= u32::MAX {
        Some(numeral_value(d) as u32)
    } else {
        None
    }
}

/// The one-character string of the digit `d`.
fn digit_str(d: u32) -> (r: &'static str)
    requires
        d < 10,
    ensures
        r@ == seq![digit_char(d as nat)],
{
    proof {
        reveal_strlit("0");
        reveal_strlit("1");
        reveal_strlit("2");
        reveal_strlit("3");
        reveal_strlit("4");
        reveal_strlit("5");
        reveal_strlit("6");
        reveal_strlit("7");
        reveal_strlit("8");
        reveal_strlit("9");
    }
    match d {
        0 => "0",
        1 => "1",
        2 => "2",
        3 => "3",
        4 => "4",
        5 => "5",
        6 => "6",
        7 => "7",
        8 => "8",
        _ => "9",
    }
}

/// The decimal numeral of `n`.
pub fn decimal_string(n: u32) -> (r: String)
    ensures
        r@ == decimal(n as nat),
    decreases n,
{
    if n < 10 {
        String::from_str(digit_str(n))
    } else {
        let mut s = decimal_string(n / 10);
        s.append(digit_str(n % 10));
        s
    }
}

/// Reads `s` as a decimal `u32`, as `str::parse` does.
pub fn parse_u32(s: &str) -> (r: Option<u32>)
    ensures
        r == u32_of(s@),
{
    let n = s.unicode_len();
    let mut i: usize = 0;
    if n > 0 && s.get_char(0) == '+' {
        i = 1;
    }
    let ghost d = unsigned_digits(s@);
    assert(d =~= s@.skip(i as int));
    if i == n {
        return None;
    }
    let mut acc: u64 = 0;
    let mut k: usize = i;
    assert(d.take(0) =~= Seq::<char>::empty());
    while k < n
        invariant
            n == s@.len(),
            i <= k <= n,
            d == s@.skip(i as int),
            d == unsigned_digits(s@),
            forall|j: int| 0 <= j < k - i ==> is_digit(#[trigger] d[j]),
            acc == numeral_value(d.take(k - i)),
            acc <= u32::MAX,
        decreases n - k,
    {
        let c = s.get_char(k);
        if !('0' <= c && c <= '9') {
            assert(!is_digit(d[k - i]));
            return None;
        }
        proof {
            assert(d.take(k - i + 1).drop_last() =~= d.take(k - i));
            assert(d.take(k - i + 1).last() == c);
        }
        acc = acc * 10 + (c as u64 - '0' as u64);
        if acc > u32::MAX as u64 {
            proof {
                assert(numeral_value(d.take(k - i + 1)) > u32::MAX);
                lemma_numeral_grows(d, (k - i + 1) as int);
            }
            return None;
        }
        k = k + 1;
    }
    assert(d.take(n - i) =~= d);
    Some(acc as u32)
}

/// A numeral's value never falls as digits are added at its end.
proof fn lemma_numeral_grows(d: Seq<char>, k: int)
    requires
        0 <= k <= d.len(),
    ensures
        numeral_value(d) >= numeral_value(d.take(k)),
    decreases d.len() - k,
{
    if k < d.len() {
        lemma_numeral_grows(d, k + 1);
        assert(d.take(k + 1).drop_last() =~= d.take(k));
    }
    else {
        assert(d.take(k) =~= d);
    }
}

proof fn lemma_digit_char_value(d: nat)
    requires
        d < 10,
    ensures
        is_digit(digit_char(d)),
        digit_value(digit_char(d)) == d,
{
    assert(('0' as nat) == 48);
}

/// The numeral of `n` is made of digits and reads back as `n`.
pub proof fn lemma_decimal_reads_back(n: nat)
    ensures
        decimal(n).len() > 0,
        forall|i: int| 0 <= i < decimal(n).len() ==> is_digit(#[trigger] decimal(n)[i]),
        numeral_value(decimal(n)) == n,
    decreases n,
{
    lemma_digit_char_value((n % 10) as nat);
    if n >= 10 {
        lemma_decimal_reads_back(n / 10);
        assert(decimal(n).drop_last() =~= decimal(n / 10));
        assert(decimal(n).last() == digit_char(n % 10));
        assert(numeral_value(decimal(n)) == numeral_value(decimal(n / 10)) * 10 + n % 10);
        assert(n == (n / 10) * 10 + n % 10);
    } else {
        assert(decimal(n).drop_last() =~= Seq::<char>::empty());
        assert(numeral_value(Seq::<char>::empty()) == 0);
        assert(numeral_value(decimal(n)) == numeral_value(Seq::<char>::empty()) * 10
            + digit_value(digit_char(n)));
    }
}

/// Reading the numeral of a `u32` gives it back.
pub proof fn lemma_u32_round_trip(n: u32)
    ensures
        u32_of(decimal(n as nat)) == Some(n),
{
    lemma_decimal_reads_back(n as nat);
    assert(is_digit(decimal(n as nat)[0]));
}

} // verus!
