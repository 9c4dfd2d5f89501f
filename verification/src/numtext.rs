//! Decimal text for integers: parsing with the same acceptance rules as
//! `i64` parsing in std (optional `+`/`-` sign, digits only, value in
//! range), formatting of integers, and formatting of fixed-point
//! micro-degree coordinates.

use vstd::prelude::*;

verus! {

pub open spec fn is_digit_char(c: char) -> bool {
    48 <= c as int && c as int <= 57
}

pub open spec fn digit_of_char(c: char) -> int {
    c as int - 48
}

/// One or more decimal digits.
pub open spec fn is_digits(s: Seq<char>) -> bool {
    s.len() > 0 && forall|i: int| 0 <= i < s.len() ==> is_digit_char(s[i])
}

/// The value of a digit string.
pub open spec fn digits_val(s: Seq<char>) -> int
    decreases s.len(),
{
    if s.len() == 0 {
        0
    } else {
        digits_val(s.drop_last()) * 10 + digit_of_char(s.last())
    }
}

/// The sign and the digit part of signed integer text.
pub open spec fn sign_split(s: Seq<char>) -> (bool, Seq<char>) {
    if s.len() > 0 && s[0] == '-' {
        (true, s.skip(1))
    } else if s.len() > 0 && s[0] == '+' {
        (false, s.skip(1))
    } else {
        (false, s)
    }
}

/// What `i64` parsing accepts and yields: an optional sign, then digits,
/// and a value that fits.
pub open spec fn spec_parse_i64(s: Seq<char>) -> Option<i64> {
    let neg = sign_split(s).0;
    let ds = sign_split(s).1;
    if !is_digits(ds) {
        None
    } else {
        let v: int = if neg {
            -digits_val(ds)
        } else {
            digits_val(ds)
        };
        if i64::MIN <= v <= i64::MAX {
            Some(v as i64)
        } else {
            None
        }
    }
}

pub open spec fn spec_digit(d: int) -> char {
    if d == 0 {
        '0'
    } else if d == 1 {
        '1'
    } else if d == 2 {
        '2'
    } else if d == 3 {
        '3'
    } else if d == 4 {
        '4'
    } else if d == 5 {
        '5'
    } else if d == 6 {
        '6'
    } else if d == 7 {
        '7'
    } else if d == 8 {
        '8'
    } else {
        '9'
    }
}

/// Decimal digits of `n`, most significant first, no leading zeros.
pub open spec fn spec_format_nat(n: nat) -> Seq<char>
    decreases n,
{
    if n < 10 {
        seq![spec_digit(n as int)]
    } else {
        spec_format_nat(n / 10).push(spec_digit((n % 10) as int))
    }
}

/// Decimal text of a signed value.
pub open spec fn spec_format_i64(v: int) -> Seq<char> {
    if v < 0 {
        seq!['-'] + spec_format_nat((-v) as nat)
    } else {
        spec_format_nat(v as nat)
    }
}

/// Exactly `width` digits of `n`, leading zeros kept.
pub open spec fn spec_digits_fixed(n: nat, width: nat) -> Seq<char>
    decreases width,
{
    if width == 0 {
        Seq::empty()
    } else {
        spec_digits_fixed(n / 10, (width - 1) as nat).push(spec_digit((n % 10) as int))
    }
}

pub open spec fn strip_trailing_zeros(s: Seq<char>) -> Seq<char>
    decreases s.len(),
{
    if s.len() > 0 && s.last() == '0' {
        strip_trailing_zeros(s.drop_last())
    } else {
        s
    }
}

/// Decimal text of a micro-degree fixed-point coordinate: the integer
/// part, then the six-digit fraction with trailing zeros dropped, the dot
/// only when a fraction remains.
pub open spec fn spec_format_e6(v: int) -> Seq<char> {
    let m: int = if v < 0 {
        -v
    } else {
        v
    };
    let sign: Seq<char> = if v < 0 {
        seq!['-']
    } else {
        Seq::empty()
    };
    let frac = strip_trailing_zeros(spec_digits_fixed((m % 1000000) as nat, 6));
    if frac.len() == 0 {
        sign + spec_format_nat((m / 1000000) as nat)
    } else {
        sign + spec_format_nat((m / 1000000) as nat) + seq!['.'] + frac
    }
}

pub proof fn lemma_digits_val_nonneg(s: Seq<char>)
    requires
        forall|i: int| 0 <= i < s.len() ==> is_digit_char(s[i]),
    ensures
        digits_val(s) >= 0,
    decreases s.len(),
{
    if s.len() > 0 {
        lemma_digits_val_nonneg(s.drop_last());
    }
}

/// A digit string's value only grows as digits are appended.
pub proof fn lemma_digits_val_prefix(s: Seq<char>, i: int)
    requires
        forall|j: int| 0 <= j < s.len() ==> is_digit_char(s[j]),
        0 <= i <= s.len(),
    ensures
        digits_val(s.subrange(0, i)) <= digits_val(s),
    decreases s.len() - i,
{
    if i == s.len() {
        assert(s.subrange(0, i) =~= s);
    } else {
        let t = s.subrange(0, i + 1);
        assert(t.drop_last() =~= s.subrange(0, i));
        lemma_digits_val_nonneg(t.drop_last());
        assert(digits_val(s.subrange(0, i)) <= digits_val(t));
        lemma_digits_val_prefix(s, i + 1);
    }
}

/// Parse signed decimal text as std does for `i64`.
pub fn parse_i64(s: &str) -> (r: Option<i64>)
    ensures
        r == spec_parse_i64(s@),
{
    let n = s.unicode_len();
    if n == 0 {
        return None;
    }
    let c0 = s.get_char(0);
    let c0u = c0 as u32;
    let neg: bool = c0u == 45;
    let start: usize = if c0u == 45 || c0u == 43 {
        1
    } else {
        0
    };
    proof {
        assert(neg == (s@[0] == '-'));
        assert((c0u == 43) == (s@[0] == '+'));
    }
    let ghost ds = sign_split(s@).1;
    proof {
        assert(ds =~= s@.subrange(start as int, n as int));
    }
    if start == n {
        return None;
    }
    let mut acc: u64 = 0;
    let mut i: usize = start;
    while i < n
        invariant
            start <= i <= n,
            n == s@.len(),
            start + ds.len() == n,
            ds == sign_split(s@).1,
            ds =~= s@.subrange(start as int, n as int),
            forall|j: int| 0 <= j < i - start ==> is_digit_char(ds[j]),
            acc == digits_val(ds.subrange(0, i - start)),
        decreases n - i,
    {
        let c = s.get_char(i);
        let cu = c as u32;
        if !(48 <= cu && cu <= 57) {
            proof {
                assert(ds[i - start] == c);
                assert(!is_digits(ds));
            }
            return None;
        }
        let d: u64 = (cu - 48) as u64;
        proof {
            assert(d == digit_of_char(c));
        }
        if acc > (u64::MAX - d) / 10 {
            proof {
                let p = ds.subrange(0, i - start + 1);
                assert(p.drop_last() =~= ds.subrange(0, i - start));
                assert(p.last() == c);
                assert(digits_val(p) == acc * 10 + d);
                assert(acc * 10 + d > u64::MAX) by (nonlinear_arith)
                    requires
                        acc > (u64::MAX - d) / 10,
                        d <= 9,
                ;
                if is_digits(ds) {
                    lemma_digits_val_prefix(ds, i - start + 1);
                    assert(digits_val(ds) > u64::MAX);
                }
            }
            return None;
        }
        proof {
            assert(acc * 10 + d <= u64::MAX) by (nonlinear_arith)
                requires
                    acc <= (u64::MAX - d) / 10,
                    d <= 9,
            ;
            let p = ds.subrange(0, i - start + 1);
            assert(p.drop_last() =~= ds.subrange(0, i - start));
            assert(p.last() == ds[i - start]);
            assert(ds[i - start] == c);
        }
        acc = acc * 10 + d;
        i = i + 1;
    }
    proof {
        assert(ds.subrange(0, n - start) =~= ds);
        assert(is_digits(ds));
    }
    if neg {
        if acc > 9223372036854775808u64 {
            return None;
        }
        if acc == 9223372036854775808u64 {
            return Some(i64::MIN);
        }
        Some(-(acc as i64))
    } else {
        if acc > i64::MAX as u64 {
            return None;
        }
        Some(acc as i64)
    }
}

fn digit_str(d: u64) -> (r: &'static str)
    requires
        d < 10,
    ensures
        r@ =~= seq![spec_digit(d as int)],
{
    proof {
        reveal_strlit("0");
        reveal_strlit("1");
        reveal_strlit("2");
        reveal_strlit("3");
        reveal_strlit("4");
        reveal_strlit("5");
        reveal_strlit("6");
        reveal_strlit("7");
        reveal_strlit("8");
        reveal_strlit("9");
    }
    if d == 0 {
        "0"
    } else if d == 1 {
        "1"
    } else if d == 2 {
        "2"
    } else if d == 3 {
        "3"
    } else if d == 4 {
        "4"
    } else if d == 5 {
        "5"
    } else if d == 6 {
        "6"
    } else if d == 7 {
        "7"
    } else if d == 8 {
        "8"
    } else {
        "9"
    }
}

/// Decimal text of an unsigned value.
pub fn format_u64(n: u64) -> (r: String)
    ensures
        r@ =~= spec_format_nat(n as nat),
    decreases n,
{
    if n < 10 {
        digit_str(n).to_owned()
    } else {
        let mut s = format_u64(n / 10);
        s.append(digit_str(n % 10));
        s
    }
}

/// Decimal text of a signed value.
pub fn format_i64(v: i64) -> (r: String)
    ensures
        r@ =~= spec_format_i64(v as int),
{
    if v >= 0 {
        format_u64(v as u64)
    } else {
        let m: u64 = if v == i64::MIN {
            9223372036854775808u64
        } else {
            (-v) as u64
        };
        let mut s = "-".to_owned();
        let tail = format_u64(m);
        s.append(tail.as_str());
        proof {
            reveal_strlit("-");
            assert("-"@ =~= seq!['-']);
        }
        s
    }
}

fn digits_fixed(n: u64, width: u64) -> (r: String)
    ensures
        r@ =~= spec_digits_fixed(n as nat, width as nat),
    decreases width,
{
    if width == 0 {
        String::new()
    } else {
        let mut s = digits_fixed(n / 10, width - 1);
        s.append(digit_str(n % 10));
        s
    }
}

/// Decimal text of a micro-degree coordinate.
pub fn format_e6(v: i64) -> (r: String)
    ensures
        r@ =~= spec_format_e6(v as int),
{
    let m: u64 = if v < 0 {
        if v == i64::MIN {
            9223372036854775808u64
        } else {
            (-v) as u64
        }
    } else {
        v as u64
    };
    let mut s = if v < 0 {
        let t = "-".to_owned();
        proof {
            reveal_strlit("-");
            assert("-"@ =~= seq!['-']);
        }
        t
    } else {
        String::new()
    };
    let ip = format_u64(m / 1000000);
    s.append(ip.as_str());
    let frac = digits_fixed(m % 1000000, 6);
    let ghost frac_spec = strip_trailing_zeros(spec_digits_fixed((m % 1000000) as nat, 6));
    let mut keep: usize = 6;
    proof {
        assert(frac@.len() == 6) by {
            lemma_digits_fixed_len((m % 1000000) as nat, 6);
        }
        assert(frac@.subrange(0, 6) =~= frac@);
    }
    while keep > 0 && frac.as_str().get_char(keep - 1) as u32 == 48
        invariant
            0 <= keep <= 6,
            frac@.len() == 6,
            strip_trailing_zeros(frac@.subrange(0, keep as int)) =~= frac_spec,
        decreases keep,
    {
        proof {
            assert(frac@.subrange(0, keep as int).drop_last() =~= frac@.subrange(
                0,
                keep as int - 1,
            ));
        }
        keep = keep - 1;
    }
    proof {
        if keep > 0 {
            assert(frac@.subrange(0, keep as int).last() != '0');
        }
        assert(frac_spec =~= frac@.subrange(0, keep as int));
    }
    if keep > 0 {
        s.append(".");
        proof {
            reveal_strlit(".");
            assert("."@ =~= seq!['.']);
        }
        let part = frac.as_str().substring_char(0, keep);
        s.append(part);
    }
    s
}

proof fn lemma_digits_fixed_len(n: nat, width: nat)
    ensures
        spec_digits_fixed(n, width).len() == width,
    decreases width,
{
    if width > 0 {
        lemma_digits_fixed_len(n / 10, (width - 1) as nat);
    }
}

} // verus!
