//! Small verified text helpers: decimal rendering and string equality,
//! used to build protocol replies and error messages.
use vstd::prelude::*;

verus! {

/// The character for one decimal digit.
pub open spec fn digit_char(d: int) -> char {
    if d == 0 {
        '0'
    } else if d == 1 {
        '1'
    } else if d == 2 {
        '2'
    } else if d == 3 {
        '3'
    } else if d == 4 {
        '4'
    } else if d == 5 {
        '5'
    } else if d == 6 {
        '6'
    } else if d == 7 {
        '7'
    } else if d == 8 {
        '8'
    } else {
        '9'
    }
}

/// The decimal representation of `n`, most significant digit first, with
/// no leading zeros (except for `n == 0` itself).
pub open spec fn dec_chars(n: nat) -> Seq<char>
    decreases n,
{
    if n < 10 {
        seq![digit_char(n as int)]
    } else {
        dec_chars(n / 10) + seq![digit_char((n % 10) as int)]
    }
}

/// A one-character string slice for the digit `d`.
fn digit_str(d: u8) -> (r: &'static str)
    requires
        d < 10,
    ensures
        r@ == seq![digit_char(d as int)],
{
    proof {
        reveal_strlit("0");
        reveal_strlit("1");
        reveal_strlit("2");
        reveal_strlit("3");
        reveal_strlit("4");
        reveal_strlit("5");
        reveal_strlit("6");
        reveal_strlit("7");
        reveal_strlit("8");
        reveal_strlit("9");
    }
    match d {
        0 => "0",
        1 => "1",
        2 => "2",
        3 => "3",
        4 => "4",
        5 => "5",
        6 => "6",
        7 => "7",
        8 => "8",
        _ => "9",
    }
}

/// Append the decimal representation of `n` to `s`.
pub fn push_decimal(s: &mut String, n: u64)
    ensures
        final(s)@ == old(s)@ + dec_chars(n as nat),
{
    let mut digits: Vec<u8> = Vec::new();
    let mut m: u64 = n;
    loop
        invariant_except_break
            digits@.len() > 0 ==> m > 0,
        invariant
            m <= n,
            forall|q: int| 0 <= q < digits@.len() ==> digits@[q] < 10,
            digits@.len() == 0 ==> m == n,
            m > 0 ==> dec_chars(n as nat) =~= dec_chars(m as nat) + rev_digit_chars(digits@),
        ensures
            digits@.len() > 0,
            forall|q: int| 0 <= q < digits@.len() ==> digits@[q] < 10,
            dec_chars(n as nat) =~= rev_digit_chars(digits@),
        decreases m,
    {
        let ghost m0 = m;
        let d = (m % 10) as u8;
        let ghost digits0 = digits@;
        digits.push(d);
        proof {
            lemma_rev_digit_chars_push(digits0, d);
        }
        m = m / 10;
        if m == 0 {
            proof {
                if digits0.len() == 0 && m0 == 0 {
                    assert(n == 0);
                    assert(dec_chars(0) =~= seq![digit_char(0)]);
                    assert(rev_digit_chars(digits@) =~= seq![digit_char(0)]);
                } else {
                    assert(m0 > 0 && m0 < 10);
                    assert(dec_chars(m0 as nat) =~= seq![digit_char(m0 as int)]);
                    assert(dec_chars(n as nat) =~= rev_digit_chars(digits@));
                }
            }
            break ;
        }
    }
    let mut i: usize = digits.len();
    while i > 0
        invariant
            i <= digits@.len(),
            forall|q: int| 0 <= q < digits@.len() ==> digits@[q] < 10,
            dec_chars(n as nat) =~= rev_digit_chars(digits@),
            s@ == old(s)@ + dec_chars(n as nat).take(digits@.len() - i),
        decreases i,
    {
        i = i - 1;
        let d = digits[i];
        s.append(digit_str(d));
        proof {
            let k = digits@.len() - 1 - i;
            assert(dec_chars(n as nat)[k] == digit_char(digits@[i as int] as int));
            assert(old(s)@ + dec_chars(n as nat).take(k) + seq![digit_char(
                digits@[i as int] as int,
            )] =~= old(s)@ + dec_chars(n as nat).take(k + 1));
        }
    }
    proof {
        assert(dec_chars(n as nat).take(digits@.len() as int) =~= dec_chars(n as nat));
    }
}

/// The digit characters of `ds`, last digit first.
pub open spec fn rev_digit_chars(ds: Seq<u8>) -> Seq<char> {
    Seq::new(ds.len(), |i: int| digit_char(ds[ds.len() - 1 - i] as int))
}

proof fn lemma_rev_digit_chars_push(ds: Seq<u8>, d: u8)
    ensures
        rev_digit_chars(ds.push(d)) =~= seq![digit_char(d as int)] + rev_digit_chars(ds),
{
}

/// Character-wise string equality, usable where the verifier needs to
/// know what the comparison means.
pub fn str_eq(a: &str, b: &str) -> (r: bool)
    ensures
        r == (a@ == b@),
{
    let alen = a.unicode_len();
    let blen = b.unicode_len();
    if alen != blen {
        return false;
    }
    let mut i: usize = 0;
    while i < alen
        invariant
            i <= alen,
            alen == a@.len() == b@.len(),
            forall|q: int| 0 <= q < i ==> a@[q] == b@[q],
        decreases alen - i,
    {
        if a.get_char(i) != b.get_char(i) {
            return false;
        }
        i = i + 1;
    }
    proof {
        assert(a@ =~= b@);
    }
    true
}

} // verus!
