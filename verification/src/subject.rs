//! Token subjects: a user id rendered as decimal text, and the parse that
//! recovers it. A token's subject must be integer-parseable; anything else is
//! rejected as invalid.
use vstd::prelude::*;

verus! {

/// A decimal digit character.
pub open spec fn is_digit(c: char) -> bool {
    0x30 <= c as u32 && c as u32 <= 0x39
}

/// The numeric value of a decimal digit character.
pub open spec fn digit_val(c: char) -> int {
    c as u32 - 0x30
}

/// The character for a single decimal digit.
pub open spec fn digit_char(d: int) -> char {
    if d == 0 {
        '0'
    } else if d == 1 {
        '1'
    } else if d == 2 {
        '2'
    } else if d == 3 {
        '3'
    } else if d == 4 {
        '4'
    } else if d == 5 {
        '5'
    } else if d == 6 {
        '6'
    } else if d == 7 {
        '7'
    } else if d == 8 {
        '8'
    } else {
        '9'
    }
}

pub open spec fn all_digits(s: Seq<char>) -> bool {
    forall|i: int| 0 <= i < s.len() ==> is_digit(s[i])
}

/// The value of a string of decimal digits, most significant first.
pub open spec fn digits_val(s: Seq<char>) -> int
    decreases s.len(),
{
    if s.len() == 0 {
        0
    } else {
        digits_val(s.drop_last()) * 10 + digit_val(s.last())
    }
}

/// The decimal rendering of a natural number, without leading zeros.
pub open spec fn dec_digits(n: nat) -> Seq<char>
    decreases n,
{
    if n < 10 {
        seq![digit_char(n as int)]
    } else {
        dec_digits(n / 10).push(digit_char((n % 10) as int))
    }
}

/// What a subject string means: a user id, if the string is a non-empty run
/// of decimal digits whose value fits an i32; nothing otherwise.
pub open spec fn parse_subject(s: Seq<char>) -> Option<int> {
    if s.len() > 0 && all_digits(s) && digits_val(s) <= i32::MAX as int {
        Some(digits_val(s))
    } else {
        None
    }
}

proof fn lemma_digits_val_nonneg(s: Seq<char>)
    requires
        all_digits(s),
    ensures
        digits_val(s) >= 0,
    decreases s.len(),
{
    if s.len() > 0 {
        assert(all_digits(s.drop_last()));
        lemma_digits_val_nonneg(s.drop_last());
    }
}

/// The value of a digit string only grows as digits are appended: any prefix
/// is worth no more than the whole.
proof fn lemma_digits_val_prefix_le(s: Seq<char>, i: int)
    requires
        all_digits(s),
        0 <= i <= s.len(),
    ensures
        digits_val(s.subrange(0, i)) <= digits_val(s),
    decreases s.len() - i,
{
    if i == s.len() {
        assert(s.subrange(0, i) =~= s);
    } else {
        let p = s.subrange(0, i);
        let q = s.subrange(0, i + 1);
        assert(q.drop_last() =~= p);
        assert(all_digits(p));
        lemma_digits_val_nonneg(p);
        assert(digits_val(q) == digits_val(p) * 10 + digit_val(q.last()));
        lemma_digits_val_prefix_le(s, i + 1);
    }
}

/// A parsed subject is a usable user id: nonnegative and within i32.
pub proof fn lemma_parse_subject_bounds(s: Seq<char>)
    ensures
        parse_subject(s) matches Some(v) ==> 0 <= v <= i32::MAX as int,
{
    if parse_subject(s) is Some {
        lemma_digits_val_nonneg(s);
    }
}

/// Parses a token subject: a non-empty string of decimal digits denoting a
/// value that fits an i32. Anything else is no user id.
pub fn subject_to_user_id(s: &str) -> (r: Option<i32>)
    ensures
        match r {
            Some(id) => parse_subject(s@) == Some(id as int),
            None => parse_subject(s@) is None,
        },
{
    let n = s.unicode_len();
    if n == 0 {
        return None;
    }
    let mut acc: u64 = 0;
    let mut i: usize = 0;
    while i < n
        invariant
            0 < n == s@.len(),
            i <= n,
            all_digits(s@.subrange(0, i as int)),
            acc == digits_val(s@.subrange(0, i as int)),
            acc <= i32::MAX as u64,
        decreases n - i,
    {
        let c = s.get_char(i);
        let u = c as u32;
        proof {
            assert(s@.subrange(0, i + 1 as int) =~= s@.subrange(0, i as int).push(s@[i as int]));
            assert(s@.subrange(0, i + 1 as int).drop_last() =~= s@.subrange(0, i as int));
        }
        if u < 0x30 || u > 0x39 {
            proof {
                assert(!is_digit(s@[i as int]));
                assert(!all_digits(s@));
            }
            return None;
        }
        let d = (u - 0x30) as u64;
        acc = acc * 10 + d;
        i += 1;
        if acc > i32::MAX as u64 {
            proof {
                let p = s@.subrange(0, i as int);
                assert(digits_val(p) > i32::MAX as int);
                if all_digits(s@) {
                    lemma_digits_val_prefix_le(s@, i as int);
                    assert(digits_val(s@) > i32::MAX as int);
                }
            }
            return None;
        }
    }
    proof {
        assert(s@.subrange(0, n as int) =~= s@);
    }
    Some(acc as i32)
}

proof fn lemma_dec_digits_all_digits(n: nat)
    ensures
        all_digits(dec_digits(n)),
        dec_digits(n).len() > 0,
    decreases n,
{
    if n >= 10 {
        lemma_dec_digits_all_digits(n / 10);
        assert forall|i: int| 0 <= i < dec_digits(n).len() implies is_digit(dec_digits(n)[i]) by {
            if i < dec_digits(n / 10).len() {
                assert(dec_digits(n)[i] == dec_digits(n / 10)[i]);
            }
        }
    }
}

proof fn lemma_dec_digits_val(n: nat)
    ensures
        digits_val(dec_digits(n)) == n,
    decreases n,
{
    assert(digit_val(digit_char((n % 10) as int)) == (n % 10) as int);
    if n < 10 {
        assert(dec_digits(n) == seq![digit_char(n as int)]);
        assert(dec_digits(n).drop_last() =~= Seq::<char>::empty());
        assert(digits_val(Seq::<char>::empty()) == 0);
        assert(dec_digits(n).last() == digit_char(n as int));
        assert(digits_val(dec_digits(n)) == digits_val(dec_digits(n).drop_last()) * 10 + digit_val(
            dec_digits(n).last(),
        ));
    } else {
        lemma_dec_digits_val(n / 10);
        assert(dec_digits(n) == dec_digits(n / 10).push(digit_char((n % 10) as int)));
        assert(dec_digits(n).drop_last() =~= dec_digits(n / 10));
        assert(dec_digits(n).last() == digit_char((n % 10) as int));
        assert(digits_val(dec_digits(n)) == digits_val(dec_digits(n).drop_last()) * 10 + digit_val(
            dec_digits(n).last(),
        ));
    }
}

/// Rendering a user id as decimal text and parsing it back yields the same
/// id: the token subject round trip loses nothing.
pub proof fn lemma_subject_round_trip(n: nat)
    requires
        n <= i32::MAX as nat,
    ensures
        parse_subject(dec_digits(n)) == Some(n as int),
{
    lemma_dec_digits_all_digits(n);
    lemma_dec_digits_val(n);
}

fn digit_to_char(d: u32) -> (r: char)
    requires
        d <= 9,
    ensures
        r == digit_char(d as int),
{
    match d {
        0 => '0',
        1 => '1',
        2 => '2',
        3 => '3',
        4 => '4',
        5 => '5',
        6 => '6',
        7 => '7',
        8 => '8',
        _ => '9',
    }
}

/// Renders a user id as its decimal text, the subject placed in tokens.
pub fn user_id_to_subject(id: i32) -> (r: String)
    requires
        0 <= id,
    ensures
        r@ == dec_digits(id as nat),
{
    if id == 0 {
        let mut out = String::new();
        out.push('0');
        proof {
            assert(out@ =~= dec_digits(0));
        }
        return out;
    }
    let mut digits: Vec<char> = Vec::new();
    let mut n: u32 = id as u32;
    while n > 0
        invariant
            dec_digits(id as nat) =~= (if n > 0 {
                dec_digits(n as nat)
            } else {
                Seq::<char>::empty()
            }) + digits@.reverse(),
        decreases n,
    {
        let d = n % 10;
        let ghost n0 = n as nat;
        let ghost pre = digits@;
        digits.push(digit_to_char(d));
        n = n / 10;
        proof {
            assert(digits@ =~= pre.push(digit_char(d as int)));
            assert(digits@.reverse() =~= seq![digit_char(d as int)] + pre.reverse());
            if n0 >= 10 {
                assert(dec_digits(n0) == dec_digits(n0 / 10).push(digit_char((n0 % 10) as int)));
                assert(dec_digits(n0 / 10) + digits@.reverse() =~= dec_digits(n0) + pre.reverse());
            } else {
                assert(dec_digits(n0) == seq![digit_char(n0 as int)]);
                assert(Seq::<char>::empty() + digits@.reverse() =~= dec_digits(n0)
                    + pre.reverse());
            }
        }
    }
    let mut out = String::new();
    let mut i = digits.len();
    proof {
        assert(digits@.subrange(i as int, digits@.len() as int).reverse()
            =~= Seq::<char>::empty());
    }
    while i > 0
        invariant
            i <= digits@.len(),
            out@ == digits@.subrange(i as int, digits@.len() as int).reverse(),
        decreases i,
    {
        i -= 1;
        out.push(digits[i]);
        proof {
            assert(digits@.subrange(i as int, digits@.len() as int).reverse()
                =~= digits@.subrange(i + 1, digits@.len() as int).reverse().push(digits@[i as int]));
        }
    }
    proof {
        assert(digits@.subrange(0, digits@.len() as int) =~= digits@);
        assert(out@ =~= dec_digits(id as nat));
    }
    out
}

} // verus!
