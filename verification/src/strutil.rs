//! Small string helpers shared by the lexer and the textual forms of
//! values, instructions and syntax trees: character access, decimal
//! rendering of integers, and decimal parsing with an overflow check.

use vstd::prelude::*;

verus! {

/// Relies on str::chars: yields the characters of the string in order.
#[verifier::external_body]
pub fn str_chars(s: &str) -> (r: Vec<char>)
    ensures
        r@ == s@,
{
    s.chars().collect()
}

/// Relies on String::push: appends one character at the end.
#[verifier::external_body]
pub fn push_char(s: &mut String, c: char)
    ensures
        final(s)@ == old(s)@.push(c),
{
    s.push(c);
}

/// Build a string out of a sequence of characters.
pub fn chars_to_string(v: &Vec<char>) -> (r: String)
    ensures
        r@ == v@,
{
    let mut r = String::new();
    let mut i: usize = 0;
    while i < v.len()
        invariant
            i <= v.len(),
            r@ == v@.take(i as int),
        decreases v.len() - i,
    {
        push_char(&mut r, v[i]);
        i = i + 1;
        proof {
            assert(v@.take(i as int) =~= v@.take(i - 1).push(v@[i - 1]));
        }
    }
    proof {
        assert(v@.take(v.len() as int) =~= v@);
    }
    r
}

/// Whether a character is a decimal digit.
pub open spec fn is_digit_char(c: char) -> bool {
    '0' <= c && c <= '9'
}

/// The numeric value of a decimal digit character.
pub open spec fn digit_val(c: char) -> nat {
    (c as nat - '0' as nat) as nat
}

/// The digit character for a value below ten.
pub open spec fn digit_char(d: nat) -> char {
    if d == 0 {
        '0'
    } else if d == 1 {
        '1'
    } else if d == 2 {
        '2'
    } else if d == 3 {
        '3'
    } else if d == 4 {
        '4'
    } else if d == 5 {
        '5'
    } else if d == 6 {
        '6'
    } else if d == 7 {
        '7'
    } else if d == 8 {
        '8'
    } else {
        '9'
    }
}

/// The decimal digits of a natural number, most significant first.
pub open spec fn dec_rep(n: nat) -> Seq<char>
    decreases n,
{
    if n < 10 {
        seq![digit_char(n)]
    } else {
        dec_rep(n / 10).push(digit_char(n % 10))
    }
}

/// The textual form of a signed integer: its decimal digits, with a
/// leading minus sign when it is negative.
pub open spec fn int_text(x: int) -> Seq<char> {
    if x >= 0 {
        dec_rep(x as nat)
    } else {
        seq!['-'] + dec_rep((-x) as nat)
    }
}

/// The digit character for a value below ten.
fn digit_char_exec(d: u64) -> (c: char)
    requires
        d < 10,
    ensures
        c == digit_char(d as nat),
{
    match d {
        0 => '0',
        1 => '1',
        2 => '2',
        3 => '3',
        4 => '4',
        5 => '5',
        6 => '6',
        7 => '7',
        8 => '8',
        _ => '9',
    }
}

proof fn lemma_push_reverse(s: Seq<char>, c: char)
    ensures
        s.push(c).reverse() =~= seq![c] + s.reverse(),
{
}

/// Append the decimal digits of a natural number to a string.
pub fn append_dec(s: &mut String, n: u64)
    ensures
        final(s)@ == old(s)@ + dec_rep(n as nat),
{
    let mut digits: Vec<char> = Vec::new();
    let mut m: u64 = n;
    loop
        invariant_except_break
            digits@.len() >= 1 ==> dec_rep(n as nat) =~= dec_rep(m as nat) + digits@.reverse(),
            digits@.len() == 0 ==> m == n,
        ensures
            dec_rep(n as nat) =~= digits@.reverse(),
        decreases m,
    {
        let d = m % 10;
        let m2 = m / 10;
        if m2 == 0 {
            proof {
                assert(dec_rep(m as nat) =~= seq![digit_char(d as nat)]);
                lemma_push_reverse(digits@, digit_char(d as nat));
                if digits@.len() == 0 {
                    assert(dec_rep(m as nat) + digits@.reverse() =~= seq![digit_char(d as nat)]);
                }
                assert(dec_rep(n as nat) =~= seq![digit_char(d as nat)] + digits@.reverse());
            }
            digits.push(digit_char_exec(d));
            break;
        } else {
            proof {
                assert(m >= 10);
                assert(dec_rep(m as nat) =~= dec_rep(m as nat / 10).push(digit_char(m as nat % 10)));
                lemma_push_reverse(digits@, digit_char(d as nat));
                if digits@.len() == 0 {
                    assert(dec_rep(m as nat) + digits@.reverse() =~= dec_rep(m as nat));
                }
                assert(dec_rep(n as nat) =~= dec_rep(m2 as nat) + (seq![digit_char(d as nat)] + digits@.reverse()));
            }
            digits.push(digit_char_exec(d));
            m = m2;
        }
    }
    let ghost start = s@;
    let mut i: usize = digits.len();
    while i > 0
        invariant
            i <= digits.len(),
            s@ =~= start + digits@.reverse().take(digits@.len() - i),
        decreases i,
    {
        i = i - 1;
        push_char(s, digits[i]);
        proof {
            assert(digits@.reverse()[digits@.len() - i - 1] == digits@[i as int]);
            assert(s@ =~= start + digits@.reverse().take(digits@.len() - i));
        }
    }
    proof {
        assert(digits@.reverse().take(digits@.len() as int) =~= digits@.reverse());
    }
}

/// Append the textual form of a signed integer to a string.
pub fn append_int(s: &mut String, x: i64)
    ensures
        final(s)@ == old(s)@ + int_text(x as int),
{
    if x >= 0 {
        append_dec(s, x as u64);
    } else {
        push_char(s, '-');
        let mag: u64 = ((-1 - x) as u64) + 1;
        assert(mag == -(x as int));
        append_dec(s, mag);
        proof {
            assert(old(s)@ + int_text(x as int) =~= (old(s)@.push('-')) + dec_rep(mag as nat));
        }
    }
}

/// The textual form of a signed integer.
pub fn int_to_string(x: i64) -> (r: String)
    ensures
        r@ == int_text(x as int),
{
    let mut s = String::new();
    append_int(&mut s, x);
    proof {
        assert(Seq::<char>::empty() + int_text(x as int) =~= int_text(x as int));
    }
    s
}

/// The length in bytes of one character's UTF-8 encoding.
pub open spec fn char_utf8_len(c: char) -> nat {
    if (c as nat) < 0x80 {
        1
    } else if (c as nat) < 0x800 {
        2
    } else if (c as nat) < 0x10000 {
        3
    } else {
        4
    }
}

/// The length in bytes of a text's UTF-8 encoding.
pub open spec fn utf8_len(s: Seq<char>) -> nat
    decreases s,
{
    if s.len() == 0 {
        0
    } else {
        char_utf8_len(s[0]) + utf8_len(s.drop_first())
    }
}

/// The value of a sequence of decimal digit characters, read in base ten.
pub open spec fn digits_val(s: Seq<char>) -> nat
    decreases s.len(),
{
    if s.len() == 0 {
        0
    } else {
        digits_val(s.drop_last()) * 10 + digit_val(s.last())
    }
}

proof fn lemma_digits_val_take_step(s: Seq<char>, i: int)
    requires
        0 <= i < s.len(),
    ensures
        digits_val(s.take(i + 1)) == digits_val(s.take(i)) * 10 + digit_val(s[i]),
{
    assert(s.take(i + 1).drop_last() =~= s.take(i));
    assert(s.take(i + 1).last() == s[i]);
}

proof fn lemma_digits_val_grows(s: Seq<char>, i: int)
    requires
        0 <= i <= s.len(),
    ensures
        digits_val(s) >= digits_val(s.take(i)),
    decreases s.len() - i,
{
    if i < s.len() {
        lemma_digits_val_take_step(s, i);
        assert(digits_val(s.take(i + 1)) >= digits_val(s.take(i)));
        lemma_digits_val_grows(s, i + 1);
    } else {
        assert(s.take(i) =~= s);
    }
}

/// Read a sequence of decimal digit characters as a signed 64-bit
/// integer; `None` exactly when the value does not fit.
pub fn digits_to_i64(v: &Vec<char>) -> (r: Option<i64>)
    requires
        forall|i: int| 0 <= i < v@.len() ==> is_digit_char(#[trigger] v@[i]),
    ensures
        r is Some <==> digits_val(v@) <= i64::MAX,
        r matches Some(x) ==> x == digits_val(v@),
{
    let mut acc: u64 = 0;
    let mut i: usize = 0;
    while i < v.len()
        invariant
            i <= v.len(),
            forall|j: int| 0 <= j < v@.len() ==> is_digit_char(#[trigger] v@[j]),
            acc == digits_val(v@.take(i as int)),
            acc <= i64::MAX,
        decreases v.len() - i,
    {
        let c = v[i];
        assert(is_digit_char(c));
        assert(c as u32 >= 48 && c as u32 <= 57);
        let d: u64 = (c as u32 as u64) - 48;
        assert(d == digit_val(c) && d <= 9);
        proof {
            lemma_digits_val_take_step(v@, i as int);
        }
        if acc > (9223372036854775807u64 - d) / 10 {
            proof {
                assert(acc * 10 + d > 9223372036854775807) by (nonlinear_arith)
                    requires
                        acc > (9223372036854775807u64 - d) / 10,
                        d <= 9,
                ;
                lemma_digits_val_grows(v@, i + 1);
            }
            return None;
        }
        proof {
            assert(acc * 10 + d <= 9223372036854775807) by (nonlinear_arith)
                requires
                    acc <= (9223372036854775807u64 - d) / 10,
                    d <= 9,
            ;
        }
        acc = acc * 10 + d;
        i = i + 1;
    }
    proof {
        assert(v@.take(v.len() as int) =~= v@);
    }
    Some(acc as i64)
}

} // verus!
