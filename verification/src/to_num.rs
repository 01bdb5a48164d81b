//! Numbers as the shell reads them from words: the longest run of leading
//! digits, in a given radix, with an optional leading `-` for signed
//! numbers. Machine integers wrap around, as in a release build.
use crate::text::chars_of;
use vstd::arithmetic::div_mod::{
    lemma_add_mod_noop,
    lemma_fundamental_div_mod,
    lemma_fundamental_div_mod_converse,
    lemma_mod_twice,
    lemma_mul_mod_noop_left,
};
use vstd::prelude::*;
use vstd::wrapping::isize_specs::signed_crop;

verus! {

/// The number of values of a machine word.
pub open spec fn word_range() -> int {
    usize::MAX as int + 1
}

/// The value of `c` as a digit: `0`-`9` for `'0'`-`'9'`, `10`-`35` for
/// `'A'`-`'Z'` and for `'a'`-`'z'`; no value for any other character.
pub open spec fn digit_of(c: char) -> Option<nat> {
    let n: u32 = c as u32;
    if 48 <= n <= 57 {
        Some((n - 48) as nat)
    } else if 65 <= n <= 90 {
        Some((n - 55) as nat)
    } else if 97 <= n <= 122 {
        Some((n - 87) as nat)
    } else {
        None
    }
}

/// `c` is a digit of the given radix.
pub open spec fn is_digit_in(c: char, radix: nat) -> bool {
    digit_of(c) matches Some(d) && d < radix
}

/// The number of leading characters of `s` that are digits of the radix.
pub open spec fn digit_run(s: Seq<char>, radix: nat) -> nat
    decreases s.len(),
{
    if s.len() > 0 && is_digit_in(s[0], radix) {
        1 + digit_run(s.drop_first(), radix)
    } else {
        0
    }
}

/// The value of a string of digits, most significant first.
pub open spec fn digits_value(s: Seq<char>, radix: nat) -> nat
    decreases s.len(),
{
    if s.len() == 0 {
        0
    } else {
        let d: nat = match digit_of(s.last()) {
            Some(d) => d,
            None => 0,
        };
        digits_value(s.drop_last(), radix) * radix + d
    }
}

/// The value of the leading digits of `s`; zero when there are none.
pub open spec fn leading_number(s: Seq<char>, radix: nat) -> nat {
    digits_value(s.take(digit_run(s, radix) as int), radix)
}

/// The signed value of `s`: a leading `-` negates the number that follows it.
pub open spec fn leading_signed_number(s: Seq<char>, radix: nat) -> int {
    if s.len() > 0 && s[0] == '-' {
        -leading_number(s.drop_first(), radix)
    } else {
        leading_number(s, radix) as int
    }
}

/// The run of leading digits ends at the first character that is not one.
pub proof fn lemma_digit_run(s: Seq<char>, radix: nat, i: int)
    requires
        0 <= i <= s.len(),
        forall|j: int| 0 <= j < i ==> is_digit_in(#[trigger] s[j], radix),
        i == s.len() || !is_digit_in(s[i], radix),
    ensures
        digit_run(s, radix) == i,
    decreases i,
{
    if i > 0 {
        let t = s.drop_first();
        assert forall|j: int| 0 <= j < i - 1 implies is_digit_in(#[trigger] t[j], radix) by {
            assert(t[j] == s[j + 1]);
        }
        if i < s.len() {
            assert(t[i - 1] == s[i]);
        }
        lemma_digit_run(t, radix, i - 1);
    }
}

proof fn lemma_step_mod(a: int, r: int, d: int, m: int)
    requires
        m > 0,
    ensures
        ((a % m) * r + d) % m == (a * r + d) % m,
{
    lemma_mul_mod_noop_left(a, r, m);
    lemma_add_mod_noop((a % m) * r, d, m);
    lemma_add_mod_noop(a * r, d, m);
}

/// The digit value of a character, if it is a digit of the radix.
fn digit_in(c: char, radix: usize) -> (r: Option<usize>)
    ensures
        r is Some <==> is_digit_in(c, radix as nat),
        r matches Some(d) ==> digit_of(c) == Some(d as nat) && d < radix,
{
    let n: u32 = c as u32;
    let d: u32 = if 48 <= n && n <= 57 {
        n - 48
    } else if 65 <= n && n <= 90 {
        n - 55
    } else if 97 <= n && n <= 122 {
        n - 87
    } else {
        return None;
    };
    if (d as usize) < radix {
        Some(d as usize)
    } else {
        None
    }
}

/// Reads the leading digits of `s` in the given radix; the value wraps
/// around the machine word.
pub fn to_num_radix(s: &str, radix: usize) -> (r: usize)
    ensures
        r == leading_number(s@, radix as nat) as int % word_range(),
{
    let v = chars_of(s);
    let mut num: usize = 0;
    let mut i: usize = 0;
    let ghost m: int = word_range();
    loop
        invariant
            i <= v.len(),
            v@ == s@,
            m == word_range(),
            forall|j: int| 0 <= j < i ==> is_digit_in(#[trigger] v@[j], radix as nat),
            num == digits_value(v@.take(i as int), radix as nat) as int % m,
        ensures
            i <= v.len(),
            forall|j: int| 0 <= j < i ==> is_digit_in(#[trigger] v@[j], radix as nat),
            i == v.len() || !is_digit_in(v@[i as int], radix as nat),
            num == digits_value(v@.take(i as int), radix as nat) as int % m,
        decreases v.len() - i,
    {
        if i >= v.len() {
            break ;
        }
        let d: usize = match digit_in(v[i], radix) {
            Some(d) => d,
            None => {
                break ;
            },
        };
        proof {
            let t = v@.take(i + 1);
            assert(t.drop_last() =~= v@.take(i as int));
            assert(t.last() == v@[i as int]);
            let a: int = digits_value(v@.take(i as int), radix as nat) as int;
            lemma_step_mod(a, radix as int, d as int, m);
            lemma_mod_twice(a, m);
            assert(num * radix < m * m) by (nonlinear_arith)
                requires
                    num < m,
                    radix < m,
            ;
            lemma_mul_mod_noop_left(num as int * radix as int, 1, m);
        }
        let prod: usize = num.wrapping_mul(radix);
        proof {
            lemma_add_mod_noop(prod as int, d as int, m);
            lemma_add_mod_noop(num as int * radix as int, d as int, m);
            lemma_mod_twice(num as int * radix as int, m);
            assert(d < m);
        }
        num = prod.wrapping_add(d);
        proof {
            assert(num as int == (prod + d) % m) by {
                if prod + d >= m {
                    lemma_fundamental_div_mod_converse(prod + d, m, 1, prod + d - m);
                } else {
                    lemma_fundamental_div_mod_converse(prod + d, m, 0, prod + d);
                }
            }
        }
        i = i + 1;
    }
    proof {
        lemma_digit_run(v@, radix as nat, i as int);
    }
    num
}

/// The signed reading of a machine word, as `as isize` gives it.
fn signed_of(u: usize) -> (r: isize)
    ensures
        r == signed_crop(u as int),
{
    proof {
        lemma_fundamental_div_mod_converse(u as int, word_range(), 0, u as int);
    }
    if u <= isize::MAX as usize {
        u as isize
    } else {
        let d: usize = usize::MAX - u;
        -(d as isize) - 1
    }
}

proof fn lemma_crop_negation(v: int)
    requires
        v >= 0,
    ensures
        vstd::wrapping::isize_specs::wrapping_sub(0, signed_crop(v % word_range())) == signed_crop(
            -v,
        ),
{
    let m: int = word_range();
    let r: int = v % m;
    lemma_fundamental_div_mod(v, m);
    lemma_mod_twice(v, m);
    let q: int = v / m;
    if r == 0 {
        lemma_fundamental_div_mod_converse(-v, m, -q, 0);
    } else {
        assert(-v == (-q - 1) * m + (m - r)) by (nonlinear_arith)
            requires
                v == m * q + r,
        ;
        lemma_fundamental_div_mod_converse(-v, m, -q - 1, m - r);
    }
}

/// Reads a signed number in the given radix: a leading `-` negates the
/// digits that follow it. The value wraps around the machine word.
pub fn to_num_radix_signed(s: &str, radix: usize) -> (r: isize)
    ensures
        r == signed_crop(leading_signed_number(s@, radix as nat)),
{
    let v = chars_of(s);
    if v.len() > 0 && v[0] == '-' {
        let rest = crate::text::string_from(v.as_slice().split_at(1).1);
        proof {
            assert(rest@ =~= s@.drop_first());
        }
        let n: usize = to_num_radix(rest.as_str(), radix);
        let x: isize = signed_of(n);
        proof {
            lemma_crop_negation(leading_number(s@.drop_first(), radix as nat) as int);
        }
        0isize.wrapping_sub(x)
    } else {
        let n: usize = to_num_radix(s, radix);
        proof {
            lemma_mod_twice(leading_number(s@, radix as nat) as int, word_range());
        }
        signed_of(n)
    }
}

/// Reads an unsigned decimal number from the leading digits of `s`.
pub fn to_num(s: &str) -> (r: usize)
    ensures
        r == leading_number(s@, 10) as int % word_range(),
{
    to_num_radix(s, 10)
}

/// Reads a signed decimal number: an optional `-`, then the leading digits.
pub fn to_num_signed(s: &str) -> (r: isize)
    ensures
        r == signed_crop(leading_signed_number(s@, 10)),
{
    to_num_radix_signed(s, 10)
}

} // verus!
