use lib::text::{chars_equal, chars_of, compare_chars, is_whitespace, owned, string_from, trim, Order};
use lib::to_num::{to_num, to_num_radix, to_num_radix_signed, to_num_signed};

#[test]
fn whitespace_matches_std() {
    for n in 0u32..0x3100 {
        if let Some(c) = char::from_u32(n) {
            assert_eq!(is_whitespace(c), c.is_whitespace(), "code point {:x}", n);
        }
    }
    for c in ['\u{FEFF}', '\u{10FFFF}', 'a', '\u{180E}', '\u{200B}'] {
        assert_eq!(is_whitespace(c), c.is_whitespace());
    }
}

#[test]
fn trim_like_std() {
    for s in ["", "   ", "  a b  ", "\tx\n", "abc", " \u{3000}y\u{A0} "] {
        assert_eq!(trim(s), s.trim());
    }
}

#[test]
fn chars_round_trip() {
    let s = "héllo wörld";
    let v = chars_of(s);
    assert_eq!(v.len(), 11);
    assert_eq!(string_from(&v), s);
    assert_eq!(owned(s), s.to_string());
}

#[test]
fn compare_is_string_order() {
    let words = ["", "a", "ab", "b", "ba", "é", "z", "Z"];
    for x in words {
        for y in words {
            let o = compare_chars(&chars_of(x), &chars_of(y));
            let expected = x.cmp(y);
            match o {
                Order::Less => assert_eq!(expected, std::cmp::Ordering::Less),
                Order::Equal => assert_eq!(expected, std::cmp::Ordering::Equal),
                Order::Greater => assert_eq!(expected, std::cmp::Ordering::Greater),
            }
            assert_eq!(chars_equal(&chars_of(x), &chars_of(y)), x == y);
        }
    }
}

#[test]
fn unsigned_numbers() {
    assert_eq!(to_num("42"), 42);
    assert_eq!(to_num("12abc"), 12);
    assert_eq!(to_num("abc"), 0);
    assert_eq!(to_num(""), 0);
    assert_eq!(to_num(" 5"), 0);
    assert_eq!(to_num("007"), 7);
}

#[test]
fn numbers_in_other_radixes() {
    assert_eq!(to_num_radix("ff", 16), 255);
    assert_eq!(to_num_radix("FFg", 16), 255);
    assert_eq!(to_num_radix("z", 36), 35);
    assert_eq!(to_num_radix("102", 2), 2);
    assert_eq!(to_num_radix("123", 0), 0);
    assert_eq!(to_num_radix_signed("-ff", 16), -255);
}

#[test]
fn signed_numbers() {
    assert_eq!(to_num_signed("-7"), -7);
    assert_eq!(to_num_signed("7"), 7);
    assert_eq!(to_num_signed("--7"), 0);
    assert_eq!(to_num_signed("-"), 0);
    assert_eq!(to_num_signed("-12x"), -12);
}

#[test]
fn numbers_wrap_around() {
    let big = format!("{}", usize::MAX);
    assert_eq!(to_num(&big), usize::MAX);
    let over = format!("{}0", usize::MAX);
    assert_eq!(to_num(&over), usize::MAX.wrapping_mul(10));
    assert_eq!(to_num_signed(&big), -1);
    let min = format!("-{}", (isize::MAX as usize) + 1);
    assert_eq!(to_num_signed(&min), isize::MIN);
}
