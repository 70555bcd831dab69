use http_server::decimal::{decimal_string, parse_usize};

fn chars(s: &str) -> Vec<char> {
    s.chars().collect()
}

#[test]
fn decimal_string_of_given_numbers() {
    assert_eq!(decimal_string(0), "0");
    assert_eq!(decimal_string(7), "7");
    assert_eq!(decimal_string(10), "10");
    assert_eq!(decimal_string(200), "200");
    assert_eq!(decimal_string(404), "404");
    assert_eq!(decimal_string(1_000_000), "1000000");
    assert_eq!(decimal_string(9_876_543_210), "9876543210");
}

#[test]
fn decimal_string_agrees_with_to_string() {
    let mut n: usize = 0;
    while n < 3000 {
        assert_eq!(decimal_string(n), n.to_string());
        n += 1;
    }
    assert_eq!(decimal_string(usize::MAX), usize::MAX.to_string());
    assert_eq!(decimal_string(usize::MAX - 1), (usize::MAX - 1).to_string());
}

#[test]
fn parse_usize_reads_numerals() {
    assert_eq!(parse_usize(&chars("0")), Some(0));
    assert_eq!(parse_usize(&chars("3")), Some(3));
    assert_eq!(parse_usize(&chars("007")), Some(7));
    assert_eq!(parse_usize(&chars("+5")), Some(5));
    assert_eq!(parse_usize(&chars("512")), Some(512));
    assert_eq!(parse_usize(&chars(&usize::MAX.to_string())), Some(usize::MAX));
}

#[test]
fn parse_usize_refuses_what_is_no_numeral() {
    assert_eq!(parse_usize(&chars("")), None);
    assert_eq!(parse_usize(&chars("+")), None);
    assert_eq!(parse_usize(&chars("-")), None);
    assert_eq!(parse_usize(&chars("-5")), None);
    assert_eq!(parse_usize(&chars("-0")), None);
    assert_eq!(parse_usize(&chars("++5")), None);
    assert_eq!(parse_usize(&chars("5+")), None);
    assert_eq!(parse_usize(&chars("12a")), None);
    assert_eq!(parse_usize(&chars(" 5")), None);
    assert_eq!(parse_usize(&chars("5 ")), None);
    assert_eq!(parse_usize(&chars("1.5")), None);
    assert_eq!(parse_usize(&chars("0x10")), None);
    assert_eq!(parse_usize(&chars("\u{663}")), None);
    assert_eq!(parse_usize(&chars("\u{ff15}")), None);
}

#[test]
fn parse_usize_refuses_what_does_not_fit() {
    let max = usize::MAX.to_string();
    let mut over = max.clone();
    over.push('0');
    assert_eq!(parse_usize(&chars(&over)), None);
    assert_eq!(parse_usize(&chars("340282366920938463463374607431768211456")), None);
    let last = max.chars().last().unwrap();
    if last != '9' {
        let mut next = max.clone();
        next.pop();
        next.push(char::from_u32(last as u32 + 1).unwrap());
        assert_eq!(parse_usize(&chars(&next)), None);
    }
}

#[test]
fn parse_usize_agrees_with_std() {
    let samples = [
        "", "0", "00", "1", "+1", "+01", "-1", "+", "-", "+-1", "1+", "12345", "18446744073709551615",
        "18446744073709551616", "4294967295", "4294967296", "99999999999999999999999", "1 ", " 1",
        "1\n", "a", "1a", "١", "+0", "000000000000000000000000000000001",
    ];
    for sample in samples {
        assert_eq!(parse_usize(&chars(sample)), sample.parse::<usize>().ok(), "{:?}", sample);
    }
}

#[test]
fn numeral_of_a_number_reads_back() {
    let numbers = [0usize, 1, 9, 10, 99, 100, 512, 65535, 1 << 31, usize::MAX];
    for n in numbers {
        assert_eq!(parse_usize(&chars(&decimal_string(n))), Some(n));
    }
}
