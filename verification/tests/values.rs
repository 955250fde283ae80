use std::str::FromStr;

use ledger::chars::{alphanumeric, bytes_of, control, push_lower, space};
use ledger::decimal::Amount;
use ledger::money::{fmt_signed_money, group_money};
use ledger::shell::shell_quote;
use ledger::sums::{checked_total_of, total_of};
use ledger::text::{
    contains_text, cut_text, numeral_of, pad_left, pad_right, same_text, split_lines,
    text_precedes, trim, trim_line_ends,
};
use ledger::time::{Timestamp, MAX_NANOSECOND, MIN_NANOSECOND};
use ledger::transaction_id::TransactionId;
use rust_decimal::Decimal;

fn amount(s: &str) -> Amount {
    Amount::parse(s).expect("amount")
}

#[test]
fn character_classes_are_those_of_the_standard_library() {
    for c in (0..=0x10ffff_u32).filter_map(char::from_u32) {
        assert_eq!(space(c), c.is_whitespace(), "{c:?}");
        assert_eq!(control(c), c.is_control(), "{c:?}");
        assert_eq!(alphanumeric(c), c.is_ascii_alphanumeric(), "{c:?}");
        let mut low = Vec::new();
        push_lower(&mut low, c);
        assert_eq!(low, c.to_lowercase().collect::<Vec<char>>(), "{c:?}");
        assert_eq!(bytes_of(&vec![c]), c.len_utf8() as u128, "{c:?}");
    }
}

#[test]
fn texts_are_ordered_like_strings() {
    let texts = ["", "a", "ab", "b", "B", "\u{e9}", "\u{ffff}", "\u{10000}", "a/b"];
    for a in texts {
        for b in texts {
            assert_eq!(text_precedes(a, b), a < b, "{a:?} {b:?}");
            assert_eq!(same_text(a, b), a == b, "{a:?} {b:?}");
            assert_eq!(contains_text(a, b), a.contains(b), "{a:?} {b:?}");
        }
    }
}

#[test]
fn texts_are_padded_cut_and_trimmed() {
    for s in ["", "a", "caf\u{e9}", "  a b \n", "\t\u{3000}x"] {
        assert_eq!(pad_right(s, 5), format!("{s:<5}"));
        assert_eq!(pad_left(s, 5), format!("{s:>5}"));
        assert_eq!(pad_right(&cut_text(s, 2), 2), format!("{s:<2.2}"));
        assert_eq!(trim(s), s.trim());
    }
    assert_eq!(numeral_of(0), "0");
    assert_eq!(numeral_of(1203), "1203");
    assert_eq!(trim_line_ends("a\n\nb\n\n"), "a\n\nb");
}

#[test]
fn texts_are_split_into_lines() {
    for s in ["", "a", "a\n", "a\nb", "a\r\nb\r", "\n\n", "a\n\nb\n", "\r\n"] {
        let lines: Vec<&str> = s.lines().collect();
        assert_eq!(split_lines(s), lines, "{s:?}");
    }
}

#[test]
fn amounts_are_read_and_written_exactly() {
    for s in [
        "0", "0.00", "12.50", "-12.5", "79228162514264337593543950335",
        "-79228162514264337593543950335", "0.0000000000000000000000000001", "1000",
    ] {
        assert_eq!(amount(s).to_text(), s);
        assert_eq!(amount(s).to_text(), Decimal::from_str(s).unwrap().to_string());
    }
    assert_eq!(amount("-0").to_text(), "0");
    assert!(Amount::parse("one").is_err());
    assert!(Amount::parse("").is_err());
    assert_eq!(amount("1.10"), amount("1.1"));
    assert_ne!(amount("1.10"), amount("1.11"));
    assert_eq!(amount("2.999").to_money_text(), "2.99");
    assert_eq!(amount("-0.001").to_money_text(), "-0.00");
    assert_eq!(Amount::default(), Amount::zero());
    assert_eq!(Amount::from_integer(-7).to_text(), "-7");
}

/// The sum by the arithmetic of integers: exact where it fits, or else
/// with the fewest places rounded half to even.
fn reference_sum(a: Decimal, b: Decimal) -> Option<String> {
    if a.mantissa() == 0 {
        return Some(b.to_string());
    }
    if b.mantissa() == 0 {
        return Some(a.to_string());
    }
    let scale = a.scale().max(b.scale());
    // Big numbers to the base of ten, lowest digit first.
    let digits = |d: Decimal| -> Vec<i32> {
        let mut v: Vec<i32> = vec![0; (scale - d.scale()) as usize];
        let mut m = d.mantissa().unsigned_abs();
        while m > 0 {
            v.push((m % 10) as i32);
            m /= 10;
        }
        if d.mantissa() < 0 {
            v.iter_mut().for_each(|x| *x = -*x);
        }
        v
    };
    let (x, y) = (digits(a), digits(b));
    let mut sum: Vec<i32> = (0..x.len().max(y.len()))
        .map(|i| x.get(i).unwrap_or(&0) + y.get(i).unwrap_or(&0))
        .collect();
    let sign = sum.iter().rev().find(|d| **d != 0).map_or(1, |d| d.signum());
    let mut carry = 0;
    for d in sum.iter_mut() {
        let v = *d * sign + carry;
        *d = v.rem_euclid(10);
        carry = v.div_euclid(10);
    }
    sum.push(carry);
    for drop in 0..=scale as usize {
        let mut high: u128 = 0;
        let mut fits = true;
        for d in sum.iter().skip(drop).rev() {
            match high.checked_mul(10).and_then(|h| h.checked_add(*d as u128)) {
                Some(h) => high = h,
                None => fits = false,
            }
        }
        if !fits {
            continue;
        }
        let low: Vec<i32> = sum.iter().take(drop).copied().collect();
        if let Some(first) = low.last() {
            let rest = low[..low.len() - 1].iter().any(|d| *d != 0);
            if *first > 5 || (*first == 5 && (rest || high % 2 == 1)) {
                high += 1;
            }
        }
        if high < 1 << 96 {
            let m = i128::try_from(high).unwrap() * i128::from(sign);
            return Some(Decimal::from_i128_with_scale(m, scale - drop as u32).to_string());
        }
    }
    None
}

#[test]
fn sums_are_those_of_integers() {
    let texts = [
        "0", "0.00", "1", "-1", "0.1", "-0.1", "12.345", "99999.99999", "0.5", "1.5", "-2.5",
        "79228162514264337593543950335", "-79228162514264337593543950335",
        "7922816251426433759354395033.5", "7.9228162514264337593543950335",
        "0.0000000000000000000000000001", "0.0000000000000000000000000005",
        "-0.0000000000000000000000000015", "39614081257132168796771975168",
        "39614081257132168796771975167.5", "4951760157141521099596496896.25",
        "1000000000000000000000000000.05", "-1000000000000000000000000000.15",
        "0.4999999999999999999999999999", "5.000000000000000000000000005",
    ];
    for a in texts {
        for b in texts {
            let (x, y) = (Decimal::from_str(a).unwrap(), Decimal::from_str(b).unwrap());
            let sum = amount(a).checked_plus(&amount(b)).map(|s| s.to_text());
            assert_eq!(sum, reference_sum(x, y), "{a} + {b}");
            assert_eq!(sum, x.checked_add(y).map(|s| s.to_string()), "{a} + {b}");
        }
    }
}

#[test]
fn totals_are_sums_from_nothing() {
    assert_eq!(total_of(&vec![]), Amount::zero());
    let amounts = vec![amount("1.25"), amount("-0.25"), amount("10")];
    assert_eq!(total_of(&amounts).to_text(), "11.00");
    let big = amount("79228162514264337593543950335");
    assert_eq!(checked_total_of(&vec![big, big]), None);
    assert_eq!(checked_total_of(&vec![big, big.negate()]), Some(Amount::zero()));
}

#[test]
fn money_has_its_sign() {
    assert_eq!(fmt_signed_money(&amount("1234.5")), "+1,234.50");
    assert_eq!(fmt_signed_money(&amount("-1234.5")), "-1,234.50");
    assert_eq!(fmt_signed_money(&Amount::zero()), "+0.00");
    for s in ["0", "12", "123", "-1234", "123456.123456", "+1234567", ".5", "", "-"] {
        assert_eq!(group_money(s).replace(',', ""), s, "only commas are added");
    }
    assert_eq!(group_money("1234567"), "1,234,567");
}

#[test]
fn the_largest_amounts_are_written_as_money() {
    let largest = amount("79228162514264337593543950335");
    assert_eq!(largest.to_money_text(), "79228162514264337593543950335.00");
    assert_eq!(largest.negate().to_money_text(), "-79228162514264337593543950335.00");
    let finest = amount("7.9228162514264337593543950335");
    assert_eq!(finest.to_money_text(), "7.92");
    assert_eq!(finest.to_text(), "7.9228162514264337593543950335");
    assert_eq!(amount("-0.0000000000000000000000000001").to_money_text(), "-0.00");
}

#[test]
fn words_are_quoted_for_a_shell() {
    assert_eq!(shell_quote(""), "''");
    assert_eq!(shell_quote("expenses/food-2_a.b"), "expenses/food-2_a.b");
    assert_eq!(shell_quote("a b"), "'a b'");
    assert_eq!(shell_quote("it's"), "'it'\\''s'");
    assert_eq!(shell_quote("$x"), "'$x'");
}

#[test]
fn ids_are_read_back_from_their_text() {
    for v in [0, 1, 31, 32, u128::MAX, 0x4d4e385051444a59454234335a413756] {
        let id = TransactionId(v);
        assert_eq!(TransactionId::parse(&id.to_text()), Some(id));
        assert_eq!(
            TransactionId::parse(&id.to_text().to_lowercase()),
            Some(id)
        );
        assert_eq!(id.to_text(), ulid::Ulid(v).to_string());
    }
    assert_eq!(
        TransactionId(0x4d4e385051444a59454234335a413756).to_text(),
        "2D9RW50MA499CMAGHM6DD42DTP"
    );
    assert_eq!(TransactionId::parse("short"), None);
    assert_eq!(TransactionId::parse("U1ARZ3NDEKTSV4RRFFQ69G5FAV"), None);
    assert_eq!(TransactionId::parse("\u{e9}1ARZ3NDEKTSV4RRFFQ69G5FA"), None);
    assert_eq!(
        TransactionId::parse("ZZZZZZZZZZZZZZZZZZZZZZZZZZ"),
        Some(TransactionId(u128::MAX))
    );
    assert_ne!(TransactionId::new(), TransactionId::default());
}

#[test]
fn points_in_time_are_read_back_from_their_text() {
    for n in [
        0,
        1,
        -1,
        1_705_276_800_000_000_000,
        123_456_789,
        MIN_NANOSECOND,
        MAX_NANOSECOND,
        -62_167_219_200_000_000_001,
    ] {
        let t = Timestamp::from_nanosecond(n).expect("in range");
        assert_eq!(t.as_nanosecond(), n);
        assert_eq!(Timestamp::parse(&t.to_text()), Some(t));
        let day = t.date();
        assert!(day.chars().all(|c| c.is_ascii_digit() || c == '-'));
        if day.len() == 10 {
            let midnight = Timestamp::parse_date(&day).expect("date").as_nanosecond();
            assert_eq!(midnight, n - n.rem_euclid(86_400_000_000_000));
        }
    }
    assert_eq!(Timestamp::from_nanosecond(MAX_NANOSECOND + 1), None);
    assert_eq!(Timestamp::from_nanosecond(MIN_NANOSECOND - 1), None);
    let t = Timestamp::parse("2024-01-15T12:30:00Z").expect("timestamp");
    assert_eq!(t.to_text(), "2024-01-15T12:30:00Z");
    assert_eq!(t.date(), "2024-01-15");
    assert!(Timestamp::parse_date("2024-01-15").unwrap().is_before(&t));
    assert_eq!(Timestamp::parse("2024-01-15"), None);
    assert!(Timestamp::parse_date("15.1.2024").is_err());
}

#[test]
fn lower_case_is_for_good() {
    for c in (0..=0x10_ffff).filter_map(char::from_u32) {
        if space(c) || control(c) || c == '.' || c == ':' || c == '\\' {
            continue;
        }
        for d in c.to_lowercase() {
            assert!(d.to_lowercase().eq([d]), "{c:?} has the lower case {d:?}");
            assert!(!space(d) && !control(d) && d != '.' && d != ':' && d != '\\');
        }
    }
}
