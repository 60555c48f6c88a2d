use geoip::text::{non_blank_text, push_decimal, trim};

const SAMPLES: [&str; 12] = [
    "",
    " ",
    "\t\n\u{b}\u{c}\r",
    "  secret  ",
    "\u{85}\u{a0}\u{1680}x\u{2000}\u{200a}\u{2028}\u{2029}\u{202f}\u{205f}\u{3000}",
    "a b",
    "\u{200b}zero-width space is not whitespace\u{200b}",
    "\u{feff}bom\u{feff}",
    " \u{e9}t\u{e9} ",
    "x",
    "\u{1c}file separator is not White_Space\u{1f}",
    "\u{2001}\u{2002}tab\tinside\u{2003}",
];

#[test]
fn trim_agrees_with_str_trim() {
    for sample in SAMPLES {
        assert_eq!(trim(sample), sample.trim(), "sample = {sample:?}");
    }
}

#[test]
fn trimming_twice_is_trimming_once() {
    for sample in SAMPLES {
        let once = trim(sample);
        assert_eq!(trim(&once), once, "sample = {sample:?}");
        assert_eq!(non_blank_text(&once), non_blank_text(sample));
    }
}

#[test]
fn blank_values_are_absent() {
    assert_eq!(non_blank_text(" \u{3000}\t"), None);
    assert_eq!(non_blank_text(" key "), Some("key".to_string()));
}

#[test]
fn decimal_notation_of_numbers() {
    for n in [0u128, 7, 10, 99, 100, 1023, 18_446_744_073_709_551_615, u128::MAX] {
        let mut text = String::from("n=");
        push_decimal(&mut text, n);
        assert_eq!(text, format!("n={n}"));
    }
}
