use wcurl::Wcurl;

fn decode(s: &str) -> String {
    Wcurl::percent_decode_filename(s)
}

#[test]
fn protected_escapes_stay() {
    assert_eq!(decode("%2F"), "%2F");
    assert_eq!(decode("%5C"), "%5C");
    assert_eq!(decode("%2f"), "%2f");
    assert_eq!(decode("%5c"), "%5c");
    assert_eq!(decode("..%2F..%2Fetc%2Fpasswd"), "..%2F..%2Fetc%2Fpasswd");
}

#[test]
fn plain_escape_is_decoded() {
    assert_eq!(decode("%41"), "A");
    assert_eq!(decode("a%20b.txt"), "a b.txt");
    assert_eq!(decode("%7e%7E"), "~~");
    assert_eq!(decode("%6a%6A"), "jj");
}

#[test]
fn control_characters_stay_encoded() {
    assert_eq!(decode("%00"), "%00");
    assert_eq!(decode("%0A"), "%0A");
    assert_eq!(decode("%0d"), "%0d");
    assert_eq!(decode("%1F"), "%1F");
    assert_eq!(decode("%20"), " ");
}

#[test]
fn bytes_that_are_no_text_alone_stay_encoded() {
    assert_eq!(decode("%7F"), "\u{7f}");
    assert_eq!(decode("%80"), "%80");
    assert_eq!(decode("%C3%A9"), "%C3%A9");
    assert_eq!(decode("%FF"), "%FF");
}

#[test]
fn incomplete_escape_stays() {
    assert_eq!(decode("%"), "%");
    assert_eq!(decode("%4"), "%4");
    assert_eq!(decode("100%"), "100%");
    assert_eq!(decode("%zz"), "%zz");
    assert_eq!(decode("%4g"), "%4g");
    assert_eq!(decode("%g4"), "%g4");
    assert_eq!(decode(""), "");
}

#[test]
fn percent_before_an_escape_stays() {
    assert_eq!(decode("%%41"), "%A");
    assert_eq!(decode("%4%41"), "%4A");
    assert_eq!(decode("%2541"), "%41");
}

#[test]
fn escape_is_read_once_from_left_to_right() {
    assert_eq!(decode("%2F41"), "%2F41");
    assert_eq!(decode("%41%42%43"), "ABC");
    assert_eq!(decode("x%41y%2Fz%42"), "xAy%2FzB");
}

#[test]
fn other_characters_pass_through() {
    assert_eq!(decode("caf\u{e9}-\u{1f600}.txt"), "caf\u{e9}-\u{1f600}.txt");
    assert_eq!(decode("\u{e9}%41\u{e9}"), "\u{e9}A\u{e9}");
}

#[test]
fn text_without_escape_is_a_fixed_point() {
    for s in ["file.txt", "100%", "%zz%", "a%2", "%", "", "%%%", "caf\u{e9}"] {
        let once = decode(s);
        assert_eq!(once, s);
        assert_eq!(decode(&once), once);
    }
}

#[test]
fn decoding_brings_in_no_separator_and_no_control_character() {
    for high in "0123456789abcdefABCDEF".chars() {
        for low in "0123456789abcdefABCDEF".chars() {
            let escape = format!("%{}{}", high, low);
            let out = decode(&escape);
            assert!(!out.contains('/'));
            assert!(!out.contains('\\'));
            assert!(out.chars().all(|c| c as u32 >= 32));
        }
    }
}

#[test]
fn every_escape_is_decoded_by_the_rule() {
    for byte in 0u32..256 {
        for escape in [format!("%{:02X}", byte), format!("%{:02x}", byte)] {
            let expected = if byte >= 32 && byte < 128 && byte != 0x2f && byte != 0x5c {
                char::from_u32(byte).unwrap().to_string()
            } else {
                escape.clone()
            };
            assert_eq!(decode(&escape), expected);
        }
    }
}

#[test]
fn hexadecimal_digits_are_the_ascii_ones() {
    let sample = (0u32..0x11_0000).filter(|code| *code <= 0x3100 || code % 97 == 0);
    for c in sample.filter_map(char::from_u32) {
        let out = decode(&format!("%4{}", c));
        assert_eq!(out.chars().count() == 1, c.is_ascii_hexdigit());
        let out = decode(&format!("%{}1", c));
        let decoded = out.chars().count() == 1;
        assert_eq!(decoded, c.is_ascii_hexdigit() && "234567".contains(c));
    }
}
