use wcurl::{CurlFeatures, Wcurl};

/// Every character up to U+3100, and one in 97 of those above.
fn sample_chars() -> Vec<char> {
    (0u32..0x11_0000).filter(|code| *code <= 0x3100 || code % 97 == 0).filter_map(char::from_u32).collect()
}

fn features(no_clobber: bool, parallel: bool, max_host: bool) -> CurlFeatures {
    CurlFeatures {
        supports_no_clobber: no_clobber,
        supports_parallel: parallel,
        supports_parallel_max_host: max_host,
    }
}

#[test]
fn real_version_report_is_read() {
    let text = "curl 8.7.1 (x86_64-apple-darwin25.0) libcurl/8.7.1 (SecureTransport) LibreSSL/3.3.6\n\
                Release-Date: 2024-03-27\nProtocols: dict file ftp ftps http https\n";
    assert_eq!(Wcurl::get_curl_features(text), features(true, true, false));
}

#[test]
fn version_eight_sixteen_has_every_feature() {
    assert_eq!(Wcurl::get_curl_features("curl 8.16.0"), features(true, true, true));
    assert_eq!(Wcurl::get_curl_features("curl 8.17.1 (x86_64-pc-linux-gnu)"), features(true, true, true));
}

#[test]
fn version_eight_below_sixteen_lacks_the_host_limit() {
    assert_eq!(Wcurl::get_curl_features("curl 8.7.1"), features(true, true, false));
    assert_eq!(Wcurl::get_curl_features("curl 8.15.0"), features(true, true, false));
    assert_eq!(Wcurl::get_curl_features("curl 8.0.0"), features(true, true, false));
}

#[test]
fn version_seven_sixty_six_has_parallel_only() {
    assert_eq!(Wcurl::get_curl_features("curl 7.66.0"), features(false, true, false));
    assert_eq!(Wcurl::get_curl_features("curl 7.82.0"), features(false, true, false));
}

#[test]
fn version_seven_eighty_three_has_no_clobber() {
    assert_eq!(Wcurl::get_curl_features("curl 7.83.0"), features(true, true, false));
    assert_eq!(Wcurl::get_curl_features("curl 7.88.1"), features(true, true, false));
}

#[test]
fn old_versions_have_no_feature() {
    assert_eq!(Wcurl::get_curl_features("curl 7.65.3"), features(false, false, false));
    assert_eq!(Wcurl::get_curl_features("curl 6.99.0"), features(false, false, false));
    assert_eq!(Wcurl::get_curl_features("curl 0.0"), features(false, false, false));
}

#[test]
fn later_major_versions_go_by_the_same_rule() {
    assert_eq!(Wcurl::get_curl_features("curl 9.0.0"), features(true, true, false));
    assert_eq!(Wcurl::get_curl_features("curl 9.16.0"), features(true, true, true));
    assert_eq!(Wcurl::get_curl_features("curl 10.20"), features(true, true, true));
}

#[test]
fn unreadable_text_gives_no_feature() {
    assert_eq!(Wcurl::get_curl_features("garbage"), features(false, false, false));
    assert_eq!(Wcurl::get_curl_features(""), features(false, false, false));
    assert_eq!(Wcurl::get_curl_features("   \n\t "), features(false, false, false));
    assert_eq!(Wcurl::get_curl_features("curl"), features(false, false, false));
    assert_eq!(Wcurl::get_curl_features("curl eight.sixteen"), features(false, false, false));
    assert_eq!(Wcurl::get_curl_features("8"), features(false, false, false));
    assert_eq!(Wcurl::get_curl_features("v8.16.0"), features(false, false, false));
}

#[test]
fn first_word_with_a_leading_digit_and_the_shape_wins() {
    assert_eq!(Wcurl::get_curl_features("7.66.0 8.16.0"), features(false, true, false));
    assert_eq!(Wcurl::get_curl_features("libcurl/8.16.0 7.66.0"), features(false, true, false));
    assert_eq!(Wcurl::get_curl_features("8 8x.1 8.16.0"), features(true, true, true));
    assert_eq!(Wcurl::get_curl_features("2024-03-27 8.16.0"), features(true, true, true));
}

#[test]
fn only_the_first_two_groups_count() {
    assert_eq!(Wcurl::get_curl_features("8.16"), features(true, true, true));
    assert_eq!(Wcurl::get_curl_features("8.16.x"), features(true, true, true));
    assert_eq!(Wcurl::get_curl_features("8.16.0-DEV"), features(true, true, true));
    assert_eq!(Wcurl::get_curl_features("8.16.0.1.2"), features(true, true, true));
    assert_eq!(Wcurl::get_curl_features("8.16rc1 7.66.0"), features(false, true, false));
}

#[test]
fn leading_zeros_are_read() {
    assert_eq!(Wcurl::get_curl_features("curl 08.016.0"), features(true, true, true));
    assert_eq!(Wcurl::get_curl_features("curl 007.066"), features(false, true, false));
}

#[test]
fn empty_group_has_the_shape_but_no_number() {
    assert_eq!(Wcurl::get_curl_features("8. 8.16.0"), features(false, false, false));
    assert_eq!(Wcurl::get_curl_features("8..16 8.16.0"), features(false, false, false));
    assert_eq!(Wcurl::get_curl_features("curl .16"), features(false, false, false));
    assert_eq!(Wcurl::get_curl_features("curl ."), features(false, false, false));
}

#[test]
fn number_beyond_32_bits_gives_no_feature() {
    assert_eq!(Wcurl::get_curl_features("curl 4294967295.4294967295"), features(true, true, true));
    assert_eq!(Wcurl::get_curl_features("curl 4294967296.16"), features(false, false, false));
    assert_eq!(Wcurl::get_curl_features("curl 8.4294967296"), features(false, false, false));
    assert_eq!(
        Wcurl::get_curl_features("curl 99999999999999999999999999.16"),
        features(false, false, false)
    );
}

#[test]
fn words_are_separated_by_any_white_space() {
    assert_eq!(Wcurl::get_curl_features("curl\t8.16.0\nlibcurl"), features(true, true, true));
    assert_eq!(Wcurl::get_curl_features("x\u{a0}8.16.0"), features(true, true, true));
    assert_eq!(Wcurl::get_curl_features("x\u{3000}8.16.0\u{2003}y"), features(true, true, true));
    assert_eq!(Wcurl::get_curl_features("x,8.16.0"), features(false, false, false));
}

#[test]
fn white_space_is_what_the_standard_library_splits_on() {
    for c in sample_chars() {
        let text = format!("x{}8.16.0", c);
        let splits = text.split_whitespace().count() == 2;
        assert_eq!(splits, c.is_whitespace());
        let found = Wcurl::get_curl_features(&text) == features(true, true, true);
        assert_eq!(found, splits, "U+{:04X}", c as u32);
    }
}

#[test]
fn digits_are_the_ascii_ones() {
    for c in sample_chars() {
        if c.is_whitespace() || c == '.' {
            continue;
        }
        let text = format!("8.1{}", c);
        let found = Wcurl::get_curl_features(&text) != features(false, false, false);
        assert_eq!(found, c.is_ascii_digit(), "U+{:04X}", c as u32);
        let text = format!("{}.90", c);
        let found = Wcurl::get_curl_features(&text) != features(false, false, false);
        assert_eq!(found, "789".contains(c), "U+{:04X}", c as u32);
    }
}

#[test]
fn features_follow_the_version_numbers() {
    assert_eq!(CurlFeatures::of_version(7, 65), features(false, false, false));
    assert_eq!(CurlFeatures::of_version(7, 66), features(false, true, false));
    assert_eq!(CurlFeatures::of_version(7, 82), features(false, true, false));
    assert_eq!(CurlFeatures::of_version(7, 83), features(true, true, false));
    assert_eq!(CurlFeatures::of_version(8, 0), features(true, true, false));
    assert_eq!(CurlFeatures::of_version(8, 15), features(true, true, false));
    assert_eq!(CurlFeatures::of_version(8, 16), features(true, true, true));
    assert_eq!(CurlFeatures::of_version(6, 100), features(false, false, false));
    assert_eq!(CurlFeatures::of_version(u32::MAX, u32::MAX), features(true, true, true));
    assert_eq!(CurlFeatures::none(), features(false, false, false));
}
