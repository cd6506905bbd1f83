use hity::text::{parse_u32, trim, u32_to_string};
use hity::time::{local_form, localize, parse_rfc3339, render_rfc3339, RawLocal, Timestamp};

#[test]
fn parse_u32_plain_and_signed() {
    assert_eq!(parse_u32("2754"), Some(2754));
    assert_eq!(parse_u32("+123"), Some(123));
    assert_eq!(parse_u32("0"), Some(0));
    assert_eq!(parse_u32("4294967295"), Some(u32::MAX));
}

#[test]
fn parse_u32_rejects_bad_text() {
    assert_eq!(parse_u32(""), None);
    assert_eq!(parse_u32("+"), None);
    assert_eq!(parse_u32("-3"), None);
    assert_eq!(parse_u32("12a"), None);
    assert_eq!(parse_u32(" 12"), None);
    assert_eq!(parse_u32("4294967296"), None);
}

#[test]
fn u32_to_string_exact() {
    assert_eq!(u32_to_string(0), "0");
    assert_eq!(u32_to_string(2754), "2754");
    assert_eq!(u32_to_string(u32::MAX), "4294967295");
}

#[test]
fn trim_removes_outer_whitespace_only() {
    assert_eq!(trim("  a b  "), "a b");
    assert_eq!(trim("\n\tBananowy96 \r\n"), "Bananowy96");
    assert_eq!(trim("   "), "");
    assert_eq!(trim(""), "");
    assert_eq!(trim("\u{a0}x\u{a0}"), "x");
}

#[test]
fn rfc3339_concrete_parse() {
    let t = parse_rfc3339("2019-05-26T12:26:01+02:00").unwrap();
    assert_eq!(
        t,
        Timestamp {
            year: 2019,
            month: 5,
            day: 26,
            hour: 12,
            minute: 26,
            second: 1,
            offset_minutes: 120,
        }
    );
}

#[test]
fn rfc3339_zulu_and_lowercase() {
    let t = parse_rfc3339("2020-02-29t23:59:59z").unwrap();
    assert_eq!(t.year, 2020);
    assert_eq!(t.month, 2);
    assert_eq!(t.day, 29);
    assert_eq!(t.offset_minutes, 0);
    let neg = parse_rfc3339("1999-12-31T00:00:00-05:30").unwrap();
    assert_eq!(neg.offset_minutes, -330);
}

#[test]
fn rfc3339_fraction_is_read_and_discarded() {
    let t = parse_rfc3339("2019-05-26T12:26:01.500+02:00").unwrap();
    assert_eq!(t.second, 1);
    assert_eq!(t.offset_minutes, 120);
    assert_eq!(parse_rfc3339("2019-05-26T12:26:01.+02:00"), None);
}

#[test]
fn rfc3339_leap_second_folds_to_fifty_nine() {
    let t = parse_rfc3339("2016-12-31T23:59:60+00:00").unwrap();
    assert_eq!(t.second, 59);
    assert_eq!(parse_rfc3339("2016-12-31T23:59:61+00:00"), None);
}

#[test]
fn local_form_builds_the_local_timestamp() {
    let t = parse_rfc3339("2019-05-26T12:26:01+02:00").unwrap();
    let raw = RawLocal {
        year: 2019,
        month: 5,
        day: 26,
        hour: 10,
        minute: 26,
        second: 1,
        offset_seconds: 0,
    };
    assert_eq!(
        local_form(&t, raw),
        Timestamp {
            year: 2019,
            month: 5,
            day: 26,
            hour: 10,
            minute: 26,
            second: 1,
            offset_minutes: 0,
        }
    );
    let westward = RawLocal {
        hour: 4,
        minute: 56,
        offset_seconds: -19800,
        ..raw
    };
    assert_eq!(local_form(&t, westward).offset_minutes, -330);
}

#[test]
fn local_form_falls_back_where_the_form_does_not_fit() {
    let t = parse_rfc3339("2019-05-26T12:26:01+02:00").unwrap();
    let raw = RawLocal {
        year: 2019,
        month: 5,
        day: 26,
        hour: 10,
        minute: 26,
        second: 1,
        offset_seconds: 0,
    };
    let odd_offset = RawLocal {
        offset_seconds: 61,
        ..raw
    };
    assert_eq!(local_form(&t, odd_offset), t);
    let wide_year = RawLocal { year: 10000, ..raw };
    assert_eq!(local_form(&t, wide_year), t);
    let bad_day = RawLocal {
        month: 4,
        day: 31,
        ..raw
    };
    assert_eq!(local_form(&t, bad_day), t);
}

#[test]
fn rfc3339_rejects_bad_text() {
    assert_eq!(parse_rfc3339(""), None);
    assert_eq!(parse_rfc3339("2019-13-01T00:00:00Z"), None);
    assert_eq!(parse_rfc3339("2019-06-31T00:00:00Z"), None);
    assert_eq!(parse_rfc3339("2019-02-29T00:00:00Z"), None);
    assert_eq!(parse_rfc3339("2019-05-26 12:26:01+02:00"), None);
    assert_eq!(parse_rfc3339("2019-05-26T24:00:00Z"), None);
    assert_eq!(parse_rfc3339("2019-05-26T12:26:01+24:00"), None);
    assert_eq!(parse_rfc3339("2019-05-26T12:26:01"), None);
    assert_eq!(parse_rfc3339("2019-05-26T12:26:01+0200"), None);
}

#[test]
fn rfc3339_render_round_trip() {
    for s in [
        "2019-05-26T12:26:01+02:00",
        "2020-02-29T23:59:59+00:00",
        "1999-12-31T00:00:00-05:30",
        "0001-01-01T00:00:00+00:00",
    ] {
        let t = parse_rfc3339(s).unwrap();
        let rendered = render_rfc3339(&t);
        assert_eq!(rendered, s);
        assert_eq!(parse_rfc3339(&rendered), Some(t));
    }
}

#[test]
fn render_zero_offset_uses_plus_sign() {
    let t = parse_rfc3339("2019-05-26T12:26:01Z").unwrap();
    assert_eq!(render_rfc3339(&t), "2019-05-26T12:26:01+00:00");
}

#[test]
fn localize_maps_equal_instants_to_one_form() {
    let a = parse_rfc3339("2019-05-26T12:26:01+02:00").unwrap();
    let b = parse_rfc3339("2019-05-26T10:26:01+00:00").unwrap();
    let c = parse_rfc3339("2019-05-26T04:56:01-05:30").unwrap();
    let la = localize(&a);
    assert_eq!(la, localize(&b));
    assert_eq!(la, localize(&c));
}

#[test]
fn localize_keeps_a_well_formed_timestamp() {
    let t = parse_rfc3339("2019-05-26T12:26:01+02:00").unwrap();
    let loc = localize(&t);
    assert!(loc.check_wf());
    let rendered = render_rfc3339(&loc);
    assert_eq!(parse_rfc3339(&rendered), Some(loc));
    let again = localize(&t);
    assert_eq!(loc, again);
}
