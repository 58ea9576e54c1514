use oghcollector::version::{
    odoo_version_string_to_u8, odoo_version_u8_to_string, parse_odoo_version, OdooVersion,
};

#[test]
fn bucket_is_written_with_one_decimal() {
    assert_eq!(odoo_version_u8_to_string(&160), "16.0");
    assert_eq!(odoo_version_u8_to_string(&85), "8.5");
    assert_eq!(odoo_version_u8_to_string(&0), "0.0");
    assert_eq!(odoo_version_u8_to_string(&255), "25.5");
    assert_eq!(odoo_version_u8_to_string(&7), "0.7");
}

#[test]
fn bucket_is_read_from_text() {
    assert_eq!(parse_odoo_version("16.0"), Some(160));
    assert_eq!(parse_odoo_version("16"), Some(160));
    assert_eq!(parse_odoo_version("8.5"), Some(85));
    assert_eq!(parse_odoo_version("16."), Some(160));
    assert_eq!(parse_odoo_version(".5"), Some(5));
    assert_eq!(parse_odoo_version("30"), Some(255));
    assert_eq!(parse_odoo_version("25.6"), Some(255));
    assert_eq!(parse_odoo_version("25.5"), Some(255));
    assert_eq!(parse_odoo_version("25.4"), Some(254));
}

#[test]
fn bucket_is_not_read_from_other_text() {
    assert_eq!(parse_odoo_version(""), None);
    assert_eq!(parse_odoo_version("."), None);
    assert_eq!(parse_odoo_version("abc"), None);
    assert_eq!(parse_odoo_version("16.0.1"), None);
    assert_eq!(parse_odoo_version("-1"), None);
    assert_eq!(parse_odoo_version("1e2"), None);
}

#[test]
fn bucket_round_trips_through_text() {
    for v in 0..=255u8 {
        assert_eq!(odoo_version_string_to_u8(&odoo_version_u8_to_string(&v)), v);
    }
}

#[test]
fn bucket_agrees_with_floating_point_reading() {
    for whole in 0..=30u32 {
        let text = format!("{}", whole);
        let expected = (text.parse::<f32>().unwrap() * 10.0) as u8;
        assert_eq!(odoo_version_string_to_u8(&text), expected);
        for tenth in 0..=9u32 {
            let text = format!("{}.{}", whole, tenth);
            let expected = (text.parse::<f32>().unwrap() * 10.0) as u8;
            assert_eq!(odoo_version_string_to_u8(&text), expected);
        }
    }
}

#[test]
fn long_version_text_names_its_bucket() {
    let v = OdooVersion::parse("16.0.1.2.3", &150).unwrap();
    assert_eq!(v.get_raw(), "16.0.1.2.3");
    assert_eq!(*v.get_version_odoo(), 160);
    assert_eq!(v.get_version_module(), "1.2.3");
    let v = OdooVersion::new("8.0.1.0", &150);
    assert_eq!(*v.get_version_odoo(), 80);
    assert_eq!(v.get_version_module(), "1.0");
}

#[test]
fn short_version_text_takes_the_default_bucket() {
    let v = OdooVersion::parse("1.0.0", &150).unwrap();
    assert_eq!(*v.get_version_odoo(), 150);
    assert_eq!(v.get_version_module(), "1.0.0");
    let v = OdooVersion::parse("", &170).unwrap();
    assert_eq!(*v.get_version_odoo(), 170);
    assert_eq!(v.get_version_module(), "");
}

#[test]
fn version_text_with_a_bad_bucket_is_refused() {
    assert!(OdooVersion::parse("x.y.1.0", &150).is_none());
    assert!(OdooVersion::parse("16.x.1.0.0", &150).is_none());
}
