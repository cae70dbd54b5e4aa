use coop_ofd::fields::{DATE_TIME, DOC_FISCAL_SIGN, DOC_NUM, DRIVE_NUM, PAYMENT_TYPE, TOTAL_SUM};
use coop_ofd::object::{fill_missing_fields, DateTime, Object, Value};
use coop_ofd::ofd::cache::{alias_of, default_cache_id_of, icom24_cache_id_of, taxcom_cache_id_of};
use coop_ofd::ofd::custom::{IcomCode, ProviderId};
use coop_ofd::ofd::registry::{OfdRegistry, RegistryConfig};
use coop_ofd::qr::{parse_qr, try_parse_qr};

fn registry() -> OfdRegistry {
    OfdRegistry::new(&RegistryConfig {
        private1_endpoint: None,
        irkkt_mobile_client_secret: None,
        irkkt_mobile_device_id: None,
        irkkt_mobile_api_base: None,
    })
}

#[test]
fn setting_a_field_replaces_it_and_reading_gives_it_back() {
    let mut o = Object::new();
    o.set_text(DRIVE_NUM, "123".to_owned());
    o.set_num(DOC_NUM, 5);
    o.set_text(DRIVE_NUM, "456".to_owned());
    assert_eq!(o.get_text(DRIVE_NUM).unwrap(), Some("456".to_owned()));
    assert_eq!(o.get_u32(DOC_NUM).unwrap(), Some(5));
    assert_eq!(o.get_text(TOTAL_SUM).unwrap(), None);
    assert!(o.get_text(DOC_NUM).is_err());
    assert_eq!(o.entries.len(), 2);
}

#[test]
fn filling_missing_fields_keeps_what_is_there() {
    let mut a = Object::new();
    a.set_text(DRIVE_NUM, "1".to_owned());
    let mut b = Object::new();
    b.set_text(DRIVE_NUM, "2".to_owned());
    b.set_num(DOC_NUM, 9);
    fill_missing_fields(&mut a, &b);
    assert_eq!(a.get_text(DRIVE_NUM).unwrap(), Some("1".to_owned()));
    assert_eq!(a.get_u32(DOC_NUM).unwrap(), Some(9));
    let n = a.entries.len();
    fill_missing_fields(&mut a, &b);
    assert_eq!(a.entries.len(), n);
}

#[test]
fn a_qr_code_reads_into_a_record() {
    let reg = registry();
    let o = parse_qr("t=20240420T0950&s=1234.50&fn=9960440300000001&i=42&fp=1234567890&n=1&junk", &reg);
    assert_eq!(o.get_text(DRIVE_NUM).unwrap(), Some("9960440300000001".to_owned()));
    assert_eq!(o.get_u32(DOC_NUM).unwrap(), Some(42));
    assert_eq!(o.get_num(TOTAL_SUM, u64::MAX).unwrap(), Some(123450));
    assert_eq!(o.get_u8(PAYMENT_TYPE).unwrap(), Some(1));
    assert_eq!(o.get_bytes6(DOC_FISCAL_SIGN).unwrap(), Some([0, 0, 0x49, 0x96, 0x02, 0xd2]));
    assert_eq!(
        o.get_time(DATE_TIME).unwrap(),
        Some(DateTime { year: 2024, month: 4, day: 20, hour: 9, minute: 50, second: 0 })
    );
}

#[test]
fn qr_codes_with_seconds_dates_and_bad_values() {
    let reg = registry();
    let o = parse_qr("t=20240420T095012&fn=12x&i=-1&n=7&date=2024-01-02", &reg);
    assert_eq!(o.get_text(DRIVE_NUM).unwrap(), None);
    assert_eq!(o.get_u32(DOC_NUM).unwrap(), None);
    assert_eq!(o.get_u8(PAYMENT_TYPE).unwrap(), Some(0));
    assert_eq!(
        o.get_time(DATE_TIME).unwrap(),
        Some(DateTime { year: 2024, month: 1, day: 2, hour: 0, minute: 0, second: 0 })
    );
    let o = parse_qr("code=0a1B2c&ofd=taxcom", &reg);
    assert_eq!(o.get_bytes3(IcomCode::TAG).unwrap(), Some([0x0a, 0x1b, 0x2c]));
    assert_eq!(o.get_text(ProviderId::TAG).unwrap(), Some("taxcom".to_owned()));
    assert!(try_parse_qr("s=999999999999999999", &reg).is_none());
    assert!(try_parse_qr("s=99999999999999999999", &reg).is_some());
    assert!(try_parse_qr("s=12.34", &reg).is_some());
}

#[test]
fn providers_are_chosen_by_id_then_fallbacks_then_all() {
    let reg = OfdRegistry::new(&RegistryConfig {
        private1_endpoint: Some("http://localhost/".to_owned()),
        irkkt_mobile_client_secret: None,
        irkkt_mobile_device_id: None,
        irkkt_mobile_api_base: None,
    });
    let rec = Object::new();
    assert_eq!(reg.all(), vec![0, 1, 2, 3, 4]);
    assert_eq!(reg.default(&rec), vec![0]);
    assert_eq!(reg.by_id("taxcom", &rec), vec![4, 0, 0, 1, 2, 3, 4]);
    assert_eq!(reg.by_id("unknown", &rec), vec![0, 0, 1, 2, 3, 4]);
    let mut rec = Object::new();
    assert_eq!(reg.fill("astral", &mut rec), Ok(1));
    assert_eq!(rec.get_text(ProviderId::TAG).unwrap(), Some("astral".to_owned()));
}

#[test]
fn documents_are_kept_under_names_per_provider() {
    let mut o = Object::new();
    o.set_text(DRIVE_NUM, "123".to_owned());
    o.set_num(DOC_NUM, 42);
    o.set_bytes(DOC_FISCAL_SIGN, &[0, 0, 0, 0, 1, 0]);
    o.set_num(TOTAL_SUM, 1050);
    o.set_time(DATE_TIME, DateTime { year: 2024, month: 3, day: 5, hour: 7, minute: 8, second: 9 });
    o.set_bytes(IcomCode::TAG, &[0xab, 0x01, 0xff]);
    assert_eq!(default_cache_id_of(&o).unwrap(), "123_0000042");
    assert_eq!(taxcom_cache_id_of(&o).unwrap(), "taxcom_256_1050");
    assert_eq!(icom24_cache_id_of(&o).unwrap(), "icom24_2024-03-05_AB01FF");
    let e = Object::new();
    assert!(default_cache_id_of(&e).is_err());
    let mut nested = Object::new();
    nested.push(DRIVE_NUM, Value::Num(1));
    assert!(default_cache_id_of(&nested).is_err());
}

#[test]
fn documents_fetched_under_another_name_get_an_alias() {
    let mut o = Object::new();
    o.set_text(DRIVE_NUM, "123".to_owned());
    o.set_num(DOC_NUM, 42);
    assert_eq!(alias_of("123_0000042", &o).ok(), Some(None));
    assert_eq!(alias_of("taxcom_256_1050", &o).ok(), Some(Some("123_0000042".to_owned())));
    assert!(alias_of("x", &Object::new()).is_err());
}

#[test]
fn days_of_every_year_name_documents() {
    let mut o = Object::new();
    o.set_bytes(IcomCode::TAG, &[0x01, 0x02, 0x03]);
    o.set_time(DATE_TIME, DateTime { year: 7, month: 9, day: 1, hour: 0, minute: 0, second: 0 });
    assert_eq!(icom24_cache_id_of(&o).unwrap(), "icom24_0007-09-01_010203");
    o.set_time(DATE_TIME, DateTime { year: -5, month: 12, day: 31, hour: 0, minute: 0, second: 0 });
    assert_eq!(icom24_cache_id_of(&o).unwrap(), "icom24_-0005-12-31_010203");
    o.set_time(DATE_TIME, DateTime { year: 12345, month: 2, day: 28, hour: 23, minute: 59, second: 59 });
    assert_eq!(icom24_cache_id_of(&o).unwrap(), "icom24_+12345-02-28_010203");
    o.set_time(DATE_TIME, DateTime { year: 2023, month: 2, day: 29, hour: 0, minute: 0, second: 0 });
    assert!(icom24_cache_id_of(&o).is_err());
}
