use coop_ofd::fields::{DATE_TIME, DOC_FISCAL_SIGN, DOC_NUM, DRIVE_NUM, FfdVersion, PAYMENT_TYPE, TOTAL_SUM, USER, USER_INN, KKT_FFD_VER};
use coop_ofd::object::{DateTime, Object};
use coop_ofd::ofd::custom::IcomCode;
use coop_ofd::ofd::requests::{
    after_answer, astral_fallback, astral_form, astral_version, before_attempt, clean_phone, icom24_params, icom24_request,
    ofd_ru_doc_id, ofd_ru_url, private1_kind, private1_url, ticket_query, AuthAction, DocKind,
};
use coop_ofd::ofd::requests::SchemeWarnings;
use coop_ofd::ofd::Error;
use coop_ofd::ofd::providers::Private1;

fn full_record() -> Object {
    let mut o = Object::new();
    o.set_text(DRIVE_NUM, "9960440300000001".to_owned());
    o.set_num(DOC_NUM, 42);
    o.set_bytes(DOC_FISCAL_SIGN, &[0, 0, 0x49, 0x96, 0x02, 0xd2]);
    o.set_num(TOTAL_SUM, 12345);
    o.set_num(PAYMENT_TYPE, 1);
    o.set_time(DATE_TIME, DateTime { year: 2024, month: 4, day: 20, hour: 9, minute: 5, second: 7 });
    o
}

#[test]
fn ofd_ru_is_asked_by_drive_document_and_sign() {
    assert_eq!(ofd_ru_url(&full_record()).unwrap(), "https://check.ofd.ru/rec/9960440300000001/42/1234567890");
    assert!(matches!(ofd_ru_url(&Object::new()), Err(Error::MissingData("fn"))));
    let page = "x <a href=\"/Document/RenderDoc?RawId=abc-123&amp;x=1\">";
    assert_eq!(ofd_ru_doc_id(page).unwrap(), "abc-123");
    let page = "<a href=\"/Document/ReceiptJsonDownload?DocId=zz9\">";
    assert_eq!(ofd_ru_doc_id(page).unwrap(), "zz9");
    assert!(matches!(ofd_ru_doc_id("nothing here"), Err(Error::MissingData("id"))));
}

#[test]
fn icom24_answers_with_a_taxcom_address() {
    assert_eq!(icom24_params("https://receipt.taxcom.ru/v01/show?fp=1&s=2").unwrap(), "fp=1&s=2");
    assert!(matches!(icom24_params("https://example.org/?fp=1"), Err(Error::ParseError)));
    let mut o = Object::new();
    o.set_bytes(IcomCode::TAG, &[0x0a, 0xbc, 0x01]);
    o.set_time(DATE_TIME, DateTime { year: 2024, month: 1, day: 2, hour: 3, minute: 4, second: 5 });
    let (number, date) = icom24_request(&o).unwrap();
    assert_eq!(number, "0ABC01");
    assert_eq!(date.hour, 3);
    assert!(matches!(icom24_request(&Object::new()), Err(Error::MissingData("code"))));
}

#[test]
fn the_private_provider_is_asked_by_query() {
    let p = Private1::new("https://priv.example/api");
    assert_eq!(p.endpoint, "https://priv.example/api");
    assert_eq!(
        private1_url(&p.endpoint, &full_record()).unwrap(),
        "https://priv.example/api?fn=9960440300000001&i=42&fiscalSign=1234567890&date=2024-04-20T09:05:07&sum=12345"
    );
    let mut o = Object::new();
    o.set_text(DRIVE_NUM, "1".to_owned());
    o.set_bytes(DOC_FISCAL_SIGN, &[0; 6]);
    assert!(matches!(private1_url("e", &o), Err(Error::MissingData("date"))));
    assert!(matches!(private1_kind(true, Some(3)), Ok(DocKind::Receipt)));
    assert!(matches!(private1_kind(true, Some(41)), Ok(DocKind::BsoCorrection)));
    assert!(matches!(private1_kind(true, Some(7)), Err(Error::ParseError)));
    assert!(matches!(private1_kind(false, Some(3)), Err(Error::ParseError)));
    assert!(matches!(private1_kind(true, None), Err(Error::ParseError)));
}

#[test]
fn astral_is_asked_with_a_form() {
    let f = astral_form(&full_record()).unwrap();
    let expect: Vec<(String, String)> = vec![
        ("fiscalDriveNumber".to_owned(), "9960440300000001".to_owned()),
        ("fiscalDocumentNumber".to_owned(), "42".to_owned()),
        ("fiscalSign".to_owned(), "1234567890".to_owned()),
        ("recaptcha_response".to_owned(), "a".to_owned()),
    ];
    assert_eq!(f, expect);
    assert_eq!(astral_version("1"), Some(FfdVersion::V1));
    assert_eq!(astral_version("1.0"), Some(FfdVersion::V1));
    assert_eq!(astral_version("1.05"), Some(FfdVersion::V1_05));
    assert_eq!(astral_version("1.2"), Some(FfdVersion::V1_2));
    assert_eq!(astral_version("2"), None);
    let o = astral_fallback("1.1", "addr".to_owned(), "place".to_owned(), "shop".to_owned(), "7700".to_owned());
    assert_eq!(o.get_u8(KKT_FFD_VER).unwrap(), Some(3));
    assert_eq!(o.get_text(USER).unwrap(), Some("shop".to_owned()));
    assert_eq!(o.get_text(USER_INN).unwrap(), Some("7700".to_owned()));
    let o = astral_fallback("x", "a".to_owned(), "p".to_owned(), "u".to_owned(), "i".to_owned());
    assert!(!o.contains(KKT_FFD_VER));
    assert_eq!(o.entries.len(), 4);
}

#[test]
fn the_tax_service_is_asked_for_a_ticket() {
    let q = ticket_query(&full_record()).unwrap();
    assert_eq!(q.operation_type, 1);
    assert_eq!(q.sum, 12345);
    assert_eq!(q.fs_id, "9960440300000001");
    assert_eq!(q.document_id, 42);
    assert_eq!(q.fiscal_sign, "1234567890");
    let mut o = Object::new();
    o.set_time(DATE_TIME, DateTime { year: 2024, month: 1, day: 2, hour: 3, minute: 4, second: 5 });
    assert!(matches!(ticket_query(&o), Err(Error::MissingData("operationType"))));
    assert_eq!(clean_phone("+7 (912) 345-67-89"), "+79123456789");
    assert_eq!(before_attempt(0, true, true), AuthAction::Send);
    assert_eq!(before_attempt(2, true, true), AuthAction::Login);
    assert_eq!(before_attempt(0, false, true), AuthAction::Login);
    assert_eq!(after_answer(401), AuthAction::Refresh);
    assert_eq!(after_answer(200), AuthAction::Done);
}

#[test]
fn ofd_ru_length_warnings_read_by_code() {
    assert_eq!(SchemeWarnings::from_code(0), SchemeWarnings::NoWarnings);
    assert_eq!(SchemeWarnings::from_code(3), SchemeWarnings::FixedDocLengthWarning);
    assert_eq!(SchemeWarnings::from_code(255), SchemeWarnings::Unknown);
}
