use sneedchat::exchange::{is_reference_document, parse_rate, ExchangeRates, RatesError, XmlElement, RUB_RATE};

fn cube(currency: &str, rate: &str) -> XmlElement {
    XmlElement {
        name: "Cube".to_string(),
        attributes: vec![
            ("currency".to_string(), currency.to_string()),
            ("rate".to_string(), rate.to_string()),
        ],
    }
}

fn element(name: &str, attributes: &[(&str, &str)]) -> XmlElement {
    XmlElement {
        name: name.to_string(),
        attributes: attributes.iter().map(|(k, v)| (k.to_string(), v.to_string())).collect(),
    }
}

#[test]
fn rates_are_read_as_millionths() {
    assert_eq!(parse_rate("1.0823"), Some(1_082_300));
    assert_eq!(parse_rate("102.33"), Some(102_330_000));
    assert_eq!(parse_rate("5"), Some(5_000_000));
    assert_eq!(parse_rate(".5"), Some(500_000));
    assert_eq!(parse_rate("5."), Some(5_000_000));
    assert_eq!(parse_rate("1.23456789"), Some(1_234_567));
    assert_eq!(parse_rate("0"), Some(0));
    assert_eq!(parse_rate("18446744073709.551615"), Some(u64::MAX));
}

#[test]
fn malformed_rates_are_refused() {
    assert_eq!(parse_rate(""), None);
    assert_eq!(parse_rate("."), None);
    assert_eq!(parse_rate("1.2.3"), None);
    assert_eq!(parse_rate("abc"), None);
    assert_eq!(parse_rate("-1"), None);
    assert_eq!(parse_rate("1e3"), None);
    assert_eq!(parse_rate("18446744073709.551616"), None);
    assert_eq!(parse_rate("18446744073710"), None);
}

#[test]
fn usd_value_uses_both_rates() {
    let mut r = ExchangeRates::new(1_082_300);
    r.set_rate("JPY", 161_080_000);
    assert_eq!(r.get_usd("JPY", 10_000), 67);
    assert_eq!(r.get_usd("USD", 1234), 1234);
    assert_eq!(r.get_usd("XYZ", 1000), 0);
    assert_eq!(r.get_usd("EUR", 1000), 0);
}

#[test]
fn usd_value_scenario_euro() {
    let mut r = ExchangeRates::new(1_000_000);
    r.set_rate("EUR", 900_000);
    assert_eq!(r.get_usd("EUR", 1000), 1111);
}

#[test]
fn zero_rate_gives_zero() {
    let mut r = ExchangeRates::new(1_000_000);
    r.set_rate("ZERO", 0);
    assert_eq!(r.get_usd("ZERO", 1000), 0);
}

#[test]
fn below_a_cent_counts_as_one_cent() {
    let mut r = ExchangeRates::new(1_000_000);
    r.set_rate("IDR", 16_000_000_000);
    assert_eq!(r.get_usd("IDR", 100), 1);
    assert_eq!(r.get_usd("IDR", 0), 0);
    assert_eq!(r.get_usd("IDR", 3_200_000), 200);
    let mut z = ExchangeRates::new(0);
    z.set_rate("EUR", 900_000);
    assert_eq!(z.get_usd("EUR", 1000), 0);
}

#[test]
fn new_table_holds_the_dollar() {
    let r = ExchangeRates::new(1_082_300);
    assert_eq!(r.get_rate("USD"), Some(1_082_300));
    assert_eq!(r.get_rate("EUR"), None);
}

#[test]
fn saturates_at_the_largest_amount() {
    let mut r = ExchangeRates::new(1_000_000);
    r.set_rate("TINY", 1);
    assert_eq!(r.get_usd("TINY", u64::MAX), u64::MAX);
}

#[test]
fn set_rate_replaces() {
    let mut r = ExchangeRates::new(1);
    r.set_rate("USD", 2);
    assert_eq!(r.get_rate("USD"), Some(2));
    assert_eq!(r.get_rate("GBP"), None);
}

#[test]
fn reference_document_is_read() {
    let elements = vec![
        element("gesmes:Envelope", &[]),
        element("Cube", &[("time", "2024-08-23")]),
        cube("USD", "1.1162"),
        cube("JPY", "161.08"),
        element("other", &[("currency", "GBP"), ("rate", "x")]),
    ];
    let t = match ExchangeRates::from_elements(&elements) {
        Err(RatesError::Unlabelled) => None,
        other => Some(other),
    };
    assert!(t.is_none(), "a Cube with a time and no rate is refused");

    let elements = vec![cube("USD", "1.1162"), cube("JPY", "161.08"), cube("USD", "1.2")];
    let t = ExchangeRates::from_elements(&elements).expect("a table");
    assert_eq!(t.get_rate("USD"), Some(1_200_000));
    assert_eq!(t.get_rate("JPY"), Some(161_080_000));
    assert_eq!(t.get_rate("RUB"), Some(RUB_RATE));
    assert_eq!(t.get_rate("GBP"), None);
}

#[test]
fn document_errors() {
    assert!(matches!(
        ExchangeRates::from_elements(&vec![cube("USD", "abc")]),
        Err(RatesError::BadRate)
    ));
    assert!(matches!(
        ExchangeRates::from_elements(&vec![element("Cube", &[])]),
        Err(RatesError::Unlabelled)
    ));
    assert!(matches!(
        ExchangeRates::from_elements(&vec![element("Envelope", &[("a", "b")])]),
        Err(RatesError::NoRates)
    ));
    assert!(matches!(ExchangeRates::from_elements(&Vec::new()), Err(RatesError::NoRates)));
    assert!(matches!(
        ExchangeRates::from_elements(&vec![cube("JPY", "161.08")]),
        Err(RatesError::NoDollarRate)
    ));
}

#[test]
fn reference_document_marker() {
    assert!(is_reference_document("<gesmes:name>Reference rates</gesmes:name>"));
    assert!(!is_reference_document("<html>error</html>"));
}

const ECB_DOCUMENT: &str = r#"<?xml version="1.0" encoding="UTF-8"?>
<gesmes:Envelope xmlns:gesmes="http://www.gesmes.org/xml/2002-08-01" xmlns="http://www.ecb.int/vocabulary/2002-08-01/eurofxref">
	<gesmes:subject>Reference rates</gesmes:subject>
	<gesmes:Sender>
		<gesmes:name>European Central Bank</gesmes:name>
	</gesmes:Sender>
	<Cube>
		<Cube time='2024-08-23'>
			<Cube currency='USD' rate='1.1162'/>
			<Cube currency='JPY' rate='161.08'/>
		</Cube>
	</Cube>
</gesmes:Envelope>"#;

#[test]
fn xml_document_is_parsed() {
    assert!(is_reference_document(ECB_DOCUMENT));
    let t = ExchangeRates::parse_xml(ECB_DOCUMENT).expect("a table");
    assert_eq!(t.get_rate("USD"), Some(1_116_200));
    assert_eq!(t.get_rate("JPY"), Some(161_080_000));
    assert_eq!(t.get_rate("RUB"), Some(RUB_RATE));
    assert_eq!(t.get_usd("JPY", 16_108), 111);
}

#[test]
fn xml_without_cubes_has_no_rates() {
    assert!(matches!(
        ExchangeRates::parse_xml("<root><item a='1'/></root>"),
        Err(RatesError::NoRates)
    ));
}

#[test]
fn xml_with_duplicate_attribute_is_malformed() {
    assert!(matches!(
        ExchangeRates::parse_xml("<root><Cube currency='USD' currency='EUR' rate='1'/></root>"),
        Err(RatesError::Malformed)
    ));
}
