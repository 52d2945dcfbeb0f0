use bip321::{
    amount_values, build_callback, try_parse, validate_pop_scheme, Amount, BitcoinURI,
    NoopHandler, PopParam, URIError,
};

fn btc_amount_pop(text: &str) -> Option<Amount> {
    let btc: f64 = text.parse::<f64>().ok()?;
    Some(Amount((btc * 100_000_000.0).round() as u64))
}

fn parse_pop(uri: &str) -> Result<BitcoinURI<NoopHandler>, URIError> {
    let amounts: Vec<Option<Amount>> = amount_values(uri).iter().map(|t| btc_amount_pop(t)).collect();
    try_parse(uri, NoopHandler, &amounts).expect("every value decodes")
}

#[test]
fn test_build_callback() {
    let uri = "bitcoin:1A1zP1eP5QGefi2DMPTfTL5SLmv7DivfNa?pop=initiatingapp%3a";
    let result = parse_pop(uri).unwrap();
    let pop_param = result.pop.unwrap();
    let hexdata = "HEX_ENCODED_TRANSACTION";
    let callback = build_callback(&pop_param, "onchain", hexdata).unwrap();
    assert_eq!(callback, "initiatingapp:onchain=$HEX_ENCODED_TRANSACTION");
}

#[test]
fn test_build_callback_with_encoded_pop() {
    let uri = "bitcoin:?lightning=lnbc420bogusinvoice&pop=callbackuri%3abody%3fpop=";
    let result = parse_pop(uri).unwrap();
    let pop_param = result.pop.unwrap();
    let hexdata = "HEX_ENCODED_PAYMENT_PREIMAGE";
    let callback = build_callback(&pop_param, "lightning", hexdata).unwrap();
    assert_eq!(callback, "callbackuri:body?pop=lightning=$HEX_ENCODED_PAYMENT_PREIMAGE");
}

#[test]
fn test_build_callback_double_with_onchain() {
    let uri = "bitcoin:1A1zP1eP5QGefi2DMPTfTL5SLmv7DivfNa?lightning=lnbc420bogusinvoice&pop=app%3a%3f";
    let result = parse_pop(uri).unwrap();
    let pop_param = result.pop.unwrap();
    let hexdata = "HEX_ENCODED_TRANSACTION";
    let callback = build_callback(&pop_param, "onchain", hexdata).unwrap();
    assert_eq!(callback, "app:?onchain=$HEX_ENCODED_TRANSACTION");
}

#[test]
fn test_build_callback_double_with_lightning() {
    let uri = "bitcoin:1A1zP1eP5QGefi2DMPTfTL5SLmv7DivfNa?lightning=lnbc420bogusinvoice&pop=app%3a%3f";
    let result = parse_pop(uri).unwrap();
    let pop_param = result.pop.unwrap();
    let hexdata = "HEX_ENCODED_TRANSACTION";
    let callback = build_callback(&pop_param, "lightning", hexdata).unwrap();
    assert_eq!(callback, "app:?lightning=$HEX_ENCODED_TRANSACTION");
}

#[test]
fn test_build_callback_with_invalid_scheme() {
    let uri = "bitcoin:1A1zP1eP5QGefi2DMPTfTL5SLmv7DivfNa?pop=https%3aiwantyouripaddress.com";
    let result = parse_pop(uri).unwrap();
    let pop_param = result.pop.unwrap();
    let hexdata = "HEX_ENCODED_TRANSACTION";
    let callback_result = build_callback(&pop_param, "onchain", hexdata);
    assert!(callback_result.is_err());
}

#[test]
fn test_validate_pop_scheme_each_forbidden_scheme() {
    for scheme in ["https", "http", "file", "javascript", "mailto"] {
        let pop = PopParam::Optional(format!("{}%3Asomewhere", scheme));
        match validate_pop_scheme(&pop) {
            Err(URIError::ForbiddenPopScheme(s)) => assert_eq!(s, scheme),
            other => panic!("unexpected {:?}", other),
        }
    }
}

#[test]
fn test_validate_pop_scheme_decodes() {
    let pop = PopParam::Required("myapp%3Aback%3Fx%3D1".to_string());
    assert_eq!(validate_pop_scheme(&pop).unwrap(), "myapp:back?x=1");
    let pop = PopParam::Optional("HTTPS%3aevil.com".to_string());
    assert!(matches!(validate_pop_scheme(&pop), Err(URIError::ForbiddenPopScheme(s)) if s == "HTTPS"));
    let pop = PopParam::Optional("MyApp:case".to_string());
    assert_eq!(validate_pop_scheme(&pop).unwrap(), "MyApp:case");
    assert_eq!(validate_pop_scheme(&PopParam::Empty).unwrap(), "");
}

#[test]
fn test_required_pop_with_forbidden_scheme_is_refused() {
    let uri = "bitcoin:?req-pop=mailto%3aa%40b.c";
    assert!(matches!(parse_pop(uri), Err(URIError::RequiredPopNotSupported)));
    let uri = "bitcoin:?req-pop=myapp%3a";
    let result = parse_pop(uri).unwrap();
    assert_eq!(result.pop, Some(PopParam::Required("myapp%3a".to_string())));
}

#[test]
fn test_both_pop_kinds_refused() {
    let uri = "bitcoin:?pop=a%3a&req-pop=b%3a";
    assert!(matches!(parse_pop(uri), Err(URIError::BothPopAndReqPop)));
    let uri = "bitcoin:?pop=a%3a&pop=b%3a";
    assert!(matches!(parse_pop(uri), Err(URIError::DuplicateParam(s)) if s == "pop"));
}
