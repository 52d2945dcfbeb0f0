use bip321::parser::{handle_unknown, HandlerResponse};
use bip321::payjoin::validate_pj_url;
use bip321::silent_payment;
use bip321::types::on_network;
use bip321::{
    amount_values, build, parse, try_parse, validate_address, Amount, BitcoinAddress, BitcoinURI,
    Network, NoopHandler, PaymentInstruction, PaymentInstructionHandler, PopParam, URIError,
    Value,
};

fn btc_amount_behaviour(text: &str) -> Option<Amount> {
    let btc: f64 = text.parse::<f64>().ok()?;
    Some(Amount((btc * 100_000_000.0).round() as u64))
}

fn amounts_of(uri: &str) -> Vec<Option<Amount>> {
    amount_values(uri).iter().map(|t| btc_amount_behaviour(t)).collect()
}

fn parse_behaviour(uri: &str) -> Result<BitcoinURI<NoopHandler>, URIError> {
    try_parse(uri, NoopHandler, &amounts_of(uri)).expect("every value decodes")
}

#[derive(Default, Debug, Clone)]
struct ArkHandler {
    ark_address: Option<String>,
}

impl PaymentInstructionHandler for ArkHandler {
    fn handle(&mut self, _key: &str, value: &str) -> Result<(), URIError> {
        if value.is_empty() {
            return Err(URIError::InvalidAddress);
        }
        self.ark_address = Some(value.to_string());
        Ok(())
    }
    fn is_supported(&self, key: &str) -> bool {
        key == "ark" || key == "req-ark"
    }
    fn is_empty(&self) -> bool {
        self.ark_address.is_none()
    }
}

#[test]
fn percent_round_trip_on_values() {
    for label in ["luke-jr", "donation for project xyz", "a&b=c?d%e", "ünïcödé ✓", ""] {
        let mut uri: BitcoinURI<NoopHandler> = BitcoinURI::default();
        uri.label = Some(label.to_string());
        let text = build(&uri, "");
        let query = text.strip_prefix("bitcoin:?label=").unwrap();
        assert!(query.chars().all(|c| c.is_ascii_alphanumeric() || "-._~%".contains(c)));
        let again = parse_behaviour(&text).unwrap();
        assert_eq!(again.label, Some(label.to_string()));
    }
    let mut uri: BitcoinURI<NoopHandler> = BitcoinURI::default();
    uri.message = Some("a b&c".to_string());
    assert_eq!(build(&uri, ""), "bitcoin:?message=a%20b%26c");
    let parsed = parse_behaviour("bitcoin:?message=%7e%7E%zz%4").unwrap();
    assert_eq!(parsed.message, Some("~~%zz%4".to_string()));
    assert!(try_parse("bitcoin:?message=%ff", NoopHandler, &vec![]).is_none());
}

#[test]
fn callbacks_that_do_not_decode() {
    let pop = PopParam::Optional("app%3a%ff".to_string());
    assert!(bip321::try_build_callback(&pop, "onchain", "00").is_none());
    let pop = PopParam::Optional("app%3a%25ff".to_string());
    assert!(matches!(bip321::try_build_callback(&pop, "onchain", "00"), Some(Ok(s)) if s == "app:%ffonchain=$00"));
    let pop = PopParam::Optional("https%253aevil.com".to_string());
    assert!(matches!(bip321::try_build_callback(&pop, "onchain", "00"), Some(Ok(s)) if s == "https%3aevil.comonchain=$00"));
    let pop = PopParam::Optional("app%3a".to_string());
    assert!(matches!(bip321::try_build_callback(&pop, "onchain", "00"), Some(Ok(s)) if s == "app:onchain=$00"));
    let pop = PopParam::Optional("file%3a%25ff".to_string());
    assert!(matches!(bip321::try_build_callback(&pop, "onchain", "00"), Some(Err(URIError::ForbiddenPopScheme(s))) if s == "file"));
}

#[test]
fn scheme_must_be_bitcoin() {
    assert!(matches!(parse_behaviour("litecoin:1A1zP1eP5QGefi2DMPTfTL5SLmv7DivfNa"), Err(URIError::InvalidAddress)));
    assert!(matches!(parse_behaviour("1A1zP1eP5QGefi2DMPTfTL5SLmv7DivfNa"), Err(URIError::InvalidAddress)));
    assert!(parse_behaviour("BitCoin:1A1zP1eP5QGefi2DMPTfTL5SLmv7DivfNa").is_ok());
}

#[test]
fn empty_uri_keeps_empty_pair() {
    let uri = parse_behaviour("bitcoin:").unwrap();
    assert!(uri.address.is_none());
    assert!(uri.instructions.is_empty());
    assert_eq!(uri.unknown, vec![(String::new(), String::new())]);
}

#[test]
fn invalid_body_is_refused() {
    assert!(matches!(parse_behaviour("bitcoin:notanaddress"), Err(URIError::InvalidAddress)));
}

#[test]
fn duplicate_parameters_are_named() {
    let r = parse_behaviour("bitcoin:?label=a&label=b");
    assert!(matches!(r, Err(URIError::DuplicateParam(s)) if s == "label"));
    let r = parse_behaviour("bitcoin:?message=a&message=b");
    assert!(matches!(r, Err(URIError::DuplicateParam(s)) if s == "message"));
    let r = parse_behaviour("bitcoin:?amount=1&amount=2");
    assert!(matches!(r, Err(URIError::DuplicateParam(s)) if s == "amount"));
}

#[test]
fn unreadable_amount_does_not_count() {
    let uri = "bitcoin:?amount=abc&amount=0.5";
    assert_eq!(amount_values(uri), vec!["abc".to_string(), "0.5".to_string()]);
    let parsed = parse_behaviour(uri).unwrap();
    assert_eq!(parsed.amount, Some(Amount(50_000_000)));
    let parsed = parse(uri, NoopHandler, &vec![]).unwrap();
    assert_eq!(parsed.amount, None);
}

#[test]
fn unknown_parameters_kept_in_order() {
    let uri = parse_behaviour("bitcoin:?foo=1&Bar=X&lno=o").unwrap();
    assert_eq!(uri.unknown, vec![("foo".to_string(), "1".to_string()), ("bar".to_string(), "x".to_string())]);
    assert!(matches!(parse_behaviour("bitcoin:?req-foo=1"), Err(URIError::UnknownRequiredParam(k)) if k == "req-foo"));
}

#[test]
fn handler_takes_supported_parameters() {
    let uri = "bitcoin:?ark=ARK1PXYZ&req-ark=two";
    let parsed = try_parse(uri, ArkHandler::default(), &amounts_of(uri)).unwrap().unwrap();
    assert_eq!(parsed.extra.unwrap().ark_address, Some("two".to_string()));
    assert!(parsed.unknown.is_empty());
    let uri = "bitcoin:?ark=";
    let parsed = try_parse(uri, ArkHandler::default(), &amounts_of(uri)).unwrap();
    assert!(matches!(parsed, Err(URIError::InvalidAddress)));
    let uri = "bitcoin:?foo=1";
    let parsed = try_parse(uri, ArkHandler::default(), &amounts_of(uri)).unwrap().unwrap();
    assert!(parsed.extra.is_none());
}

#[test]
fn handle_unknown_decides_from_response() {
    let mut unknown = Vec::new();
    assert!(handle_unknown("foo", "1", HandlerResponse::Unsupported, &mut unknown).is_ok());
    assert_eq!(unknown, vec![("foo".to_string(), "1".to_string())]);
    assert!(matches!(
        handle_unknown("req-foo", "1", HandlerResponse::Unsupported, &mut unknown),
        Err(URIError::UnknownRequiredParam(k)) if k == "req-foo"
    ));
    assert!(handle_unknown("req-foo", "1", HandlerResponse::Handled(Ok(())), &mut unknown).is_ok());
    assert!(matches!(
        handle_unknown("x", "1", HandlerResponse::Handled(Err(URIError::BothPopAndReqPop)), &mut unknown),
        Err(URIError::BothPopAndReqPop)
    ));
    assert_eq!(unknown.len(), 1);
}

#[test]
fn undecodable_label_is_reported_by_try_parse() {
    let uri = "bitcoin:?label=%ff";
    assert!(try_parse(uri, NoopHandler, &vec![]).is_none());
    let uri = "bitcoin:?req-pop=%c3";
    assert!(try_parse(uri, NoopHandler, &vec![]).is_none());
}

#[test]
fn validate_address_classifies() {
    let a = validate_address("1A1zP1eP5QGefi2DMPTfTL5SLmv7DivfNa").unwrap().unwrap();
    assert!(matches!(a, BitcoinAddress::Base58(_)));
    let a = validate_address("bc1qufgy354j3kmvuch987xe4s40836x3h0lg8f5n2").unwrap().unwrap();
    assert!(matches!(a, BitcoinAddress::Bech32(_)));
    let a = validate_address("bc1p5swkugezn97763tl0yty6556856uug0q6jflljvep9m4p7339x5qzyrh4g").unwrap().unwrap();
    assert!(matches!(a, BitcoinAddress::Bech32m(_)));
    let a = validate_address("BC1QUFGY354J3KMVUCH987XE4S40836X3H0LG8F5N2").unwrap().unwrap();
    assert_eq!(a.inner().to_string(), "bc1qufgy354j3kmvuch987xe4s40836x3h0lg8f5n2");
    assert!(matches!(validate_address("hello"), Err(URIError::InvalidAddress)));
}

#[test]
fn on_network_checks_address_network() {
    let main = validate_address("1A1zP1eP5QGefi2DMPTfTL5SLmv7DivfNa").unwrap().unwrap();
    let test = validate_address("tb1qw508d6qejxtdg4y5r3zarvary0c5xw7kxpjzsx").unwrap().unwrap();
    assert!(on_network(&main, Some(Network::Bitcoin)));
    assert!(!on_network(&main, Some(Network::Testnet)));
    assert!(on_network(&test, Some(Network::Testnet)));
    assert!(on_network(&test, Some(Network::Signet)));
    assert!(!on_network(&test, Some(Network::Regtest)));
    assert!(on_network(&test, None));
}

#[test]
fn build_writes_every_part() {
    let uri = parse_behaviour(
        "bitcoin:1A1zP1eP5QGefi2DMPTfTL5SLmv7DivfNa?amount=20.3&label=luke%20jr&message=hi&pop=app%3a&lightning=lnbc1&lno=lno1&sp=sp1q&bc=bc1qufgy354j3kmvuch987xe4s40836x3h0lg8f5n2&foo=bar",
    )
    .unwrap();
    let text = build(&uri, "20.3");
    assert_eq!(
        text,
        "bitcoin:1A1zP1eP5QGefi2DMPTfTL5SLmv7DivfNa?amount=20.3&label=luke%20jr&message=hi&pop=app%3a&lightning=lnbc1&lno=lno1&sp=sp1q&bc=bc1qufgy354j3kmvuch987xe4s40836x3h0lg8f5n2"
    );
}

#[test]
fn build_without_query() {
    let uri: BitcoinURI<NoopHandler> = BitcoinURI::default();
    assert_eq!(build(&uri, ""), "bitcoin:");
    let mut uri: BitcoinURI<NoopHandler> = BitcoinURI::default();
    uri.instructions = vec![PaymentInstruction::Empty, PaymentInstruction::Lightning("ln".to_string())];
    uri.pop = Some(PopParam::Empty);
    assert_eq!(build(&uri, ""), "bitcoin:?lightning=ln");
    uri.pop = Some(PopParam::Required("cb%3a".to_string()));
    uri.amount = Some(Amount(1));
    assert_eq!(build(&uri, "0.00000001"), "bitcoin:?amount=0.00000001&req-pop=cb%3a&lightning=ln");
}

#[test]
fn built_uri_parses_back() {
    let written = "bitcoin:1A1zP1eP5QGefi2DMPTfTL5SLmv7DivfNa?label=luke%20jr&lno=lno1&sp=sp1q";
    let uri = parse_behaviour(written).unwrap();
    let rebuilt = build(&uri, "");
    assert_eq!(rebuilt, written);
    let again = parse_behaviour(&rebuilt).unwrap();
    assert_eq!(again.address, uri.address);
    assert_eq!(again.label, Some("luke jr".to_string()));
    assert_eq!(again.instructions, uri.instructions);
    assert_eq!(again.unknown, uri.unknown);
}

#[test]
fn instruction_values() {
    let addr = validate_address("bc1qufgy354j3kmvuch987xe4s40836x3h0lg8f5n2").unwrap().unwrap();
    let addr2 = validate_address("tb1qw508d6qejxtdg4y5r3zarvary0c5xw7kxpjzsx").unwrap().unwrap();
    assert_eq!(PaymentInstruction::Segwit(vec![addr.clone(), addr2]).get_value(),
        "bc=bc1qufgy354j3kmvuch987xe4s40836x3h0lg8f5n2&tb=tb1qw508d6qejxtdg4y5r3zarvary0c5xw7kxpjzsx");
    assert_eq!(PaymentInstruction::Onchain(addr).get_value(), "bc1qufgy354j3kmvuch987xe4s40836x3h0lg8f5n2");
    assert_eq!(PaymentInstruction::Unknown("k".to_string(), "v".to_string()).get_value(), "k=v");
    assert_eq!(PaymentInstruction::SilentPayment("s".to_string()).get_value(), "sp=s");
    assert_eq!(PaymentInstruction::Bolt12("o".to_string()).get_value(), "lno=o");
    assert_eq!(PaymentInstruction::Lightning("i".to_string()).get_value(), "lightning=i");
    assert_eq!(PaymentInstruction::Empty.get_value(), "");
    assert_eq!(PopParam::Optional("x".to_string()).get_value(), "x");
    assert!(PopParam::Empty.is_empty());
    assert!(!PopParam::Required("x".to_string()).is_empty());
}

#[test]
fn silent_payment_addresses() {
    let (net, addr) = silent_payment::validate_address("sp1qgys8lu7cdxlpcmqu3wx5u7x5cw".to_string()).unwrap();
    assert_eq!(net, silent_payment::Network::Mainnet);
    assert_eq!(addr, "sp1qgys8lu7cdxlpcmqu3wx5u7x5cw");
    let (net, _) = silent_payment::validate_address("tsp1qgys8lu7cdxlpcmqu3wx5uqqf59".to_string()).unwrap();
    assert_eq!(net, silent_payment::Network::Testnet);
    let (net, _) = silent_payment::validate_address("xy1qgys8lu7cdxlpcmqu3wx5f4rmec".to_string()).unwrap();
    assert_eq!(net, silent_payment::Network::Empty);
    assert!(matches!(
        silent_payment::validate_address("sp1qgys8lu7cdxlpcmqu3wx5u7x5cx".to_string()),
        Err(URIError::SilentPaymentError(s)) if s == "sp1qgys8lu7cdxlpcmqu3wx5u7x5cx"
    ));
}

#[test]
fn payjoin_endpoints() {
    assert!(validate_pj_url("https://example.com/pj".to_string()).is_ok());
    assert!(validate_pj_url("http://localhost:8080/pj".to_string()).is_ok());
    assert!(matches!(validate_pj_url("http://example.com/pj".to_string()), Err(URIError::PayjoinError(s)) if s == "Invalid URL"));
    assert!(validate_pj_url("ftp://example.com".to_string()).is_err());
    assert!(validate_pj_url("not a url".to_string()).is_err());
}

#[test]
fn try_parse_decides_with_the_given_handler() {
    let uri = "bitcoin:?req-x=1&message=%ff";
    assert!(matches!(
        try_parse(uri, NoopHandler, &vec![]),
        Some(Err(URIError::UnknownRequiredParam(k))) if k == "req-x"
    ));
}

#[test]
fn lightning_and_testnet_segwit_round_trip() {
    let written = "bitcoin:?lightning=lnbc1invoice&tb=tb1qw508d6qejxtdg4y5r3zarvary0c5xw7kxpjzsx&bc=bc1qufgy354j3kmvuch987xe4s40836x3h0lg8f5n2";
    let uri = parse_behaviour(written).unwrap();
    assert!(uri.unknown.is_empty());
    let rebuilt = build(&uri, "");
    assert_eq!(rebuilt, written);
    let again = parse_behaviour(&rebuilt).unwrap();
    assert_eq!(again.instructions, uri.instructions);
}

#[test]
fn payjoin_endpoint_text() {
    let endpoint = validate_pj_url("HTTPS://Example.com".to_string()).unwrap();
    assert_eq!(endpoint.text, "https://example.com/");
    assert_eq!(endpoint.scheme, "https");
    assert_eq!(endpoint.host, Some("example.com".to_string()));
}

#[test]
fn encoded_label_round_trips() {
    let written = "bitcoin:?label=a%3Ab%20%C3%A9";
    let uri = parse_behaviour(written).unwrap();
    assert_eq!(uri.label, Some("a:b \u{e9}".to_string()));
    let rebuilt = build(&uri, "");
    assert_eq!(rebuilt, written);
    let again = parse_behaviour(&rebuilt).unwrap();
    assert_eq!(again.label, uri.label);
}

#[test]
fn forbidden_scheme_in_any_ascii_case() {
    let pop = PopParam::Required("HtTp%3aevil".to_string());
    assert!(matches!(bip321::validate_pop_scheme(&pop), Err(URIError::ForbiddenPopScheme(s)) if s == "HtTp"));
    let pop = PopParam::Required("h\u{f6}ttps%3aok".to_string());
    assert!(bip321::validate_pop_scheme(&pop).is_ok());
}

#[test]
fn address_only_uri_round_trips() {
    let written = "bitcoin:1A1zP1eP5QGefi2DMPTfTL5SLmv7DivfNa";
    let uri = parse_behaviour(written).unwrap();
    assert_eq!(uri.unknown, vec![("".to_string(), "".to_string())]);
    let rebuilt = build(&uri, "");
    assert_eq!(rebuilt, written);
    let again = parse_behaviour(&rebuilt).unwrap();
    assert_eq!(again.address, uri.address);
    assert_eq!(again.instructions, uri.instructions);
    assert_eq!(again.unknown, uri.unknown);
}

#[test]
fn unknown_parameters_are_not_written() {
    let uri = parse_behaviour("bitcoin:?lno=lno1&foo=bar").unwrap();
    assert_eq!(uri.unknown, vec![("foo".to_string(), "bar".to_string())]);
    let rebuilt = build(&uri, "");
    assert_eq!(rebuilt, "bitcoin:?lno=lno1");
    let again = parse_behaviour(&rebuilt).unwrap();
    assert_eq!(again.instructions, uri.instructions);
    assert!(again.unknown.is_empty());
}
