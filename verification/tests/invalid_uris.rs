use bip321::{amount_values, try_parse, Amount, BitcoinURI, NoopHandler, URIError};

/// Reads an amount in BTC as the wallet does: decimal text to satoshis.
fn btc_amount_invalid(text: &str) -> Option<Amount> {
    let btc: f64 = text.parse::<f64>().ok()?;
    Some(Amount((btc * 100_000_000.0).round() as u64))
}

fn parse_invalid(uri: &str) -> Result<BitcoinURI<NoopHandler>, URIError> {
    let amounts: Vec<Option<Amount>> = amount_values(uri).iter().map(|t| btc_amount_invalid(t)).collect();
    try_parse(uri, NoopHandler, &amounts).expect("every value decodes")
}

#[test]
fn test_duplicate_label_is_invalid() {
    let uri = "bitcoin:175tWpb8K1S7NmH4Zx6rewF9WQrcZv245W?label=Luke-Jr&label=Matt";
    let result = parse_invalid(uri);
    assert!(result.is_err());
}

#[test]
fn test_duplicate_amount_is_invalid() {
    let uri = "bitcoin:175tWpb8K1S7NmH4Zx6rewF9WQrcZv245W?amount=42&amount=10";
    let result = parse_invalid(uri);
    assert!(result.is_err())
}

#[test]
fn test_duplicate_same_amount_is_invalid() {
    let uri = "bitcoin:175tWpb8K1S7NmH4Zx6rewF9WQrcZv245W?amount=42&amount=42";
    let result = parse_invalid(uri);
    assert!(result.is_err())
}

#[test]
fn test_duplicate_pop_is_invalid() {
    let uri = "bitcoin:175tWpb8K1S7NmH4Zx6rewF9WQrcZv245W?pop=callback%3a&req-pop=callback%3a";
    let result = parse_invalid(uri);
    assert!(result.is_err())
}

#[test]
fn test_segwit_address() {
    let uri = "bitcoin:?bc=tb1qghfhmd4zh7ncpmxl3qzhmq566jk8ckq4gafnmg";
    let result = parse_invalid(uri);
    assert!(result.is_err())
}

#[test]
fn test_unknown_req_param() {
    let uri = "bitcoin:175tWpb8K1S7NmH4Zx6rewF9WQrcZv245W?req-somethingyoudontunderstand=50&req-somethingelseyoudontget=999";
    let result = parse_invalid(uri);
    assert!(result.is_err())
}

#[test]
fn test_unknown_req_param_with_invalid_callback() {
    let uri = "bitcoin:175tWpb8K1S7NmH4Zx6rewF9WQrcZv245W?req-pop=https%3aevilwebsite.com";
    let result = parse_invalid(uri);
    assert!(result.is_err())
}
