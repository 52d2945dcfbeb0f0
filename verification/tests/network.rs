use bip321::{
    amount_values, try_parse, Amount, BitcoinURI, Network, NoopHandler, PaymentInstruction,
    PaymentResolver, URIError, Value,
};

fn btc_amount_network(text: &str) -> Option<Amount> {
    let btc: f64 = text.parse::<f64>().ok()?;
    Some(Amount((btc * 100_000_000.0).round() as u64))
}

fn parse_network(uri: &str) -> Result<BitcoinURI<NoopHandler>, URIError> {
    let amounts: Vec<Option<Amount>> = amount_values(uri).iter().map(|t| btc_amount_network(t)).collect();
    try_parse(uri, NoopHandler, &amounts).expect("every value decodes")
}

struct MainnetOnchainResolver;

impl PaymentResolver for MainnetOnchainResolver {
    type Output = String;
    fn supports(instruction: &PaymentInstruction) -> bool {
        matches!(instruction, PaymentInstruction::Onchain(_))
    }

    fn resolve(instruction: &PaymentInstruction) -> Option<Self::Output> {
        if !instruction.get_value().is_empty() {
            return Some(instruction.get_value());
        }
        None
    }

    fn network() -> Option<Network> {
        return Some(Network::Bitcoin);
    }
}

#[test]
fn test_valid_network() {
    let uri = "bitcoin:1A1zP1eP5QGefi2DMPTfTL5SLmv7DivfNa";
    let result = parse_network(uri).unwrap();
    let resolved = result.resolve_instructions::<String, MainnetOnchainResolver>();
    assert_eq!(resolved[0], "1A1zP1eP5QGefi2DMPTfTL5SLmv7DivfNa")
}

#[test]
fn test_invalid_network() {
    let uri = "bitcoin:tb1qw508d6qejxtdg4y5r3zarvary0c5xw7kxpjzsx";
    let result = parse_network(uri).unwrap();
    let resolved = result.resolve_instructions::<String, MainnetOnchainResolver>();
    assert_eq!(resolved.len(), 0)
}

struct AnyLightningResolver;

impl PaymentResolver for AnyLightningResolver {
    type Output = String;
    fn supports(instruction: &PaymentInstruction) -> bool {
        matches!(instruction, PaymentInstruction::Lightning(_) | PaymentInstruction::Bolt12(_))
    }

    fn resolve(instruction: &PaymentInstruction) -> Option<Self::Output> {
        Some(instruction.get_value())
    }

    fn network() -> Option<Network> {
        None
    }
}

#[test]
fn test_resolve_instruction_takes_first_supported() {
    let uri = "bitcoin:1A1zP1eP5QGefi2DMPTfTL5SLmv7DivfNa?lno=lno1offer&lightning=lnbc1invoice";
    let result = parse_network(uri).unwrap();
    let first = result.resolve_instruction::<String, AnyLightningResolver>();
    assert_eq!(first, Some("lno=lno1offer".to_string()));
    let all = result.resolve_instructions::<String, AnyLightningResolver>();
    assert_eq!(all, vec!["lno=lno1offer".to_string(), "lightning=lnbc1invoice".to_string()]);
}

#[test]
fn test_resolve_instruction_none_supported() {
    let uri = "bitcoin:?sp=sp1qsilentpayment";
    let result = parse_network(uri).unwrap();
    assert_eq!(result.resolve_instruction::<String, AnyLightningResolver>(), None);
    assert!(result.resolve_instructions::<String, MainnetOnchainResolver>().is_empty());
}

#[test]
fn test_testnet_address_resolves_without_network() {
    struct AnyNetwork;
    impl PaymentResolver for AnyNetwork {
        type Output = String;
        fn supports(instruction: &PaymentInstruction) -> bool {
            matches!(instruction, PaymentInstruction::Onchain(_))
        }
        fn resolve(instruction: &PaymentInstruction) -> Option<String> {
            Some(instruction.get_value())
        }
        fn network() -> Option<Network> {
            None
        }
    }
    let uri = "bitcoin:tb1qw508d6qejxtdg4y5r3zarvary0c5xw7kxpjzsx";
    let result = parse_network(uri).unwrap();
    let resolved = result.resolve_instructions::<String, AnyNetwork>();
    assert_eq!(resolved, vec!["tb1qw508d6qejxtdg4y5r3zarvary0c5xw7kxpjzsx".to_string()]);
}

#[test]
fn test_resolve_instruction_checks_network() {
    let uri = "bitcoin:tb1qw508d6qejxtdg4y5r3zarvary0c5xw7kxpjzsx";
    let result = parse_network(uri).unwrap();
    assert_eq!(result.resolve_instruction::<String, MainnetOnchainResolver>(), None);
    let uri = "bitcoin:1A1zP1eP5QGefi2DMPTfTL5SLmv7DivfNa";
    let result = parse_network(uri).unwrap();
    assert_eq!(
        result.resolve_instruction::<String, MainnetOnchainResolver>(),
        Some("1A1zP1eP5QGefi2DMPTfTL5SLmv7DivfNa".to_string())
    );
}
