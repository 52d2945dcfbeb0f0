//! Parsing, building and resolving `bitcoin:` payment URIs (BIP-321).
pub mod address;
pub mod builder;
pub mod error;
pub mod guarantees;
pub mod laws;
pub mod parser;
pub mod payjoin;
pub mod percent;
pub mod pop;
pub mod round_trip;
pub mod silent_payment;
pub mod text;
pub mod types;

pub use address::{Address, AddressType, Network};
pub use builder::build;
pub use error::URIError;
pub use parser::{amount_values, parse, try_parse, validate_address};
pub use pop::{build_callback, check_pop_scheme, try_build_callback, validate_pop_scheme};
pub use types::{
    Amount, BitcoinAddress, BitcoinURI, NoopHandler, PaymentInstruction,
    PaymentInstructionHandler, PaymentResolver, PopParam, Value,
};
