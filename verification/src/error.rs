use vstd::prelude::*;

verus! {

/// Why a URI, or a part of one, was refused.
#[derive(Debug, Clone)]
pub enum URIError {
    InvalidAddress,
    EmptyURINoInstruction,
    DuplicateParam(String),
    UnknownRequiredParam(String),
    InvalidAmount(String),
    ForbiddenPopScheme(String),
    BothPopAndReqPop,
    RequiredPopNotSupported,
    SilentPaymentError(String),
    PayjoinError(String),
    InvalidPopParameter(String),
}

/// The mathematical value of a [`URIError`]: the same variants, with texts as
/// character sequences.
pub ghost enum ErrorModel {
    InvalidAddress,
    EmptyURINoInstruction,
    DuplicateParam(Seq<char>),
    UnknownRequiredParam(Seq<char>),
    InvalidAmount(Seq<char>),
    ForbiddenPopScheme(Seq<char>),
    BothPopAndReqPop,
    RequiredPopNotSupported,
    SilentPaymentError(Seq<char>),
    PayjoinError(Seq<char>),
    InvalidPopParameter(Seq<char>),
}

impl View for URIError {
    type V = ErrorModel;

    open spec fn view(&self) -> ErrorModel {
        match self {
            URIError::InvalidAddress => ErrorModel::InvalidAddress,
            URIError::EmptyURINoInstruction => ErrorModel::EmptyURINoInstruction,
            URIError::DuplicateParam(s) => ErrorModel::DuplicateParam(s@),
            URIError::UnknownRequiredParam(s) => ErrorModel::UnknownRequiredParam(s@),
            URIError::InvalidAmount(s) => ErrorModel::InvalidAmount(s@),
            URIError::ForbiddenPopScheme(s) => ErrorModel::ForbiddenPopScheme(s@),
            URIError::BothPopAndReqPop => ErrorModel::BothPopAndReqPop,
            URIError::RequiredPopNotSupported => ErrorModel::RequiredPopNotSupported,
            URIError::SilentPaymentError(s) => ErrorModel::SilentPaymentError(s@),
            URIError::PayjoinError(s) => ErrorModel::PayjoinError(s@),
            URIError::InvalidPopParameter(s) => ErrorModel::InvalidPopParameter(s@),
        }
    }
}

} // verus!
