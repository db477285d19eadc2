use vstd::prelude::*;
use crate::error::CalcError;

verus! {

/// What is handed back for one expression: `result` is the bit pattern of
/// the binary64 value, `error` the message of a failure.
#[derive(Debug, PartialEq, Eq)]
pub struct CalculatorResult {
    pub result: u64,
    pub error: Option<String>,
}

impl CalculatorResult {
    /// The message of the failure, if this is one.
    pub open spec fn error_text(self) -> Option<Seq<char>> {
        match self.error {
            Some(text) => Some(text@),
            None => None,
        }
    }

    /// The report of an outcome: the value and no error, or positive zero
    /// and the message of the error.
    pub fn from_outcome(outcome: Result<u64, CalcError>) -> (report: CalculatorResult)
        ensures
            match outcome {
                Ok(bits) => report.result == bits && report.error_text() == None::<Seq<char>>,
                Err(e) => report.result == 0 && report.error_text() == Some(e.message_text()),
            },
    {
        match outcome {
            Ok(bits) => CalculatorResult { result: bits, error: None },
            Err(e) => CalculatorResult { result: 0, error: Some(e.message()) },
        }
    }
}

} // verus!
