//! What can go wrong in a pool, and how it is put into words.
use crate::text::{concat, decimal_string};
use vstd::prelude::*;
use vstd::string::*;

verus! {

/// A failure that the pool reports to whoever handed in a job.
#[derive(Debug)]
pub enum PoolError {
    /// A message could not be turned into bytes.
    Serialization(String),
    /// The bytes of a message could not be understood.
    Deserialization(String),
    /// The pool has no router yet.
    NotInitialized,
    /// The router no longer accepts jobs.
    RouterClosed,
    /// The job was dropped without an answer.
    Cancelled,
    /// Every worker of the pool has died; the number of deaths comes with it.
    AllWorkersDied(usize),
    /// The job itself failed, in the words that the worker sent back.
    Job(String),
}

impl Clone for PoolError {
    fn clone(&self) -> (copy: Self)
        ensures
            copy == *self,
    {
        match self {
            PoolError::Serialization(e) => PoolError::Serialization(e.clone()),
            PoolError::Deserialization(e) => PoolError::Deserialization(e.clone()),
            PoolError::NotInitialized => PoolError::NotInitialized,
            PoolError::RouterClosed => PoolError::RouterClosed,
            PoolError::Cancelled => PoolError::Cancelled,
            PoolError::AllWorkersDied(n) => PoolError::AllWorkersDied(*n),
            PoolError::Job(e) => PoolError::Job(e.clone()),
        }
    }
}

impl PoolError {
    /// The text of this error.
    pub open spec fn text(self) -> Seq<char> {
        match self {
            PoolError::Serialization(e) => "Serialization error: "@ + e@,
            PoolError::Deserialization(e) => "Deserialization error: "@ + e@,
            PoolError::NotInitialized => "Pool not initialized"@,
            PoolError::RouterClosed => "Pool router closed"@,
            PoolError::Cancelled => "Job cancelled"@,
            PoolError::AllWorkersDied(n) => "All "@ + crate::text::decimal(n as nat)
                + " workers died — likely init failure (e.g. LibreOffice SDK not found)"@,
            PoolError::Job(e) => e@,
        }
    }

    /// Puts this error into words.
    pub fn message(&self) -> (s: String)
        ensures
            s@ == self.text(),
    {
        match self {
            PoolError::Serialization(e) => concat("Serialization error: ", e.as_str()),
            PoolError::Deserialization(e) => concat("Deserialization error: ", e.as_str()),
            PoolError::NotInitialized => String::from_str("Pool not initialized"),
            PoolError::RouterClosed => String::from_str("Pool router closed"),
            PoolError::Cancelled => String::from_str("Job cancelled"),
            PoolError::AllWorkersDied(n) => {
                let head: String = concat("All ", decimal_string(*n).as_str());
                concat(
                    head.as_str(),
                    " workers died — likely init failure (e.g. LibreOffice SDK not found)",
                )
            },
            PoolError::Job(e) => e.clone(),
        }
    }
}

// ---- What holds of errors ----

/// The words of an error: what the job or the codec said is in them as it was said, and the number
/// of deaths as a numeral of that number.
pub proof fn law_error_says_what_happened(error: PoolError, s: String)
    ensures
        call_requires(PoolError::message, (&error,)),
        call_ensures(PoolError::message, (&error,), s) ==> {
            &&& error matches PoolError::Job(e) ==> s@ == e@
            &&& error matches PoolError::Serialization(e) ==> s@ == "Serialization error: "@ + e@
            &&& error matches PoolError::Deserialization(e) ==> s@ == "Deserialization error: "@
                + e@
            &&& error is NotInitialized ==> s@ == "Pool not initialized"@
            &&& error is RouterClosed ==> s@ == "Pool router closed"@
            &&& error is Cancelled ==> s@ == "Job cancelled"@
            &&& error matches PoolError::AllWorkersDied(n) ==> exists|digits: Seq<char>|
                crate::text::numeral_value(digits) == n && digits.len() > 0 && (n > 0 ==> digits[0]
                    != '0') && (forall|k: int|
                    0 <= k < digits.len() ==> '0' <= #[trigger] digits[k] <= '9') && s@
                    == #[trigger] ("All "@ + digits)
                    + " workers died — likely init failure (e.g. LibreOffice SDK not found)"@
        },
{
    if let PoolError::AllWorkersDied(n) = error {
        crate::text::law_numeral_stands_for_its_number(n as nat);
    }
}

/// A copy of an error is the error.
pub proof fn law_error_copies_are_equal(error: PoolError, copy: PoolError)
    ensures
        cloned(error, copy) ==> copy == error,
{
}

} // verus!
