//! Engine failures.
use crate::text::{cat3, text_eq};
use vstd::prelude::*;

verus! {

/// Solver-specific failure with a stable machine-readable code.
#[derive(Debug, PartialEq, Eq)]
pub struct EngineError {
    pub code: String,
    pub message: String,
    pub retryable: bool,
}

/// What an `EngineError` says.
pub struct Fault {
    pub code: Seq<char>,
    pub message: Seq<char>,
    pub retryable: bool,
}

/// A failure that is not worth another try.
pub open spec fn fault(code: Seq<char>, message: Seq<char>) -> Fault {
    Fault { code, message, retryable: false }
}

impl View for EngineError {
    type V = Fault;

    open spec fn view(&self) -> Fault {
        Fault { code: self.code@, message: self.message@, retryable: self.retryable }
    }
}

impl Clone for EngineError {
    fn clone(&self) -> (r: Self)
        ensures
            r == *self,
    {
        EngineError {
            code: self.code.clone(),
            message: self.message.clone(),
            retryable: self.retryable,
        }
    }
}

/// The result is the one that the model gives, seen through the views.
pub open spec fn agrees<T: View>(r: Result<T, EngineError>, model: Result<T::V, Fault>) -> bool {
    match (r, model) {
        (Ok(x), Ok(y)) => x@ == y,
        (Err(e), Err(f)) => e@ == f,
        _ => false,
    }
}

/// The outcome of a call, its error as a plain value.
pub open spec fn told<T>(r: Result<T, EngineError>) -> Result<T, Fault> {
    match r {
        Ok(x) => Ok(x),
        Err(e) => Err(e@),
    }
}

/// Success where the model has no failure, and the model's failure otherwise.
pub open spec fn passes(r: Result<(), EngineError>, failure: Option<Fault>) -> bool {
    match (r, failure) {
        (Ok(_), None) => true,
        (Err(e), Some(f)) => e@ == f,
        _ => false,
    }
}

impl EngineError {
    pub fn new(code: &str, message: &str) -> (r: Self)
        ensures
            r@ == fault(code@, message@),
    {
        EngineError { code: code.to_owned(), message: message.to_owned(), retryable: false }
    }

    pub fn retryable(self, retryable: bool) -> (r: Self)
        ensures
            r@ == (Fault { retryable, ..self@ }),
    {
        EngineError { code: self.code, message: self.message, retryable }
    }

    pub fn code(&self) -> (r: &str)
        ensures
            r@ == self.code@,
    {
        self.code.as_str()
    }

    pub fn message(&self) -> (r: &str)
        ensures
            r@ == self.message@,
    {
        self.message.as_str()
    }

    pub fn is_retryable(&self) -> (r: bool)
        ensures
            r == self.retryable,
    {
        self.retryable
    }

    pub fn is_cancelled(&self) -> (r: bool)
        ensures
            r == (self.code@ == "execution_cancelled"@),
    {
        text_eq(self.code.as_str(), "execution_cancelled")
    }

    pub fn is_timeout(&self) -> (r: bool)
        ensures
            r == (self.code@ == "execution_timeout"@),
    {
        text_eq(self.code.as_str(), "execution_timeout")
    }

    pub fn is_resource_limit(&self) -> (r: bool)
        ensures
            r == (self.code@ == "execution_resource_limit"@),
    {
        text_eq(self.code.as_str(), "execution_resource_limit")
    }

    /// The code and the message, for a reader.
    pub fn to_text(&self) -> (r: String)
        ensures
            r@ == self.code@ + ": "@ + self.message@,
    {
        cat3(self.code.as_str(), ": ", self.message.as_str())
    }
}

/// A failure with this code and message.
pub fn fail(code: &str, message: String) -> (r: EngineError)
    ensures
        r@ == fault(code@, message@),
{
    EngineError { code: code.to_owned(), message, retryable: false }
}


/// The results `f(0)`, ..., `f(n - 1)`, or the first failure among them.
pub open spec fn collected<T>(n: int, f: spec_fn(int) -> Result<T, Fault>) -> Result<Seq<T>, Fault>
    decreases n,
{
    if n <= 0 {
        Ok(Seq::empty())
    } else {
        match collected(n - 1, f) {
            Err(e) => Err(e),
            Ok(s) => match f(n - 1) {
                Err(e) => Err(e),
                Ok(x) => Ok(s.push(x)),
            },
        }
    }
}

/// A failure ends the collection.
pub proof fn lemma_collected_stops<T>(n: int, f: spec_fn(int) -> Result<T, Fault>, m: int)
    requires
        0 <= m <= n,
        collected(m, f) is Err,
    ensures
        collected(n, f) == collected(m, f),
    decreases n - m,
{
    if m < n {
        lemma_collected_stops(n, f, m + 1);
    }
}

/// A collection without failure holds each result.
pub proof fn lemma_collected_at<T>(n: int, f: spec_fn(int) -> Result<T, Fault>)
    requires
        collected(n, f) is Ok,
    ensures
        collected(n, f)->Ok_0.len() == if n > 0 {
            n
        } else {
            0
        },
        forall|i: int|
            0 <= i < n ==> f(i) == Ok::<T, Fault>(#[trigger] collected(n, f)->Ok_0[i]),
    decreases n,
{
    if n > 0 {
        lemma_collected_at(n - 1, f);
    }
}

} // verus!
