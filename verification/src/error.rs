//! The error taxonomy shared by every tool: each error belongs to one outcome
//! class, and an error may carry the token usage billed before it occurred.
use vstd::prelude::*;

verus! {

/// The outcome class an invocation ends in.
#[derive(Debug, Clone, Copy, PartialEq, Eq, Structural)]
pub enum Outcome {
    /// The call completed.
    Success,
    /// The provider declined.
    Refusal,
    /// The provider's output was cut off.
    Truncation,
    /// A time ceiling was hit.
    Timeout,
    /// Every retry failed.
    RetriesExhausted,
    /// The caller's input was rejected before any provider call.
    InvalidInput,
    /// An output violated its contract.
    ValidationFailure,
    /// The caller abandoned the invocation.
    Cancelled,
    /// The model provider failed.
    ClientError,
    /// The search or fetch provider failed.
    SearchProvider,
}

impl Outcome {
    /// The stable class name.
    pub fn as_str(self) -> (r: &'static str)
        ensures
            r@ == outcome_str(self),
    {
        match self {
            Outcome::Success => "success",
            Outcome::Refusal => "refusal",
            Outcome::Truncation => "truncation",
            Outcome::Timeout => "timeout",
            Outcome::RetriesExhausted => "retries_exhausted",
            Outcome::InvalidInput => "invalid_input",
            Outcome::ValidationFailure => "validation_failure",
            Outcome::Cancelled => "cancelled",
            Outcome::ClientError => "client_error",
            Outcome::SearchProvider => "search_provider",
        }
    }
}

/// The stable class name of an outcome.
pub open spec fn outcome_str(o: Outcome) -> Seq<char> {
    match o {
        Outcome::Success => "success"@,
        Outcome::Refusal => "refusal"@,
        Outcome::Truncation => "truncation"@,
        Outcome::Timeout => "timeout"@,
        Outcome::RetriesExhausted => "retries_exhausted"@,
        Outcome::InvalidInput => "invalid_input"@,
        Outcome::ValidationFailure => "validation_failure"@,
        Outcome::Cancelled => "cancelled"@,
        Outcome::ClientError => "client_error"@,
        Outcome::SearchProvider => "search_provider"@,
    }
}

/// Every failure a tool can report.
#[derive(Debug)]
pub enum AppError {
    /// The caller's input was rejected before any provider call.
    InvalidInput(String),
    /// An output violated its contract.
    ValidationFailure(String),
    /// The provider declined.
    Refusal(String),
    /// The provider's output was cut off.
    Truncation(String),
    /// A time ceiling was hit.
    Timeout { what: String, ms: u64 },
    /// Every retry failed.
    RetriesExhausted { attempts: u32, last: String },
    /// The caller abandoned the invocation.
    Cancelled,
    /// The model provider failed.
    Client(String),
    /// The search or fetch provider failed.
    SearchProvider(String),
    /// An error together with the tokens billed before it.
    Metered { source: Box<AppError>, input_tokens: u64, output_tokens: u64 },
}

/// The outcome class of an error (a metered error has its source's class).
pub open spec fn spec_outcome(e: AppError) -> Outcome
    decreases e,
{
    match e {
        AppError::InvalidInput(_) => Outcome::InvalidInput,
        AppError::ValidationFailure(_) => Outcome::ValidationFailure,
        AppError::Refusal(_) => Outcome::Refusal,
        AppError::Truncation(_) => Outcome::Truncation,
        AppError::Timeout { .. } => Outcome::Timeout,
        AppError::RetriesExhausted { .. } => Outcome::RetriesExhausted,
        AppError::Cancelled => Outcome::Cancelled,
        AppError::Client(_) => Outcome::ClientError,
        AppError::SearchProvider(_) => Outcome::SearchProvider,
        AppError::Metered { source, .. } => spec_outcome(*source),
    }
}

/// The tokens an error carries as billed: a metered error's own counts,
/// otherwise none.
pub open spec fn spec_billed(e: AppError) -> (u64, u64) {
    match e {
        AppError::Metered { input_tokens, output_tokens, .. } => (input_tokens, output_tokens),
        _ => (0, 0),
    }
}

/// The error without any usage attached.
pub open spec fn spec_unmetered(e: AppError) -> AppError {
    match e {
        AppError::Metered { source, .. } => *source,
        _ => e,
    }
}

/// Saturating addition of token counts.
pub open spec fn sat_add(a: u64, b: u64) -> u64 {
    if a + b > u64::MAX {
        u64::MAX
    } else {
        (a + b) as u64
    }
}

impl AppError {
    /// The outcome class of this error.
    pub fn outcome(&self) -> (o: Outcome)
        ensures
            o == spec_outcome(*self),
        decreases self,
    {
        match self {
            AppError::InvalidInput(_) => Outcome::InvalidInput,
            AppError::ValidationFailure(_) => Outcome::ValidationFailure,
            AppError::Refusal(_) => Outcome::Refusal,
            AppError::Truncation(_) => Outcome::Truncation,
            AppError::Timeout { .. } => Outcome::Timeout,
            AppError::RetriesExhausted { .. } => Outcome::RetriesExhausted,
            AppError::Cancelled => Outcome::Cancelled,
            AppError::Client(_) => Outcome::ClientError,
            AppError::SearchProvider(_) => Outcome::SearchProvider,
            AppError::Metered { source, .. } => source.outcome(),
        }
    }

    /// The (input, output) tokens billed before this error.
    pub fn billed(&self) -> (r: (u64, u64))
        ensures
            r == spec_billed(*self),
    {
        match self {
            AppError::Metered { input_tokens, output_tokens, .. } => (*input_tokens, *output_tokens),
            _ => (0, 0),
        }
    }

    /// Attach billed tokens, adding to any already carried.
    pub fn metered(self, input_tokens: u64, output_tokens: u64) -> (r: AppError)
        ensures
            spec_unmetered(r) == spec_unmetered(self),
            spec_billed(r) == (
                sat_add(spec_billed(self).0, input_tokens),
                sat_add(spec_billed(self).1, output_tokens),
            ),
    {
        match self {
            AppError::Metered { source, input_tokens: i0, output_tokens: o0 } => {
                AppError::Metered {
                    source,
                    input_tokens: i0.saturating_add(input_tokens),
                    output_tokens: o0.saturating_add(output_tokens),
                }
            },
            other => AppError::Metered {
                source: Box::new(other),
                input_tokens: input_tokens.saturating_add(0),
                output_tokens: output_tokens.saturating_add(0),
            },
        }
    }

    /// The error with any usage stripped.
    pub fn unmetered(self) -> (r: AppError)
        ensures
            r == spec_unmetered(self),
    {
        match self {
            AppError::Metered { source, .. } => *source,
            other => other,
        }
    }

    /// The human-readable message: the class in brackets, then the detail.
    pub fn message(&self) -> (m: String)
        ensures
            m@ == error_message(*self),
        decreases self,
    {
        match self {
            AppError::Metered { source, .. } => source.message(),
            _ => {
                let mut v: Vec<char> = Vec::new();
                v.push('[');
                crate::text::append_str(&mut v, self.outcome().as_str());
                v.push(']');
                v.push(' ');
                let ghost head = v@;
                match self {
                    AppError::InvalidInput(m) => crate::text::append_str(&mut v, m.as_str()),
                    AppError::ValidationFailure(m) => crate::text::append_str(&mut v, m.as_str()),
                    AppError::Refusal(m) => crate::text::append_str(&mut v, m.as_str()),
                    AppError::Truncation(m) => crate::text::append_str(&mut v, m.as_str()),
                    AppError::Timeout { what, ms } => {
                        crate::text::append_str(&mut v, what.as_str());
                        crate::text::append_str(&mut v, " exceeded ");
                        crate::text::append_decimal(&mut v, *ms);
                        crate::text::append_str(&mut v, " ms");
                    },
                    AppError::RetriesExhausted { attempts, last } => {
                        crate::text::append_decimal(&mut v, *attempts as u64);
                        crate::text::append_str(&mut v, " attempts failed; last: ");
                        crate::text::append_str(&mut v, last.as_str());
                    },
                    AppError::Cancelled => crate::text::append_str(&mut v, "the invocation was cancelled"),
                    AppError::Client(m) => crate::text::append_str(&mut v, m.as_str()),
                    AppError::SearchProvider(m) => crate::text::append_str(&mut v, m.as_str()),
                    AppError::Metered { .. } => {},
                }
                proof {
                    reveal_strlit("[");
                    reveal_strlit("] ");
                }
                assert(head =~= "["@ + outcome_str(spec_outcome(*self)) + "] "@);
                assert(v@ =~= head + error_detail(*self));
                crate::text::string_of(v.as_slice())
            },
        }
    }
}

/// `e` is an invalid-input error whose message is `m`.
pub open spec fn invalid_input_is(e: AppError, m: Seq<char>) -> bool {
    e matches AppError::InvalidInput(x) && x@ == m
}

/// `e` is a validation failure whose message is `m`.
pub open spec fn validation_failure_is(e: AppError, m: Seq<char>) -> bool {
    e matches AppError::ValidationFailure(x) && x@ == m
}

/// The detail text of an error (after its class prefix).
pub open spec fn error_detail(e: AppError) -> Seq<char> {
    match e {
        AppError::InvalidInput(m) => m@,
        AppError::ValidationFailure(m) => m@,
        AppError::Refusal(m) => m@,
        AppError::Truncation(m) => m@,
        AppError::Timeout { what, ms } => what@ + " exceeded "@ + crate::text::decimal(ms as nat)
            + " ms"@,
        AppError::RetriesExhausted { attempts, last } => crate::text::decimal(attempts as nat)
            + " attempts failed; last: "@ + last@,
        AppError::Cancelled => "the invocation was cancelled"@,
        AppError::Client(m) => m@,
        AppError::SearchProvider(m) => m@,
        AppError::Metered { .. } => Seq::empty(),
    }
}

/// The rendered message of an error: `[class] detail`.
pub open spec fn error_message(e: AppError) -> Seq<char>
    decreases e,
{
    match e {
        AppError::Metered { source, .. } => error_message(*source),
        _ => "["@ + outcome_str(spec_outcome(e)) + "] "@ + error_detail(e),
    }
}

/// The error, under any usage attached, is the caller's invalid input.
pub open spec fn spec_is_invalid_params(e: AppError) -> bool
    decreases e,
{
    match e {
        AppError::InvalidInput(_) => true,
        AppError::Metered { source, .. } => spec_is_invalid_params(*source),
        _ => false,
    }
}

impl AppError {
    /// Whether the error reaches the caller as invalid parameters rather than
    /// an internal error: attached usage never reclassifies it.
    pub fn is_invalid_params(&self) -> (r: bool)
        ensures
            r == spec_is_invalid_params(*self),
        decreases self,
    {
        match self {
            AppError::InvalidInput(_) => true,
            AppError::Metered { source, .. } => source.is_invalid_params(),
            _ => false,
        }
    }
}

} // verus!
