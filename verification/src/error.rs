//! The error taxonomy of the package manager.

use vstd::prelude::*;
use crate::text::{concat2, concat3, decimal};

verus! {

/// Everything that can end an operation early.
#[derive(Debug)]
pub enum MagError {
    /// A package reaches itself through its dependencies.
    DependencyCycle,
    /// The manifest has the wrong shape at `context`.
    Evaluation { context: String, message: String },
    /// A filesystem operation failed.
    Io { message: String },
    /// A network transfer failed.
    Network { message: String },
    /// Downloaded bytes did not have the declared digest.
    HashMismatch { filename: String },
    /// A fetch declares no source at all.
    NoUrls { filename: String },
    /// A source URL has a scheme that no transport serves.
    UnsupportedScheme { scheme: String },
    /// The build script ended with a nonzero status.
    CommandFailure { context: String, status: i32 },
    /// Any other broken expectation, described in words.
    Generic(String),
}

/// The mathematical value of a [`MagError`].
pub enum MagErrorView {
    DependencyCycle,
    Evaluation { context: Seq<char>, message: Seq<char> },
    Io { message: Seq<char> },
    Network { message: Seq<char> },
    HashMismatch { filename: Seq<char> },
    NoUrls { filename: Seq<char> },
    UnsupportedScheme { scheme: Seq<char> },
    CommandFailure { context: Seq<char>, status: int },
    Generic(Seq<char>),
}

impl View for MagError {
    type V = MagErrorView;

    open spec fn view(&self) -> MagErrorView {
        match self {
            MagError::DependencyCycle => MagErrorView::DependencyCycle,
            MagError::Evaluation { context, message } => MagErrorView::Evaluation {
                context: context@,
                message: message@,
            },
            MagError::Io { message } => MagErrorView::Io { message: message@ },
            MagError::Network { message } => MagErrorView::Network { message: message@ },
            MagError::HashMismatch { filename } => MagErrorView::HashMismatch {
                filename: filename@,
            },
            MagError::NoUrls { filename } => MagErrorView::NoUrls { filename: filename@ },
            MagError::UnsupportedScheme { scheme } => MagErrorView::UnsupportedScheme {
                scheme: scheme@,
            },
            MagError::CommandFailure { context, status } => MagErrorView::CommandFailure {
                context: context@,
                status: *status as int,
            },
            MagError::Generic(text) => MagErrorView::Generic(text@),
        }
    }
}

/// The decimal numeral of a signed number.
pub open spec fn signed_decimal_spec(n: int) -> Seq<char> {
    if n < 0 {
        seq!['-'] + crate::text::decimal_spec((-n) as nat)
    } else {
        crate::text::decimal_spec(n as nat)
    }
}

/// The line shown to the user for an error.
pub open spec fn message_spec(e: MagErrorView) -> Seq<char> {
    match e {
        MagErrorView::DependencyCycle => "dependency cycle detected"@,
        MagErrorView::Evaluation { context, message } => context + ": "@ + message,
        MagErrorView::Io { message } => "io error: "@ + message,
        MagErrorView::Network { message } => "network error: "@ + message,
        MagErrorView::HashMismatch { filename } => "SHA mismatch for "@ + filename,
        MagErrorView::NoUrls { filename } => "no URLs provided for fetch "@ + filename,
        MagErrorView::UnsupportedScheme { scheme } => "unsupported fetch URL scheme: "@ + scheme,
        MagErrorView::CommandFailure { context, status } => context + " failed with status "@
            + signed_decimal_spec(status),
        MagErrorView::Generic(text) => text,
    }
}

/// The decimal numeral of a signed number.
pub fn signed_decimal(n: i32) -> (out: String)
    ensures
        out@ == signed_decimal_spec(n as int),
{
    if n < 0 {
        let magnitude: u64 = (-(n as i64)) as u64;
        let digits = decimal(magnitude);
        let mut out = String::new();
        crate::text::push_char(&mut out, '-');
        out.append(digits.as_str());
        assert(out@ =~= seq!['-'] + digits@);
        out
    } else {
        decimal(n as u64)
    }
}

impl MagError {
    /// The line shown to the user for this error.
    pub fn message(&self) -> (out: String)
        ensures
            out@ == message_spec(self@),
    {
        match self {
            MagError::DependencyCycle => String::from_str("dependency cycle detected"),
            MagError::Evaluation { context, message } => concat3(
                context.as_str(),
                ": ",
                message.as_str(),
            ),
            MagError::Io { message } => concat2("io error: ", message.as_str()),
            MagError::Network { message } => concat2("network error: ", message.as_str()),
            MagError::HashMismatch { filename } => concat2(
                "SHA mismatch for ",
                filename.as_str(),
            ),
            MagError::NoUrls { filename } => concat2(
                "no URLs provided for fetch ",
                filename.as_str(),
            ),
            MagError::UnsupportedScheme { scheme } => concat2(
                "unsupported fetch URL scheme: ",
                scheme.as_str(),
            ),
            MagError::CommandFailure { context, status } => {
                let digits = signed_decimal(*status);
                concat3(context.as_str(), " failed with status ", digits.as_str())
            },
            MagError::Generic(text) => text.clone(),
        }
    }

    /// A copy of this error.
    pub fn duplicate(&self) -> (out: MagError)
        ensures
            out@ == self@,
    {
        match self {
            MagError::DependencyCycle => MagError::DependencyCycle,
            MagError::Evaluation { context, message } => MagError::Evaluation {
                context: context.clone(),
                message: message.clone(),
            },
            MagError::Io { message } => MagError::Io { message: message.clone() },
            MagError::Network { message } => MagError::Network { message: message.clone() },
            MagError::HashMismatch { filename } => MagError::HashMismatch {
                filename: filename.clone(),
            },
            MagError::NoUrls { filename } => MagError::NoUrls { filename: filename.clone() },
            MagError::UnsupportedScheme { scheme } => MagError::UnsupportedScheme {
                scheme: scheme.clone(),
            },
            MagError::CommandFailure { context, status } => MagError::CommandFailure {
                context: context.clone(),
                status: *status,
            },
            MagError::Generic(text) => MagError::Generic(text.clone()),
        }
    }
}

/// The outcome of a fallible operation.
pub type MagResult<T> = Result<T, MagError>;

} // verus!
