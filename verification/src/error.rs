//! Error type of the renderer and the message formatting it uses.
use vstd::prelude::*;
use crate::text::push_char;

verus! {

/// Rendering error types
#[derive(Debug)]
pub enum RenderError {
    /// Invalid dimensions provided
    InvalidDimensions,
    /// Invalid buffer size
    InvalidBufferSize {
        /// Expected size
        expected: usize,
        /// Actual size
        actual: usize,
    },
    /// Invalid pixmap creation
    InvalidPixmap,
    /// No backend available
    NoBackendAvailable,
    /// Unsupported backend
    UnsupportedBackend(&'static str),
    /// Backend initialization failed
    BackendInitFailed(String),
    /// Generic backend error
    BackendError(String),
    /// Pipeline error
    PipelineError(String),
    /// Shaping error
    ShapingError(String),
    /// Drawing error
    DrawingError(String),
    /// Invalid draw command
    InvalidDrawCommand(String),
    /// Effect error
    EffectError(String),
    /// Compositing error
    CompositingError(String),
    /// Font error
    FontError(String),
    /// GPU error
    GpuError(String),
    /// Resource limit exceeded
    ResourceLimitExceeded(String),
    /// Invalid script
    InvalidScript(String),
    /// Parse error
    ParseError(String),
    /// Invalid input
    InvalidInput(String),
    /// Error reported by the script parser, carried as its message
    CoreError(String),
    /// Initialization error
    InitializationError(String),
    /// IO error
    IOError(String),
    /// Invalid state
    InvalidState(String),
    /// Unsupported operation
    UnsupportedOperation(String),
}

impl RenderError {
    /// Check if error is recoverable
    pub fn is_recoverable(&self) -> (b: bool)
        ensures
            b == (self is ShapingError || self is DrawingError || self is EffectError || self is FontError),
    {
        match self {
            RenderError::ShapingError(_)
            | RenderError::DrawingError(_)
            | RenderError::EffectError(_)
            | RenderError::FontError(_) => true,
            _ => false,
        }
    }

    /// Check if error indicates missing resources
    pub fn is_resource_error(&self) -> (b: bool)
        ensures
            b == (self is FontError || self is ResourceLimitExceeded),
    {
        match self {
            RenderError::FontError(_) | RenderError::ResourceLimitExceeded(_) => true,
            _ => false,
        }
    }
}

/// The ASCII digit for `d` (expected below ten).
pub open spec fn digit_char(d: nat) -> char {
    if d == 0 { '0' } else if d == 1 { '1' } else if d == 2 { '2' } else if d == 3 { '3' } else if d == 4 { '4' }
    else if d == 5 { '5' } else if d == 6 { '6' } else if d == 7 { '7' } else if d == 8 { '8' } else { '9' }
}

/// Decimal digits of `n`, most significant first, without leading zeros.
pub open spec fn decimal_chars(n: nat) -> Seq<char>
    decreases n,
{
    if n < 10 {
        seq![digit_char(n)]
    } else {
        decimal_chars(n / 10).push(digit_char(n % 10))
    }
}

/// The ASCII digit for `d < 10`.
fn digit_of(d: u64) -> (c: char)
    requires
        d < 10,
    ensures
        c == digit_char(d as nat),
{
    if d == 0 { '0' } else if d == 1 { '1' } else if d == 2 { '2' } else if d == 3 { '3' } else if d == 4 { '4' }
    else if d == 5 { '5' } else if d == 6 { '6' } else if d == 7 { '7' } else if d == 8 { '8' } else { '9' }
}

/// Append `n` in decimal.
fn push_decimal(s: &mut String, n: u64)
    ensures
        final(s)@ == old(s)@ + decimal_chars(n as nat),
    decreases n,
{
    if n >= 10 {
        push_decimal(s, n / 10);
    }
    push_char(s, digit_of(n % 10));
    assert(s@ =~= old(s)@ + decimal_chars(n as nat));
}

/// `prefix`, then `n` in decimal, then `suffix`.
pub(crate) fn message_with_number(prefix: &str, n: u64, suffix: &str) -> (s: String)
    ensures
        s@ == prefix@ + decimal_chars(n as nat) + suffix@,
{
    let mut s = String::from_str(prefix);
    push_decimal(&mut s, n);
    s.append(suffix);
    s
}

/// `prefix` followed by `detail`.
fn prefixed(prefix: &str, detail: &str) -> (s: String)
    ensures
        s@ == prefix@ + detail@,
{
    let mut s = String::from_str(prefix);
    s.append(detail);
    s
}

/// The text of an error: the kind of failure, then its detail.
pub open spec fn error_message(e: RenderError) -> Seq<char> {
    match e {
        RenderError::InvalidDimensions => "Invalid dimensions: dimensions must be positive and non-zero"@,
        RenderError::InvalidBufferSize { expected, actual } => "Invalid buffer size: expected "@
            + decimal_chars(expected as nat) + " bytes, got "@ + decimal_chars(actual as nat),
        RenderError::InvalidPixmap => "Failed to create pixmap"@,
        RenderError::NoBackendAvailable => "No rendering backend available"@,
        RenderError::UnsupportedBackend(d) => "Unsupported backend: "@ + d@,
        RenderError::BackendInitFailed(d) => "Backend initialization failed: "@ + d@,
        RenderError::BackendError(d) => "Backend error: "@ + d@,
        RenderError::PipelineError(d) => "Pipeline error: "@ + d@,
        RenderError::ShapingError(d) => "Text shaping failed: "@ + d@,
        RenderError::DrawingError(d) => "Drawing failed: "@ + d@,
        RenderError::InvalidDrawCommand(d) => "Invalid draw command: "@ + d@,
        RenderError::EffectError(d) => "Effect application failed: "@ + d@,
        RenderError::CompositingError(d) => "Compositing failed: "@ + d@,
        RenderError::FontError(d) => "Font error: "@ + d@,
        RenderError::GpuError(d) => "GPU error: "@ + d@,
        RenderError::ResourceLimitExceeded(d) => "Resource limit exceeded: "@ + d@,
        RenderError::InvalidScript(d) => "Invalid script: "@ + d@,
        RenderError::ParseError(d) => "Parse error: "@ + d@,
        RenderError::InvalidInput(d) => "Invalid input: "@ + d@,
        RenderError::CoreError(d) => "Core error: "@ + d@,
        RenderError::InitializationError(d) => "Initialization error: "@ + d@,
        RenderError::IOError(d) => "IO error: "@ + d@,
        RenderError::InvalidState(d) => "Invalid state: "@ + d@,
        RenderError::UnsupportedOperation(d) => "Unsupported operation: "@ + d@,
    }
}

impl RenderError {
    /// The error's message (what `to_string` gives).
    pub fn message(&self) -> (s: String)
        ensures
            s@ == error_message(*self),
    {
        match self {
            RenderError::InvalidDimensions => String::from_str("Invalid dimensions: dimensions must be positive and non-zero"),
            RenderError::InvalidBufferSize { expected, actual } => {
                let mut s = message_with_number("Invalid buffer size: expected ", *expected as u64, " bytes, got ");
                push_decimal(&mut s, *actual as u64);
                s
            },
            RenderError::InvalidPixmap => String::from_str("Failed to create pixmap"),
            RenderError::NoBackendAvailable => String::from_str("No rendering backend available"),
            RenderError::UnsupportedBackend(d) => prefixed("Unsupported backend: ", d),
            RenderError::BackendInitFailed(d) => prefixed("Backend initialization failed: ", d.as_str()),
            RenderError::BackendError(d) => prefixed("Backend error: ", d.as_str()),
            RenderError::PipelineError(d) => prefixed("Pipeline error: ", d.as_str()),
            RenderError::ShapingError(d) => prefixed("Text shaping failed: ", d.as_str()),
            RenderError::DrawingError(d) => prefixed("Drawing failed: ", d.as_str()),
            RenderError::InvalidDrawCommand(d) => prefixed("Invalid draw command: ", d.as_str()),
            RenderError::EffectError(d) => prefixed("Effect application failed: ", d.as_str()),
            RenderError::CompositingError(d) => prefixed("Compositing failed: ", d.as_str()),
            RenderError::FontError(d) => prefixed("Font error: ", d.as_str()),
            RenderError::GpuError(d) => prefixed("GPU error: ", d.as_str()),
            RenderError::ResourceLimitExceeded(d) => prefixed("Resource limit exceeded: ", d.as_str()),
            RenderError::InvalidScript(d) => prefixed("Invalid script: ", d.as_str()),
            RenderError::ParseError(d) => prefixed("Parse error: ", d.as_str()),
            RenderError::InvalidInput(d) => prefixed("Invalid input: ", d.as_str()),
            RenderError::CoreError(d) => prefixed("Core error: ", d.as_str()),
            RenderError::InitializationError(d) => prefixed("Initialization error: ", d.as_str()),
            RenderError::IOError(d) => prefixed("IO error: ", d.as_str()),
            RenderError::InvalidState(d) => prefixed("Invalid state: ", d.as_str()),
            RenderError::UnsupportedOperation(d) => prefixed("Unsupported operation: ", d.as_str()),
        }
    }
}

} // verus!
