use vstd::prelude::*;

use crate::text::{decimal, push_char, push_decimal, push_str};

verus! {

/// Why an extraction step failed.
#[derive(Debug, Clone, PartialEq, Eq)]
pub enum ExtractError {
    /// A path outside the workspace, or one that cannot be used.
    InvalidPath { path: String, workspace_root: String, message: String },
    /// A provider answered with a shape the extractor does not accept.
    ResponseShape { provider: String, method: String, message: String },
    /// A provider answered a request with a protocol error.
    Protocol { provider: String, method: String, code: Option<i64>, message: String },
    /// Reading or decoding input failed.
    Io { context: String, path: Option<String>, message: String },
    /// JSON input could not be parsed.
    Json { context: String, message: String },
    /// A provider process failed.
    Process { provider: String, binary: String, message: String },
}

/// A string with the characters of `s`.
fn owned(s: &str) -> (r: String)
    ensures
        r@ == s@,
{
    let mut r = String::new();
    push_str(&mut r, s);
    r
}

/// The decimal rendering of a signed integer.
pub open spec fn signed_decimal(n: int) -> Seq<char> {
    if n < 0 {
        seq!['-'] + decimal((-n) as nat)
    } else {
        decimal(n as nat)
    }
}

/// The text of an error, as shown to users.
pub open spec fn spec_error_text(e: ExtractError) -> Seq<char> {
    match e {
        ExtractError::InvalidPath { path, workspace_root, message } => "invalid path "@ + path@
            + " under workspace root "@ + workspace_root@ + ": "@ + message@,
        ExtractError::ResponseShape { provider, method, message } => provider@ + " "@ + method@
            + " returned an unexpected response shape: "@ + message@,
        ExtractError::Protocol { provider, method, code, message } => provider@ + " "@ + method@
            + " failed with protocol error"@ + match code {
            Some(c) => " "@ + signed_decimal(c as int),
            None => Seq::<char>::empty(),
        } + ": "@ + message@,
        ExtractError::Io { context, path, message } => context@ + match path {
            Some(p) => " ("@ + p@ + ")"@,
            None => Seq::<char>::empty(),
        } + ": "@ + message@,
        ExtractError::Json { context, message } => context@ + ": "@ + message@,
        ExtractError::Process { provider, binary, message } => provider@ + " process "@ + binary@
            + " failed: "@ + message@,
    }
}

/// Appends the decimal rendering of a signed integer.
pub(crate) fn push_signed_decimal(s: &mut String, n: i64)
    ensures
        final(s)@ == old(s)@ + signed_decimal(n as int),
{
    if n < 0 {
        push_char(s, '-');
        let magnitude: u64 = if n == i64::MIN {
            9223372036854775808u64
        } else {
            (-n) as u64
        };
        push_decimal_u64(s, magnitude);
        assert(s@ =~= old(s)@ + signed_decimal(n as int));
    } else {
        push_decimal_u64(s, n as u64);
    }
}

/// Appends the decimal rendering of a `u64`.
fn push_decimal_u64(s: &mut String, n: u64)
    ensures
        final(s)@ == old(s)@ + decimal(n as nat),
    decreases n,
{
    if n < 10 {
        push_decimal(s, n as usize);
    } else {
        push_decimal_u64(s, n / 10);
        push_decimal(s, (n % 10) as usize);
        assert(decimal((n % 10) as nat) =~= seq![crate::text::digit_char((n % 10) as nat)]);
        assert(s@ =~= old(s)@ + decimal(n as nat));
    }
}

impl ExtractError {
    /// A provider response of the wrong shape.
    pub fn response_shape(provider: &str, method: &str, message: &str) -> (e: Self)
        ensures
            e matches ExtractError::ResponseShape { provider: p, method: m, message: msg } && p@
                == provider@ && m@ == method@ && msg@ == message@,
    {
        ExtractError::ResponseShape {
            provider: owned(provider),
            method: owned(method),
            message: owned(message),
        }
    }

    /// A protocol error answered by a provider, with its error code.
    pub fn protocol(provider: &str, method: &str, code: Option<i64>, message: &str) -> (e: Self)
        ensures
            e matches ExtractError::Protocol { provider: p, method: m, code: c, message: msg } && p@
                == provider@ && m@ == method@ && c == code && msg@ == message@,
    {
        ExtractError::Protocol {
            provider: owned(provider),
            method: owned(method),
            code,
            message: owned(message),
        }
    }

    /// An unusable path.
    pub fn invalid_path(path: &str, workspace_root: &str, message: &str) -> (e: Self)
        ensures
            e matches ExtractError::InvalidPath { path: p, workspace_root: w, message: msg } && p@
                == path@ && w@ == workspace_root@ && msg@ == message@,
    {
        ExtractError::InvalidPath {
            path: owned(path),
            workspace_root: owned(workspace_root),
            message: owned(message),
        }
    }

    /// JSON that could not be parsed.
    pub fn json(context: &str, message: &str) -> (e: Self)
        ensures
            e matches ExtractError::Json { context: c, message: msg } && c@ == context@ && msg@
                == message@,
    {
        ExtractError::Json { context: owned(context), message: owned(message) }
    }

    /// The text of the error, as shown to users.
    pub fn to_display_string(&self) -> (text: String)
        ensures
            text@ == spec_error_text(*self),
    {
        let mut text = String::new();
        match self {
            ExtractError::InvalidPath { path, workspace_root, message } => {
                push_str(&mut text, "invalid path ");
                push_str(&mut text, path.as_str());
                push_str(&mut text, " under workspace root ");
                push_str(&mut text, workspace_root.as_str());
                push_str(&mut text, ": ");
                push_str(&mut text, message.as_str());
            },
            ExtractError::ResponseShape { provider, method, message } => {
                push_str(&mut text, provider.as_str());
                push_str(&mut text, " ");
                push_str(&mut text, method.as_str());
                push_str(&mut text, " returned an unexpected response shape: ");
                push_str(&mut text, message.as_str());
            },
            ExtractError::Protocol { provider, method, code, message } => {
                push_str(&mut text, provider.as_str());
                push_str(&mut text, " ");
                push_str(&mut text, method.as_str());
                push_str(&mut text, " failed with protocol error");
                match code {
                    Some(c) => {
                        push_str(&mut text, " ");
                        push_signed_decimal(&mut text, *c);
                    },
                    None => {},
                }
                push_str(&mut text, ": ");
                push_str(&mut text, message.as_str());
            },
            ExtractError::Io { context, path, message } => {
                push_str(&mut text, context.as_str());
                match path {
                    Some(p) => {
                        push_str(&mut text, " (");
                        push_str(&mut text, p.as_str());
                        push_str(&mut text, ")");
                    },
                    None => {},
                }
                push_str(&mut text, ": ");
                push_str(&mut text, message.as_str());
            },
            ExtractError::Json { context, message } => {
                push_str(&mut text, context.as_str());
                push_str(&mut text, ": ");
                push_str(&mut text, message.as_str());
            },
            ExtractError::Process { provider, binary, message } => {
                push_str(&mut text, provider.as_str());
                push_str(&mut text, " process ");
                push_str(&mut text, binary.as_str());
                push_str(&mut text, " failed: ");
                push_str(&mut text, message.as_str());
            },
        }
        proof {
            assert(text@ =~= spec_error_text(*self));
        }
        text
    }
}

} // verus!
