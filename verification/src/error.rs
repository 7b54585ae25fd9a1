//! What can go wrong, and how it is answered.

use vstd::prelude::*;

use crate::sandbox::SandboxState;
#[allow(unused_imports)]
use crate::text;
use crate::text::{join2, join3, render_decimal};

verus! {

/// An error of the runtime.
#[derive(Debug)]
pub enum DenError {
    /// The Docker daemon or its client failed, with this message.
    Docker(String),
    FileNotFound { path: String },
    SandboxNotFound { id: String },
    InvalidState { id: String, current: SandboxState, operation: String },
    PoolExhausted { tier: String },
    InsufficientResources { reason: String },
    TierNotFound { tier: String },
    /// A sandbox already runs as many commands at once as its tier allows.
    TooManyExecs { id: String, limit: usize },
    Timeout { seconds: u64 },
    Proxy(String),
    Config(String),
    Other(String),
}

/// The mathematical counterpart of [`DenError`].
pub enum ErrorView {
    Docker(Seq<char>),
    FileNotFound { path: Seq<char> },
    SandboxNotFound { id: Seq<char> },
    InvalidState { id: Seq<char>, current: SandboxState, operation: Seq<char> },
    PoolExhausted { tier: Seq<char> },
    InsufficientResources { reason: Seq<char> },
    TierNotFound { tier: Seq<char> },
    TooManyExecs { id: Seq<char>, limit: nat },
    Timeout { seconds: u64 },
    Proxy(Seq<char>),
    Config(Seq<char>),
    Other(Seq<char>),
}

impl View for DenError {
    type V = ErrorView;

    open spec fn view(&self) -> ErrorView {
        match *self {
            DenError::Docker(m) => ErrorView::Docker(m@),
            DenError::FileNotFound { path } => ErrorView::FileNotFound { path: path@ },
            DenError::SandboxNotFound { id } => ErrorView::SandboxNotFound { id: id@ },
            DenError::InvalidState { id, current, operation } => ErrorView::InvalidState {
                id: id@,
                current,
                operation: operation@,
            },
            DenError::PoolExhausted { tier } => ErrorView::PoolExhausted { tier: tier@ },
            DenError::InsufficientResources { reason } => ErrorView::InsufficientResources {
                reason: reason@,
            },
            DenError::TierNotFound { tier } => ErrorView::TierNotFound { tier: tier@ },
            DenError::TooManyExecs { id, limit } => ErrorView::TooManyExecs {
                id: id@,
                limit: limit as nat,
            },
            DenError::Timeout { seconds } => ErrorView::Timeout { seconds },
            DenError::Proxy(m) => ErrorView::Proxy(m@),
            DenError::Config(m) => ErrorView::Config(m@),
            DenError::Other(m) => ErrorView::Other(m@),
        }
    }
}

/// HTTP status that an error is answered with.
pub open spec fn status_of(e: ErrorView) -> u16 {
    match e {
        ErrorView::FileNotFound { .. } => 404,
        ErrorView::SandboxNotFound { .. } => 404,
        ErrorView::TierNotFound { .. } => 404,
        ErrorView::InvalidState { .. } => 409,
        ErrorView::TooManyExecs { .. } => 429,
        ErrorView::PoolExhausted { .. } => 503,
        ErrorView::InsufficientResources { .. } => 503,
        ErrorView::Timeout { .. } => 504,
        _ => 500,
    }
}

/// Text that an error is answered with.
pub open spec fn message_of(e: ErrorView) -> Seq<char> {
    match e {
        ErrorView::Docker(m) => "docker: "@ + m,
        ErrorView::FileNotFound { path } => "file not found: "@ + path,
        ErrorView::SandboxNotFound { id } => "sandbox "@ + id + " not found"@,
        ErrorView::InvalidState { id, current, operation } => "sandbox "@ + id + " in state "@
            + current.name_text() + ", cannot "@ + operation,
        ErrorView::PoolExhausted { tier } => "no sandboxes available for tier "@ + tier,
        ErrorView::InsufficientResources { reason } => "insufficient resources: "@ + reason,
        ErrorView::TierNotFound { tier } => "tier "@ + tier + " not found"@,
        ErrorView::TooManyExecs { id, limit } => "sandbox "@ + id
            + " has reached its limit of concurrent execs: "@ + text::decimal(limit),
        ErrorView::Timeout { seconds } => "timeout after "@ + text::decimal(seconds as nat) + "s"@,
        ErrorView::Proxy(m) => "proxy: "@ + m,
        ErrorView::Config(m) => "config: "@ + m,
        ErrorView::Other(m) => m,
    }
}

impl DenError {
    /// HTTP status of the answer.
    pub fn status(&self) -> (r: u16)
        ensures
            r == status_of(self@),
    {
        match self {
            DenError::FileNotFound { .. } => 404,
            DenError::SandboxNotFound { .. } => 404,
            DenError::TierNotFound { .. } => 404,
            DenError::PoolExhausted { .. } => 503,
            DenError::InvalidState { .. } => 409,
            DenError::InsufficientResources { .. } => 503,
            DenError::TooManyExecs { .. } => 429,
            DenError::Timeout { .. } => 504,
            _ => 500,
        }
    }

    /// Text of the answer.
    pub fn message(&self) -> (r: String)
        ensures
            r@ == message_of(self@),
    {
        match self {
            DenError::Docker(m) => join2("docker: ", m.as_str()),
            DenError::FileNotFound { path } => join2("file not found: ", path.as_str()),
            DenError::SandboxNotFound { id } => join3("sandbox ", id.as_str(), " not found"),
            DenError::InvalidState { id, current, operation } => {
                let mut out = join3("sandbox ", id.as_str(), " in state ");
                out.append(current.name());
                out.append(", cannot ");
                out.append(operation.as_str());
                out
            },
            DenError::PoolExhausted { tier } => join2(
                "no sandboxes available for tier ",
                tier.as_str(),
            ),
            DenError::InsufficientResources { reason } => join2(
                "insufficient resources: ",
                reason.as_str(),
            ),
            DenError::TierNotFound { tier } => join3("tier ", tier.as_str(), " not found"),
            DenError::TooManyExecs { id, limit } => {
                let mut out = join3(
                    "sandbox ",
                    id.as_str(),
                    " has reached its limit of concurrent execs: ",
                );
                out.append(render_decimal(*limit as u64).as_str());
                out
            },
            DenError::Timeout { seconds } => join3(
                "timeout after ",
                render_decimal(*seconds).as_str(),
                "s",
            ),
            DenError::Proxy(m) => join2("proxy: ", m.as_str()),
            DenError::Config(m) => join2("config: ", m.as_str()),
            DenError::Other(m) => m.clone(),
        }
    }
}

/// Every error is answered as a failure of the request or of the server.
pub proof fn errors_are_answered_as_errors(e: ErrorView)
    ensures
        400 <= status_of(e) < 600,
{
}

/// What is missing is answered with 404, what is not possible in the present state
/// with 409, too many commands with 429, a lack of containers or of room with 503,
/// a command that took too long with 504, and anything else with 500.
pub proof fn statuses_tell_the_kind_of_error(e: ErrorView)
    ensures
        status_of(e) == 404 <==> e is FileNotFound || e is SandboxNotFound || e is TierNotFound,
        status_of(e) == 409 <==> e is InvalidState,
        status_of(e) == 429 <==> e is TooManyExecs,
        status_of(e) == 503 <==> e is PoolExhausted || e is InsufficientResources,
        status_of(e) == 504 <==> e is Timeout,
        status_of(e) == 500 <==> e is Docker || e is Proxy || e is Config || e is Other,
{
}

/// The text of an answer holds, whole and in its place, what the error is about.
pub proof fn messages_hold_what_the_error_is_about(
    m: Seq<char>,
    id: Seq<char>,
    state: SandboxState,
    operation: Seq<char>,
    limit: nat,
    seconds: u64,
)
    ensures
        message_of(ErrorView::Other(m)) == m,
        message_of(ErrorView::Docker(m)) == "docker: "@ + m,
        message_of(ErrorView::Proxy(m)) == "proxy: "@ + m,
        message_of(ErrorView::Config(m)) == "config: "@ + m,
        message_of(ErrorView::FileNotFound { path: m }) == "file not found: "@ + m,
        message_of(ErrorView::SandboxNotFound { id }) == "sandbox "@ + id + " not found"@,
        message_of(ErrorView::TierNotFound { tier: m }) == "tier "@ + m + " not found"@,
        message_of(ErrorView::PoolExhausted { tier: m }) == "no sandboxes available for tier "@ + m,
        message_of(ErrorView::InsufficientResources { reason: m }) == "insufficient resources: "@
            + m,
        message_of(ErrorView::InvalidState { id, current: state, operation }) == "sandbox "@ + id
            + " in state "@ + state.name_text() + ", cannot "@ + operation,
        message_of(ErrorView::TooManyExecs { id, limit }) == "sandbox "@ + id
            + " has reached its limit of concurrent execs: "@ + text::decimal(limit),
        message_of(ErrorView::Timeout { seconds }) == "timeout after "@ + text::decimal(
            seconds as nat,
        ) + "s"@,
{
}

/// The view of an error shows its variant and each of its fields.
pub proof fn the_view_shows_the_error(e: DenError)
    ensures
        e matches DenError::Docker(m) ==> e@ == ErrorView::Docker(m@),
        e matches DenError::FileNotFound { path } ==> e@ == (ErrorView::FileNotFound {
            path: path@,
        }),
        e matches DenError::SandboxNotFound { id } ==> e@ == (ErrorView::SandboxNotFound {
            id: id@,
        }),
        e matches DenError::InvalidState { id, current, operation } ==> e@ == (
        ErrorView::InvalidState { id: id@, current, operation: operation@ }),
        e matches DenError::PoolExhausted { tier } ==> e@ == (ErrorView::PoolExhausted {
            tier: tier@,
        }),
        e matches DenError::InsufficientResources { reason } ==> e@ == (
        ErrorView::InsufficientResources { reason: reason@ }),
        e matches DenError::TierNotFound { tier } ==> e@ == (ErrorView::TierNotFound {
            tier: tier@,
        }),
        e matches DenError::TooManyExecs { id, limit } ==> e@ == (ErrorView::TooManyExecs {
            id: id@,
            limit: limit as nat,
        }),
        e matches DenError::Timeout { seconds } ==> e@ == (ErrorView::Timeout { seconds }),
        e matches DenError::Proxy(m) ==> e@ == ErrorView::Proxy(m@),
        e matches DenError::Config(m) ==> e@ == ErrorView::Config(m@),
        e matches DenError::Other(m) ==> e@ == ErrorView::Other(m@),
{
}

/// Every error is answered with its status and its message.
pub proof fn errors_are_answered(e: &DenError, status: u16, message: String)
    requires
        call_ensures(DenError::status, (e,), status),
        call_ensures(DenError::message, (e,), message),
    ensures
        *e is SandboxNotFound || *e is TierNotFound || *e is FileNotFound ==> status == 404,
        *e is InvalidState ==> status == 409,
        *e is TooManyExecs ==> status == 429,
        *e is PoolExhausted || *e is InsufficientResources ==> status == 503,
        *e is Timeout ==> status == 504,
        *e is Docker || *e is Proxy || *e is Config || *e is Other ==> status == 500,
        message@ == message_of(e@),
{
    the_view_shows_the_error(*e);
}

} // verus!
