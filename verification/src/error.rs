//! The unified error type.
use vstd::prelude::*;

use crate::text::{dec, owned, push_decimal, push_str};

verus! {

/// `std::io::Error`, carried through as an opaque value.
#[verifier::external_type_specification]
#[verifier::external_body]
pub struct ExIoError(std::io::Error);

/// The category of an I/O error (the cases of `std::io::ErrorKind` this
/// library tells apart).
#[derive(Debug, Clone, Copy, PartialEq, Eq, Structural)]
pub enum IoErrorKind {
    NotFound,
    PermissionDenied,
    AlreadyExists,
    WouldBlock,
    InvalidInput,
    InvalidData,
    TimedOut,
    Interrupted,
    Unsupported,
    UnexpectedEof,
    OutOfMemory,
    Other,
    /// Any other kind.
    Uncategorized,
}

/// An I/O error as this library keeps it: its kind, the OS error code it
/// came from (if any) and its message.
#[derive(Debug, Clone, PartialEq, Eq)]
pub struct IoError {
    pub kind: IoErrorKind,
    pub os_code: Option<i32>,
    pub message: String,
}

/// The category a `std::io::Error` has (what `std::io::Error::kind`
/// returns), as `IoErrorKind`. It depends on the error value alone.
pub uninterp spec fn io_error_kind(e: std::io::Error) -> IoErrorKind;

/// The category of a `std::io::Error` (`std::io::Error::kind`), mapped to
/// `IoErrorKind` one variant for one: the contract claims the result is the
/// category the error has.
#[verifier::external_body]
fn std_error_kind(e: &std::io::Error) -> (r: IoErrorKind)
    ensures
        r == io_error_kind(*e),
{
    match e.kind() {
        std::io::ErrorKind::NotFound => IoErrorKind::NotFound,
        std::io::ErrorKind::PermissionDenied => IoErrorKind::PermissionDenied,
        std::io::ErrorKind::AlreadyExists => IoErrorKind::AlreadyExists,
        std::io::ErrorKind::WouldBlock => IoErrorKind::WouldBlock,
        std::io::ErrorKind::InvalidInput => IoErrorKind::InvalidInput,
        std::io::ErrorKind::InvalidData => IoErrorKind::InvalidData,
        std::io::ErrorKind::TimedOut => IoErrorKind::TimedOut,
        std::io::ErrorKind::Interrupted => IoErrorKind::Interrupted,
        std::io::ErrorKind::Unsupported => IoErrorKind::Unsupported,
        std::io::ErrorKind::UnexpectedEof => IoErrorKind::UnexpectedEof,
        std::io::ErrorKind::OutOfMemory => IoErrorKind::OutOfMemory,
        std::io::ErrorKind::Other => IoErrorKind::Other,
        _ => IoErrorKind::Uncategorized,
    }
}

/// The OS error code a `std::io::Error` carries (what
/// `std::io::Error::raw_os_error` returns): the code it was made from, or
/// `None` for an error not made from an OS code. It depends on the error
/// value alone.
pub uninterp spec fn io_os_code(e: std::io::Error) -> Option<i32>;

/// The OS error code of a `std::io::Error` (`std::io::Error::raw_os_error`):
/// the contract claims the result is the code the error carries.
#[verifier::external_body]
fn std_error_code(e: &std::io::Error) -> (r: Option<i32>)
    ensures
        r == io_os_code(*e),
{
    e.raw_os_error()
}

impl IoError {
    /// Create an error of the given kind with a message.
    pub fn new(kind: IoErrorKind, message: &str) -> (r: IoError)
        ensures
            r.kind == kind,
            r.os_code is None,
            r.message@ == message@,
    {
        IoError { kind, os_code: Option::None, message: owned(message) }
    }

    /// Take over a standard I/O error: its kind, OS code and display text.
    /// The message is the error's display text (`ToString::to_string`), and
    /// the kind and OS code are the ones the error has.
    pub fn from_std(e: std::io::Error) -> (r: IoError)
        ensures
            displays_as(&e, r.message),
            r.os_code == io_os_code(e),
            r.kind == io_error_kind(e),
    {
        let kind = std_error_kind(&e);
        let os_code = std_error_code(&e);
        let message = e.to_string();
        IoError { kind, os_code, message }
    }
}

/// Whether `text` is the display text of the I/O error `e`.
pub open spec fn displays_as(e: &std::io::Error, text: String) -> bool {
    vstd::string::to_string_from_display_ensures::<std::io::Error>(e, text)
}

/// Unified error type for all operations of this library.
#[derive(Debug)]
pub enum NumaError {
    /// The requested memory policy is not supported on this kernel.
    PolicyNotSupported { policy: String, reason: String },
    /// A required capability is missing.
    CapabilityMissing { capability: &'static str },
    /// Hard mode was requested but cannot be enforced.
    HardModeUnavailable { feature: &'static str, reason: String },
    /// Topology discovery failed.
    TopologyError { source: IoError },
    /// Memory allocation or mapping failed.
    AllocationFailed { size: usize, source: IoError },
    /// Thread pinning failed.
    PinningFailed { source: IoError },
    /// Memory binding (mbind) failed.
    BindFailed { source: IoError },
    /// An invalid argument was provided.
    InvalidArgument { message: String },
    /// Platform does not support the requested feature.
    NotSupported { feature: &'static str },
    /// Generic I/O error.
    Io(IoError),
}

/// The display text of a `NumaError`.
pub open spec fn error_text(e: NumaError) -> Seq<char> {
    match e {
        NumaError::PolicyNotSupported { reason, .. } => "memory policy not supported: "@ + reason@,
        NumaError::CapabilityMissing { capability } => "missing capability: "@ + capability@,
        NumaError::HardModeUnavailable { feature, reason } => "hard mode unavailable for "@ + feature@
            + ": "@ + reason@,
        NumaError::TopologyError { source } => "topology discovery failed: "@ + source.message@,
        NumaError::AllocationFailed { size, source } => "allocation of "@ + dec(size as nat)
            + " bytes failed: "@ + source.message@,
        NumaError::PinningFailed { source } => "thread pinning failed: "@ + source.message@,
        NumaError::BindFailed { source } => "memory binding failed: "@ + source.message@,
        NumaError::InvalidArgument { message } => "invalid argument: "@ + message@,
        NumaError::NotSupported { feature } => "feature not supported on this platform: "@ + feature@,
        NumaError::Io(source) => "I/O error: "@ + source.message@,
    }
}

impl NumaError {
    /// Create a topology error from an I/O error.
    pub fn topology(source: std::io::Error) -> (r: Self)
        ensures
            r matches NumaError::TopologyError { source: s } && displays_as(&source, s.message) && s.os_code
                == io_os_code(source) && s.kind == io_error_kind(source),
    {
        NumaError::TopologyError { source: IoError::from_std(source) }
    }

    /// Create an allocation error.
    pub fn allocation(size: usize, source: std::io::Error) -> (r: Self)
        ensures
            r matches NumaError::AllocationFailed { size: n, source: s } && n == size && displays_as(
                &source,
                s.message,
            ) && s.os_code == io_os_code(source) && s.kind == io_error_kind(source),
    {
        NumaError::AllocationFailed { size, source: IoError::from_std(source) }
    }

    /// Create a pinning error from an I/O error.
    pub fn pinning(source: std::io::Error) -> (r: Self)
        ensures
            r matches NumaError::PinningFailed { source: s } && displays_as(&source, s.message) && s.os_code
                == io_os_code(source) && s.kind == io_error_kind(source),
    {
        NumaError::PinningFailed { source: IoError::from_std(source) }
    }

    /// Create a bind error from an I/O error.
    pub fn bind(source: std::io::Error) -> (r: Self)
        ensures
            r matches NumaError::BindFailed { source: s } && displays_as(&source, s.message) && s.os_code
                == io_os_code(source) && s.kind == io_error_kind(source),
    {
        NumaError::BindFailed { source: IoError::from_std(source) }
    }

    /// Create a policy not supported error.
    pub fn policy_not_supported(policy: &str, reason: &str) -> (r: Self)
        ensures
            r matches NumaError::PolicyNotSupported { policy: p, reason: q } && p@ == policy@ && q@
                == reason@,
    {
        NumaError::PolicyNotSupported { policy: owned(policy), reason: owned(reason) }
    }

    /// Create a hard mode unavailable error.
    pub fn hard_mode_unavailable(feature: &'static str, reason: &str) -> (r: Self)
        ensures
            r matches NumaError::HardModeUnavailable { feature: f, reason: q } && f == feature && q@
                == reason@,
    {
        NumaError::HardModeUnavailable { feature, reason: owned(reason) }
    }

    /// Create an invalid argument error.
    pub fn invalid_argument(message: &str) -> (r: Self)
        ensures
            r matches NumaError::InvalidArgument { message: m } && m@ == message@,
    {
        NumaError::InvalidArgument { message: owned(message) }
    }

    /// Whether this error comes from a permission problem: a missing
    /// capability, or an I/O error whose kind is `PermissionDenied`.
    pub open spec fn permission_problem(&self) -> bool {
        match self {
            NumaError::CapabilityMissing { .. } => true,
            NumaError::TopologyError { source } => source.kind == IoErrorKind::PermissionDenied,
            NumaError::AllocationFailed { source, .. } => source.kind == IoErrorKind::PermissionDenied,
            NumaError::PinningFailed { source } => source.kind == IoErrorKind::PermissionDenied,
            NumaError::BindFailed { source } => source.kind == IoErrorKind::PermissionDenied,
            NumaError::Io(source) => source.kind == IoErrorKind::PermissionDenied,
            _ => false,
        }
    }

    /// Check if this error indicates a permission issue.
    pub fn is_permission_error(&self) -> (r: bool)
        ensures
            r == self.permission_problem(),
    {
        match self {
            NumaError::CapabilityMissing { .. } => true,
            NumaError::TopologyError { source } => source.kind == IoErrorKind::PermissionDenied,
            NumaError::AllocationFailed { source, .. } => source.kind == IoErrorKind::PermissionDenied,
            NumaError::PinningFailed { source } => source.kind == IoErrorKind::PermissionDenied,
            NumaError::BindFailed { source } => source.kind == IoErrorKind::PermissionDenied,
            NumaError::Io(source) => source.kind == IoErrorKind::PermissionDenied,
            _ => false,
        }
    }

    /// Check if this error indicates the feature is not supported.
    pub fn is_not_supported(&self) -> (r: bool)
        ensures
            r == (self is NotSupported || self is PolicyNotSupported),
    {
        matches!(self, NumaError::NotSupported { .. } | NumaError::PolicyNotSupported { .. })
    }

    /// The error message.
    pub fn to_string(&self) -> (r: String)
        ensures
            r@ == error_text(*self),
    {
        let mut s = String::new();
        match self {
            NumaError::PolicyNotSupported { reason, .. } => {
                push_str(&mut s, "memory policy not supported: ");
                push_str(&mut s, reason.as_str());
            },
            NumaError::CapabilityMissing { capability } => {
                push_str(&mut s, "missing capability: ");
                push_str(&mut s, capability);
            },
            NumaError::HardModeUnavailable { feature, reason } => {
                push_str(&mut s, "hard mode unavailable for ");
                push_str(&mut s, feature);
                push_str(&mut s, ": ");
                push_str(&mut s, reason.as_str());
            },
            NumaError::TopologyError { source } => {
                push_str(&mut s, "topology discovery failed: ");
                push_str(&mut s, source.message.as_str());
            },
            NumaError::AllocationFailed { size, source } => {
                push_str(&mut s, "allocation of ");
                push_decimal(&mut s, *size as u64);
                push_str(&mut s, " bytes failed: ");
                push_str(&mut s, source.message.as_str());
            },
            NumaError::PinningFailed { source } => {
                push_str(&mut s, "thread pinning failed: ");
                push_str(&mut s, source.message.as_str());
            },
            NumaError::BindFailed { source } => {
                push_str(&mut s, "memory binding failed: ");
                push_str(&mut s, source.message.as_str());
            },
            NumaError::InvalidArgument { message } => {
                push_str(&mut s, "invalid argument: ");
                push_str(&mut s, message.as_str());
            },
            NumaError::NotSupported { feature } => {
                push_str(&mut s, "feature not supported on this platform: ");
                push_str(&mut s, feature);
            },
            NumaError::Io(source) => {
                push_str(&mut s, "I/O error: ");
                push_str(&mut s, source.message.as_str());
            },
        }
        assert(s@ =~= error_text(*self));
        s
    }
}

/// The C interface's code of an error.
pub open spec fn code_of(e: NumaError) -> int {
    match e {
        NumaError::InvalidArgument { .. } => -1,
        NumaError::TopologyError { .. } => -2,
        NumaError::AllocationFailed { .. } => -3,
        NumaError::PinningFailed { .. } => -4,
        NumaError::PolicyNotSupported { .. } => -5,
        NumaError::CapabilityMissing { .. } => -6,
        NumaError::HardModeUnavailable { .. } => -7,
        NumaError::NotSupported { .. } => -8,
        NumaError::Io(_) => -9,
        NumaError::BindFailed { .. } => -9,
    }
}

/// The code by which the C interface reports an error (negative; I/O and
/// binding failures share -9).
pub fn error_code(e: &NumaError) -> (r: i32)
    ensures
        r as int == code_of(*e),
{
    match e {
        NumaError::InvalidArgument { .. } => -1,
        NumaError::TopologyError { .. } => -2,
        NumaError::AllocationFailed { .. } => -3,
        NumaError::PinningFailed { .. } => -4,
        NumaError::PolicyNotSupported { .. } => -5,
        NumaError::CapabilityMissing { .. } => -6,
        NumaError::HardModeUnavailable { .. } => -7,
        NumaError::NotSupported { .. } => -8,
        NumaError::Io(_) => -9,
        NumaError::BindFailed { .. } => -9,
    }
}

/// The description of a C interface code.
pub open spec fn code_text(code: int) -> Seq<char> {
    if code == 0 {
        "success"@
    } else if code == -1 {
        "invalid argument"@
    } else if code == -2 {
        "topology discovery failed"@
    } else if code == -3 {
        "allocation failed"@
    } else if code == -4 {
        "thread pinning failed"@
    } else if code == -5 {
        "memory policy not supported"@
    } else if code == -6 {
        "missing capability"@
    } else if code == -7 {
        "hard mode unavailable"@
    } else if code == -8 {
        "feature not supported on this platform"@
    } else if code == -9 {
        "I/O error"@
    } else {
        "unknown error"@
    }
}

/// The description of a C interface code ("unknown error" for codes that
/// name none).
pub fn error_code_text(code: i32) -> (r: &'static str)
    ensures
        r@ == code_text(code as int),
{
    if code == 0 {
        "success"
    } else if code == -1 {
        "invalid argument"
    } else if code == -2 {
        "topology discovery failed"
    } else if code == -3 {
        "allocation failed"
    } else if code == -4 {
        "thread pinning failed"
    } else if code == -5 {
        "memory policy not supported"
    } else if code == -6 {
        "missing capability"
    } else if code == -7 {
        "hard mode unavailable"
    } else if code == -8 {
        "feature not supported on this platform"
    } else if code == -9 {
        "I/O error"
    } else {
        "unknown error"
    }
}

} // verus!
