//! The errors that the daemon reports.
use crate::kernel::{
    is_required_syscall_errno, required_syscall_errno, MIN_VERSION, UNSUPPORTED_SYSCALL_MSG,
};
use crate::sys::ArchNumbers;
use crate::text::{contains_text, occurs_at, str_contains};
use vstd::prelude::*;

verus! {

/// The kinds of input/output error that the daemon tells apart.
#[derive(Debug, Clone, Copy, PartialEq, Eq, Structural)]
pub enum IoKind {
    Unsupported,
    InvalidInput,
    WriteZero,
    Other,
}

/// An input/output error: its number where the system gave one, its kind, and its text.
#[derive(Debug)]
pub struct IoError {
    pub raw_os_error: Option<i32>,
    pub kind: IoKind,
    pub text: String,
}

/// An `IoError` with its text as characters.
pub struct IoErrorView {
    pub raw_os_error: Option<i32>,
    pub kind: IoKind,
    pub text: Seq<char>,
}

impl View for IoError {
    type V = IoErrorView;

    open spec fn view(&self) -> IoErrorView {
        IoErrorView { raw_os_error: self.raw_os_error, kind: self.kind, text: self.text@ }
    }
}

/// An error of the daemon.
#[derive(Debug)]
pub enum AppError {
    Message(String),
    Io(IoError),
    Config(String),
    Netlink(String),
}

/// An `AppError` with its text as characters.
pub enum ErrorView {
    Message(Seq<char>),
    Io(IoErrorView),
    Config(Seq<char>),
    Netlink(Seq<char>),
}

impl View for AppError {
    type V = ErrorView;

    open spec fn view(&self) -> ErrorView {
        match self {
            AppError::Message(s) => ErrorView::Message(s@),
            AppError::Io(e) => ErrorView::Io(e@),
            AppError::Config(s) => ErrorView::Config(s@),
            AppError::Netlink(s) => ErrorView::Netlink(s@),
        }
    }
}

/// The text by which an error is shown.
pub open spec fn error_text(e: ErrorView) -> Seq<char> {
    match e {
        ErrorView::Message(s) => s,
        ErrorView::Io(e) => "io: "@ + e.text,
        ErrorView::Config(s) => "config: "@ + s,
        ErrorView::Netlink(s) => "netlink: "@ + s,
    }
}

/// What a kernel without a required system call is reported as.
pub open spec fn unsupported_text() -> Seq<char> {
    UNSUPPORTED_SYSCALL_MSG@ + "; required kernel >= "@ + MIN_VERSION@
}

fn unsupported_message() -> (r: String)
    ensures
        r@ == unsupported_text(),
{
    let mut s = String::new();
    s.append(UNSUPPORTED_SYSCALL_MSG);
    s.append("; required kernel >= ");
    s.append(MIN_VERSION);
    assert(s@ =~= unsupported_text());
    s
}

/// Whether an error number is one that names a missing system call.
pub open spec fn names_missing_syscall(e: IoErrorView, arch: ArchNumbers) -> bool {
    e.raw_os_error matches Some(code) && required_syscall_errno(code, arch)
}

/// How an error of a required system call is reported.
pub open spec fn required_syscall_error(e: IoErrorView, arch: ArchNumbers) -> ErrorView {
    if names_missing_syscall(e, arch) {
        ErrorView::Message(unsupported_text())
    } else {
        ErrorView::Io(e)
    }
}

/// An error with the number of a missing system call replaced by one that says so.
pub open spec fn mapped_syscall_error(e: IoErrorView, arch: ArchNumbers) -> IoErrorView {
    if names_missing_syscall(e, arch) {
        IoErrorView { raw_os_error: None, kind: IoKind::Unsupported, text: unsupported_text() }
    } else {
        e
    }
}

/// How an input/output error becomes an error of the daemon.
pub open spec fn error_of_io(e: IoErrorView) -> ErrorView {
    if e.kind == IoKind::Unsupported && contains_text(e.text, UNSUPPORTED_SYSCALL_MSG@) {
        ErrorView::Message(e.text)
    } else {
        ErrorView::Io(e)
    }
}

impl From<IoError> for AppError {
    fn from(value: IoError) -> (r: AppError) {
        if value.kind == IoKind::Unsupported && str_contains(
            value.text.as_str(),
            UNSUPPORTED_SYSCALL_MSG,
        ) {
            return AppError::Message(value.text);
        }
        AppError::Io(value)
    }
}

impl vstd::std_specs::convert::FromSpecImpl<IoError> for AppError {
    open spec fn obeys_from_spec() -> bool {
        true
    }

    open spec fn from_spec(value: IoError) -> AppError {
        if value.kind == IoKind::Unsupported && contains_text(
            value.text@,
            UNSUPPORTED_SYSCALL_MSG@,
        ) {
            AppError::Message(value.text)
        } else {
            AppError::Io(value)
        }
    }
}

impl AppError {
    /// A plain message.
    pub fn message(msg: &str) -> (r: AppError)
        ensures
            r@ == ErrorView::Message(msg@),
    {
        AppError::Message(msg.to_owned())
    }

    /// An error in the configuration.
    pub fn config(msg: &str) -> (r: AppError)
        ensures
            r@ == ErrorView::Config(msg@),
    {
        AppError::Config(msg.to_owned())
    }

    /// An error in the exchange with the kernel.
    pub fn netlink(msg: &str) -> (r: AppError)
        ensures
            r@ == ErrorView::Netlink(msg@),
    {
        AppError::Netlink(msg.to_owned())
    }

    /// The error of a system call that the daemon cannot do without.
    pub fn from_required_syscall_io(err: IoError, arch: ArchNumbers) -> (r: AppError)
        ensures
            r@ == required_syscall_error(err@, arch),
    {
        if let Some(code) = err.raw_os_error {
            if is_required_syscall_errno(code, arch) {
                return AppError::Message(unsupported_message());
            }
        }
        AppError::Io(err)
    }

    /// The text by which the error is shown.
    pub fn to_text(&self) -> (r: String)
        ensures
            r@ == error_text(self@),
    {
        let mut s = String::new();
        match self {
            AppError::Message(m) => {
                s.append(m.as_str());
            },
            AppError::Io(e) => {
                s.append("io: ");
                s.append(e.text.as_str());
            },
            AppError::Config(m) => {
                s.append("config: ");
                s.append(m.as_str());
            },
            AppError::Netlink(m) => {
                s.append("netlink: ");
                s.append(m.as_str());
            },
        }
        assert(s@ =~= error_text(self@));
        s
    }
}

/// Replaces an error that names a missing system call by one that says which kernel is needed.
pub fn map_required_syscall_io(err: IoError, arch: ArchNumbers) -> (r: IoError)
    ensures
        r@ == mapped_syscall_error(err@, arch),
{
    if let Some(code) = err.raw_os_error {
        if is_required_syscall_errno(code, arch) {
            return IoError {
                raw_os_error: None,
                kind: IoKind::Unsupported,
                text: unsupported_message(),
            };
        }
    }
    err
}

/// The conversion of an input/output error is what `error_of_io` says of its view.
pub proof fn from_io_view(e: IoError)
    ensures
        <AppError as vstd::std_specs::convert::FromSpec<IoError>>::from_spec(e)@ == error_of_io(
            e@,
        ),
{
}

/// A missing system call is reported in the same words whether its error is converted at once or
/// is mapped on its way through the socket layer first.
pub proof fn missing_syscall_reported_alike(e: IoErrorView, arch: ArchNumbers)
    requires
        names_missing_syscall(e, arch),
    ensures
        error_of_io(mapped_syscall_error(e, arch)) == required_syscall_error(e, arch),
{
    let text = unsupported_text();
    let msg = UNSUPPORTED_SYSCALL_MSG@;
    assert(text.subrange(0, msg.len() as int) =~= msg);
    assert(occurs_at(text, msg, 0));
}

} // verus!
