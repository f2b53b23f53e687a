//! What can go wrong while a server's files are listed.
use iri_string::validate::Error as ValidateError;
use jiff::Error as JiffError;
use suppaftp::FtpError;
use suppaftp::list::ParseError as ListParseError;
use vstd::prelude::*;

verus! {

/// The crate `suppaftp`'s error of a command.
#[verifier::external_type_specification]
#[verifier::external_body]
pub struct ExFtpError(suppaftp::FtpError);

/// The crate `suppaftp`'s error for a line that is no line of a `LIST` reply.
#[verifier::external_type_specification]
#[verifier::external_body]
pub struct ExListParseError(ListParseError);

/// The crate `jiff`'s error for text that is no time.
#[verifier::external_type_specification]
#[verifier::external_body]
pub struct ExJiffError(JiffError);

/// Why the files of a server cannot be listed.
#[derive(Debug)]
pub enum Error {
    /// A path or a name makes no URL.
    Url(ValidateError),
    /// A command failed.
    Ftp(FtpError),
    /// The reply to `MLST` or `MLSD` cannot be understood.
    MlstParse(String),
    /// The reply to `LIST` cannot be understood.
    ListParse(ListParseError),
    /// A time in a reply cannot be understood.
    Timestamp(JiffError),
    /// Anything else.
    Other(&'static str),
}

/// What an `Error` says, with its message as text.
pub enum ErrorView {
    Url(ValidateError),
    Ftp(FtpError),
    MlstParse(Seq<char>),
    ListParse(ListParseError),
    Timestamp(JiffError),
    Other(Seq<char>),
}

impl View for Error {
    type V = ErrorView;

    open spec fn view(&self) -> ErrorView {
        match *self {
            Error::Url(error) => ErrorView::Url(error),
            Error::Ftp(error) => ErrorView::Ftp(error),
            Error::MlstParse(message) => ErrorView::MlstParse(message@),
            Error::ListParse(error) => ErrorView::ListParse(error),
            Error::Timestamp(error) => ErrorView::Timestamp(error),
            Error::Other(message) => ErrorView::Other(message@),
        }
    }
}

impl From<ValidateError> for Error {
    fn from(error: ValidateError) -> (r: Self) {
        Error::Url(error)
    }
}

impl vstd::std_specs::convert::FromSpecImpl<ValidateError> for Error {
    open spec fn obeys_from_spec() -> bool {
        true
    }

    open spec fn from_spec(error: ValidateError) -> Self {
        Error::Url(error)
    }
}

impl From<FtpError> for Error {
    fn from(error: FtpError) -> (r: Self) {
        Error::Ftp(error)
    }
}

impl vstd::std_specs::convert::FromSpecImpl<FtpError> for Error {
    open spec fn obeys_from_spec() -> bool {
        true
    }

    open spec fn from_spec(error: FtpError) -> Self {
        Error::Ftp(error)
    }
}

impl From<ListParseError> for Error {
    fn from(error: ListParseError) -> (r: Self) {
        Error::ListParse(error)
    }
}

impl vstd::std_specs::convert::FromSpecImpl<ListParseError> for Error {
    open spec fn obeys_from_spec() -> bool {
        true
    }

    open spec fn from_spec(error: ListParseError) -> Self {
        Error::ListParse(error)
    }
}

impl From<JiffError> for Error {
    fn from(error: JiffError) -> (r: Self) {
        Error::Timestamp(error)
    }
}

impl vstd::std_specs::convert::FromSpecImpl<JiffError> for Error {
    open spec fn obeys_from_spec() -> bool {
        true
    }

    open spec fn from_spec(error: JiffError) -> Self {
        Error::Timestamp(error)
    }
}

/// The status with which a server answers a command that it does not know.
pub const BAD_COMMAND: u32 = 500;

/// The status that a server answered with, where a command failed because it is another than the
/// command asks for: what the response in `suppaftp::FtpError::UnexpectedResponse` holds.
pub uninterp spec fn response_status(error: FtpError) -> Option<u32>;

/// `suppaftp::Status::code` of the crate `suppaftp`, on the response that an unexpected response
/// holds. It depends on the error alone; other errors hold no response.
#[verifier::external_body]
fn status_of(error: &FtpError) -> (r: Option<u32>)
    ensures
        r == response_status(*error),
{
    match error {
        FtpError::UnexpectedResponse(response) => Some(response.status.code()),
        _ => None,
    }
}

/// A command that failed.
#[derive(Debug)]
pub struct FtpFailure {
    status: Option<u32>,
    error: FtpError,
}

impl FtpFailure {
    #[verifier::type_invariant]
    spec fn inv(&self) -> bool {
        self.status == response_status(self.error)
    }

    /// Why the command failed.
    pub closed spec fn error(self) -> FtpError {
        self.error
    }

    /// Whether the server does not know the command.
    pub open spec fn unknown_command(self) -> bool {
        response_status(self.error()) == Some(BAD_COMMAND)
    }

    /// The failure with an error.
    pub fn new(error: FtpError) -> (r: FtpFailure)
        ensures
            r.error() == error,
    {
        FtpFailure { status: status_of(&error), error }
    }

    /// Whether the server does not know the command.
    pub fn is_unknown_command(&self) -> (r: bool)
        ensures
            r == self.unknown_command(),
    {
        proof {
            use_type_invariant(self);
        }
        match self.status {
            Some(status) => status == BAD_COMMAND,
            None => false,
        }
    }

    /// Why the command failed.
    pub fn into_error(self) -> (r: FtpError)
        ensures
            r == self.error(),
    {
        self.error
    }
}

/// What an error says is what it holds.
pub proof fn law_error(error: Error)
    ensures
        error matches Error::Url(inner) ==> error@ == ErrorView::Url(inner),
        error matches Error::Ftp(inner) ==> error@ == ErrorView::Ftp(inner),
        error matches Error::MlstParse(message) ==> error@ == ErrorView::MlstParse(message@),
        error matches Error::ListParse(inner) ==> error@ == ErrorView::ListParse(inner),
        error matches Error::Timestamp(inner) ==> error@ == ErrorView::Timestamp(inner),
        error matches Error::Other(message) ==> error@ == ErrorView::Other(message@),
{
}

/// A server does not know a command if and only if it answers with the status 500.
pub proof fn law_unknown_command(failure: FtpFailure)
    ensures
        failure.unknown_command() <==> response_status(failure.error()) == Some(500u32),
{
}

} // verus!
