use vstd::prelude::*;
use vstd::string::StringExecFns;

verus! {

/// What went wrong in a filesystem or configuration operation, with the path involved.
#[derive(Debug, PartialEq, Eq)]
pub enum FileSystemError {
    /// Path not found.
    NotFound { path: String },
    /// Permission denied for accessing the path.
    PermissionDenied { path: String },
    /// Generic I/O error during a filesystem operation.
    Io { path: String, message: String },
    /// Expected a directory but found a file.
    NotADirectory { path: String },
    /// Expected a file but found a directory.
    NotAFile { path: String },
    /// The content is not valid text or not the JSON shape that was expected.
    Utf8Decode { path: String, message: String },
    /// The path or the content breaks a structural rule.
    Validation { path: String, reason: String },
    /// Any other logical failure.
    Operation(String),
}

/// The message that reports an error.
pub open spec fn message_of(e: FileSystemError) -> Seq<char> {
    match e {
        FileSystemError::NotFound { path } => "Path not found: "@ + path@,
        FileSystemError::PermissionDenied { path } => "Permission denied for path: "@ + path@,
        FileSystemError::Io { path, message } => "I/O error accessing path '"@ + path@ + "': "@ + message@,
        FileSystemError::NotADirectory { path } => "Expected a directory but found a file: "@ + path@,
        FileSystemError::NotAFile { path } => "Expected a file but found a directory: "@ + path@,
        FileSystemError::Utf8Decode { path, message } => "Failed to decode UTF-8 content in file: "@ + path@
            + " - "@ + message@,
        FileSystemError::Validation { path, reason } => "Path validation failed for '"@ + path@ + "': "@
            + reason@,
        FileSystemError::Operation(m) => "Operation failed: "@ + m@,
    }
}

fn joined2(a: &str, b: &String) -> (r: String)
    ensures
        r@ == a@ + b@,
{
    let mut r = String::from_str(a);
    r.append(b.as_str());
    r
}

fn joined4(a: &str, b: &String, c: &str, d: &String) -> (r: String)
    ensures
        r@ == a@ + b@ + c@ + d@,
{
    let mut r = String::from_str(a);
    r.append(b.as_str());
    r.append(c);
    r.append(d.as_str());
    r
}

impl FileSystemError {
    /// The message that reports the error.
    pub fn message(&self) -> (r: String)
        ensures
            r@ == message_of(*self),
    {
        match self {
            FileSystemError::NotFound { path } => joined2("Path not found: ", path),
            FileSystemError::PermissionDenied { path } => joined2("Permission denied for path: ", path),
            FileSystemError::Io { path, message } => joined4("I/O error accessing path '", path, "': ", message),
            FileSystemError::NotADirectory { path } => joined2("Expected a directory but found a file: ", path),
            FileSystemError::NotAFile { path } => joined2("Expected a file but found a directory: ", path),
            FileSystemError::Utf8Decode { path, message } => joined4(
                "Failed to decode UTF-8 content in file: ",
                path,
                " - ",
                message,
            ),
            FileSystemError::Validation { path, reason } => joined4("Path validation failed for '", path, "': ", reason),
            FileSystemError::Operation(m) => joined2("Operation failed: ", m),
        }
    }
}

/// Results of filesystem and configuration operations.
pub type FileSystemResult<T> = Result<T, FileSystemError>;

/// The application's general error: a filesystem error or a failed operation.
#[derive(Debug, PartialEq, Eq)]
pub enum Error {
    /// Filesystem-related error.
    FileSystem(FileSystemError),
    /// General purpose error with a message.
    Operation(String),
}

impl Error {
    /// An operation error with the given message.
    pub fn operation(message: &str) -> (r: Self)
        ensures
            r matches Error::Operation(m) && m@ == message@,
    {
        Error::Operation(message.to_owned())
    }

    /// The category of the error, as a short name.
    pub fn as_str(&self) -> (r: &'static str)
        ensures
            self is FileSystem ==> r@ == "Error::FileSystem"@,
            self is Operation ==> r@ == "Error::Operation"@,
    {
        match self {
            Error::FileSystem(_) => "Error::FileSystem",
            Error::Operation(_) => "Error::Operation",
        }
    }
}

impl From<FileSystemError> for Error {
    fn from(e: FileSystemError) -> (r: Self) {
        Error::FileSystem(e)
    }
}

impl vstd::std_specs::convert::FromSpecImpl<FileSystemError> for Error {
    open spec fn obeys_from_spec() -> bool {
        true
    }

    open spec fn from_spec(e: FileSystemError) -> Self {
        Error::FileSystem(e)
    }
}

} // verus!
