use vstd::prelude::*;
use vstd::string::StrSliceExecFns;

verus! {

/// What `char::is_alphanumeric` returns for a character.
pub uninterp spec fn alphanumeric(c: char) -> bool;

/// An ASCII letter or digit.
pub open spec fn ascii_alphanumeric(c: char) -> bool {
    ('a' <= c && c <= 'z') || ('A' <= c && c <= 'Z') || ('0' <= c && c <= '9')
}

/// Relies on char::is_alphanumeric: alphabetic or numeric in Unicode's tables,
/// which among ASCII characters are exactly the letters and digits.
#[verifier::external_body]
fn is_alphanumeric(c: char) -> (r: bool)
    ensures
        r == alphanumeric(c),
        (c as u32) < 128 ==> (r <==> ascii_alphanumeric(c)),
{
    c.is_alphanumeric()
}

/// A request to process the images of one directory.
pub struct DirectoryToProcess {
    /// Name of the directory, relative to the input base directory.
    pub name: String,
}

/// A directory name is accepted when every character of it is alphanumeric.
pub fn is_valid_directory_name(name: &str) -> (r: bool)
    ensures
        r == (forall|i: int| 0 <= i < name@.len() ==> alphanumeric(#[trigger] name@[i])),
{
    let n: usize = name.unicode_len();
    let mut i: usize = 0;
    while i < n
        invariant
            n == name@.len(),
            i <= n,
            forall|j: int| 0 <= j < i ==> alphanumeric(#[trigger] name@[j]),
        decreases n - i,
    {
        if !is_alphanumeric(name.get_char(i)) {
            return false;
        }
        i += 1;
    }
    true
}

impl DirectoryToProcess {
    /// The request names a directory whose name is entirely alphanumeric.
    pub fn has_valid_name(&self) -> (r: bool)
        ensures
            r == (forall|i: int| 0 <= i < self.name@.len() ==> alphanumeric(#[trigger] self.name@[i])),
    {
        is_valid_directory_name(self.name.as_str())
    }
}

/// HTTP status of a request whose images were all queued.
pub const ACCEPTED: u16 = 202;

/// Why a request to process a directory is turned down.
#[derive(Clone, Copy, Debug, PartialEq, Eq, Structural)]
pub enum Rejection {
    /// The directory name holds a character that is not alphanumeric.
    InvalidName,
    /// The input directory does not exist or cannot be listed.
    MissingInput,
    /// The output directory exists already.
    AlreadyProcessed,
    /// The output directory could not be created.
    CannotCreateOutput,
    /// The queue's sending end could not be taken.
    LockPoisoned,
    /// The queue no longer accepts paths.
    QueueClosed,
}

impl Rejection {
    /// The HTTP status that reports the rejection.
    pub fn status_code(&self) -> (r: u16)
        ensures
            r == match *self {
                Rejection::InvalidName => 422u16,
                Rejection::MissingInput => 404u16,
                Rejection::AlreadyProcessed => 422u16,
                Rejection::CannotCreateOutput => 422u16,
                Rejection::LockPoisoned => 500u16,
                Rejection::QueueClosed => 503u16,
            },
    {
        match self {
            Rejection::InvalidName => 422,
            Rejection::MissingInput => 404,
            Rejection::AlreadyProcessed => 422,
            Rejection::CannotCreateOutput => 422,
            Rejection::LockPoisoned => 500,
            Rejection::QueueClosed => 503,
        }
    }
}

} // verus!
