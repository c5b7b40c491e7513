//! The error model: a single tagged error value carrying a coarse category
//! (major code) and a fine sub-cause (minor code), from which the process's
//! final two-digit exit status `major * 10 + minor` is derived.

use vstd::prelude::*;

verus! {

// Minor codes for file-system I/O errors, by the place the failure occurred.
pub const CODE_FSIO_INPUT: u8 = 2;
pub const CODE_FSIO_OUTPUT: u8 = 3;
pub const CODE_FSIO_OUTPUT_BACKUP: u8 = 4;
pub const CODE_FSIO_CONFIG: u8 = 5;

// Minor code for internal invariant violations.
pub const CODE_INTERNAL_MISC: u8 = 8;

// Minor codes for usage errors.
pub const CODE_USAGE_MISSING_OUTPUT_FILE_NAME: u8 = 4;
pub const CODE_USAGE_MISSING_OUTPUT: u8 = 5;
pub const CODE_USAGE_INPUT_NOT_A_FILE: u8 = 6;
pub const CODE_USAGE_NO_CONFIG_FILE: u8 = 7;
pub const CODE_USAGE_INVALID_CONFIG_FILE: u8 = 8;

/// Error data specific to particular error kinds. I/O and scanner causes are
/// carried as their rendered messages, so the whole value is plain data.
#[derive(Debug)]
pub enum UniErrorData {
    /// I/O error related to a file system path: the path as the byte string
    /// the library models paths by, then the cause's message.
    FsIo(Vec<u8>, String),
    /// General I/O error.
    Io(String),
    /// Invariant violation not attributable to user input.
    Internal(String),
    /// Malformed or missing command-line or configuration input.
    Usage(String),
    /// Configuration document scan error: the document path, then the
    /// cause's message.
    YamlScan(Vec<u8>, String),
}

/// The default (major, minor) code pair of an error category.
pub open spec fn spec_default_major(data: UniErrorData) -> u8 {
    match data {
        UniErrorData::Io(_) => 1,
        UniErrorData::FsIo(_, _) => 2,
        UniErrorData::Internal(_) => 9,
        UniErrorData::Usage(_) => 0,
        UniErrorData::YamlScan(_, _) => 3,
    }
}

pub open spec fn spec_default_minor(data: UniErrorData) -> u8 {
    match data {
        UniErrorData::Usage(_) => 1,
        _ => 0,
    }
}

impl UniErrorData {
    pub fn default_code_major_minor(&self) -> (r: (u8, u8))
        ensures
            r.0 == spec_default_major(*self),
            r.1 == spec_default_minor(*self),
    {
        match *self {
            UniErrorData::Io(_) => (1, 0),
            UniErrorData::FsIo(_, _) => (2, 0),
            UniErrorData::Internal(_) => (9, 0),
            UniErrorData::Usage(_) => (0, 1),
            UniErrorData::YamlScan(_, _) => (3, 0),
        }
    }
}

/// The tagged error value used for propagation throughout the library.
#[derive(Debug)]
pub struct UniError {
    /// Coarse-grained code based on the technical kind of error; a single
    /// decimal digit, the tens digit of the process exit status.
    code_major: u8,
    /// Detailed code distinguishing the situation in which the error occurred;
    /// a single decimal digit, the units digit of the process exit status.
    code_minor: u8,
    /// The actual error data.
    data: UniErrorData,
}

impl UniError {
    pub closed spec fn major(self) -> u8 {
        self.code_major
    }

    pub closed spec fn minor(self) -> u8 {
        self.code_minor
    }

    pub closed spec fn payload(self) -> UniErrorData {
        self.data
    }

    /// Both digits of the exit status are single decimal digits.
    pub closed spec fn wf(self) -> bool {
        self.code_major <= 9 && self.code_minor <= 9
    }

    /// The two-digit process exit status derived from this error.
    pub fn error_code(&self) -> (r: u8)
        requires
            self.wf(),
        ensures
            r as int == self.major() as int * 10 + self.minor() as int,
    {
        self.code_major * 10 + self.code_minor
    }

    /// An error with the category's default major code and the given minor code.
    pub fn new(minor: u8, data: UniErrorData) -> (r: UniError)
        requires
            minor <= 9,
        ensures
            r.wf(),
            r.major() == spec_default_major(data),
            r.minor() == minor,
            r.payload() == data,
    {
        let (major, _) = data.default_code_major_minor();
        UniError { code_major: major, code_minor: minor, data }
    }

    /// The same error with its minor code replaced.
    pub fn with_minor(self, minor: u8) -> (r: UniError)
        requires
            minor <= 9,
        ensures
            r.wf() == (self.major() <= 9),
            r.major() == self.major(),
            r.minor() == minor,
            r.payload() == self.payload(),
    {
        UniError { code_minor: minor, ..self }
    }

    /// The error data, for callers that report or branch on the category.
    pub fn kind(&self) -> (r: &UniErrorData)
        ensures
            *r == self.payload(),
    {
        &self.data
    }
}

/// A usage error with the usage category's default codes.
pub fn usage(message: String) -> (r: UniError)
    ensures
        r.wf(),
        r.major() == 0,
        r.minor() == 1,
        r.payload() == UniErrorData::Usage(message),
{
    let data = UniErrorData::Usage(message);
    let (major, minor) = data.default_code_major_minor();
    UniError { code_minor: minor, code_major: major, data }
}

/// Conversion into an error value from a cause plus contextual details.
pub trait DetailedFrom<E, D>: Sized {
    fn detailed_from(err: E, details: D) -> Self;
}

/// A path-tagged I/O failure: the cause's message, with the path and the
/// minor code as details. An out-of-range minor code is clamped to a digit.
impl DetailedFrom<String, (Vec<u8>, u8)> for UniError {
    fn detailed_from(err: String, details: (Vec<u8>, u8)) -> Self {
        let minor = if details.1 <= 9 { details.1 } else { 9 };
        UniError::new(minor, UniErrorData::FsIo(details.0, err))
    }
}

/// An internal error from a bare message, with the minor code as detail.
/// An out-of-range minor code is clamped to a digit.
impl DetailedFrom<String, u8> for UniError {
    fn detailed_from(err: String, details: u8) -> Self {
        let minor = if details <= 9 { details } else { 9 };
        UniError::new(minor, UniErrorData::Internal(err))
    }
}

/// A configuration-scan failure: the cause's message, with the document path
/// as detail.
impl DetailedFrom<String, Vec<u8>> for UniError {
    fn detailed_from(err: String, details: Vec<u8>) -> Self {
        UniError::new(0, UniErrorData::YamlScan(details, err))
    }
}

} // verus!
