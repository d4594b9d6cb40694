//! Handles, messages and the results of input and output.
use vstd::prelude::*;

verus! {

#[derive(Clone, Copy, PartialEq, Eq, Structural, Debug)]
pub struct Handle {
    pub id: u32,
}

impl Handle {
    pub fn new(id: u32) -> (r: Self)
        ensures
            r.id == id,
    {
        Handle { id }
    }

    pub fn as_u32(&self) -> (r: u32)
        ensures
            r == self.id,
    {
        self.id
    }
}

#[derive(Clone, Copy, PartialEq, Eq, Structural, Debug)]
pub enum IoError {
    NotFound,
    FileHandleInvalid,
    FileHandleWrongType,
    UnsupportedOperation,
    UnsupportedCommand,
    InvalidArgument,
    OperationFailed,
    ResourceInUse,
    ResourceLimitExceeded,
    ReadError,
    WriteError,
    CrossDeviceLink,
    FileSystemError,
    Unknown,
}

pub type IoResult = Result<u32, IoError>;

/// A request to a driver, by what it asks for.
#[derive(Clone, Copy, PartialEq, Eq, Structural, Debug)]
pub enum DriverCommand {
    Open,
    OpenRaw,
    Close,
    Read,
    Write,
    Stat,
    Share,
    Ioctl,
    Create,
    Unlink,
    Rename,
    Other,
}

/// A request in the message queue of a driver.
#[derive(Clone, Copy, Debug)]
pub struct Message {
    pub unique_id: u32,
    pub args: [u32; 6],
}

} // verus!
