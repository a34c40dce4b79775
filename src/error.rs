use vstd::prelude::*;

verus! {

/// The runtime's errors, by the part of the system that failed.
#[derive(Debug, Clone, PartialEq, Eq)]
pub enum RTError {
    /// The metadata store failed.
    StorageError { message: String, source: Option<String> },
    /// An operation on one container failed.
    ContainerError { message: String, container_id: String },
    /// The host refused a system call.
    SystemError { message: String, source: Option<String> },
    /// Anything else.
    UnexpectedError { message: String, source: Option<String> },
}

impl RTError {
    pub fn storage_error(message: &str, source: Option<String>) -> (r: Self)
        ensures
            r matches RTError::StorageError { message: m, source: s } && m@ == message@ && s
                == source,
    {
        RTError::StorageError { message: message.to_owned(), source }
    }

    pub fn container_error(message: &str, container_id: &str) -> (r: Self)
        ensures
            r matches RTError::ContainerError { message: m, container_id: c } && m@ == message@
                && c@ == container_id@,
    {
        RTError::ContainerError {
            message: message.to_owned(),
            container_id: container_id.to_owned(),
        }
    }

    pub fn unexpected_error(message: &str, source: Option<String>) -> (r: Self)
        ensures
            r matches RTError::UnexpectedError { message: m, source: s } && m@ == message@ && s
                == source,
    {
        RTError::UnexpectedError { message: message.to_owned(), source }
    }
}

} // verus!
