//! Error taxonomy of the launcher core.
//!
//! Failures coming from outside calls (network, filesystem, archive
//! handling) are carried as plain messages; conditions this crate
//! decides itself (not-found, conflict, unsupported kind) carry the
//! offending value.
use vstd::prelude::*;

verus! {

/// A failure while fetching a remote resource.
#[derive(Debug, Clone, PartialEq, Eq)]
pub enum DownloadError {
    /// The request timed out.
    Timeout,
    /// The request URL could not be built.
    InvalidURL,
    /// A filesystem failure, with its message.
    IO(String),
    /// The server answered with a non-success status code.
    Status(u16),
    /// Any other transport failure, with its message.
    Other(String),
}

/// A failure around a named installation or version.
#[derive(Debug, Clone, PartialEq, Eq)]
pub enum InstallationError {
    /// Launching the named installation failed.
    FailedToExecute(String),
    /// The requested game version is not in the catalog.
    VersionNotFound(String),
    /// No installation of this name exists.
    InstallationNotFound(String),
}

/// A failure while resolving or provisioning a runtime.
#[derive(Debug, Clone, PartialEq, Eq)]
pub enum JavaError {
    /// The requested package kind is not one of the recognized kinds.
    InvalidPackageType(String),
    /// A runtime is already installed at the target path.
    AlreadyExists,
    /// Provisioning found no asset for the requested major version.
    VersionNotFound(u16),
}

/// A failure while unpacking an archive.
#[derive(Debug, Clone, PartialEq, Eq)]
pub enum ZipExtractionError {
    /// The archive's file extension names no supported format.
    UnsupportedFileExt(String),
}

/// Any failure of the launcher core.
#[derive(Debug, Clone, PartialEq, Eq)]
pub enum BackendError {
    /// An archive could not be read, with the message.
    ZipError(String),
    /// A download failed.
    DownloadError(DownloadError),
    /// A filesystem failure, with its message.
    IOError(String),
    /// An environment variable was missing or malformed.
    EnvVarError(String),
    /// An archive kind was not supported.
    ZipExtractionError(ZipExtractionError),
    /// A document could not be serialized or deserialized.
    SerdeError(String),
    /// A runtime could not be resolved or provisioned.
    JavaError(JavaError),
    /// An installation or version was missing or failed to launch.
    InstallationError(InstallationError),
}

} // verus!
