//! Hierarchical naming and context-aware selection engine for a vault-backed
//! store of environment files.
//!
//! The vault itself (reached through an external command-line client) offers
//! only flat folders and items; this library carries the logic that simulates
//! a nested folder hierarchy inside folder names, derives stable item names
//! from local file paths, and builds the context-biased selection menu used
//! on retrieval.

use vstd::prelude::*;

pub mod text;
pub mod resolver;
pub mod model;
pub mod hierarchy;
pub mod catalog;
pub mod menu;

verus! {

/// The root-namespace token: the fixed top-level folder name under which
/// every managed folder and item lives.
pub open spec fn spec_root() -> Seq<char> {
    "bw-env"@
}

/// The root-namespace token, as the fixed top-level folder name.
pub fn root_folder_name() -> (r: &'static str)
    ensures
        r@ == spec_root(),
{
    "bw-env"
}

/// Which template the vault client is asked for before a create call.
#[derive(Debug, Clone, Copy, PartialEq, Eq, Structural)]
pub enum TemplateType {
    Item,
    Folder,
}

impl TemplateType {
    /// The template's name on the vault client's command line.
    pub fn as_str(&self) -> (r: &'static str)
        ensures
            *self == TemplateType::Item ==> r@ == "item"@,
            *self == TemplateType::Folder ==> r@ == "folder"@,
    {
        match self {
            TemplateType::Item => "item",
            TemplateType::Folder => "folder",
        }
    }
}

/// The command-line surface: one subcommand per operation.  The surrounding
/// binary parses the real command line and hands over this plain form.
pub enum Commands {
    /// Store an environment file in the vault.
    Store { path: String, create_folder_structure: bool },
    /// Retrieve an environment file from the vault.
    Retrieve { output: String, create_folder_structure: bool },
    /// List every environment file stored under the root namespace.
    List,
}

/// The parsed command line.
pub struct Cli {
    pub command: Commands,
}

/// Error taxonomy for the whole system.
///
/// The library itself only ever produces `Input` (a bad menu selection) and
/// `Path` (a malformed folder path); the remaining variants classify failures
/// that the surrounding process-running code reports.
#[derive(Clone, Copy, Debug, PartialEq, Eq, Structural)]
pub enum VaultError {
    /// The vault client could not be reached or failed to run.
    Transport,
    /// The vault client ran but the session is not authenticated.
    Auth,
    /// A response could not be parsed as expected, or was unexpectedly empty.
    Data,
    /// An out-of-range or non-numeric menu selection.
    Input,
    /// A folder path missing the root-namespace prefix, or with an empty segment.
    Path,
    /// A local file could not be read or written.
    Io,
}

impl VaultError {
    /// A short human-readable tag for the error class.
    pub fn describe(&self) -> (r: &'static str)
        ensures
            *self == VaultError::Transport ==> r@ == "vault client unreachable"@,
            *self == VaultError::Auth ==> r@ == "vault session not authenticated"@,
            *self == VaultError::Data ==> r@ == "unexpected vault response"@,
            *self == VaultError::Input ==> r@ == "invalid selection"@,
            *self == VaultError::Path ==> r@ == "invalid folder path"@,
            *self == VaultError::Io ==> r@ == "local file error"@,
    {
        match self {
            VaultError::Transport => "vault client unreachable",
            VaultError::Auth => "vault session not authenticated",
            VaultError::Data => "unexpected vault response",
            VaultError::Input => "invalid selection",
            VaultError::Path => "invalid folder path",
            VaultError::Io => "local file error",
        }
    }
}

} // verus!
