//! The secrets workflow: records of secret files, where they are stored,
//! and the decisions of initializing, uploading, retrieving and migrating.

pub mod models;

pub mod storage;
pub mod entry;
pub mod retrieve;
pub mod initialize;
pub mod upload;
pub mod migrate;
pub mod file_size;
pub mod records;
pub mod vault;

use vstd::prelude::*;

verus! {

/// The run modes that concern secrets (and any other).
#[derive(Clone, Copy, Debug, PartialEq, Eq, Structural)]
pub enum SecretsMode {
    SecretRetrieve,
    SecretInitialize,
    SecretUpload,
    Other,
}

/// The part of the secrets workflow a run performs.
#[derive(Clone, Copy, Debug, PartialEq, Eq, Structural)]
pub enum SecretsTask {
    /// Retrieve the stored copies and compare them with the local files.
    Validate,
    /// Write the records of the listed files.
    Initialize,
    /// Upload the files of this host.
    Upload,
}

/// The task of a secrets run (`process_secrets_mode`); other modes are
/// refused.
pub fn process_secrets_mode(mode: SecretsMode) -> (r: Result<SecretsTask, String>)
    ensures
        mode == SecretsMode::SecretRetrieve ==> r == Ok::<SecretsTask, String>(SecretsTask::Validate),
        mode == SecretsMode::SecretInitialize ==> r == Ok::<SecretsTask, String>(SecretsTask::Initialize),
        mode == SecretsMode::SecretUpload ==> r == Ok::<SecretsTask, String>(SecretsTask::Upload),
        mode == SecretsMode::Other ==> (r matches Err(e) && e@
            == "Unsupported mode for secrets processing"@),
{
    match mode {
        SecretsMode::SecretRetrieve => Ok(SecretsTask::Validate),
        SecretsMode::SecretInitialize => Ok(SecretsTask::Initialize),
        SecretsMode::SecretUpload => Ok(SecretsTask::Upload),
        SecretsMode::Other => Err("Unsupported mode for secrets processing".to_owned()),
    }
}

} // verus!

