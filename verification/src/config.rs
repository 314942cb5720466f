//! Where the dataset is looked for when no directory is given.
//!
//! A directory that the program has configured stands before the one that the
//! environment names.

use vstd::prelude::*;

verus! {

/// Name of the environment variable that names the directory of the dataset.
pub const CINC10_PATH_ENV_VAR: &'static str = "CINIC10_PATH";

/// The default directory: the configured one where there is one, else the one
/// from the environment.
pub open spec fn default_path_of(configured: Option<String>, from_env: Option<String>) -> Option<
    String,
> {
    match configured {
        Some(path) => Some(path),
        None => from_env,
    }
}

/// The default directory of the dataset, `configured` being what was last
/// set and `from_env` what the environment names.
pub fn get_default_data_path(configured: &Option<String>, from_env: Option<String>) -> (r: Option<
    String,
>)
    ensures
        r == default_path_of(*configured, from_env),
{
    match configured {
        Some(path) => Some(path.clone()),
        None => from_env,
    }
}

/// The default directory of the dataset, which must be known from one of the
/// two sources.
pub fn default_data_path_or_panic(configured: &Option<String>, from_env: Option<String>) -> (r:
    String)
    requires
        configured is Some || from_env is Some,
    ensures
        Some(r) == default_path_of(*configured, from_env),
{
    match configured {
        Some(path) => path.clone(),
        None => from_env.unwrap(),
    }
}

/// Sets or clears the configured directory.
pub fn set_default_data_path(configured: &mut Option<String>, path: Option<String>)
    ensures
        *final(configured) == path,
{
    *configured = path;
}

} // verus!
