//! The storage resolver's decision: where the document lives. The
//! filesystem checks themselves happen outside the library; this
//! module fixes what each outcome of those checks must mean.

use vstd::prelude::*;

verus! {

/// Where the document is kept.
#[derive(Debug, Clone, Copy, PartialEq, Eq, Structural)]
pub enum DbLocation {
    /// Beside the executable ("portable mode").
    Portable,
    /// In the per-user application-data directory.
    AppData,
}

/// No writable storage directory can be resolved: fatal.
#[derive(Debug, Clone, Copy, PartialEq, Eq, Structural)]
pub struct ConfigError;

/// The fixed name of the document file.
pub fn db_file_name() -> (r: String)
    ensures
        r@ == "db.json"@,
{
    String::from_str("db.json")
}

/// Choose the document's location, re-evaluated on every load or
/// save. `portable_db_exists` says whether the executable's directory
/// could be resolved and holds the document file; `app_data_dir_known`
/// says whether the per-user application-data directory could be
/// resolved or created. The portable file always wins; without it the
/// per-user directory is used whether or not the file exists yet; with
/// neither available the configuration is broken.
pub fn choose_db_location(portable_db_exists: bool, app_data_dir_known: bool) -> (r: Result<
    DbLocation,
    ConfigError,
>)
    ensures
        portable_db_exists ==> r == Result::<DbLocation, ConfigError>::Ok(DbLocation::Portable),
        !portable_db_exists && app_data_dir_known ==> r == Result::<
            DbLocation,
            ConfigError,
        >::Ok(DbLocation::AppData),
        !portable_db_exists && !app_data_dir_known ==> r is Err,
{
    if portable_db_exists {
        Result::Ok(DbLocation::Portable)
    } else if app_data_dir_known {
        Result::Ok(DbLocation::AppData)
    } else {
        Result::Err(ConfigError)
    }
}

} // verus!
