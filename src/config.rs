use vstd::prelude::*;

verus! {

/// The settings that the application loads once at startup.
pub struct PhotoArchiveConfig {
    pub archive_dir: String,
}

/// What every command reads: the archive root, fixed for the whole run.
pub struct PhotoArchiveState {
    pub archive_path: String,
}

impl PhotoArchiveState {
    pub fn from_config(config: &PhotoArchiveConfig) -> (r: Self)
        ensures
            r.archive_path@ == config.archive_dir@,
    {
        PhotoArchiveState { archive_path: config.archive_dir.clone() }
    }
}

} // verus!
