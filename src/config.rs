//! Per-application and process-wide configuration values.
use vstd::prelude::*;

use crate::text::same_text;

verus! {

/// How one application is backed up and restored.
#[derive(Debug, Clone)]
pub struct Config {
    pub app_name: String,
    pub server_name: String,
    /// The directory tree that is backed up and restored.
    pub app_root: String,
    /// Glob patterns, appended to `app_root`.
    pub included_paths: Vec<String>,
    pub excluded_paths: Vec<String>,
    pub pre_backup_script: String,
    pub post_backup_script: String,
    pub pre_restore_script: String,
    pub post_restore_script: String,
    pub keep_full_local_backups: u32,
    pub keep_full_remote_backups: u32,
}

/// Settings of the whole process, read once at start.
#[derive(Debug)]
pub struct GlobalConfig {
    pub config_files_location: String,
    pub local_storage_location: String,
    pub remote_storage_address: String,
    pub remote_storage_access_id: String,
    pub remote_storage_secret_key: String,
    pub log_file_location: String,
}

/// The index of the first configuration at or after `from` for `app`, or -1.
pub open spec fn config_index(configs: Seq<Config>, app: Seq<char>, from: int) -> int
    decreases configs.len() - from,
{
    if from < 0 || from >= configs.len() {
        -1
    } else if configs[from].app_name@ == app {
        from
    } else {
        config_index(configs, app, from + 1)
    }
}

/// The first configuration of the application named `app_name`, if any.
pub fn get_config_from_app_name<'a>(configs: &'a Vec<Config>, app_name: &str) -> (r: Option<&'a Config>)
    ensures
        match r {
            Some(c) => {
                let i = config_index(configs@, app_name@, 0);
                0 <= i < configs@.len() && *c == configs@[i]
            },
            None => config_index(configs@, app_name@, 0) == -1,
        },
{
    let mut i: usize = 0;
    while i < configs.len()
        invariant
            i <= configs.len(),
            config_index(configs@, app_name@, 0) == config_index(configs@, app_name@, i as int),
        decreases configs.len() - i,
    {
        if same_text(configs[i].app_name.as_str(), app_name) {
            return Some(&configs[i]);
        }
        i += 1;
    }
    None
}

} // verus!
