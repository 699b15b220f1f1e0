//! Where the files of the proxy switcher lie.

use crate::text::{append, chars_of, string_of};
use vstd::prelude::*;

verus! {

/// The folder that holds the backup and the list of custom proxies.
pub const BACKUP_FOLDER: &'static str = "/opt/proxychainsbackup/";

/// The configuration that is rewritten.
pub const CONFIG_FILE: &'static str = "/etc/proxychains.conf";

/// The list of custom proxies, one in each line.
pub const CUSTOM_PROXY_FILE: &'static str = "/opt/proxychainsbackup/custom.lst";

/// The path of the backup in `folder`.
pub open spec fn backup_path(folder: Seq<char>) -> Seq<char> {
    folder + "/proxychains.conf"@
}

/// The path of the backup of the configuration in `folder`.
pub fn backup_file(folder: &str) -> (path: String)
    ensures
        path@ == backup_path(folder@),
{
    let mut path = chars_of(folder);
    append(&mut path, chars_of("/proxychains.conf").as_slice());
    string_of(path.as_slice())
}

} // verus!
