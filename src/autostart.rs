//! The registry entry that starts the program at login.

use vstd::prelude::*;

verus! {

/// Where the entry goes, under the current user's hive.
pub const RUN_SUBKEY: &'static str = "Software\\Microsoft\\Windows\\CurrentVersion\\Run";

#[derive(Debug)]
pub struct AutostartEntry {
    pub subkey: String,
    pub value_name: String,
    pub command: String,
}

pub open spec fn quoted(s: Seq<char>) -> Seq<char> {
    seq!['"'] + s + seq!['"']
}

/// The entry that makes the program at `exe_path` start at login under the
/// value name `key_name`: the path in double quotes, in the run key.
pub fn ensure_windows_autostart(key_name: &str, exe_path: &str) -> (r: AutostartEntry)
    ensures
        r.subkey@ == RUN_SUBKEY@,
        r.value_name@ == key_name@,
        r.command@ == quoted(exe_path@),
{
    proof {
        reveal_strlit("\"");
        assert("\""@ =~= seq!['"']);
    }
    let mut command = "\"".to_owned();
    command.append(exe_path);
    command.append("\"");
    AutostartEntry { subkey: RUN_SUBKEY.to_owned(), value_name: key_name.to_owned(), command }
}

} // verus!
