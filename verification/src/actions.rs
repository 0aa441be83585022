//! The scripts that carry out actions on the machine.
use vstd::prelude::*;

use crate::text::{decimal, u16_to_decimal};

verus! {

/// The shell command that kills every process listening on TCP port `port`
/// (only listeners: clients connected to that port elsewhere are spared).
pub open spec fn kill_port_script_model(port: u16) -> Seq<char> {
    "lsof -ti tcp:"@ + decimal(port as nat) + " -sTCP:LISTEN | xargs kill -9"@
}

/// The AppleScript line that asks an application to quit.
pub open spec fn quit_app_script_model(app_name: Seq<char>) -> Seq<char> {
    "quit app \""@ + app_name + "\""@
}

/// The shell command that kills every process listening on `port`.
pub fn kill_port_script(port: u16) -> (s: String)
    ensures
        s@ == kill_port_script_model(port),
{
    let mut s = String::from_str("lsof -ti tcp:");
    let digits = u16_to_decimal(port);
    s.append(digits.as_str());
    s.append(" -sTCP:LISTEN | xargs kill -9");
    s
}

/// The AppleScript line that asks `app_name` to quit.
pub fn quit_app_script(app_name: &str) -> (s: String)
    ensures
        s@ == quit_app_script_model(app_name@),
{
    let mut s = String::from_str("quit app \"");
    s.append(app_name);
    s.append("\"");
    s
}

} // verus!
