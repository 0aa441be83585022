//! Routing: which action a sanitized voice command asks for.
use vstd::prelude::*;

use crate::mappers::{extract_dynamic_port, spoken_port};
use crate::text::{
    contains,
    lemma_missing_char_not_contained,
    lemma_replace_absent,
    lemma_replace_leading,
    matches_at,
    contains_str,
    decimal,
    replace_all,
    replace_str,
    trim,
    trim_str,
    u16_to_decimal,
};

verus! {

/// What the assistant does in answer to one command.
pub enum Action {
    /// Kill whatever listens on this port.
    KillPort(u16),
    /// A port command whose number could not be understood.
    UnparsedPort,
    /// Report the system's memory use.
    ReportMemory,
    /// Reopen the browser tab closed last.
    ReopenTab,
    /// Open the bookmarked site with this spoken name.
    OpenSite(String),
    /// Close the current browser tab.
    CloseTab,
    /// Launch the application with this name.
    LaunchApp(String),
    /// Quit the application with this name.
    CloseApp(String),
    /// Reset the Watchman and Metro bundler caches.
    ClearBundlerCache,
    /// Delete `node_modules` and reinstall.
    NukeNodeModules,
    /// Go dormant.
    Sleep,
    /// An "open" or "close" command that names nothing: nothing to do.
    NoTarget,
    /// No routing rule matches.
    Unrecognized,
}

/// `Action` with its names as character sequences.
pub enum ActionModel {
    KillPort(u16),
    UnparsedPort,
    ReportMemory,
    ReopenTab,
    OpenSite(Seq<char>),
    CloseTab,
    LaunchApp(Seq<char>),
    CloseApp(Seq<char>),
    ClearBundlerCache,
    NukeNodeModules,
    Sleep,
    NoTarget,
    Unrecognized,
}

impl View for Action {
    type V = ActionModel;

    open spec fn view(&self) -> ActionModel {
        match self {
            Action::KillPort(p) => ActionModel::KillPort(*p),
            Action::UnparsedPort => ActionModel::UnparsedPort,
            Action::ReportMemory => ActionModel::ReportMemory,
            Action::ReopenTab => ActionModel::ReopenTab,
            Action::OpenSite(s) => ActionModel::OpenSite(s@),
            Action::CloseTab => ActionModel::CloseTab,
            Action::LaunchApp(s) => ActionModel::LaunchApp(s@),
            Action::CloseApp(s) => ActionModel::CloseApp(s@),
            Action::ClearBundlerCache => ActionModel::ClearBundlerCache,
            Action::NukeNodeModules => ActionModel::NukeNodeModules,
            Action::Sleep => ActionModel::Sleep,
            Action::NoTarget => ActionModel::NoTarget,
            Action::Unrecognized => ActionModel::Unrecognized,
        }
    }
}

/// The command with the wake words removed and surrounding whitespace trimmed.
pub open spec fn sanitize(command: Seq<char>) -> Seq<char> {
    trim(replace_all(replace_all(command, "argus"@, ""@), "august"@, ""@))
}

/// The command names one of the port verbs.
pub open spec fn is_port_command(c: Seq<char>) -> bool {
    contains(c, "kill port"@) || contains(c, "clear port"@) || contains(c, "close port"@)
        || contains(c, "terminate port"@)
}

/// The command asks to bring back a closed tab.
pub open spec fn is_reopen_command(c: Seq<char>) -> bool {
    contains(c, "last"@) || contains(c, "previous"@) || contains(c, "just closed"@) || contains(
        c,
        "reopen site"@,
    ) || contains(c, "reopen tab"@)
}

/// The site named after "open site" / "open tab".
pub open spec fn site_target(c: Seq<char>) -> Seq<char> {
    trim(replace_all(replace_all(c, "open site"@, ""@), "open tab"@, ""@))
}

/// The application named after "open".
pub open spec fn open_target(c: Seq<char>) -> Seq<char> {
    trim(replace_all(c, "open"@, ""@))
}

/// The application named after "close".
pub open spec fn close_target(c: Seq<char>) -> Seq<char> {
    trim(replace_all(c, "close"@, ""@))
}

/// The routing rules, tried in order; the first that matches decides.
pub open spec fn route_model(c: Seq<char>) -> ActionModel {
    if is_port_command(c) {
        match spoken_port(c) {
            Some(p) => ActionModel::KillPort(p),
            None => ActionModel::UnparsedPort,
        }
    } else if contains(c, "system memory"@) {
        ActionModel::ReportMemory
    } else if is_reopen_command(c) {
        ActionModel::ReopenTab
    } else if contains(c, "open site "@) || contains(c, "open tab "@) {
        ActionModel::OpenSite(site_target(c))
    } else if contains(c, "close site"@) || contains(c, "close tab"@) {
        ActionModel::CloseTab
    } else if contains(c, "open "@) {
        if open_target(c).len() > 0 {
            ActionModel::LaunchApp(open_target(c))
        } else {
            ActionModel::NoTarget
        }
    } else if contains(c, "close "@) && !contains(c, "port"@) {
        if close_target(c).len() > 0 {
            ActionModel::CloseApp(close_target(c))
        } else {
            ActionModel::NoTarget
        }
    } else if contains(c, "clear"@) && contains(c, "cache"@) {
        ActionModel::ClearBundlerCache
    } else if contains(c, "nuke"@) && contains(c, "node"@) {
        ActionModel::NukeNodeModules
    } else if contains(c, "sleep"@) && !contains(c, "port"@) {
        ActionModel::Sleep
    } else {
        ActionModel::Unrecognized
    }
}

/// Removes the wake words and trims the command, as the router hears it.
pub fn sanitize_command(command: &str) -> (out: String)
    ensures
        out@ == sanitize(command@),
{
    proof {
        reveal_strlit("argus");
        reveal_strlit("august");
    }
    let a = replace_str(command, "argus", "");
    let b = replace_str(a.as_str(), "august", "");
    String::from_str(trim_str(b.as_str()))
}

/// Chooses the action for a sanitized command.
pub fn route(clean_cmd: &str) -> (a: Action)
    ensures
        a@ == route_model(clean_cmd@),
{
    let c = clean_cmd;
    if contains_str(c, "kill port") || contains_str(c, "clear port") || contains_str(c, "close port")
        || contains_str(c, "terminate port") {
        match extract_dynamic_port(c) {
            Some(p) => Action::KillPort(p),
            None => Action::UnparsedPort,
        }
    } else if contains_str(c, "system memory") {
        Action::ReportMemory
    } else if contains_str(c, "last") || contains_str(c, "previous") || contains_str(c, "just closed")
        || contains_str(c, "reopen site") || contains_str(c, "reopen tab") {
        Action::ReopenTab
    } else if contains_str(c, "open site ") || contains_str(c, "open tab ") {
        proof {
            reveal_strlit("open site");
            reveal_strlit("open tab");
        }
        let a = replace_str(c, "open site", "");
        let b = replace_str(a.as_str(), "open tab", "");
        Action::OpenSite(String::from_str(trim_str(b.as_str())))
    } else if contains_str(c, "close site") || contains_str(c, "close tab") {
        Action::CloseTab
    } else if contains_str(c, "open ") {
        proof {
            reveal_strlit("open");
        }
        let a = replace_str(c, "open", "");
        let t = trim_str(a.as_str());
        if t.unicode_len() > 0 {
            Action::LaunchApp(String::from_str(t))
        } else {
            Action::NoTarget
        }
    } else if contains_str(c, "close ") && !contains_str(c, "port") {
        proof {
            reveal_strlit("close");
        }
        let a = replace_str(c, "close", "");
        let t = trim_str(a.as_str());
        if t.unicode_len() > 0 {
            Action::CloseApp(String::from_str(t))
        } else {
            Action::NoTarget
        }
    } else if contains_str(c, "clear") && contains_str(c, "cache") {
        Action::ClearBundlerCache
    } else if contains_str(c, "nuke") && contains_str(c, "node") {
        Action::NukeNodeModules
    } else if contains_str(c, "sleep") && !contains_str(c, "port") {
        Action::Sleep
    } else {
        Action::Unrecognized
    }
}

// ---------------------------------------------------------------------------
// The shared log
// ---------------------------------------------------------------------------

/// The log line that records a sanitized command as heard.
pub open spec fn heard_log_model(clean: Seq<char>) -> Seq<char> {
    "[VOICE] Heard: '"@ + clean + "'"@
}

/// The log line that records an action; none for a site (its line depends on
/// the bookmark lookup) and none when there is nothing to do.
pub open spec fn action_log_model(a: ActionModel) -> Option<Seq<char>> {
    match a {
        ActionModel::KillPort(p) => Some("[ACTION] Terminating port "@ + decimal(p as nat) + "..."@),
        ActionModel::UnparsedPort => Some("[ERROR] Could not parse port number."@),
        ActionModel::ReportMemory => Some("[ACTION] Scanning system telemetry..."@),
        ActionModel::ReopenTab => Some("[ACTION] Resurrecting previous tab..."@),
        ActionModel::OpenSite(_) => None,
        ActionModel::CloseTab => Some("[ACTION] Closing current browser tab..."@),
        ActionModel::LaunchApp(t) => Some("[ACTION] Launching App: "@ + t),
        ActionModel::CloseApp(t) => Some("[ACTION] Closing App: "@ + t),
        ActionModel::ClearBundlerCache => Some("[ACTION] Clearing Metro/Watchman cache..."@),
        ActionModel::NukeNodeModules => Some("[ACTION] Nuking node_modules & reinstalling..."@),
        ActionModel::Sleep => Some("[SYSTEM] Going dormant..."@),
        ActionModel::NoTarget => None,
        ActionModel::Unrecognized => Some("[WARNING] Command not recognized by router."@),
    }
}

/// The log line that records a site request: opened when the bookmark was
/// found, an error otherwise.
pub open spec fn site_log_model(target: Seq<char>, found: bool) -> Seq<char> {
    if found {
        "[ACTION] Opening URL: "@ + target
    } else {
        "[ERROR] Unmapped URL target: '"@ + target + "'"@
    }
}

/// The log line for a command as heard.
pub fn heard_log_line(clean_cmd: &str) -> (s: String)
    ensures
        s@ == heard_log_model(clean_cmd@),
{
    let mut s = String::from_str("[VOICE] Heard: '");
    s.append(clean_cmd);
    s.append("'");
    s
}

/// The log line for an action, if it has one of its own.
pub fn log_line(action: &Action) -> (s: Option<String>)
    ensures
        match s {
            Some(l) => action_log_model(action@) == Some(l@),
            None => action_log_model(action@) is None,
        },
{
    match action {
        Action::KillPort(p) => {
            let mut s = String::from_str("[ACTION] Terminating port ");
            let digits = u16_to_decimal(*p);
            s.append(digits.as_str());
            s.append("...");
            Some(s)
        },
        Action::UnparsedPort => Some(String::from_str("[ERROR] Could not parse port number.")),
        Action::ReportMemory => Some(String::from_str("[ACTION] Scanning system telemetry...")),
        Action::ReopenTab => Some(String::from_str("[ACTION] Resurrecting previous tab...")),
        Action::OpenSite(_) => None,
        Action::CloseTab => Some(String::from_str("[ACTION] Closing current browser tab...")),
        Action::LaunchApp(t) => {
            let mut s = String::from_str("[ACTION] Launching App: ");
            s.append(t.as_str());
            Some(s)
        },
        Action::CloseApp(t) => {
            let mut s = String::from_str("[ACTION] Closing App: ");
            s.append(t.as_str());
            Some(s)
        },
        Action::ClearBundlerCache => Some(String::from_str("[ACTION] Clearing Metro/Watchman cache...")),
        Action::NukeNodeModules => Some(
            String::from_str("[ACTION] Nuking node_modules & reinstalling..."),
        ),
        Action::Sleep => Some(String::from_str("[SYSTEM] Going dormant...")),
        Action::NoTarget => None,
        Action::Unrecognized => Some(String::from_str("[WARNING] Command not recognized by router.")),
    }
}

/// The log line for a site request.
pub fn site_log_line(target: &str, found: bool) -> (s: String)
    ensures
        s@ == site_log_model(target@, found),
{
    if found {
        let mut s = String::from_str("[ACTION] Opening URL: ");
        s.append(target);
        s
    } else {
        let mut s = String::from_str("[ERROR] Unmapped URL target: '");
        s.append(target);
        s.append("'");
        s
    }
}

// ---------------------------------------------------------------------------
// Laws of routing
// ---------------------------------------------------------------------------

/// Every command that names a port verb ("kill port", "clear port",
/// "close port" or "terminate port") is a port command: it kills the port it
/// names, or reports that the port could not be understood.
pub proof fn law_port_verbs_route_to_port_actions(c: Seq<char>)
    requires
        contains(c, "kill port"@) || contains(c, "clear port"@) || contains(c, "close port"@)
            || contains(c, "terminate port"@),
    ensures
        spoken_port(c) matches Some(p) ==> route_model(c) == ActionModel::KillPort(p),
        spoken_port(c) is None ==> route_model(c) == ActionModel::UnparsedPort,
{
}

/// The routing rules, first match first: a port verb; "system memory"; a
/// request to reopen ("last", "previous", "just closed", "reopen site",
/// "reopen tab"); "open site " / "open tab " with the site named after it;
/// "close site" / "close tab"; "open " with the application named after it;
/// "close " (without "port") with the application named after it; "clear"
/// with "cache"; "nuke" with "node"; "sleep" (without "port"); else nothing
/// is recognised.
pub proof fn law_routing_rules(c: Seq<char>)
    ensures
        ({
            let port = contains(c, "kill port"@) || contains(c, "clear port"@) || contains(
                c,
                "close port"@,
            ) || contains(c, "terminate port"@);
            let memory = contains(c, "system memory"@);
            let reopen = contains(c, "last"@) || contains(c, "previous"@) || contains(
                c,
                "just closed"@,
            ) || contains(c, "reopen site"@) || contains(c, "reopen tab"@);
            let site = contains(c, "open site "@) || contains(c, "open tab "@);
            let close_tab = contains(c, "close site"@) || contains(c, "close tab"@);
            let open = contains(c, "open "@);
            let close = contains(c, "close "@) && !contains(c, "port"@);
            let cache = contains(c, "clear"@) && contains(c, "cache"@);
            let nuke = contains(c, "nuke"@) && contains(c, "node"@);
            let sleep = contains(c, "sleep"@) && !contains(c, "port"@);
            let app_opened = trim(replace_all(c, "open"@, ""@));
            let app_closed = trim(replace_all(c, "close"@, ""@));
            &&& !port && memory ==> route_model(c) == ActionModel::ReportMemory
            &&& !port && !memory && reopen ==> route_model(c) == ActionModel::ReopenTab
            &&& !port && !memory && !reopen && site ==> route_model(c) == ActionModel::OpenSite(
                trim(replace_all(replace_all(c, "open site"@, ""@), "open tab"@, ""@)),
            )
            &&& !port && !memory && !reopen && !site && close_tab ==> route_model(c)
                == ActionModel::CloseTab
            &&& !port && !memory && !reopen && !site && !close_tab && open ==> route_model(c) == (
            if app_opened.len() > 0 {
                ActionModel::LaunchApp(app_opened)
            } else {
                ActionModel::NoTarget
            })
            &&& !port && !memory && !reopen && !site && !close_tab && !open && close ==> route_model(c)
                == (if app_closed.len() > 0 {
                ActionModel::CloseApp(app_closed)
            } else {
                ActionModel::NoTarget
            })
            &&& !port && !memory && !reopen && !site && !close_tab && !open && !close && cache
                ==> route_model(c) == ActionModel::ClearBundlerCache
            &&& !port && !memory && !reopen && !site && !close_tab && !open && !close && !cache
                && nuke ==> route_model(c) == ActionModel::NukeNodeModules
            &&& !port && !memory && !reopen && !site && !close_tab && !open && !close && !cache
                && !nuke && sleep ==> route_model(c) == ActionModel::Sleep
            &&& !port && !memory && !reopen && !site && !close_tab && !open && !close && !cache
                && !nuke && !sleep ==> route_model(c) == ActionModel::Unrecognized
        }),
{
}

/// Sanitizing a command that holds no wake word only trims it.
pub proof fn law_sanitize_without_wake_words(c: Seq<char>)
    requires
        !contains(c, "argus"@),
        !contains(c, "august"@),
    ensures
        sanitize(c) == trim(c),
{
    reveal_strlit("argus");
    reveal_strlit("august");
    lemma_replace_absent(c, "argus"@, ""@);
    lemma_replace_absent(c, "august"@, ""@);
}

/// A leading wake word ("argus" or "august") is removed from a command that
/// has no other "a" in it.
pub proof fn law_sanitize_drops_leading_wake_word(c: Seq<char>)
    requires
        forall|i: int| 0 <= i < c.len() ==> #[trigger] c[i] != 'a',
    ensures
        sanitize("argus"@ + c) == trim(c),
        sanitize("august"@ + c) == trim(c),
{
    reveal_strlit("argus");
    reveal_strlit("august");
    reveal_strlit("");
    assert(""@ =~= Seq::<char>::empty());
    lemma_missing_char_not_contained(c, "argus"@, 0);
    lemma_missing_char_not_contained(c, "august"@, 0);
    lemma_replace_leading("argus"@, c);
    lemma_replace_absent(c, "august"@, ""@);
    let s = "august"@ + c;
    assert forall|i: int| !#[trigger] matches_at(s, i, "argus"@) by {
        if matches_at(s, i, "argus"@) {
            assert(s.subrange(i, i + 5)[0] == s[i]);
            assert(s.subrange(i, i + 5)[1] == s[i + 1]);
            if i >= 6 {
                assert(s[i] == c[i - 6]);
            } else if i > 0 {
                assert(s[i] == "august"@[i]);
                assert(i == 1 || i == 2 || i == 3 || i == 4 || i == 5);
            } else {
                assert(s[1] == 'u');
            }
        }
    }
    lemma_replace_absent(s, "argus"@, ""@);
    lemma_replace_leading("august"@, c);
}

/// The log lines of the actions, word for word.
pub proof fn law_log_line_text(p: u16, name: Seq<char>, clean: Seq<char>)
    ensures
        heard_log_model(clean) == "[VOICE] Heard: '"@ + clean + "'"@,
        action_log_model(ActionModel::KillPort(p)) == Some(
            "[ACTION] Terminating port "@ + decimal(p as nat) + "..."@,
        ),
        action_log_model(ActionModel::UnparsedPort) == Some("[ERROR] Could not parse port number."@),
        action_log_model(ActionModel::ReportMemory) == Some("[ACTION] Scanning system telemetry..."@),
        action_log_model(ActionModel::ReopenTab) == Some("[ACTION] Resurrecting previous tab..."@),
        action_log_model(ActionModel::OpenSite(name)) is None,
        action_log_model(ActionModel::CloseTab) == Some("[ACTION] Closing current browser tab..."@),
        action_log_model(ActionModel::LaunchApp(name)) == Some("[ACTION] Launching App: "@ + name),
        action_log_model(ActionModel::CloseApp(name)) == Some("[ACTION] Closing App: "@ + name),
        action_log_model(ActionModel::ClearBundlerCache) == Some(
            "[ACTION] Clearing Metro/Watchman cache..."@,
        ),
        action_log_model(ActionModel::NukeNodeModules) == Some(
            "[ACTION] Nuking node_modules & reinstalling..."@,
        ),
        action_log_model(ActionModel::Sleep) == Some("[SYSTEM] Going dormant..."@),
        action_log_model(ActionModel::NoTarget) is None,
        action_log_model(ActionModel::Unrecognized) == Some(
            "[WARNING] Command not recognized by router."@,
        ),
        site_log_model(name, true) == "[ACTION] Opening URL: "@ + name,
        site_log_model(name, false) == "[ERROR] Unmapped URL target: '"@ + name + "'"@,
{
}

} // verus!
