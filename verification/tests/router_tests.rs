use argus::router::{heard_log_line, log_line, route, sanitize_command, site_log_line, Action};

fn kind(a: &Action) -> String {
    match a {
        Action::KillPort(p) => format!("kill {}", p),
        Action::UnparsedPort => "unparsed".to_string(),
        Action::ReportMemory => "memory".to_string(),
        Action::ReopenTab => "reopen".to_string(),
        Action::OpenSite(t) => format!("site {}", t),
        Action::CloseTab => "close tab".to_string(),
        Action::LaunchApp(t) => format!("launch {}", t),
        Action::CloseApp(t) => format!("quit {}", t),
        Action::ClearBundlerCache => "cache".to_string(),
        Action::NukeNodeModules => "nuke".to_string(),
        Action::Sleep => "sleep".to_string(),
        Action::NoTarget => "nothing".to_string(),
        Action::Unrecognized => "unrecognized".to_string(),
    }
}

fn routed(command: &str) -> String {
    kind(&route(&sanitize_command(command)))
}

#[test]
fn sanitize_removes_wake_words_and_trims() {
    assert_eq!(sanitize_command("argus open slack "), "open slack");
    assert_eq!(sanitize_command("  august system memory"), "system memory");
}

#[test]
fn routes_each_kind_of_command() {
    assert_eq!(routed("argus kill port eighty eighty"), "kill 8080");
    assert_eq!(routed("kill port banana"), "unparsed");
    assert_eq!(routed("close port"), "unparsed");
    assert_eq!(routed("system memory"), "memory");
    assert_eq!(routed("reopen tab"), "reopen");
    assert_eq!(routed("open site github"), "site github");
    assert_eq!(routed("open tab you tube"), "site you tube");
    assert_eq!(routed("close tab"), "close tab");
    assert_eq!(routed("open slack"), "launch slack");
    assert_eq!(routed("close slack"), "quit slack");
    assert_eq!(routed("open open"), "nothing");
    assert_eq!(routed("clear cache"), "cache");
    assert_eq!(routed("nuke node"), "nuke");
    assert_eq!(routed("sleep"), "sleep");
    assert_eq!(routed("hello"), "unrecognized");
}

#[test]
fn earlier_rules_win() {
    // "last" asks for the closed tab before "open" is considered.
    assert_eq!(routed("open the last tab"), "reopen");
    // A port command is never taken for an application to close.
    assert_eq!(routed("close port eighty eight"), "kill 88");
    // "sleep" next to "port" is no sleep command.
    assert_eq!(routed("sleep port"), "unrecognized");
}

#[test]
fn log_lines_record_heard_commands_and_actions() {
    assert_eq!(heard_log_line("open slack"), "[VOICE] Heard: 'open slack'");
    assert_eq!(log_line(&Action::KillPort(8080)).as_deref(), Some("[ACTION] Terminating port 8080..."));
    assert_eq!(log_line(&Action::UnparsedPort).as_deref(), Some("[ERROR] Could not parse port number."));
    assert_eq!(
        log_line(&Action::LaunchApp("Slack".to_string())).as_deref(),
        Some("[ACTION] Launching App: Slack")
    );
    assert_eq!(
        log_line(&Action::CloseApp("Slack".to_string())).as_deref(),
        Some("[ACTION] Closing App: Slack")
    );
    assert_eq!(log_line(&Action::Sleep).as_deref(), Some("[SYSTEM] Going dormant..."));
    assert_eq!(
        log_line(&Action::Unrecognized).as_deref(),
        Some("[WARNING] Command not recognized by router.")
    );
    assert_eq!(log_line(&Action::NoTarget), None);
    assert_eq!(log_line(&Action::OpenSite("github".to_string())), None);
    assert_eq!(site_log_line("github", true), "[ACTION] Opening URL: github");
    assert_eq!(site_log_line("gitlab", false), "[ERROR] Unmapped URL target: 'gitlab'");
}
