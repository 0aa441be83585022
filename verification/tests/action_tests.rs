use argus::actions::{kill_port_script, quit_app_script};

#[test]
fn kill_port_script_names_the_port() {
    assert_eq!(kill_port_script(8080), "lsof -ti tcp:8080 -sTCP:LISTEN | xargs kill -9");
    assert_eq!(kill_port_script(0), "lsof -ti tcp:0 -sTCP:LISTEN | xargs kill -9");
}

#[test]
fn quit_app_script_quotes_the_name() {
    assert_eq!(quit_app_script("Slack"), "quit app \"Slack\"");
    assert_eq!(quit_app_script("Visual Studio Code"), "quit app \"Visual Studio Code\"");
}
