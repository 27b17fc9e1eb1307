use palworld_server::response::{
    broadcast_command, extract_version, parse_player_roster, save_success, shutdown_command,
    shutdown_success,
};
use palworld_server::RconError;

#[test]
fn roster_keeps_wellformed_rows_in_order() {
    let text = "name,playeruid,steamid\nAlice,100,7656119\nBob,200,7656120";
    let players = parse_player_roster(text);
    assert_eq!(players.len(), 2);
    assert_eq!(players[0].name, "Alice");
    assert_eq!(players[0].uid, "100");
    assert_eq!(players[0].steamid, "7656119");
    assert_eq!(players[1].name, "Bob");
    assert_eq!(players[1].uid, "200");
    assert_eq!(players[1].steamid, "7656120");
}

#[test]
fn roster_drops_malformed_rows_silently() {
    // two well-formed rows with malformed rows interspersed: exactly the
    // two records, in original order
    let text = "header\njunk\nAlice,100,7656119\ntoo,many,fields,here\n\nBob,200,7656120\nno-commas";
    let players = parse_player_roster(text);
    assert_eq!(players.len(), 2);
    assert_eq!(players[0].name, "Alice");
    assert_eq!(players[1].name, "Bob");
}

#[test]
fn roster_header_only_is_empty() {
    assert_eq!(parse_player_roster("name,playeruid,steamid").len(), 0);
}

#[test]
fn roster_empty_input_is_empty() {
    assert_eq!(parse_player_roster("").len(), 0);
}

#[test]
fn roster_all_malformed_is_empty_not_an_error() {
    let players = parse_player_roster("header\nx\ny;z\na,b\na,b,c,d");
    assert_eq!(players.len(), 0);
}

#[test]
fn roster_empty_fields_are_fields() {
    let players = parse_player_roster("header\n,,");
    assert_eq!(players.len(), 1);
    assert_eq!(players[0].name, "");
    assert_eq!(players[0].uid, "");
    assert_eq!(players[0].steamid, "");
}

#[test]
fn version_extracted_from_banner() {
    let v = extract_version("Welcome to Pal Server[v0.1.3.0] Default Palworld Server").unwrap();
    assert_eq!(v, "v0.1.3.0");
}

#[test]
fn version_absent_is_parse_error() {
    match extract_version("Welcome to Pal Server Default Palworld Server") {
        Err(RconError::Parse) => {}
        other => panic!("expected ParseError, got {:?}", other),
    }
}

#[test]
fn version_needs_four_components() {
    assert!(extract_version("[v1.2.3]").is_err());
    // a fifth component leaves no closing bracket after the fourth
    assert!(extract_version("[v1.2.3.4.5]").is_err());
    assert_eq!(extract_version("[v1.2.3.4]x[v9.9.9.9]").unwrap(), "v1.2.3.4");
}

#[test]
fn version_component_width_is_capped() {
    // ten digits in a component: no match
    assert!(extract_version("[v1234567890.1.1.1]").is_err());
    // nine digits match
    assert_eq!(
        extract_version("[v123456789.1.1.1]").unwrap(),
        "v123456789.1.1.1"
    );
}

#[test]
fn version_requires_brackets_and_v() {
    assert!(extract_version("v0.1.3.0").is_err());
    assert!(extract_version("[0.1.3.0]").is_err());
    assert!(extract_version("[v0.1.3.0").is_err());
}

#[test]
fn save_success_is_the_completion_marker() {
    assert!(save_success("Complete Save"));
    assert!(save_success("xx Complete Save yy"));
    assert!(!save_success("complete save"));
    assert!(!save_success("Save failed"));
    assert!(!save_success(""));
}

#[test]
fn shutdown_success_is_the_shutdown_marker() {
    assert!(shutdown_success("The server will shut down in 30 seconds"));
    assert!(!shutdown_success("shutting down"));
}

#[test]
fn broadcast_rewrites_spaces_when_asked() {
    assert_eq!(
        broadcast_command("Test Message", Some("_")),
        "broadcast Test_Message"
    );
    assert_eq!(
        broadcast_command("a b c", Some("--")),
        "broadcast a--b--c"
    );
    assert_eq!(
        broadcast_command("Test Message", None),
        "broadcast Test Message"
    );
    assert_eq!(broadcast_command("", Some("_")), "broadcast ");
}

#[test]
fn shutdown_command_embeds_delay_and_message() {
    assert_eq!(
        shutdown_command(Some(90), "MESSAGE_HERE"),
        "shutdown 90 MESSAGE_HERE"
    );
    assert_eq!(shutdown_command(None, "bye"), "shutdown 30 bye");
    assert_eq!(shutdown_command(Some(0), ""), "shutdown 0 ");
    assert_eq!(
        shutdown_command(Some(u64::MAX), "m"),
        "shutdown 18446744073709551615 m"
    );
}
