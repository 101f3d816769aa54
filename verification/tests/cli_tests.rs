use wired::cli::{
    is_off_value, is_on_value, parse_action_index, parse_socket_command, parse_window_selector,
    process_cli, process_cli_args, validate_action, validate_identifier, CLIError, CliPlan, SocketCommand,
    WindowSelector,
};

fn s(x: &str) -> Option<String> {
    Some(x.to_string())
}

#[test]
fn identifiers_accepted() {
    assert_eq!(validate_identifier("latest", false), Ok(()));
    assert_eq!(validate_identifier("all", true), Ok(()));
    assert_eq!(validate_identifier("id42", false), Ok(()));
    assert_eq!(validate_identifier("3", false), Ok(()));
}

#[test]
fn identifiers_refused() {
    assert_eq!(
        validate_identifier("all", false),
        Err("Notification identifier must be either [latest], a valid notification ID (unsigned integer), or a valid notification index (usize).")
    );
    assert_eq!(
        validate_identifier("idx", false),
        Err("Notification ID must be a valid unsigned integer.")
    );
    assert_eq!(
        validate_identifier("id4294967296", false),
        Err("Notification ID must be a valid unsigned integer.")
    );
}

#[test]
fn actions_validated() {
    for a in ["default", "1", "2", "3"] {
        assert_eq!(validate_action(a), Ok(()));
    }
    assert_eq!(
        validate_action("4"),
        Err("Notification action must be one of [default|1|2|3].")
    );
}

#[test]
fn on_off_words() {
    for w in ["on", "true", "1", "enable", "activate", "zzz"] {
        assert!(is_on_value(w));
        assert!(!is_off_value(w));
    }
    for w in ["off", "false", "0", "disable", "deactivate"] {
        assert!(is_off_value(w));
        assert!(!is_on_value(w));
    }
    assert!(!is_on_value("maybe") && !is_off_value("maybe"));
}

#[test]
fn selectors_parse() {
    assert!(matches!(parse_window_selector("latest"), Ok(WindowSelector::Latest)));
    assert!(matches!(parse_window_selector("id9"), Ok(WindowSelector::Id(9))));
    assert!(matches!(parse_window_selector("4"), Ok(WindowSelector::Index(4))));
    assert!(matches!(
        parse_window_selector("idq"),
        Err(CLIError::Parse("ID is not of type u32."))
    ));
    assert!(matches!(
        parse_window_selector("newest"),
        Err(CLIError::Parse("Value must be one of latest, id<u32>, or <usize>."))
    ));
}

#[test]
fn socket_commands_parse() {
    assert!(matches!(parse_socket_command("drop:all"), Ok(SocketCommand::DropAll)));
    assert!(matches!(
        parse_socket_command("drop:id5"),
        Ok(SocketCommand::Drop(WindowSelector::Id(5)))
    ));
    match parse_socket_command("action:latest,default") {
        Ok(SocketCommand::Action(WindowSelector::Latest, a)) => assert_eq!(a, "default"),
        other => panic!("unexpected {:?}", other),
    }
    assert!(matches!(parse_socket_command("show:id3"), Ok(SocketCommand::ShowId(3))));
    assert!(matches!(parse_socket_command("show:2"), Ok(SocketCommand::ShowLast(2))));
    assert!(matches!(parse_socket_command("dnd:on"), Ok(SocketCommand::Dnd(Some(true)))));
    assert!(matches!(parse_socket_command("dnd:off"), Ok(SocketCommand::Dnd(Some(false)))));
    assert!(matches!(parse_socket_command("dnd:what"), Ok(SocketCommand::Dnd(None))));
    assert!(matches!(parse_socket_command("kill:"), Ok(SocketCommand::Kill)));
}

#[test]
fn socket_command_errors() {
    assert!(matches!(
        parse_socket_command("drop"),
        Err(CLIError::Parse("Malformed command."))
    ));
    assert!(matches!(parse_socket_command("fly:away"), Err(CLIError::InvalidCommand)));
    assert!(matches!(
        parse_socket_command("action:latest"),
        Err(CLIError::Parse("Malformed action request."))
    ));
    assert!(matches!(
        parse_socket_command("show:idz"),
        Err(CLIError::Parse("Value is not of type u32."))
    ));
    assert!(matches!(
        parse_socket_command("show:-1"),
        Err(CLIError::Parse("Value is not of type usize."))
    ));
}

#[test]
fn action_index_parse() {
    assert!(matches!(parse_action_index("2"), Ok(2)));
    assert!(matches!(
        parse_action_index("default"),
        Err(CLIError::Parse("Value is not of type usize."))
    ));
}

#[test]
fn cli_without_options_runs() {
    assert!(matches!(
        process_cli(1, false, false, false, false, None, None, None, None),
        CliPlan::Run
    ));
}

#[test]
fn cli_help_version_run() {
    assert!(matches!(
        process_cli(2, true, true, false, false, None, None, None, None),
        CliPlan::PrintUsage
    ));
    assert!(matches!(
        process_cli(2, false, true, true, false, None, None, None, None),
        CliPlan::PrintVersion
    ));
    assert!(matches!(
        process_cli(2, false, false, true, true, None, None, None, None),
        CliPlan::Run
    ));
    assert!(matches!(
        process_cli(2, false, false, false, false, None, None, None, None),
        CliPlan::Done
    ));
}

#[test]
fn cli_messages_in_order() {
    match process_cli(6, false, false, false, true, s("all"), s("latest:default"), s("on"), s("2")) {
        CliPlan::Send(msgs, err) => {
            assert_eq!(
                msgs,
                vec!["kill:", "drop:all", "action:latest,default", "dnd:on", "show:2"]
            );
            assert_eq!(err, None);
        }
        other => panic!("unexpected {:?}", other),
    }
}

#[test]
fn cli_stops_at_refused_option() {
    match process_cli(4, false, false, false, false, s("1"), s("latest"), s("on"), None) {
        CliPlan::Send(msgs, err) => {
            assert_eq!(msgs, vec!["drop:1"]);
            assert_eq!(
                err,
                Some("Missing ':' in action argument.\nNotification and action arguments must be in the format of [latest|N]:[default|1|2|3]")
            );
        }
        other => panic!("unexpected {:?}", other),
    }
    match process_cli(2, false, false, false, false, None, None, s("maybe"), None) {
        CliPlan::Send(msgs, err) => {
            assert!(msgs.is_empty());
            assert_eq!(
                err,
                Some("The DND flag takes a bool argument, but I didn't recognize any.\nAllowed values are: on|off true|false 1|0 enable|disable")
            );
        }
        other => panic!("unexpected {:?}", other),
    }
}

#[test]
fn cli_message_is_read_back_by_daemon() {
    // What the client sends, the daemon's socket parser reads as the same command.
    match process_cli(2, false, false, false, false, None, s("id7:2"), None, None) {
        CliPlan::Send(msgs, None) => match parse_socket_command(&msgs[0]) {
            Ok(SocketCommand::Action(WindowSelector::Id(7), a)) => assert_eq!(a, "2"),
            other => panic!("unexpected {:?}", other),
        },
        other => panic!("unexpected {:?}", other),
    }
    match process_cli(2, false, false, false, false, s("all"), None, None, None) {
        CliPlan::Send(msgs, None) => {
            assert!(matches!(parse_socket_command(&msgs[0]), Ok(SocketCommand::DropAll)))
        }
        other => panic!("unexpected {:?}", other),
    }
}

fn argv(xs: &[&str]) -> Vec<String> {
    xs.iter().map(|x| x.to_string()).collect()
}

#[test]
fn raw_arguments_are_read_with_getopts() {
    assert!(matches!(process_cli_args(&argv(&["wired"])), Ok(CliPlan::Run)));
    assert!(matches!(process_cli_args(&argv(&["wired", "--help"])), Ok(CliPlan::PrintUsage)));
    assert!(matches!(process_cli_args(&argv(&["wired", "-v"])), Ok(CliPlan::PrintVersion)));
    assert!(matches!(process_cli_args(&argv(&["wired", "--run"])), Ok(CliPlan::Run)));
    match process_cli_args(&argv(&["wired", "-x", "--drop", "all", "-alatest:default", "--dnd=on", "-s", "2"])) {
        Ok(CliPlan::Send(msgs, err)) => {
            assert_eq!(
                msgs,
                vec!["kill:", "drop:all", "action:latest,default", "dnd:on", "show:2"]
            );
            assert_eq!(err, None);
        }
        other => panic!("unexpected {:?}", other),
    }
}

#[test]
fn getopts_errors_come_back_as_text() {
    assert_eq!(
        process_cli_args(&argv(&["wired", "--nope"])).err(),
        Some("Unrecognized option: 'nope'".to_string())
    );
    assert_eq!(
        process_cli_args(&argv(&["wired", "--drop"])).err(),
        Some("Argument to option 'drop' missing".to_string())
    );
}
