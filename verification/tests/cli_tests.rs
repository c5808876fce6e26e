use portdetective::cli::{Cli, CliParseError, Commands, ProtocolFilter};

#[test]
fn test_bare_port_argument() {
    let cli = Cli::parse_from(&["portdetective", "3000"]);
    assert_eq!(cli.port, Some(3000));
    assert!(cli.command.is_none());
}

#[test]
fn test_inspect_subcommand() {
    let cli = Cli::parse_from(&["portdetective", "inspect", "8080"]);
    assert!(matches!(cli.command, Some(Commands::Inspect { port: 8080 })));
}

#[test]
fn test_inspect_alias() {
    let cli = Cli::parse_from(&["portdetective", "i", "8080"]);
    assert!(matches!(cli.command, Some(Commands::Inspect { port: 8080 })));
}

#[test]
fn test_kill_subcommand_defaults() {
    let cli = Cli::parse_from(&["portdetective", "kill", "3000"]);
    match cli.command {
        Some(Commands::Kill { port, force, no_prompt }) => {
            assert_eq!(port, 3000);
            assert!(!force);
            assert!(!no_prompt);
        }
        _ => panic!("Expected Kill command"),
    }
}

#[test]
fn test_kill_with_force_flag() {
    let cli = Cli::parse_from(&["portdetective", "kill", "3000", "--force"]);
    match cli.command {
        Some(Commands::Kill { force, .. }) => assert!(force),
        _ => panic!("Expected Kill command"),
    }
}

#[test]
fn test_kill_with_no_prompt_flag() {
    let cli = Cli::parse_from(&["portdetective", "kill", "3000", "-y"]);
    match cli.command {
        Some(Commands::Kill { no_prompt, .. }) => assert!(no_prompt),
        _ => panic!("Expected Kill command"),
    }
}

#[test]
fn test_list_subcommand() {
    let cli = Cli::parse_from(&["portdetective", "list"]);
    assert!(matches!(cli.command, Some(Commands::List)));
}

#[test]
fn test_list_aliases() {
    let cli_l = Cli::parse_from(&["portdetective", "l"]);
    let cli_ls = Cli::parse_from(&["portdetective", "ls"]);
    assert!(matches!(cli_l.command, Some(Commands::List)));
    assert!(matches!(cli_ls.command, Some(Commands::List)));
}

#[test]
fn test_json_flag_global() {
    let cli = Cli::parse_from(&["portdetective", "--json", "3000"]);
    assert!(cli.json);

    let cli2 = Cli::parse_from(&["portdetective", "list", "--json"]);
    assert!(cli2.json);
}

#[test]
fn test_tcp_only_filter() {
    let cli = Cli::parse_from(&["portdetective", "--tcp", "3000"]);
    assert!(cli.tcp);
    assert!(!cli.udp);
    assert_eq!(cli.protocol_filter(), ProtocolFilter::TcpOnly);
}

#[test]
fn test_udp_only_filter() {
    let cli = Cli::parse_from(&["portdetective", "--udp", "3000"]);
    assert!(!cli.tcp);
    assert!(cli.udp);
    assert_eq!(cli.protocol_filter(), ProtocolFilter::UdpOnly);
}

#[test]
fn test_default_filter_is_both() {
    let cli = Cli::parse_from(&["portdetective", "3000"]);
    assert_eq!(cli.protocol_filter(), ProtocolFilter::Both);
}

#[test]
fn test_tcp_udp_conflict() {
    let result = Cli::try_parse_from(&["portdetective", "--tcp", "--udp", "3000"]);
    assert!(result.is_err());
}

#[test]
fn test_protocol_conflict_error_kind() {
    let result = Cli::try_parse_from(&["portdetective", "--udp", "--tcp", "list"]);
    assert_eq!(result, Err(CliParseError::ProtocolConflict));
}

#[test]
fn test_unknown_option_rejected() {
    let result = Cli::try_parse_from(&["portdetective", "--bogus", "3000"]);
    assert_eq!(result, Err(CliParseError::UnknownOption));
}

#[test]
fn test_port_out_of_range_rejected() {
    let result = Cli::try_parse_from(&["portdetective", "inspect", "70000"]);
    assert_eq!(result, Err(CliParseError::InvalidPortValue));
}

#[test]
fn test_port_not_a_number_rejected() {
    let result = Cli::try_parse_from(&["portdetective", "inspect", "eighty"]);
    assert_eq!(result, Err(CliParseError::InvalidPortValue));
}

#[test]
fn test_kill_missing_port_rejected() {
    let result = Cli::try_parse_from(&["portdetective", "kill"]);
    assert_eq!(result, Err(CliParseError::MissingPort));
}

#[test]
fn test_too_many_arguments_rejected() {
    let result = Cli::try_parse_from(&["portdetective", "3000", "4000"]);
    assert_eq!(result, Err(CliParseError::UnexpectedArgument));
}

#[test]
fn test_force_outside_kill_rejected() {
    let result = Cli::try_parse_from(&["portdetective", "list", "--force"]);
    assert_eq!(result, Err(CliParseError::UnexpectedOption));
}

#[test]
fn test_largest_port_accepted() {
    let cli = Cli::parse_from(&["portdetective", "65535"]);
    assert_eq!(cli.port, Some(65535));
}
