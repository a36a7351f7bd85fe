use redis_starter_rust::command::{parse_command_array, parse_to_cmd, Command, CommandError};

#[test]
fn test_new_command() {
    let cmd = Command::new("*2\r\n$4\r\necho\r\n$3\r\nhey\r\n".to_string()).unwrap();
    if let Command::ECHO(content) = cmd {
        assert_eq!(content, "hey".to_string())
    }
}

#[test]
fn new_command_gives_echo_variant() {
    let cmd = Command::new("*2\r\n$4\r\necho\r\n$3\r\nhey\r\n".to_string()).unwrap();
    assert!(matches!(cmd, Command::ECHO(ref t) if t == "hey"));
}

#[test]
fn new_command_rejects_bad_frame() {
    let r = Command::new("PING\r\n".to_string());
    assert!(matches!(r, Err(CommandError::ProtocolError)));
    let r = Command::new("*2\r\n$4\r\nECHO\r\n".to_string());
    assert!(matches!(r, Err(CommandError::ProtocolError)));
}

#[test]
fn parse_command_array_reads_tokens() {
    let tokens = parse_command_array("*3\r\n$3\r\nSET\r\n$1\r\nk\r\n$2\r\nvv\r\n").unwrap();
    assert_eq!(tokens, vec!["SET".to_string(), "k".to_string(), "vv".to_string()]);
}

#[test]
fn parse_is_case_insensitive() {
    assert!(matches!(parse_to_cmd(vec!["ping"]), Ok(Command::PING)));
    assert!(matches!(parse_to_cmd(vec!["PiNg"]), Ok(Command::PING)));
    assert!(matches!(parse_to_cmd(vec!["get", "k"]), Ok(Command::GET(ref k)) if k == "k"));
}

#[test]
fn parse_set_with_and_without_ttl() {
    match parse_to_cmd(vec!["SET", "k", "v"]) {
        Ok(Command::SET(k, v, ttl)) => {
            assert_eq!(k, "k");
            assert_eq!(v, "v");
            assert_eq!(ttl, None);
        }
        _ => panic!("expected SET"),
    }
    match parse_to_cmd(vec!["set", "k", "v", "px", "100"]) {
        Ok(Command::SET(k, v, ttl)) => {
            assert_eq!(k, "k");
            assert_eq!(v, "v");
            assert_eq!(ttl, Some(100));
        }
        _ => panic!("expected SET"),
    }
    match parse_to_cmd(vec!["SET", "k", "v", "EX", "100"]) {
        Ok(Command::SET(_, _, ttl)) => assert_eq!(ttl, None),
        _ => panic!("expected SET"),
    }
}

#[test]
fn parse_set_with_bad_ttl_fails() {
    assert!(matches!(
        parse_to_cmd(vec!["SET", "k", "v", "PX", "soon"]),
        Err(CommandError::ParseError)
    ));
    assert!(matches!(
        parse_to_cmd(vec!["SET", "k", "v", "PX", "18446744073709551616"]),
        Err(CommandError::ParseError)
    ));
    match parse_to_cmd(vec!["SET", "k", "v", "PX", "18446744073709551615"]) {
        Ok(Command::SET(_, _, ttl)) => assert_eq!(ttl, Some(u64::MAX)),
        _ => panic!("expected SET"),
    }
}

#[test]
fn parse_missing_arguments_fails() {
    assert!(matches!(parse_to_cmd(vec!["ECHO"]), Err(CommandError::ParseError)));
    assert!(matches!(parse_to_cmd(vec!["SET", "k"]), Err(CommandError::ParseError)));
    assert!(matches!(parse_to_cmd(vec!["GET"]), Err(CommandError::ParseError)));
    assert!(matches!(parse_to_cmd(vec!["INFO"]), Err(CommandError::ParseError)));
    assert!(matches!(parse_to_cmd(vec!["REPLCONF", "capa"]), Err(CommandError::ParseError)));
    assert!(matches!(parse_to_cmd(vec!["PSYNC", "?"]), Err(CommandError::ParseError)));
}

#[test]
fn parse_unknown_command_fails() {
    assert!(matches!(parse_to_cmd(vec!["DEL", "k"]), Err(CommandError::UnknownCommand)));
    assert!(matches!(parse_to_cmd(vec![]), Err(CommandError::UnknownCommand)));
}

#[test]
fn parse_replconf_and_psync() {
    assert!(matches!(parse_to_cmd(vec!["REPLCONF"]), Ok(Command::REPLCONF(None))));
    match parse_to_cmd(vec!["replconf", "listening-port", "6380"]) {
        Ok(Command::REPLCONF(Some((f, v)))) => {
            assert_eq!(f, "listening-port");
            assert_eq!(v, "6380");
        }
        _ => panic!("expected REPLCONF"),
    }
    match parse_to_cmd(vec!["PSYNC", "?", "-1"]) {
        Ok(Command::PSYNC(id, offset)) => {
            assert_eq!(id, "?");
            assert_eq!(offset, "-1");
        }
        _ => panic!("expected PSYNC"),
    }
}

#[test]
fn render_gives_canonical_text() {
    assert_eq!(Command::PING.to_string(), "PING");
    assert_eq!(Command::ECHO("hi".to_string()).to_string(), "ECHO hi");
    assert_eq!(Command::SET("k".to_string(), "v".to_string(), None).to_string(), "SET k v");
    assert_eq!(
        Command::SET("k".to_string(), "v".to_string(), Some(1500)).to_string(),
        "SET k v PX 1500"
    );
    assert_eq!(Command::GET("k".to_string()).to_string(), "GET k");
    assert_eq!(Command::INFO("replication".to_string()).to_string(), "INFO replication");
    assert_eq!(Command::REPLCONF(None).to_string(), "REPLCONF");
    assert_eq!(
        Command::REPLCONF(Some(("capa".to_string(), "psync2".to_string()))).to_string(),
        "REPLCONF capa psync2"
    );
    assert_eq!(Command::PSYNC("?".to_string(), "-1".to_string()).to_string(), "PSYNC ? -1");
}

#[test]
fn render_then_parse_round_trip() {
    let cmds = vec![
        Command::PING,
        Command::ECHO("hello".to_string()),
        Command::SET("key".to_string(), "value".to_string(), None),
        Command::SET("key".to_string(), "value".to_string(), Some(0)),
        Command::SET("key".to_string(), "value".to_string(), Some(u64::MAX)),
        Command::GET("key".to_string()),
        Command::INFO("replication".to_string()),
        Command::REPLCONF(None),
        Command::REPLCONF(Some(("listening-port".to_string(), "6380".to_string()))),
        Command::PSYNC("?".to_string(), "-1".to_string()),
    ];
    for cmd in cmds {
        let text = cmd.to_string();
        let tokens: Vec<&str> = text.split(' ').collect();
        let back = parse_to_cmd(tokens).unwrap();
        assert_eq!(back.to_string(), text);
        assert_eq!(format!("{:?}", back), format!("{:?}", cmd));
    }
}
