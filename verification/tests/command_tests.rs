use redis_starter_rust::command::{
    CommandError, InfoSection, RedisCommand, ReplconfCommand, SetCommandOption,
};
use redis_starter_rust::resp::RESP;

#[test]
fn test_new_ping() {
    let resp = RESP::Array(vec![RESP::BulkStrings("PING".to_string())]);
    assert_eq!(RedisCommand::new(resp).unwrap(), RedisCommand::Ping);
}

#[test]
fn test_new_echo() {
    let resp = RESP::Array(vec![
        RESP::BulkStrings("ECHO".to_string()),
        RESP::BulkStrings("hello".to_string()),
    ]);
    assert_eq!(
        RedisCommand::new(resp).unwrap(),
        RedisCommand::Echo("hello".to_string())
    );
}

#[test]
fn test_new_set() {
    let resp = RESP::Array(vec![
        RESP::BulkStrings("SET".to_string()),
        RESP::BulkStrings("key".to_string()),
        RESP::BulkStrings("value".to_string()),
        RESP::BulkStrings("px".to_string()),
        RESP::BulkStrings("1000".to_string()),
    ]);
    assert_eq!(
        RedisCommand::new(resp).unwrap(),
        RedisCommand::SetCmd {
            key: "key".to_string(),
            value: "value".to_string(),
            options: vec![SetCommandOption::Px(1000)]
        }
    );
}

#[test]
fn test_new_get() {
    let resp = RESP::Array(vec![
        RESP::BulkStrings("GET".to_string()),
        RESP::BulkStrings("key".to_string()),
    ]);
    assert_eq!(
        RedisCommand::new(resp).unwrap(),
        RedisCommand::Get {
            key: "key".to_string()
        }
    );
}

#[test]
fn test_new_info() {
    let resp = RESP::Array(vec![RESP::BulkStrings("INFO".to_string())]);
    assert_eq!(
        RedisCommand::new(resp).unwrap(),
        RedisCommand::Info {
            section: InfoSection::All
        }
    );

    let resp = RESP::Array(vec![
        RESP::BulkStrings("INFO".to_string()),
        RESP::BulkStrings("replication".to_string()),
    ]);
    assert_eq!(
        RedisCommand::new(resp).unwrap(),
        RedisCommand::Info {
            section: InfoSection::Replication
        }
    );
}

#[test]
fn test_new_replconf() {
    let resp = RESP::Array(vec![
        RESP::BulkStrings("REPLCONF".to_string()),
        RESP::BulkStrings("listening-port".to_string()),
        RESP::BulkStrings("12345".to_string()),
    ]);
    assert_eq!(
        RedisCommand::new(resp).unwrap(),
        RedisCommand::Replconf {
            command: ReplconfCommand::ListeningPort("12345".to_string())
        }
    );

    let resp = RESP::Array(vec![
        RESP::BulkStrings("REPLCONF".to_string()),
        RESP::BulkStrings("capa".to_string()),
        RESP::BulkStrings("eof".to_string()),
    ]);
    assert_eq!(
        RedisCommand::new(resp).unwrap(),
        RedisCommand::Replconf {
            command: ReplconfCommand::Capa("eof".to_string())
        }
    );
}

#[test]
fn test_new_psync() {
    let resp = RESP::Array(vec![
        RESP::BulkStrings("PSYNC".to_string()),
        RESP::BulkStrings("master_replid".to_string()),
        RESP::BulkStrings("1000".to_string()),
    ]);
    assert_eq!(
        RedisCommand::new(resp).unwrap(),
        RedisCommand::Psync {
            master_replid: "master_replid".to_string(),
            master_repl_offset: 1000
        }
    );
}

#[test]
fn test_new_psync_negative_offset() {
    let resp = RESP::Array(vec![
        RESP::BulkStrings("PSYNC".to_string()),
        RESP::BulkStrings("?".to_string()),
        RESP::BulkStrings("-1".to_string()),
    ]);
    assert_eq!(
        RedisCommand::new(resp).unwrap(),
        RedisCommand::Psync {
            master_replid: "?".to_string(),
            master_repl_offset: -1
        }
    );
}

#[test]
fn test_new_accepts_simple_string_name() {
    let resp = RESP::Array(vec![RESP::SimpleString("PING".to_string())]);
    assert_eq!(RedisCommand::new(resp).unwrap(), RedisCommand::Ping);
}

#[test]
fn test_new_unknown_command() {
    let resp = RESP::Array(vec![RESP::BulkStrings("FLUSH".to_string())]);
    assert_eq!(
        RedisCommand::new(resp).unwrap_err(),
        CommandError::UnknownCommand
    );
}

#[test]
fn test_new_wrong_shape() {
    assert_eq!(
        RedisCommand::new(RESP::SimpleString("PING".to_string())).unwrap_err(),
        CommandError::WrongShape
    );
    assert_eq!(
        RedisCommand::new(RESP::Array(vec![])).unwrap_err(),
        CommandError::WrongShape
    );
    let resp = RESP::Array(vec![RESP::BulkStrings("ECHO".to_string())]);
    assert_eq!(RedisCommand::new(resp).unwrap_err(), CommandError::WrongShape);
    let resp = RESP::Array(vec![
        RESP::BulkStrings("SET".to_string()),
        RESP::BulkStrings("key".to_string()),
        RESP::BulkStrings("value".to_string()),
        RESP::BulkStrings("px".to_string()),
    ]);
    assert_eq!(RedisCommand::new(resp).unwrap_err(), CommandError::WrongShape);
}

#[test]
fn test_new_unknown_option() {
    let resp = RESP::Array(vec![
        RESP::BulkStrings("SET".to_string()),
        RESP::BulkStrings("key".to_string()),
        RESP::BulkStrings("value".to_string()),
        RESP::BulkStrings("ex".to_string()),
        RESP::BulkStrings("10".to_string()),
    ]);
    assert_eq!(
        RedisCommand::new(resp).unwrap_err(),
        CommandError::UnknownOption
    );
}

#[test]
fn test_new_unknown_section() {
    let resp = RESP::Array(vec![
        RESP::BulkStrings("INFO".to_string()),
        RESP::BulkStrings("keyspace".to_string()),
    ]);
    assert_eq!(
        RedisCommand::new(resp).unwrap_err(),
        CommandError::UnknownSection
    );
}

#[test]
fn test_new_unknown_subcommand() {
    let resp = RESP::Array(vec![
        RESP::BulkStrings("REPLCONF".to_string()),
        RESP::BulkStrings("getack".to_string()),
        RESP::BulkStrings("*".to_string()),
    ]);
    assert_eq!(
        RedisCommand::new(resp).unwrap_err(),
        CommandError::UnknownSubcommand
    );
}

#[test]
fn test_new_bad_number() {
    let resp = RESP::Array(vec![
        RESP::BulkStrings("SET".to_string()),
        RESP::BulkStrings("key".to_string()),
        RESP::BulkStrings("value".to_string()),
        RESP::BulkStrings("px".to_string()),
        RESP::BulkStrings("soon".to_string()),
    ]);
    assert_eq!(RedisCommand::new(resp).unwrap_err(), CommandError::BadNumber);
    let resp = RESP::Array(vec![
        RESP::BulkStrings("PSYNC".to_string()),
        RESP::BulkStrings("?".to_string()),
        RESP::BulkStrings("x1".to_string()),
    ]);
    assert_eq!(RedisCommand::new(resp).unwrap_err(), CommandError::BadNumber);
}

#[test]
fn test_option_new() {
    assert_eq!(
        SetCommandOption::new("px", "1000").unwrap(),
        SetCommandOption::Px(1000)
    );
    assert_eq!(
        SetCommandOption::new("ex", "1000").unwrap_err(),
        CommandError::UnknownOption
    );
    assert_eq!(
        SetCommandOption::new("px", "10x").unwrap_err(),
        CommandError::BadNumber
    );
}

#[test]
fn test_info_section_new() {
    assert_eq!(InfoSection::new(None).unwrap(), InfoSection::All);
    assert_eq!(
        InfoSection::new(Some("replication")).unwrap(),
        InfoSection::Replication
    );
    assert_eq!(
        InfoSection::new(Some("server")).unwrap_err(),
        CommandError::UnknownSection
    );
}

#[test]
fn test_replconf_new() {
    assert_eq!(
        ReplconfCommand::new("listening-port", "6380").unwrap(),
        ReplconfCommand::ListeningPort("6380".to_string())
    );
    assert_eq!(
        ReplconfCommand::new("capa", "psync2").unwrap(),
        ReplconfCommand::Capa("psync2".to_string())
    );
    assert_eq!(
        ReplconfCommand::new("ack", "0").unwrap_err(),
        CommandError::UnknownSubcommand
    );
}

#[test]
fn test_to_resp_ping() {
    assert_eq!(
        RedisCommand::Ping.to_resp(),
        RESP::Array(vec![RESP::BulkStrings("PING".to_string())])
    );
}

#[test]
fn test_to_resp_set_with_px() {
    let cmd = RedisCommand::SetCmd {
        key: "k".to_string(),
        value: "v".to_string(),
        options: vec![SetCommandOption::Px(250)],
    };
    assert_eq!(
        cmd.to_resp(),
        RESP::Array(vec![
            RESP::BulkStrings("SET".to_string()),
            RESP::BulkStrings("k".to_string()),
            RESP::BulkStrings("v".to_string()),
            RESP::BulkStrings("px".to_string()),
            RESP::BulkStrings("250".to_string()),
        ])
    );
}

#[test]
fn test_to_resp_psync() {
    let cmd = RedisCommand::Psync {
        master_replid: "?".to_string(),
        master_repl_offset: -1,
    };
    assert_eq!(
        cmd.to_resp(),
        RESP::Array(vec![
            RESP::BulkStrings("PSYNC".to_string()),
            RESP::BulkStrings("?".to_string()),
            RESP::BulkStrings("-1".to_string()),
        ])
    );
}

#[test]
fn test_command_round_trip() {
    let cmd = RedisCommand::Replconf {
        command: ReplconfCommand::ListeningPort("6380".to_string()),
    };
    let again = RedisCommand::new(cmd.to_resp()).unwrap();
    assert_eq!(
        again,
        RedisCommand::Replconf {
            command: ReplconfCommand::ListeningPort("6380".to_string()),
        }
    );
}
