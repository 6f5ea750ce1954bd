use redis_starter_rust::cli::{CliArgs, CliError};
use redis_starter_rust::command::RedisCommand;
use redis_starter_rust::handler::handle_redis_command;
use redis_starter_rust::handshake::{
    handshake_advance, handshake_expects_reply, handshake_request, handshake_step,
    ExchangeOutcome, HandshakeError, HandshakeState,
};
use redis_starter_rust::resp::RESP;
use redis_starter_rust::server_state::{Role, ServerState};
use redis_starter_rust::store::Store;

const SNAPSHOT: &[u8] = &[0x52, 0x45, 0x44, 0x49, 0x53];

fn primary_state() -> ServerState {
    ServerState::init(Role::Master)
}

#[test]
fn test_ping_scenario() {
    // Decode, interpret, execute, encode: one full pass over a PING.
    let msg = RESP::from_bytes(b"*1\r\n$4\r\nPING\r\n").unwrap();
    let cmd = RedisCommand::new(msg).unwrap();
    assert_eq!(cmd, RedisCommand::Ping);
    let mut store = Store::new();
    let state = primary_state();
    let replies = handle_redis_command(cmd, &mut store, &state, 0, SNAPSHOT);
    assert_eq!(replies.len(), 1);
    let mut out: Vec<u8> = Vec::new();
    for r in replies {
        out.extend(r.as_bytes());
    }
    assert_eq!(out, b"+PONG\r\n");
}

#[test]
fn test_set_scenario() {
    let msg = RESP::from_bytes(b"*3\r\n$3\r\nSET\r\n$3\r\nkey\r\n$5\r\nvalue\r\n").unwrap();
    let cmd = RedisCommand::new(msg).unwrap();
    assert_eq!(
        cmd,
        RedisCommand::SetCmd {
            key: "key".to_string(),
            value: "value".to_string(),
            options: vec![]
        }
    );
    let mut store = Store::new();
    let state = primary_state();
    let replies = handle_redis_command(cmd, &mut store, &state, 0, SNAPSHOT);
    assert_eq!(replies, vec![RESP::SimpleString("OK".to_string())]);
    assert_eq!(
        redis_starter_rust::store::get(&store, "key", 0),
        Some("value".to_string())
    );
}

#[test]
fn test_echo_scenario() {
    let msg = RESP::from_bytes(b"*2\r\n$4\r\nECHO\r\n$3\r\nhey\r\n").unwrap();
    let cmd = RedisCommand::new(msg).unwrap();
    let mut store = Store::new();
    let state = primary_state();
    let replies = handle_redis_command(cmd, &mut store, &state, 0, SNAPSHOT);
    assert_eq!(replies, vec![RESP::BulkStrings("hey".to_string())]);
}

#[test]
fn test_get_absent_scenario() {
    let msg = RESP::from_bytes(b"*2\r\n$3\r\nGET\r\n$4\r\nnope\r\n").unwrap();
    let cmd = RedisCommand::new(msg).unwrap();
    let mut store = Store::new();
    let state = primary_state();
    let replies = handle_redis_command(cmd, &mut store, &state, 0, SNAPSHOT);
    assert_eq!(replies, vec![RESP::NullBulkStrings]);
}

#[test]
fn test_info_primary() {
    let state = primary_state();
    let mut store = Store::new();
    let cmd = RedisCommand::new(RESP::Array(vec![RESP::BulkStrings("INFO".to_string())]))
        .unwrap();
    let replies = handle_redis_command(cmd, &mut store, &state, 0, SNAPSHOT);
    assert_eq!(replies.len(), 1);
    match &replies[0] {
        RESP::BulkStrings(s) => {
            assert!(s.contains("role:master"));
            let rest = s.split("master_replid:").nth(1).unwrap();
            let replid = rest.split('\n').next().unwrap();
            assert!(!replid.is_empty());
            assert!(s.contains("master_repl_offset:0"));
        }
        other => panic!("INFO reply is not a bulk string: {:?}", other),
    }
}

#[test]
fn test_info_replica() {
    let state = ServerState::init(Role::Slave {
        master_host: "localhost".to_string(),
        master_port: "6379".to_string(),
    });
    let mut store = Store::new();
    let cmd = RedisCommand::Info {
        section: redis_starter_rust::command::InfoSection::Replication,
    };
    let replies = handle_redis_command(cmd, &mut store, &state, 0, SNAPSHOT);
    assert_eq!(replies, vec![RESP::BulkStrings("role:slave".to_string())]);
}

#[test]
fn test_psync_reply_frames_snapshot() {
    let state = primary_state();
    let mut store = Store::new();
    let cmd = RedisCommand::Psync {
        master_replid: "?".to_string(),
        master_repl_offset: -1,
    };
    let replies = handle_redis_command(cmd, &mut store, &state, 0, SNAPSHOT);
    assert_eq!(replies.len(), 2);
    match &replies[0] {
        RESP::SimpleString(s) => {
            assert!(s.starts_with("FULLRESYNC "));
            assert!(s.ends_with(" 0"));
            assert!(!s.contains('\n'));
        }
        other => panic!("PSYNC first reply is not a simple string: {:?}", other),
    }
    let mut payload: Vec<u8> = b"$5\r\n".to_vec();
    payload.extend(SNAPSHOT);
    assert_eq!(replies[1], RESP::Rdb(SNAPSHOT.to_vec()));
    let bytes = RESP::Rdb(SNAPSHOT.to_vec()).as_bytes();
    assert_eq!(bytes, payload);
}

#[test]
fn test_replconf_acknowledged() {
    let state = primary_state();
    let mut store = Store::new();
    let cmd = RedisCommand::new(RESP::Array(vec![
        RESP::BulkStrings("REPLCONF".to_string()),
        RESP::BulkStrings("listening-port".to_string()),
        RESP::BulkStrings("6380".to_string()),
    ]))
    .unwrap();
    let replies = handle_redis_command(cmd, &mut store, &state, 0, SNAPSHOT);
    assert_eq!(replies, vec![RESP::SimpleString("OK".to_string())]);
}

#[test]
fn test_handshake_completes() {
    // A replica against a reachable primary: all four exchanges succeed and
    // the state machine reaches Done.
    let mut primary_store = Store::new();
    let primary = primary_state();
    let mut st = HandshakeState::Start;
    let mut steps = 0;
    while st != HandshakeState::Done {
        let req = handshake_request(st, "6380").unwrap();
        // The request travels as bytes and the primary reads it back.
        let wire = req.to_resp().as_bytes();
        let decoded = RESP::from_bytes(&wire).unwrap();
        let cmd = RedisCommand::new(decoded).unwrap();
        let replies = handle_redis_command(cmd, &mut primary_store, &primary, 0, SNAPSHOT);
        if handshake_expects_reply(st) {
            // The replica consumes exactly one reply, checking only that it
            // decodes.
            let reply_wire = replies.into_iter().next().unwrap().as_bytes();
            RESP::from_bytes(&reply_wire).unwrap();
        }
        st = handshake_advance(st);
        steps += 1;
        assert!(steps <= 4);
    }
    assert_eq!(steps, 4);
}

#[test]
fn test_handshake_requests_in_order() {
    let st = HandshakeState::Start;
    assert_eq!(handshake_request(st, "6380").unwrap(), RedisCommand::Ping);
    let st = handshake_advance(st);
    assert_eq!(
        handshake_request(st, "6380").unwrap(),
        RedisCommand::Replconf {
            command: redis_starter_rust::command::ReplconfCommand::ListeningPort(
                "6380".to_string()
            )
        }
    );
    let st = handshake_advance(st);
    assert_eq!(
        handshake_request(st, "6380").unwrap(),
        RedisCommand::Replconf {
            command: redis_starter_rust::command::ReplconfCommand::Capa("psync2".to_string())
        }
    );
    let st = handshake_advance(st);
    assert_eq!(
        handshake_request(st, "6380").unwrap(),
        RedisCommand::Psync {
            master_replid: "?".to_string(),
            master_repl_offset: -1
        }
    );
    assert!(!handshake_expects_reply(st));
    let st = handshake_advance(st);
    assert_eq!(st, HandshakeState::Done);
    assert!(handshake_request(st, "6380").is_none());
}

#[test]
fn test_handshake_step_outcomes() {
    // A completed exchange advances; any failure is fatal and yields no
    // state to continue from.
    assert_eq!(
        handshake_step(HandshakeState::Start, ExchangeOutcome::Completed),
        Ok(HandshakeState::PingAcked)
    );
    assert_eq!(
        handshake_step(HandshakeState::PingAcked, ExchangeOutcome::ConnectionLost),
        Err(HandshakeError::ConnectionFailed)
    );
    assert_eq!(
        handshake_step(HandshakeState::PortAcked, ExchangeOutcome::ReplyMalformed),
        Err(HandshakeError::MalformedReply)
    );
    assert_eq!(
        handshake_step(HandshakeState::CapaAcked, ExchangeOutcome::Completed),
        Ok(HandshakeState::Done)
    );
}

#[test]
fn test_cli_parse_port() {
    let args = vec!["--port".to_string(), "6380".to_string()];
    let parsed = CliArgs::parse(&args).unwrap();
    assert_eq!(parsed.port, Some("6380".to_string()));
    assert_eq!(parsed.host, None);
    assert_eq!(parsed.role, Role::Master);
}

#[test]
fn test_cli_parse_replicaof_one_token() {
    let args = vec![
        "--replicaof".to_string(),
        "localhost 6379".to_string(),
    ];
    let parsed = CliArgs::parse(&args).unwrap();
    assert_eq!(
        parsed.role,
        Role::Slave {
            master_host: "localhost".to_string(),
            master_port: "6379".to_string()
        }
    );
}

#[test]
fn test_cli_parse_replicaof_two_tokens() {
    let args = vec![
        "--host".to_string(),
        "0.0.0.0".to_string(),
        "--replicaof".to_string(),
        "localhost".to_string(),
        "6379".to_string(),
    ];
    let parsed = CliArgs::parse(&args).unwrap();
    assert_eq!(parsed.host, Some("0.0.0.0".to_string()));
    assert_eq!(
        parsed.role,
        Role::Slave {
            master_host: "localhost".to_string(),
            master_port: "6379".to_string()
        }
    );
}

#[test]
fn test_cli_unknown_option() {
    let args = vec!["--verbose".to_string()];
    assert_eq!(CliArgs::parse(&args).unwrap_err(), CliError::UnknownOption);
}

#[test]
fn test_cli_replicaof_missing_value() {
    let args = vec!["--replicaof".to_string()];
    assert_eq!(CliArgs::parse(&args).unwrap_err(), CliError::MissingValue);
    let args = vec!["--replicaof".to_string(), "localhost".to_string()];
    assert_eq!(CliArgs::parse(&args).unwrap_err(), CliError::MissingValue);
}

#[test]
fn test_role_strings() {
    assert_eq!(Role::Master.to_string(), "master");
    let r = Role::Slave {
        master_host: "h".to_string(),
        master_port: "1234".to_string(),
    };
    assert_eq!(r.to_string(), "slave,h,1234");
    assert_eq!(Role::from_string("master").unwrap(), Role::Master);
    assert_eq!(
        Role::from_string("slave,h,1234").unwrap(),
        Role::Slave {
            master_host: "h".to_string(),
            master_port: "1234".to_string()
        }
    );
    assert_eq!(
        Role::from_string("primary").unwrap_err(),
        redis_starter_rust::server_state::RoleError::UnknownRole
    );
    assert_eq!(
        Role::from_string("slave").unwrap_err(),
        redis_starter_rust::server_state::RoleError::MissingField
    );
    assert_eq!(
        Role::from_string("slave,onlyhost").unwrap_err(),
        redis_starter_rust::server_state::RoleError::MissingField
    );
}

#[test]
fn test_init_state() {
    let state = ServerState::init(Role::Master);
    assert_eq!(state.master_repl_offset, 0);
    assert_eq!(state.master_replid.len(), 40);
    let copy = state.get();
    assert_eq!(copy, state);
}

#[test]
fn test_numeric_text() {
    assert_eq!(redis_starter_rust::text::parse_u128("1000"), Some(1000));
    assert_eq!(redis_starter_rust::text::parse_u128(""), None);
    assert_eq!(redis_starter_rust::text::parse_u128("12a"), None);
    assert_eq!(redis_starter_rust::text::parse_i64("-1"), Some(-1));
    assert_eq!(redis_starter_rust::text::parse_i64("42"), Some(42));
    assert_eq!(redis_starter_rust::text::parse_i64("-"), None);
    assert_eq!(redis_starter_rust::text::u128_to_string(0), "0");
    assert_eq!(redis_starter_rust::text::u128_to_string(905), "905");
    assert_eq!(redis_starter_rust::text::i64_to_string(-37), "-37");
}
