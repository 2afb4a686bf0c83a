use std::sync::mpsc;

use r2rcon::codec::{
    decode_body, decode_size, SERVERDATA_AUTH, SERVERDATA_AUTH_RESPONSE, SERVERDATA_EXECCOMMAND,
    SERVERDATA_RESPONSE_VALUE,
};
use r2rcon::console::ConsoleAccess;
use r2rcon::rcon::{
    connection_fatal, parse_response, RconDispatch, RconRequestError, RconServer, RconStream,
};

fn fresh_console() -> ConsoleAccess {
    let (_tx, rx) = mpsc::channel::<String>();
    ConsoleAccess::new(rx)
}

#[test]
fn auth_with_correct_password_echoes_id() {
    let mut conn = RconStream { auth: false };
    let password = String::from("secret");
    let console = fresh_console();
    let r = parse_response(&mut conn, &password, &console, 42, SERVERDATA_AUTH, String::from("secret"));
    match r {
        Ok(RconDispatch::Reply(resp)) => {
            assert_eq!(resp.id, 42);
            assert_eq!(resp.ty, SERVERDATA_AUTH_RESPONSE);
            assert_eq!(resp.content, "");
        }
        other => panic!("expected an auth reply, got {:?}", fmt_dispatch(&other)),
    }
    assert!(conn.auth);
}

#[test]
fn auth_with_wrong_password_answers_minus_one() {
    let mut conn = RconStream { auth: true };
    let password = String::from("secret");
    let console = fresh_console();
    let r = parse_response(&mut conn, &password, &console, 42, SERVERDATA_AUTH, String::from("wrong"));
    match r {
        Ok(RconDispatch::Reply(resp)) => {
            assert_eq!(resp.id, -1);
            assert_eq!(resp.ty, SERVERDATA_AUTH_RESPONSE);
        }
        other => panic!("expected an auth reply, got {:?}", fmt_dispatch(&other)),
    }
    assert!(!conn.auth, "a failed auth must reset the connection");
}

#[test]
fn execcommand_before_auth_is_fatal() {
    let mut conn = RconStream { auth: false };
    let password = String::from("secret");
    let console = fresh_console();
    let r = parse_response(
        &mut conn,
        &password,
        &console,
        7,
        SERVERDATA_EXECCOMMAND,
        String::from("status"),
    );
    match r {
        Err(RconRequestError::InvalidClientID(7)) => {}
        other => panic!("expected a client-id refusal, got {:?}", fmt_dispatch(&other)),
    }
    assert!(!conn.auth);
}

#[test]
fn unknown_request_type_is_refused() {
    let mut conn = RconStream { auth: true };
    let password = String::from("secret");
    let console = fresh_console();
    let r = parse_response(&mut conn, &password, &console, 1, 5, String::from("x"));
    match r {
        Err(RconRequestError::InvalidRequestType(5)) => {}
        other => panic!("expected a request-type refusal, got {:?}", fmt_dispatch(&other)),
    }
}

#[test]
fn dumpconsole_answers_buffer_and_is_idempotent() {
    let mut conn = RconStream { auth: true };
    let password = String::from("secret");
    let (_tx, rx) = mpsc::channel::<String>();
    let mut console = ConsoleAccess::new(rx);
    console.push_line(String::from("line one\n"));
    console.push_line(String::from("line two\n"));
    let first = dump(&mut conn, &password, &console);
    let second = dump(&mut conn, &password, &console);
    assert_eq!(first, "line one\nline two\n");
    assert_eq!(first, second, "a dump must not consume the buffer");
}

fn dump(conn: &mut RconStream, password: &String, console: &ConsoleAccess) -> String {
    let r = parse_response(
        conn,
        password,
        console,
        3,
        SERVERDATA_EXECCOMMAND,
        String::from("dumpconsole"),
    );
    match r {
        Ok(RconDispatch::Reply(resp)) => {
            assert_eq!(resp.id, 3);
            assert_eq!(resp.ty, SERVERDATA_RESPONSE_VALUE);
            resp.content
        }
        other => panic!("expected a dump reply, got {:?}", fmt_dispatch(&other)),
    }
}

#[test]
fn other_commands_are_handed_to_the_executor() {
    let mut conn = RconStream { auth: true };
    let password = String::from("secret");
    let console = fresh_console();
    let r = parse_response(
        &mut conn,
        &password,
        &console,
        9,
        SERVERDATA_EXECCOMMAND,
        String::from("echo hi"),
    );
    match r {
        Ok(RconDispatch::Execute { cmd, client_id, .. }) => {
            assert_eq!(cmd, "echo hi");
            assert_eq!(client_id, 9);
        }
        other => panic!("expected an execute action, got {:?}", fmt_dispatch(&other)),
    }
}

#[test]
fn auth_then_command_round_trip_on_the_server() {
    let (tx, rx) = mpsc::channel::<String>();
    let mut server = RconServer::new(String::from("secret"), rx);
    server.accept_connection();
    assert_eq!(server.connection_count(), 1);
    assert!(!server.connection_auth(0));

    let r = server.dispatch(0, 11, SERVERDATA_AUTH, String::from("secret"));
    match r {
        Ok(RconDispatch::Reply(resp)) => {
            assert_eq!(resp.id, 11);
            assert_eq!(resp.ty, SERVERDATA_AUTH_RESPONSE);
        }
        other => panic!("expected an auth reply, got {:?}", fmt_dispatch(&other)),
    }
    assert!(server.connection_auth(0));

    let r = server.dispatch(0, 11, SERVERDATA_EXECCOMMAND, String::from("echo hi"));
    match r {
        Ok(RconDispatch::Execute { cmd, client_id, .. }) => {
            assert_eq!(cmd, "echo hi");
            assert_eq!(client_id, 11);
        }
        other => panic!("expected an execute action, got {:?}", fmt_dispatch(&other)),
    }

    // The executor runs the command and its output lands on the channel.
    tx.send(String::from("hi")).unwrap();
    let resp = server.finish_command(11);
    assert_eq!(resp.id, 11);
    assert_eq!(resp.ty, SERVERDATA_RESPONSE_VALUE);
    assert!(resp.content.contains("hi"), "response must carry the command's output");
}

#[test]
fn short_body_read_tears_down_only_that_connection() {
    let (_tx, rx) = mpsc::channel::<String>();
    let mut server = RconServer::new(String::from("secret"), rx);
    server.accept_connection();
    server.accept_connection();
    assert_eq!(server.connection_count(), 2);

    // The first connection announces four payload bytes and then closes:
    // the size parses, the body read comes back empty, decoding fails.
    let size_buf = [4u8, 0, 0, 0];
    let size = decode_size(&size_buf, 4).unwrap();
    assert_eq!(size, 4);
    let body = vec![0u8; size];
    let err = decode_body(&body, 0).unwrap_err();
    assert!(matches!(err, RconRequestError::ReadWrongAmount(0)));
    assert!(connection_fatal(&err));
    server.drop_connection(0);

    // The surviving connection is still serviceable on the same tick.
    assert_eq!(server.connection_count(), 1);
    let r = server.dispatch(0, 2, SERVERDATA_AUTH, String::from("secret"));
    assert!(r.is_ok());
    assert!(server.connection_auth(0));
}

#[test]
fn would_block_is_not_fatal() {
    let would_block = std::io::Error::from(std::io::ErrorKind::WouldBlock);
    assert!(!connection_fatal(&RconRequestError::SocketError(would_block)));
    let reset = std::io::Error::from(std::io::ErrorKind::ConnectionReset);
    assert!(connection_fatal(&RconRequestError::SocketError(reset)));
    assert!(connection_fatal(&RconRequestError::VecToArrayError));
    assert!(connection_fatal(&RconRequestError::IntCastFail));
    assert!(connection_fatal(&RconRequestError::ReadWrongAmount(2)));
    assert!(connection_fatal(&RconRequestError::InvalidClientID(1)));
    assert!(connection_fatal(&RconRequestError::InvalidRequestType(9)));
}

fn fmt_dispatch(r: &Result<RconDispatch, RconRequestError>) -> String {
    match r {
        Ok(RconDispatch::Reply(resp)) => format!("Reply(id={}, ty={})", resp.id, resp.ty),
        Ok(RconDispatch::Execute { cmd, client_id, .. }) => {
            format!("Execute(cmd={cmd:?}, client_id={client_id})")
        }
        Err(e) => format!("Err({e:?})"),
    }
}
