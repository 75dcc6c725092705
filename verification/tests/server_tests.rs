use irc::config::Config;
use irc::conn::Connection;
use irc::message::Message;
use irc::server::IrcServer;
use irc::user::User;

fn test_config() -> Config {
    Config {
        owners: vec![format!("test")],
        nickname: format!("test"),
        username: format!("test"),
        realname: format!("test"),
        server_password: String::new(),
        server: format!("irc.test.net"),
        port: 6667,
        use_tls: false,
        channels: vec![format!("#test"), format!("#test2")],
        ..Default::default()
    }
}

fn mock_server(value: &str) -> IrcServer {
    let conn = Connection::new_mocked("utf-8", value.as_bytes().to_vec(), 15).unwrap();
    IrcServer::from_connection(test_config(), conn)
}

fn get_server_value(server: &IrcServer) -> String {
    String::from_utf8(server.conn().log_view().unwrap().clone()).unwrap()
}

fn drain(server: &mut IrcServer) -> Vec<Message> {
    let mut out = Vec::new();
    loop {
        match server.next_message() {
            Ok(Some(m)) => out.push(m),
            Ok(None) => break,
            Err(_) => break,
        }
    }
    out
}

#[test]
fn iterator() {
    let exp = "PRIVMSG test :Hi!\r\nPRIVMSG test :This is a test!\r\n:test!test@test JOIN #test\r\n";
    let mut server = mock_server(exp);
    let mut messages = String::new();
    for message in drain(&mut server) {
        messages.push_str(&message.into_string());
    }
    assert_eq!(&messages[..], exp);
}

#[test]
fn handle_message() {
    let value = "PING :irc.test.net\r\n:irc.test.net 376 test :End of /MOTD command.\r\n";
    let mut server = mock_server(value);
    drain(&mut server);
    assert_eq!(
        &get_server_value(&server)[..],
        "PONG :irc.test.net\r\nJOIN #test\r\nJOIN #test2\r\n"
    );
}

#[test]
fn send() {
    let mut server = mock_server("");
    assert!(server.send_privmsg("#test", "Hi there!").is_ok());
    assert_eq!(&get_server_value(&server)[..], "PRIVMSG #test :Hi there!\r\n");
}

#[test]
fn user_tracking_names() {
    let value = ":irc.test.net 353 test = #test :test ~owner &admin\r\n";
    let mut server = mock_server(value);
    drain(&mut server);
    assert_eq!(
        server.list_users("#test").unwrap(),
        vec![User::new("test"), User::new("~owner"), User::new("&admin")]
    )
}

#[test]
fn user_tracking_names_join() {
    let value = ":irc.test.net 353 test = #test :test ~owner &admin\r\n:test2!test@test JOIN #test\r\n";
    let mut server = mock_server(value);
    drain(&mut server);
    assert_eq!(
        server.list_users("#test").unwrap(),
        vec![
            User::new("test"),
            User::new("~owner"),
            User::new("&admin"),
            User::new("test2")
        ]
    )
}

#[test]
fn user_tracking_names_part() {
    let value = ":irc.test.net 353 test = #test :test ~owner &admin\r\n:owner!test@test PART #test\r\n";
    let mut server = mock_server(value);
    drain(&mut server);
    assert_eq!(
        server.list_users("#test").unwrap(),
        vec![User::new("test"), User::new("&admin")]
    )
}

#[test]
fn user_tracking_names_mode() {
    let value = ":irc.test.net 353 test = #test :test ~owner &admin\r\n:test!test@test MODE #test +o test\r\n";
    let mut server = mock_server(value);
    drain(&mut server);
    assert_eq!(
        server.list_users("#test").unwrap(),
        vec![User::new("@test"), User::new("~owner"), User::new("&admin")]
    );
    assert_eq!(
        server.list_users("#test").unwrap()[0].access_level(),
        User::new("@test").access_level()
    );
}

#[test]
fn user_tracking_names_kick() {
    let value = ":irc.test.net 353 test = #test :test ~owner &admin\r\n:owner!x@y KICK #test admin\r\n";
    let mut server = mock_server(value);
    drain(&mut server);
    assert_eq!(
        server.list_users("#test").unwrap(),
        vec![User::new("test"), User::new("~owner")]
    )
}

#[test]
fn user_tracking_names_quit() {
    let value = ":irc.test.net 353 test = #test :test ~owner &admin\r\n:irc.test.net 353 test = #test2 :test ~owner\r\n:owner!x@y QUIT :bye\r\n";
    let mut server = mock_server(value);
    drain(&mut server);
    assert_eq!(
        server.list_users("#test").unwrap(),
        vec![User::new("test"), User::new("&admin")]
    );
    assert_eq!(server.list_users("#test2").unwrap(), vec![User::new("test")]);
}

#[test]
fn names_dedup_across_replies() {
    let value = ":irc.test.net 353 test = #test :test ~owner\r\n:irc.test.net 353 test = #test :owner &admin\r\n";
    let mut server = mock_server(value);
    drain(&mut server);
    assert_eq!(
        server.list_users("#test").unwrap(),
        vec![User::new("test"), User::new("~owner"), User::new("&admin")]
    )
}

#[test]
fn channel_names_fold_case() {
    let value = ":irc.test.net 353 test = #Test :test\r\n";
    let mut server = mock_server(value);
    drain(&mut server);
    assert_eq!(server.list_users("#TEST").unwrap(), vec![User::new("test")]);
    assert!(server.list_users("#other").is_none());
}

#[test]
fn flood_limit_holds_in_burst() {
    let conn = Connection::new_mocked("utf-8", Vec::new(), 3).unwrap();
    let mut server = IrcServer::from_connection(test_config(), conn);
    assert!(server.send_privmsg("#test", "one").is_ok());
    assert!(server.send_privmsg("#test", "two").is_ok());
    assert!(server.send_privmsg("#test", "three").is_ok());
    let blocked = server.send_privmsg("#test", "four");
    assert_eq!(blocked, Err(irc::error::ProtocolError::FloodWait));
    assert_eq!(
        &get_server_value(&server)[..],
        "PRIVMSG #test :one\r\nPRIVMSG #test :two\r\nPRIVMSG #test :three\r\n"
    );
}

#[test]
fn pong_bypasses_flood_limit() {
    let value = "PING :irc.test.net\r\n";
    let conn = Connection::new_mocked("utf-8", value.as_bytes().to_vec(), 0).unwrap();
    let mut server = IrcServer::from_connection(test_config(), conn);
    drain(&mut server);
    assert_eq!(&get_server_value(&server)[..], "PONG :irc.test.net\r\n");
}

#[test]
fn ping_without_suffix_draws_no_reply() {
    let value = "PING\r\n";
    let mut server = mock_server(value);
    drain(&mut server);
    assert_eq!(&get_server_value(&server)[..], "");
}

#[test]
fn join_with_configured_key() {
    let mut config = test_config();
    config.channels = vec![format!("#locked")];
    config.channel_keys = vec![(format!("#locked"), format!("hunter2"))];
    let conn = Connection::new_mocked(
        "utf-8",
        ":irc.test.net 376 test :End of /MOTD.\r\n".as_bytes().to_vec(),
        15,
    )
    .unwrap();
    let mut server = IrcServer::from_connection(config, conn);
    drain(&mut server);
    assert_eq!(&get_server_value(&server)[..], "JOIN #locked hunter2\r\n");
}

#[test]
fn identify_sends_nickserv_password() {
    let mut config = test_config();
    config.nick_password = format!("sekrit");
    let conn = Connection::new_mocked("utf-8", Vec::new(), 15).unwrap();
    let mut server = IrcServer::from_connection(config, conn);
    assert!(server.identify().is_ok());
    assert_eq!(
        &get_server_value(&server)[..],
        "PRIVMSG NickServ :IDENTIFY sekrit\r\n"
    );
}

#[test]
fn send_notice_and_part() {
    let mut server = mock_server("");
    assert!(server.send_notice("#test", "psst").is_ok());
    assert!(server.send_join("#new", None).is_ok());
    assert!(server.send_part("#new", Some("bye")).is_ok());
    assert_eq!(
        &get_server_value(&server)[..],
        "NOTICE #test :psst\r\nJOIN #new\r\nPART #new :bye\r\n"
    );
}

#[test]
fn unknown_codec_is_rejected() {
    let r = Connection::new_mocked("no-such-encoding", Vec::new(), 15);
    match r {
        Err(irc::error::ProtocolError::UnknownCodec { codec }) => {
            assert_eq!(codec, "no-such-encoding")
        }
        _ => panic!("expected an unknown-codec error"),
    }
}

#[test]
fn mock_from_config_encodes_initial_value() {
    let mut config = test_config();
    config.use_mock_connection = true;
    config.mock_initial_value = format!("PING :irc.test.net\r\n");
    let mut server = IrcServer::from_config(config).unwrap();
    drain(&mut server);
    assert_eq!(&get_server_value(&server)[..], "PONG :irc.test.net\r\n");
}

#[test]
fn long_message_is_truncated() {
    let mut server = mock_server("");
    let text: String = std::iter::repeat('x').take(600).collect();
    assert!(server.send_privmsg("#test", &text).is_ok());
    let written = server.conn().log_view().unwrap().clone();
    assert_eq!(written.len(), 512);
}

#[test]
fn closed_transport_refuses_sends() {
    let codec = irc::codec::IrcCodec::new("utf-8").unwrap();
    let mut transport = irc::transport::Transport::new(codec, Vec::new(), 15);
    transport.close();
    let msg = Message {
        tags: None,
        prefix: None,
        command: format!("PING"),
        args: vec![],
        suffix: None,
    };
    assert_eq!(
        transport.send(msg),
        Err(irc::error::ProtocolError::ConnectionClosed)
    );
}

#[test]
fn register_sends_handshake() {
    let mut config = test_config();
    config.server_password = format!("pw");
    let conn = Connection::new_mocked("utf-8", Vec::new(), 15).unwrap();
    let mut server = IrcServer::from_connection(config, conn);
    assert!(server.register().is_ok());
    assert_eq!(
        &get_server_value(&server)[..],
        "PASS pw\r\nNICK test\r\nUSER test 0 * :test\r\n"
    );
}

#[test]
fn umodes_sent_before_joins() {
    let mut config = test_config();
    config.umodes = format!("+ix");
    let conn = Connection::new_mocked(
        "utf-8",
        ":irc.test.net 376 test :End of /MOTD.\r\n".as_bytes().to_vec(),
        15,
    )
    .unwrap();
    let mut server = IrcServer::from_connection(config, conn);
    drain(&mut server);
    assert_eq!(
        &get_server_value(&server)[..],
        "MODE test +ix\r\nJOIN #test\r\nJOIN #test2\r\n"
    );
}

#[test]
fn user_tracking_nick_rename() {
    let value = ":irc.test.net 353 test = #test :test ~owner &admin\r\n:owner!x@y NICK :boss\r\n";
    let mut server = mock_server(value);
    drain(&mut server);
    assert_eq!(
        server.list_users("#test").unwrap(),
        vec![User::new("test"), User::new("boss"), User::new("&admin")]
    );
    assert_eq!(
        server.list_users("#test").unwrap()[1].access_level(),
        User::new("~x").access_level()
    );
}

#[test]
fn nick_rename_to_taken_name_is_ignored() {
    let value = ":irc.test.net 353 test = #test :test ~owner\r\n:owner!x@y NICK :test\r\n";
    let mut server = mock_server(value);
    drain(&mut server);
    assert_eq!(
        server.list_users("#test").unwrap(),
        vec![User::new("test"), User::new("~owner")]
    );
}

#[test]
fn alt_nicks_run_out() {
    let mut config = test_config();
    config.alt_nicks = vec![format!("test_"), format!("test__")];
    let conn = Connection::new_mocked("utf-8", Vec::new(), 15).unwrap();
    let server = IrcServer::from_connection(config, conn);
    assert_eq!(server.alt_nick_after(0).unwrap(), "test_");
    assert_eq!(server.alt_nick_after(1).unwrap(), "test__");
    match server.alt_nick_after(2) {
        Err(irc::error::ProtocolError::NoUsableNick) => {}
        _ => panic!("expected the alternatives to be exhausted"),
    }
}
