use irc::codec::IrcCodec;
use irc::line::LineCodec;
use irc::message::{Message, Tag};
use irc::transport::{PingAction, Pinger};
use irc::user::{AccessLevel, User};

#[test]
fn parse_simple_privmsg() {
    let m = Message::parse("PRIVMSG #chan :hello world\r\n").unwrap();
    assert_eq!(m.command, "PRIVMSG");
    assert_eq!(m.args, vec![format!("#chan")]);
    assert_eq!(m.suffix, Some(format!("hello world")));
    assert_eq!(m.prefix, None);
    assert_eq!(m.tags, None);
}

#[test]
fn parse_prefixed_numeric() {
    let m = Message::parse(":irc.test.net 376 test :End of /MOTD.\r\n").unwrap();
    assert_eq!(m.prefix, Some(format!("irc.test.net")));
    assert_eq!(m.command, "376");
    assert_eq!(m.args, vec![format!("test")]);
    assert_eq!(m.suffix, Some(format!("End of /MOTD.")));
}

#[test]
fn parse_tolerates_bare_newline() {
    let m = Message::parse("PING :x\n").unwrap();
    assert_eq!(m.command, "PING");
    assert_eq!(m.suffix, Some(format!("x")));
}

#[test]
fn parse_tagged_message() {
    let m = Message::parse("@aaa=bbb;ccc;example.com/ddd=eee :nick!user@host PRIVMSG #chan :Hi\r\n")
        .unwrap();
    let tags = m.tags.clone().unwrap();
    assert_eq!(tags[0], Tag { key: format!("aaa"), value: Some(format!("bbb")) });
    assert_eq!(tags[1], Tag { key: format!("ccc"), value: None });
    assert_eq!(
        tags[2],
        Tag { key: format!("example.com/ddd"), value: Some(format!("eee")) }
    );
    assert_eq!(m.prefix, Some(format!("nick!user@host")));
    assert_eq!(m.command, "PRIVMSG");
}

#[test]
fn parse_rejects_empty_command() {
    assert!(Message::parse("\r\n").is_err());
    assert!(Message::parse(":prefix.only\r\n").is_err());
}

#[test]
fn parse_long_line_as_is() {
    let long: String = std::iter::repeat('y').take(600).collect();
    let line = format!("PRIVMSG #chan :{}\r\n", long);
    let m = Message::parse(&line).unwrap();
    assert_eq!(m.suffix, Some(long));
}

#[test]
fn serialize_round_trip() {
    let m = Message {
        tags: Some(vec![
            Tag { key: format!("id"), value: Some(format!("123")) },
            Tag { key: format!("flag"), value: None },
        ]),
        prefix: Some(format!("nick!user@host")),
        command: format!("PRIVMSG"),
        args: vec![format!("#chan")],
        suffix: Some(format!("hello there")),
    };
    let line = m.into_string();
    assert!(line.ends_with("\r\n"));
    assert!(!line[..line.len() - 2].contains('\r'));
    assert!(!line[..line.len() - 2].contains('\n'));
    let back = Message::parse(&line).unwrap();
    assert_eq!(back, m);
}

#[test]
fn serialize_known_forms() {
    let m = Message {
        tags: None,
        prefix: None,
        command: format!("PONG"),
        args: vec![],
        suffix: Some(format!("irc.test.net")),
    };
    assert_eq!(m.into_string(), "PONG :irc.test.net\r\n");
    let m2 = Message {
        tags: None,
        prefix: None,
        command: format!("JOIN"),
        args: vec![format!("#test"), format!("key")],
        suffix: None,
    };
    assert_eq!(m2.into_string(), "JOIN #test key\r\n");
}

#[test]
fn line_codec_splits_only_on_newline() {
    let mut codec = LineCodec::new("utf-8").unwrap();
    let mut buf = b"first line\r\nsecond".to_vec();
    let first = codec.decode(&mut buf);
    assert_eq!(first, Some(format!("first line\r\n")));
    assert_eq!(buf, b"second".to_vec());
    assert_eq!(codec.decode(&mut buf), None);
    buf.extend_from_slice(b" part\n");
    assert_eq!(codec.decode(&mut buf), Some(format!("second part\n")));
    assert_eq!(buf.len(), 0);
}

#[test]
fn line_codec_replaces_bad_bytes() {
    let mut codec = LineCodec::new("utf-8").unwrap();
    let mut buf = vec![b'a', 0xFF, b'b', b'\n'];
    let line = codec.decode(&mut buf).unwrap();
    assert_eq!(line, "a\u{FFFD}b\n");
}

#[test]
fn line_codec_encodes_latin1() {
    let codec = LineCodec::new("iso-8859-1").unwrap();
    let mut out = Vec::new();
    assert!(codec.encode("héllo\r\n", &mut out).is_ok());
    assert_eq!(out, vec![b'h', 0xE9, b'l', b'l', b'o', b'\r', b'\n']);
}

#[test]
fn irc_codec_decodes_and_encodes() {
    let mut codec = IrcCodec::new("utf-8").unwrap();
    let mut buf = b"PING :x\r\nrest".to_vec();
    let m = codec.decode(&mut buf).unwrap().unwrap();
    assert_eq!(m.command, "PING");
    let mut out = Vec::new();
    assert!(codec.encode(&m, &mut out).is_ok());
    assert_eq!(out, b"PING :x\r\n".to_vec());
}

#[test]
fn user_equality_ignores_sigils() {
    assert_eq!(User::new("~owner"), User::new("owner"));
    assert_eq!(User::new("@+multi"), User::new("multi"));
    assert_eq!(User::new("plain"), User::new("plain"));
    assert!(User::new("one") != User::new("two"));
}

#[test]
fn user_access_levels_from_sigils() {
    assert_eq!(User::new("~a").access_level(), AccessLevel::Owner);
    assert_eq!(User::new("&a").access_level(), AccessLevel::Admin);
    assert_eq!(User::new("@a").access_level(), AccessLevel::Oper);
    assert_eq!(User::new("%a").access_level(), AccessLevel::HalfOp);
    assert_eq!(User::new("+a").access_level(), AccessLevel::Voice);
    assert_eq!(User::new("a").access_level(), AccessLevel::Member);
    assert_eq!(User::new("@+a").access_level(), AccessLevel::Oper);
}

#[test]
fn user_mode_updates_are_idempotent() {
    let mut u = User::new("nick");
    u.update_access_level("+o");
    assert_eq!(u.access_level(), AccessLevel::Oper);
    u.update_access_level("+o");
    assert_eq!(u.access_level(), AccessLevel::Oper);
    u.update_access_level("-o");
    assert_eq!(u.access_level(), AccessLevel::HalfOp);
    u.update_access_level("-o");
    assert_eq!(u.access_level(), AccessLevel::HalfOp);
    u.update_access_level("+v");
    assert_eq!(u.access_level(), AccessLevel::HalfOp);
}

#[test]
fn pinger_decisions() {
    let mut p = Pinger::new();
    assert_eq!(p.on_idle_expired(), PingAction::SendPing(1));
    assert_eq!(p.on_idle_expired(), PingAction::TimedOut);
    p.on_activity();
    assert_eq!(p.on_idle_expired(), PingAction::SendPing(2));
}
