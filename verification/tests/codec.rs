use lightc::codec::{decode, decode_text, encode, encode_text, DecodeError};
use lightc::command::{Lcmd, Lcommand};

fn cmd(kind: Lcmd, user: &str, content: &str) -> Lcommand {
    Lcommand { cmd_type: kind, user: user.to_string(), content: content.to_string() }
}

#[test]
fn encode_say_has_three_lines() {
    assert_eq!(encode(&cmd(Lcmd::Say, "bob", "hello there")), b"SAY\nbob\nhello there\n".to_vec());
    assert_eq!(encode_text(&cmd(Lcmd::Say, "bob", "hello there")), "SAY\nbob\nhello there\n");
}

#[test]
fn encode_nick_uses_nick_keyword() {
    assert_eq!(encode(&cmd(Lcmd::Nick, "alice", "bob")), b"NICK\nalice\nbob\n".to_vec());
}

#[test]
fn encode_connect_and_disconnect_have_two_lines() {
    assert_eq!(encode(&cmd(Lcmd::Conn, "alice", "")), b"CONNECT\nalice\n".to_vec());
    assert_eq!(encode(&cmd(Lcmd::Dc, "alice", "")), b"DISCONNECT\nalice\n".to_vec());
    assert_eq!(encode(&cmd(Lcmd::Conn, "alice", "127.0.0.1:9")), b"CONNECT\nalice\n".to_vec());
}

#[test]
fn encode_writes_utf8() {
    assert_eq!(
        encode(&cmd(Lcmd::Say, "zoë", "héllo")),
        "SAY\nzoë\nhéllo\n".as_bytes().to_vec()
    );
}

#[test]
fn decode_each_keyword() {
    assert_eq!(decode(b"SAY\ncara\nhi\n"), Ok(cmd(Lcmd::Say, "cara", "hi")));
    assert_eq!(decode(b"NICK\ncara\ndora\n"), Ok(cmd(Lcmd::Nick, "cara", "dora")));
    assert_eq!(decode(b"CONNECT\ncara\n"), Ok(cmd(Lcmd::Conn, "cara", "")));
    assert_eq!(decode(b"DISCONNECT\ncara\n"), Ok(cmd(Lcmd::Dc, "cara", "")));
}

#[test]
fn decode_accepts_an_open_last_field() {
    assert_eq!(decode(b"SAY\ncara\nhi"), Ok(cmd(Lcmd::Say, "cara", "hi")));
    assert_eq!(decode(b"CONNECT\ncara"), Ok(cmd(Lcmd::Conn, "cara", "")));
    assert_eq!(decode(b"SAY\ncara\n"), Ok(cmd(Lcmd::Say, "cara", "")));
}

#[test]
fn decode_ignores_what_follows_the_frame() {
    assert_eq!(decode(b"SAY\ncara\nhi\nmore\n"), Ok(cmd(Lcmd::Say, "cara", "hi")));
    assert_eq!(decode(b"DISCONNECT\ncara\nleft over\n"), Ok(cmd(Lcmd::Dc, "cara", "")));
}

#[test]
fn decode_unknown_keyword() {
    assert_eq!(decode(b"HELLO\ncara\nhi\n"), Err(DecodeError::UnknownKeyword));
    assert_eq!(decode(b""), Err(DecodeError::UnknownKeyword));
    assert_eq!(decode(b"say\ncara\nhi\n"), Err(DecodeError::UnknownKeyword));
    assert_eq!(decode(b"QUIT\ncara\n"), Err(DecodeError::UnknownKeyword));
    assert_eq!(decode(b"\n\n"), Err(DecodeError::UnknownKeyword));
}

#[test]
fn decode_truncated() {
    assert_eq!(decode(b"SAY"), Err(DecodeError::Truncated));
    assert_eq!(decode(b"SAY\ncara"), Err(DecodeError::Truncated));
    assert_eq!(decode(b"NICK\ncara"), Err(DecodeError::Truncated));
    assert_eq!(decode(b"CONNECT"), Err(DecodeError::Truncated));
    assert_eq!(decode(b"DISCONNECT"), Err(DecodeError::Truncated));
}

#[test]
fn decode_survives_malformed_bytes() {
    assert_eq!(decode(&[0xff, 0xfe, 0x0a, 0x80]), Err(DecodeError::UnknownKeyword));
    assert_eq!(
        decode(&[b'S', b'A', b'Y', b'\n', 0xff, b'\n', b'x', b'\n']),
        Ok(cmd(Lcmd::Say, "\u{fffd}", "x"))
    );
    let mut long = Vec::new();
    for i in 0..4096u32 {
        long.push((i % 251) as u8);
    }
    let _ = decode(&long);
}

#[test]
fn decode_text_matches_decode() {
    assert_eq!(decode_text("SAY\ncara\nhi\n"), Ok(cmd(Lcmd::Say, "cara", "hi")));
    assert_eq!(decode_text("NOPE"), Err(DecodeError::UnknownKeyword));
    assert_eq!(decode_text("NICK\nx"), Err(DecodeError::Truncated));
}

#[test]
fn from_decodes_a_received_text() {
    assert_eq!(Lcommand::from("SAY\ncara\nhi\n".to_string()), Ok(cmd(Lcmd::Say, "cara", "hi")));
    assert_eq!(Lcommand::from("CONNECT\ncara\n".to_string()), Ok(cmd(Lcmd::Conn, "cara", "")));
    assert_eq!(Lcommand::from("DISCONNECT\ncara\n".to_string()), Ok(cmd(Lcmd::Dc, "cara", "")));
    assert_eq!(Lcommand::from("BOGUS\ncara\n".to_string()), Err(DecodeError::UnknownKeyword));
}

#[test]
fn round_trip_of_wire_commands() {
    let all = vec![
        cmd(Lcmd::Say, "bob", "hello there"),
        cmd(Lcmd::Say, "", ""),
        cmd(Lcmd::Say, "zoë", "naïve ☃ text"),
        cmd(Lcmd::Nick, "alice", "bob"),
        cmd(Lcmd::Conn, "alice", ""),
        cmd(Lcmd::Dc, "alice", ""),
    ];
    for c in all {
        assert_eq!(decode(&encode(&c)), Ok(c.clone()));
        assert_eq!(decode_text(&encode_text(&c)), Ok(c));
    }
}

#[test]
fn round_trip_fails_only_outside_the_wire_form() {
    let c = cmd(Lcmd::Say, "bob", "two\nlines");
    assert_eq!(decode(&encode(&c)), Ok(cmd(Lcmd::Say, "bob", "two")));
}
