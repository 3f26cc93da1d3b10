use lightc::codec::encode;
use lightc::command::{Lcmd, Lcommand};
use lightc::framing::FrameBuffer;

fn wire(kind: Lcmd, user: &str, content: &str) -> Lcommand {
    Lcommand { cmd_type: kind, user: user.to_string(), content: content.to_string() }
}

fn sample() -> (Vec<Lcommand>, Vec<u8>) {
    let cmds = vec![
        wire(Lcmd::Conn, "cara", ""),
        wire(Lcmd::Say, "cara", "hi"),
        wire(Lcmd::Nick, "cara", "dörte"),
        wire(Lcmd::Say, "dörte", "still me ☃"),
        wire(Lcmd::Dc, "dörte", ""),
    ];
    let mut stream = Vec::new();
    for c in &cmds {
        stream.extend_from_slice(&encode(c));
    }
    (cmds, stream)
}

#[test]
fn whole_stream_yields_every_command() {
    let (cmds, stream) = sample();
    let mut buffer = FrameBuffer::new();
    assert_eq!(buffer.receive(&stream), cmds);
    assert!(buffer.pending.is_empty());
}

#[test]
fn every_split_in_two_yields_the_same_commands() {
    let (cmds, stream) = sample();
    for k in 0..=stream.len() {
        let mut buffer = FrameBuffer::new();
        let mut got = buffer.receive(&stream[..k]);
        got.extend(buffer.receive(&stream[k..]));
        assert_eq!(got, cmds);
        assert!(buffer.pending.is_empty());
    }
}

#[test]
fn every_chunk_size_yields_the_same_commands() {
    let (cmds, stream) = sample();
    for size in 1..=stream.len() {
        let mut buffer = FrameBuffer::new();
        let mut got = Vec::new();
        for chunk in stream.chunks(size) {
            got.extend(buffer.receive(chunk));
        }
        assert_eq!(got, cmds);
    }
}

#[test]
fn incomplete_frame_stays_buffered() {
    let mut buffer = FrameBuffer::new();
    assert!(buffer.feed(b"SAY\ncara\nhel").is_empty());
    assert_eq!(buffer.pending, b"SAY\ncara\nhel".to_vec());
    assert_eq!(buffer.feed(b"lo\nCONN"), vec![b"SAY\ncara\nhello\n".to_vec()]);
    assert_eq!(buffer.pending, b"CONN".to_vec());
    assert_eq!(buffer.feed(b"ECT\ncara\n"), vec![b"CONNECT\ncara\n".to_vec()]);
    assert!(buffer.pending.is_empty());
}

#[test]
fn two_line_frame_is_not_held_back() {
    let mut buffer = FrameBuffer::new();
    assert_eq!(buffer.feed(b"DISCONNECT\ncara\n"), vec![b"DISCONNECT\ncara\n".to_vec()]);
    assert!(buffer.feed(b"NICK\ncara\n").is_empty());
    assert_eq!(buffer.feed(b"dora\n"), vec![b"NICK\ncara\ndora\n".to_vec()]);
}

#[test]
fn merged_frames_come_out_in_order() {
    let mut buffer = FrameBuffer::new();
    let frames = buffer.feed(b"SAY\na\n1\nSAY\nb\n2\nCONNECT\nc\nSAY\nd");
    assert_eq!(
        frames,
        vec![b"SAY\na\n1\n".to_vec(), b"SAY\nb\n2\n".to_vec(), b"CONNECT\nc\n".to_vec()]
    );
    assert_eq!(buffer.pending, b"SAY\nd".to_vec());
}

#[test]
fn malformed_frame_is_dropped_and_the_next_delivered() {
    let mut buffer = FrameBuffer::new();
    let got = buffer.receive(b"BOGUS\nx\nSAY\ncara\nhi\n");
    assert_eq!(got, vec![wire(Lcmd::Say, "cara", "hi")]);
    assert!(buffer.pending.is_empty());
}

#[test]
fn stream_falls_into_step_after_unknown_lines() {
    let mut buffer = FrameBuffer::new();
    let frames = buffer.feed(b"WHISPER\ncara\npsst\nSAY\ncara\nhi\n\nCONNECT\ndan\n");
    assert_eq!(
        frames,
        vec![
            b"WHISPER\n".to_vec(),
            b"cara\n".to_vec(),
            b"psst\n".to_vec(),
            b"SAY\ncara\nhi\n".to_vec(),
            b"\n".to_vec(),
            b"CONNECT\ndan\n".to_vec(),
        ]
    );
    let mut buffer = FrameBuffer::new();
    let got = buffer.receive(b"WHISPER\ncara\npsst\nSAY\ncara\nhi\n\nCONNECT\ndan\n");
    assert_eq!(got, vec![wire(Lcmd::Say, "cara", "hi"), wire(Lcmd::Conn, "dan", "")]);
}

#[test]
fn unknown_line_is_not_held_back() {
    let mut buffer = FrameBuffer::new();
    assert!(buffer.feed(b"BOG").is_empty());
    assert_eq!(buffer.feed(b"US\nSA"), vec![b"BOGUS\n".to_vec()]);
    assert_eq!(buffer.pending, b"SA".to_vec());
    assert!(buffer.feed(b"Y\ncara\n").is_empty());
    assert_eq!(buffer.feed(b"\n"), vec![b"SAY\ncara\n\n".to_vec()]);
}

#[test]
fn empty_chunk_changes_nothing() {
    let mut buffer = FrameBuffer::new();
    assert!(buffer.receive(b"SAY\ncara").is_empty());
    assert!(buffer.receive(b"").is_empty());
    assert_eq!(buffer.pending, b"SAY\ncara".to_vec());
}

#[test]
fn received_say_frame_decodes_to_its_command() {
    let mut buffer = FrameBuffer::new();
    assert_eq!(buffer.receive(b"SAY\ncara\nhi\n"), vec![wire(Lcmd::Say, "cara", "hi")]);
}
