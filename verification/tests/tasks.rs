use lightc::command::{Lcmd, Lcommand};
use lightc::framing::FrameBuffer;
use lightc::tasks::{read_step, write_step, ReadOutcome};

fn queued(kind: Lcmd, user: &str, content: &str) -> Lcommand {
    Lcommand { cmd_type: kind, user: user.to_string(), content: content.to_string() }
}

#[test]
fn writer_writes_the_frame_and_goes_on() {
    let step = write_step(&queued(Lcmd::Say, "bob", "hello there"));
    assert_eq!(step.frame, Some(b"SAY\nbob\nhello there\n".to_vec()));
    assert!(!step.last);
    let step = write_step(&queued(Lcmd::Nick, "alice", "bob"));
    assert_eq!(step.frame, Some(b"NICK\nalice\nbob\n".to_vec()));
    assert!(!step.last);
}

#[test]
fn writer_ends_after_disconnect() {
    let step = write_step(&queued(Lcmd::Dc, "bob", ""));
    assert_eq!(step.frame, Some(b"DISCONNECT\nbob\n".to_vec()));
    assert!(step.last);
}

#[test]
fn writer_never_writes_quit() {
    let step = write_step(&queued(Lcmd::Quit, "bob", ""));
    assert_eq!(step.frame, None);
    assert!(!step.last);
}

#[test]
fn reader_forwards_completed_frames() {
    let mut buffer = FrameBuffer::new();
    let step = read_step(&mut buffer, ReadOutcome::Filled, b"SAY\ncara\nhi\nCONN");
    assert_eq!(step.commands, vec![queued(Lcmd::Say, "cara", "hi")]);
    assert!(step.go_on);
    assert_eq!(buffer.pending, b"CONN".to_vec());
    let step = read_step(&mut buffer, ReadOutcome::Filled, b"ECT\ndan\n");
    assert_eq!(step.commands, vec![queued(Lcmd::Conn, "dan", "")]);
    assert!(step.go_on);
}

#[test]
fn reader_ends_at_the_end_of_the_stream() {
    let mut buffer = FrameBuffer::new();
    read_step(&mut buffer, ReadOutcome::Filled, b"SAY\ncara");
    let step = read_step(&mut buffer, ReadOutcome::Filled, b"");
    assert!(step.commands.is_empty());
    assert!(!step.go_on);
    assert_eq!(buffer.pending, b"SAY\ncara".to_vec());
}

#[test]
fn reader_retries_after_a_timeout_and_ends_on_failure() {
    let mut buffer = FrameBuffer::new();
    read_step(&mut buffer, ReadOutcome::Filled, b"SAY\ncara");
    let step = read_step(&mut buffer, ReadOutcome::Retry, b"ignored");
    assert!(step.commands.is_empty());
    assert!(step.go_on);
    assert_eq!(buffer.pending, b"SAY\ncara".to_vec());
    let step = read_step(&mut buffer, ReadOutcome::Broken, b"ignored");
    assert!(step.commands.is_empty());
    assert!(!step.go_on);
}
