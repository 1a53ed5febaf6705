use herd::pty::{
    scrollback_file_name, session_not_found, session_output_event, ScrollbackBuffer, SessionManager,
    BUFFER_MAX_LINES,
};

fn lines(from: usize, to: usize) -> Vec<u8> {
    let mut v = Vec::new();
    for i in from..to {
        v.extend_from_slice(format!("line {}\n", i).as_bytes());
    }
    v
}

#[test]
fn scrollback_keeps_everything_under_the_cap() {
    let mut b = ScrollbackBuffer::new("/tmp/s.log");
    b.append(b"hello ");
    b.append(b"world\n");
    assert_eq!(b.get_all(), b"hello world\n".to_vec());
    assert_eq!(b.file_path(), "/tmp/s.log");
}

#[test]
fn scrollback_drops_oldest_lines() {
    let mut b = ScrollbackBuffer::new("/tmp/s.log");
    b.append(&lines(0, 10_000));
    b.append(&lines(10_000, 10_005));
    b.append(b"partial");
    let all = b.get_all();
    assert_eq!(all.iter().filter(|&&c| c == b'\n').count(), BUFFER_MAX_LINES);
    let mut expected = lines(5, 10_005);
    expected.extend_from_slice(b"partial");
    assert_eq!(all, expected);
}

#[test]
fn scrollback_chunk_larger_than_cap_keeps_its_end() {
    let mut b = ScrollbackBuffer::new("/tmp/s.log");
    b.append(b"old\n");
    b.append(&lines(0, 10_003));
    assert_eq!(b.get_all(), lines(3, 10_003));
}

#[test]
fn sessions_register_output_read_and_kill() {
    let mut m = SessionManager::new();
    assert!(!m.has_session("s1"));
    m.register_session("s1", "ticket-1", "/tmp/s1.log");
    assert!(m.has_session("s1"));
    assert!(!m.is_unread("s1"));
    assert!(m.record_output("s1", b"abc\n"));
    assert!(m.is_unread("s1"));
    assert_eq!(m.get_scrollback("s1"), Ok(b"abc\n".to_vec()));
    assert!(!m.is_unread("s1"));
    assert!(!m.record_output("nope", b"x"));
    assert_eq!(m.get_scrollback("nope"), Err("Session nope not found".to_string()));
    assert!(m.kill_session("s1"));
    assert!(!m.has_session("s1"));
    assert!(!m.kill_session("s1"));
    assert!(!m.is_unread("s1"));
    assert_eq!(m.resize_session("s1", 24, 80), Ok(()));
}

#[test]
fn sessions_are_independent() {
    let mut m = SessionManager::new();
    m.register_session("a", "t1", "/tmp/a.log");
    m.register_session("b", "t2", "/tmp/b.log");
    m.record_output("a", b"from a");
    assert!(m.is_unread("a"));
    assert!(!m.is_unread("b"));
    assert_eq!(m.get_scrollback("b"), Ok(vec![]));
    m.register_session("a", "t3", "/tmp/a2.log");
    assert_eq!(m.get_scrollback("a"), Ok(vec![]));
}

#[test]
fn session_names() {
    assert_eq!(session_output_event("abc"), "session_output_abc");
    assert_eq!(scrollback_file_name("abc"), "abc.log");
    assert_eq!(session_not_found("x"), "Session x not found");
}

#[test]
fn agent_programs_are_looked_up() {
    assert_eq!(herd::pty::known_agent_cli("gemini"), Ok("gemini".to_string()));
    assert_eq!(herd::pty::known_agent_cli("aider"), Ok("aider".to_string()));
    assert_eq!(herd::pty::known_agent_cli("vim"), Err("Unknown agent: vim".to_string()));
    assert_eq!(herd::pty::known_agent_cli(""), Err("Unknown agent: ".to_string()));
}
