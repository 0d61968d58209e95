use cadenza::codex::{CodexAppServerConfig, CodexTransport};
use cadenza::launcher::{AppServerLauncher, BoundedBuf};


#[test]
fn default_uses_stdio_transport() {
    let cfg = CodexAppServerConfig::default();
    assert!(matches!(cfg.transport, CodexTransport::Stdio));
    assert_eq!(cfg.args, ["app-server", "--listen", "stdio://"]);
}



#[test]
fn ring_buffer_with_zero_cap_does_not_grow_unbounded() {
    let mut b = BoundedBuf::new(0);
    b.push(b"hello");
    b.push(b"world");
    assert_eq!(b.buf.len(), 0);
    assert!(b.overflowed);
    assert_eq!(b.total_pushed, 10);
    let s = b.snapshot_string();
    assert!(s.contains("truncated"), "{s}");
}

#[test]
fn ring_buffer_under_cap_no_overflow() {
    let mut b = BoundedBuf::new(3);
    b.push(b"ab");
    assert!(!b.overflowed);
    assert_eq!(b.buf.iter().copied().collect::<Vec<_>>(), b"ab");
    assert_eq!(b.total_pushed, 2);
}

#[test]
fn ring_buffer_keeps_tail_when_overfilled() {
    let mut b = BoundedBuf::new(3);
    b.push(b"abcdef");
    assert!(b.overflowed);
    assert_eq!(b.buf.iter().copied().collect::<Vec<_>>(), b"def");
    assert_eq!(b.total_pushed, 6);
}

#[test]
fn total_pushed_keeps_climbing_after_ring_fills() {
    let mut b = BoundedBuf::new(2);
    b.push(b"abcd");
    let after_first = b.total_pushed;
    b.push(b"e");
    assert!(b.total_pushed > after_first);
}

#[test]
fn snapshot_decodes_invalid_utf8_lossily() {
    let mut b = BoundedBuf::new(16);
    b.push(&[b'o', b'k', 0xff, b'!']);
    assert_eq!(b.snapshot_string(), "ok\u{FFFD}!");
}

#[test]
fn hook_capture_decodes_invalid_utf8_lossily_and_marks_truncation() {
    let mut b = cadenza::hooks::BoundedBuf::new(3);
    b.push(&[0xff, b'a', b'b', b'c']);
    assert_eq!(b.finish(), "\u{FFFD}ab\n<truncated; output exceeded capture cap>");
}

#[test]
fn system_clock_reads_the_current_time() {
    let now = cadenza::wasm_host::HostClock::System.now_millis();
    assert!(now > 1_600_000_000_000, "clock read {now}");
}

#[test]
fn pushes_in_chunks_keep_the_tail_of_all_bytes() {
    let mut b = BoundedBuf::new(4);
    b.push(b"ab");
    b.push(b"");
    b.push(b"cde");
    b.push(b"f");
    assert_eq!(b.buf.iter().copied().collect::<Vec<u8>>(), b"cdef".to_vec());
    assert!(b.overflowed);
    assert_eq!(b.total_pushed, 6);

    let mut exact = BoundedBuf::new(6);
    exact.push(b"abc");
    exact.push(b"def");
    assert_eq!(exact.buf.iter().copied().collect::<Vec<u8>>(), b"abcdef".to_vec());
    assert!(!exact.overflowed);
}

#[test]
fn launch_requires_an_absolute_workspace() {
    assert!(AppServerLauncher::new("codex app-server", "/srv/ws/CAD-1").workspace_is_absolute());
    assert!(!AppServerLauncher::new("codex app-server", "ws/CAD-1").workspace_is_absolute());
    assert!(!AppServerLauncher::new("codex app-server", "").workspace_is_absolute());
}
