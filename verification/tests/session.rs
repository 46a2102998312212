use shepherd::pair::ActivePair;
use shepherd::session::AttachedSession;
use shepherd::session::ReadOutcome;
use shepherd::session::ReaderDirective;
use shepherd::session::SharedSize;
use shepherd::session::SizeProbe;

fn fresh(id: u64) -> AttachedSession {
    AttachedSession::new(id, "agent".to_string(), Vec::new(), "/tmp/wt".to_string())
}

#[test]
fn shared_size_round_trip() {
    let s = SharedSize::new(24, 80);
    assert_eq!(s.get(), (24, 80));
    let mut s = s;
    s.set(50, 132);
    assert_eq!(s.get(), (50, 132));
    assert_eq!(SharedSize::pack_size(1, 2), (1u32 << 16) | 2);
}

#[test]
fn shutdown_leads_to_dead_within_one_reader_iteration() {
    let mut s = fresh(1).0;
    assert!(!s.is_dead());
    s.shutdown();
    let d = s.reader_step(
        ReadOutcome::Data { len: 4, probe: SizeProbe::Size { rows: 24, cols: 80 } },
        24,
        80,
    );
    assert!(matches!(d, ReaderDirective::Exit));
    assert!(s.is_dead());
    assert_eq!(s.get_error().unwrap(), "Process exited");
}

#[test]
fn shutdown_twice_equals_once() {
    let mut once = fresh(1).0;
    once.shutdown();
    let mut twice = fresh(1).0;
    twice.shutdown();
    twice.shutdown();
    assert_eq!(once.shutdown_requested, twice.shutdown_requested);
    assert_eq!(once.is_dead(), twice.is_dead());
    assert_eq!(once.active, twice.active);
}

#[test]
fn eof_records_process_exited() {
    let mut s = fresh(2).0;
    let d = s.reader_step(ReadOutcome::Eof, 24, 80);
    assert!(matches!(d, ReaderDirective::Exit));
    assert_eq!(s.get_error().unwrap(), "Process exited");
}

#[test]
fn read_error_records_message() {
    let mut s = fresh(3).0;
    let d = s.reader_step(ReadOutcome::OsError { message: "broken".to_string() }, 24, 80);
    assert!(matches!(d, ReaderDirective::Exit));
    assert_eq!(s.get_error().unwrap(), "PTY read error: broken");
}

#[test]
fn data_sets_dirty_and_asks_resize_on_mismatch() {
    let mut s = fresh(4).0;
    let d = s.reader_step(
        ReadOutcome::Data { len: 10, probe: SizeProbe::Size { rows: 24, cols: 80 } },
        25,
        80,
    );
    assert!(matches!(d, ReaderDirective::Feed { resize: true }));
    assert!(s.dirty);
    assert!(!s.is_dead());
    let d2 = s.reader_step(
        ReadOutcome::Data { len: 10, probe: SizeProbe::Size { rows: 25, cols: 80 } },
        25,
        80,
    );
    assert!(matches!(d2, ReaderDirective::Feed { resize: false }));
}

#[test]
fn get_screen_clears_dirty() {
    let mut s = fresh(5).0;
    let _ = s.reader_step(
        ReadOutcome::Data { len: 1, probe: SizeProbe::Size { rows: 24, cols: 80 } },
        24,
        80,
    );
    assert!(s.dirty);
    let _ = s.get_screen();
    assert!(!s.dirty);
}

#[test]
fn write_input_queues_bytes_in_order() {
    let mut s = fresh(6);
    s.write_input(b"abc");
    s.write_input(b"de");
    assert_eq!(s.0.written, b"abcde".to_vec());
}

#[test]
fn detach_then_attach_restores_the_pair() {
    let session = fresh(7);
    let pair = ActivePair::new("feat".to_string(), "/tmp/wt/feat".to_string(), session, true);
    let bg = pair.detach();
    assert!(!bg.claude.0.active);
    assert_eq!(bg.name, "feat");
    let back = bg.attach();
    assert!(back.claude.0.active);
    assert_eq!(back.name, "feat");
    assert_eq!(back.path, "/tmp/wt/feat");
    assert!(back.resumed);
    assert_eq!(back.scroll_offset, 0);
}

#[test]
fn csi_queries_get_the_documented_answers() {
    let t = shepherd::session::TerminalCallbacks::new();
    assert_eq!(t.csi_response(None, 'n', Some(5), 3, 7).unwrap(), "\x1b[0n");
    assert_eq!(t.csi_response(None, 'n', Some(6), 3, 7).unwrap(), "\x1b[4;8R");
    assert_eq!(t.csi_response(None, 'c', None, 0, 0).unwrap(), "\x1b[?62;1;2;6;22c");
    assert_eq!(t.csi_response(Some(b'>'), 'c', Some(0), 0, 0).unwrap(), "\x1b[>0;0;0c");
    assert_eq!(t.csi_response(Some(b'?'), 'n', Some(6), 0, 0).unwrap(), "\x1b[?1;1R");
    assert!(t.csi_response(None, 'x', Some(1), 0, 0).is_none());
    assert!(t.csi_response(None, 'n', Some(7), 0, 0).is_none());
}
