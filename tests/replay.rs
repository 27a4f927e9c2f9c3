use websocket_replay::config::{ConfigError, Fraction, SessionConfig, UpfrontPlayback};
use websocket_replay::reader::RecordReader;
use websocket_replay::session::{Phase, Session};

fn config(delimiter: u8, upfront: UpfrontPlayback) -> SessionConfig {
    SessionConfig {
        delimiter,
        source_path: String::from("capture.txt"),
        interval_secs: 1,
        upfront,
    }
}

fn payloads(sends: &[Vec<u8>]) -> Vec<&[u8]> {
    sends.iter().map(|p| p.as_slice()).collect()
}

#[test]
fn reader_splits_after_each_delimiter() {
    let mut r = RecordReader::new(b"ab\ncd\nef".to_vec(), b'\n');
    assert_eq!(r.size(), 8);
    assert_eq!(r.read_next(), b"ab\n".to_vec());
    assert_eq!(r.bytes_read(), 3);
    assert_eq!(r.read_next(), b"cd\n".to_vec());
    assert_eq!(r.read_next(), b"ef".to_vec());
    assert_eq!(r.bytes_read(), 8);
    assert_eq!(r.read_next(), Vec::<u8>::new());
    assert_eq!(r.bytes_read(), 8);
}

#[test]
fn reader_null_delimiter_is_binary_safe() {
    let mut r = RecordReader::new(vec![1, 10, 0, 255, 0], 0);
    assert_eq!(r.read_next(), vec![1, 10, 0]);
    assert_eq!(r.read_next(), vec![255, 0]);
    assert!(r.read_next().is_empty());
}

#[test]
fn count_burst_then_timer_fires_until_end_of_file() {
    let cfg = config(b'\n', UpfrontPlayback::Count(2));
    let mut s = Session::new(&cfg, b"a\nb\nc\n".to_vec());
    assert_eq!(s.get_phase(), Phase::Burst);
    let a = s.on_open();
    assert_eq!(payloads(&a.sends), vec![&b"a\n"[..], &b"b\n"[..]]);
    assert_eq!(a.timer_ms, Some(1000));
    assert_eq!(s.get_phase(), Phase::Steady);

    let a = s.on_timeout();
    assert_eq!(payloads(&a.sends), vec![&b"c\n"[..]]);
    // The read of "c\n" returned bytes, so the timer is armed again.
    assert_eq!(a.timer_ms, Some(1000));
    assert!(!s.is_done());

    let a = s.on_timeout();
    assert_eq!(payloads(&a.sends), vec![&b""[..]]);
    assert_eq!(a.timer_ms, None);
    assert!(s.is_done());
    assert_eq!(s.get_phase(), Phase::Idle);
}

#[test]
fn count_burst_forwards_first_records_in_order() {
    let cfg = config(b'\n', UpfrontPlayback::Count(3));
    let mut s = Session::new(&cfg, b"one\ntwo\nthree\nfour\n".to_vec());
    let a = s.on_open();
    assert_eq!(payloads(&a.sends), vec![&b"one\n"[..], &b"two\n"[..], &b"three\n"[..]]);
    assert!(!s.is_done());
}

#[test]
fn count_burst_past_end_forwards_empty_records() {
    let cfg = config(b'\n', UpfrontPlayback::Count(5));
    let mut s = Session::new(&cfg, b"a\nb\n".to_vec());
    let a = s.on_open();
    assert_eq!(a.sends.len(), 5);
    assert_eq!(
        payloads(&a.sends),
        vec![&b"a\n"[..], &b"b\n"[..], &b""[..], &b""[..], &b""[..]]
    );
    assert!(s.is_done());
    // A timer is still armed once after an exhausting burst.
    assert_eq!(a.timer_ms, Some(1000));
    let a = s.on_timeout();
    assert_eq!(payloads(&a.sends), vec![&b""[..]]);
    assert_eq!(a.timer_ms, None);
    assert_eq!(s.get_phase(), Phase::Idle);
}

#[test]
fn count_zero_sends_nothing_upfront() {
    let cfg = config(b'\n', UpfrontPlayback::Count(0));
    let mut s = Session::new(&cfg, b"a\n".to_vec());
    let a = s.on_open();
    assert!(a.sends.is_empty());
    assert_eq!(a.timer_ms, Some(1000));
    let a = s.on_timeout();
    assert_eq!(payloads(&a.sends), vec![&b"a\n"[..]]);
}

#[test]
fn percentage_burst_stops_once_share_is_met() {
    // 12 bytes, half of it is 6: "aa\n" gives 3, "bb\n" gives 6.
    let cfg = config(b'\n', UpfrontPlayback::Percentage(Fraction { num: 1, den: 2 }));
    let mut s = Session::new(&cfg, b"aa\nbb\ncc\ndd\n".to_vec());
    let a = s.on_open();
    assert_eq!(payloads(&a.sends), vec![&b"aa\n"[..], &b"bb\n"[..]]);
    let a = s.on_timeout();
    assert_eq!(payloads(&a.sends), vec![&b"cc\n"[..]]);
}

#[test]
fn percentage_burst_overshoots_by_one_record() {
    // 100 bytes in records of 40, 40 and 20 bytes; a tenth is 10 bytes.
    let mut data = vec![b'x'; 39];
    data.push(b'\n');
    data.extend(vec![b'y'; 39]);
    data.push(b'\n');
    data.extend(vec![b'z'; 19]);
    data.push(b'\n');
    assert_eq!(data.len(), 100);
    let cfg = config(b'\n', UpfrontPlayback::Percentage(Fraction { num: 1, den: 10 }));
    let mut s = Session::new(&cfg, data.clone());
    let a = s.on_open();
    assert_eq!(a.sends.len(), 1);
    assert_eq!(a.sends[0], data[..40].to_vec());
    let a = s.on_timeout();
    assert_eq!(a.sends[0], data[40..80].to_vec());
}

#[test]
fn percentage_whole_file_reads_every_record() {
    let cfg = config(b'\n', UpfrontPlayback::Percentage(Fraction { num: 1, den: 1 }));
    let mut s = Session::new(&cfg, b"a\nb\nc".to_vec());
    let a = s.on_open();
    assert_eq!(payloads(&a.sends), vec![&b"a\n"[..], &b"b\n"[..], &b"c"[..]]);
    // End-of-file was reached without a read of zero bytes.
    assert!(!s.is_done());
    let a = s.on_timeout();
    assert_eq!(payloads(&a.sends), vec![&b""[..]]);
    assert_eq!(a.timer_ms, None);
}

#[test]
fn percentage_zero_still_reads_one_record() {
    let cfg = config(b'\n', UpfrontPlayback::Percentage(Fraction { num: 0, den: 5 }));
    let mut s = Session::new(&cfg, b"a\nb\n".to_vec());
    let a = s.on_open();
    assert_eq!(payloads(&a.sends), vec![&b"a\n"[..]]);
}

#[test]
fn empty_file_count_burst_sees_end_of_file() {
    let cfg = config(b'\n', UpfrontPlayback::Count(2));
    let mut s = Session::new(&cfg, Vec::new());
    let a = s.on_open();
    assert_eq!(payloads(&a.sends), vec![&b""[..], &b""[..]]);
    assert!(s.is_done());
    assert_eq!(a.timer_ms, Some(1000));
    let a = s.on_timeout();
    assert_eq!(payloads(&a.sends), vec![&b""[..]]);
    assert_eq!(a.timer_ms, None);
    assert_eq!(s.get_phase(), Phase::Idle);
}

#[test]
fn empty_file_percentage_burst_sends_one_empty_payload() {
    let cfg = config(b'\n', UpfrontPlayback::Percentage(Fraction { num: 4, den: 5 }));
    let mut s = Session::new(&cfg, Vec::new());
    let a = s.on_open();
    assert_eq!(payloads(&a.sends), vec![&b""[..]]);
    assert!(s.is_done());
    assert_eq!(a.timer_ms, Some(1000));
    let a = s.on_timeout();
    assert_eq!(payloads(&a.sends), vec![&b""[..]]);
    assert_eq!(a.timer_ms, None);
}

#[test]
fn sessions_replay_independently_from_the_start() {
    let cfg = config(b'\n', UpfrontPlayback::Count(1));
    let file = b"a\nb\nc\n".to_vec();
    let mut first = Session::new(&cfg, file.clone());
    let a = first.on_open();
    assert_eq!(payloads(&a.sends), vec![&b"a\n"[..]]);
    let a = first.on_timeout();
    assert_eq!(payloads(&a.sends), vec![&b"b\n"[..]]);

    let mut second = Session::new(&cfg, file);
    let a = second.on_open();
    assert_eq!(payloads(&a.sends), vec![&b"a\n"[..]]);
    let a = first.on_timeout();
    assert_eq!(payloads(&a.sends), vec![&b"c\n"[..]]);
    let a = second.on_timeout();
    assert_eq!(payloads(&a.sends), vec![&b"b\n"[..]]);
}

#[test]
fn null_delimited_session() {
    let cfg = config(0, UpfrontPlayback::Count(1));
    let mut s = Session::new(&cfg, b"x\0y\ny\0".to_vec());
    let a = s.on_open();
    assert_eq!(payloads(&a.sends), vec![&b"x\0"[..]]);
    let a = s.on_timeout();
    assert_eq!(payloads(&a.sends), vec![&b"y\ny\0"[..]]);
}

#[test]
fn timeout_is_interval_in_milliseconds() {
    let cfg = SessionConfig::new(b'\n', String::from("f"), 7, Some(1), None).unwrap();
    let s = Session::new(&cfg, Vec::new());
    assert_eq!(s.get_timeout(), 7000);
}

#[test]
fn config_resolves_count_or_percentage() {
    let c = SessionConfig::new(b'\0', String::from("cap"), 2, Some(4), None).unwrap();
    assert_eq!(c.upfront, UpfrontPlayback::Count(4));
    assert_eq!(c.delimiter, 0);
    assert_eq!(c.source_path, "cap");
    assert_eq!(c.interval_secs, 2);
    let f = Fraction { num: 8, den: 10 };
    let c = SessionConfig::new(b'\n', String::from("cap"), 1, None, Some(f)).unwrap();
    assert_eq!(c.upfront, UpfrontPlayback::Percentage(f));
}

#[test]
fn config_rejects_both_or_neither() {
    let f = Fraction { num: 1, den: 2 };
    let r = SessionConfig::new(b'\n', String::from("f"), 1, Some(1), Some(f));
    assert_eq!(r.unwrap_err(), ConfigError::ConflictingPlayback);
    let r = SessionConfig::new(b'\n', String::from("f"), 1, None, None);
    assert_eq!(r.unwrap_err(), ConfigError::NoPlayback);
}

#[test]
fn config_rejects_bad_percentage_and_interval() {
    let r = SessionConfig::new(b'\n', String::from("f"), 1, None, Some(Fraction { num: 3, den: 2 }));
    assert_eq!(r.unwrap_err(), ConfigError::InvalidPercentage);
    let r = SessionConfig::new(b'\n', String::from("f"), 1, None, Some(Fraction { num: 0, den: 0 }));
    assert_eq!(r.unwrap_err(), ConfigError::InvalidPercentage);
    let r = SessionConfig::new(b'\n', String::from("f"), u64::MAX, Some(1), None);
    assert_eq!(r.unwrap_err(), ConfigError::IntervalTooLong);
    let r = SessionConfig::new(b'\n', String::from("f"), u64::MAX / 1000, Some(1), None);
    assert!(r.is_ok());
}

#[test]
fn fraction_reached_is_exact_at_the_boundary() {
    let f = Fraction { num: 1, den: 3 };
    assert!(f.is_reached(9, 3));
    assert!(!f.is_reached(9, 2));
    assert!(f.is_reached(10, 4));
    assert!(!f.is_reached(10, 3));
    let big = Fraction { num: u64::MAX, den: u64::MAX };
    assert!(big.is_reached(usize::MAX, usize::MAX));
    assert!(!big.is_reached(usize::MAX, usize::MAX - 1));
}
