use uvi_writer::framer::Phase;
use uvi_writer::sink::{Limited, Sink};
use uvi_writer::writer::UviWriter;

/// A sink that follows a script: each call of `write` takes the next entry,
/// `Some(n)` to accept at most `n` bytes, `None` to fail. Past the end of the
/// script it accepts everything.
struct Scripted {
    out: Vec<u8>,
    script: Vec<Option<usize>>,
    calls: usize,
    flushes: usize,
    shutdowns: usize,
}

impl Scripted {
    fn new(script: Vec<Option<usize>>) -> Scripted {
        Scripted { out: Vec::new(), script, calls: 0, flushes: 0, shutdowns: 0 }
    }
}

impl Sink for Scripted {
    type Error = String;

    fn write(&mut self, bytes: &[u8]) -> Result<usize, String> {
        let entry = self.script.get(self.calls).copied().unwrap_or(Some(usize::MAX));
        self.calls += 1;
        match entry {
            Some(limit) => {
                let n = bytes.len().min(limit);
                self.out.extend_from_slice(&bytes[..n]);
                Ok(n)
            }
            None => Err(format!("refused call {}", self.calls)),
        }
    }

    fn flush(&mut self) -> Result<(), String> {
        self.flushes += 1;
        if self.flushes == 2 {
            Err("flush failed".to_string())
        } else {
            Ok(())
        }
    }

    fn shutdown(&mut self) -> Result<bool, String> {
        self.shutdowns += 1;
        Ok(self.shutdowns > 1)
    }
}

/// Calls `write` with what is left of `payload` until the frame is complete,
/// and returns what each call returned.
fn write_frame<T: Sink>(w: &mut UviWriter<T>, payload: &[u8]) -> Vec<usize>
where
    T::Error: std::fmt::Debug,
{
    let mut returned = Vec::new();
    let mut done = 0;
    loop {
        let n = w.write(&payload[done..]).unwrap();
        returned.push(n);
        done += n;
        if w.is_idle() {
            return returned;
        }
        assert!(returned.len() < 10_000);
    }
}

fn expected(prefix: &[u8], payload: &[u8], suffix: &[u8]) -> Vec<u8> {
    let total = prefix.len() + payload.len() + suffix.len();
    assert!(total < 128 * 128);
    let mut v = Vec::new();
    if total < 128 {
        v.push(total as u8);
    } else {
        v.push((total % 128) as u8 | 0x80);
        v.push((total / 128) as u8);
    }
    v.extend_from_slice(prefix);
    v.extend_from_slice(payload);
    v.extend_from_slice(suffix);
    v
}

#[test]
fn new_writer_is_idle_and_gives_its_sink_back() {
    let w = UviWriter::new(vec![1u8, 2, 3]);
    assert!(w.is_idle());
    assert_eq!(w.phase(), Phase::Init);
    assert_eq!(w.into_inner(), vec![1u8, 2, 3]);
}

#[test]
fn prefix_a_and_hello() {
    let mut w = UviWriter::new(Vec::new());
    w.set_prefix(b"A");
    w.set_suffix(b"");
    assert_eq!(w.write(b"hello").unwrap(), 5);
    assert!(w.is_idle());
    assert_eq!(w.into_inner(), vec![6, b'A', b'h', b'e', b'l', b'l', b'o']);
}

#[test]
fn frame_is_length_prefix_payload_suffix() {
    let prefixes: [&[u8]; 3] = [b"", b"A", b"0123456789"];
    let suffixes: [&[u8]; 3] = [b"", b"\n", b"abcdefghijkl"];
    let payloads: [Vec<u8>; 4] = [vec![], vec![0], b"hello world".to_vec(), vec![0x5a; 300]];
    for prefix in prefixes.iter() {
        for suffix in suffixes.iter() {
            for payload in payloads.iter() {
                let mut w = UviWriter::new(Vec::new());
                w.set_prefix(prefix);
                w.set_suffix(suffix);
                assert_eq!(w.write(payload).unwrap(), payload.len());
                assert!(w.is_idle());
                assert_eq!(w.into_inner(), expected(prefix, payload, suffix));
            }
        }
    }
}

#[test]
fn empty_frame_is_the_encoding_of_zero() {
    let mut w = UviWriter::new(Vec::new());
    assert_eq!(w.write(b"").unwrap(), 0);
    assert!(w.is_idle());
    assert_eq!(w.into_inner(), vec![0u8]);
}

#[test]
fn empty_frame_through_a_one_byte_sink_takes_one_call() {
    let mut w = UviWriter::new(Limited { out: Vec::new(), limit: 1 });
    assert_eq!(w.write(b"").unwrap(), 0);
    assert!(w.is_idle());
    assert_eq!(w.into_inner().out, vec![0u8]);
}

#[test]
fn sink_that_accepts_nothing_makes_write_return_zero() {
    let mut w = UviWriter::new(Limited { out: Vec::new(), limit: 0 });
    w.set_prefix(b"A");
    for _ in 0..5 {
        assert_eq!(w.write(b"hello").unwrap(), 0);
        assert_eq!(w.phase(), Phase::WritingLength);
    }
    let mut sink = w.into_inner();
    assert_eq!(sink.out, Vec::<u8>::new());
    sink.limit = 100;
    let mut w = UviWriter::new(sink);
    w.set_prefix(b"A");
    assert_eq!(w.write(b"hello").unwrap(), 5);
    assert_eq!(w.into_inner().out, expected(b"A", b"hello", b""));
}

#[test]
fn one_byte_sink_gives_the_same_bytes() {
    let payload = b"hello";
    let mut whole = UviWriter::new(Vec::new());
    whole.set_prefix(b"<<");
    whole.set_suffix(b">>");
    assert_eq!(write_frame(&mut whole, payload), vec![5]);

    let mut slow = UviWriter::new(Limited { out: Vec::new(), limit: 1 });
    slow.set_prefix(b"<<");
    slow.set_suffix(b">>");
    let returned = write_frame(&mut slow, payload);
    assert_eq!(returned, vec![1, 1, 1, 1, 1]);
    assert!(returned.iter().all(|n| *n <= 1));
    assert_eq!(returned.iter().sum::<usize>(), payload.len());

    let bytes = slow.into_inner().out;
    assert_eq!(bytes, whole.into_inner());
    assert_eq!(bytes, expected(b"<<", payload, b">>"));
}

#[test]
fn one_byte_sink_with_empty_suffix_reports_each_byte() {
    let mut w = UviWriter::new(Limited { out: Vec::new(), limit: 1 });
    w.set_prefix(b"A");
    assert_eq!(write_frame(&mut w, b"hey"), vec![1, 1, 1]);
    assert_eq!(w.into_inner().out, vec![4, b'A', b'h', b'e', b'y']);
}

#[test]
fn every_chunk_size_gives_the_same_bytes() {
    let payload: Vec<u8> = (0..200u8).collect();
    let want = expected(b"head", &payload, b"tail");
    for limit in 1..40 {
        let mut w = UviWriter::new(Limited { out: Vec::new(), limit });
        w.set_prefix(b"head");
        w.set_suffix(b"tail");
        let returned = write_frame(&mut w, &payload);
        assert_eq!(returned.iter().sum::<usize>(), payload.len());
        assert!(returned.iter().all(|n| *n <= limit));
        assert_eq!(w.into_inner().out, want);
    }
}

#[test]
fn zero_accepts_between_progress_do_not_show() {
    let script = vec![
        Some(0),
        Some(0),
        Some(1),
        Some(0),
        Some(1),
        Some(0),
        Some(2),
        Some(0),
        Some(0),
        Some(3),
        Some(0),
        Some(1),
        Some(0),
        Some(1),
        Some(0),
        Some(1),
        Some(0),
        Some(1),
    ];
    let mut w = UviWriter::new(Scripted::new(script));
    w.set_prefix(b"ab");
    w.set_suffix(b"yz");
    let payload = b"hello";
    let returned = write_frame(&mut w, payload);
    assert_eq!(returned, vec![0, 0, 0, 0, 0, 0, 3, 0, 1, 0, 0, 0, 1]);
    assert_eq!(returned.iter().sum::<usize>(), payload.len());
    let sink = w.into_inner();
    assert_eq!(sink.out, expected(b"ab", payload, b"yz"));
    assert_eq!(sink.calls, 18);
}

#[test]
fn nothing_is_returned_before_the_payload_begins() {
    let script = vec![Some(1), Some(0), Some(1), Some(1), Some(0), Some(1), Some(2), Some(2)];
    let mut w = UviWriter::new(Scripted::new(script));
    w.set_prefix(b"abc");
    let payload = vec![9u8; 200];

    assert_eq!(w.write(&payload).unwrap(), 0);
    assert_eq!(w.phase(), Phase::WritingLength);
    assert_eq!(w.write(&payload).unwrap(), 0);
    assert_eq!(w.phase(), Phase::WritingPrefix);
    assert_eq!(w.write(&payload).unwrap(), 2);
    assert_eq!(w.phase(), Phase::WritingPayload);
    assert_eq!(w.write(&payload[2..]).unwrap(), 198);
    assert!(w.is_idle());
    assert_eq!(w.into_inner().out, expected(b"abc", &payload, b""));
}

#[test]
fn last_payload_bytes_are_returned_when_the_suffix_is_done() {
    let script = vec![Some(9), Some(9), Some(9), Some(0), Some(1), Some(0), Some(1)];
    let mut w = UviWriter::new(Scripted::new(script));
    w.set_prefix(b"p");
    w.set_suffix(b"st");
    let payload = b"data";

    assert_eq!(w.write(payload).unwrap(), 0);
    assert_eq!(w.phase(), Phase::WritingSuffix(4));
    assert_eq!(w.admits(4), true);
    assert_eq!(w.write(payload).unwrap(), 0);
    assert_eq!(w.phase(), Phase::WritingSuffix(4));
    assert_eq!(w.write(payload).unwrap(), 4);
    assert!(w.is_idle());
    assert_eq!(w.into_inner().out, expected(b"p", payload, b"st"));
}

#[test]
fn error_of_the_sink_is_handed_on_and_progress_kept() {
    let script = vec![
        None,
        Some(1),
        None,
        Some(1),
        None,
        Some(1),
        Some(2),
        None,
        Some(9),
        None,
        Some(9),
    ];
    let mut w = UviWriter::new(Scripted::new(script));
    w.set_prefix(b"PQ");
    w.set_suffix(b"S");
    let payload = b"hello";

    assert_eq!(w.write(payload), Err("refused call 1".to_string()));
    assert!(w.is_idle());
    assert_eq!(w.write(payload), Err("refused call 3".to_string()));
    assert_eq!(w.phase(), Phase::WritingPrefix);
    assert_eq!(w.write(payload), Err("refused call 5".to_string()));
    assert_eq!(w.phase(), Phase::WritingPrefix);
    assert_eq!(w.write(payload), Ok(2));
    assert_eq!(w.phase(), Phase::WritingPayload);
    assert_eq!(w.write(&payload[2..]), Err("refused call 8".to_string()));
    assert_eq!(w.phase(), Phase::WritingPayload);
    assert_eq!(w.write(&payload[2..]), Err("refused call 10".to_string()));
    assert_eq!(w.phase(), Phase::WritingSuffix(3));
    assert_eq!(w.write(&payload[2..]), Ok(3));
    assert!(w.is_idle());
    let sink = w.into_inner();
    assert_eq!(sink.calls, 11);
    assert_eq!(sink.out, expected(b"PQ", payload, b"S"));
}

#[test]
fn error_before_the_first_byte_leaves_no_frame_in_flight() {
    let mut w = UviWriter::new(Scripted::new(vec![None]));
    assert_eq!(w.write(b"one"), Err("refused call 1".to_string()));
    assert!(w.is_idle());
    w.set_prefix(b"!");
    assert_eq!(w.write(b"other"), Ok(5));
    assert_eq!(w.into_inner().out, expected(b"!", b"other", b""));
}

#[test]
fn setters_change_the_frames_that_follow_only() {
    let mut w = UviWriter::new(Vec::new());
    w.set_prefix(b"a");
    w.set_suffix(b"b");
    assert_eq!(w.write(b"one").unwrap(), 3);
    w.set_prefix(b"cc");
    w.set_suffix(b"");
    assert_eq!(w.write(b"two").unwrap(), 3);
    w.set_prefix(b"");
    assert_eq!(w.write(b"three").unwrap(), 5);

    let mut want = expected(b"a", b"one", b"b");
    want.extend(expected(b"cc", b"two", b""));
    want.extend(expected(b"", b"three", b""));
    assert_eq!(w.into_inner(), want);
}

#[test]
fn setting_twice_replaces() {
    let mut w = UviWriter::new(Vec::new());
    w.set_prefix(b"first");
    w.set_prefix(b"2");
    w.set_suffix(b"first");
    w.set_suffix(b"3");
    assert_eq!(w.write(b"x").unwrap(), 1);
    assert_eq!(w.into_inner(), vec![3, b'2', b'x', b'3']);
}

#[test]
fn prefix_and_suffix_longer_than_eight_bytes() {
    let mut w = UviWriter::new(Limited { out: Vec::new(), limit: 3 });
    w.set_prefix(b"0123456789abcdef");
    w.set_suffix(b"fedcba9876543210");
    let returned = write_frame(&mut w, b"mid");
    assert_eq!(returned.iter().sum::<usize>(), 3);
    assert_eq!(
        w.into_inner().out,
        expected(b"0123456789abcdef", b"mid", b"fedcba9876543210")
    );
}

#[test]
fn length_of_two_bytes_written_one_at_a_time() {
    let payload = vec![1u8; 300];
    let mut w = UviWriter::new(Scripted::new(vec![Some(1), Some(0), Some(1)]));
    assert_eq!(w.write(&payload).unwrap(), 0);
    assert_eq!(w.phase(), Phase::WritingLength);
    assert_eq!(w.write(&payload).unwrap(), 300);
    let mut want = vec![0xac, 0x02];
    want.extend_from_slice(&payload);
    assert_eq!(w.into_inner().out, want);
}

#[test]
fn admits_tells_the_length_that_write_expects() {
    let mut w = UviWriter::new(Limited { out: Vec::new(), limit: 2 });
    assert!(w.admits(0));
    assert!(w.admits(1000));
    assert_eq!(w.write(b"abcdef").unwrap(), 2);
    assert!(w.admits(4));
    assert!(!w.admits(6));
    assert_eq!(w.write(b"cdef").unwrap(), 2);
    assert!(w.admits(2));
    assert_eq!(w.write(b"ef").unwrap(), 2);
    assert!(w.is_idle());
}

#[test]
fn flush_and_shutdown_go_to_the_sink() {
    let mut w = UviWriter::new(Scripted::new(vec![Some(1), Some(0)]));
    assert_eq!(w.flush(), Ok(()));
    assert_eq!(w.write(b"abc"), Ok(0));
    assert_eq!(w.phase(), Phase::WritingPayload);
    assert_eq!(w.flush(), Err("flush failed".to_string()));
    assert_eq!(w.shutdown(), Ok(false));
    assert_eq!(w.shutdown(), Ok(true));
    assert_eq!(w.phase(), Phase::WritingPayload);
    assert_eq!(w.write(b"abc"), Ok(3));
    let sink = w.into_inner();
    assert_eq!(sink.flushes, 2);
    assert_eq!(sink.shutdowns, 2);
    assert_eq!(sink.out, vec![3, b'a', b'b', b'c']);
}

#[test]
fn vec_sink_takes_everything() {
    let mut v: Vec<u8> = vec![9];
    assert_eq!(Sink::write(&mut v, b"abc").unwrap(), 3);
    assert_eq!(Sink::write(&mut v, b"").unwrap(), 0);
    assert!(Sink::flush(&mut v).is_ok());
    assert_eq!(Sink::shutdown(&mut v).unwrap(), true);
    assert_eq!(v, vec![9, b'a', b'b', b'c']);
}

#[test]
fn limited_sink_takes_a_front_part() {
    let mut s = Limited { out: Vec::new(), limit: 2 };
    assert_eq!(s.write(b"abc").unwrap(), 2);
    assert_eq!(s.write(b"c").unwrap(), 1);
    assert_eq!(s.write(b"").unwrap(), 0);
    assert!(s.flush().is_ok());
    assert_eq!(s.shutdown().unwrap(), true);
    assert_eq!(s.out, b"abc".to_vec());
    assert_eq!(s.limit, 2);
}

#[test]
fn flush_before_any_write_sends_nothing() {
    let mut w = UviWriter::new(Vec::<u8>::new());
    w.set_prefix(b"A");
    w.set_suffix(b"Z");
    assert!(w.flush().is_ok());
    assert_eq!(w.shutdown().unwrap(), true);
    assert!(w.is_idle());
    assert_eq!(w.into_inner(), Vec::<u8>::new());
}

#[test]
fn failed_offer_is_not_repeated_within_the_call() {
    let mut w = UviWriter::new(Scripted::new(vec![Some(1), None]));
    w.set_prefix(b"ab");
    assert_eq!(w.write(b"x"), Err("refused call 2".to_string()));
    assert_eq!(w.phase(), Phase::WritingPrefix);
    let sink = w.into_inner();
    assert_eq!(sink.calls, 2);
    assert_eq!(sink.out, vec![3u8]);
}

#[test]
fn each_offer_is_the_whole_rest_of_a_region() {
    struct Seen {
        offers: Vec<Vec<u8>>,
        limit: usize,
    }
    impl Sink for Seen {
        type Error = String;
        fn write(&mut self, bytes: &[u8]) -> Result<usize, String> {
            self.offers.push(bytes.to_vec());
            Ok(bytes.len().min(self.limit))
        }
        fn flush(&mut self) -> Result<(), String> {
            Ok(())
        }
        fn shutdown(&mut self) -> Result<bool, String> {
            Ok(true)
        }
    }
    let mut w = UviWriter::new(Seen { offers: Vec::new(), limit: 2 });
    w.set_prefix(b"abc");
    w.set_suffix(b"z");
    assert_eq!(w.write(b"hello").unwrap(), 2);
    assert_eq!(w.write(b"llo").unwrap(), 2);
    assert_eq!(w.write(b"o").unwrap(), 1);
    assert!(w.is_idle());
    let want: Vec<Vec<u8>> = vec![
        vec![9],
        b"abc".to_vec(),
        b"c".to_vec(),
        b"hello".to_vec(),
        b"llo".to_vec(),
        b"o".to_vec(),
        b"z".to_vec(),
    ];
    assert_eq!(w.into_inner().offers, want);
}
