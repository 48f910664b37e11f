use ping_the_internet::codec::encode_slash16;
use ping_the_internet::file::{decode_slash16_file, encode_slash16_file, slash16_dir, slash16_path, Corruption, ReadError, SaveError};
use ping_the_internet::outcome::{DecodeError, PingResult};
use ping_the_internet::results::{Slash16Result, Slash24Result};
use ping_the_internet::stats::{
    all_error_slash24s, failure_log_line, Analysis, FailureTally, Slash8Result, SubnetResults,
};
use ping_the_internet::subnet::{Subnet, SubnetMask};

fn slash24(f: impl Fn(usize) -> PingResult) -> Slash24Result {
    Slash24Result::from_vec((0..256).map(f).collect()).unwrap()
}

fn slash16(f: impl Fn(usize) -> Option<Slash24Result>) -> Slash16Result {
    Slash16Result::from_vec((0..256).map(f).collect()).unwrap()
}

fn same(a: &Slash16Result, b: &Slash16Result) -> bool {
    (0..=255u8).all(|c| match (a.slash24(c), b.slash24(c)) {
        (None, None) => true,
        (Some(x), Some(y)) => (0..=255u8).all(|d| x.get(d) == y.get(d)),
        _ => false,
    })
}

fn eight_zero() -> Slash16Result {
    slash16(|c| if c == 0 {
        Some(slash24(|d| if d == 0 { PingResult::Success(12) } else { PingResult::Timeout }))
    } else {
        None
    })
}

#[test]
fn save_then_load_eight_zero() {
    let subnet = Subnet::from_str("8.0.x.x").ok().unwrap();
    let r = eight_zero();
    let bytes = encode_slash16_file(&subnet, &r).unwrap();
    assert_ne!(bytes, encode_slash16(&r));
    let back = decode_slash16_file(&bytes).unwrap();
    assert!(same(&r, &back));
    assert_eq!(back.slash24(0).unwrap().get(0), PingResult::Success(12));
    let a = Analysis::of_slash_16(&back);
    assert_eq!((a.alive, a.timed_out, a.errored), (1, 65535, 0));
    assert_eq!(slash16_path(&subnet).unwrap(), "./data/8/0");
}

#[test]
fn write_then_read_mixed() {
    let subnet = Subnet::from_str("200.17.x.x").ok().unwrap();
    let r = slash16(|c| if c % 5 == 0 {
        Some(slash24(|d| match d % 3 { 0 => PingResult::Success(d as u16 * 7), 1 => PingResult::Timeout, _ => PingResult::Error }))
    } else {
        None
    });
    let bytes = encode_slash16_file(&subnet, &r).unwrap();
    assert!(same(&r, &decode_slash16_file(&bytes).unwrap()));
}

#[test]
fn compressed_all_timeouts_is_small() {
    let subnet = Subnet::from_str("1.1.x.x").ok().unwrap();
    let bytes = encode_slash16_file(&subnet, &slash16(|_| None)).unwrap();
    assert!(bytes.len() < 64);
    let back = decode_slash16_file(&bytes).unwrap();
    assert!((0..=255u8).all(|c| back.slash24(c).is_none()));
}

#[test]
fn save_needs_a_slash16() {
    let subnet = Subnet::from_str("8.x.x.x").ok().unwrap();
    assert_eq!(encode_slash16_file(&subnet, &eight_zero()).err(), Some(SaveError::WrongMask));
    assert_eq!(slash16_path(&subnet).err(), Some(SaveError::WrongMask));
    let s = Subnet::from_str("255.3.x.x").ok().unwrap();
    assert_eq!(slash16_dir(&s).unwrap(), "./data/255");
    assert_eq!(slash16_path(&s).unwrap(), "./data/255/3");
}

#[test]
fn read_rejects_bad_contents() {
    assert_eq!(decode_slash16_file(&[1, 2, 3, 4]).err(), Some(ReadError::Corrupt(Corruption::Deflate)));
    assert_eq!(decode_slash16_file(&[]).err(), Some(ReadError::Corrupt(Corruption::Deflate)));
    let subnet = Subnet::from_str("1.1.x.x").ok().unwrap();
    let mut good = encode_slash16_file(&subnet, &slash16(|_| None)).unwrap();
    good.push(0);
    assert!(decode_slash16_file(&good).is_err());
}

#[test]
fn read_reports_corrupt_stream() {
    let subnet = Subnet::from_str("1.1.x.x").ok().unwrap();
    let bytes = encode_slash16_file(&subnet, &slash16(|_| None)).unwrap();
    let stream = ping_the_internet::file::decode_slash16_file(&bytes).map(|r| encode_slash16(&r)).unwrap();
    assert_eq!(stream.len(), 256);
    let e = decode_slash16_file(&bytes[..bytes.len() - 1]).err().unwrap();
    assert!(matches!(e, ReadError::Corrupt(Corruption::Deflate) | ReadError::Corrupt(Corruption::Stream(DecodeError::Truncated))));
}

#[test]
fn counts_sum_to_65536() {
    let r = slash16(|c| match c % 4 {
        0 => None,
        1 => Some(slash24(|_| PingResult::Error)),
        2 => Some(slash24(|d| if d < 10 { PingResult::Success(1) } else { PingResult::Timeout })),
        _ => Some(slash24(|_| PingResult::Timeout)),
    });
    let a = Analysis::of_slash_16(&r);
    assert_eq!(a.mask, SubnetMask::Slash16);
    assert_eq!(a.alive, 64 * 10);
    assert_eq!(a.errored, 64 * 256);
    assert_eq!(a.timed_out, 64 * 256 + 64 * 246 + 64 * 256);
    assert_eq!(a.alive + a.timed_out + a.errored, 65536);
    assert_eq!(a.get_max(), 65536);
}

#[test]
fn absent_slash24_counts_as_timeouts() {
    let absent = slash16(|c| if c == 3 { None } else { Some(slash24(|_| PingResult::Success(2))) });
    let present = slash16(|c| if c == 3 { Some(slash24(|_| PingResult::Timeout)) } else { Some(slash24(|_| PingResult::Success(2))) });
    assert_eq!(Analysis::of_slash_16(&absent), Analysis::of_slash_16(&present));
    assert_eq!(Analysis::of_slash_16(&absent).timed_out, 256);
}

#[test]
fn smaller_and_larger_reductions() {
    let a = Analysis::of_slash_32(PingResult::Error);
    assert_eq!((a.alive, a.timed_out, a.errored, a.mask), (0, 0, 1, SubnetMask::Slash32));
    let s = slash24(|d| if d == 1 { PingResult::Success(3) } else { PingResult::Timeout });
    let a = Analysis::of_subnet(SubnetResults::Slash24(s));
    assert_eq!((a.alive, a.timed_out, a.errored), (1, 255, 0));
    let w = Slash8Result::from_vec((0..256).map(|b| if b == 0 { Some(eight_zero()) } else { None }).collect()).unwrap();
    let a = Analysis::of_subnet(SubnetResults::Slash8(w));
    assert_eq!((a.alive, a.timed_out, a.errored), (1, 65535, 255 * 65536));
    assert_eq!(a.get_max(), 1 << 24);
    assert!(Slash8Result::from_vec(Vec::new()).is_none());
}

#[test]
fn failure_threshold() {
    let r = slash16(|c| if c < 8 { Some(slash24(|_| PingResult::Error)) } else if c < 10 {
        Some(slash24(|d| if d == 0 { PingResult::Timeout } else { PingResult::Error }))
    } else {
        None
    });
    assert_eq!(all_error_slash24s(&r), 8);
    let mut t = FailureTally::new();
    for _ in 0..256 {
        t.record(&r);
    }
    assert_eq!(t.failed_slash24s, 2048);
    assert!(!t.is_fatal());
    t.record(&r);
    assert!(t.is_fatal());
}

#[test]
fn failure_line() {
    let s = Subnet::from_str("9.8.7.x").ok().unwrap();
    assert_eq!(failure_log_line("2024-01-01T00:00:00", &s), "[2024-01-01T00:00:00] 9.8.7.x");
}
