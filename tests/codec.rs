use ping_the_internet::codec::{decode_slash16, encode_slash16};
use ping_the_internet::outcome::{DecodeError, PingResult};
use ping_the_internet::results::{Slash16Result, Slash24Result};

fn slash24(f: impl Fn(usize) -> PingResult) -> Slash24Result {
    Slash24Result::from_vec((0..256).map(f).collect()).unwrap()
}

fn slash16(f: impl Fn(usize) -> Option<Slash24Result>) -> Slash16Result {
    Slash16Result::from_vec((0..256).map(f).collect()).unwrap()
}

fn same(a: &Slash16Result, b: &Slash16Result) -> bool {
    (0..=255u8).all(|c| match (a.slash24(c), b.slash24(c)) {
        (None, None) => true,
        (Some(x), Some(y)) => (0..=255u8).all(|d| x.get(d) == y.get(d)),
        _ => false,
    })
}

#[test]
fn outcome_bytes() {
    let mut out = Vec::new();
    PingResult::Success(0x1234).serialize_into(&mut out);
    PingResult::Timeout.serialize_into(&mut out);
    PingResult::Error.serialize_into(&mut out);
    assert_eq!(out, vec![0x00, 0x34, 0x12, 0x01, 0x02]);
    assert_eq!(PingResult::parse_from_bytes(&out, 0), Ok((PingResult::Success(0x1234), 3)));
    assert_eq!(PingResult::parse_from_bytes(&out, 3), Ok((PingResult::Timeout, 4)));
    assert_eq!(PingResult::parse_from_bytes(&out, 4), Ok((PingResult::Error, 5)));
}

#[test]
fn outcome_round_trip_each_variant() {
    for o in [PingResult::Success(0), PingResult::Success(65535), PingResult::Success(12), PingResult::Timeout, PingResult::Error] {
        let mut out = Vec::new();
        o.serialize_into(&mut out);
        assert_eq!(PingResult::parse_from_bytes(&out, 0), Ok((o, out.len())));
    }
}

#[test]
fn rtt_saturates() {
    assert_eq!(PingResult::from_rtt_millis(12), PingResult::Success(12));
    assert_eq!(PingResult::from_rtt_millis(65535), PingResult::Success(65535));
    assert_eq!(PingResult::from_rtt_millis(65536), PingResult::Success(0xFFFF));
    assert_eq!(PingResult::from_rtt_millis(10_000_000), PingResult::Success(0xFFFF));
    let mut out = Vec::new();
    PingResult::from_rtt_millis(70_000).serialize_into(&mut out);
    assert_eq!(out, vec![0x00, 0xFF, 0xFF]);
}

#[test]
fn outcome_errors() {
    assert_eq!(PingResult::parse_from_bytes(&[0x03], 0), Err(DecodeError::CorruptOutcome));
    assert_eq!(PingResult::parse_from_bytes(&[0x00, 0x01], 0), Err(DecodeError::Truncated));
    assert_eq!(PingResult::parse_from_bytes(&[], 0), Err(DecodeError::Truncated));
}

#[test]
fn all_timeout_stream_is_256_zero_bytes() {
    let r = slash16(|_| None);
    assert_eq!(encode_slash16(&r), vec![0u8; 256]);
}

#[test]
fn all_success_stream_layout() {
    let r = slash16(|_| Some(slash24(|d| PingResult::Success(d as u16))));
    let bytes = encode_slash16(&r);
    assert_eq!(bytes.len(), 256 + 256 * 256 * 3);
    for c in 0..256 {
        let rec = &bytes[c * (1 + 768)..(c + 1) * (1 + 768)];
        assert_eq!(rec[0], 0x01);
        assert_eq!(&rec[1 + 5 * 3..1 + 6 * 3], &[0x00, 5, 0]);
    }
}

#[test]
fn slash16_round_trip_mixed() {
    let r = slash16(|c| match c % 3 {
        0 => None,
        1 => Some(slash24(|d| if d % 2 == 0 { PingResult::Timeout } else { PingResult::Success((c * d) as u16) })),
        _ => Some(slash24(|d| if d == 9 { PingResult::Error } else { PingResult::Timeout })),
    });
    let bytes = encode_slash16(&r);
    let back = decode_slash16(&bytes).unwrap();
    assert!(same(&r, &back));
}

#[test]
fn slash16_decode_errors() {
    let mut bytes = vec![0u8; 256];
    bytes.push(0);
    assert_eq!(decode_slash16(&bytes).err(), Some(DecodeError::TrailingBytes));
    assert_eq!(decode_slash16(&[0u8; 255]).err(), Some(DecodeError::Truncated));
    let mut bytes = vec![0u8; 256];
    bytes[4] = 7;
    assert_eq!(decode_slash16(&bytes).err(), Some(DecodeError::CorruptSlash24));
    let mut bytes = vec![1u8, 9];
    bytes.extend(vec![0u8; 600]);
    assert_eq!(decode_slash16(&bytes).err(), Some(DecodeError::CorruptOutcome));
}

#[test]
fn slash24_needs_256_outcomes() {
    assert!(Slash24Result::from_vec(vec![PingResult::Timeout; 255]).is_none());
    assert!(Slash16Result::from_vec(Vec::new()).is_none());
    let s = slash24(|_| PingResult::Timeout);
    assert!(s.is_all_timeouts());
    assert!(!slash24(|d| if d == 255 { PingResult::Error } else { PingResult::Timeout }).is_all_timeouts());
}
