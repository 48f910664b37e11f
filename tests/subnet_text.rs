use ping_the_internet::subnet::{Subnet, SubnetMask, SubnetParseError};

fn addr(a: u8, b: u8, c: u8, d: u8) -> u32 {
    u32::from_be_bytes([a, b, c, d])
}

#[test]
fn parse_then_format_slash16() {
    let s = Subnet::from_str("8.1.x.x").ok().unwrap();
    assert_eq!(s.mask(), SubnetMask::Slash16);
    assert_eq!(s.base_address(), addr(8, 1, 0, 0));
    assert_eq!(s.to_string(), "8.1.x.x");
}

#[test]
fn parse_every_mask() {
    let cases = [
        ("x.x.x.x", SubnetMask::Slash0, addr(0, 0, 0, 0)),
        ("12.x.x.x", SubnetMask::Slash8, addr(12, 0, 0, 0)),
        ("1.2.x.x", SubnetMask::Slash16, addr(1, 2, 0, 0)),
        ("1.2.3.x", SubnetMask::Slash24, addr(1, 2, 3, 0)),
        ("1.2.3.4", SubnetMask::Slash32, addr(1, 2, 3, 4)),
    ];
    for (text, mask, base) in cases {
        let s = Subnet::from_str(text).ok().unwrap();
        assert_eq!(s.mask(), mask);
        assert_eq!(s.base_address(), base);
        assert_eq!(s.to_string(), text);
    }
}

#[test]
fn parse_rejects_malformed_text() {
    for text in ["1.x.2.x", "x.1.x.x", "1.2.3", "1.2.3.4.5", "256.0.0.0", "1..2.3", "", "1.2.x.y", "1.2.x.x ", "-1.2.x.x"] {
        assert_eq!(Subnet::from_str(text).err(), Some(SubnetParseError::MalformedSubnet), "{text}");
    }
}

#[test]
fn parse_reads_leading_zeros_as_decimal() {
    let s = Subnet::from_str("008.001.x.x").ok().unwrap();
    assert_eq!(s.base_address(), addr(8, 1, 0, 0));
    assert_eq!(s.to_string(), "8.1.x.x");
}

#[test]
fn extreme_addresses_round_trip() {
    let low = Subnet::from_str("0.0.0.0").ok().unwrap();
    assert_eq!(low.base_address(), 0);
    assert_eq!(low.to_string(), "0.0.0.0");
    let high = Subnet::from_str("255.255.255.255").ok().unwrap();
    assert_eq!(high.base_address(), u32::MAX);
    assert_eq!(high.to_string(), "255.255.255.255");
    let all = Subnet::all();
    assert_eq!(all.address_count(), 1u64 << 32);
    assert_eq!(all.address_at(u32::MAX), u32::MAX);
}

#[test]
fn new_rejects_misaligned_base() {
    assert_eq!(Subnet::new(addr(1, 2, 3, 0), SubnetMask::Slash16).err(), Some(SubnetParseError::InvalidBase));
    assert_eq!(Subnet::new(1, SubnetMask::Slash0).err(), Some(SubnetParseError::InvalidBase));
    assert!(Subnet::new(addr(1, 2, 3, 4), SubnetMask::Slash32).is_ok());
    assert!(Subnet::new(addr(1, 2, 0, 0), SubnetMask::Slash16).is_ok());
}

#[test]
fn base_has_zero_octets_after_prefix() {
    let s = Subnet::from_str("10.20.x.x").ok().unwrap();
    let octets = s.base_address().to_be_bytes();
    assert_eq!(octets, [10, 20, 0, 0]);
}

#[test]
fn iter_subnets_are_one_octet_finer() {
    let all = Subnet::default();
    let kids = all.iter_subnets();
    assert_eq!(kids.len(), 256);
    assert_eq!(kids[0].to_string(), "0.x.x.x");
    assert_eq!(kids[255].to_string(), "255.x.x.x");
    let s16 = Subnet::from_str("8.1.x.x").ok().unwrap();
    let kids = s16.iter_subnets();
    assert_eq!(kids.len(), 256);
    assert_eq!(kids[7].mask(), SubnetMask::Slash24);
    assert_eq!(kids[7].base_address(), addr(8, 1, 7, 0));
    let s24 = kids[7];
    assert_eq!(s24.iter_subnets()[255].to_string(), "8.1.7.255");
    let s32 = Subnet::from_str("1.2.3.4").ok().unwrap();
    assert!(s32.iter_subnets().is_empty());
    assert!(s32.child(0).is_none());
}

#[test]
fn addresses_ascend_from_base() {
    let s = Subnet::from_str("8.1.x.x").ok().unwrap();
    assert_eq!(s.address_count(), 65536);
    assert_eq!(s.address_at(0), addr(8, 1, 0, 0));
    assert_eq!(s.address_at(257), addr(8, 1, 1, 1));
    assert_eq!(s.address_at(65535), addr(8, 1, 255, 255));
    assert_eq!(SubnetMask::Slash24.prefix_len(), 24);
}
