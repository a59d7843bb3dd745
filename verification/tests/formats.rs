use agent_device::ap;
use agent_device::ap::ApError;
use agent_device::linux_abi::{create_pci_root_bus_path, AP_ROOT_BUS_PATH};
use agent_device::matcher::{ApMatcher, IommuGroup, NetPciMatcher, PciMatcher, VfioMatcher};
use agent_device::numeral::{
    all_digits, decimal_text, digit_letter, digit_of, hex_text, parse_bounded, parse_digits,
    parse_signed_bounded,
};
use agent_device::pci::{Address, Path, PciError, SlotFn};
use agent_device::text::{
    begins_with, chars_of, finishes_with, first_place, join_text, replace_text, same_chars, same_text,
    split_text, text_of,
};
use agent_device::uevent::{Uevent, UeventMatcher};

#[test]
fn characters_of_a_text() {
    assert_eq!(chars_of("a/ü"), vec!['a', '/', 'ü']);
    assert_eq!(chars_of(""), Vec::<char>::new());
    assert_eq!(text_of(&['x', 'ß', 'y']), "xßy");
    assert_eq!(agent_device::text::concat("ab", "cd"), "abcd");
}

#[test]
fn texts_are_compared() {
    assert!(same_text("abc", "abc"));
    assert!(!same_text("abc", "abd"));
    assert!(!same_text("abc", "ab"));
    assert!(same_chars(&[], &[]));
    assert!(begins_with("PCIDEVICE_x", "PCIDEVICE_"));
    assert!(!begins_with("PCI", "PCIDEVICE_"));
    assert!(begins_with("x", ""));
    assert!(finishes_with("PCIDEVICE_x_INFO", "_INFO"));
    assert!(!finishes_with("INFO", "_INFO"));
    assert_eq!(first_place(&['a', '=', 'b', '='], '='), Some(1));
    assert_eq!(first_place(&['a', 'b'], '='), None);
}

#[test]
fn split_texts_join_again() {
    for text in ["", ",", "a", "a,b", ",a,,b,", "a,b,c"] {
        let pieces = split_text(text, ',');
        assert_eq!(pieces, text.split(',').collect::<Vec<_>>());
        assert_eq!(join_text(&pieces, ","), text);
    }
    let parts = vec!["0000".to_string(), "1a".to_string(), "01.0".to_string()];
    assert_eq!(split_text(&join_text(&parts, ":"), ':'), parts);
    assert_eq!(split_text("/devices/pci0000:00/0000:00:02.0", '/').last().unwrap(), "0000:00:02.0");
    assert_eq!(join_text(&vec![], ","), "");
}

fn replaced(text: &str, pairs: &[(&str, &str)]) -> String {
    let words = pairs.iter().map(|p| p.0.to_string()).collect();
    let to = pairs.iter().map(|p| p.1.to_string()).collect();
    replace_text(text, &words, &to)
}

#[test]
fn occurrences_are_replaced() {
    let cases = [
        ("abcabc", "bc", "x"),
        ("aaa", "aa", "b"),
        ("aaaa", "aa", "aaa"),
        ("abc", "d", "e"),
        ("abc", "abcd", "e"),
        ("ab", "ab", ""),
        ("", "a", "b"),
    ];
    for (text, from, to) in cases {
        assert_eq!(replaced(text, &[(from, to)]), text.replace(from, to));
    }
    assert_eq!(replaced("aaa", &[("aa", "b")]), "ba");
    assert_eq!(replaced("abc", &[("d", "e")]), "abc");
    assert_eq!(replaced("abc", &[]), "abc");
    assert_eq!(replaced("abc", &[("", "x")]), "abc");
}

#[test]
fn words_are_replaced_once() {
    // What is put in is not searched again.
    assert_eq!(replaced("a;b", &[("a", "b"), ("b", "a")]), "b;a");
    assert_eq!(replaced("a b c", &[("a", "b"), ("b", "c"), ("c", "d")]), "b c d");
    // The longest word counts, wherever it stands in the list.
    assert_eq!(replaced("abab.", &[("ab", "x"), ("ab.", "y")]), "xy");
    assert_eq!(replaced("abab.", &[("ab.", "y"), ("ab", "x")]), "xy");
    // A word that comes twice counts once.
    assert_eq!(replaced("aa", &[("a", "x"), ("a", "y")]), "xx");
}

#[test]
fn numbers_are_written() {
    assert_eq!(hex_text(0x1a, 2), "1a");
    assert_eq!(hex_text(5, 4), "0005");
    assert_eq!(hex_text(0x12345, 4), "2345");
    assert_eq!(hex_text(7, 0), "");
    assert_eq!(decimal_text(0), "0");
    assert_eq!(decimal_text(10), "10");
    assert_eq!(decimal_text(4294967295), "4294967295");
    assert_eq!(digit_letter(11), 'b');
}

#[test]
fn numbers_are_read() {
    assert_eq!(digit_of('f', 16), Some(15));
    assert_eq!(digit_of('F', 16), Some(15));
    assert_eq!(digit_of('a', 10), None);
    assert_eq!(digit_of('-', 16), None);
    assert_eq!(parse_digits(&['1', '2'], 10, 12), Some(12));
    assert_eq!(parse_digits(&['1', '3'], 10, 12), None);
    assert_eq!(parse_bounded(&chars_of("+12"), 10, u32::MAX), Some(12));
    assert_eq!(parse_bounded(&chars_of("4294967295"), 10, u32::MAX), Some(u32::MAX));
    assert_eq!(parse_bounded(&chars_of("4294967296"), 10, u32::MAX), None);
    assert_eq!(parse_bounded(&chars_of("-1"), 10, u32::MAX), None);
    assert_eq!(parse_bounded(&chars_of("+"), 10, u32::MAX), None);
    assert_eq!(parse_bounded(&chars_of(""), 10, u32::MAX), None);
    assert!(all_digits(&['0', 'e'], 16));
    assert!(!all_digits(&['0', 'g'], 16));
    assert_eq!(parse_signed_bounded(&chars_of("1f"), 16, 31), Some(Some(31)));
    assert_eq!(parse_signed_bounded(&chars_of("20"), 16, 31), Some(None));
    assert_eq!(parse_signed_bounded(&chars_of("-1"), 16, 31), Some(None));
    assert_eq!(parse_signed_bounded(&chars_of("-0"), 16, 31), Some(Some(0)));
    assert_eq!(parse_signed_bounded(&chars_of("-"), 16, 31), None);
    assert_eq!(parse_signed_bounded(&chars_of("xy"), 16, 31), None);
}

#[test]
fn numbers_read_back() {
    for n in [0, 9, 10, 255, 65535, 4294967295] {
        assert_eq!(parse_bounded(&chars_of(&decimal_text(n)), 10, u32::MAX), Some(n));
        assert_eq!(parse_bounded(&chars_of(&hex_text(n, 8)), 16, u32::MAX), Some(n));
    }
}

#[test]
fn slots_are_made_and_read() {
    let sf = SlotFn::new(0x1f, 7).unwrap();
    assert_eq!(sf, SlotFn(0xff));
    assert_eq!(sf.slot(), 31);
    assert_eq!(sf.function(), 7);
    assert_eq!(sf.to_string(), "1f.7");
    assert_eq!(SlotFn::new(2, 0).unwrap().to_string(), "02.0");
    assert_eq!(SlotFn::new(32, 0), Err(PciError::SlotRange));
    assert_eq!(SlotFn::new(-1, 0), Err(PciError::SlotRange));
    assert_eq!(SlotFn::new(0, 8), Err(PciError::FunctionRange));
    assert_eq!(SlotFn::new(0, -1), Err(PciError::FunctionRange));
    assert_eq!(SlotFn::from_str("02"), SlotFn::new(2, 0));
    assert_eq!(SlotFn::from_str("1f.7"), SlotFn::new(31, 7));
    assert_eq!(SlotFn::from_str("20"), Err(PciError::SlotRange));
    assert_eq!(SlotFn::from_str("00.8"), Err(PciError::FunctionRange));
    assert_eq!(SlotFn::from_str("00.0.0"), Err(PciError::SlotFnFormat));
    assert_eq!(SlotFn::from_str("xx"), Err(PciError::Number));
    assert_eq!(SlotFn::from_str("00."), Err(PciError::Number));
    for n in 0..=255u8 {
        let sf = SlotFn(n);
        assert_eq!(SlotFn::from_str(&sf.to_string()), Ok(sf));
        assert_eq!(SlotFn::new(sf.slot() as i64, sf.function() as i64), Ok(sf));
    }
}

#[test]
fn addresses_read_back() {
    let addr = Address::new(0xffff, 2, SlotFn::new(0x1f, 7).unwrap());
    assert_eq!(addr.to_string(), "ffff:02:1f.7");
    assert_eq!(Address::from_str("ffff:02:1f.7"), Ok(addr));
    assert_eq!(Address::from_str("FFFF:2:1F.7"), Ok(addr));
    assert_eq!(Address::from_str("0000:00"), Err(PciError::AddressFormat));
    assert_eq!(Address::from_str("0000:00:00:00"), Err(PciError::AddressFormat));
    assert_eq!(Address::from_str("10000:00:00.0"), Err(PciError::Number));
    assert_eq!(Address::from_str("0000:100:00.0"), Err(PciError::Number));
    assert_eq!(Address::from_str("0000:00:20.0"), Err(PciError::SlotRange));
    assert_eq!(Address::from_str(""), Err(PciError::AddressFormat));

    // Two addresses have the same text only where they are the same.
    let other = Address::new(0xffff, 2, SlotFn::new(0x1f, 6).unwrap());
    assert_ne!(addr.to_string(), other.to_string());
}

#[test]
fn paths_are_read() {
    let path = Path::from_str("02/1e.5/00").unwrap();
    assert_eq!(path.len(), 3);
    assert_eq!(path.get(0), SlotFn::new(2, 0).unwrap());
    assert_eq!(path.get(1), SlotFn::new(0x1e, 5).unwrap());
    assert_eq!(path.get(2), SlotFn::new(0, 0).unwrap());
    assert!(matches!(Path::new(vec![]), Err(PciError::EmptyPath)));
    assert_eq!(Path::new(vec![SlotFn(8)]).unwrap().get(0).slot(), 1);
    assert!(matches!(Path::from_str(""), Err(PciError::Number)));
    assert!(matches!(Path::from_str("02/"), Err(PciError::Number)));
    assert!(matches!(Path::from_str("02/20/xx"), Err(PciError::SlotRange)));
}

#[test]
fn queues_read_back() {
    let address = ap::Address::new(0x0a, 1);
    assert_eq!(address.to_string(), "0a.0001");
    assert_eq!(ap::Address::from_str("0a.0001"), Ok(address));
    assert_eq!(ap::Address::from_str("ff.ffff"), Ok(ap::Address::new(255, 65535)));
    assert_eq!(ap::Address::from_str("0a"), Err(ApError::Format));
    assert_eq!(ap::Address::from_str("0a.0.1"), Err(ApError::Format));
    assert_eq!(ap::Address::from_str("100.0001"), Err(ApError::Adapter));
    assert_eq!(ap::Address::from_str("zz.zzzz"), Err(ApError::Adapter));
    assert_eq!(ap::Address::from_str("0a.10000"), Err(ApError::Domain));
    assert_eq!(
        ApMatcher::new(address).syspath,
        format!("{}/card0a/0a.0001", AP_ROOT_BUS_PATH)
    );
}

fn event(action: &str, subsystem: &str, interface: &str, devpath: &str) -> Uevent {
    Uevent {
        action: action.to_string(),
        devname: String::new(),
        devpath: devpath.to_string(),
        subsystem: subsystem.to_string(),
        interface: interface.to_string(),
    }
}

#[test]
fn pci_devices_are_told_apart() {
    let matcher = PciMatcher::new("/0000:00:02.0").unwrap();
    assert_eq!(matcher.devpath, "/devices/pci0000:00/0000:00:02.0");
    let bridge = format!("{}/0000:00:02.0", create_pci_root_bus_path());
    assert!(matcher.is_match(&event("", "", "", &bridge)));
    let below = format!("{}/0000:01:03.0", bridge);
    assert!(!matcher.is_match(&event("", "", "", &below)));
    assert!(PciMatcher::new("/0000:00:02.0/0000:01:03.0")
        .unwrap()
        .is_match(&event("", "", "", &below)));
}

#[test]
fn net_interfaces_need_all_signs() {
    let matcher = NetPciMatcher::new("/0000:00:02.0");
    let path = format!("{}/net/eth0", matcher.devpath);
    assert!(matcher.is_match(&event("add", "net", "eth0", &path)));
    assert!(!matcher.is_match(&event("remove", "net", "eth0", &path)));
    assert!(!matcher.is_match(&event("add", "block", "eth0", &path)));
    assert!(!matcher.is_match(&event("add", "net", "", &path)));
    assert!(!matcher.is_match(&event("add", "net", "eth0", "/devices")));

    // An interface below a bridge is one of the bridge's, too.
    let below = NetPciMatcher::new("/0000:00:02.0/0000:01:01.0");
    let path = format!("{}/net/eth0", below.devpath);
    assert!(below.is_match(&event("add", "net", "eth0", &path)));
    assert!(matcher.is_match(&event("add", "net", "eth0", &path)));
}

#[test]
fn groups_are_told_apart() {
    let matcher = VfioMatcher::new(IommuGroup(1));
    assert_eq!(matcher.syspath, "/devices/virtual/vfio/1");
    assert!(!matcher.is_match(&event("add", "", "", "/devices/virtual/vfio/12")));
    assert_eq!(IommuGroup(4294967295).to_string(), "4294967295");
}

#[test]
fn queues_are_told_apart() {
    let a = ApMatcher::new(ap::Address::new(1, 2));
    let b = ApMatcher::new(ap::Address::new(2, 1));
    let uev = event("add", "ap", "", &a.syspath);
    assert!(a.is_match(&uev));
    assert!(!b.is_match(&uev));
}
