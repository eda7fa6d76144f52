use shuttlings_cch24::address::{day2_task2, eg_encryption, format_dotted, parse_dotted, v6_dest, v6_key};

#[test]
fn dest_adds_bytes() {
    assert_eq!(eg_encryption("10.0.0.0", "1.2.3.255").as_deref(), Some("11.2.3.255"));
}

#[test]
fn dest_wraps_at_256() {
    assert_eq!(eg_encryption("128.128.33.0", "255.0.255.33").as_deref(), Some("127.128.32.33"));
}

#[test]
fn key_subtracts_bytes() {
    assert_eq!(day2_task2("10.0.0.0", "11.2.3.255").as_deref(), Some("1.2.3.255"));
    assert_eq!(day2_task2("128.128.33.0", "127.128.32.33").as_deref(), Some("255.0.255.33"));
}

#[test]
fn key_recovers_key_of_dest() {
    let from = "192.168.0.1";
    let key = "+7.08.250.1";
    let dest = eg_encryption(from, key).unwrap();
    assert_eq!(day2_task2(from, &dest).as_deref(), Some("7.8.250.1"));
}

#[test]
fn parse_follows_u8_from_str() {
    assert_eq!(parse_dotted("1.2.3.4"), Some([1, 2, 3, 4]));
    assert_eq!(parse_dotted("001.+2.255.0"), Some([1, 2, 255, 0]));
    assert_eq!(parse_dotted("1.2.3.4.5"), Some([1, 2, 3, 4]));
    assert_eq!(parse_dotted("1.2.3"), None);
    assert_eq!(parse_dotted("1.2.3.256"), None);
    assert_eq!(parse_dotted("1.2.3.4.x"), None);
    assert_eq!(parse_dotted("1..3.4"), None);
    assert_eq!(parse_dotted(" 1.2.3.4"), None);
    assert_eq!(parse_dotted("1.2.3.+"), None);
    assert_eq!(parse_dotted("1.2.3.-4"), None);
    assert_eq!(parse_dotted("1.2.3.4."), None);
    assert_eq!(parse_dotted(""), None);
    assert_eq!(parse_dotted("1.2.3.४"), None);
}

#[test]
fn invalid_inputs_give_none() {
    assert_eq!(eg_encryption("10.0.0", "1.2.3.4"), None);
    assert_eq!(eg_encryption("10.0.0.0", "1.2.3.300"), None);
    assert_eq!(day2_task2("a.b.c.d", "1.2.3.4"), None);
}

#[test]
fn format_writes_decimal_without_leading_zeros() {
    assert_eq!(format_dotted(&[0, 9, 10, 255]), "0.9.10.255");
    assert_eq!(format_dotted(&[100, 99, 1, 200]), "100.99.1.200");
}

#[test]
fn v6_dest_and_key_xor_segments() {
    let from = [0xfe80, 0, 0, 0, 0, 0, 0, 1];
    let key = [5, 6, 7, 0, 0, 0, 0, 0x3333];
    let dest = v6_dest(&from, &key);
    assert_eq!(dest, [0xfe85, 6, 7, 0, 0, 0, 0, 0x3332]);
    assert_eq!(v6_key(&from, &dest), key);
    let to = [0xaaaa, 0, 0, 0, 0, 0, 0, 0xaaaa];
    assert_eq!(v6_key(&[0xaaaa, 0, 0, 0, 0, 0, 0, 0], &to), [0, 0, 0, 0, 0, 0, 0, 0xaaaa]);
}

#[test]
fn dest_of_key_reaches_destination() {
    let from = "10.20.30.40";
    let to = "0009.8.255.+0";
    let key = day2_task2(from, to).unwrap();
    assert_eq!(key, "255.244.225.216");
    assert_eq!(eg_encryption(from, &key).as_deref(), Some("9.8.255.0"));
}

#[test]
fn formatted_address_reads_back() {
    for a in [[0u8, 0, 0, 0], [255, 255, 255, 255], [1, 22, 103, 9], [10, 100, 200, 7]] {
        assert_eq!(parse_dotted(&format_dotted(&a)), Some(a));
    }
}
