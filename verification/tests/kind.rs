use partymix::Kind;

#[test]
fn aliases() {
    assert_eq!(Kind::from_str("fat12").unwrap().get(), 0x01);
    assert_eq!(Kind::from_str("fat16").unwrap().get(), 0x04);
    assert_eq!(Kind::from_str("ntfs").unwrap().get(), 0x07);
    assert_eq!(Kind::from_str("fat32").unwrap().get(), 0x0C);
    assert_eq!(Kind::from_str("linuxswap").unwrap().get(), 0x82);
    assert_eq!(Kind::from_str("linux").unwrap().get(), 0x83);
    assert_eq!(Kind::from_str("efi").unwrap().get(), 0xEF);
}

#[test]
fn hex_codes() {
    assert_eq!(Kind::from_str("83").unwrap().get(), 0x83);
    assert_eq!(Kind::from_str("1b").unwrap().get(), 0x1B);
    assert_eq!(Kind::from_str("1B").unwrap().get(), 0x1B);
    assert_eq!(Kind::from_str("7").unwrap().get(), 0x07);
    assert_eq!(Kind::from_str("+7").unwrap().get(), 0x07);
    assert_eq!(Kind::from_str("ff").unwrap().get(), 0xFF);
    assert_eq!(Kind::from_str("0083").unwrap().get(), 0x83);
}

#[test]
fn rejected_codes() {
    // not hexadecimal at all
    assert!(Kind::from_str("z").is_err());
    assert!(Kind::from_str("0x83").is_err());
    assert!(Kind::from_str("swap").is_err());
    // empty, or a bare sign
    assert!(Kind::from_str("").is_err());
    assert!(Kind::from_str("+").is_err());
    // zero is the "empty slot" sentinel
    assert!(Kind::from_str("0").is_err());
    assert!(Kind::from_str("00").is_err());
    // out of range for one byte
    assert!(Kind::from_str("100").is_err());
    assert!(Kind::from_str("fff").is_err());
}

#[test]
fn parse_trait() {
    let kind: Kind = "efi".parse().unwrap();
    assert_eq!(kind.get(), 0xEF);
    assert!("bogus".parse::<Kind>().is_err());
}
