use netlabs::ftp::{default_address, default_password, default_user, FtpConfig};

#[test]
fn defaults() {
    assert_eq!(default_address(), "127.0.0.1:21");
    assert_eq!(default_user(), "TestUser");
    assert_eq!(default_password(), "12345678");
    let c = FtpConfig::default();
    assert_eq!(c.address, "127.0.0.1:21");
    assert_eq!(c.user, "TestUser");
    assert_eq!(c.password, "12345678");
}

#[test]
fn config_copy() {
    let c = FtpConfig::new("10.0.0.1:2121".to_string(), "u".to_string(), "p".to_string());
    let d = c.duplicate();
    assert_eq!(d.address, "10.0.0.1:2121");
    assert_eq!(d.user, "u");
    assert_eq!(d.password, "p");
}
