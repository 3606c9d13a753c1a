use dbus_bytestream::auth::{
    auth_anonymous_command, auth_external_command, begin_command, decimal,
};

#[test]
fn numbers_are_written_in_base_ten() {
    for n in [0u32, 1, 9, 10, 11, 99, 100, 1000, 65535, 1234567890, 4294967295] {
        assert_eq!(decimal(n), n.to_string().into_bytes());
    }
    assert_eq!(decimal(0), b"0");
    assert_eq!(decimal(4294967295), b"4294967295");
}

#[test]
fn the_user_id_goes_out_in_hexadecimal() {
    assert_eq!(auth_external_command(0), b"AUTH EXTERNAL 30\r\n");
    assert_eq!(auth_external_command(1000), b"AUTH EXTERNAL 31303030\r\n");
    assert_eq!(auth_external_command(65534), b"AUTH EXTERNAL 3635353334\r\n");
    assert_eq!(auth_external_command(4294967295), b"AUTH EXTERNAL 34323934393637323935\r\n");
}

#[test]
fn the_anonymous_client_names_itself() {
    assert_eq!(
        auth_anonymous_command(),
        b"AUTH ANONYMOUS 6c69626462757320312e382e3132\r\n"
    );
    assert_eq!(begin_command(), b"BEGIN\r\n");
}
