use dbus_bytestream::address::{ServerAddress, ServerAddressError};

fn path_of(addr: &str) -> Result<String, ServerAddressError> {
    match ServerAddress::parse(addr)? {
        ServerAddress::Unix(unix) => Ok(unix.path().to_string()),
    }
}

#[test]
fn a_unix_address_gives_its_path() {
    assert_eq!(
        path_of("unix:path=/var/run/dbus/system_bus_socket"),
        Ok("/var/run/dbus/system_bus_socket".to_string())
    );
    assert_eq!(path_of("unix:path=/run/user/1000/bus,guid=00ff"), Ok("/run/user/1000/bus".to_string()));
    assert_eq!(path_of("unix:guid=00ff,path=/tmp/b"), Ok("/tmp/b".to_string()));
    assert_eq!(path_of("unix:path="), Ok("".to_string()));
    assert_eq!(path_of("unix:path=/a=b"), Ok("/a=b".to_string()));
    assert_eq!(path_of("unix:path=/gr\u{fc}n"), Ok("/gr\u{fc}n".to_string()));
}

#[test]
fn an_abstract_name_follows_a_nul() {
    assert_eq!(path_of("unix:abstract=/tmp/dbus-X,guid=1"), Ok("\0/tmp/dbus-X".to_string()));
    assert_eq!(path_of("unix:abstract=a,path=b"), Ok("\0a".to_string()));
    assert_eq!(path_of("unix:path=b,abstract=a"), Ok("b".to_string()));
}

#[test]
fn the_first_of_several_addresses_counts() {
    assert_eq!(path_of("unix:path=/one;unix:path=/two"), Ok("/one".to_string()));
    assert_eq!(path_of("unix:path=/one;tcp:host=h"), Ok("/one".to_string()));
    assert_eq!(path_of("tcp:host=h;unix:path=/two"), Err(ServerAddressError::UnknownTransport));
    assert_eq!(path_of("unix:guid=1;unix:path=/two"), Err(ServerAddressError::MissingPath));
}

#[test]
fn other_addresses_are_refused() {
    assert_eq!(path_of(""), Err(ServerAddressError::UnknownTransport));
    assert_eq!(path_of("unix"), Err(ServerAddressError::UnknownTransport));
    assert_eq!(path_of("Unix:path=/a"), Err(ServerAddressError::UnknownTransport));
    assert_eq!(path_of("tcp:host=localhost,port=12345"), Err(ServerAddressError::UnknownTransport));
    assert_eq!(path_of("unix:"), Err(ServerAddressError::MissingPath));
    assert_eq!(path_of("unix:tmpdir=/tmp"), Err(ServerAddressError::MissingPath));
    assert_eq!(path_of("unix:path"), Err(ServerAddressError::MissingPath));
    assert_eq!(path_of("unix:xpath=/a"), Err(ServerAddressError::MissingPath));
    assert_eq!(path_of("unix:guid=1,"), Err(ServerAddressError::MissingPath));
    assert_eq!(path_of("unix:,,"), Err(ServerAddressError::MissingPath));
}

#[test]
fn escaped_bytes_are_restored() {
    assert_eq!(path_of("unix:path=/tmp/a%20b"), Ok("/tmp/a b".to_string()));
    assert_eq!(path_of("unix:path=%2Ftmp%2fx%2c%3B,guid=1"), Ok("/tmp/x,;".to_string()));
    assert_eq!(path_of("unix:abstract=%2ftmp%2Fx"), Ok("\0/tmp/x".to_string()));
    assert_eq!(path_of("unix:path=%c3%bc"), Ok("\u{fc}".to_string()));
    assert_eq!(path_of("unix:path=%00"), Ok("\0".to_string()));
    assert_eq!(path_of("unix:path=%25"), Ok("%".to_string()));
    assert_eq!(path_of("unix:path=/a%"), Err(ServerAddressError::BadEscape));
    assert_eq!(path_of("unix:path=/a%2"), Err(ServerAddressError::BadEscape));
    assert_eq!(path_of("unix:path=/a%2,guid=1"), Err(ServerAddressError::BadEscape));
    assert_eq!(path_of("unix:path=/a%zz"), Err(ServerAddressError::BadEscape));
    assert_eq!(path_of("unix:path=/a%2g"), Err(ServerAddressError::BadEscape));
    assert_eq!(path_of("unix:path=/a%G2"), Err(ServerAddressError::BadEscape));
    assert_eq!(path_of("unix:path=%ff"), Err(ServerAddressError::BadPath));
    assert_eq!(path_of("unix:path=%c3"), Err(ServerAddressError::BadPath));
    // what is not the path is not looked at
    assert_eq!(path_of("unix:guid=%zz,path=/a"), Ok("/a".to_string()));
}

#[test]
fn an_address_can_be_read_from_a_string() {
    let parsed: Result<ServerAddress, ServerAddressError> = "unix:path=/tmp/bus".parse();
    assert_eq!(parsed, ServerAddress::parse("unix:path=/tmp/bus"));
    match parsed.unwrap() {
        ServerAddress::Unix(unix) => assert_eq!(unix.path(), "/tmp/bus"),
    }
    let refused: Result<ServerAddress, ServerAddressError> = "tcp:host=h".parse();
    assert_eq!(refused, Err(ServerAddressError::UnknownTransport));
}
