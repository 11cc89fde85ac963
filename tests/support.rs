use registry::util::U16AlignedU8Vec;
use registry::value::Error;
use registry::{join_key_path, Hive, WideString};

#[test]
fn aligned_buffer_is_zeroed() {
    let buf = U16AlignedU8Vec::new(5);
    assert_eq!(buf.0, vec![0u8; 5]);
    assert_eq!(U16AlignedU8Vec::new(0).0, Vec::<u8>::new());
}

#[test]
fn aligned_buffer_into_units() {
    assert_eq!(U16AlignedU8Vec(vec![1, 2, 3]).into_u16_vec(), vec![0x0201, 0x0003]);
    assert_eq!(U16AlignedU8Vec(vec![0xFE, 0xFF]).into_u16_vec(), vec![0xFFFE]);
    assert_eq!(U16AlignedU8Vec::new(3).into_u16_vec(), vec![0, 0]);
}

#[test]
fn wide_string_from_str() {
    let w = WideString::from_str("h\u{e9}\u{1F600}").unwrap();
    assert_eq!(w.as_slice(), &[0x68, 0xE9, 0xD83D, 0xDE00]);
    assert_eq!(w.to_string(), "h\u{e9}\u{1F600}");
    assert_eq!(WideString::from_str("a\0b"), Err(Error::InvalidNul));
}

#[test]
fn wide_string_from_units() {
    let w = WideString::from_units(vec![0x41, 0xD83D, 0xDE00]).unwrap();
    assert_eq!(w.to_string(), "A\u{1F600}");
    assert_eq!(w.clone(), w);
    assert_eq!(WideString::from_units(vec![0x41, 0, 0x42]), Err(Error::InvalidNul));
    assert_eq!(WideString::from_units(vec![0xDE00, 0x41]), Err(Error::InvalidUtf16));
    assert_eq!(WideString::from_units(vec![]).unwrap().to_string(), "");
}

#[test]
fn hive_names() {
    assert_eq!(Hive::CurrentUser.name(), "HKEY_CURRENT_USER");
    assert_eq!(Hive::LocalMachine.name(), "HKEY_LOCAL_MACHINE");
    assert_eq!(Hive::Application.name(), "<App>");
}

#[test]
fn key_display_paths() {
    assert_eq!(
        Hive::CurrentUser.display_key("SOFTWARE\\Microsoft"),
        "HKEY_CURRENT_USER\\SOFTWARE\\Microsoft"
    );
    assert_eq!(
        Hive::LocalMachine.display_key(r"SOFTWARE\Microsoft\Windows\CurrentVersion\Uninstall"),
        r"HKEY_LOCAL_MACHINE\SOFTWARE\Microsoft\Windows\CurrentVersion\Uninstall"
    );
    assert_eq!(Hive::Users.display_key(""), "HKEY_USERS");
}

#[test]
fn subkey_paths() {
    let parent = join_key_path("", r"Test\registry-rust-crate");
    assert_eq!(parent, r"\Test\registry-rust-crate");
    assert_eq!(
        join_key_path(r"Test\registry-rust-crate", "subkey"),
        r"Test\registry-rust-crate\subkey"
    );
}
