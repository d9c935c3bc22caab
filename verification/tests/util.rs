use spm::error::SpmError;
use spm::package::fetch::gs::verify_sha256;
use spm::util::fs::{arch_from_uname, has_elf_magic};
use spm::util::hash::{hash_bytes, hash_dir_entries, hex_encode, sha256_hex};
use spm::util::user::user_name_from_passwd;

#[test]
fn test_hash_bytes_known() {
    let hash = hash_bytes(b"hello world");
    assert_eq!(hash.len(), 64);
    assert!(hash.chars().all(|c| c.is_ascii_hexdigit()));
}

#[test]
fn test_hash_bytes_empty() {
    let hash = hash_bytes(b"");
    assert_eq!(hash.len(), 64);
}

#[test]
fn test_hash_bytes_deterministic() {
    let a = hash_bytes(b"test data");
    let b = hash_bytes(b"test data");
    assert_eq!(a, b);
}

#[test]
fn test_hash_bytes_different() {
    let a = hash_bytes(b"data1");
    let b = hash_bytes(b"data2");
    assert_ne!(a, b);
}

#[test]
fn test_submodules_accessible() {
    let hash = hash_bytes(b"test");
    assert_eq!(hash.len(), 64);
}

#[test]
fn blake3_of_empty_input_is_the_published_value() {
    assert_eq!(hash_bytes(b""), "af1349b9f5f9a1a6a0404dea36dcc9499bcb25c9adc112b7cc9a93cae41f3262");
}

#[test]
fn sha256_known_values() {
    assert_eq!(sha256_hex(b""), "e3b0c44298fc1c149afbf4c8996fb92427ae41e4649b934ca495991b7852b855");
    assert_eq!(sha256_hex(b"abc"), "ba7816bf8f01cfea414140de5dae2223b00361a396177a9cb410ff61f20015ad");
}

#[test]
fn hex_is_lowercase_two_digits_per_byte() {
    assert_eq!(hex_encode(&[0x00, 0x0f, 0xa0, 0xff]), "000fa0ff");
}

#[test]
fn sha256_check_accepts_and_refuses() {
    let good = "ba7816bf8f01cfea414140de5dae2223b00361a396177a9cb410ff61f20015ad";
    assert!(verify_sha256(b"abc", good).is_ok());
    match verify_sha256(b"abc", "00") {
        Err(SpmError::Other(m)) => assert_eq!(m, format!("SHA256 mismatch: expected 00, got {good}")),
        _ => panic!("expected a mismatch"),
    }
}

#[test]
fn directory_hash_covers_paths_and_contents() {
    let a = vec![("a".to_string(), b"1".to_vec()), ("b".to_string(), b"2".to_vec())];
    let same_stream = vec![("a1b".to_string(), b"2".to_vec())];
    let h = hash_dir_entries(&a).unwrap();
    assert_eq!(h, hash_bytes(b"a1b2"));
    assert_eq!(h, hash_dir_entries(&same_stream).unwrap());
    let moved = vec![("a".to_string(), b"2".to_vec()), ("b".to_string(), b"1".to_vec())];
    assert_ne!(h, hash_dir_entries(&moved).unwrap());
}

#[test]
fn directory_hash_refuses_climbing_paths() {
    let e = vec![("ok".to_string(), vec![]), ("x/../y".to_string(), vec![])];
    match hash_dir_entries(&e) {
        Err(SpmError::Io(m)) => assert_eq!(m, "Path traversal detected: 'x/../y'"),
        _ => panic!("expected a refusal"),
    }
}

#[test]
fn passwd_lookup_by_uid() {
    let passwd = "root:x:0:0:root:/root:/bin/bash\nbroken\nbob:x:1000:1000::/home/bob:/bin/sh\n";
    assert_eq!(user_name_from_passwd(passwd, 0), Some("root".to_string()));
    assert_eq!(user_name_from_passwd(passwd, 1000), Some("bob".to_string()));
    assert_eq!(user_name_from_passwd(passwd, 7), None);
    assert_eq!(user_name_from_passwd("big:x:99999999999:0\n", 1), None);
}

#[test]
fn elf_magic_and_arch() {
    assert!(has_elf_magic(&[0x7f, b'E', b'L', b'F', 2, 1]));
    assert!(!has_elf_magic(b"not an elf file"));
    assert!(!has_elf_magic(b""));
    assert_eq!(arch_from_uname(&Some("aarch64\n".to_string())), "aarch64");
    assert_eq!(arch_from_uname(&Some("  ".to_string())), "x86_64");
    assert_eq!(arch_from_uname(&None), "x86_64");
}
