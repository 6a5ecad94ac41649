use std::collections::HashSet;

use maildirs::{Error, IdGenerator, Timestamp};

fn at(secs: u64, nanos: u32) -> Timestamp {
    Timestamp { secs, nanos }
}

#[test]
fn temporary_identifier_is_made_of_time_counter_and_process() {
    let mut ids = IdGenerator::with_host(4711, 0, Ok("host".to_string()));
    assert_eq!(ids.generate_tmp_id(at(1700000000, 123456789)), "1700000000.#0M123456789P4711");
    assert_eq!(ids.generate_tmp_id(at(1700000000, 123456789)), "1700000000.#1M123456789P4711");
    assert_eq!(ids.generate_tmp_id(at(0, 0)), "0.#2M0P4711");
}

#[test]
fn counter_is_written_in_hexadecimal() {
    let mut ids = IdGenerator::with_host(1, 255, Ok("host".to_string()));
    assert_eq!(ids.generate_tmp_id(at(9, 8)), "9.#ffM8P1");
    assert_eq!(ids.generate_tmp_id(at(9, 8)), "9.#100M8P1");
    let mut ids = IdGenerator::with_host(1, 0xabcdef, Ok("host".to_string()));
    assert_eq!(ids.generate_tmp_id(at(10, 16)), "10.#abcdefM16P1");
}

#[test]
fn numbers_are_written_in_full() {
    let mut ids = IdGenerator::with_host(u32::MAX, 9, Ok("host".to_string()));
    assert_eq!(
        ids.generate_tmp_id(at(u64::MAX, u32::MAX)),
        "18446744073709551615.#9M4294967295P4294967295"
    );
}

#[test]
fn counter_starts_again_after_the_greatest_value() {
    let mut ids = IdGenerator::with_host(1, usize::MAX, Ok("host".to_string()));
    let last = ids.generate_tmp_id(at(1, 1));
    assert_eq!(last, format!("1.#{:x}M1P1", usize::MAX));
    assert_eq!(ids.generate_tmp_id(at(1, 1)), "1.#0M1P1");
}

#[test]
fn delivered_identifier_adds_device_inode_and_host() {
    let mut ids = IdGenerator::with_host(77, 3, Ok("mail.example.org".to_string()));
    assert_eq!(
        ids.generate_id(at(1700000000, 5), 2049, 1234567),
        Ok("1700000000.#3M5P77V2049I1234567.mail.example.org".to_string())
    );
    assert_eq!(
        ids.generate_id(at(1700000000, 5), 0, 0),
        Ok("1700000000.#4M5P77V0I0.mail.example.org".to_string())
    );
}

#[test]
fn host_whose_name_is_not_text_gives_no_identifier() {
    let mut ids = IdGenerator::with_host(77, 3, Err("bad\u{fffd}".to_string()));
    assert_eq!(ids.generate_id(at(1, 2), 3, 4), Err(Error::Utf8Error("bad\u{fffd}".to_string())));
    assert_eq!(ids.generate_tmp_id(at(1, 2)), "1.#3M2P77");
}

#[test]
fn ten_thousand_identifiers_are_all_different() {
    let mut ids = IdGenerator::with_host(1, 0, Ok("host".to_string()));
    let now = at(1700000000, 999);
    let made: HashSet<String> = (0..10_000).map(|_| ids.generate_tmp_id(now)).collect();
    assert_eq!(made.len(), 10_000);

    let mut ids = IdGenerator::with_host(1, usize::MAX - 5_000, Ok("host".to_string()));
    let made: HashSet<String> = (0..10_000).map(|_| ids.generate_id(now, 1, 1).unwrap()).collect();
    assert_eq!(made.len(), 10_000);
}

#[test]
fn identifiers_hold_no_separator_of_paths_or_flags() {
    let mut ids = IdGenerator::with_host(u32::MAX, usize::MAX, Ok("host".to_string()));
    let id = ids.generate_tmp_id(at(u64::MAX, u32::MAX));
    assert!(!id.contains('/') && !id.contains(':') && !id.contains(';') && !id.contains(','));
}

#[test]
fn two_processes_never_make_the_same_identifier() {
    let mut first = IdGenerator::with_host(100, 7, Ok("host".to_string()));
    let mut second = IdGenerator::with_host(101, 7, Ok("host".to_string()));
    let now = at(5, 5);
    assert_ne!(first.generate_tmp_id(now), second.generate_tmp_id(now));
    assert_ne!(first.generate_id(now, 1, 1), second.generate_id(now, 1, 1));
}

#[test]
fn generator_of_this_process_asks_the_host_for_its_name() {
    let mut ids = IdGenerator::new(31337);
    let tmp = ids.generate_tmp_id(at(12, 34));
    assert_eq!(tmp, "12.#0M34P31337");
    match gethostname::gethostname().into_string() {
        Ok(host) => {
            assert_eq!(ids.generate_id(at(12, 34), 5, 6), Ok(format!("12.#1M34P31337V5I6.{host}")));
        }
        Err(_) => assert!(matches!(ids.generate_id(at(12, 34), 5, 6), Err(Error::Utf8Error(_)))),
    }
}
