use producer_core::error::{is_error, KafkaError, RESP_ERR_NO_ERROR};
use producer_core::message::{c_string, copy_bytes, Completion, ToBytes};
use producer_core::report::DeliveryReport;

#[test]
fn c_string_appends_the_terminator() {
    assert_eq!(c_string("topic"), Ok(b"topic\0".to_vec()));
    assert_eq!(c_string(""), Ok(vec![0u8]));
}

#[test]
fn c_string_keeps_utf8_bytes() {
    assert_eq!(c_string("t\u{f6}"), Ok(vec![b't', 0xc3, 0xb6, 0]));
}

#[test]
fn c_string_names_the_first_nul() {
    assert_eq!(c_string("\0"), Err(KafkaError::Nul(0)));
    assert_eq!(c_string("ab\0cd\0"), Err(KafkaError::Nul(2)));
    assert_eq!(c_string("\u{f6}\0"), Err(KafkaError::Nul(2)));
}

#[test]
fn copy_bytes_copies() {
    assert_eq!(copy_bytes(Some("abc")), Some(b"abc".to_vec()));
    assert_eq!(copy_bytes(Some(&[7u8, 8][..])), Some(vec![7u8, 8]));
    assert_eq!(copy_bytes(Some(&vec![1u8])), Some(vec![1u8]));
    assert_eq!(copy_bytes(Some(&String::from("s"))), Some(vec![b's']));
    assert_eq!(copy_bytes(Some("")), Some(Vec::new()));
    assert_eq!(copy_bytes(None::<&str>), None);
}

#[test]
fn to_bytes_of_strings_and_buffers() {
    assert_eq!("abc".to_bytes(), b"abc");
    assert_eq!([1u8, 2][..].to_bytes(), &[1u8, 2]);
    assert_eq!(vec![3u8].to_bytes(), &[3u8]);
    assert_eq!(String::from("\u{e9}").to_bytes(), &[0xc3u8, 0xa9]);
}

#[test]
fn completion_makes_its_report() {
    let done = Completion { err: -5, partition: 9, offset: 77, opaque: 3 };
    assert_eq!(done.report(), DeliveryReport::new(-5, 9, 77));
    assert_eq!(done.report().error(), -5);
    assert_eq!(done.report().partition(), 9);
    assert_eq!(done.report().offset(), 77);
}

#[test]
fn only_zero_is_no_error() {
    assert!(!is_error(0));
    assert!(!is_error(RESP_ERR_NO_ERROR));
    assert!(is_error(1));
    assert!(is_error(-1));
    assert!(is_error(i32::MIN));
    assert!(is_error(i32::MAX));
}

#[test]
fn error_code_of_each_error() {
    assert_eq!(KafkaError::MessageProduction(-184).code(), Some(-184));
    assert_eq!(KafkaError::Nul(4).code(), None);
}
