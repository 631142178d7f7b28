use resp2::Error;
use resp2::RESPType;
use resp2::to_string;

#[test]
fn ser_simple_string() {
    let simple_str = RESPType::SimpleString("Hello".to_owned());
    assert_eq!("+Hello\r\n", to_string(simple_str).unwrap());
}

#[test]
fn ser_error() {
    let error = RESPType::Error("SERIALIZATION_ERROR".to_owned());
    assert_eq!("-SERIALIZATION_ERROR\r\n", to_string(error).unwrap());
}

#[test]
fn ser_integer() {
    let integer = RESPType::Integer(25);
    assert_eq!(":25\r\n", to_string(integer).unwrap());
}

#[test]
fn ser_empty_bulk_string() {
    let empty_string = RESPType::BulkString(None);
    assert_eq!("$-1\r\n", to_string(empty_string).unwrap());
}

#[test]
fn ser_bulk_string() {
    let bulk_string = RESPType::BulkString(Some("TEST".to_owned().into_bytes()));
    assert_eq!("$4\r\nTEST\r\n", to_string(bulk_string).unwrap());
}

#[test]
fn ser_null_array() {
    let null_array = RESPType::Array(None);
    assert_eq!("*-1\r\n", to_string(null_array).unwrap());
}

#[test]
fn ser_empty_array() {
    let empty_array = RESPType::Array(Some(vec![]));
    assert_eq!("*0\r\n", to_string(empty_array).unwrap());
}

#[test]
fn ser_array() {
    let array = RESPType::Array(Some(vec![
        RESPType::BulkString(Some("Hello".to_owned().into())),
        RESPType::Array(Some(vec![RESPType::Integer(2)])),
        RESPType::SimpleString("Hello".to_owned()),
    ]));
    assert_eq!(
        "*3\r\n$5\r\nHello\r\n*1\r\n:2\r\n+Hello\r\n",
        to_string(array).unwrap()
    );
}

#[test]
fn ser_negative_integer() {
    assert_eq!(":-42\r\n", to_string(RESPType::Integer(-42)).unwrap());
    assert_eq!(":0\r\n", to_string(RESPType::Integer(0)).unwrap());
    assert_eq!(
        ":-9223372036854775808\r\n",
        to_string(RESPType::Integer(i64::MIN)).unwrap()
    );
}

#[test]
fn ser_non_utf8_payload_fails() {
    let value = RESPType::BulkString(Some(vec![0xFFu8, 0xFE]));
    match to_string(value) {
        Err(Error::FromUtf8(_)) => {}
        other => panic!("expected a FromUtf8 failure, got {:?}", other),
    }
}

#[test]
fn ser_empty_bulk_present() {
    assert_eq!(
        "$0\r\n\r\n",
        to_string(RESPType::BulkString(Some(Vec::new()))).unwrap()
    );
}
