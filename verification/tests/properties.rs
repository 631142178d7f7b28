use resp2::Deserializer;
use resp2::RESPType;
use resp2::from_string;
use resp2::to_string;

fn round_trips(value: RESPType) {
    let encoded = to_string(clone_value(&value)).unwrap();
    let decoded = from_string(encoded.clone()).unwrap();
    assert_eq!(decoded, value);
    assert_eq!(to_string(decoded).unwrap(), encoded);
}

fn clone_value(v: &RESPType) -> RESPType {
    match v {
        RESPType::SimpleString(s) => RESPType::SimpleString(s.clone()),
        RESPType::Error(s) => RESPType::Error(s.clone()),
        RESPType::Integer(i) => RESPType::Integer(*i),
        RESPType::BulkString(b) => RESPType::BulkString(b.clone()),
        RESPType::Array(None) => RESPType::Array(None),
        RESPType::Array(Some(a)) => {
            RESPType::Array(Some(a.iter().map(clone_value).collect()))
        }
    }
}

#[test]
fn round_trip_every_variant() {
    round_trips(RESPType::SimpleString("OK".to_owned()));
    round_trips(RESPType::Error("ERR wrong type".to_owned()));
    round_trips(RESPType::Integer(-127));
    round_trips(RESPType::BulkString(None));
    round_trips(RESPType::BulkString(Some("payload".to_owned().into_bytes())));
    round_trips(RESPType::Array(None));
    round_trips(RESPType::Array(Some(vec![])));
}

#[test]
fn round_trip_nested_arrays() {
    let value = RESPType::Array(Some(vec![
        RESPType::Integer(1),
        RESPType::Array(Some(vec![
            RESPType::SimpleString("deep".to_owned()),
            RESPType::Array(Some(vec![RESPType::BulkString(None)])),
        ])),
        RESPType::BulkString(Some("x".to_owned().into_bytes())),
    ]));
    let encoded = to_string(clone_value(&value)).unwrap();
    let decoded = from_string(encoded.clone()).unwrap();
    assert_eq!(decoded, value);
    assert_eq!(to_string(decoded).unwrap(), encoded);
}

#[test]
fn bulk_string_is_binary_safe() {
    let payload = "Hel\r\nlo".to_owned().into_bytes();
    let value = RESPType::BulkString(Some(payload.clone()));
    let encoded = to_string(value).unwrap();
    assert_eq!(encoded, "$7\r\nHel\r\nlo\r\n");
    let decoded = from_string(encoded).unwrap();
    assert_eq!(decoded, RESPType::BulkString(Some(payload)));
}

#[test]
fn null_bulk_and_null_array_never_cross() {
    assert_eq!("$-1\r\n", to_string(RESPType::BulkString(None)).unwrap());
    assert_eq!("*-1\r\n", to_string(RESPType::Array(None)).unwrap());
    assert_eq!(
        from_string(String::from("$-1\r\n")).unwrap(),
        RESPType::BulkString(None)
    );
    assert_eq!(
        from_string(String::from("*-1\r\n")).unwrap(),
        RESPType::Array(None)
    );
    assert_ne!(
        from_string(String::from("$-1\r\n")).unwrap(),
        RESPType::Array(None)
    );
    assert_ne!(
        from_string(String::from("*-1\r\n")).unwrap(),
        RESPType::BulkString(None)
    );
}

#[test]
fn empty_array_is_not_null_array() {
    let empty = from_string(String::from("*0\r\n")).unwrap();
    assert_eq!(empty, RESPType::Array(Some(Vec::new())));
    assert_ne!(empty, RESPType::Array(None));
    let empty_bulk = from_string(String::from("$0\r\n\r\n")).unwrap();
    assert_eq!(empty_bulk, RESPType::BulkString(Some(Vec::new())));
    assert_ne!(empty_bulk, RESPType::BulkString(None));
}

#[test]
fn repeated_decoding_consumes_one_frame_each() {
    let input = String::from("+first\r\n:2\r\n$5\r\nthird\r\n").into_bytes();
    let mut de = Deserializer::from_buf_reader(input);
    assert_eq!(
        de.deserialize_any().unwrap(),
        RESPType::SimpleString("first".to_owned())
    );
    assert_eq!(de.deserialize_any().unwrap(), RESPType::Integer(2));
    assert_eq!(
        de.deserialize_any().unwrap(),
        RESPType::BulkString(Some("third".to_owned().into_bytes()))
    );
    assert!(de.deserialize_any().is_err());
}

#[test]
fn parse_isize_reads_one_length_line() {
    let mut de = Deserializer::from_buf_reader(String::from("42\r\n-1\r\n").into_bytes());
    assert_eq!(de.parse_isize().unwrap(), 42isize);
    assert_eq!(de.parse_isize().unwrap(), -1isize);
    assert!(de.parse_isize().is_err());
}
