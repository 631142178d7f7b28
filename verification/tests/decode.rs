use resp2::Error;
use resp2::RESPType;
use resp2::from_buf_reader;
use resp2::from_string;

#[test]
fn de_simple_string() {
    let s = String::from("+Hello\r\n");
    let result: RESPType = from_string(s).unwrap();
    assert_eq!(result, RESPType::SimpleString("Hello".to_string()));
}

#[test]
fn de_error() {
    let s = String::from("-UNEXPECTED\r\n");
    let result: RESPType = from_string(s).unwrap();
    assert_eq!(result, RESPType::Error("UNEXPECTED".to_string()));
}

#[test]
fn de_integer() {
    let s = String::from(":23\r\n");
    let result: RESPType = from_string(s).unwrap();
    assert_eq!(result, RESPType::Integer(23));
}

#[test]
fn de_null_bulk_string() {
    let s = String::from("$-1\r\n");
    let result: RESPType = from_string(s).unwrap();
    assert_eq!(result, RESPType::BulkString(None));
}

#[test]
fn de_bulk_string() {
    let s = String::from("$5\r\nHello\r\n");
    let result: RESPType = from_string(s).unwrap();
    assert_eq!(
        result,
        RESPType::BulkString(Some(String::from("Hello").into_bytes()))
    );
}

#[test]
fn de_null_array() {
    let s = String::from("*-1\r\n");
    let result: RESPType = from_string(s).unwrap();
    assert_eq!(result, RESPType::Array(None));
}

#[test]
fn de_empty_array() {
    let s = String::from("*0\r\n");
    let result: RESPType = from_string(s).unwrap();
    assert_eq!(result, RESPType::Array(Some(Vec::new())));
}

#[test]
fn de_array() {
    let s = String::from("*3\r\n:23\r\n+Hello\r\n$5\r\nthere\r\n");
    let result: RESPType = from_string(s).unwrap();
    assert_eq!(
        result,
        RESPType::Array(Some(vec![
            RESPType::Integer(23),
            RESPType::SimpleString("Hello".to_owned()),
            RESPType::BulkString(Some(String::from("there").into_bytes()))
        ]))
    );
}

#[test]
fn de_malformed_integer_is_syntax() {
    let result = from_string(String::from(":abc\r\n"));
    assert_eq!(result, Err(Error::Syntax));
}

#[test]
fn de_integer_rejects_leading_plus_and_whitespace() {
    assert_eq!(from_string(String::from(":+5\r\n")), Err(Error::Syntax));
    assert_eq!(from_string(String::from(": 5\r\n")), Err(Error::Syntax));
    assert_eq!(from_string(String::from(":5 \r\n")), Err(Error::Syntax));
    assert_eq!(from_string(String::from(":1a\r\n")), Err(Error::Syntax));
    assert_eq!(from_string(String::from(":-\r\n")), Err(Error::Syntax));
}

#[test]
fn de_integer_base10_leniency() {
    assert_eq!(
        from_string(String::from(":007\r\n")),
        Ok(RESPType::Integer(7))
    );
    assert_eq!(from_string(String::from(":-0\r\n")), Ok(RESPType::Integer(0)));
}

#[test]
fn de_integer_extremes() {
    assert_eq!(
        from_string(String::from(":9223372036854775807\r\n")),
        Ok(RESPType::Integer(i64::MAX))
    );
    assert_eq!(
        from_string(String::from(":-9223372036854775808\r\n")),
        Ok(RESPType::Integer(i64::MIN))
    );
    assert_eq!(
        from_string(String::from(":9223372036854775808\r\n")),
        Err(Error::Syntax)
    );
    assert_eq!(
        from_string(String::from(":-9223372036854775809\r\n")),
        Err(Error::Syntax)
    );
}

#[test]
fn de_truncated_input_is_eof() {
    let result = from_string(String::from("$5\r\nHel"));
    assert_eq!(result, Err(Error::Eof));
}

#[test]
fn de_more_eof_shapes() {
    assert_eq!(from_string(String::new()), Err(Error::Eof));
    assert_eq!(from_string(String::from("+Hello")), Err(Error::Eof));
    assert_eq!(from_string(String::from("*2\r\n:1\r\n")), Err(Error::Eof));
    assert_eq!(from_string(String::from("$5\r\nHello")), Err(Error::Eof));
}

#[test]
fn de_unknown_tag_is_syntax() {
    assert_eq!(from_string(String::from("xyz\r\n")), Err(Error::Syntax));
}

#[test]
fn de_bad_bulk_terminator_is_syntax() {
    let result = from_string(String::from("$5\r\nHelloXY"));
    assert_eq!(result, Err(Error::Syntax));
}

#[test]
fn de_text_that_is_not_utf8() {
    let input = vec![43u8, 0xFF, 13, 10];
    match from_buf_reader(input) {
        Err(Error::FromUtf8(_)) => {}
        other => panic!("expected a FromUtf8 failure, got {:?}", other),
    }
}

#[test]
fn de_empty_bulk_string() {
    assert_eq!(
        from_string(String::from("$0\r\n\r\n")),
        Ok(RESPType::BulkString(Some(Vec::new())))
    );
}
