use bittorrent_rust::bencode::{
    decode_at, decode_bencoded_value, find, parse_integer, parse_length, DecodeError, Value,
};

fn bytes(text: &str) -> Value {
    Value::Bytes(text.as_bytes().to_vec())
}

fn decoded(text: &str) -> (Value, String) {
    match decode_bencoded_value(text.as_bytes()) {
        Ok((value, rest)) => (value, String::from_utf8(rest.to_vec()).unwrap()),
        Err(error) => panic!("{:?} on {:?}", error, text),
    }
}

fn refused(text: &str) -> DecodeError {
    match decode_bencoded_value(text.as_bytes()) {
        Ok((value, _)) => panic!("{:?} from {:?}", value, text),
        Err(error) => error,
    }
}

#[test]
fn decodes_a_string() {
    assert_eq!(decoded("5:hello"), (bytes("hello"), String::new()));
    assert_eq!(decoded("5:helloworld"), (bytes("hello"), String::from("world")));
    assert_eq!(decoded("0:"), (bytes(""), String::new()));
    assert_eq!(decoded("03:abc"), (bytes("abc"), String::new()));
    assert_eq!(decoded("10:0123456789e"), (bytes("0123456789"), String::from("e")));
    assert_eq!(decoded("1::"), (bytes(":"), String::new()));
}

#[test]
fn decodes_an_integer() {
    assert_eq!(decoded("i52e"), (Value::Integer(52), String::new()));
    assert_eq!(decoded("i-52e"), (Value::Integer(-52), String::new()));
    assert_eq!(decoded("i+52e"), (Value::Integer(52), String::new()));
    assert_eq!(decoded("i0e"), (Value::Integer(0), String::new()));
    assert_eq!(decoded("i-0e"), (Value::Integer(0), String::new()));
    assert_eq!(decoded("i007e5:"), (Value::Integer(7), String::from("5:")));
    assert_eq!(
        decoded("i9223372036854775807e"),
        (Value::Integer(i64::MAX), String::new())
    );
    assert_eq!(
        decoded("i-9223372036854775808e"),
        (Value::Integer(i64::MIN), String::new())
    );
    assert_eq!(
        decoded("i0000000000000000000000000000000000012e"),
        (Value::Integer(12), String::new())
    );
}

#[test]
fn decodes_a_list() {
    assert_eq!(decoded("le"), (Value::List(Vec::new()), String::new()));
    assert_eq!(
        decoded("l5:helloi52ee"),
        (Value::List(vec![bytes("hello"), Value::Integer(52)]), String::new())
    );
    assert_eq!(
        decoded("lli4eei5ee!"),
        (
            Value::List(vec![Value::List(vec![Value::Integer(4)]), Value::Integer(5)]),
            String::from("!")
        )
    );
    assert_eq!(
        decoded("llleee"),
        (
            Value::List(vec![Value::List(vec![Value::List(Vec::new())])]),
            String::new()
        )
    );
}

#[test]
fn decodes_a_dictionary_in_written_order() {
    assert_eq!(decoded("de"), (Value::Dict(Vec::new()), String::new()));
    assert_eq!(
        decoded("d3:foo3:bar5:helloi52ee"),
        (
            Value::Dict(vec![
                (b"foo".to_vec(), bytes("bar")),
                (b"hello".to_vec(), Value::Integer(52)),
            ]),
            String::new()
        )
    );
    assert_eq!(
        decoded("d1:b1:x1:ali1ee1:bdeetail"),
        (
            Value::Dict(vec![
                (b"b".to_vec(), bytes("x")),
                (b"a".to_vec(), Value::List(vec![Value::Integer(1)])),
                (b"b".to_vec(), Value::Dict(Vec::new())),
            ]),
            String::from("tail")
        )
    );
}

#[test]
fn refuses_what_begins_no_value() {
    assert_eq!(refused(""), DecodeError::Invalid { at: 0 });
    assert_eq!(refused("x"), DecodeError::Invalid { at: 0 });
    assert_eq!(refused("e"), DecodeError::Invalid { at: 0 });
    assert_eq!(refused(":3"), DecodeError::Invalid { at: 0 });
    assert_eq!(refused("-1:a"), DecodeError::Invalid { at: 0 });
    assert_eq!(refused("lxe"), DecodeError::Invalid { at: 1 });
    assert_eq!(refused("li1e"), DecodeError::Invalid { at: 4 });
    assert_eq!(refused("l"), DecodeError::Invalid { at: 1 });
    assert_eq!(refused("d"), DecodeError::Invalid { at: 1 });
    assert_eq!(refused("d1:a"), DecodeError::Invalid { at: 4 });
    assert_eq!(refused("d1:ai1e"), DecodeError::Invalid { at: 7 });
}

#[test]
fn refuses_an_integer_without_end() {
    assert_eq!(refused("i52"), DecodeError::Invalid { at: 0 });
    assert_eq!(refused("i"), DecodeError::Invalid { at: 0 });
    assert_eq!(refused("li5"), DecodeError::Invalid { at: 1 });
}

#[test]
fn refuses_what_is_no_integer() {
    assert_eq!(refused("ie"), DecodeError::BadInteger { at: 0 });
    assert_eq!(refused("i-e"), DecodeError::BadInteger { at: 0 });
    assert_eq!(refused("i+e"), DecodeError::BadInteger { at: 0 });
    assert_eq!(refused("i1 e"), DecodeError::BadInteger { at: 0 });
    assert_eq!(refused("i--1e"), DecodeError::BadInteger { at: 0 });
    assert_eq!(refused("i1.5e"), DecodeError::BadInteger { at: 0 });
    assert_eq!(refused("i9223372036854775808e"), DecodeError::BadInteger { at: 0 });
    assert_eq!(refused("i-9223372036854775809e"), DecodeError::BadInteger { at: 0 });
    assert_eq!(refused("i99999999999999999999999999e"), DecodeError::BadInteger { at: 0 });
    assert_eq!(refused("l1:ai1xee"), DecodeError::BadInteger { at: 4 });
    // The text of an integer ends at the first `e`.
    assert_eq!(refused("i1fe"), DecodeError::BadInteger { at: 0 });
}

#[test]
fn refuses_a_string_without_a_length() {
    assert_eq!(refused("5hello"), DecodeError::Invalid { at: 0 });
    assert_eq!(refused("5"), DecodeError::Invalid { at: 0 });
    assert_eq!(refused("5x:hello"), DecodeError::Invalid { at: 0 });
    assert_eq!(refused("1+1:ab"), DecodeError::Invalid { at: 0 });
    assert_eq!(
        refused("99999999999999999999999999999999:a"),
        DecodeError::Invalid { at: 0 }
    );
}

#[test]
fn refuses_a_string_longer_than_the_input() {
    assert_eq!(refused("6:hello"), DecodeError::Truncated { at: 0 });
    assert_eq!(refused("1:"), DecodeError::Truncated { at: 0 });
    assert_eq!(refused("l3:ab"), DecodeError::Truncated { at: 1 });
    assert_eq!(refused("l3:abe"), DecodeError::Invalid { at: 6 });
    assert_eq!(
        refused("18446744073709551615:a"),
        DecodeError::Truncated { at: 0 }
    );
}

#[test]
fn refuses_a_key_that_is_no_string() {
    assert_eq!(refused("di1ei2ee"), DecodeError::KeyNotString { at: 1 });
    assert_eq!(refused("dlei2ee"), DecodeError::KeyNotString { at: 1 });
    assert_eq!(refused("d1:ai1edee"), DecodeError::KeyNotString { at: 7 });
    assert_eq!(refused("ld1:a1:bi3e1:cee"), DecodeError::KeyNotString { at: 8 });
}

#[test]
fn decodes_bytes_that_are_no_text() {
    let input = [b'3', b':', 0xff, 0x00, 0x80, b'i', b'1', b'e'];
    match decode_bencoded_value(&input) {
        Ok((value, rest)) => {
            assert_eq!(value, Value::Bytes(vec![0xff, 0x00, 0x80]));
            assert_eq!(rest, b"i1e");
        }
        Err(error) => panic!("{:?}", error),
    }
}

#[test]
fn decode_at_reads_from_an_offset() {
    let input = b"i1e4:spami-3e";
    match decode_at(input, 3) {
        Ok((value, end)) => {
            assert_eq!(value, bytes("spam"));
            assert_eq!(end, 9);
        }
        Err(error) => panic!("{:?}", error),
    }
    match decode_at(input, 9) {
        Ok((value, end)) => {
            assert_eq!(value, Value::Integer(-3));
            assert_eq!(end, 13);
        }
        Err(error) => panic!("{:?}", error),
    }
    assert_eq!(decode_at(input, 13).unwrap_err(), DecodeError::Invalid { at: 13 });
    assert_eq!(decode_at(input, 99).unwrap_err(), DecodeError::Invalid { at: 99 });
}

#[test]
fn find_gives_the_first_occurrence() {
    assert_eq!(find(b"abcabc", 0, b'c'), 2);
    assert_eq!(find(b"abcabc", 2, b'c'), 2);
    assert_eq!(find(b"abcabc", 3, b'c'), 5);
    assert_eq!(find(b"abcabc", 6, b'c'), 6);
    assert_eq!(find(b"abcabc", 0, b'x'), 6);
    assert_eq!(find(b"", 0, b'x'), 0);
}

#[test]
fn parse_integer_takes_a_sign_and_digits() {
    assert_eq!(parse_integer(b"i-12e", 1, 4), Some(-12));
    assert_eq!(parse_integer(b"+0", 0, 2), Some(0));
    assert_eq!(parse_integer(b"12", 0, 0), None);
    assert_eq!(parse_integer(b"12", 1, 1), None);
    assert_eq!(parse_integer(b"1-2", 0, 3), None);
    assert_eq!(parse_integer(b"18446744073709551616", 0, 20), None);
    assert_eq!(parse_integer(b"-18446744073709551615", 0, 21), None);
}

#[test]
fn parse_length_takes_digits_alone() {
    assert_eq!(parse_length(b"12:", 0, 2), Some(12));
    assert_eq!(parse_length(b"0012", 0, 4), Some(12));
    assert_eq!(parse_length(b"+12", 0, 3), None);
    assert_eq!(parse_length(b"-12", 0, 3), None);
    assert_eq!(parse_length(b"", 0, 0), None);
    assert_eq!(parse_length(b"18446744073709551615", 0, 20), Some(u64::MAX as usize));
    assert_eq!(parse_length(b"18446744073709551616", 0, 20), None);
}
