use parq::error::Error;
use parq::strutil::{parse_usize, to_lowercase, u64_to_string, NumError};
use parq::width::{display_width, format_cell};

#[test]
fn test_to_lowercase() {
    assert_eq!("field_int32", to_lowercase("FIELD_INT32"));
    assert_eq!("mixedcase", to_lowercase("MixedCase"));
    assert_eq!("already lower 123", to_lowercase("already lower 123"));
    assert_eq!("grüsse", to_lowercase("GRÜSSE"));
}

#[test]
fn test_u64_to_string() {
    assert_eq!("0", u64_to_string(0));
    assert_eq!("7", u64_to_string(7));
    assert_eq!("1234567890", u64_to_string(1234567890));
    assert_eq!(u64::MAX.to_string(), u64_to_string(u64::MAX));
}

#[test]
fn test_parse_usize() {
    assert_eq!(Ok(0), parse_usize("0"));
    assert_eq!(Ok(123), parse_usize("123"));
    assert_eq!(Ok(42), parse_usize("+42"));
    assert_eq!(Err(NumError::Empty), parse_usize(""));
    assert_eq!(Err(NumError::Digit), parse_usize("12a"));
    assert_eq!(Err(NumError::Digit), parse_usize("+"));
    assert_eq!(Err(NumError::Digit), parse_usize("-1"));
    assert_eq!(
        Err(NumError::Range),
        parse_usize("999999999999999999999999999999")
    );
}

#[test]
fn test_display_width() {
    assert_eq!(5, display_width("hello"));
    assert_eq!(0, display_width(""));
    // East Asian characters occupy two columns each.
    assert_eq!(4, display_width("你好"));
}

#[test]
fn test_format_cell_width_is_exact() {
    // The formatted cell always occupies exactly the requested width.
    let inputs = ["", "a", "abcdef", "\"quoted value\"", "tÞykkvibær", "你好你好"];
    for input in inputs {
        for width in 0..16 {
            assert_eq!(width, display_width(&format_cell(input, width)));
        }
    }
}

#[test]
fn test_error_messages() {
    assert_eq!(
        "Invalid parquet: /data",
        Error::InvalidParquet(String::from("/data")).message()
    );
    assert_eq!(
        "/data/x.parquet >>> Parquet error: boom",
        Error::Parquet(
            String::from("/data/x.parquet"),
            String::from("Parquet error: boom")
        )
        .message()
    );
    assert_eq!("IO error: sink", Error::IO(String::from("sink")).message());
    assert_eq!(
        "Filter error: bad pattern",
        Error::Filter(String::from("bad pattern")).message()
    );
    assert_eq!(
        "Invalid argument: limit",
        Error::InvalidArgument(String::from("limit")).message()
    );
}
