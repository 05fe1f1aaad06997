use parq::args::{columns_arg, split_commas, validate_filter, validate_number, validate_path};

#[test]
fn test_args_validate_path() {
    let tmp = tempfile::Builder::new()
        .prefix("tmp")
        .suffix(".file")
        .rand_bytes(5)
        .tempfile()
        .expect("Fail to create tmp file");
    let valid = tmp.path().to_str().unwrap();
    let invalid = "NOT VALID";

    assert_eq!(Ok(()), validate_path(valid));
    assert_eq!(
        Err(format!("Path '{}' does not exist", invalid)),
        validate_path(invalid)
    );
}

#[test]
fn test_args_validate_number() {
    let valid = "123";
    let invalid = "NOT VALID";

    assert_eq!(Ok(()), validate_number(valid));
    assert_eq!(
        Err("invalid digit found in string".to_string()),
        validate_number(invalid)
    );
}

#[test]
fn test_args_validate_filter() {
    assert_eq!(Ok(()), validate_filter("foo:bar"));
    assert_eq!(Ok(()), validate_filter("foo:^ns::[a-zA-Z]*$"));

    assert_eq!(
        Err("Invalid filter expression. Expected '<column>:<regex>' got 'NOT VALID'".to_string()),
        validate_filter("NOT VALID")
    );

    assert_eq!(
        Err("Invalid filter expression. Expected '<column>:<regex>' got 'foo'".to_string()),
        validate_filter("foo")
    );

    assert_eq!(
        Err("Invalid filter expression. Expected '<column>:<regex>' got 'bar:'".to_string()),
        validate_filter("bar:")
    );

    assert_eq!(
        Err("Invalid filter expression. Expected '<column>:<regex>' got ':bar'".to_string()),
        validate_filter(":bar")
    );
}

#[test]
fn test_args_validate_number_range() {
    assert_eq!(Ok(()), validate_number("+7"));
    assert_eq!(
        Err("cannot parse integer from empty string".to_string()),
        validate_number("")
    );
    assert_eq!(
        Err("number too large to fit in target type".to_string()),
        validate_number("99999999999999999999999999")
    );
}

#[test]
fn test_args_split_commas() {
    let values = vec![String::from("1,2,3,4,5")];
    let expected: Vec<String> = vec!["1", "2", "3", "4", "5"]
        .into_iter()
        .map(String::from)
        .collect();
    assert_eq!(expected, split_commas(&values));

    let values = vec![
        String::from("aa"),
        String::from("bb,cc"),
        String::from("dd"),
    ];
    let expected: Vec<String> = vec!["aa", "bb", "cc", "dd"]
        .into_iter()
        .map(String::from)
        .collect();
    assert_eq!(expected, split_commas(&values));
}

#[test]
fn test_args_columns_arg() {
    assert_eq!(None, columns_arg(&None));
    assert_eq!(None, columns_arg(&Some(vec![])));
    assert_eq!(
        Some(vec![String::from("a"), String::from("b")]),
        columns_arg(&Some(vec![String::from("a,b")]))
    );
}
