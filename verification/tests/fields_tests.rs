use parq::fields::resolve_fields;
use parq::filters::{parse_filter_expr, parse_filters, resolve_filters, row_matches, CompiledFilter};

fn schema() -> Vec<String> {
    vec![
        "field_int32",
        "field_int64",
        "field_float",
        "field_double",
        "field_string",
        "field_boolean",
        "field_timestamp",
    ]
    .into_iter()
    .map(String::from)
    .collect()
}

#[test]
fn test_resolve_fields_identity() {
    let result = resolve_fields(&schema(), &None);

    assert_eq!(result.len(), 7);
    assert_eq!(
        result,
        vec![
            (0, String::from("field_int32")),
            (1, String::from("field_int64")),
            (2, String::from("field_float")),
            (3, String::from("field_double")),
            (4, String::from("field_string")),
            (5, String::from("field_boolean")),
            (6, String::from("field_timestamp"))
        ]
    );
}

#[test]
fn test_resolve_fields_requested() {
    let requested = Some(vec![
        String::from("field_timestamp"),
        String::from("FIELD_INT64"),
        String::from("field_int32"),
    ]);
    let result = resolve_fields(&schema(), &requested);

    assert_eq!(result.len(), 3);
    assert_eq!(
        result,
        vec![
            (6, String::from("field_timestamp")),
            (1, String::from("field_int64")),
            (0, String::from("field_int32"))
        ]
    );
}

#[test]
fn test_resolve_fields_drops_unknown() {
    let requested = Some(vec![
        String::from("nope"),
        String::from("field_string"),
        String::from("also_nope"),
    ]);
    let result = resolve_fields(&schema(), &requested);

    assert_eq!(result, vec![(4, String::from("field_string"))]);
}

#[test]
fn test_resolve_fields_repeated_column() {
    let requested = Some(vec![
        String::from("field_int32"),
        String::from("field_int32"),
    ]);
    let result = resolve_fields(&schema(), &requested);

    assert_eq!(
        result,
        vec![(0, String::from("field_int32")), (0, String::from("field_int32"))]
    );
}

#[test]
fn test_resolve_fields_empty_request_is_identity() {
    let result = resolve_fields(&schema(), &Some(vec![]));

    assert_eq!(result.len(), 7);
}

#[test]
fn test_parse_filter_expr() {
    assert_eq!(
        Some((String::from("field"), String::from("[a-z]"))),
        parse_filter_expr("field:[a-z]")
    );
    assert_eq!(
        Some((String::from("url"), String::from("^http://"))),
        parse_filter_expr("url:^http://")
    );
    assert_eq!(None, parse_filter_expr("foo"));
    assert_eq!(None, parse_filter_expr("bar:"));
    assert_eq!(None, parse_filter_expr(":bar"));
}

#[test]
fn test_parse_filters() {
    let values = vec![String::from("a:A"), String::from("b:B")];
    let filters = parse_filters(&values, "filters").unwrap();

    assert_eq!(2, filters.len());
    assert_eq!("a", filters[0].0);
    assert_eq!("A", filters[0].1.pattern().as_str());
    assert_eq!("b", filters[1].0);
    assert_eq!("B", filters[1].1.pattern().as_str());
}

#[test]
fn test_parse_filters_last_pattern_wins() {
    let values = vec![String::from("a:A"), String::from("a:B")];
    let filters = parse_filters(&values, "filters").unwrap();

    assert_eq!(1, filters.len());
    assert_eq!("B", filters[0].1.pattern().as_str());
}

#[test]
fn test_parse_filters_malformed() {
    let values = vec![String::from("nope")];
    let err = parse_filters(&values, "search").err().unwrap();

    assert_eq!(
        parq::error::Error::InvalidArgument(String::from("search")),
        err
    );
}

#[test]
fn test_row_filters_conjunction() {
    let proj = resolve_fields(
        &schema(),
        &Some(vec![String::from("field_int32"), String::from("field_string")]),
    );
    let values = vec![
        String::from("field_string:odd"),
        String::from("field_int32:1"),
    ];
    let filters = parse_filters(&values, "search").unwrap();
    let resolved = resolve_filters(&proj, &filters);

    let both = vec![String::from("1"), String::from("odd 1")];
    let first_only = vec![String::from("1"), String::from("even 1")];
    let second_only = vec![String::from("2"), String::from("odd 2")];

    assert!(row_matches(&both, &resolved, &filters));
    assert!(!row_matches(&first_only, &resolved, &filters));
    assert!(!row_matches(&second_only, &resolved, &filters));
}

#[test]
fn test_row_filters_empty_accepts_all() {
    let filters: Vec<(String, CompiledFilter)> = Vec::new();
    let resolved = Vec::new();
    let row = vec![String::from("anything")];

    assert!(row_matches(&row, &resolved, &filters));
}

#[test]
fn test_resolve_filters_drops_absent_column() {
    let proj = resolve_fields(&schema(), &Some(vec![String::from("field_int32")]));
    let values = vec![String::from("field_string:odd")];
    let filters = parse_filters(&values, "search").unwrap();
    let resolved = resolve_filters(&proj, &filters);

    assert!(resolved.is_empty());

    let row = vec![String::from("1")];
    assert!(row_matches(&row, &resolved, &filters));
}
