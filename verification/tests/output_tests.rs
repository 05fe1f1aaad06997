use parq::error::Error;
use parq::output::{format_row, OutputFormat, OutputWriter};
use parq::width::format_cell;

fn strings(values: &[&str]) -> Vec<String> {
    values.iter().map(|s| s.to_string()).collect()
}

fn ok_rows(rows: &[&[&str]]) -> Vec<Result<Vec<String>, Error>> {
    rows.iter().map(|r| Ok(strings(r))).collect()
}

#[test]
fn test_table_format_cell() {
    assert_eq!("1234...", format_cell("123456789", 7));
    assert_eq!("1234567", format_cell("1234567", 7));
    assert_eq!("1234   ", format_cell("1234", 7));

    assert_eq!("\"12345...\"", format_cell("\"123456789\"", 10));
    assert_eq!("\"12345678\"", format_cell("\"12345678\"", 10));
    assert_eq!("\"1234\"    ", format_cell("\"1234\"", 10));
    assert_eq!("\"\"        ", format_cell("\"\"", 10));
}

#[test]
fn test_table_format_cell_unicode() {
    assert_eq!("tÞyk...", format_cell("tÞykkvibær", 7));
    assert_eq!("Â¿Â¿   ", format_cell("Â¿Â¿", 7));
}

#[test]
fn test_table_format_row() {
    let batch_size = 1;
    let mut width = vec![0; 2];
    let values = vec![
        strings(&["12345", "tÞykÂ¿"]),
        strings(&["123456789", "123456789"]),
        strings(&["", ""]),
    ];

    let result1 = format_row(0, batch_size, &values[0], &mut width);
    let result2 = format_row(1, batch_size, &values[1], &mut width);
    let result3 = format_row(2, batch_size, &values[2], &mut width);

    assert_eq!(vec![5, 6], width);
    assert_eq!(16, result1.len());
    assert_eq!(13, result2.len());
    assert_eq!(13, result3.len());

    assert_eq!("12345\ttÞykÂ¿\n", result1);
    assert_eq!("12...\t123...\n", result2);
    assert_eq!("     \t      \n", result3);
}

#[test]
fn test_table_write_vertical() {
    let headers = strings(&["c1", "c2"]);
    let values = ok_rows(&[&["r1 - 1", "r1 - 2"], &["r2 - 1", "r2 - 2"]]);

    let actual = OutputWriter::new(headers, values)
        .format(OutputFormat::Vertical)
        .write()
        .expect("Fail to write vertical");

    let expected = vec![
        "",
        "c1:   r1 - 1",
        "c2:   r1 - 2",
        "",
        "c1:   r2 - 1",
        "c2:   r2 - 2",
        "",
    ]
    .join("\n");

    assert_eq!(expected, actual);
}

#[test]
fn test_table_write_tabular() {
    let headers = strings(&["c1", "c2"]);
    let values = ok_rows(&[&["r1 - 1", "r1 - 2"], &["r2 - 1", "r2 - 2"]]);

    let actual = OutputWriter::new(headers, values)
        .write()
        .expect("Fail to write tabular");

    let expected = "c1      c2\nr1 - 1  r1 - 2\nr2 - 1  r2 - 2\n";

    assert_eq!(expected, actual);
}

#[test]
fn test_table_output_format_try_from() {
    assert_eq!(
        OutputFormat::try_from(String::from("table")).unwrap(),
        OutputFormat::Tabular
    );

    assert_eq!(
        OutputFormat::try_from(String::from("tabular")).unwrap(),
        OutputFormat::Tabular
    );

    assert_eq!(
        OutputFormat::try_from(String::from("t")).unwrap(),
        OutputFormat::Tabular
    );

    assert_eq!(
        OutputFormat::try_from(String::from("vertical")).unwrap(),
        OutputFormat::Vertical
    );

    assert_eq!(
        OutputFormat::try_from(String::from("v")).unwrap(),
        OutputFormat::Vertical
    );

    assert_eq!(
        OutputFormat::try_from(String::from("foo")).err().unwrap(),
        Error::InvalidArgument(String::from("foo"))
    );
}

#[test]
fn test_table_output_format_values() {
    assert_eq!(
        OutputFormat::values(),
        vec!["t", "table", "tabular", "v", "vertical"]
    );
}

#[test]
fn test_table_output_writer_write() {
    let headers = strings(&["c1", "c2"]);
    let values = ok_rows(&[&["r1 - 1", "r1 - 2"], &["r2 - 1", "r2 - 2"]]);

    let writer = OutputWriter::new(headers, values);
    let actual = writer.write().unwrap();

    let expected = "c1      c2\nr1 - 1  r1 - 2\nr2 - 1  r2 - 2\n";

    assert_eq!(expected, actual);
}

#[test]
fn test_table_output_writer_format() {
    let headers = strings(&["c1", "c2"]);
    let values = ok_rows(&[&["r1 - 1", "r1 - 2"], &["r2 - 1", "r2 - 2"]]);

    let writer = OutputWriter::new(headers, values).format(OutputFormat::Vertical);
    let actual = writer.write().unwrap();

    let expected = vec![
        "",
        "c1:   r1 - 1",
        "c2:   r1 - 2",
        "",
        "c1:   r2 - 1",
        "c2:   r2 - 2",
        "",
    ]
    .join("\n");

    assert_eq!(expected, actual);
}

#[test]
fn test_table_output_writer_write_minwidth() {
    let headers = strings(&["c"]);
    let values = ok_rows(&[&["1"], &["2"]]);

    let writer = OutputWriter::new(headers, values);
    let actual = writer.write().unwrap();

    let expected = "c\n1\n2\n";

    assert_eq!(expected, actual);
}

#[test]
fn test_table_output_writer_write_batch() {
    let headers = strings(&["c"]);
    let values: Vec<Result<Vec<String>, Error>> =
        (0..1000).map(|n| Ok(vec![format!("{}", n)])).collect();

    let writer = OutputWriter::new(headers, values);
    let actual = writer.write().unwrap();

    // header + (values ...) + end line
    assert_eq!(1002, actual.split('\n').count());
}

#[test]
fn test_table_output_writer_csv() {
    let headers = strings(&["c1", "c2"]);
    let values = ok_rows(&[&["1", "\"a\""], &["2", "\"b\""]]);

    let writer = OutputWriter::new(headers, values).format(OutputFormat::Csv);
    let actual = writer.write().unwrap();

    assert_eq!("c1,c2\n1,\"a\"\n2,\"b\"\n", actual);
}

#[test]
fn test_table_output_writer_stops_at_error() {
    let headers = strings(&["c"]);
    let values = vec![
        Ok(strings(&["1"])),
        Err(Error::Parquet(String::from("p"), String::from("bad"))),
        Ok(strings(&["2"])),
    ];

    let writer = OutputWriter::new(headers, values);
    let result = writer.write();

    assert_eq!(
        result.err().unwrap(),
        Error::Parquet(String::from("p"), String::from("bad"))
    );
}

#[test]
fn test_format_cell_exact_width_wide_chars() {
    // Exact-width truncation also holds for double-width characters: the
    // truncated value is padded before the marker when a wide character
    // cannot be split.
    let wide = "你你你你你"; // each of these is two columns wide
    let cell = format_cell(wide, 6);
    assert_eq!("你 ...", cell);

    let cell = format_cell(wide, 10);
    assert_eq!(wide, cell);

    let cell = format_cell(wide, 12);
    assert_eq!(format!("{}  ", wide), cell);
}
