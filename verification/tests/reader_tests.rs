use std::sync::Arc;

use parquet::data_type::{
    BoolType, ByteArray, ByteArrayType, DoubleType, FloatType, Int32Type, Int64Type, Int96,
    Int96Type,
};
use parquet::file::properties::WriterProperties;
use parquet::file::writer::SerializedFileWriter;
use parquet::schema::parser::parse_message_type;

use parq::commands::{count_output, frequency_output, read_output, sample_output};
use parq::error::Error;
use parq::filters::CompiledFilter;
use parq::output::OutputFormat;
use parq::paths::ParquetPathIterator;
use parq::reader::{effective_count, sat_add, ParquetFile};

struct SimpleMessage {
    field_int32: i32,
    field_int64: i64,
    field_float: f32,
    field_double: f64,
    field_string: String,
    field_boolean: bool,
    field_timestamp: Vec<u32>,
}

static SIMPLE_SCHEMA: &str = "
    message simple_message {
        REQUIRED INT32 field_int32;
        REQUIRED INT64 field_int64;
        REQUIRED FLOAT field_float;
        REQUIRED DOUBLE field_double;
        REQUIRED BYTE_ARRAY field_string (UTF8);
        REQUIRED BOOLEAN field_boolean;
        REQUIRED INT96 field_timestamp;
    }
    ";

fn temp_dir() -> tempfile::TempDir {
    tempfile::Builder::new()
        .rand_bytes(5)
        .tempdir()
        .expect("Fail to create tmp dir")
}

fn write_simple_messages_parquet(path: &std::path::Path, vec: &[SimpleMessage]) {
    let schema = Arc::new(parse_message_type(SIMPLE_SCHEMA).unwrap());
    let props = Arc::new(WriterProperties::builder().build());
    let file = tempfile::Builder::new()
        .tempfile()
        .unwrap()
        .persist(path)
        .unwrap();
    let mut writer = SerializedFileWriter::new(file, schema, props).unwrap();
    let mut row_group = writer.next_row_group().unwrap();

    let mut col = row_group.next_column().unwrap().unwrap();
    let values: Vec<i32> = vec.iter().map(|m| m.field_int32).collect();
    col.typed::<Int32Type>().write_batch(&values, None, None).unwrap();
    col.close().unwrap();

    let mut col = row_group.next_column().unwrap().unwrap();
    let values: Vec<i64> = vec.iter().map(|m| m.field_int64).collect();
    col.typed::<Int64Type>().write_batch(&values, None, None).unwrap();
    col.close().unwrap();

    let mut col = row_group.next_column().unwrap().unwrap();
    let values: Vec<f32> = vec.iter().map(|m| m.field_float).collect();
    col.typed::<FloatType>().write_batch(&values, None, None).unwrap();
    col.close().unwrap();

    let mut col = row_group.next_column().unwrap().unwrap();
    let values: Vec<f64> = vec.iter().map(|m| m.field_double).collect();
    col.typed::<DoubleType>().write_batch(&values, None, None).unwrap();
    col.close().unwrap();

    let mut col = row_group.next_column().unwrap().unwrap();
    let values: Vec<ByteArray> = vec
        .iter()
        .map(|m| ByteArray::from(m.field_string.as_str()))
        .collect();
    col.typed::<ByteArrayType>().write_batch(&values, None, None).unwrap();
    col.close().unwrap();

    let mut col = row_group.next_column().unwrap().unwrap();
    let values: Vec<bool> = vec.iter().map(|m| m.field_boolean).collect();
    col.typed::<BoolType>().write_batch(&values, None, None).unwrap();
    col.close().unwrap();

    let mut col = row_group.next_column().unwrap().unwrap();
    let values: Vec<Int96> = vec
        .iter()
        .map(|m| Int96::from(m.field_timestamp.clone()))
        .collect();
    col.typed::<Int96Type>().write_batch(&values, None, None).unwrap();
    col.close().unwrap();

    row_group.close().unwrap();
    writer.close().unwrap();
}

fn write_garbage(path: &std::path::Path) {
    let mut file = tempfile::Builder::new().tempfile().unwrap();
    std::io::Write::write_all(&mut file, b"NOT A PARQUET FILE").unwrap();
    file.persist(path).unwrap();
}

fn write_empty(path: &std::path::Path) {
    let file = tempfile::Builder::new().tempfile().unwrap();
    file.persist(path).unwrap();
}

fn msg(i32v: i32, i64v: i64, f32v: f32, f64v: f64, s: &str, b: bool, ts: Vec<u32>) -> SimpleMessage {
    SimpleMessage {
        field_int32: i32v,
        field_int64: i64v,
        field_float: f32v,
        field_double: f64v,
        field_string: s.to_string(),
        field_boolean: b,
        field_timestamp: ts,
    }
}

fn path_string(path: &std::path::Path) -> String {
    path.to_string_lossy().into_owned()
}

fn collect_paths(root: &str) -> Vec<String> {
    let mut it = ParquetPathIterator::new(&root.to_string());
    let mut out = Vec::new();
    while let Some(p) = it.next() {
        out.push(p);
    }
    out
}

#[test]
fn test_parquet_files() {
    let dir = temp_dir();
    let path1 = dir.path().join("part-1.snappy.parquet");
    let path2 = dir.path().join("part-2.snappy.parquet");
    let path3 = dir.path().join("_SUCCESS");

    write_empty(&path1);
    write_empty(&path2);
    write_empty(&path3);

    let mut dir_vec = collect_paths(dir.path().to_str().unwrap());
    let file1_vec = collect_paths(path1.to_str().unwrap());
    let file2_vec = collect_paths(path2.to_str().unwrap());
    let file3_vec = collect_paths(path3.to_str().unwrap());

    dir_vec.sort();

    assert_eq!(dir_vec.len(), 2);
    assert_eq!(dir_vec, vec![path_string(&path1), path_string(&path2)]);

    assert_eq!(file1_vec.len(), 1);
    assert_eq!(file1_vec, vec![path_string(&path1)]);

    assert_eq!(file2_vec.len(), 1);
    assert_eq!(file2_vec, vec![path_string(&path2)]);

    assert_eq!(file3_vec.len(), 1);
    assert_eq!(file3_vec, vec![path_string(&path3)]);
}

#[test]
fn test_effective_count_and_saturating_sum() {
    assert_eq!(5, effective_count(5, 99));
    assert_eq!(7, effective_count(0, 7));
    assert_eq!(7, effective_count(-3, 7));
    assert_eq!(5, sat_add(2, 3));
    assert_eq!(usize::MAX, sat_add(usize::MAX, 1));
}

#[test]
fn test_parquet_file_num_rows() {
    let dir = temp_dir();
    let path1 = dir.path().join("1.snappy.parquet");
    let path2 = dir.path().join("2.snappy.parquet");
    let path3 = dir.path().join("NOT_A_PARQUET");

    let msg1 = msg(1, 2, 3.3, 4.4, "5", true, vec![0, 0, 2_454_923]);
    let msg2 = msg(11, 22, 33.3, 44.4, "55", false, vec![4_165_425_152, 13, 2_454_923]);
    let msg3 = msg(111, 222, 332.3, 444.4, "555", false, vec![4_165_425_152, 13, 2_454_923]);

    write_simple_messages_parquet(&path1, &[msg1, msg2]);
    write_simple_messages_parquet(&path2, &[msg3]);
    write_garbage(&path3);

    assert_eq!(3, ParquetFile::new(path_string(dir.path())).num_rows());
    assert_eq!(2, ParquetFile::new(path_string(&path1)).num_rows());
    assert_eq!(1, ParquetFile::new(path_string(&path2)).num_rows());
    assert_eq!(0, ParquetFile::new(path_string(&path3)).num_rows());
}

#[test]
fn test_parquet_file_metadata() {
    let dir = temp_dir();
    let empty = temp_dir();
    let path1 = dir.path().join("ok.parquet");
    let path2 = dir.path().join("bad.parquet");

    let msg1 = msg(1, 2, 3.3, 4.4, "5", true, vec![0, 0, 2_454_923]);

    write_simple_messages_parquet(&path1, &[msg1]);
    write_garbage(&path2);

    let result_ok = ParquetFile::new(path_string(&path1)).metadata();
    let result_err = ParquetFile::new(path_string(&path2)).metadata();
    let result_empty = ParquetFile::new(path_string(empty.path())).metadata();

    assert_eq!(result_ok.is_ok(), true);
    assert_eq!(result_err.is_err(), true);
    assert_eq!(result_empty.is_err(), true);

    let message = result_err.err().unwrap().message();
    assert!(message.starts_with(&format!("{} >>> Parquet error:", path2.to_string_lossy())));
    assert!(message.contains("Invalid Parquet file"));

    assert_eq!(
        result_empty.err().unwrap(),
        Error::InvalidParquet(path_string(empty.path()))
    );
}

#[test]
fn test_reader_to_row_iter() {
    let dir = temp_dir();
    let path = dir.path().join("file.parquet");

    let msg1 = msg(1, 2, 3.3, 4.4, "5", true, vec![0, 0, 2_454_923]);
    let msg2 = msg(11, 22, 33.3, 44.4, "55", false, vec![4_165_425_152, 13, 2_454_923]);

    write_simple_messages_parquet(&path, &[msg1, msg2]);

    let fields = vec![String::from("field_int32"), String::from("field_int64")];
    let reader = ParquetFile::new(path_string(dir.path())).with_fields(Some(fields));
    let mut it = reader.iter();
    let mut result = Vec::new();
    while let Some(item) = it.next() {
        if let Ok(row) = item {
            result.push(row);
        }
    }

    assert_eq!(result.len(), 2);
    assert_eq!(result[0], vec!["1", "2"]);
    assert_eq!(result[1], vec!["11", "22"]);
}

#[test]
fn test_reader_to_row_iter_err() {
    let dir = temp_dir();
    let path = dir.path().join("NOT_A_PARQUET");

    write_garbage(&path);

    let parquet = ParquetFile::new(path_string(&path));
    let mut it = parquet.iter();
    let mut result = Vec::new();
    while let Some(item) = it.next() {
        result.push(item);
    }

    assert_eq!(result.len(), 1);
    match &result[0] {
        Err(Error::Parquet(p, m)) => {
            assert_eq!(p, &path_string(&path));
            assert!(m.starts_with("Parquet error:"));
            assert!(m.contains("Invalid Parquet file"));
        },
        other => panic!("expected a decode error, got {:?}", other),
    }
}

#[test]
fn test_reader_field_names() {
    let dir = temp_dir();
    let path = dir.path().join("file.parquet");

    let msg1 = msg(1, 2, 3.3, 4.4, "5", true, vec![0, 0, 2_454_923]);

    write_simple_messages_parquet(&path, &[msg1]);

    let fields = vec![String::from("field_string"), String::from("FIELD_INT32")];

    let result_fields = ParquetFile::new(path_string(dir.path()))
        .with_fields(Some(fields))
        .field_names();

    let result_all = ParquetFile::new(path_string(dir.path())).field_names();

    assert_eq!(
        result_fields.unwrap(),
        vec![String::from("field_string"), String::from("field_int32")]
    );

    assert_eq!(
        result_all.unwrap(),
        vec![
            String::from("field_int32"),
            String::from("field_int64"),
            String::from("field_float"),
            String::from("field_double"),
            String::from("field_string"),
            String::from("field_boolean"),
            String::from("field_timestamp"),
        ]
    );
}

#[test]
fn test_reader_field_names_err() {
    let dir = temp_dir();
    let empty = temp_dir();
    let path = dir.path().join("NOT_A_PARQUET");

    write_garbage(&path);

    let result_bad = ParquetFile::new(path_string(&path)).field_names();
    let result_empty = ParquetFile::new(path_string(empty.path())).field_names();

    let message = result_bad.err().unwrap().message();
    assert!(message.starts_with(&format!("{} >>> Parquet error:", path.to_string_lossy())));
    assert!(message.contains("Invalid Parquet file"));

    assert_eq!(
        result_empty.err().unwrap(),
        Error::InvalidParquet(path_string(empty.path()))
    );
}

#[test]
fn test_reader_field_filter() {
    let dir = temp_dir();
    let path = dir.path().join("file.parquet");

    let msg1 = msg(1, 2, 3.3, 4.4, "odd 1", true, vec![0, 0, 2_454_923]);
    let msg2 = msg(11, 22, 33.3, 44.4, "even 1", false, vec![4_165_425_152, 13, 2_454_923]);
    let msg3 = msg(111, 222, 333.3, 444.4, "odd 2", false, vec![4_165_425_152, 13, 2_454_923]);

    write_simple_messages_parquet(&path, &[msg1, msg2, msg3]);

    let fields = vec![String::from("field_int32"), String::from("field_string")];
    let filters = vec![(
        String::from("field_string"),
        CompiledFilter::compile(&String::from("odd")).unwrap(),
    )];

    let reader = ParquetFile::new(path_string(dir.path()))
        .with_filters(Some(filters))
        .with_fields(Some(fields));
    let mut it = reader.iter();
    let mut result = Vec::new();
    while let Some(item) = it.next() {
        if let Ok(row) = item {
            result.push(row);
        }
    }

    assert_eq!(result.len(), 2);
    assert_eq!(result[0], vec!["1", "\"odd 1\""]);
    assert_eq!(result[1], vec!["111", "\"odd 2\""]);
}

#[test]
fn test_stream_isolates_corrupt_file() {
    // One corrupt file among good ones: every good row arrives and the
    // corrupt file contributes exactly one in-band error item.
    let dir = temp_dir();
    let path1 = dir.path().join("1.parquet");
    let path2 = dir.path().join("2.parquet");
    let path3 = dir.path().join("3.parquet");

    let msg1 = msg(1, 2, 3.3, 4.4, "a", true, vec![0, 0, 2_454_923]);
    let msg2 = msg(11, 22, 33.3, 44.4, "b", false, vec![0, 0, 2_454_923]);

    write_simple_messages_parquet(&path1, &[msg1]);
    write_garbage(&path2);
    write_simple_messages_parquet(&path3, &[msg2]);

    let fields = vec![String::from("field_int32")];
    let reader = ParquetFile::new(path_string(dir.path())).with_fields(Some(fields));
    let mut it = reader.iter();
    let mut rows = Vec::new();
    let mut errors = Vec::new();
    while let Some(item) = it.next() {
        match item {
            Ok(row) => rows.push(row),
            Err(e) => errors.push(e),
        }
    }

    assert_eq!(errors.len(), 1);
    rows.sort();
    assert_eq!(rows, vec![vec!["1"], vec!["11"]]);
}

#[test]
fn test_count_simple_messages() {
    let dir = temp_dir();
    let path = dir.path().join("msg.parquet");

    let msgs = vec![
        msg(1, 11, 111.3, 1111.4, "odd 11111", false, vec![0, 0, 2_454_923]),
        msg(2, 22, 222.3, 2222.4, "even 22222", true, vec![0, 0, 2_454_923]),
    ];
    write_simple_messages_parquet(&path, &msgs);

    let parquet = ParquetFile::new(path_string(&path));
    let count = parquet.num_rows();
    let actual = count_output(count, OutputFormat::Tabular).unwrap();

    assert_eq!(actual, "COUNT\n2\n");
}

#[test]
fn test_count_simple_messages_vertical_format() {
    let dir = temp_dir();
    let path = dir.path().join("msg.parquet");

    let msgs = vec![
        msg(1, 11, 111.3, 1111.4, "odd 11111", false, vec![0, 0, 2_454_923]),
        msg(2, 22, 222.3, 2222.4, "even 22222", true, vec![0, 0, 2_454_923]),
    ];
    write_simple_messages_parquet(&path, &msgs);

    let parquet = ParquetFile::new(path_string(&path));
    let count = parquet.num_rows();
    let actual = count_output(count, OutputFormat::Vertical).unwrap();

    assert_eq!(actual, "\nCOUNT:  2\n");
}

#[test]
fn test_count_simple_messages_csv() {
    let dir = temp_dir();
    let path = dir.path().join("msg.parquet");

    let msgs = vec![
        msg(1, 11, 111.3, 1111.4, "odd 11111", false, vec![0, 0, 2_454_923]),
        msg(2, 22, 222.3, 2222.4, "even 22222", true, vec![0, 0, 2_454_923]),
    ];
    write_simple_messages_parquet(&path, &msgs);

    let parquet = ParquetFile::new(path_string(&path));
    let count = parquet.num_rows();
    let actual = count_output(count, OutputFormat::Csv).unwrap();

    assert_eq!(actual, "COUNT\n2\n");
}

#[test]
fn test_read_simple_messages() {
    let dir = temp_dir();
    let path = dir.path().join("msg.parquet");

    let msgs = vec![
        msg(1, 11, 111.3, 1111.4, "odd 11111", false, vec![0, 0, 2_454_923]),
        msg(2, 22, 222.3, 2222.4, "even 22222", true, vec![0, 0, 2_454_923]),
        msg(3, 33, 333.3, 3333.4, "odd 33333", false, vec![0, 0, 2_454_923]),
    ];
    write_simple_messages_parquet(&path, &msgs);

    let columns = Some(vec![String::from("field_int32"), String::from("field_int64")]);
    let parquet = ParquetFile::new(path_string(&path)).with_fields(columns);
    let actual = read_output(&parquet, 2, OutputFormat::Tabular).unwrap();

    assert_eq!(
        actual,
        "field_int32  field_int64\n1            11\n2            22\n"
    );
}

#[test]
fn test_read_simple_messages_with_filters() {
    let dir = temp_dir();
    let path = dir.path().join("msg.parquet");

    let msgs = vec![
        msg(1, 11, 111.3, 1111.4, "odd 11111", false, vec![0, 0, 2_454_923]),
        msg(2, 22, 222.3, 2222.4, "even 22222", true, vec![0, 0, 2_454_923]),
        msg(3, 33, 333.3, 3333.4, "odd 33333", false, vec![0, 0, 2_454_923]),
    ];
    write_simple_messages_parquet(&path, &msgs);

    let columns = Some(vec![String::from("field_int32"), String::from("field_string")]);
    let filters = vec![(
        String::from("field_string"),
        CompiledFilter::compile(&String::from("odd")).unwrap(),
    )];
    let parquet = ParquetFile::new(path_string(&path))
        .with_fields(columns)
        .with_filters(Some(filters));
    let actual = read_output(&parquet, 500, OutputFormat::Tabular).unwrap();

    assert!(actual.starts_with("field_int32  field_string"));
    assert!(actual.contains("1            \"odd 11111\""));
    assert!(actual.contains("3            \"odd 33333\""));
    assert!(!actual.contains("even"));
}

#[test]
fn test_read_simple_messages_with_format_csv() {
    let dir = temp_dir();
    let path = dir.path().join("msg.parquet");

    let msgs = vec![
        msg(1, 11, 111.3, 1111.4, "odd 11111", false, vec![0, 0, 2_454_923]),
        msg(2, 22, 222.3, 2222.4, "even 22222", true, vec![0, 0, 2_454_923]),
    ];
    write_simple_messages_parquet(&path, &msgs);

    let columns = Some(vec![String::from("field_int32"), String::from("field_string")]);
    let parquet = ParquetFile::new(path_string(&path)).with_fields(columns);
    let actual = read_output(&parquet, 500, OutputFormat::Csv).unwrap();

    assert_eq!(
        actual,
        "field_int32,field_string\n1,\"odd 11111\"\n2,\"even 22222\"\n"
    );
}

#[test]
fn test_simple_messages_frequency() {
    let dir = temp_dir();
    let path = dir.path().join("msg.parquet");

    let msgs = vec![
        msg(1, 11, 111.3, 1111.4, "odd 11111", false, vec![0, 0, 2_454_923]),
        msg(2, 22, 222.3, 2222.4, "even 22222", true, vec![0, 0, 2_454_923]),
        msg(3, 33, 333.3, 3333.4, "odd 33333", false, vec![0, 0, 2_454_923]),
        msg(4, 44, 444.3, 4444.4, "even 44444", true, vec![0, 0, 2_454_923]),
    ];
    write_simple_messages_parquet(&path, &msgs);

    let columns = Some(vec![
        String::from("field_int32"),
        String::from("field_boolean"),
    ]);
    let parquet = ParquetFile::new(path_string(&path)).with_fields(columns);
    let actual = frequency_output(&parquet, 3, OutputFormat::Tabular).unwrap();

    assert_eq!(6, actual.lines().count());
    assert!(actual.starts_with("FIELD          VALUE  COUNT"));
    assert!(actual.contains("field_int32    1      1"));
    assert!(actual.contains("field_int32    2      1"));
    assert!(actual.contains("field_int32    3      1"));
    assert!(actual.contains("field_boolean  true   1"));
    assert!(actual.contains("field_boolean  false  2"));
}

#[test]
fn test_simple_messages_frequency_vertical_format() {
    let dir = temp_dir();
    let path = dir.path().join("msg.parquet");

    let msgs: Vec<SimpleMessage> = (1..=9)
        .map(|i| {
            msg(
                i,
                i as i64 * 11,
                i as f32,
                i as f64,
                if i % 2 != 0 { "odd" } else { "even" },
                i % 2 == 0,
                vec![0, 0, 2_454_923],
            )
        })
        .collect();
    write_simple_messages_parquet(&path, &msgs);

    let columns = Some(vec![String::from("field_boolean")]);
    let parquet = ParquetFile::new(path_string(&path)).with_fields(columns);
    let actual = frequency_output(&parquet, 500, OutputFormat::Vertical).unwrap();

    assert_eq!(8, actual.lines().count());
    assert!(actual.contains(
        &vec!["", "FIELD:  field_boolean", "VALUE:  true", "COUNT:  4", ""].join("\n")
    ));
    assert!(actual.contains(
        &vec!["", "FIELD:  field_boolean", "VALUE:  false", "COUNT:  5", ""].join("\n")
    ));
}

#[test]
fn test_read_simple_messages_with_format_vertical() {
    let dir = temp_dir();
    let path = dir.path().join("msg.parquet");

    let msgs = vec![
        msg(1, 11, 111.3, 1111.4, "odd 11111", false, vec![0, 0, 2_454_923]),
        msg(2, 22, 222.3, 2222.4, "even 22222", true, vec![0, 0, 2_454_923]),
    ];
    write_simple_messages_parquet(&path, &msgs);

    let columns = Some(vec![String::from("field_int32"), String::from("field_int64")]);
    let parquet = ParquetFile::new(path_string(&path)).with_fields(columns);
    let actual = read_output(&parquet, 500, OutputFormat::Vertical).unwrap();

    assert!(actual.contains("field_int32:  1"));
    assert!(actual.contains("field_int64:  11"));
    assert!(actual.contains("field_int32:  2"));
    assert!(actual.contains("field_int64:  22"));
}

#[test]
fn test_simple_messages_frequency_with_filters() {
    let dir = temp_dir();
    let path = dir.path().join("msg.parquet");

    let msgs = vec![
        msg(1, 11, 111.3, 1111.4, "odd 11111", false, vec![0, 0, 2_454_923]),
        msg(2, 22, 222.3, 2222.4, "even 22222", true, vec![0, 0, 2_454_923]),
        msg(3, 33, 333.3, 3333.4, "odd 33333", false, vec![0, 0, 2_454_923]),
    ];
    write_simple_messages_parquet(&path, &msgs);

    let columns = Some(vec![
        String::from("field_int32"),
        String::from("field_boolean"),
    ]);
    let filters = vec![(
        String::from("field_boolean"),
        CompiledFilter::compile(&String::from("false")).unwrap(),
    )];
    let parquet = ParquetFile::new(path_string(&path))
        .with_fields(columns)
        .with_filters(Some(filters));
    let actual = frequency_output(&parquet, 500, OutputFormat::Tabular).unwrap();

    assert_eq!(4, actual.lines().count());
    assert!(actual.starts_with("FIELD          VALUE  COUNT"));
    assert!(actual.contains("field_int32    1      1"));
    assert!(actual.contains("field_int32    3      1"));
    assert!(actual.contains("field_boolean  false  2"));
}

#[test]
fn test_simple_messages_frequency_vertical_csv() {
    let dir = temp_dir();
    let path = dir.path().join("msg.parquet");

    let msgs = vec![
        msg(1, 11, 1.11, 1.111, "odd", true, vec![0, 0, 2_454_923]),
        msg(2, 22, 2.22, 2.222, "even", true, vec![0, 0, 2_454_923]),
        msg(3, 33, 3.33, 3.333, "odd", true, vec![0, 0, 2_454_923]),
    ];
    write_simple_messages_parquet(&path, &msgs);

    let columns = Some(vec![String::from("field_string")]);
    let parquet = ParquetFile::new(path_string(&path)).with_fields(columns);
    let actual = frequency_output(&parquet, 500, OutputFormat::Csv).unwrap();

    assert_eq!(3, actual.lines().count());
    assert!(actual.starts_with("FIELD,VALUE,COUNT"));
    assert!(actual.contains("field_string,\"odd\",2"));
    assert!(actual.contains("field_string,\"even\",1"));
}

#[test]
fn test_sample_simple_messages_with_format_vertical() {
    let dir = temp_dir();
    let path = dir.path().join("msg.parquet");

    let msgs = vec![
        msg(1, 11, 111.3, 1111.4, "odd 11111", false, vec![0, 0, 2_454_923]),
        msg(2, 22, 222.3, 2222.4, "even 22222", true, vec![0, 0, 2_454_923]),
    ];
    write_simple_messages_parquet(&path, &msgs);

    let columns = Some(vec![
        String::from("field_boolean"),
        String::from("field_int32"),
    ]);
    let parquet = ParquetFile::new(path_string(&path)).with_fields(columns);
    let actual = sample_output(&parquet, 100, OutputFormat::Vertical).unwrap();

    assert!(actual.contains("field_boolean:  false"));
    assert!(actual.contains("field_int32:    1"));
    assert!(actual.contains("field_boolean:  true"));
    assert!(actual.contains("field_int32:    2"));
}

#[test]
fn test_sample_simple_messages_columns() {
    let dir = temp_dir();
    let path = dir.path().join("msg.parquet");

    let msgs = vec![
        msg(1, 11, 111.3, 1111.4, "odd 11111", false, vec![0, 0, 2_454_923]),
        msg(2, 22, 222.3, 2222.4, "even 22222", true, vec![0, 0, 2_454_923]),
    ];
    write_simple_messages_parquet(&path, &msgs);

    let columns = Some(vec![
        String::from("field_boolean"),
        String::from("field_int32"),
    ]);
    let parquet = ParquetFile::new(path_string(&path)).with_fields(columns);
    let actual = sample_output(&parquet, 100, OutputFormat::Tabular).unwrap();

    assert_eq!(
        actual,
        "field_boolean  field_int32\nfalse          1\ntrue           2\n"
    );
}

#[test]
fn test_schema_empty_dataset_is_an_error() {
    let empty = temp_dir();

    let parquet = ParquetFile::new(path_string(empty.path()));
    let result = parquet.metadata();

    assert_eq!(
        result.err().unwrap(),
        Error::InvalidParquet(path_string(empty.path()))
    );
}
