use north_db::schema::{
    ColumnSchema, DataType, RowError, SchemaError, TableSchema, Value, ValueRef, MAX_ROW_SIZE,
};
use north_db::storage::PAGE_SIZE;

fn valid_schema() -> TableSchema {
    TableSchema::new(
        "users",
        vec![
            ColumnSchema::primary_key("id", DataType::Int),
            ColumnSchema::required("name", DataType::Text),
            ColumnSchema::nullable("email", DataType::Text),
        ],
    )
    .unwrap()
}

fn schema() -> TableSchema {
    TableSchema::new(
        "items",
        vec![
            ColumnSchema::primary_key("id", DataType::Int),
            ColumnSchema::required("score", DataType::Float),
            ColumnSchema::required("active", DataType::Bool),
            ColumnSchema::required("name", DataType::Text),
            ColumnSchema::nullable("metadata", DataType::Bytes),
        ],
    )
    .unwrap()
}

fn float(value: f64) -> Value {
    Value::Float(value.to_bits())
}

#[test]
fn requires_exactly_one_non_null_primary_key() {
    assert!(matches!(
        TableSchema::new("users", vec![ColumnSchema::required("id", DataType::Int)]),
        Err(SchemaError::MissingPrimaryKey)
    ));
    assert!(matches!(
        TableSchema::new(
            "users",
            vec![
                ColumnSchema::primary_key("id", DataType::Int),
                ColumnSchema::primary_key("email", DataType::Text),
            ]
        ),
        Err(SchemaError::MultiplePrimaryKeys)
    ));
}

#[test]
fn rejects_duplicate_and_invalid_identifiers() {
    assert!(matches!(
        TableSchema::new(
            "users",
            vec![
                ColumnSchema::primary_key("id", DataType::Int),
                ColumnSchema::required("id", DataType::Text),
            ]
        ),
        Err(SchemaError::DuplicateColumn(name)) if name == "id"
    ));
    assert!(matches!(
        TableSchema::new(
            "not valid",
            vec![ColumnSchema::primary_key("id", DataType::Int)]
        ),
        Err(SchemaError::InvalidIdentifier { kind: "table", .. })
    ));
}

#[test]
fn schema_encoding_round_trips_and_recompiles_layout() {
    let schema = valid_schema();
    let decoded = TableSchema::decode(&schema.encode()).unwrap();
    assert_eq!(decoded, schema);
    assert_eq!(decoded.primary_key().name(), "id");
    assert_eq!(decoded.column_index("email"), Some(2));
}

#[test]
fn rejects_truncated_and_unknown_schema_encodings() {
    let schema = valid_schema();
    let encoded = schema.encode();
    assert!(matches!(
        TableSchema::decode(&encoded[..encoded.len() - 1]),
        Err(SchemaError::CorruptEncoding(_))
    ));

    let mut unknown_type = encoded;
    let first_type_offset = 8 + 2 + "users".len() + 2 + "id".len();
    unknown_type[first_type_offset] = 255;
    assert!(matches!(
        TableSchema::decode(&unknown_type),
        Err(SchemaError::CorruptEncoding("unknown column type tag"))
    ));
}

#[test]
fn schema_encoding_is_stable() {
    let schema = TableSchema::new(
        "ab",
        vec![
            ColumnSchema::primary_key("k", DataType::Int),
            ColumnSchema::nullable("v", DataType::Bytes),
        ],
    )
    .unwrap();
    let expected = vec![
        b'N', b'S', b'C', b'H', 1, 0, 2, 0, 2, 0, b'a', b'b', 1, 0, b'k', 1, 2, 1, 0, b'v', 5, 1,
    ];
    assert_eq!(schema.encode(), expected);
    assert_eq!(TableSchema::decode(&expected).unwrap().encode(), expected);
}

#[test]
fn rejects_schemas_without_or_with_too_many_columns() {
    assert_eq!(TableSchema::new("t", vec![]), Err(SchemaError::NoColumns));
    let mut columns = vec![ColumnSchema::primary_key("id", DataType::Int)];
    for index in 0..1024 {
        columns.push(ColumnSchema::required(&format!("c{index}"), DataType::Bool));
    }
    assert_eq!(
        TableSchema::new("t", columns.clone()),
        Err(SchemaError::TooManyColumns { count: 1025, maximum: 1024 })
    );
    columns.pop();
    assert_eq!(TableSchema::new("t", columns).unwrap().columns().len(), 1024);
}

#[test]
fn rejects_schemas_that_are_too_wide() {
    let mut columns = vec![ColumnSchema::primary_key("id", DataType::Int)];
    for index in 0..1023 {
        columns.push(ColumnSchema::required(&format!("c{index}"), DataType::Text));
    }
    assert_eq!(
        TableSchema::new("t", columns),
        Err(SchemaError::SchemaTooWide { minimum_row_size: 1 + 128 + 8192, maximum: 8152 })
    );
    assert_eq!(MAX_ROW_SIZE, 8152);
}

fn invalid_kind(table: &str, column: &str) -> Option<&'static str> {
    match TableSchema::new(table, vec![ColumnSchema::primary_key(column, DataType::Int)]) {
        Err(SchemaError::InvalidIdentifier { kind, .. }) => Some(kind),
        _ => None,
    }
}

#[test]
fn identifiers_are_letters_digits_and_underscores() {
    assert_eq!(invalid_kind("_", "_9zZ"), None);
    assert_eq!(invalid_kind("", "id"), Some("table"));
    assert_eq!(invalid_kind("9a", "id"), Some("table"));
    assert_eq!(invalid_kind("a", "b-c"), Some("column"));
    assert_eq!(invalid_kind("a", "\u{e4}"), Some("column"));
    let longest = "x".repeat(255);
    assert_eq!(invalid_kind(&longest, &longest), None);
    assert_eq!(invalid_kind("a", &"x".repeat(256)), Some("column"));
}

#[test]
fn a_nullable_primary_key_cannot_be_decoded() {
    let mut encoded = TableSchema::new("t", vec![ColumnSchema::primary_key("id", DataType::Int)])
        .unwrap()
        .encode();
    let last = encoded.len() - 1;
    encoded[last] = 3;
    assert_eq!(
        TableSchema::decode(&encoded),
        Err(SchemaError::NullablePrimaryKey("id".to_owned()))
    );
    encoded[last] = 4;
    assert_eq!(
        TableSchema::decode(&encoded),
        Err(SchemaError::CorruptEncoding("unknown column flags"))
    );
}

#[test]
fn schema_decoding_names_what_is_wrong() {
    let encoded = valid_schema().encode();
    let reason = |bytes: &[u8]| match TableSchema::decode(bytes) {
        Err(SchemaError::CorruptEncoding(reason)) => reason,
        _ => "none",
    };
    assert_eq!(reason(&encoded[..3]), "truncated schema encoding");
    let mut bytes = encoded.clone();
    bytes[0] = b'X';
    assert_eq!(reason(&bytes), "invalid schema magic");
    let mut bytes = encoded.clone();
    bytes[4] = 2;
    assert_eq!(reason(&bytes), "unsupported schema format version");
    let mut bytes = encoded.clone();
    bytes[6] = 0;
    assert_eq!(reason(&bytes), "invalid schema column count");
    let mut bytes = encoded.clone();
    bytes[10] = 0xff;
    assert_eq!(reason(&bytes), "schema identifier is not UTF-8");
    let mut bytes = encoded.clone();
    bytes.push(0);
    assert_eq!(reason(&bytes), "trailing bytes after schema declaration");
}

#[test]
fn text_outside_ascii_is_decoded_before_it_is_judged() {
    let mut encoded = vec![b'N', b'S', b'C', b'H', 1, 0, 1, 0, 2, 0];
    encoded.extend_from_slice("\u{e4}".as_bytes());
    encoded.extend_from_slice(&[1, 0, b'k', 1, 2]);
    assert_eq!(
        TableSchema::decode(&encoded),
        Err(SchemaError::InvalidIdentifier { kind: "table", identifier: "\u{e4}".to_owned() })
    );
}

#[test]
fn schemas_answer_questions_about_columns() {
    let schema = valid_schema();
    assert_eq!(schema.name(), "users");
    assert_eq!(schema.primary_key_index(), 0);
    assert_eq!(schema.column_index("missing"), None);
    assert_eq!(schema.column(3), None);
    let email = schema.column(2).unwrap();
    assert_eq!(email.name(), "email");
    assert_eq!(email.data_type(), DataType::Text);
    assert!(email.is_nullable());
    assert!(!email.is_primary_key());
    assert_eq!(schema.layout().null_bitmap_size(), 1);
    assert_eq!(schema.layout().minimum_row_size(), 1 + 1 + 24);
    assert_eq!(schema.layout().column_offset(2), Some(18));
    assert_eq!(schema.layout().column_offset(3), None);
    assert_eq!(DataType::Float.name(), "float");
}

#[test]
fn fixed_encoding_is_stable_and_little_endian() {
    let schema = TableSchema::new(
        "flags",
        vec![
            ColumnSchema::primary_key("id", DataType::Int),
            ColumnSchema::required("active", DataType::Bool),
        ],
    )
    .unwrap();
    let row = schema
        .encode_row(&[Value::Int(42), Value::Bool(true)])
        .unwrap();
    assert_eq!(row, vec![1, 0, 42, 0, 0, 0, 0, 0, 0, 0, 1]);
}

#[test]
fn round_trips_all_types_and_borrows_variable_values() {
    let schema = schema();
    let row = schema
        .encode_row(&[
            Value::Int(7),
            float(4.5),
            Value::Bool(true),
            Value::Text("north".to_owned()),
            Value::Bytes(vec![1, 2, 3]),
        ])
        .unwrap();
    assert_eq!(
        schema.decode_row(&row).unwrap(),
        vec![
            ValueRef::Int(7),
            ValueRef::Float(4.5f64.to_bits()),
            ValueRef::Bool(true),
            ValueRef::Text("north"),
            ValueRef::Bytes(&[1, 2, 3]),
        ]
    );
}

#[test]
fn supports_null_and_projected_decoding() {
    let schema = schema();
    let row = schema
        .encode_row(&[
            Value::Int(9),
            float(1.0),
            Value::Bool(false),
            Value::Text("potato".to_owned()),
            Value::Null,
        ])
        .unwrap();
    assert_eq!(
        schema.project_row(&row, &[3, 0, 4]).unwrap(),
        vec![ValueRef::Text("potato"), ValueRef::Int(9), ValueRef::Null]
    );
    assert_eq!(schema.primary_key_value(&row).unwrap(), ValueRef::Int(9));
}

#[test]
fn rejects_wrong_types_counts_and_required_nulls() {
    let schema = schema();
    assert!(matches!(
        schema.encode_row(&[Value::Int(1)]),
        Err(RowError::WrongValueCount { .. })
    ));
    assert!(matches!(
        schema.encode_row(&[
            Value::Text("wrong".into()),
            float(1.0),
            Value::Bool(true),
            Value::Text("name".into()),
            Value::Null,
        ]),
        Err(RowError::TypeMismatch { column, .. }) if column == "id"
    ));
    assert!(matches!(
        schema.encode_row(&[
            Value::Null,
            float(1.0),
            Value::Bool(true),
            Value::Text("name".into()),
            Value::Null,
        ]),
        Err(RowError::NullNotAllowed { column }) if column == "id"
    ));
}

#[test]
fn rejects_noncanonical_or_invalid_row_bytes() {
    let schema = schema();
    let mut row = schema
        .encode_row(&[
            Value::Int(1),
            float(1.0),
            Value::Bool(true),
            Value::Text("valid".into()),
            Value::Null,
        ])
        .unwrap();
    let bool_offset = schema.layout().column_offset(2).unwrap();
    row[bool_offset] = 3;
    assert!(matches!(
        schema.decode_row(&row),
        Err(RowError::Corrupt("boolean column is not zero or one"))
    ));

    row[bool_offset] = 1;
    let text_offset = schema.layout().column_offset(3).unwrap();
    row[text_offset..text_offset + 4].copy_from_slice(&0_u32.to_le_bytes());
    assert!(matches!(
        schema.decode_row(&row),
        Err(RowError::Corrupt(
            "variable column payload is not canonical"
        ))
    ));
}

#[test]
fn rejects_rows_too_large_for_one_heap_page() {
    let schema = TableSchema::new(
        "documents",
        vec![
            ColumnSchema::primary_key("id", DataType::Int),
            ColumnSchema::required("body", DataType::Text),
        ],
    )
    .unwrap();
    assert!(matches!(
        schema.encode_row(&[Value::Int(1), Value::Text("x".repeat(PAGE_SIZE))]),
        Err(RowError::RowTooLarge { .. })
    ));
}

#[test]
fn rows_may_be_as_large_as_a_page_allows() {
    let schema = TableSchema::new(
        "documents",
        vec![
            ColumnSchema::primary_key("id", DataType::Int),
            ColumnSchema::required("body", DataType::Bytes),
        ],
    )
    .unwrap();
    let largest = MAX_ROW_SIZE - 18;
    let row = schema.encode_row(&[Value::Int(1), Value::Bytes(vec![9; largest])]).unwrap();
    assert_eq!(row.len(), MAX_ROW_SIZE);
    assert_eq!(
        schema.encode_row(&[Value::Int(1), Value::Bytes(vec![9; largest + 1])]),
        Err(RowError::RowTooLarge { size: 8153, maximum: 8152 })
    );
}

#[test]
fn extreme_integers_and_floats_keep_their_bits() {
    let schema = TableSchema::new(
        "numbers",
        vec![
            ColumnSchema::primary_key("id", DataType::Int),
            ColumnSchema::required("value", DataType::Float),
        ],
    )
    .unwrap();
    for (number, value) in [
        (i64::MIN, f64::NAN),
        (i64::MAX, -0.0),
        (-1, f64::NEG_INFINITY),
        (0, f64::MIN_POSITIVE),
    ] {
        let row = schema.encode_row(&[Value::Int(number), float(value)]).unwrap();
        assert_eq!(row[2..10], number.to_le_bytes());
        assert_eq!(row[10..18], value.to_bits().to_le_bytes());
        let values = schema.decode_row(&row).unwrap();
        assert_eq!(values.len(), 2);
        assert_eq!(values[0], ValueRef::Int(number));
        assert!(matches!(values[1], ValueRef::Float(bits) if bits == value.to_bits()));
    }
}

fn row_fault(row: &[u8]) -> &'static str {
    match schema().decode_row(row) {
        Err(RowError::Corrupt(reason)) => reason,
        _ => "none",
    }
}

#[test]
fn row_validation_names_what_is_wrong() {
    let schema = schema();
    let row = schema
        .encode_row(&[
            Value::Int(1),
            float(1.0),
            Value::Bool(true),
            Value::Text("abc".into()),
            Value::Null,
        ])
        .unwrap();
    assert_eq!(row_fault(&row), "none");
    assert_eq!(row_fault(&row[..20]), "row is shorter than its fixed layout");
    assert_eq!(row_fault(&vec![1; 8153]), "row exceeds maximum page payload");
    let mut bytes = row.clone();
    bytes[0] = 2;
    assert_eq!(row_fault(&bytes), "unsupported row format version");
    let mut bytes = row.clone();
    bytes[1] |= 1;
    assert_eq!(row_fault(&bytes), "required column is encoded as null");
    let mut bytes = row.clone();
    bytes[schema.layout().column_offset(4).unwrap()] = 1;
    assert_eq!(row_fault(&bytes), "null column has nonzero fixed bytes");
    let mut bytes = row.clone();
    bytes[schema.layout().column_offset(3).unwrap() + 4] = 200;
    assert_eq!(row_fault(&bytes), "variable column exceeds row boundary");
    let mut bytes = row.clone();
    let last = bytes.len() - 1;
    bytes[last] = 0xff;
    assert_eq!(row_fault(&bytes), "text column is not UTF-8");
    let mut bytes = row.clone();
    bytes.push(0);
    assert_eq!(row_fault(&bytes), "row has trailing or unreferenced payload");
}

#[test]
fn projections_check_columns_first() {
    let schema = schema();
    assert_eq!(
        schema.project_row(&[], &[0, 5, 9]),
        Err(RowError::ColumnOutOfBounds { index: 5, column_count: 5 })
    );
    assert_eq!(
        schema.project_row(&[], &[0]),
        Err(RowError::Corrupt("row is shorter than its fixed layout"))
    );
}

#[test]
fn spare_bitmap_bits_are_read_but_not_written() {
    let schema = TableSchema::new("t", vec![ColumnSchema::primary_key("id", DataType::Int)]).unwrap();
    let mut row = schema.encode_row(&[Value::Int(5)]).unwrap();
    assert_eq!(row[1], 0);
    row[1] = 0x80;
    assert_eq!(schema.decode_row(&row).unwrap(), vec![ValueRef::Int(5)]);
}

#[test]
fn borrowed_values_become_owned() {
    assert_eq!(ValueRef::Null.to_owned(), Value::Null);
    assert_eq!(ValueRef::Int(-3).to_owned(), Value::Int(-3));
    assert_eq!(ValueRef::Float(1.5f64.to_bits()).to_owned(), float(1.5));
    assert_eq!(ValueRef::Bool(true).to_owned(), Value::Bool(true));
    assert_eq!(ValueRef::Text("\u{20ac}").to_owned(), Value::Text("\u{20ac}".to_owned()));
    assert_eq!(ValueRef::Bytes(&[1, 2]).to_owned(), Value::Bytes(vec![1, 2]));
}

#[test]
fn decoded_rows_encode_to_the_same_bytes() {
    let schema = schema();
    let row = schema
        .encode_row(&[
            Value::Int(-7),
            float(0.25),
            Value::Bool(false),
            Value::Text("gr\u{fc}n".into()),
            Value::Bytes(vec![0, 255]),
        ])
        .unwrap();
    let values: Vec<Value> =
        schema.decode_row(&row).unwrap().into_iter().map(|value| value.to_owned()).collect();
    assert_eq!(schema.encode_row(&values).unwrap(), row);
}

#[test]
fn values_are_equal_as_floats_are() {
    let floats = [
        0.0,
        -0.0,
        1.5,
        -1.5,
        f64::MIN_POSITIVE,
        f64::from_bits(1),
        f64::MAX,
        f64::INFINITY,
        f64::NEG_INFINITY,
        f64::NAN,
        -f64::NAN,
        f64::from_bits(0x7ff0_0000_0000_0001),
    ];
    for left in floats {
        for right in floats {
            let (a, b) = (left.to_bits(), right.to_bits());
            assert_eq!(Value::Float(a) == Value::Float(b), left == right);
            assert_eq!(ValueRef::Float(a) == ValueRef::Float(b), left == right);
        }
    }
}

#[test]
fn values_of_different_kinds_or_contents_differ() {
    let values = [
        Value::Null,
        Value::Int(0),
        Value::Int(1),
        Value::Float(0),
        Value::Bool(false),
        Value::Bool(true),
        Value::Text(String::new()),
        Value::Text("a".to_owned()),
        Value::Bytes(Vec::new()),
        Value::Bytes(vec![97]),
    ];
    let borrowed = [
        ValueRef::Null,
        ValueRef::Int(0),
        ValueRef::Int(1),
        ValueRef::Float(0),
        ValueRef::Bool(false),
        ValueRef::Bool(true),
        ValueRef::Text(""),
        ValueRef::Text("a"),
        ValueRef::Bytes(&[]),
        ValueRef::Bytes(&[97]),
    ];
    for i in 0..values.len() {
        for j in 0..values.len() {
            assert_eq!(values[i] == values[j], i == j);
            assert_eq!(borrowed[i] == borrowed[j], i == j);
        }
    }
}

#[test]
fn projections_keep_order_and_repeats() {
    let schema = valid_schema();
    let values = [Value::Int(7), Value::Text("Ada".to_owned()), Value::Null];
    let row = schema.encode_row(&values).unwrap();
    let listed = [2, 0, 1, 0];
    let projected = schema.project_row(&row, &listed).unwrap();
    assert_eq!(projected.len(), 4);
    for (value, index) in projected.into_iter().zip(listed) {
        assert_eq!(value.to_owned(), values[index]);
    }
    assert_eq!(
        schema.project_row(&row, &[1, 4, 9]),
        Err(RowError::ColumnOutOfBounds { index: 4, column_count: 3 })
    );
}
