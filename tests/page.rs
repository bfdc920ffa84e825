use oxidb::{Column, ColumnValue, DataType, Page, PAGE_HEADER_SIZE, PAGE_SIZE};

#[test]
fn page_test_page_default() {
    let columns: Vec<Column> = vec![];
    let page = Page::new(&columns);

    assert_eq!(page.header.page_size, PAGE_SIZE);
    assert_eq!(page.header.free_space, PAGE_SIZE - PAGE_HEADER_SIZE);
}

#[test]
fn page_test_page_insert() {
    let columns: Vec<Column> = vec![
        Column::new(
            "uint".to_string(),
            DataType::Integer {
                bytes: 8,
                signed: false,
            },
            true,
        ),
        Column::new(
            "int".to_string(),
            DataType::Integer {
                bytes: 8,
                signed: true,
            },
            true,
        ),
        Column::new("string".to_string(), DataType::String(8), true),
    ];

    let mut page = Page::new(&columns);

    let cvs: Vec<_> = "1 -1 string"
        .split(' ')
        .map(|cv| match cv.parse::<u64>() {
            Err(_) => match cv.parse::<i64>() {
                Err(_) => ColumnValue::StringLiteral(cv.into()),
                Ok(id) => ColumnValue::SignedInteger(-id),
            },
            Ok(id) => ColumnValue::UnsignedInteger(id),
        })
        .collect();

    let rows: Vec<Vec<ColumnValue>> = vec![cvs.clone(); 3];

    for r in &rows {
        assert!(page.insert(r).is_ok());
    }

    let row_size = 8 + 8 + 8;
    let pointer_size = 4;

    assert_eq!(
        page.header.free_space,
        PAGE_SIZE - PAGE_HEADER_SIZE - (row_size + pointer_size) * rows.len()
    );

    assert_eq!(page.header.row_count, rows.len());
}
