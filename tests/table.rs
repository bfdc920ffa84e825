use oxidb::{
    encode_row_bytes, decode_row_values, types_of, Column, ColumnInfo, ColumnValue, DataType, Page,
    PageHeader, StorageError, Table, MAX_PAGES, PAGE_FLAG_DIRTY, PAGE_HEADER_SIZE,
    PAGE_INITIAL_FREE_SIZE, PAGE_SIZE, ROW_POINTER_SIZE,
};

fn people() -> Vec<Column> {
    vec![
        Column::new(
            "id".to_string(),
            DataType::Integer { signed: false, bytes: 8 },
            true,
        ),
        Column::new("first_name".to_string(), DataType::String(8), true),
        Column::new("last_name".to_string(), DataType::String(8), true),
    ]
}

fn person(id: u64, first: &str, last: &str) -> Vec<ColumnValue> {
    vec![
        ColumnValue::UnsignedInteger(id),
        ColumnValue::StringLiteral(first.to_string()),
        ColumnValue::StringLiteral(last.to_string()),
    ]
}

fn wide(width: usize) -> Vec<Column> {
    vec![Column::new("blob".to_string(), DataType::String(width), false)]
}

fn blob(s: &str) -> Vec<ColumnValue> {
    vec![ColumnValue::StringLiteral(s.to_string())]
}

#[test]
fn header_size_is_the_header_struct() {
    assert_eq!(std::mem::size_of::<PageHeader>(), PAGE_HEADER_SIZE);
    assert_eq!(PAGE_INITIAL_FREE_SIZE, PAGE_SIZE - PAGE_HEADER_SIZE);
}

#[test]
fn default_page_is_empty_and_dirty() {
    let page = Page::default();
    assert_eq!(page.header.flags.bits, PAGE_FLAG_DIRTY);
    assert_eq!(page.get_row_count(), 0);
    assert_eq!(page.get_page_size(), PAGE_SIZE);
    assert_eq!(page.get_free_space(), PAGE_INITIAL_FREE_SIZE);
}

#[test]
fn column_info_reports_fields() {
    let c = Column::new("age".to_string(), DataType::Integer { signed: false, bytes: 1 }, false);
    assert_eq!(c.get_name(), "age");
    assert_eq!(*c.get_data_type(), DataType::Integer { signed: false, bytes: 1 });
}

#[test]
fn free_space_after_inserts() {
    let columns = people();
    let mut page = Page::new(&columns);
    let row_size = 24;
    for n in 1..=5 {
        assert_eq!(page.insert(&person(n, "ann", "lee")), Ok(()));
        assert_eq!(
            page.get_free_space(),
            PAGE_SIZE - PAGE_HEADER_SIZE - (n as usize) * (row_size + ROW_POINTER_SIZE)
        );
    }
    assert_eq!(page.offsets, vec![(0, 24), (24, 24), (48, 24), (72, 24), (96, 24)]);
    assert_eq!(page.data.len(), 5 * row_size);
}

#[test]
fn page_iterates_in_insertion_order() {
    let columns = people();
    let mut page = Page::new(&columns);
    let rows = vec![person(1, "ann", "lee"), person(2, "bo", "kim"), person(3, "cy", "ng")];
    for r in &rows {
        assert_eq!(page.insert(r), Ok(()));
    }
    assert_eq!(page.iter(), rows);
}

#[test]
fn full_page_refuses_row() {
    let columns = wide(4000);
    let mut page = Page::new(&columns);
    assert_eq!(page.insert(&blob("first")), Ok(()));
    let free = page.get_free_space();
    assert!(free < 4000 + ROW_POINTER_SIZE);
    assert_eq!(page.insert(&blob("second")), Err(StorageError::PageFull));
    assert_eq!(page.get_row_count(), 1);
    assert_eq!(page.get_free_space(), free);
    assert_eq!(page.data.len(), 4000);
}

#[test]
fn page_refuses_wrong_arity() {
    let columns = people();
    let mut page = Page::new(&columns);
    assert_eq!(
        page.insert(&[ColumnValue::UnsignedInteger(1)]),
        Err(StorageError::ArityMismatch)
    );
    assert_eq!(page.get_row_count(), 0);
}

#[test]
fn table_iterates_in_insertion_order() {
    let mut table = Table::new("people".to_string(), people());
    let rows = vec![person(1, "ann", "lee"), person(2, "bo", "kim"), person(3, "cy", "ng")];
    for r in &rows {
        assert_eq!(table.insert(r), Ok(()));
    }
    assert_eq!(table.iter(), rows);
}

#[test]
fn table_refuses_wrong_arity_unchanged() {
    let mut table = Table::new("people".to_string(), people());
    assert_eq!(table.insert(&person(1, "ann", "lee")), Ok(()));
    let data_before = table.pages[0].data.clone();
    let offsets_before = table.pages[0].offsets.clone();
    let free_before = table.pages[0].get_free_space();
    let short = vec![ColumnValue::UnsignedInteger(2), ColumnValue::StringLiteral("bo".to_string())];
    assert_eq!(table.insert(&short), Err(StorageError::ArityMismatch));
    let long = vec![
        ColumnValue::UnsignedInteger(2),
        ColumnValue::StringLiteral("bo".to_string()),
        ColumnValue::StringLiteral("kim".to_string()),
        ColumnValue::UnsignedInteger(9),
    ];
    assert_eq!(table.insert(&long), Err(StorageError::ArityMismatch));
    assert_eq!(table.pages.len(), 1);
    assert_eq!(table.pages[0].data, data_before);
    assert_eq!(table.pages[0].offsets, offsets_before);
    assert_eq!(table.pages[0].get_free_space(), free_before);
    assert_eq!(table.iter(), vec![person(1, "ann", "lee")]);
}

#[test]
fn table_refuses_oversized_text_unchanged() {
    let mut table = Table::new("people".to_string(), people());
    assert_eq!(
        table.insert(&person(1, "maximilian", "lee")),
        Err(StorageError::ValueTooLarge)
    );
    assert_eq!(table.pages.len(), 0);
    assert_eq!(table.insert(&person(1, "ann", "lee")), Ok(()));
    assert_eq!(
        table.insert(&person(2, "bo", "kimberlyann")),
        Err(StorageError::ValueTooLarge)
    );
    assert_eq!(table.pages[0].data.len(), 24);
    assert_eq!(table.pages[0].get_row_count(), 1);
}

#[test]
fn table_reports_first_bad_column() {
    let mut table = Table::new("people".to_string(), people());
    let row = vec![
        ColumnValue::SignedInteger(1),
        ColumnValue::StringLiteral("much too long".to_string()),
        ColumnValue::StringLiteral("x".to_string()),
    ];
    assert_eq!(table.insert(&row), Err(StorageError::TypeMismatch));
}

#[test]
fn table_allocates_pages_in_order() {
    let mut table = Table::new("blobs".to_string(), wide(2000));
    let rows: Vec<Vec<ColumnValue>> = vec![blob("a"), blob("b"), blob("c"), blob("d"), blob("e")];
    for r in &rows {
        assert_eq!(table.insert(r), Ok(()));
    }
    assert_eq!(table.pages.len(), 3);
    assert_eq!(table.pages[0].get_row_count(), 2);
    assert_eq!(table.pages[1].get_row_count(), 2);
    assert_eq!(table.pages[2].get_row_count(), 1);
    assert_eq!(table.iter(), rows);
}

#[test]
fn table_storage_full_at_max_pages() {
    let mut table = Table::new("blobs".to_string(), wide(4000));
    for i in 0..MAX_PAGES {
        assert_eq!(table.insert(&blob(&i.to_string())), Ok(()));
    }
    assert_eq!(table.pages.len(), MAX_PAGES);
    assert_eq!(table.insert(&blob("one more")), Err(StorageError::StorageFull));
    assert_eq!(table.pages.len(), MAX_PAGES);
    assert_eq!(table.iter().len(), MAX_PAGES);
}

#[test]
fn table_row_wider_than_page_is_page_full() {
    let mut table = Table::new("blobs".to_string(), wide(5000));
    assert_eq!(table.insert(&blob("x")), Err(StorageError::PageFull));
    assert_eq!(table.pages.len(), 0);
}

#[test]
fn row_codec_concatenates_columns() {
    let columns = people();
    let types = types_of(&columns);
    let bytes = encode_row_bytes(&types, &person(258, "ab", "c")).unwrap();
    assert_eq!(
        bytes,
        vec![2, 1, 0, 0, 0, 0, 0, 0, b'a', b'b', 0, 0, 0, 0, 0, 0, b'c', 0, 0, 0, 0, 0, 0, 0]
    );
    assert_eq!(decode_row_values(&types, &bytes), Ok(person(258, "ab", "c")));
}
