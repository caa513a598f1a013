use photo_archiver::date::UtcDate;
use photo_archiver::item::Item;
use photo_archiver::item::ItemError;
use photo_archiver::style::Style;

fn date(year: u32, month: u32, day: u32) -> UtcDate {
    UtcDate { year, month, day, hour: 10, minute: 0, second: 0 }
}

#[test]
fn storage_path_is_unpadded_date_then_filename() {
    let item = Item::new(
        "id-1".to_string(),
        date(2022, 3, 5),
        "IMG_1.jpg".to_string(),
        "http://example/base".to_string(),
    );
    assert_eq!(item.fs_path(), "2022/3/5/IMG_1.jpg");
}

#[test]
fn storage_path_from_rfc3339_creation_time() {
    let item = Item::from_raw(
        Some("id-1".to_string()),
        Some("2022-03-05T10:00:00Z".to_string()),
        Some("IMG_1.jpg".to_string()),
        Some("http://example/base".to_string()),
    )
    .unwrap();
    assert_eq!(item.fs_path(), "2022/3/5/IMG_1.jpg");
    let t = item.creation_time();
    assert_eq!(t.year, 2022);
    assert_eq!(t.month, 3);
    assert_eq!(t.day, 5);
    assert_eq!(t.hour, 10);
}

#[test]
fn creation_time_is_normalized_to_utc() {
    let item = Item::from_raw(
        Some("id-2".to_string()),
        Some("2022-03-05T23:30:00-02:00".to_string()),
        Some("a.jpg".to_string()),
        Some("http://example/base".to_string()),
    )
    .unwrap();
    let t = item.creation_time();
    assert_eq!(t.year, 2022);
    assert_eq!(t.month, 3);
    assert_eq!(t.day, 6);
    assert_eq!(t.hour, 1);
    assert_eq!(t.minute, 30);
    assert_eq!(item.fs_path(), "2022/3/6/a.jpg");
}

#[test]
fn storage_path_multi_digit_components() {
    let item = Item::new(
        "id-3".to_string(),
        date(2023, 12, 31),
        "last.png".to_string(),
        "http://example/base".to_string(),
    );
    assert_eq!(item.fs_path(), "2023/12/31/last.png");
}

#[test]
fn storage_path_numerals_carry_no_padding() {
    let item = Item::new(
        "id-5".to_string(),
        date(800, 1, 9),
        "x.jpg".to_string(),
        "http://example/base".to_string(),
    );
    assert_eq!(item.fs_path(), "800/1/9/x.jpg");
}

#[test]
fn download_url_appends_download_suffix() {
    let item = Item::new(
        "id-4".to_string(),
        date(2022, 1, 1),
        "f.jpg".to_string(),
        "http://example/base".to_string(),
    );
    assert_eq!(item.download_url(), "http://example/base=d");
    assert_eq!(item.id(), "id-4");
}

#[test]
fn missing_id_fails_closed() {
    let r = Item::from_raw(
        None,
        Some("2022-03-05T10:00:00Z".to_string()),
        Some("a.jpg".to_string()),
        Some("http://example".to_string()),
    );
    assert!(matches!(r, Err(ItemError::MissingId)));
}

#[test]
fn missing_creation_time_fails_closed() {
    let r = Item::from_raw(
        Some("id".to_string()),
        None,
        Some("a.jpg".to_string()),
        Some("http://example".to_string()),
    );
    assert!(matches!(r, Err(ItemError::MissingCreationTime)));
}

#[test]
fn unparseable_creation_time_fails_closed() {
    let r = Item::from_raw(
        Some("id".to_string()),
        Some("yesterday at noon".to_string()),
        Some("a.jpg".to_string()),
        Some("http://example".to_string()),
    );
    assert!(matches!(r, Err(ItemError::InvalidCreationTime)));
}

#[test]
fn out_of_range_creation_time_fails_closed() {
    let r = Item::from_raw(
        Some("id".to_string()),
        Some("2022-13-05T10:00:00Z".to_string()),
        Some("a.jpg".to_string()),
        Some("http://example".to_string()),
    );
    assert!(matches!(r, Err(ItemError::InvalidCreationTime)));
}

#[test]
fn missing_filename_fails_closed() {
    let r = Item::from_raw(
        Some("id".to_string()),
        Some("2022-03-05T10:00:00Z".to_string()),
        None,
        Some("http://example".to_string()),
    );
    assert!(matches!(r, Err(ItemError::MissingFilename)));
}

#[test]
fn missing_base_url_fails_closed() {
    let r = Item::from_raw(
        Some("id".to_string()),
        Some("2022-03-05T10:00:00Z".to_string()),
        Some("a.jpg".to_string()),
        None,
    );
    assert!(matches!(r, Err(ItemError::MissingBaseUrl)));
}

#[test]
fn from_fields_accepts_in_range_values() {
    let d = UtcDate::from_fields(2022, 3, 5, 10, 0, 0).unwrap();
    assert_eq!(d, UtcDate { year: 2022, month: 3, day: 5, hour: 10, minute: 0, second: 0 });
}

#[test]
fn from_fields_rejects_out_of_range_values() {
    assert!(UtcDate::from_fields(-1, 3, 5, 10, 0, 0).is_none());
    assert!(UtcDate::from_fields(10000, 3, 5, 10, 0, 0).is_none());
    assert!(UtcDate::from_fields(2022, 0, 5, 10, 0, 0).is_none());
    assert!(UtcDate::from_fields(2022, 3, 32, 10, 0, 0).is_none());
    assert!(UtcDate::from_fields(2022, 3, 5, 24, 0, 0).is_none());
}

#[test]
fn style_parse_is_case_insensitive() {
    assert_eq!(Style::parse("debug").unwrap(), Style::Debug);
    assert_eq!(Style::parse("DEBUG").unwrap(), Style::Debug);
    assert_eq!(Style::parse("FsPath").unwrap(), Style::FsPath);
    assert_eq!(Style::parse("fspath").unwrap(), Style::FsPath);
    assert_eq!(Style::parse("json").unwrap(), Style::Json);
    assert_eq!(Style::parse("Json").unwrap(), Style::Json);
}

#[test]
fn style_parse_rejects_unknown_names_with_the_input() {
    let e = Style::parse("yaml").unwrap_err();
    assert_eq!(e.input, "yaml");
    assert!(Style::parse("").is_err());
    assert!(Style::parse("debugg").is_err());
}
