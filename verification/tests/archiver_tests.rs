use photo_archiver::archiver::Outcome;
use photo_archiver::archiver::ShouldDownload;
use photo_archiver::archiver::State;
use photo_archiver::archiver::Stats;
use photo_archiver::archiver::full_path;
use photo_archiver::date::UtcDate;
use photo_archiver::item::Item;
use photo_archiver::metadata::Media;
use photo_archiver::metadata::Metadata;
use photo_archiver::metadata::StoreError;

fn date(year: u32, month: u32, day: u32) -> UtcDate {
    UtcDate { year, month, day, hour: 10, minute: 0, second: 0 }
}

fn entry(id: &str) -> Item {
    Item::new(
        id.to_string(),
        date(2022, 3, 5),
        format!("{id}.jpg"),
        format!("http://example/{id}"),
    )
}

fn now() -> UtcDate {
    date(2024, 6, 1)
}

#[test]
fn fresh_stats_are_zero() {
    let stats = Stats::default();
    assert_eq!(stats, Stats { downloaded: 0, skipped: 0, errored: 0 });
    let state = State::create(Metadata::create());
    assert_eq!(state.stats(), Stats { downloaded: 0, skipped: 0, errored: 0 });
}

#[test]
fn admission_grants_exactly_one_transfer_per_id() {
    let mut state = State::create(Metadata::create());
    let item = entry("the-id");
    assert_eq!(state.try_start(&item), ShouldDownload::Download);
    assert_eq!(state.try_start(&item), ShouldDownload::Skip);
    assert_eq!(state.try_start(&item), ShouldDownload::Skip);
    assert_eq!(state.stats(), Stats { downloaded: 0, skipped: 2, errored: 0 });
}

#[test]
fn a_completed_download_stays_skipped() {
    let mut state = State::create(Metadata::create());
    let item = entry("the-id");
    assert_eq!(state.try_start(&item), ShouldDownload::Download);
    assert_eq!(state.done(&item, true, now()), Outcome::Downloaded);
    assert_eq!(state.try_start(&item), ShouldDownload::Skip);
    assert_eq!(state.stats(), Stats { downloaded: 1, skipped: 1, errored: 0 });
    assert!(state.is_archived("the-id"));
}

#[test]
fn a_failed_transfer_leaves_no_record_and_may_be_retried() {
    let mut state = State::create(Metadata::create());
    let item = entry("the-id");
    assert_eq!(state.try_start(&item), ShouldDownload::Download);
    assert_eq!(state.done(&item, false, now()), Outcome::Errored);
    assert!(!state.is_archived("the-id"));
    assert_eq!(state.try_start(&item), ShouldDownload::Download);
    assert_eq!(state.done(&item, true, now()), Outcome::Downloaded);
    assert_eq!(state.stats(), Stats { downloaded: 1, skipped: 0, errored: 1 });
}

#[test]
fn one_failure_in_a_batch_of_five_is_isolated() {
    let mut state = State::create(Metadata::create());
    let items: Vec<Item> = ["a", "b", "c", "d", "e"].iter().map(|id| entry(id)).collect();
    let transfer_ok = vec![true, true, false, true, true];
    let outcomes = state.archive_batch(&items, &transfer_ok, now());
    assert_eq!(
        outcomes,
        vec![
            Outcome::Downloaded,
            Outcome::Downloaded,
            Outcome::Errored,
            Outcome::Downloaded,
            Outcome::Downloaded,
        ]
    );
    assert_eq!(state.stats(), Stats { downloaded: 4, skipped: 0, errored: 1 });
    assert!(state.is_archived("a"));
    assert!(state.is_archived("b"));
    assert!(!state.is_archived("c"));
    assert!(state.is_archived("d"));
    assert!(state.is_archived("e"));
}

#[test]
fn a_second_run_over_the_same_catalog_downloads_nothing() {
    let items: Vec<Item> = ["a", "b", "c"].iter().map(|id| entry(id)).collect();
    let all_ok = vec![true, true, true];

    let mut first = State::create(Metadata::create());
    let outcomes = first.archive_batch(&items, &all_ok, now());
    assert_eq!(outcomes, vec![Outcome::Downloaded; 3]);
    assert_eq!(first.stats(), Stats { downloaded: 3, skipped: 0, errored: 0 });

    let mut second = State::create(first.into_metadata());
    let outcomes = second.archive_batch(&items, &all_ok, now());
    assert_eq!(outcomes, vec![Outcome::Skipped; 3]);
    assert_eq!(second.stats(), Stats { downloaded: 0, skipped: 3, errored: 0 });
}

#[test]
fn duplicate_ids_within_one_batch_are_transferred_once() {
    let mut state = State::create(Metadata::create());
    let items = vec![entry("a"), entry("a"), entry("a")];
    let transfer_ok = vec![true, true, true];
    let outcomes = state.archive_batch(&items, &transfer_ok, now());
    assert_eq!(outcomes, vec![Outcome::Downloaded, Outcome::Skipped, Outcome::Skipped]);
    assert_eq!(state.stats(), Stats { downloaded: 1, skipped: 2, errored: 0 });
}

#[test]
fn an_empty_batch_moves_nothing() {
    let mut state = State::create(Metadata::create());
    let outcomes = state.archive_batch(&Vec::new(), &Vec::new(), now());
    assert!(outcomes.is_empty());
    assert_eq!(state.stats(), Stats { downloaded: 0, skipped: 0, errored: 0 });
}

#[test]
fn the_ledger_refuses_a_second_record_for_an_id() {
    let mut metadata = Metadata::create();
    let first = Media::new("id-1", "2022/3/5/a.jpg", date(2022, 3, 5), now());
    let second = Media::new("id-1", "2023/1/1/b.jpg", date(2023, 1, 1), now());
    assert!(metadata.insert(&first).is_ok());
    assert_eq!(metadata.insert(&second), Err(StoreError::Duplicate));
    let found = metadata.find("id-1").unwrap();
    assert_eq!(found.file_path(), "2022/3/5/a.jpg");
    assert_eq!(found.id(), "id-1");
    assert_eq!(found.creation_date(), date(2022, 3, 5));
    assert_eq!(found.download_date(), now());
}

#[test]
fn the_ledger_answers_membership() {
    let mut metadata = Metadata::create();
    assert!(!metadata.contains("id-1"));
    assert!(metadata.find("id-1").is_none());
    let record = Media::new("id-1", "2022/3/5/a.jpg", date(2022, 3, 5), now());
    metadata.insert(&record).unwrap();
    assert!(metadata.contains("id-1"));
    assert!(!metadata.contains("id-2"));
}

#[test]
fn destination_is_root_joined_with_storage_path() {
    let item = entry("a");
    assert_eq!(full_path("/archive", item.fs_path().as_str()), "/archive/2022/3/5/a.jpg");
}
