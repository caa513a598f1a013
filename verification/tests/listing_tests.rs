use photo_archiver::date::UtcDate;
use photo_archiver::item::Item;
use photo_archiver::media_item_iter::FetchResult;
use photo_archiver::media_item_iter::Page;
use photo_archiver::media_item_iter::State;
use photo_archiver::media_item_iter::Step;
use photo_archiver::media_item_iter::list;

fn entry(id: &str) -> Item {
    Item::new(
        id.to_string(),
        UtcDate { year: 2022, month: 3, day: 5, hour: 10, minute: 0, second: 0 },
        format!("{id}.jpg"),
        format!("http://example/{id}"),
    )
}

fn page(ids: &[&str], next_token: Option<&str>) -> FetchResult {
    FetchResult::Fetched(Page {
        items: ids.iter().map(|id| entry(id)).collect(),
        next_page_token: next_token.map(|t| t.to_string()),
    })
}

fn ids_of(items: &[Item]) -> Vec<String> {
    items.iter().map(|i| i.id()).collect()
}

#[test]
fn three_pages_yield_their_concatenation_then_end() {
    let script = vec![
        page(&["a", "b"], Some("t1")),
        page(&["c"], Some("t2")),
        page(&["d", "e"], None),
    ];
    let (items, failed) = list(script);
    assert_eq!(ids_of(&items), vec!["a", "b", "c", "d", "e"]);
    assert!(!failed);
}

#[test]
fn a_single_page_without_token_ends_cleanly() {
    let (items, failed) = list(vec![page(&["only"], None)]);
    assert_eq!(ids_of(&items), vec!["only"]);
    assert!(!failed);
}

#[test]
fn an_empty_page_without_token_yields_nothing() {
    let (items, failed) = list(vec![page(&[], None)]);
    assert!(items.is_empty());
    assert!(!failed);
}

#[test]
fn failure_on_page_two_surfaces_after_page_one_entries() {
    let script = vec![page(&["a", "b"], Some("t1")), FetchResult::Failed];
    let (items, failed) = list(script);
    assert_eq!(ids_of(&items), vec!["a", "b"]);
    assert!(failed);
}

#[test]
fn failure_on_the_first_fetch_yields_nothing() {
    let (items, failed) = list(vec![FetchResult::Failed]);
    assert!(items.is_empty());
    assert!(failed);
}

#[test]
fn a_script_that_runs_dry_while_a_token_is_owed_is_an_error() {
    let (items, failed) = list(vec![page(&["a"], Some("t1"))]);
    assert_eq!(ids_of(&items), vec!["a"]);
    assert!(failed);
}

#[test]
fn a_fresh_cursor_asks_for_a_fetch_before_yielding_anything() {
    let mut lister = State::new();
    assert!(lister.page_token().is_none());
    assert!(matches!(lister.next_step(), Step::Fetch));
}

#[test]
fn the_cursor_yields_buffered_entries_one_at_a_time_in_page_order() {
    let mut lister = State::new();
    assert!(matches!(lister.next_step(), Step::Fetch));
    lister.apply_page(Page {
        items: vec![entry("a"), entry("b")],
        next_page_token: Some("t1".to_string()),
    });
    match lister.next_step() {
        Step::Yield(item) => assert_eq!(item.id(), "a"),
        _ => panic!("expected an entry"),
    }
    match lister.next_step() {
        Step::Yield(item) => assert_eq!(item.id(), "b"),
        _ => panic!("expected an entry"),
    }
    assert_eq!(lister.page_token().as_deref(), Some("t1"));
    assert!(matches!(lister.next_step(), Step::Fetch));
}

#[test]
fn an_absent_token_exhausts_the_cursor() {
    let mut lister = State::new();
    assert!(matches!(lister.next_step(), Step::Fetch));
    lister.apply_page(Page { items: vec![entry("a")], next_page_token: None });
    assert!(matches!(lister.next_step(), Step::Yield(_)));
    assert!(matches!(lister.next_step(), Step::End));
    assert!(matches!(lister.next_step(), Step::End));
}

#[test]
fn a_failed_cursor_yields_nothing_further() {
    let mut lister = State::new();
    assert!(matches!(lister.next_step(), Step::Fetch));
    lister.apply_page(Page {
        items: vec![entry("a")],
        next_page_token: Some("t1".to_string()),
    });
    lister.fail();
    assert!(matches!(lister.next_step(), Step::End));
}
