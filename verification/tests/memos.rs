use memoleak::error::Error;
use memoleak::memo::{memo_file_name, Memo};
use memoleak::stash::{fill_stash_with_local, LocalMemoFile, Stash};

#[test]
fn error_messages_carry_cause_and_context() {
    let plain = Error::new("A data dir is not found");
    assert_eq!(plain.message(), "A data dir is not found");

    let chained = Error::with_cause("APP_DATA_PATH creating failed", "permission denied");
    assert_eq!(chained.message(), "APP_DATA_PATH creating failed: permission denied");
}

#[test]
fn memo_name_gets_markdown_suffix() {
    assert_eq!(memo_file_name("todo").as_str(), "todo.md");
    assert_eq!(memo_file_name("").as_str(), ".md");
}

#[test]
fn new_memo_starts_with_the_empty_content_digest() {
    // A brand-new memo mirrors a zero-byte file: empty buffer, and the
    // predefined digest of empty content, so loading a genuinely empty
    // file yields the very same cached state.
    let created = Memo::new(String::from("todo.md"));
    assert_eq!(created.path().as_str(), "todo.md");
    assert_eq!(created.buffer().as_str(), "");

    let loaded = Memo::with_content(String::from("todo.md"), "");
    assert_eq!(loaded.buffer().as_str(), "");
    assert_eq!(loaded.content_hash(), created.content_hash());
    assert_eq!(created.content_hash(), created.create_latest_hash(""));
}

#[test]
fn fresh_check_is_stable_and_pure() {
    let memo = Memo::with_content(String::from("a.md"), "hello");
    for _ in 0..3 {
        assert!(memo.eq_origin("hello"));
    }
    assert_eq!(memo.buffer().as_str(), "hello");
    assert!(!memo.eq_origin("world"));
    assert_eq!(memo.buffer().as_str(), "hello");
}

#[test]
fn refresh_is_idempotent_without_file_changes() {
    let mut memo = Memo::new(String::from("a.md"));
    memo.refresh("draft", "draft");
    let buffer_after_first = memo.buffer().clone();
    let hash_after_first = memo.content_hash();

    memo.refresh("draft", "draft");
    assert_eq!(memo.buffer(), &buffer_after_first);
    assert_eq!(memo.content_hash(), hash_after_first);
}

#[test]
fn refresh_picks_up_an_external_edit() {
    let mut memo = Memo::with_content(String::from("a.md"), "first version");
    assert_eq!(memo.buffer().as_str(), "first version");

    // The backing file is edited externally; the next refresh sees it.
    memo.refresh("second version", "second version");
    assert_eq!(memo.buffer().as_str(), "second version");
    assert_eq!(memo.content_hash(), memo.create_latest_hash("second version"));
    assert!(memo.eq_origin("second version"));
}

#[test]
fn stale_memo_refreshes_to_the_latest_read() {
    // The freshness check and the re-read are separate reads: when they
    // disagree, the later read wins, buffer and digest staying paired.
    let mut memo = Memo::with_content(String::from("a.md"), "v1");
    memo.refresh("v2", "v3");
    assert_eq!(memo.buffer().as_str(), "v3");
    assert_eq!(memo.content_hash(), memo.create_latest_hash("v3"));
}

#[test]
fn removing_an_entry_keeps_relative_order() {
    let mut stash = Stash::new();
    stash.push(Memo::new(String::from("a.md")));
    stash.push(Memo::new(String::from("b.md")));
    stash.push(Memo::new(String::from("c.md")));
    assert_eq!(stash.len(), 3);

    assert!(stash.remove(1).is_ok());
    assert_eq!(stash.len(), 2);
    assert_eq!(stash.get(0).path().as_str(), "a.md");
    assert_eq!(stash.get(1).path().as_str(), "c.md");
    for i in 0..stash.len() {
        assert_ne!(stash.get(i).path().as_str(), "b.md");
    }
}

#[test]
fn removing_out_of_range_fails_and_changes_nothing() {
    let mut stash = Stash::new();
    stash.push(Memo::new(String::from("a.md")));

    let result = stash.remove(3);
    assert!(result.is_err());
    assert_eq!(result.unwrap_err().message(), "Index out of bounds");
    assert_eq!(stash.len(), 1);
    assert_eq!(stash.get(0).path().as_str(), "a.md");
}

#[test]
fn edit_target_checks_the_index() {
    let mut stash = Stash::new();
    stash.push(Memo::new(String::from("a.md")));

    assert_eq!(stash.edit_target(0).unwrap().as_str(), "a.md");
    let out_of_range = stash.edit_target(1);
    assert!(out_of_range.is_err());
    assert_eq!(out_of_range.unwrap_err().message(), "Index out of bounds");
}

#[test]
fn filling_from_local_listing_keeps_order_and_content() {
    let mut stash = Stash::new();
    let entries = vec![
        LocalMemoFile { path: String::from("a.md"), content: String::from("alpha") },
        LocalMemoFile { path: String::from("b.md"), content: String::from("") },
    ];
    fill_stash_with_local(&mut stash, &entries);

    assert_eq!(stash.len(), 2);
    assert_eq!(stash.get(0).path().as_str(), "a.md");
    assert_eq!(stash.get(0).buffer().as_str(), "alpha");
    assert!(stash.get(0).eq_origin("alpha"));
    assert_eq!(stash.get(1).path().as_str(), "b.md");
    assert_eq!(stash.get(1).buffer().as_str(), "");
}
