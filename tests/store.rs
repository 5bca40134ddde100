use task_tracker::content::TaskContent;
use task_tracker::handler::TaskHandler;
use task_tracker::result::{Message, SystemError};
use task_tracker::status::{SortOrder, Status};

fn find<'a>(v: &'a [TaskContent], name: &str) -> Option<&'a TaskContent> {
    v.iter().find(|c| c.name == name)
}

#[test]
fn create_sets_defaults() {
    let mut h = TaskHandler::new();
    assert!(h.is_empty());
    match h.create_task("buy milk") {
        Ok(Message::CreatedTask(n)) => assert_eq!(n, "buy milk"),
        other => panic!("unexpected {:?}", other),
    }
    assert!(!h.is_empty());
    assert!(h.task_exists("buy milk"));
    assert!(!h.task_exists("Buy milk"));
    let c = h.get_content("buy milk").unwrap();
    assert_eq!(c.name, "buy milk");
    assert_eq!(c.desc, "");
    assert_eq!(c.status, Status::Active);
}

#[test]
fn create_existing_fails_and_keeps_store() {
    let mut h = TaskHandler::new();
    h.create_task("buy milk").unwrap();
    h.edit_task("buy milk", Some("two litres"), Some(Status::Stopped), None).unwrap();
    match h.create_task("buy milk") {
        Err(SystemError::TaskAlreadyExists(n)) => assert_eq!(n, "buy milk"),
        other => panic!("unexpected {:?}", other),
    }
    let all = h.all_content();
    assert_eq!(all.len(), 1);
    assert_eq!(all[0].desc, "two litres");
    assert_eq!(all[0].status, Status::Stopped);
}

#[test]
fn delete_missing_and_existing() {
    let mut h = TaskHandler::new();
    match h.delete_task("ghost") {
        Err(SystemError::TaskDoesntExist(n)) => assert_eq!(n, "ghost"),
        other => panic!("unexpected {:?}", other),
    }
    h.create_task("a").unwrap();
    h.create_task("b").unwrap();
    assert!(h.delete_task("a").is_ok());
    assert!(!h.task_exists("a"));
    assert!(h.task_exists("b"));
    assert!(matches!(h.delete_task("a"), Err(SystemError::TaskDoesntExist(_))));
    assert!(h.delete_task("b").is_ok());
    assert!(h.is_empty());
}

#[test]
fn edit_sets_description_and_status() {
    let mut h = TaskHandler::new();
    h.create_task("t").unwrap();
    match h.edit_task("t", Some("desc"), None, None) {
        Ok(Message::AppliedTaskChanges(n)) => assert_eq!(n, "t"),
        other => panic!("unexpected {:?}", other),
    }
    h.edit_task("t", None, Some(Status::Completed), None).unwrap();
    let c = h.get_content("t").unwrap();
    assert_eq!(c.desc, "desc");
    assert_eq!(c.status, Status::Completed);
}

#[test]
fn edit_missing_fails() {
    let mut h = TaskHandler::new();
    h.create_task("t").unwrap();
    match h.edit_task("u", Some("x"), Some(Status::Canceled), Some("v")) {
        Err(SystemError::TaskDoesntExist(n)) => assert_eq!(n, "u"),
        other => panic!("unexpected {:?}", other),
    }
    assert!(!h.task_exists("v"));
    assert_eq!(h.get_content("t").unwrap().desc, "");
}

#[test]
fn rename_moves_task() {
    let mut h = TaskHandler::new();
    h.create_task("old").unwrap();
    match h.edit_task("old", Some("d"), Some(Status::Stopped), Some("new")) {
        Ok(Message::AppliedTaskChanges(n)) => assert_eq!(n, "old"),
        other => panic!("unexpected {:?}", other),
    }
    assert!(!h.task_exists("old"));
    let c = h.get_content("new").unwrap();
    assert_eq!(c.desc, "d");
    assert_eq!(c.status, Status::Stopped);
}

#[test]
fn rename_to_existing_keeps_partial_edit() {
    let mut h = TaskHandler::new();
    h.create_task("a").unwrap();
    h.create_task("b").unwrap();
    match h.edit_task("a", Some("changed"), Some(Status::Canceled), Some("b")) {
        Err(SystemError::TaskAlreadyExists(n)) => assert_eq!(n, "b"),
        other => panic!("unexpected {:?}", other),
    }
    let a = h.get_content("a").unwrap();
    assert_eq!(a.desc, "changed");
    assert_eq!(a.status, Status::Canceled);
    let b = h.get_content("b").unwrap();
    assert_eq!(b.desc, "");
    assert_eq!(b.status, Status::Active);
    assert_eq!(h.all_content().len(), 2);
}

#[test]
fn rename_to_own_name_fails() {
    let mut h = TaskHandler::new();
    h.create_task("a").unwrap();
    assert!(matches!(h.edit_task("a", None, Some(Status::Stopped), Some("a")), Err(SystemError::TaskAlreadyExists(_))));
    assert_eq!(h.get_content("a").unwrap().status, Status::Stopped);
}

#[test]
fn get_missing_fails() {
    let h = TaskHandler::new();
    assert!(matches!(h.get_content("x"), Err(SystemError::TaskDoesntExist(n)) if n == "x"));
}

#[test]
fn listing_round_trip() {
    let mut h = TaskHandler::new();
    h.create_task("one").unwrap();
    h.create_task("two").unwrap();
    h.create_task("three").unwrap();
    h.edit_task("two", Some("second"), Some(Status::Completed), None).unwrap();
    h.edit_task("three", None, Some(Status::Canceled), None).unwrap();
    let listing = h.all_content();
    assert_eq!(listing.len(), 3);
    let back = TaskHandler::from_content(&listing).unwrap();
    let again = back.all_content();
    assert_eq!(again.len(), 3);
    for c in &listing {
        let d = find(&again, &c.name).unwrap();
        assert_eq!(d.desc, c.desc);
        assert_eq!(d.status, c.status);
    }
}

#[test]
fn from_content_rejects_duplicate_names() {
    let v = vec![
        TaskContent::new("x", "", Status::Active),
        TaskContent::new("y", "", Status::Active),
        TaskContent::new("x", "other", Status::Stopped),
    ];
    assert!(matches!(TaskHandler::from_content(&v), Err(SystemError::TaskAlreadyExists(_))));
}

#[test]
fn sort_by_status_orders_states() {
    let mut v = vec![
        TaskContent::new("a", "", Status::Completed),
        TaskContent::new("b", "", Status::Canceled),
        TaskContent::new("c", "", Status::Stopped),
        TaskContent::new("d", "", Status::Active),
        TaskContent::new("e", "", Status::Stopped),
    ];
    TaskContent::sort_by(&mut v, SortOrder::Status);
    let st: Vec<Status> = v.iter().map(|c| c.status).collect();
    assert_eq!(st, vec![Status::Active, Status::Stopped, Status::Stopped, Status::Canceled, Status::Completed]);
    TaskContent::sort_by(&mut v, SortOrder::ReverseStatus);
    let st: Vec<Status> = v.iter().map(|c| c.status).collect();
    assert_eq!(st, vec![Status::Completed, Status::Canceled, Status::Stopped, Status::Stopped, Status::Active]);
}

#[test]
fn sort_by_name_both_ways() {
    let mut v = vec![
        TaskContent::new("pear", "", Status::Active),
        TaskContent::new("Zebra", "", Status::Active),
        TaskContent::new("apple", "", Status::Active),
        TaskContent::new("app", "", Status::Active),
        TaskContent::new("étude", "", Status::Active),
    ];
    TaskContent::sort_by(&mut v, SortOrder::Alphabetical);
    let names: Vec<&str> = v.iter().map(|c| c.name.as_str()).collect();
    assert_eq!(names, vec!["Zebra", "app", "apple", "pear", "étude"]);
    TaskContent::sort_by(&mut v, SortOrder::ReverseAlphabetical);
    let names: Vec<&str> = v.iter().map(|c| c.name.as_str()).collect();
    assert_eq!(names, vec!["étude", "pear", "apple", "app", "Zebra"]);
}

#[test]
fn sort_empty() {
    let mut v: Vec<TaskContent> = Vec::new();
    TaskContent::sort_by(&mut v, SortOrder::Alphabetical);
    assert!(v.is_empty());
}

#[test]
fn status_codes() {
    for s in [Status::Active, Status::Stopped, Status::Canceled, Status::Completed] {
        assert_eq!(Status::from_code(&s.code()), Some(s));
    }
    assert_eq!(Status::Canceled.code(), "n");
    assert_eq!(Status::from_code("c"), Some(Status::Canceled));
    assert_eq!(Status::from_code("f"), Some(Status::Completed));
    assert_eq!(Status::from_code("x"), None);
    assert_eq!(Status::from_code("aa"), None);
    assert_eq!(Status::from_code(""), None);
    assert!(Status::Active < Status::Stopped && Status::Stopped < Status::Canceled && Status::Canceled < Status::Completed);
    assert_eq!(Status::Completed.rank(), 3);
    assert_eq!(Status::Active.symbol(), "🟢");
}

#[test]
fn sort_order_codes() {
    assert_eq!(SortOrder::from_code("a"), Some(SortOrder::Alphabetical));
    assert_eq!(SortOrder::from_code("ra"), Some(SortOrder::ReverseAlphabetical));
    assert_eq!(SortOrder::from_code("s"), Some(SortOrder::Status));
    assert_eq!(SortOrder::from_code("rs"), Some(SortOrder::ReverseStatus));
    assert_eq!(SortOrder::from_code("r"), None);
    assert_eq!(SortOrder::from_code("sa"), None);
}
