use task_tracker::commands::{
    delete_cmd, edit_cmd, new_cmd, process_intents, status_cmd, table_cmd, task_info_cmd, Invocation,
    SubCommand,
};
use task_tracker::handler::TaskHandler;
use task_tracker::result::{Message, SystemError};
use task_tracker::status::{SortOrder, Status};

fn store(names: &[&str]) -> TaskHandler {
    let mut h = TaskHandler::new();
    for n in names {
        h.create_task(n).unwrap();
    }
    h
}

fn empty_invocation() -> Invocation {
    Invocation {
        table: None,
        info: None,
        delete: None,
        complete: None,
        active: None,
        stop: None,
        cancel: None,
        sub: None,
    }
}

#[test]
fn bulk_delete_reports_each_name() {
    let mut h = store(&["a", "b", "c"]);
    match delete_cmd(&mut h, vec!["a", "missing", "b"]) {
        Ok(Message::DeletedTasks(d, e)) => {
            assert_eq!(d, vec!["a".to_string(), "b".to_string()]);
            assert_eq!(e, vec!["missing".to_string()]);
        }
        other => panic!("unexpected {:?}", other),
    }
    assert!(!h.task_exists("a"));
    assert!(!h.task_exists("b"));
    assert!(h.task_exists("c"));
}

#[test]
fn bulk_delete_same_name_twice() {
    let mut h = store(&["a"]);
    match delete_cmd(&mut h, vec!["a", "a"]) {
        Ok(Message::DeletedTasks(d, e)) => {
            assert_eq!(d, vec!["a".to_string()]);
            assert_eq!(e, vec!["a".to_string()]);
        }
        other => panic!("unexpected {:?}", other),
    }
    assert!(h.is_empty());
}

#[test]
fn table_on_empty_store_fails() {
    let h = TaskHandler::new();
    assert!(matches!(table_cmd(&h, SortOrder::Alphabetical), Err(SystemError::Empty)));
}

#[test]
fn table_sorted_by_status() {
    let mut h = store(&["z", "y", "x", "w"]);
    status_cmd(&mut h, "z", Status::Active).unwrap();
    status_cmd(&mut h, "y", Status::Completed).unwrap();
    status_cmd(&mut h, "x", Status::Stopped).unwrap();
    status_cmd(&mut h, "w", Status::Canceled).unwrap();
    let v = table_cmd(&h, SortOrder::Status).unwrap();
    let names: Vec<&str> = v.iter().map(|c| c.name.as_str()).collect();
    assert_eq!(names, vec!["z", "x", "w", "y"]);
    let v = table_cmd(&h, SortOrder::Alphabetical).unwrap();
    let names: Vec<&str> = v.iter().map(|c| c.name.as_str()).collect();
    assert_eq!(names, vec!["w", "x", "y", "z"]);
}

#[test]
fn info_of_missing_task() {
    let h = store(&["a"]);
    assert!(matches!(task_info_cmd(&h, "b"), Err(SystemError::TaskDoesntExist(n)) if n == "b"));
    assert_eq!(task_info_cmd(&h, "a").unwrap().status, Status::Active);
}

#[test]
fn status_shortcut_on_missing_task() {
    let mut h = store(&["a"]);
    assert!(matches!(status_cmd(&mut h, "b", Status::Completed), Err(SystemError::TaskDoesntExist(_))));
    assert_eq!(h.get_content("a").unwrap().status, Status::Active);
}

#[test]
fn new_with_properties() {
    let mut h = TaskHandler::new();
    match new_cmd(&mut h, "t", Some("write report"), Some(Status::Stopped)) {
        Ok(Message::CreatedTask(n)) => assert_eq!(n, "t"),
        other => panic!("unexpected {:?}", other),
    }
    let c = h.get_content("t").unwrap();
    assert_eq!(c.desc, "write report");
    assert_eq!(c.status, Status::Stopped);
    assert!(matches!(new_cmd(&mut h, "t", Some("other"), None), Err(SystemError::TaskAlreadyExists(_))));
    assert_eq!(h.get_content("t").unwrap().desc, "write report");
}

#[test]
fn edit_command_renames() {
    let mut h = store(&["a"]);
    edit_cmd(&mut h, "a", None, None, Some("b")).unwrap();
    assert!(h.task_exists("b") && !h.task_exists("a"));
}

#[test]
fn intents_keep_running_after_a_failure() {
    let mut h = store(&["a", "b"]);
    let mut inv = empty_invocation();
    inv.table = Some(SortOrder::ReverseAlphabetical);
    inv.info = Some("nothing".to_string());
    inv.delete = Some(vec!["missing".to_string(), "b".to_string()]);
    inv.complete = Some("a".to_string());
    inv.stop = Some("gone".to_string());
    inv.sub = Some(SubCommand::New { name: "c".to_string(), desc: Some("new one".to_string()), status: None });
    let r = process_intents(&mut h, inv);
    let names: Vec<String> = r.table.unwrap().into_iter().map(|c| c.name).collect();
    assert_eq!(names, vec!["b".to_string(), "a".to_string()]);
    assert!(r.info.is_none());
    assert_eq!(r.messages.len(), 3);
    assert_eq!(r.errors.len(), 2);
    assert!(!h.task_exists("b"));
    assert_eq!(h.get_content("a").unwrap().status, Status::Completed);
    assert_eq!(h.get_content("c").unwrap().desc, "new one");
}

#[test]
fn intents_on_empty_store() {
    let mut h = TaskHandler::new();
    let mut inv = empty_invocation();
    inv.table = Some(SortOrder::Status);
    let r = process_intents(&mut h, inv);
    assert!(r.table.is_none());
    assert!(matches!(r.errors.as_slice(), [SystemError::Empty]));
    assert!(r.messages.is_empty());
}

#[test]
fn edit_intent_partial_apply() {
    let mut h = store(&["a", "b"]);
    let mut inv = empty_invocation();
    inv.sub = Some(SubCommand::Edit {
        task: "a".to_string(),
        desc: Some("kept".to_string()),
        status: Some(Status::Completed),
        rename: Some("b".to_string()),
    });
    let r = process_intents(&mut h, inv);
    assert!(matches!(r.errors.as_slice(), [SystemError::TaskAlreadyExists(n)] if n == "b"));
    let a = h.get_content("a").unwrap();
    assert_eq!(a.desc, "kept");
    assert_eq!(a.status, Status::Completed);
}
