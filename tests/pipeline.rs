use samson::db::{Database, SmsMessage};
use samson::modem::{ModemInfo, SmsInfo, SourceError};
use samson::poller::{next_step, poll_cycle, process_message, Disposition, Event, Step};
use samson::utils::Timestamp;

fn modem(path: &str, imei: &str) -> ModemInfo {
    ModemInfo { path: path.to_string(), imei: imei.to_string() }
}

fn sms(sender: &str, text: &str, secs: i64, path: &str) -> SmsInfo {
    SmsInfo {
        sender: sender.to_string(),
        text: text.to_string(),
        timestamp: Timestamp::new(secs, 0),
        sms_path: path.to_string(),
    }
}

fn key_count(db: &Database, m: &SmsMessage) -> usize {
    db.get_messages(None, None)
        .iter()
        .filter(|r| r.imei == m.imei && r.sender == m.sender && r.text == m.text && r.timestamp == m.timestamp)
        .count()
}

#[test]
fn same_message_twice_is_stored_once_and_deleted_twice() {
    let mut db = Database::new();
    let a = modem("/m/0", "IMEI-A");
    let s = sms("Alice", "hello", 1000, "/sms/1");
    let first = process_message(&mut db, &a, &s);
    let second = process_message(&mut db, &a, &s);
    assert_eq!(first, Disposition::Stored);
    assert_eq!(second, Disposition::Duplicate);
    assert!(first.deletes() && second.deletes());
    assert_eq!(db.len(), 1);
}

#[test]
fn failed_deletion_does_not_duplicate_on_next_cycle() {
    let mut db = Database::new();
    let a = modem("/m/0", "IMEI-A");
    let s = sms("Bob", "hi", 5, "/sms/7");
    let listings = vec![Ok(vec![s.clone()])];
    let first = poll_cycle(&mut db, &vec![a.clone()], &listings);
    assert_eq!(first.len(), 1);
    // the removal failed: the message is listed again next cycle
    assert_eq!(next_step(Step::Delete, Event::DeleteFailed), Step::Done);
    let second = poll_cycle(&mut db, &vec![a.clone()], &listings);
    assert_eq!(second.len(), 1);
    assert_eq!(second[0].sms_path, "/sms/7");
    let probe = SmsMessage { id: None, imei: "IMEI-A".to_string(), sender: "Bob".to_string(), text: "hi".to_string(), timestamp: Timestamp::new(5, 0) };
    assert_eq!(key_count(&db, &probe), 1);
}

#[test]
fn failed_listing_does_not_stop_other_modems() {
    let mut db = Database::new();
    let modems = vec![modem("/m/a", "IMEI-A"), modem("/m/b", "IMEI-B")];
    let listings = vec![
        Err(SourceError { reason: "gone".to_string() }),
        Ok(vec![sms("Carol", "yo", 42, "/sms/3")]),
    ];
    let dels = poll_cycle(&mut db, &modems, &listings);
    assert_eq!(dels.len(), 1);
    assert_eq!(dels[0].modem_path, "/m/b");
    let rows = db.get_messages(None, None);
    assert_eq!(rows.len(), 1);
    assert_eq!(rows[0].imei, "IMEI-B");
}

#[test]
fn two_modems_one_new_message() {
    let mut db = Database::new();
    let modems = vec![modem("/m/a", "IMEI-A"), modem("/m/b", "IMEI-B")];
    let listings = vec![Ok(vec![sms("Alice", "hello", 1000, "/sms/a1")]), Ok(vec![])];
    let dels = poll_cycle(&mut db, &modems, &listings);
    let rows = db.get_messages(None, None);
    assert_eq!(rows.len(), 1);
    assert_eq!(rows[0].imei, "IMEI-A");
    assert_eq!(rows[0].sender, "Alice");
    assert_eq!(rows[0].text, "hello");
    assert_eq!(dels.len(), 1);
    assert_eq!(dels[0].modem_path, "/m/a");
    assert_eq!(dels[0].sms_path, "/sms/a1");
}

#[test]
fn step_table() {
    assert_eq!(next_step(Step::CheckExists, Event::Checked(true)), Step::Delete);
    assert_eq!(next_step(Step::CheckExists, Event::Checked(false)), Step::Insert);
    assert_eq!(next_step(Step::CheckExists, Event::CheckFailed), Step::Done);
    assert_eq!(next_step(Step::Insert, Event::Inserted), Step::Delete);
    assert_eq!(next_step(Step::Insert, Event::InsertFailed), Step::Done);
    assert_eq!(next_step(Step::Delete, Event::Deleted), Step::Done);
    assert_eq!(next_step(Step::Done, Event::Inserted), Step::Done);
}

#[test]
fn messages_of_one_modem_are_handled_in_order() {
    let mut db = Database::new();
    let a = modem("/m/a", "IMEI-A");
    let listings = vec![Ok(vec![
        sms("x", "one", 3, "/sms/1"),
        sms("x", "one", 3, "/sms/2"),
        sms("x", "two", 1, "/sms/3"),
    ])];
    let dels = poll_cycle(&mut db, &vec![a], &listings);
    let paths: Vec<&str> = dels.iter().map(|d| d.sms_path.as_str()).collect();
    assert_eq!(paths, vec!["/sms/1", "/sms/2", "/sms/3"]);
    assert_eq!(db.len(), 2);
}
