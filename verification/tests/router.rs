use relay::Database;
use relay::DatabaseError;
use relay::Email;
use relay::RouteOutcome;
use relay::StoreError;

fn fresh() -> Database {
    Database::new_in_memory().expect("in-memory store must open")
}

#[test]
fn unknown_identifier_is_not_alive() {
    let db = fresh();
    let r = db.is_alive(&String::from("ghost"));
    assert_eq!(r.unwrap_err(), DatabaseError::NoRows);
}

#[test]
fn route_to_unknown_identifier_persists_never_drops() {
    let mut db = fresh();
    let r = db.route(String::from("ghost"), String::from("m"));
    assert_eq!(r.unwrap(), RouteOutcome::Persisted);
    let mails = db.get_mails_for("ghost").unwrap();
    assert_eq!(mails.len(), 1);
    assert_eq!(mails[0].destination, "ghost");
    assert_eq!(mails[0].payload, "m");
}

#[test]
fn activation_makes_identifier_alive() {
    let mut db = fresh();
    db.activate_self(String::from("alice"), String::from("pw"), 7).unwrap();
    assert_eq!(db.is_alive(&String::from("alice")).unwrap(), true);
    assert_eq!(db.get_addr(String::from("alice")), Some(7));
}

#[test]
fn reactivation_last_write_wins() {
    let mut db = fresh();
    db.activate_self(String::from("alice"), String::from("first-pw"), 1).unwrap();
    db.activate_self(String::from("alice"), String::from("second-pw"), 2).unwrap();
    assert_eq!(db.is_alive(&String::from("alice")).unwrap(), true);
    assert_eq!(db.get_addr(String::from("alice")), Some(2));
}

#[test]
fn deactivate_clears_liveness_and_handle() {
    let mut db = fresh();
    db.activate_self(String::from("alice"), String::from("pw"), 7).unwrap();
    db.deactivate(String::from("alice"));
    assert_eq!(db.is_alive(&String::from("alice")).unwrap(), false);
    assert_eq!(db.get_addr(String::from("alice")), None);
}

#[test]
fn deactivate_unknown_identifier_changes_nothing() {
    let mut db = fresh();
    db.deactivate(String::from("ghost"));
    assert_eq!(db.is_alive(&String::from("ghost")).unwrap_err(), DatabaseError::NoRows);
}

#[test]
fn route_after_deactivate_persists_never_delivers() {
    let mut db = fresh();
    db.activate_self(String::from("alice"), String::from("pw"), 7).unwrap();
    db.deactivate(String::from("alice"));
    let r = db.route(String::from("alice"), String::from("late"));
    assert_eq!(r.unwrap(), RouteOutcome::Persisted);
    let mails = db.get_mails_for("alice").unwrap();
    assert_eq!(mails.len(), 1);
    assert_eq!(mails[0].payload, "late");
}

#[test]
fn live_delivery_never_writes_to_store() {
    let mut db = fresh();
    db.activate_self(String::from("alice"), String::from("pw"), 7).unwrap();
    let r = db.route(String::from("alice"), String::from("hi"));
    assert_eq!(r.unwrap(), RouteOutcome::Delivered { handle: 7 });
    assert_eq!(db.get_mails_for("alice").unwrap().len(), 0);
}

#[test]
fn persist_then_fetch_round_trip_in_order_no_dedup() {
    let mut db = fresh();
    assert_eq!(db.save_mail_for(String::from("d"), String::from("m1")).unwrap(), 1);
    assert_eq!(db.save_mail_for(String::from("d"), String::from("m2")).unwrap(), 1);
    assert_eq!(db.save_mail_for(String::from("d"), String::from("m2")).unwrap(), 1);
    let mails = db.get_mails_for("d").unwrap();
    let payloads: Vec<&str> = mails.iter().map(|m| m.payload.as_str()).collect();
    assert_eq!(payloads, vec!["m1", "m2", "m2"]);
}

#[test]
fn fetch_does_not_delete_and_ignores_other_destinations() {
    let mut db = fresh();
    db.save_mail_for(String::from("a"), String::from("for-a")).unwrap();
    db.save_mail_for(String::from("b"), String::from("for-b")).unwrap();
    let first = db.get_mails_for("a").unwrap();
    assert_eq!(first.len(), 1);
    assert_eq!(first[0].payload, "for-a");
    let again = db.get_mails_for("a").unwrap();
    assert_eq!(again.len(), 1);
    assert_eq!(db.get_mails_for("b").unwrap()[0].payload, "for-b");
}

#[test]
fn relay_scenario_live_then_offline() {
    let mut db = fresh();
    db.activate_self(String::from("alice"), String::from("pw"), 1).unwrap();
    let r = db.route(String::from("alice"), String::from("hi"));
    assert_eq!(r.unwrap(), RouteOutcome::Delivered { handle: 1 });
    assert_eq!(db.get_mails_for("alice").unwrap().len(), 0);
    db.deactivate(String::from("alice"));
    let r = db.route(String::from("alice"), String::from("bye"));
    assert_eq!(r.unwrap(), RouteOutcome::Persisted);
    let mails = db.get_mails_for("alice").unwrap();
    assert_eq!(mails.len(), 1);
    assert_eq!(mails[0].destination, "alice");
    assert_eq!(mails[0].payload, "bye");
    let body = relay::codec::encode_mailbox(&mails);
    assert_eq!(body, "[{\"destination\":\"alice\",\"payload\":\"bye\"}]");
}

#[test]
fn every_routed_message_is_delivered_or_persisted_exactly_once() {
    let mut db = fresh();
    db.activate_self(String::from("a"), String::from("pw"), 10).unwrap();
    let mut delivered: usize = 0;
    let mut persisted: usize = 0;
    for k in 0..6 {
        if k == 2 {
            db.deactivate(String::from("a"));
        }
        if k == 4 {
            db.activate_self(String::from("a"), String::from("pw"), 11).unwrap();
        }
        match db.route(String::from("a"), format!("m{}", k)).unwrap() {
            RouteOutcome::Delivered { .. } => delivered += 1,
            RouteOutcome::Persisted => persisted += 1,
        }
    }
    let stored = db.get_mails_for("a").unwrap();
    assert_eq!(delivered + persisted, 6);
    assert_eq!(stored.len(), persisted);
    let payloads: Vec<&str> = stored.iter().map(|m| m.payload.as_str()).collect();
    assert_eq!(payloads, vec!["m2", "m3"]);
}

#[test]
fn reactivation_after_deactivate_restores_delivery() {
    let mut db = fresh();
    db.activate_self(String::from("a"), String::from("pw1"), 1).unwrap();
    db.deactivate(String::from("a"));
    db.activate_self(String::from("a"), String::from("pw2"), 2).unwrap();
    assert_eq!(db.is_alive(&String::from("a")).unwrap(), true);
    let r = db.route(String::from("a"), String::from("again"));
    assert_eq!(r.unwrap(), RouteOutcome::Delivered { handle: 2 });
    assert_eq!(db.get_mails_for("a").unwrap().len(), 0);
}

#[test]
fn opening_an_impossible_path_reports_store_error() {
    let r = Database::new(String::from("/nonexistent-relay-dir/data.db"));
    match r {
        Err(StoreError::Io) => {}
        _ => panic!("expected a store error"),
    }
}

#[test]
fn email_fields_round_trip_through_store() {
    let mut db = fresh();
    let payload = String::from("line with \"quotes\" and \\slashes\\");
    db.save_mail_for(String::from("alice"), payload.clone()).unwrap();
    let mails: Vec<Email> = db.get_mails_for("alice").unwrap();
    assert_eq!(mails[0].payload, payload);
    assert_eq!(mails[0].destination, "alice");
}
