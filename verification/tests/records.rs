use memorabooth::config::{settle, wrap, LayoutData, Plan, Settlement, Stored, Versioned, LAYOUTS_VERSION, PRICING_VERSION};
use memorabooth::dispatch::{report, sheets_to_print};
use memorabooth::geometry::LayoutVariant;
use memorabooth::mail::{
    add_record, advance, copy_record, email_prefix, is_stored, photo_file_name, photo_file_names, same_record,
    unsent, EmailRecord, MailAction, MailError, MailEvent,
};
use memorabooth::text::decimal;
use memorabooth::pricing::settle_unversioned;

fn plan(title: &str, price: u32) -> Plan {
    Plan { title: title.to_string(), price, copies: 2, popular: false }
}

fn titles(plans: &[Plan]) -> Vec<String> {
    plans.iter().map(|p| p.title.clone()).collect()
}

fn record(email: &str, photos: &[&str]) -> EmailRecord {
    EmailRecord { email: email.to_string(), photos: photos.iter().map(|p| p.to_string()).collect() }
}

#[test]
fn versions_are_one() {
    assert_eq!(PRICING_VERSION, 1);
    assert_eq!(LAYOUTS_VERSION, 1);
}

#[test]
fn wrap_puts_data_under_its_version() {
    let wrapped = wrap(PRICING_VERSION, vec![plan("Basic", 100)]);
    assert_eq!(wrapped.version, 1);
    assert_eq!(titles(&wrapped.data), vec!["Basic"]);
}

#[test]
fn store_of_the_current_version_is_kept() {
    let found = Stored::Found(Versioned { version: 1, data: vec![plan("Stored", 150)] });
    let Settlement { data, remove_stale, write } = settle(found, PRICING_VERSION, vec![plan("Default", 100)]);
    assert_eq!(titles(&data), vec!["Stored"]);
    assert_eq!(data[0].price, 150);
    assert!(!remove_stale);
    assert!(!write);
}

#[test]
fn store_of_another_version_is_replaced_by_the_defaults() {
    for version in [0u32, 2, u32::MAX] {
        let found = Stored::Found(Versioned { version, data: vec![plan("Stored", 150)] });
        let out = settle(found, PRICING_VERSION, vec![plan("Default", 100)]);
        assert_eq!(titles(&out.data), vec!["Default"]);
        assert!(out.remove_stale);
        assert!(out.write);
    }
}

#[test]
fn unreadable_store_is_replaced_by_the_defaults() {
    let out = settle(Stored::Unreadable, PRICING_VERSION, vec![plan("Default", 100)]);
    assert_eq!(titles(&out.data), vec!["Default"]);
    assert!(out.remove_stale);
    assert!(out.write);
}

#[test]
fn absent_store_is_written_from_the_defaults() {
    let out = settle(Stored::Absent, LAYOUTS_VERSION, vec![LayoutData { kind: LayoutVariant::B, disabled: true }]);
    assert_eq!(out.data, vec![LayoutData { kind: LayoutVariant::B, disabled: true }]);
    assert!(!out.remove_stale);
    assert!(out.write);
}

#[test]
fn unversioned_store_is_used_as_it_is() {
    let out = settle_unversioned(Some(vec![1, 2]), vec![3]);
    assert_eq!(out.data, vec![1, 2]);
    assert!(!out.write);
    let out = settle_unversioned(None, vec![3]);
    assert_eq!(out.data, vec![3]);
    assert!(out.write);
}

#[test]
fn unversioned_plan_counts_strips() {
    let legacy = memorabooth::pricing::Plan { title: "Basic".to_string(), price: 100, strips: 2, popular: true };
    let out = settle_unversioned(None, vec![legacy]);
    assert_eq!(out.data[0].strips, 2);
    assert!(out.data[0].popular);
}

#[test]
fn twin_sheets_give_two_copies_each() {
    assert_eq!(sheets_to_print(LayoutVariant::C, 4), 2);
    assert_eq!(sheets_to_print(LayoutVariant::C, 5), 2);
    assert_eq!(sheets_to_print(LayoutVariant::C, 1), 0);
    assert_eq!(sheets_to_print(LayoutVariant::C, 0), 0);
    assert_eq!(sheets_to_print(LayoutVariant::A, 3), 3);
    assert_eq!(sheets_to_print(LayoutVariant::B, 1), 1);
    assert_eq!(sheets_to_print(LayoutVariant::C, usize::MAX), usize::MAX / 2);
}

#[test]
fn email_prefix_is_what_stands_before_the_first_at() {
    assert_eq!(email_prefix("ada@example.com"), "ada");
    assert_eq!(email_prefix("ada@b@c"), "ada");
    assert_eq!(email_prefix("no-at-sign"), "no-at-sign");
    assert_eq!(email_prefix("@example.com"), "");
    assert_eq!(email_prefix(""), "");
    assert_eq!(email_prefix("zoë@example.com"), "zoë");
}

#[test]
fn decimal_writes_numbers() {
    assert_eq!(decimal(0), "0");
    assert_eq!(decimal(7), "7");
    assert_eq!(decimal(10), "10");
    assert_eq!(decimal(1234567890), "1234567890");
    assert_eq!(decimal(u128::MAX), u128::MAX.to_string());
    for n in 0..2000u128 {
        assert_eq!(decimal(n), n.to_string());
    }
}

#[test]
fn photo_names_count_from_one() {
    assert_eq!(photo_file_name("ada", 0), "ada_photo_1.png");
    assert_eq!(photo_file_name("ada", 9), "ada_photo_10.png");
    assert_eq!(photo_file_name("", 2), "_photo_3.png");
    assert_eq!(photo_file_name("x", usize::MAX), format!("x_photo_{}.png", usize::MAX as u128 + 1));
    assert_eq!(
        photo_file_names("ada@example.com", 3),
        vec!["ada_photo_1.png", "ada_photo_2.png", "ada_photo_3.png"]
    );
    assert!(photo_file_names("ada@example.com", 0).is_empty());
}

#[test]
fn address_is_stored_once() {
    let mut queue = vec![record("ada@example.com", &["a.png"])];
    assert!(is_stored(&queue, "ada@example.com"));
    assert!(!is_stored(&queue, "ada@example.org"));
    assert!(!is_stored(&queue, "Ada@example.com"));
    assert!(!is_stored(&vec![], "ada@example.com"));

    let refused = add_record(&mut queue, "ada@example.com".to_string(), vec!["b.png".to_string()]);
    assert_eq!(refused, Err(MailError::AlreadyStored));
    assert_eq!(queue.len(), 1);
    assert_eq!(queue[0].photos, vec!["a.png"]);

    let added = add_record(&mut queue, "bob@example.com".to_string(), vec!["b.png".to_string()]);
    assert_eq!(added, Ok(()));
    assert_eq!(queue.len(), 2);
    assert_eq!(queue[0].email, "ada@example.com");
    assert_eq!(queue[1].email, "bob@example.com");
    assert_eq!(queue[1].photos, vec!["b.png"]);
}

#[test]
fn records_are_equal_by_address_and_photos() {
    let a = record("ada@example.com", &["a.png", "b.png"]);
    assert!(same_record(&a, &record("ada@example.com", &["a.png", "b.png"])));
    assert!(!same_record(&a, &record("ada@example.com", &["a.png"])));
    assert!(!same_record(&a, &record("ada@example.com", &["b.png", "a.png"])));
    assert!(!same_record(&a, &record("bob@example.com", &["a.png", "b.png"])));
    let copy = copy_record(&a);
    assert_eq!(copy.email, a.email);
    assert_eq!(copy.photos, a.photos);
}

#[test]
fn unsent_keeps_what_was_not_sent() {
    let queue = vec![record("a@x", &["1"]), record("b@x", &["2"]), record("a@x", &["1"]), record("c@x", &[])];
    let sent = vec![record("a@x", &["1"])];
    let rest = unsent(&queue, &sent);
    assert_eq!(rest.len(), 2);
    assert_eq!(rest[0].email, "b@x");
    assert_eq!(rest[1].email, "c@x");
    assert_eq!(unsent(&queue, &vec![]).len(), 4);
    assert!(unsent(&queue, &queue).is_empty());
}

#[test]
fn mail_run_sends_in_order_and_stores_an_empty_queue() {
    let queue = vec![record("a@x", &["1"]), record("b@x", &["2"]), record("c@x", &[])];
    let (delivered, action) = advance(&queue, 0, MailEvent::Started);
    assert_eq!(delivered, 0);
    assert!(matches!(action, MailAction::Send(0)));
    let (delivered, action) = advance(&queue, delivered, MailEvent::Delivered);
    assert_eq!(delivered, 1);
    assert!(matches!(action, MailAction::Send(1)));
    let (delivered, action) = advance(&queue, delivered, MailEvent::Delivered);
    assert_eq!(delivered, 2);
    assert!(matches!(action, MailAction::Send(2)));
    let (delivered, action) = advance(&queue, delivered, MailEvent::Delivered);
    assert_eq!(delivered, 3);
    assert!(matches!(action, MailAction::Store(rest) if rest.is_empty()));
}

#[test]
fn mail_run_over_an_empty_queue_stores_it_at_once() {
    let (delivered, action) = advance(&vec![], 0, MailEvent::Started);
    assert_eq!(delivered, 0);
    assert!(matches!(action, MailAction::Store(rest) if rest.is_empty()));
}

#[test]
fn refusal_ends_the_mail_run() {
    let queue = vec![record("a@x", &["1"]), record("b@x", &["2"])];
    let (delivered, action) = advance(&queue, 1, MailEvent::Refused);
    assert_eq!(delivered, 1);
    assert!(matches!(action, MailAction::Abort));
    let (delivered, action) = advance(&queue, 2, MailEvent::Delivered);
    assert_eq!(delivered, 2);
    assert!(matches!(action, MailAction::Abort));
}

#[test]
fn failed_program_is_never_reported_as_a_success() {
    assert_eq!(report(true, "shot.jpg", "Failed to capture image: ", "noise"), Ok("shot.jpg".to_string()));
    assert_eq!(
        report(false, "shot.jpg", "Failed to capture image: ", "no camera"),
        Err("Failed to capture image: no camera".to_string())
    );
    assert_eq!(report(false, "out.png", "Failed to print: ", ""), Err("Failed to print: ".to_string()));
}
