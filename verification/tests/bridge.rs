use std::sync::mpsc;
use std::time::Instant;

use correlation_bridge::models::{
    Command, EmployeeQuery, Id, Input, Person, PetQuery, ResponseMessageDto,
    ResponseMessageDtoWrapper, ServiceRequest, output_of,
};
use correlation_bridge::store::{CorrelationStore, RegisterOutcome};
use correlation_bridge::dispatch::{prepare_dispatch, await_reply, remaining_budget};
use correlation_bridge::listener::{handle_message, ListenerOutcome};
use correlation_bridge::worker::handle_request;

fn dto_person(name: &str, number: i32, department: &str) -> ResponseMessageDto {
    ResponseMessageDto::Person {
        person: Person {
            name: name.to_string(),
            id: Id { number, department: department.to_string() },
        },
    }
}

#[test]
fn store_rejects_duplicate_registration() {
    let mut store = CorrelationStore::new(4);
    let (tx1, _rx1) = mpsc::channel();
    let (tx2, _rx2) = mpsc::channel();
    assert_eq!(store.register(7, tx1), RegisterOutcome::Registered);
    assert_eq!(store.register(7, tx2), RegisterOutcome::Duplicate);
    assert_eq!(store.len(), 1);
}

#[test]
fn store_delivers_at_most_once() {
    let mut store = CorrelationStore::new(4);
    let (tx, rx) = mpsc::channel();
    assert_eq!(store.register(1, tx), RegisterOutcome::Registered);
    assert!(store.complete(1, dto_person("Ann", 1, "A")));
    assert_eq!(rx.try_recv().unwrap(), dto_person("Ann", 1, "A"));
    // the waiter is gone: a second completion finds nothing
    assert!(!store.complete(1, dto_person("Bob", 2, "B")));
    assert!(rx.try_recv().is_err());
    assert_eq!(store.len(), 0);
}

#[test]
fn store_is_bounded_and_evicts_least_recently_registered() {
    let mut store = CorrelationStore::new(2);
    let (tx1, rx1) = mpsc::channel();
    let (tx2, rx2) = mpsc::channel();
    let (tx3, rx3) = mpsc::channel();
    assert_eq!(store.register(1, tx1), RegisterOutcome::Registered);
    assert_eq!(store.register(2, tx2), RegisterOutcome::Registered);
    assert_eq!(store.len(), 2);
    // a third waiter while two are pending evicts the least recently
    // registered one
    assert_eq!(store.register(3, tx3), RegisterOutcome::Evicted { evicted: 1 });
    assert_eq!(store.len(), 2);
    // a late reply for the evicted id is dropped
    assert!(!store.complete(1, dto_person("Late", 9, "L")));
    assert!(rx1.try_recv().is_err());
    // the other waiters are unaffected
    assert!(store.complete(2, dto_person("Two", 2, "B")));
    assert_eq!(rx2.try_recv().unwrap(), dto_person("Two", 2, "B"));
    assert!(store.complete(3, dto_person("Three", 3, "C")));
    assert_eq!(rx3.try_recv().unwrap(), dto_person("Three", 3, "C"));
    assert_eq!(store.len(), 0);
}

#[test]
fn dispatch_happy_path_single_person() {
    let mut store = CorrelationStore::new(500);
    let p = prepare_dispatch(&mut store, Command::GetPerson).unwrap();
    assert_eq!(store.len(), 1);
    // the worker answers the published request, keyed by the same id
    let (key, resp) = handle_request(p.payload.as_str()).unwrap();
    assert_eq!(key.as_str(), p.key.as_str());
    // the listener resolves the waiter
    assert_eq!(
        handle_message(&mut store, key.as_str(), resp.as_str()),
        ListenerOutcome::Delivered { id: p.id }
    );
    assert_eq!(store.len(), 0);
    let got = await_reply(&p.rx, 2000);
    assert_eq!(got, Some(dto_person("Alice - default", 1, "Executive")));
}

#[test]
fn dispatch_collection_path_is_ordered() {
    let mut store = CorrelationStore::new(500);
    let p = prepare_dispatch(&mut store, Command::GetPersons).unwrap();
    let (key, resp) = handle_request(p.payload.as_str()).unwrap();
    assert_eq!(
        handle_message(&mut store, key.as_str(), resp.as_str()),
        ListenerOutcome::Delivered { id: p.id }
    );
    let got = await_reply(&p.rx, 2000).unwrap();
    let expected = ResponseMessageDto::Persons {
        persons: vec![
            Person { name: "Alice".to_string(), id: Id { number: 1, department: "Executive".to_string() } },
            Person { name: "Bob".to_string(), id: Id { number: 2, department: "Finance".to_string() } },
            Person { name: "Charlie".to_string(), id: Id { number: 3, department: "Operations".to_string() } },
        ],
    };
    assert_eq!(got, expected);
}

#[test]
fn replies_reach_their_own_waiters_even_out_of_order() {
    let mut store = CorrelationStore::new(500);
    let first = prepare_dispatch(&mut store, Command::GetPerson).unwrap();
    let second = prepare_dispatch(&mut store, Command::GetPersons).unwrap();
    assert_ne!(first.id, second.id);
    let (key1, resp1) = handle_request(first.payload.as_str()).unwrap();
    let (key2, resp2) = handle_request(second.payload.as_str()).unwrap();
    // replies arrive in the opposite order of the requests
    assert_eq!(
        handle_message(&mut store, key2.as_str(), resp2.as_str()),
        ListenerOutcome::Delivered { id: second.id }
    );
    assert_eq!(
        handle_message(&mut store, key1.as_str(), resp1.as_str()),
        ListenerOutcome::Delivered { id: first.id }
    );
    // each waiter sees the value published for its own id, never the
    // other's
    let got1 = await_reply(&first.rx, 2000).unwrap();
    let got2 = await_reply(&second.rx, 2000).unwrap();
    assert_eq!(got1, dto_person("Alice - default", 1, "Executive"));
    assert!(matches!(got2, ResponseMessageDto::Persons { .. }));
}

#[test]
fn dispatch_with_no_worker_times_out_quietly() {
    let mut store = CorrelationStore::new(500);
    let p = prepare_dispatch(&mut store, Command::GetPerson).unwrap();
    let started = Instant::now();
    let got = await_reply(&p.rx, 300);
    let elapsed = started.elapsed().as_millis();
    assert_eq!(got, None);
    // the deadline was honoured: at least the timeout, and well within
    // the scheduling slack
    assert!(elapsed >= 290, "returned too early: {elapsed} ms");
    assert!(elapsed < 5000, "returned far too late: {elapsed} ms");
    // the waiter is not deregistered on timeout
    assert_eq!(store.len(), 1);
}

#[test]
fn late_reply_still_completes_the_lingering_waiter() {
    let mut store = CorrelationStore::new(500);
    let p = prepare_dispatch(&mut store, Command::GetPerson).unwrap();
    assert_eq!(await_reply(&p.rx, 50), None);
    // the reply arrives after the caller gave up: the waiter is still
    // found and removed, and no other waiter is touched
    let (key, resp) = handle_request(p.payload.as_str()).unwrap();
    assert_eq!(
        handle_message(&mut store, key.as_str(), resp.as_str()),
        ListenerOutcome::Delivered { id: p.id }
    );
    assert_eq!(store.len(), 0);
}

#[test]
fn listener_skips_malformed_messages() {
    let mut store = CorrelationStore::new(500);
    let p = prepare_dispatch(&mut store, Command::GetPerson).unwrap();
    assert_eq!(
        handle_message(&mut store, p.key.as_str(), "not an envelope"),
        ListenerOutcome::BadPayload
    );
    assert_eq!(
        handle_message(&mut store, "not an id", "not an envelope"),
        ListenerOutcome::BadKey
    );
    assert_eq!(store.len(), 1);
}

#[test]
fn listener_reports_missing_waiter() {
    let mut store = CorrelationStore::new(500);
    let w = ResponseMessageDtoWrapper::new(
        "stray".to_string(),
        ResponseMessageDto::Person {
            person: Person { name: "X".to_string(), id: Id { number: 1, department: "Y".to_string() } },
        },
    );
    let text = correlation_bridge::codec::encode_response(&w);
    let key = correlation_bridge::corrid::format_correlation_id(12345);
    assert_eq!(
        handle_message(&mut store, key.as_str(), text.as_str()),
        ListenerOutcome::NoWaiter { id: 12345 }
    );
}

#[test]
fn listener_skips_unrecognized_response_kinds() {
    let mut store = CorrelationStore::new(500);
    let p = prepare_dispatch(&mut store, Command::GetPerson).unwrap();
    // a reply whose kind tag names no known variant: skipped, the
    // waiter stays pending and nothing is delivered
    let bogus = ResponseMessageDtoWrapper {
        response_message_dto: dto_person("Mallory", 9, "Z"),
        request_id: "r".to_string(),
        response_type: "Bogus".to_string(),
    };
    let text = correlation_bridge::codec::encode_response(&bogus);
    assert_eq!(
        handle_message(&mut store, p.key.as_str(), text.as_str()),
        ListenerOutcome::UnknownKind
    );
    // a reply whose tag names the wrong known variant is skipped too
    let crossed = ResponseMessageDtoWrapper {
        response_message_dto: dto_person("Mallory", 9, "Z"),
        request_id: "r".to_string(),
        response_type: "Persons".to_string(),
    };
    let crossed_text = correlation_bridge::codec::encode_response(&crossed);
    assert_eq!(
        handle_message(&mut store, p.key.as_str(), crossed_text.as_str()),
        ListenerOutcome::UnknownKind
    );
    assert_eq!(store.len(), 1);
    assert_eq!(await_reply(&p.rx, 50), None);
}

#[test]
fn worker_ignores_malformed_requests() {
    assert_eq!(handle_request("nonsense"), None);
    assert_eq!(handle_request("{\"request_id\":\"a\",\"command\":\"GetAnimal\"}"), None);
}

#[test]
fn budget_is_recomputed_exactly() {
    assert_eq!(remaining_budget(2000, 0), Some(2000));
    assert_eq!(remaining_budget(2000, 300), Some(1700));
    assert_eq!(remaining_budget(2000, 1999), Some(1));
    assert_eq!(remaining_budget(2000, 2000), None);
    assert_eq!(remaining_budget(2000, 2500), None);
    assert_eq!(remaining_budget(0, 0), None);
}

#[test]
fn query_roots_answer_plainly() {
    let q = EmployeeQuery { value: 41, person: None, persons: vec![] };
    assert_eq!(q.value(), 41);
    assert_eq!(q.add(2, 3), 5);
    let pet = PetQuery { animal_type: "cat".to_string() };
    assert_eq!(pet.get_animal_type().as_str(), "cat");
}

#[test]
fn request_envelopes_carry_their_command() {
    let a = ServiceRequest::get_person("one".to_string());
    assert_eq!(a.command, Command::GetPerson);
    assert_eq!(a.request_id.as_str(), "one");
    let b = ServiceRequest::get_persons("two".to_string());
    assert_eq!(b.command, Command::GetPersons);
}

#[test]
fn response_wrapper_tags_match_their_variant() {
    let w = ResponseMessageDtoWrapper::new(
        "r".to_string(),
        ResponseMessageDto::Persons { persons: vec![] },
    );
    assert_eq!(w.response_type.as_str(), "Persons");
    let w2 = ResponseMessageDtoWrapper::new(
        "r".to_string(),
        ResponseMessageDto::Person {
            person: Person { name: "N".to_string(), id: Id { number: 0, department: "D".to_string() } },
        },
    );
    assert_eq!(w2.response_type.as_str(), "Person");
}

#[test]
fn echo_output_carries_the_input_over() {
    let out = output_of(Input {
        required_input: "must".to_string(),
        maybe_other_input: Some("may".to_string()),
    });
    assert_eq!(out.required.as_str(), "must");
    assert_eq!(out.maybe_other.as_deref(), Some("may"));
    let out2 = output_of(Input { required_input: "solo".to_string(), maybe_other_input: None });
    assert_eq!(out2.maybe_other, None);
}
