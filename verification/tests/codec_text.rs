use correlation_bridge::models::{
    Id, Person, ResponseMessageDto, ResponseMessageDtoWrapper, ServiceRequest,
};
use correlation_bridge::codec::{encode_request, encode_response, parse_request, parse_response};
use correlation_bridge::corrid::{format_correlation_id, parse_correlation_id};

fn person(name: &str, number: i32, department: &str) -> Person {
    Person { name: name.to_string(), id: Id { number, department: department.to_string() } }
}

#[test]
fn request_encoding_is_exact() {
    let e = ServiceRequest::get_person("abc123".to_string());
    assert_eq!(encode_request(&e).as_str(), "{\"request_id\":\"abc123\",\"command\":\"GetPerson\"}");
    let e2 = ServiceRequest::get_persons("abc123".to_string());
    assert_eq!(
        encode_request(&e2).as_str(),
        "{\"request_id\":\"abc123\",\"command\":\"GetPersons\"}"
    );
}

#[test]
fn request_round_trip() {
    let e = ServiceRequest::get_persons("97802048-fcb9-41b8-a7fc-d654168e66fa".to_string());
    let text = encode_request(&e);
    assert_eq!(parse_request(text.as_str()), Some(e));
}

#[test]
fn request_parser_is_strict() {
    assert_eq!(parse_request(""), None);
    assert_eq!(parse_request("{}"), None);
    // whitespace is not canonical
    assert_eq!(parse_request("{ \"request_id\":\"a\",\"command\":\"GetPerson\"}"), None);
    // unknown command kind
    assert_eq!(parse_request("{\"request_id\":\"a\",\"command\":\"GetAnimal\"}"), None);
    // trailing bytes
    assert_eq!(parse_request("{\"request_id\":\"a\",\"command\":\"GetPerson\"} "), None);
    // the two known kinds parse
    assert!(parse_request("{\"request_id\":\"a\",\"command\":\"GetPerson\"}").is_some());
    assert!(parse_request("{\"request_id\":\"a\",\"command\":\"GetPersons\"}").is_some());
}

#[test]
fn response_encoding_is_exact() {
    let w = ResponseMessageDtoWrapper::new(
        "id-1".to_string(),
        ResponseMessageDto::Person { person: person("Ann", -5, "D") },
    );
    let text = encode_response(&w);
    assert_eq!(
        text.as_str(),
        "{\"request_id\":\"id-1\",\"response_type\":\"Person\",\"response_message_dto\":{\"Person\":{\"person\":{\"name\":\"Ann\",\"id\":{\"number\":-5,\"department\":\"D\"}}}}}"
    );
}

#[test]
fn response_round_trip_with_escapes() {
    let w = ResponseMessageDtoWrapper::new(
        "req \"7\"".to_string(),
        ResponseMessageDto::Person { person: person("Quo\"te\\Back", 42, "R&\\D") },
    );
    let text = encode_response(&w);
    let back = parse_response(text.as_str());
    assert_eq!(back, Some(w));
}

#[test]
fn response_round_trip_collection() {
    let w = ResponseMessageDtoWrapper::new(
        "id-2".to_string(),
        ResponseMessageDto::Persons {
            persons: vec![person("Alice", 1, "Executive"), person("Bob", 2, "Finance")],
        },
    );
    let text = encode_response(&w);
    assert_eq!(parse_response(text.as_str()), Some(w));
}

#[test]
fn response_round_trip_empty_collection() {
    let w = ResponseMessageDtoWrapper::new(
        "id-3".to_string(),
        ResponseMessageDto::Persons { persons: vec![] },
    );
    let text = encode_response(&w);
    assert!(text.as_str().contains("\"persons\":[]"));
    assert_eq!(parse_response(text.as_str()), Some(w));
}

#[test]
fn response_parser_rejects_non_canonical_numbers() {
    let w = ResponseMessageDtoWrapper::new(
        "x".to_string(),
        ResponseMessageDto::Person { person: person("A", 7, "B") },
    );
    let good = encode_response(&w);
    assert!(parse_response(good.as_str()).is_some());
    let zero_padded = good.replace("\"number\":7", "\"number\":07");
    assert_eq!(parse_response(zero_padded.as_str()), None);
    let negative_zero = good.replace("\"number\":7", "\"number\":-0");
    assert_eq!(parse_response(negative_zero.as_str()), None);
    let too_big = good.replace("\"number\":7", "\"number\":2147483648");
    assert_eq!(parse_response(too_big.as_str()), None);
    let still_fits = good.replace("\"number\":7", "\"number\":2147483647");
    assert!(parse_response(still_fits.as_str()).is_some());
    let most_negative = good.replace("\"number\":7", "\"number\":-2147483648");
    assert!(parse_response(most_negative.as_str()).is_some());
}

#[test]
fn response_parser_rejects_garbage() {
    assert_eq!(parse_response("hello"), None);
    assert_eq!(parse_response("{\"request_id\":\"a\"}"), None);
    assert_eq!(
        parse_response("{\"request_id\":\"a\",\"response_type\":\"Pet\",\"response_message_dto\":{}}"),
        None
    );
}

#[test]
fn encoded_wire_format_is_plain_json() {
    let w = ResponseMessageDtoWrapper::new(
        "id-9".to_string(),
        ResponseMessageDto::Persons {
            persons: vec![
                person("Alice", 1, "Executive"),
                person("Bob", 2, "Finance"),
                person("Charlie", 3, "Operations"),
            ],
        },
    );
    let text = encode_response(&w);
    let v: serde_json::Value = serde_json::from_str(text.as_str()).unwrap();
    assert_eq!(v.get("request_id").unwrap().as_str().unwrap(), "id-9");
    assert_eq!(v.get("response_type").unwrap().as_str().unwrap(), "Persons");
    let items = v
        .get("response_message_dto")
        .unwrap()
        .get("Persons")
        .unwrap()
        .get("persons")
        .unwrap()
        .as_array()
        .unwrap();
    assert_eq!(items.len(), 3);
    assert_eq!(items[0].get("name").unwrap().as_str().unwrap(), "Alice");
    assert_eq!(items[1].get("id").unwrap().get("number").unwrap().as_i64().unwrap(), 2);
    assert_eq!(
        items[2].get("id").unwrap().get("department").unwrap().as_str().unwrap(),
        "Operations"
    );

    let req = encode_request(&ServiceRequest::get_person("r".to_string()));
    let rv: serde_json::Value = serde_json::from_str(req.as_str()).unwrap();
    assert_eq!(rv.get("command").unwrap().as_str().unwrap(), "GetPerson");
}

#[test]
fn escaped_strings_stay_plain_json() {
    let w = ResponseMessageDtoWrapper::new(
        "a\"b\\c".to_string(),
        ResponseMessageDto::Person { person: person("n\"m", 1, "d\\e") },
    );
    let text = encode_response(&w);
    let v: serde_json::Value = serde_json::from_str(text.as_str()).unwrap();
    assert_eq!(v.get("request_id").unwrap().as_str().unwrap(), "a\"b\\c");
    let p = v.get("response_message_dto").unwrap().get("Person").unwrap().get("person").unwrap();
    assert_eq!(p.get("name").unwrap().as_str().unwrap(), "n\"m");
    assert_eq!(p.get("id").unwrap().get("department").unwrap().as_str().unwrap(), "d\\e");
}

#[test]
fn correlation_id_text_matches_the_standard_rendering() {
    let samples: [u128; 4] = [
        0,
        1,
        0x97802048fcb941b8a7fcd654168e66fa,
        u128::MAX,
    ];
    for v in samples {
        let mine = format_correlation_id(v);
        let standard = uuid::Uuid::from_u128(v).to_string();
        assert_eq!(mine.as_str(), standard.as_str());
        assert_eq!(parse_correlation_id(mine.as_str()), Some(v));
    }
}

#[test]
fn correlation_id_parser_is_strict() {
    assert_eq!(parse_correlation_id(""), None);
    assert_eq!(parse_correlation_id("97802048-fcb9-41b8-a7fc-d654168e66f"), None);
    assert_eq!(parse_correlation_id("97802048-fcb9-41b8-a7fc-d654168e66fa0"), None);
    assert_eq!(parse_correlation_id("97802048xfcb9-41b8-a7fc-d654168e66fa"), None);
    assert_eq!(parse_correlation_id("97802048-FCB9-41b8-a7fc-d654168e66fa"), None);
    assert_eq!(parse_correlation_id("g7802048-fcb9-41b8-a7fc-d654168e66fa"), None);
    assert_eq!(
        parse_correlation_id("97802048-fcb9-41b8-a7fc-d654168e66fa"),
        Some(0x97802048fcb941b8a7fcd654168e66fa)
    );
}
