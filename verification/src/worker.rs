//! The remote worker's verified core: decode one request envelope,
//! compute the domain answer, and render the response envelope carrying
//! the same correlation id. Consuming the request topic and publishing
//! the reply stays with the surrounding runtime.

use vstd::prelude::*;
use vstd::string::StringExecFns;
use crate::models::{
    Command, ServiceRequest, Person, Id, ResponseMessageDto, ResponseMessageDtoWrapper,
    PersonV, DtoV, ReqV, WrapperV,
};
use crate::codec::{
    parse_request, encode_response, spec_parse_request, spec_req_chars, spec_resp_chars,
};

verus! {

/// The single-person answer the worker always gives.
pub open spec fn alice_default_v() -> PersonV {
    PersonV { name: "Alice - default"@, number: 1, department: "Executive"@ }
}

/// The fixed three-person collection answer, in order.
pub open spec fn persons_canned_v() -> Seq<PersonV> {
    seq![
        PersonV { name: "Alice"@, number: 1, department: "Executive"@ },
        PersonV { name: "Bob"@, number: 2, department: "Finance"@ },
        PersonV { name: "Charlie"@, number: 3, department: "Operations"@ },
    ]
}

/// The response envelope the worker publishes for a given request: the
/// canned answer for its command, tagged with the matching response
/// kind, carrying the request's own correlation id.
pub open spec fn canned_response_v(rv: ReqV) -> WrapperV {
    match rv.command {
        Command::GetPerson => WrapperV {
            response_message_dto: DtoV::Person { person: alice_default_v() },
            request_id: rv.request_id,
            response_type: "Person"@,
        },
        Command::GetPersons => WrapperV {
            response_message_dto: DtoV::Persons { persons: persons_canned_v() },
            request_id: rv.request_id,
            response_type: "Persons"@,
        },
    }
}

fn person_record(name: &str, number: i32, department: &str) -> (p: Person)
    ensures
        p@ == (PersonV { name: name@, number: number as int, department: department@ }),
{
    Person {
        name: String::from_str(name),
        id: Id { number, department: String::from_str(department) },
    }
}

/// Handles one request message: decode the envelope, compute the canned
/// domain answer, and render the reply. On success the bus key is the
/// request's own correlation id text and the body is exactly the
/// canonical rendering of the canned response for the request's command.
/// A payload that is no request envelope is skipped with no reply.
pub fn handle_request(payload: &str) -> (r: Option<(String, String)>)
    ensures
        match r {
            Some((key, resp)) => spec_parse_request(payload@) matches Some(rv) && key@
                == rv.request_id && resp@ == spec_resp_chars(canned_response_v(rv)),
            None => spec_parse_request(payload@) is None && forall|rv: ReqV|
                payload@ != spec_req_chars(rv),
        },
{
    let e = match parse_request(payload) {
        Some(e) => e,
        None => {
            return None;
        },
    };
    let key = e.request_id.clone();
    let wrapper = match e.command {
        Command::GetPerson => {
            let person = person_record("Alice - default", 1, "Executive");
            ResponseMessageDtoWrapper::new(
                e.request_id,
                ResponseMessageDto::Person { person },
            )
        },
        Command::GetPersons => {
            let mut persons: Vec<Person> = Vec::new();
            persons.push(person_record("Alice", 1, "Executive"));
            persons.push(person_record("Bob", 2, "Finance"));
            persons.push(person_record("Charlie", 3, "Operations"));
            proof {
                assert(crate::models::persons_views(persons@) =~= persons_canned_v());
            }
            ResponseMessageDtoWrapper::new(
                e.request_id,
                ResponseMessageDto::Persons { persons },
            )
        },
    };
    proof {
        assert(wrapper@ == canned_response_v(e@));
    }
    let resp = encode_response(&wrapper);
    Some((key, resp))
}

} // verus!
