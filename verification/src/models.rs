//! Data model of the bridge: commands, envelopes and the domain records
//! they carry, plus the small query/resource records of the surrounding
//! service.

use vstd::prelude::*;
use crate::text::str_eq;

verus! {

/// The closed set of request kinds a caller may issue.
#[derive(Clone, Copy, PartialEq, Eq, Structural, Debug)]
pub enum Command {
    GetPerson,
    GetPersons,
}

/// The outbound request envelope: a correlation id rendered as text, plus
/// the command to run.
#[derive(Clone, PartialEq, Eq, Debug)]
pub struct ServiceRequest {
    pub request_id: String,
    pub command: Command,
}

impl ServiceRequest {
    /// Builds a request envelope asking for the single person record.
    pub fn get_person(request_id: String) -> (r: Self)
        ensures
            r.request_id == request_id,
            r.command == Command::GetPerson,
    {
        Self { request_id, command: Command::GetPerson }
    }

    /// Builds a request envelope asking for the person collection.
    pub fn get_persons(request_id: String) -> (r: Self)
        ensures
            r.request_id == request_id,
            r.command == Command::GetPersons,
    {
        Self { request_id, command: Command::GetPersons }
    }
}

/// An employee identifier: a number and a department name.
#[derive(Clone, PartialEq, Eq, Debug)]
pub struct Id {
    pub number: i32,
    pub department: String,
}

/// A person record as carried in response envelopes.
#[derive(Clone, PartialEq, Eq, Debug)]
pub struct Person {
    pub name: String,
    pub id: Id,
}

/// The typed result a reply delivers: one variant per known response kind.
#[derive(Clone, PartialEq, Eq, Debug)]
pub enum ResponseMessageDto {
    Person { person: Person },
    Persons { persons: Vec<Person> },
}

impl ResponseMessageDto {
    /// The text tag that the wire format uses for this variant.
    pub open spec fn spec_tag(&self) -> Seq<char> {
        match self {
            ResponseMessageDto::Person { .. } => "Person"@,
            ResponseMessageDto::Persons { .. } => "Persons"@,
        }
    }
}

/// The inbound response envelope: the typed result, the correlation id it
/// answers, and the text tag naming which variant the result holds.
#[derive(Clone, PartialEq, Eq, Debug)]
pub struct ResponseMessageDtoWrapper {
    pub response_message_dto: ResponseMessageDto,
    pub request_id: String,
    pub response_type: String,
}

impl ResponseMessageDtoWrapper {
    /// The tag field must name the variant actually held.
    pub open spec fn wf(&self) -> bool {
        self@.wf()
    }

    /// Whether the tag field names the variant actually held: an
    /// unrecognized or mismatched response kind fails this check.
    pub fn has_matching_tag(&self) -> (r: bool)
        ensures
            r == self.wf(),
    {
        match &self.response_message_dto {
            ResponseMessageDto::Person { .. } => str_eq(self.response_type.as_str(), "Person"),
            ResponseMessageDto::Persons { .. } => str_eq(self.response_type.as_str(), "Persons"),
        }
    }

    /// Wraps a typed result together with the id it answers, tagging it
    /// with the matching response kind.
    pub fn new(request_id: String, dto: ResponseMessageDto) -> (r: Self)
        ensures
            r.wf(),
            r.request_id == request_id,
            r.response_message_dto == dto,
    {
        let response_type = match &dto {
            ResponseMessageDto::Person { .. } => String::from_str("Person"),
            ResponseMessageDto::Persons { .. } => String::from_str("Persons"),
        };
        Self { response_message_dto: dto, request_id, response_type }
    }
}

/// The employee query root: a plain value plus the cached single/collection
/// results a resolver may carry.
pub struct EmployeeQuery {
    pub value: i32,
    pub person: Option<Person>,
    pub persons: Vec<Person>,
}

impl EmployeeQuery {
    /// Returns the sum of a and b.
    pub fn add(&self, a: i32, b: i32) -> (r: i32)
        requires
            i32::MIN <= a + b <= i32::MAX,
        ensures
            r == a + b,
    {
        a + b
    }

    /// Returns the stored plain value.
    pub fn value(&self) -> (r: i32)
        ensures
            r == self.value,
    {
        self.value
    }
}

/// The pet query root.
pub struct PetQuery {
    pub animal_type: String,
}

impl PetQuery {
    /// Returns the stored animal type.
    pub fn get_animal_type(&self) -> (r: &String)
        ensures
            r == self.animal_type,
    {
        &self.animal_type
    }
}

/// The merged query root combining the employee and pet queries.
pub struct MergedQuery(pub EmployeeQuery, pub PetQuery);

/// A simple animal record.
#[derive(Clone, PartialEq, Eq, Debug)]
pub struct Animal {
    pub age: u32,
    pub animal: String,
}

/// A simple input record with one required and one optional field.
#[derive(Clone, PartialEq, Eq, Debug)]
pub struct Input {
    pub required_input: String,
    pub maybe_other_input: Option<String>,
}

/// The reply to a simple echo request: the required field carried over,
/// the optional one kept as it was.
#[derive(Clone, PartialEq, Eq, Debug)]
pub struct Output {
    pub required: String,
    pub maybe_other: Option<String>,
}

/// Maps an input record to the output record echoed back to the caller.
pub fn output_of(input: Input) -> (r: Output)
    ensures
        r.required == input.required_input,
        r.maybe_other == input.maybe_other_input,
{
    Output { required: input.required_input, maybe_other: input.maybe_other_input }
}

/// The mathematical view of a person record: plain character sequences
/// and an unbounded integer.
pub ghost struct PersonV {
    pub name: Seq<char>,
    pub number: int,
    pub department: Seq<char>,
}

impl View for Person {
    type V = PersonV;

    open spec fn view(&self) -> PersonV {
        PersonV {
            name: self.name@,
            number: self.id.number as int,
            department: self.id.department@,
        }
    }
}

/// The views of a sequence of person records, in order.
pub open spec fn persons_views(ps: Seq<Person>) -> Seq<PersonV> {
    ps.map_values(|p: Person| p@)
}

/// The mathematical view of a typed result.
pub ghost enum DtoV {
    Person { person: PersonV },
    Persons { persons: Seq<PersonV> },
}

impl View for ResponseMessageDto {
    type V = DtoV;

    open spec fn view(&self) -> DtoV {
        match self {
            ResponseMessageDto::Person { person } => DtoV::Person { person: person@ },
            ResponseMessageDto::Persons { persons } => DtoV::Persons {
                persons: persons_views(persons@),
            },
        }
    }
}

/// The mathematical view of a request envelope.
pub ghost struct ReqV {
    pub request_id: Seq<char>,
    pub command: Command,
}

impl View for ServiceRequest {
    type V = ReqV;

    open spec fn view(&self) -> ReqV {
        ReqV { request_id: self.request_id@, command: self.command }
    }
}

/// The mathematical view of a response envelope.
pub ghost struct WrapperV {
    pub response_message_dto: DtoV,
    pub request_id: Seq<char>,
    pub response_type: Seq<char>,
}

impl DtoV {
    /// The text tag that the wire format uses for this variant.
    pub open spec fn spec_tag(&self) -> Seq<char> {
        match self {
            DtoV::Person { .. } => "Person"@,
            DtoV::Persons { .. } => "Persons"@,
        }
    }
}

impl WrapperV {
    /// The tag field names the variant actually held.
    pub open spec fn wf(&self) -> bool {
        self.response_type == self.response_message_dto.spec_tag()
    }
}

impl View for ResponseMessageDtoWrapper {
    type V = WrapperV;

    open spec fn view(&self) -> WrapperV {
        WrapperV {
            response_message_dto: self.response_message_dto@,
            request_id: self.request_id@,
            response_type: self.response_type@,
        }
    }
}

} // verus!
