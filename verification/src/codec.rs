//! The envelope codec: the canonical text form of request and response
//! envelopes on the bus, with encoders and strict parsers. A parser
//! succeeds exactly on the canonical rendering of some envelope and then
//! returns that envelope.
//!
//! Canonical means one spelling per envelope: the member order listed in
//! the wire description, no insignificant whitespace, and canonical
//! integers. This is a deliberate choice: both ends of the bridge emit
//! through these encoders, so every message of this system parses, the
//! renderings are provably injective, and anything else — including a
//! semantically equal body with reordered members — is treated as
//! malformed and skipped, as decode failures are.

use vstd::prelude::*;
use vstd::string::StrSliceExecFns;
use vstd::string::StringExecFns;
use crate::escape::{esc_chars, push_escaped, scan_string, scan_string_at, lemma_scan_string_complete, lemma_scan_string_bounds};
use crate::text::{int_chars, push_int_chars, scan_int, scan_int_at, str_eq, dec_val, push_char};
use crate::models::{
    Command, ServiceRequest, Person, Id, ResponseMessageDto, ResponseMessageDtoWrapper,
    PersonV, DtoV, ReqV, WrapperV, persons_views,
};

verus! {

// --- the literal fragments of the wire format -------------------------

pub open spec fn lit_obj_head() -> Seq<char> {
    "{\"request_id\":\""@
}

pub open spec fn lit_req_mid() -> Seq<char> {
    "\",\"command\":\""@
}

pub open spec fn lit_req_tail() -> Seq<char> {
    "\"}"@
}

pub open spec fn cmd_chars(c: Command) -> Seq<char> {
    match c {
        Command::GetPerson => "GetPerson"@,
        Command::GetPersons => "GetPersons"@,
    }
}

pub open spec fn lit_p_head() -> Seq<char> {
    "{\"name\":\""@
}

pub open spec fn lit_p_mid1() -> Seq<char> {
    "\",\"id\":{\"number\":"@
}

pub open spec fn lit_p_mid2() -> Seq<char> {
    ",\"department\":\""@
}

pub open spec fn lit_p_tail() -> Seq<char> {
    "\"}}"@
}

pub open spec fn lit_r_mid1() -> Seq<char> {
    "\",\"response_type\":\""@
}

pub open spec fn lit_r_mid2() -> Seq<char> {
    "\",\"response_message_dto\":"@
}

pub open spec fn lit_r_tail() -> Seq<char> {
    "}"@
}

pub open spec fn lit_d_p_head() -> Seq<char> {
    "{\"Person\":{\"person\":"@
}

pub open spec fn lit_d_ps_head() -> Seq<char> {
    "{\"Persons\":{\"persons\":["@
}

pub open spec fn lit_d_p_tail() -> Seq<char> {
    "}}"@
}

pub open spec fn lit_d_ps_tail() -> Seq<char> {
    "]}}"@
}

// --- canonical renderings ---------------------------------------------

/// The canonical text of one person record.
pub open spec fn spec_person_chars(p: PersonV) -> Seq<char> {
    lit_p_head() + esc_chars(p.name) + lit_p_mid1() + int_chars(p.number) + lit_p_mid2()
        + esc_chars(p.department) + lit_p_tail()
}

/// The canonical text of a comma-separated person list.
pub open spec fn spec_items_chars(ps: Seq<PersonV>) -> Seq<char>
    decreases ps.len(),
{
    if ps.len() == 0 {
        Seq::empty()
    } else if ps.len() == 1 {
        spec_person_chars(ps[0])
    } else {
        spec_person_chars(ps[0]) + seq![','] + spec_items_chars(ps.drop_first())
    }
}

/// The canonical text of a typed result.
pub open spec fn spec_dto_chars(d: DtoV) -> Seq<char> {
    match d {
        DtoV::Person { person } => lit_d_p_head() + spec_person_chars(person) + lit_d_p_tail(),
        DtoV::Persons { persons } => lit_d_ps_head() + spec_items_chars(persons)
            + lit_d_ps_tail(),
    }
}

/// The canonical text of a request envelope.
pub open spec fn spec_req_chars(rv: ReqV) -> Seq<char> {
    lit_obj_head() + esc_chars(rv.request_id) + lit_req_mid() + cmd_chars(rv.command)
        + lit_req_tail()
}

/// The canonical text of a response envelope.
pub open spec fn spec_resp_chars(w: WrapperV) -> Seq<char> {
    lit_obj_head() + esc_chars(w.request_id) + lit_r_mid1() + esc_chars(w.response_type)
        + lit_r_mid2() + spec_dto_chars(w.response_message_dto) + lit_r_tail()
}

// --- encoders ----------------------------------------------------------

/// A person list rendering grows at the end as the list does.
pub proof fn lemma_items_push(ps: Seq<PersonV>, p: PersonV)
    ensures
        spec_items_chars(ps.push(p)) == (if ps.len() == 0 {
            spec_person_chars(p)
        } else {
            spec_items_chars(ps) + seq![','] + spec_person_chars(p)
        }),
    decreases ps.len(),
{
    let q = ps.push(p);
    if ps.len() == 0 {
        assert(q.len() == 1);
        assert(q[0] == p);
    } else {
        assert(q[0] == ps[0]);
        assert(q.drop_first() =~= ps.drop_first().push(p));
        lemma_items_push(ps.drop_first(), p);
        if ps.len() == 1 {
            assert(ps.drop_first().len() == 0);
            assert(spec_items_chars(q) == spec_person_chars(q[0]) + seq![',']
                + spec_items_chars(q.drop_first()));
            assert(spec_items_chars(q) =~= spec_items_chars(ps) + seq![',']
                + spec_person_chars(p));
        } else {
            assert(spec_items_chars(q) == spec_person_chars(ps[0]) + seq![',']
                + spec_items_chars(ps.drop_first().push(p)));
            assert(spec_items_chars(q) =~= spec_items_chars(ps) + seq![',']
                + spec_person_chars(p));
        }
    }
}

/// Appends the canonical text of one person record.
pub fn encode_person_onto(out: &mut String, p: &Person)
    ensures
        final(out)@ == old(out)@ + spec_person_chars(p@),
{
    out.append("{\"name\":\"");
    push_escaped(out, p.name.as_str());
    out.append("\",\"id\":{\"number\":");
    push_int_chars(out, p.id.number);
    out.append(",\"department\":\"");
    push_escaped(out, p.id.department.as_str());
    out.append("\"}}");
    proof {
        assert(out@ =~= old(out)@ + spec_person_chars(p@));
    }
}

/// Appends the canonical text of a person list (without brackets).
pub fn encode_items_onto(out: &mut String, ps: &Vec<Person>)
    ensures
        final(out)@ == old(out)@ + spec_items_chars(persons_views(ps@)),
{
    let n = ps.len();
    let mut k: usize = 0;
    proof {
        assert(persons_views(ps@).subrange(0, 0) =~= Seq::<PersonV>::empty());
        assert(out@ =~= old(out)@ + spec_items_chars(persons_views(ps@).subrange(0, 0)));
    }
    while k < n
        invariant
            n == ps.len(),
            0 <= k <= n,
            out@ == old(out)@ + spec_items_chars(persons_views(ps@).subrange(0, k as int)),
        decreases n - k,
    {
        if k > 0 {
            push_char(out, ',');
        }
        encode_person_onto(out, &ps[k]);
        proof {
            let pv = persons_views(ps@);
            assert(pv.subrange(0, k + 1) =~= pv.subrange(0, k as int).push(pv[k as int]));
            lemma_items_push(pv.subrange(0, k as int), pv[k as int]);
            assert(pv[k as int] == ps@[k as int]@);
            assert(out@ =~= old(out)@ + spec_items_chars(pv.subrange(0, k + 1)));
        }
        k += 1;
    }
    proof {
        assert(persons_views(ps@).subrange(0, n as int) =~= persons_views(ps@));
    }
}

/// Appends the canonical text of a typed result.
pub fn encode_dto_onto(out: &mut String, d: &ResponseMessageDto)
    ensures
        final(out)@ == old(out)@ + spec_dto_chars(d@),
{
    match d {
        ResponseMessageDto::Person { person } => {
            out.append("{\"Person\":{\"person\":");
            encode_person_onto(out, person);
            out.append("}}");
            proof {
                assert(out@ =~= old(out)@ + spec_dto_chars(d@));
            }
        },
        ResponseMessageDto::Persons { persons } => {
            out.append("{\"Persons\":{\"persons\":[");
            encode_items_onto(out, persons);
            out.append("]}}");
            proof {
                assert(out@ =~= old(out)@ + spec_dto_chars(d@));
            }
        },
    }
}

/// Renders a request envelope as its canonical text.
pub fn encode_request(e: &ServiceRequest) -> (r: String)
    ensures
        r@ == spec_req_chars(e@),
{
    let mut out = String::new();
    out.append("{\"request_id\":\"");
    push_escaped(&mut out, e.request_id.as_str());
    out.append("\",\"command\":\"");
    match e.command {
        Command::GetPerson => out.append("GetPerson"),
        Command::GetPersons => out.append("GetPersons"),
    }
    out.append("\"}");
    proof {
        assert(out@ =~= spec_req_chars(e@));
    }
    out
}

/// Renders a response envelope as its canonical text.
pub fn encode_response(w: &ResponseMessageDtoWrapper) -> (r: String)
    ensures
        r@ == spec_resp_chars(w@),
{
    let mut out = String::new();
    out.append("{\"request_id\":\"");
    push_escaped(&mut out, w.request_id.as_str());
    out.append("\",\"response_type\":\"");
    push_escaped(&mut out, w.response_type.as_str());
    out.append("\",\"response_message_dto\":");
    encode_dto_onto(&mut out, &w.response_message_dto);
    out.append("}");
    proof {
        assert(out@ =~= spec_resp_chars(w@));
    }
    out
}

// --- scanning ----------------------------------------------------------

/// Matches a fixed literal at position `i`: the position just past it on
/// success.
pub open spec fn scan_lit(s: Seq<char>, i: int, l: Seq<char>) -> Option<int> {
    if 0 <= i && i + l.len() <= s.len() && s.subrange(i, i + l.len()) == l {
        Some(i + l.len())
    } else {
        None
    }
}

/// Compares the text at position `i` with a literal, exactly as
/// `scan_lit` describes.
pub fn match_lit(s: &str, i: usize, l: &str) -> (r: Option<usize>)
    requires
        i <= s@.len(),
    ensures
        match r {
            Some(j) => scan_lit(s@, i as int, l@) == Some(j as int) && j == i + l@.len()
                && j <= s@.len(),
            None => scan_lit(s@, i as int, l@) is None,
        },
{
    let n = s.unicode_len();
    let m = l.unicode_len();
    if m > n - i {
        return None;
    }
    let mut k: usize = 0;
    while k < m
        invariant
            i + m <= n,
            n == s@.len(),
            m == l@.len(),
            0 <= k <= m,
            forall|t: int| 0 <= t < k ==> s@[i + t] == l@[t],
        decreases m - k,
    {
        if s.get_char(i + k) != l.get_char(k) {
            proof {
                assert(s@.subrange(i as int, i + m)[k as int] != l@[k as int]);
            }
            return None;
        }
        k += 1;
    }
    proof {
        assert(s@.subrange(i as int, i + m) =~= l@);
    }
    Some(i + m)
}

/// A signed-integer scan moves forward and stays within the text.
pub proof fn lemma_scan_int_bounds(s: Seq<char>, i: int)
    requires
        0 <= i <= s.len(),
    ensures
        scan_int(s, i) matches Some(r) ==> i < r.1 <= s.len(),
{
    let neg = i < s.len() && s[i] == '-';
    let i1: int = if neg { i + 1 } else { i };
    if i1 <= s.len() {
        crate::text::lemma_scan_digits_chars(s, i1);
    }
}

/// Reads one person record at position `i`.
pub open spec fn scan_person(s: Seq<char>, i: int) -> Option<(PersonV, int)> {
    match scan_lit(s, i, lit_p_head()) {
        None => None,
        Some(i1) => match scan_string(s, i1) {
            None => None,
            Some((nm, i2)) => match scan_lit(s, i2, lit_p_mid1().drop_first()) {
                None => None,
                Some(i3) => match scan_int(s, i3) {
                    None => None,
                    Some((num, i4)) => match scan_lit(s, i4, lit_p_mid2()) {
                        None => None,
                        Some(i5) => match scan_string(s, i5) {
                            None => None,
                            Some((dp, i6)) => match scan_lit(s, i6, lit_d_p_tail()) {
                                None => None,
                                Some(i7) => Some(
                                    (PersonV { name: nm, number: num, department: dp }, i7),
                                ),
                            },
                        },
                    },
                },
            },
        },
    }
}

/// A person scan moves forward and stays within the text.
pub proof fn lemma_scan_person_bounds(s: Seq<char>, i: int)
    requires
        0 <= i,
    ensures
        scan_person(s, i) matches Some(r) ==> i < r.1 <= s.len(),
{
    if scan_lit(s, i, lit_p_head()) is Some {
        let i1 = scan_lit(s, i, lit_p_head()).unwrap();
        lemma_scan_string_bounds(s, i1);
        if scan_string(s, i1) is Some {
            let i2 = scan_string(s, i1).unwrap().1;
            if scan_lit(s, i2, lit_p_mid1().drop_first()) is Some {
                let i3 = scan_lit(s, i2, lit_p_mid1().drop_first()).unwrap();
                lemma_scan_int_bounds(s, i3);
                if scan_int(s, i3) is Some {
                    let i4 = scan_int(s, i3).unwrap().1;
                    if scan_lit(s, i4, lit_p_mid2()) is Some {
                        let i5 = scan_lit(s, i4, lit_p_mid2()).unwrap();
                        lemma_scan_string_bounds(s, i5);
                    }
                }
            }
        }
    }
}

/// Reads the person list after the opening bracket, through the closing
/// bracket.
pub open spec fn scan_items(s: Seq<char>, i: int) -> Option<(Seq<PersonV>, int)>
    decreases s.len() - i,
    when i >= 0 via scan_items_decreases
{
    if i < s.len() && s[i] == ']' {
        Some((Seq::empty(), i + 1))
    } else {
        match scan_person(s, i) {
            None => None,
            Some((p, j)) => {
                if j < s.len() && s[j] == ',' {
                    match scan_items(s, j + 1) {
                        None => None,
                        Some((ps, k)) => Some((seq![p] + ps, k)),
                    }
                } else if j < s.len() && s[j] == ']' {
                    Some((seq![p], j + 1))
                } else {
                    None
                }
            },
        }
    }
}

#[via_fn]
proof fn scan_items_decreases(s: Seq<char>, i: int) {
    lemma_scan_person_bounds(s, i);
}

/// Reads a typed result at position `i`.
pub open spec fn scan_dto(s: Seq<char>, i: int) -> Option<(DtoV, int)> {
    if scan_lit(s, i, lit_d_ps_head()) is Some {
        let i1 = scan_lit(s, i, lit_d_ps_head()).unwrap();
        match scan_items(s, i1) {
            None => None,
            Some((ps, i2)) => match scan_lit(s, i2, lit_d_p_tail()) {
                None => None,
                Some(i3) => Some((DtoV::Persons { persons: ps }, i3)),
            },
        }
    } else if scan_lit(s, i, lit_d_p_head()) is Some {
        let i1 = scan_lit(s, i, lit_d_p_head()).unwrap();
        match scan_person(s, i1) {
            None => None,
            Some((p, i2)) => match scan_lit(s, i2, lit_d_p_tail()) {
                None => None,
                Some(i3) => Some((DtoV::Person { person: p }, i3)),
            },
        }
    } else {
        None
    }
}

/// Reads a whole request envelope: succeeds only when the text is
/// consumed entirely.
pub open spec fn scan_request(s: Seq<char>) -> Option<ReqV> {
    match scan_lit(s, 0, lit_obj_head()) {
        None => None,
        Some(i1) => match scan_string(s, i1) {
            None => None,
            Some((id, i2)) => match scan_lit(s, i2, lit_req_mid().drop_first()) {
                None => None,
                Some(i3) => {
                    if scan_lit(s, i3, cmd_chars(Command::GetPersons)) is Some {
                        let i4 = scan_lit(s, i3, cmd_chars(Command::GetPersons)).unwrap();
                        match scan_lit(s, i4, lit_req_tail()) {
                            None => None,
                            Some(i5) => if i5 == s.len() {
                                Some(ReqV { request_id: id, command: Command::GetPersons })
                            } else {
                                None
                            },
                        }
                    } else if scan_lit(s, i3, cmd_chars(Command::GetPerson)) is Some {
                        let i4 = scan_lit(s, i3, cmd_chars(Command::GetPerson)).unwrap();
                        match scan_lit(s, i4, lit_req_tail()) {
                            None => None,
                            Some(i5) => if i5 == s.len() {
                                Some(ReqV { request_id: id, command: Command::GetPerson })
                            } else {
                                None
                            },
                        }
                    } else {
                        None
                    }
                },
            },
        },
    }
}

/// Reads a whole response envelope: succeeds only when the text is
/// consumed entirely.
pub open spec fn scan_response(s: Seq<char>) -> Option<WrapperV> {
    match scan_lit(s, 0, lit_obj_head()) {
        None => None,
        Some(i1) => match scan_string(s, i1) {
            None => None,
            Some((rid, i2)) => match scan_lit(s, i2, lit_r_mid1().drop_first()) {
                None => None,
                Some(i3) => match scan_string(s, i3) {
                    None => None,
                    Some((rt, i4)) => match scan_lit(s, i4, lit_r_mid2().drop_first()) {
                        None => None,
                        Some(i5) => match scan_dto(s, i5) {
                            None => None,
                            Some((d, i6)) => match scan_lit(s, i6, lit_r_tail()) {
                                None => None,
                                Some(i7) => if i7 == s.len() {
                                    Some(WrapperV {
                                        response_message_dto: d,
                                        request_id: rid,
                                        response_type: rt,
                                    })
                                } else {
                                    None
                                },
                            },
                        },
                    },
                },
            },
        },
    }
}

/// What request parsing accepts: the scan must succeed and the text must
/// be the canonical rendering of what was scanned.
pub open spec fn spec_parse_request(s: Seq<char>) -> Option<ReqV> {
    match scan_request(s) {
        None => None,
        Some(rv) => if spec_req_chars(rv) == s {
            Some(rv)
        } else {
            None
        },
    }
}

/// What response parsing accepts.
pub open spec fn spec_parse_response(s: Seq<char>) -> Option<WrapperV> {
    match scan_response(s) {
        None => None,
        Some(w) => if spec_resp_chars(w) == s {
            Some(w)
        } else {
            None
        },
    }
}

// --- completeness: scanning a canonical rendering ----------------------

/// Extracts the middle piece of a three-way concatenation.
pub proof fn lemma_mid_sub(s: Seq<char>, a: Seq<char>, b: Seq<char>, c: Seq<char>)
    requires
        s =~= a + b + c,
    ensures
        s.len() == a.len() + b.len() + c.len(),
        s.subrange(a.len() as int, (a.len() + b.len()) as int) =~= b,
        forall|k: int| 0 <= k < b.len() ==> s[a.len() + k] == b[k],
{
    assert forall|k: int| 0 <= k < b.len() implies s[a.len() + k] == b[k] by {
        assert(s[a.len() + k] == (a + b + c)[a.len() + k]);
    }
}

/// A person record is in range when its number fits a 32-bit integer.
pub open spec fn personv_ok(p: PersonV) -> bool {
    -0x80000000 <= p.number <= 0x7fffffff
}

pub open spec fn itemsv_ok(ps: Seq<PersonV>) -> bool {
    forall|k: int| 0 <= k < ps.len() ==> personv_ok(#[trigger] ps[k])
}

pub open spec fn dtov_ok(d: DtoV) -> bool {
    match d {
        DtoV::Person { person } => personv_ok(person),
        DtoV::Persons { persons } => itemsv_ok(persons),
    }
}

/// Scanning the canonical text of a person record recovers it.
#[verifier::rlimit(100)]
#[verifier::spinoff_prover]
pub proof fn lemma_scan_person_complete(s: Seq<char>, i: int, p: PersonV)
    requires
        0 <= i,
        personv_ok(p),
        i + spec_person_chars(p).len() <= s.len(),
        s.subrange(i, i + spec_person_chars(p).len()) =~= spec_person_chars(p),
    ensures
        scan_person(s, i) == Some((p, i + spec_person_chars(p).len())),
{
    reveal_strlit("{\"name\":\"");
    reveal_strlit("\",\"id\":{\"number\":");
    reveal_strlit(",\"department\":\"");
    reveal_strlit("\"}}");
    reveal_strlit("}}");
    let ph = lit_p_head();
    let en = esc_chars(p.name);
    let m1 = lit_p_mid1();
    let nc = int_chars(p.number);
    let m2 = lit_p_mid2();
    let ed = esc_chars(p.department);
    let pt = lit_p_tail();
    let pc = spec_person_chars(p);
    let q = seq!['\"'];
    let pre = s.subrange(0, i);
    let post = s.subrange(i + pc.len(), s.len() as int);
    assert(s =~= pre + pc + post);

    // the head literal
    assert(s =~= pre + ph + (en + m1 + nc + m2 + ed + pt + post));
    lemma_mid_sub(s, pre, ph, en + m1 + nc + m2 + ed + pt + post);
    assert(scan_lit(s, i, ph) == Some(i + ph.len()));
    let i1 = i + ph.len();

    // the name string, through the quote that starts m1
    assert(m1 =~= q + m1.drop_first());
    assert(s =~= (pre + ph) + (en + q) + (m1.drop_first() + nc + m2 + ed + pt + post));
    lemma_mid_sub(s, pre + ph, en + q, m1.drop_first() + nc + m2 + ed + pt + post);
    lemma_scan_string_complete(s, i1, p.name);
    let i2 = i1 + en.len() + 1;

    // the rest of m1
    assert(s =~= (pre + ph + en + q) + m1.drop_first() + (nc + m2 + ed + pt + post));
    lemma_mid_sub(s, pre + ph + en + q, m1.drop_first(), nc + m2 + ed + pt + post);
    assert(scan_lit(s, i2, m1.drop_first()) == Some(i2 + m1.len() - 1));
    let i3 = i2 + m1.len() - 1;

    // the number, terminated by the comma that starts m2
    assert(s =~= (pre + ph + en + m1) + nc + (m2 + ed + pt + post));
    lemma_mid_sub(s, pre + ph + en + m1, nc, m2 + ed + pt + post);
    let v32: i32 = p.number as i32;
    assert(v32 as int == p.number);
    assert(s.subrange(i3, i3 + nc.len()) =~= int_chars(v32 as int));
    assert(s[i3 + nc.len()] == m2[0]);
    assert(m2[0] == ',');
    assert(dec_val(',') is None);
    crate::text::lemma_scan_int_complete(s, i3, v32);
    let i4 = i3 + nc.len();

    // m2
    assert(s =~= (pre + ph + en + m1 + nc) + m2 + (ed + pt + post));
    lemma_mid_sub(s, pre + ph + en + m1 + nc, m2, ed + pt + post);
    assert(scan_lit(s, i4, m2) == Some(i4 + m2.len()));
    let i5 = i4 + m2.len();

    // the department string, through the quote that starts pt
    assert(pt =~= q + pt.drop_first());
    assert(s =~= (pre + ph + en + m1 + nc + m2) + (ed + q) + (pt.drop_first() + post));
    lemma_mid_sub(s, pre + ph + en + m1 + nc + m2, ed + q, pt.drop_first() + post);
    lemma_scan_string_complete(s, i5, p.department);
    let i6 = i5 + ed.len() + 1;

    // the closing braces
    assert(pt.drop_first() =~= lit_d_p_tail());
    assert(s =~= (pre + ph + en + m1 + nc + m2 + ed + q) + pt.drop_first() + post);
    lemma_mid_sub(s, pre + ph + en + m1 + nc + m2 + ed + q, pt.drop_first(), post);
    assert(scan_lit(s, i6, lit_d_p_tail()) == Some(i6 + 2));
    assert(i6 + 2 == i + pc.len());
}

/// Scanning the canonical text of a person list recovers it.
#[verifier::rlimit(100)]
#[verifier::spinoff_prover]
pub proof fn lemma_scan_items_complete(s: Seq<char>, i: int, ps: Seq<PersonV>)
    requires
        0 <= i,
        itemsv_ok(ps),
        i + spec_items_chars(ps).len() + 1 <= s.len(),
        s.subrange(i, i + spec_items_chars(ps).len() + 1) =~= spec_items_chars(ps)
            + seq![']'],
    ensures
        scan_items(s, i) == Some((ps, i + spec_items_chars(ps).len() + 1)),
    decreases ps.len(),
{
    reveal_strlit("{\"name\":\"");
    let ic = spec_items_chars(ps);
    let pre = s.subrange(0, i);
    let post = s.subrange(i + ic.len() + 1, s.len() as int);
    assert(s =~= pre + (ic + seq![']']) + post);
    if ps.len() == 0 {
        lemma_mid_sub(s, pre, seq![']'], post);
        assert(s[i] == ']');
    } else {
        let p0 = ps[0];
        let pc0 = spec_person_chars(p0);
        assert(pc0[0] == lit_p_head()[0]);
        assert(lit_p_head()[0] == '{');
        if ps.len() == 1 {
            assert(ic == pc0);
            assert(s =~= pre + pc0 + (seq![']'] + post));
            lemma_mid_sub(s, pre, pc0, seq![']'] + post);
            assert(s[i] == pc0[0]);
            lemma_scan_person_complete(s, i, p0);
            let j = i + pc0.len();
            assert(s =~= (pre + pc0) + seq![']'] + post);
            lemma_mid_sub(s, pre + pc0, seq![']'], post);
            assert(s[j] == ']');
            assert(seq![p0] =~= ps);
        } else {
            let rest = ps.drop_first();
            let icr = spec_items_chars(rest);
            assert(ic == pc0 + seq![','] + icr);
            assert(s =~= pre + pc0 + ((seq![','] + icr + seq![']']) + post));
            lemma_mid_sub(s, pre, pc0, (seq![','] + icr + seq![']']) + post);
            assert(s[i] == pc0[0]);
            assert(personv_ok(p0));
            lemma_scan_person_complete(s, i, p0);
            let j = i + pc0.len();
            assert(s =~= (pre + pc0) + seq![','] + ((icr + seq![']']) + post));
            lemma_mid_sub(s, pre + pc0, seq![','], (icr + seq![']']) + post);
            assert(s[j] == ',');
            assert(s =~= (pre + pc0 + seq![',']) + (icr + seq![']']) + post);
            lemma_mid_sub(s, pre + pc0 + seq![','], icr + seq![']'], post);
            assert(itemsv_ok(rest)) by {
                assert forall|k: int| 0 <= k < rest.len() implies personv_ok(
                    #[trigger] rest[k],
                ) by {
                    assert(rest[k] == ps[k + 1]);
                }
            }
            assert(s.subrange(j + 1, j + 1 + icr.len() + 1) =~= icr + seq![']']);
            lemma_scan_items_complete(s, j + 1, rest);
            assert(seq![p0] + rest =~= ps);
        }
    }
}

/// Scanning the canonical text of a typed result recovers it.
#[verifier::rlimit(100)]
#[verifier::spinoff_prover]
pub proof fn lemma_scan_dto_complete(s: Seq<char>, i: int, d: DtoV)
    requires
        0 <= i,
        dtov_ok(d),
        i + spec_dto_chars(d).len() <= s.len(),
        s.subrange(i, i + spec_dto_chars(d).len()) =~= spec_dto_chars(d),
    ensures
        scan_dto(s, i) == Some((d, i + spec_dto_chars(d).len())),
{
    reveal_strlit("{\"Person\":{\"person\":");
    reveal_strlit("{\"Persons\":{\"persons\":[");
    reveal_strlit("}}");
    reveal_strlit("]}}");
    let dc = spec_dto_chars(d);
    let pre = s.subrange(0, i);
    let post = s.subrange(i + dc.len(), s.len() as int);
    assert(s =~= pre + dc + post);
    match d {
        DtoV::Persons { persons } => {
            let ic = spec_items_chars(persons);
            assert(dc == lit_d_ps_head() + ic + lit_d_ps_tail());
            assert(s =~= pre + lit_d_ps_head() + ((ic + lit_d_ps_tail()) + post));
            lemma_mid_sub(s, pre, lit_d_ps_head(), (ic + lit_d_ps_tail()) + post);
            assert(scan_lit(s, i, lit_d_ps_head()) == Some(i + lit_d_ps_head().len()));
            let i1 = i + lit_d_ps_head().len();
            assert(lit_d_ps_tail() =~= seq![']'] + lit_d_p_tail());
            assert(s =~= (pre + lit_d_ps_head()) + (ic + seq![']']) + (lit_d_p_tail()
                + post));
            lemma_mid_sub(s, pre + lit_d_ps_head(), ic + seq![']'], lit_d_p_tail() + post);
            lemma_scan_items_complete(s, i1, persons);
            let i2 = i1 + ic.len() + 1;
            assert(s =~= (pre + lit_d_ps_head() + ic + seq![']']) + lit_d_p_tail() + post);
            lemma_mid_sub(s, pre + lit_d_ps_head() + ic + seq![']'], lit_d_p_tail(), post);
            assert(scan_lit(s, i2, lit_d_p_tail()) == Some(i2 + 2));
            assert(i2 + 2 == i + dc.len());
        },
        DtoV::Person { person } => {
            let pc = spec_person_chars(person);
            assert(dc == lit_d_p_head() + pc + lit_d_p_tail());
            assert(s =~= pre + lit_d_p_head() + ((pc + lit_d_p_tail()) + post));
            lemma_mid_sub(s, pre, lit_d_p_head(), (pc + lit_d_p_tail()) + post);
            // the collection head does not match here
            assert(scan_lit(s, i, lit_d_ps_head()) is None) by {
                if i + lit_d_ps_head().len() <= s.len() {
                    assert(s[i + 8] == lit_d_p_head()[8]);
                    assert(lit_d_p_head()[8] != lit_d_ps_head()[8]);
                    assert(s.subrange(i, i + lit_d_ps_head().len())[8] != lit_d_ps_head()[8]);
                }
            }
            assert(scan_lit(s, i, lit_d_p_head()) == Some(i + lit_d_p_head().len()));
            let i1 = i + lit_d_p_head().len();
            assert(s =~= (pre + lit_d_p_head()) + pc + (lit_d_p_tail() + post));
            lemma_mid_sub(s, pre + lit_d_p_head(), pc, lit_d_p_tail() + post);
            lemma_scan_person_complete(s, i1, person);
            let i2 = i1 + pc.len();
            assert(s =~= (pre + lit_d_p_head() + pc) + lit_d_p_tail() + post);
            lemma_mid_sub(s, pre + lit_d_p_head() + pc, lit_d_p_tail(), post);
            assert(scan_lit(s, i2, lit_d_p_tail()) == Some(i2 + 2));
            assert(i2 + 2 == i + dc.len());
        },
    }
}

/// Scanning the canonical text of a request envelope recovers it.
#[verifier::rlimit(100)]
#[verifier::spinoff_prover]
pub proof fn lemma_req_roundtrip(rv: ReqV)
    ensures
        scan_request(spec_req_chars(rv)) == Some(rv),
        spec_parse_request(spec_req_chars(rv)) == Some(rv),
{
    reveal_strlit("{\"request_id\":\"");
    reveal_strlit("\",\"command\":\"");
    reveal_strlit("\"}");
    reveal_strlit("GetPerson");
    reveal_strlit("GetPersons");
    let s = spec_req_chars(rv);
    let h = lit_obj_head();
    let e = esc_chars(rv.request_id);
    let m = lit_req_mid();
    let c = cmd_chars(rv.command);
    let t = lit_req_tail();
    let q = seq!['\"'];
    assert(s == h + e + m + c + t);
    assert(s =~= Seq::<char>::empty() + h + (e + m + c + t));
    lemma_mid_sub(s, Seq::<char>::empty(), h, e + m + c + t);
    assert(scan_lit(s, 0, h) == Some(h.len() as int));
    let i1 = h.len() as int;
    assert(m =~= q + m.drop_first());
    assert(s =~= h + (e + q) + (m.drop_first() + c + t));
    lemma_mid_sub(s, h, e + q, m.drop_first() + c + t);
    lemma_scan_string_complete(s, i1, rv.request_id);
    let i2 = i1 + e.len() + 1;
    assert(s =~= (h + e + q) + m.drop_first() + (c + t));
    lemma_mid_sub(s, h + e + q, m.drop_first(), c + t);
    assert(scan_lit(s, i2, m.drop_first()) == Some(i2 + m.len() - 1));
    let i3 = i2 + m.len() - 1;
    assert(s =~= (h + e + m) + c + t);
    lemma_mid_sub(s, h + e + m, c, t);
    assert(s =~= (h + e + m + c) + t + Seq::<char>::empty());
    lemma_mid_sub(s, h + e + m + c, t, Seq::<char>::empty());
    match rv.command {
        Command::GetPersons => {
            assert(scan_lit(s, i3, cmd_chars(Command::GetPersons)) == Some(i3 + 10));
            assert(scan_lit(s, i3 + 10, t) == Some(i3 + 12));
            assert(i3 + 12 == s.len());
        },
        Command::GetPerson => {
            assert(scan_lit(s, i3, cmd_chars(Command::GetPersons)) is None) by {
                if i3 + 10 <= s.len() {
                    assert(s[i3 + 9] == t[0]);
                    assert(s.subrange(i3, i3 + 10)[9] != cmd_chars(Command::GetPersons)[9]);
                }
            }
            assert(scan_lit(s, i3, cmd_chars(Command::GetPerson)) == Some(i3 + 9));
            assert(scan_lit(s, i3 + 9, t) == Some(i3 + 11));
            assert(i3 + 11 == s.len());
        },
    }
}

/// Scanning the canonical text of a response envelope recovers it.
#[verifier::rlimit(100)]
#[verifier::spinoff_prover]
pub proof fn lemma_resp_roundtrip(w: WrapperV)
    requires
        dtov_ok(w.response_message_dto),
    ensures
        scan_response(spec_resp_chars(w)) == Some(w),
        spec_parse_response(spec_resp_chars(w)) == Some(w),
{
    reveal_strlit("{\"request_id\":\"");
    reveal_strlit("\",\"response_type\":\"");
    reveal_strlit("\",\"response_message_dto\":");
    reveal_strlit("}");
    let s = spec_resp_chars(w);
    let h = lit_obj_head();
    let e1 = esc_chars(w.request_id);
    let m1 = lit_r_mid1();
    let e2 = esc_chars(w.response_type);
    let m2 = lit_r_mid2();
    let dc = spec_dto_chars(w.response_message_dto);
    let t = lit_r_tail();
    let q = seq!['\"'];
    assert(s == h + e1 + m1 + e2 + m2 + dc + t);
    assert(s =~= Seq::<char>::empty() + h + (e1 + m1 + e2 + m2 + dc + t));
    lemma_mid_sub(s, Seq::<char>::empty(), h, e1 + m1 + e2 + m2 + dc + t);
    assert(scan_lit(s, 0, h) == Some(h.len() as int));
    let i1 = h.len() as int;
    assert(m1 =~= q + m1.drop_first());
    assert(s =~= h + (e1 + q) + (m1.drop_first() + e2 + m2 + dc + t));
    lemma_mid_sub(s, h, e1 + q, m1.drop_first() + e2 + m2 + dc + t);
    lemma_scan_string_complete(s, i1, w.request_id);
    let i2 = i1 + e1.len() + 1;
    assert(s =~= (h + e1 + q) + m1.drop_first() + (e2 + m2 + dc + t));
    lemma_mid_sub(s, h + e1 + q, m1.drop_first(), e2 + m2 + dc + t);
    assert(scan_lit(s, i2, m1.drop_first()) == Some(i2 + m1.len() - 1));
    let i3 = i2 + m1.len() - 1;
    assert(m2 =~= q + m2.drop_first());
    assert(s =~= (h + e1 + m1) + (e2 + q) + (m2.drop_first() + dc + t));
    lemma_mid_sub(s, h + e1 + m1, e2 + q, m2.drop_first() + dc + t);
    lemma_scan_string_complete(s, i3, w.response_type);
    let i4 = i3 + e2.len() + 1;
    assert(s =~= (h + e1 + m1 + e2 + q) + m2.drop_first() + (dc + t));
    lemma_mid_sub(s, h + e1 + m1 + e2 + q, m2.drop_first(), dc + t);
    assert(scan_lit(s, i4, m2.drop_first()) == Some(i4 + m2.len() - 1));
    let i5 = i4 + m2.len() - 1;
    assert(s =~= (h + e1 + m1 + e2 + m2) + dc + t);
    lemma_mid_sub(s, h + e1 + m1 + e2 + m2, dc, t);
    lemma_scan_dto_complete(s, i5, w.response_message_dto);
    let i6 = i5 + dc.len();
    assert(s =~= (h + e1 + m1 + e2 + m2 + dc) + t + Seq::<char>::empty());
    lemma_mid_sub(s, h + e1 + m1 + e2 + m2 + dc, t, Seq::<char>::empty());
    assert(scan_lit(s, i6, t) == Some(i6 + 1));
    assert(i6 + 1 == s.len());
}

/// When request parsing rejects a text, that text is no envelope's
/// canonical rendering.
pub proof fn lemma_parse_request_none(s: Seq<char>)
    requires
        spec_parse_request(s) is None,
    ensures
        forall|rv: ReqV| s != spec_req_chars(rv),
{
    assert forall|rv: ReqV| s != spec_req_chars(rv) by {
        if s == spec_req_chars(rv) {
            lemma_req_roundtrip(rv);
        }
    }
}

/// When response parsing rejects a text, that text is no in-range
/// envelope's canonical rendering.
pub proof fn lemma_parse_response_none(s: Seq<char>)
    requires
        spec_parse_response(s) is None,
    ensures
        forall|w: WrapperV|
            dtov_ok(w.response_message_dto) ==> s != spec_resp_chars(w),
{
    assert forall|w: WrapperV| dtov_ok(w.response_message_dto) implies s != spec_resp_chars(
        w,
    ) by {
        if s == spec_resp_chars(w) {
            lemma_resp_roundtrip(w);
        }
    }
}

/// Canonical renderings are injective: equal texts mean equal envelopes.
pub proof fn lemma_req_chars_injective(a: ReqV, b: ReqV)
    requires
        spec_req_chars(a) == spec_req_chars(b),
    ensures
        a == b,
{
    lemma_req_roundtrip(a);
    lemma_req_roundtrip(b);
}

/// Canonical response renderings are injective on in-range envelopes.
pub proof fn lemma_resp_chars_injective(a: WrapperV, b: WrapperV)
    requires
        dtov_ok(a.response_message_dto),
        dtov_ok(b.response_message_dto),
        spec_resp_chars(a) == spec_resp_chars(b),
    ensures
        a == b,
{
    lemma_resp_roundtrip(a);
    lemma_resp_roundtrip(b);
}

// --- exec parsers ------------------------------------------------------

/// Reads one person record at position `i`, exactly as `scan_person`
/// describes.
fn scan_person_at(s: &str, i: usize) -> (r: Option<(Person, usize)>)
    requires
        i <= s@.len(),
    ensures
        match r {
            Some((p, j)) => scan_person(s@, i as int) == Some((p@, j as int)) && i < j
                <= s@.len(),
            None => scan_person(s@, i as int) is None,
        },
{
    proof {
        reveal_strlit("\",\"id\":{\"number\":");
        reveal_strlit(",\"id\":{\"number\":");
        assert(",\"id\":{\"number\":"@ =~= lit_p_mid1().drop_first());
    }
    let i1 = match match_lit(s, i, "{\"name\":\"") {
        Some(j) => j,
        None => {
            return None;
        },
    };
    let (nm, i2) = match scan_string_at(s, i1) {
        Some(r) => r,
        None => {
            return None;
        },
    };
    let i3 = match match_lit(s, i2, ",\"id\":{\"number\":") {
        Some(j) => j,
        None => {
            return None;
        },
    };
    let (num, i4) = match scan_int_at(s, i3) {
        Some(r) => r,
        None => {
            return None;
        },
    };
    let i5 = match match_lit(s, i4, ",\"department\":\"") {
        Some(j) => j,
        None => {
            return None;
        },
    };
    let (dp, i6) = match scan_string_at(s, i5) {
        Some(r) => r,
        None => {
            return None;
        },
    };
    let i7 = match match_lit(s, i6, "}}") {
        Some(j) => j,
        None => {
            return None;
        },
    };
    let p = Person { name: nm, id: Id { number: num, department: dp } };
    Some((p, i7))
}

/// Reads the person list after the opening bracket, exactly as
/// `scan_items` describes.
fn scan_items_at(s: &str, i: usize) -> (r: Option<(Vec<Person>, usize)>)
    requires
        i <= s@.len(),
    ensures
        match r {
            Some((ps, j)) => scan_items(s@, i as int) == Some((persons_views(ps@), j as int))
                && i < j <= s@.len(),
            None => scan_items(s@, i as int) is None,
        },
{
    let n = s.unicode_len();
    let mut coll: Vec<Person> = Vec::new();
    let mut pos: usize = i;
    proof {
        assert(persons_views(coll@) =~= Seq::<PersonV>::empty());
        let sc = scan_items(s@, i as int);
        if sc is Some {
            assert(Seq::<PersonV>::empty() + sc.unwrap().0 =~= sc.unwrap().0);
        }
    }
    loop
        invariant
            i <= pos <= n,
            n == s@.len(),
            scan_items(s@, i as int) == (match scan_items(s@, pos as int) {
                Some((ps, j)) => Some((persons_views(coll@) + ps, j)),
                None => None::<(Seq<PersonV>, int)>,
            }),
        decreases n - pos,
    {
        if pos < n {
            let c = s.get_char(pos);
            if c == ']' {
                proof {
                    assert(scan_items(s@, pos as int) == Some(
                        (Seq::<PersonV>::empty(), pos + 1),
                    ));
                    assert(persons_views(coll@) + Seq::<PersonV>::empty() =~= persons_views(
                        coll@,
                    ));
                }
                return Some((coll, pos + 1));
            }
        }
        match scan_person_at(s, pos) {
            None => {
                return None;
            },
            Some((p, j)) => {
                let ghost oldviews = persons_views(coll@);
                let ghost pview = p@;
                coll.push(p);
                proof {
                    assert(persons_views(coll@) =~= oldviews.push(pview));
                }
                if j < n && s.get_char(j) == ',' {
                    proof {
                        let sc = scan_items(s@, j + 1);
                        if sc is Some {
                            assert(oldviews + (seq![pview] + sc.unwrap().0) =~= persons_views(
                                coll@,
                            ) + sc.unwrap().0);
                        }
                    }
                    pos = j + 1;
                } else if j < n && s.get_char(j) == ']' {
                    proof {
                        assert(scan_items(s@, pos as int) == Some((seq![pview], j + 1)));
                        assert(oldviews + seq![pview] =~= persons_views(coll@));
                    }
                    return Some((coll, j + 1));
                } else {
                    return None;
                }
            },
        }
    }
}

/// Reads a typed result at position `i`, exactly as `scan_dto` describes.
fn scan_dto_at(s: &str, i: usize) -> (r: Option<(ResponseMessageDto, usize)>)
    requires
        i <= s@.len(),
    ensures
        match r {
            Some((d, j)) => scan_dto(s@, i as int) == Some((d@, j as int)) && i < j
                <= s@.len(),
            None => scan_dto(s@, i as int) is None,
        },
{
    match match_lit(s, i, "{\"Persons\":{\"persons\":[") {
        Some(i1) => {
            let (ps, i2) = match scan_items_at(s, i1) {
                Some(r) => r,
                None => {
                    return None;
                },
            };
            let i3 = match match_lit(s, i2, "}}") {
                Some(j) => j,
                None => {
                    return None;
                },
            };
            Some((ResponseMessageDto::Persons { persons: ps }, i3))
        },
        None => {
            let i1 = match match_lit(s, i, "{\"Person\":{\"person\":") {
                Some(j) => j,
                None => {
                    return None;
                },
            };
            let (p, i2) = match scan_person_at(s, i1) {
                Some(r) => r,
                None => {
                    return None;
                },
            };
            let i3 = match match_lit(s, i2, "}}") {
                Some(j) => j,
                None => {
                    return None;
                },
            };
            Some((ResponseMessageDto::Person { person: p }, i3))
        },
    }
}

fn parse_request_core(s: &str) -> (r: Option<ServiceRequest>)
    ensures
        match r {
            Some(e) => spec_parse_request(s@) == Some(e@),
            None => spec_parse_request(s@) is None,
        },
{
    proof {
        reveal_strlit("\",\"command\":\"");
        reveal_strlit(",\"command\":\"");
        assert(",\"command\":\""@ =~= lit_req_mid().drop_first());
    }
    let n = s.unicode_len();
    let i1 = match match_lit(s, 0, "{\"request_id\":\"") {
        Some(j) => j,
        None => {
            return None;
        },
    };
    let (id, i2) = match scan_string_at(s, i1) {
        Some(r) => r,
        None => {
            return None;
        },
    };
    let i3 = match match_lit(s, i2, ",\"command\":\"") {
        Some(j) => j,
        None => {
            return None;
        },
    };
    let command: Command = match match_lit(s, i3, "GetPersons") {
        Some(i4) => {
            let i5 = match match_lit(s, i4, "\"}") {
                Some(j) => j,
                None => {
                    return None;
                },
            };
            if i5 != n {
                return None;
            }
            Command::GetPersons
        },
        None => {
            let i4 = match match_lit(s, i3, "GetPerson") {
                Some(j) => j,
                None => {
                    return None;
                },
            };
            let i5 = match match_lit(s, i4, "\"}") {
                Some(j) => j,
                None => {
                    return None;
                },
            };
            if i5 != n {
                return None;
            }
            Command::GetPerson
        },
    };
    let e = ServiceRequest { request_id: id, command };
    let enc = encode_request(&e);
    if str_eq(enc.as_str(), s) {
        Some(e)
    } else {
        None
    }
}

/// Reads a request envelope from text. Succeeds exactly on the canonical
/// rendering of some envelope, and then returns that envelope.
pub fn parse_request(s: &str) -> (r: Option<ServiceRequest>)
    ensures
        match r {
            Some(e) => spec_parse_request(s@) == Some(e@) && s@ == spec_req_chars(e@),
            None => spec_parse_request(s@) is None && forall|rv: ReqV|
                s@ != spec_req_chars(rv),
        },
{
    let r = parse_request_core(s);
    proof {
        if r is None {
            lemma_parse_request_none(s@);
        }
    }
    r
}

fn parse_response_core(s: &str) -> (r: Option<ResponseMessageDtoWrapper>)
    ensures
        match r {
            Some(w) => spec_parse_response(s@) == Some(w@),
            None => spec_parse_response(s@) is None,
        },
{
    proof {
        reveal_strlit("\",\"response_type\":\"");
        reveal_strlit(",\"response_type\":\"");
        assert(",\"response_type\":\""@ =~= lit_r_mid1().drop_first());
        reveal_strlit("\",\"response_message_dto\":");
        reveal_strlit(",\"response_message_dto\":");
        assert(",\"response_message_dto\":"@ =~= lit_r_mid2().drop_first());
    }
    let n = s.unicode_len();
    let i1 = match match_lit(s, 0, "{\"request_id\":\"") {
        Some(j) => j,
        None => {
            return None;
        },
    };
    let (rid, i2) = match scan_string_at(s, i1) {
        Some(r) => r,
        None => {
            return None;
        },
    };
    let i3 = match match_lit(s, i2, ",\"response_type\":\"") {
        Some(j) => j,
        None => {
            return None;
        },
    };
    let (rt, i4) = match scan_string_at(s, i3) {
        Some(r) => r,
        None => {
            return None;
        },
    };
    let i5 = match match_lit(s, i4, ",\"response_message_dto\":") {
        Some(j) => j,
        None => {
            return None;
        },
    };
    let (dto, i6) = match scan_dto_at(s, i5) {
        Some(r) => r,
        None => {
            return None;
        },
    };
    let i7 = match match_lit(s, i6, "}") {
        Some(j) => j,
        None => {
            return None;
        },
    };
    if i7 != n {
        return None;
    }
    let w = ResponseMessageDtoWrapper {
        response_message_dto: dto,
        request_id: rid,
        response_type: rt,
    };
    let enc = encode_response(&w);
    if str_eq(enc.as_str(), s) {
        Some(w)
    } else {
        None
    }
}

/// Reads a response envelope from text. Succeeds exactly on the
/// canonical rendering of some envelope, and then returns that envelope.
pub fn parse_response(s: &str) -> (r: Option<ResponseMessageDtoWrapper>)
    ensures
        match r {
            Some(w) => spec_parse_response(s@) == Some(w@) && s@ == spec_resp_chars(w@),
            None => spec_parse_response(s@) is None && forall|w: WrapperV|
                dtov_ok(w.response_message_dto) ==> s@ != spec_resp_chars(w),
        },
{
    let r = parse_response_core(s);
    proof {
        if r is None {
            lemma_parse_response_none(s@);
        }
    }
    r
}

} // verus!
