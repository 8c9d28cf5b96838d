use vstd::prelude::*;

verus! {

/// What `uuid::Uuid::parse_str` makes of a text, as the 128-bit value of the
/// UUID (`Uuid::as_u128`), or `None` where it refuses the text.
pub uninterp spec fn uuid_parse(text: Seq<char>) -> Option<u128>;

/// Calls `uuid::Uuid::parse_str` and turns an accepted UUID into its 128-bit
/// value with `Uuid::as_u128`. The contract only ties the result to the text
/// through `uuid_parse`; which texts the crate accepts (simple, hyphenated,
/// braced and URN forms) is not spelled out here.
#[verifier::external_body]
fn parse_uuid(text: &str) -> (id: Option<u128>)
    ensures
        id == uuid_parse(text@),
{
    match uuid::Uuid::parse_str(text) {
        Ok(u) => Some(u.as_u128()),
        Err(_) => None,
    }
}

/// Every text of `filter` is a UUID.
pub open spec fn all_uuids(filter: Seq<Seq<char>>) -> bool {
    forall|i: int| 0 <= i < filter.len() ==> (#[trigger] uuid_parse(filter[i])) is Some
}

/// Turns the parse result of each filter entry into the service list of a
/// scan: all of them, in order, when every entry parsed, else `None`.
pub fn collect_services(parsed: Vec<Option<u128>>) -> (services: Option<Vec<u128>>)
    ensures
        match services {
            Some(v) => v@.len() == parsed@.len() && forall|i: int|
                0 <= i < parsed@.len() ==> parsed@[i] == Some(#[trigger] v@[i]),
            None => exists|i: int| 0 <= i < parsed@.len() && (#[trigger] parsed@[i]) is None,
        },
{
    let mut out: Vec<u128> = Vec::new();
    let mut i: usize = 0;
    while i < parsed.len()
        invariant
            i <= parsed@.len(),
            out@.len() == i,
            forall|j: int| 0 <= j < i ==> parsed@[j] == Some(#[trigger] out@[j]),
        decreases parsed@.len() - i,
    {
        match parsed[i] {
            Some(id) => out.push(id),
            None => {
                assert(parsed@[i as int] is None);
                return None;
            },
        }
        i += 1;
    }
    Some(out)
}

/// The service UUIDs that a scan filters on: each text of `filter` parsed as
/// a UUID, in order, or `None` when some text is not a UUID.
pub fn service_filter(filter: &Vec<String>) -> (services: Option<Vec<u128>>)
    ensures
        match services {
            Some(v) => v@.len() == filter@.len() && forall|i: int|
                0 <= i < filter@.len() ==> uuid_parse(filter@[i]@) == Some(#[trigger] v@[i]),
            None => exists|i: int| 0 <= i < filter@.len() && (#[trigger] uuid_parse(filter@[i]@)) is None,
        },
        services is Some <==> all_uuids(filter@.map_values(|s: String| s@)),
{
    let mut parsed: Vec<Option<u128>> = Vec::new();
    let mut i: usize = 0;
    while i < filter.len()
        invariant
            i <= filter@.len(),
            parsed@.len() == i,
            forall|j: int| 0 <= j < i ==> #[trigger] parsed@[j] == uuid_parse(filter@[j]@),
        decreases filter@.len() - i,
    {
        parsed.push(parse_uuid(filter[i].as_str()));
        i += 1;
    }
    let ghost all = parsed@;
    let services = collect_services(parsed);
    proof {
        let texts = filter@.map_values(|s: String| s@);
        if services is Some {
            assert forall|j: int| 0 <= j < texts.len() implies (#[trigger] uuid_parse(texts[j])) is Some by {
                assert(texts[j] == filter@[j]@);
                assert(all[j] == uuid_parse(filter@[j]@));
                assert(all[j] == Some(services.unwrap()@[j]));
            }
        } else {
            let j = choose|j: int| 0 <= j < all.len() && (#[trigger] all[j]) is None;
            assert(all[j] == uuid_parse(filter@[j]@));
            assert(texts[j] == filter@[j]@);
            assert(uuid_parse(texts[j]) is None);
        }
    }
    services
}

} // verus!
