//! The record transformer: each loaded record becomes a document carrying
//! the same three fields plus a freshly generated unique identifier under
//! the primary-key field.

use vstd::prelude::*;

use crate::record::Aircraft;

verus! {

pub open spec fn is_lower_hex(c: char) -> bool {
    ('0' as u32 <= c as u32 <= '9' as u32) || ('a' as u32 <= c as u32 <= 'f' as u32)
}

/// The shape of a generated identifier: the hyphenated lowercase text of a
/// 128-bit value, 36 characters with hyphens at the four fixed positions,
/// the version digit at position 14, and lowercase hexadecimal digits
/// elsewhere.
pub open spec fn is_uuid_text(s: Seq<char>) -> bool {
    &&& s.len() == 36
    &&& s[8] == '-'
    &&& s[13] == '-'
    &&& s[18] == '-'
    &&& s[23] == '-'
    &&& s[14] == '4'
    &&& forall|i: int|
        (0 <= i < 36 && i != 8 && i != 13 && i != 18 && i != 23) ==> is_lower_hex(#[trigger] s[i])
}

/// Relies on uuid::Uuid::new_v4 and the hyphenated lowercase Display text
/// of a Uuid: a fresh random version-4 value written as 36 characters.
/// Nothing relates two calls: the value is random.
#[verifier::external_body]
fn fresh_uuid_text() -> (r: String)
    ensures
        is_uuid_text(r@),
{
    uuid::Uuid::new_v4().to_string()
}

/// One document ready for the batch write.
pub struct AircraftDocument {
    pub id: String,
    pub icao_code: String,
    pub iata_code: String,
    pub description: String,
}

/// The document carries the record's three fields verbatim and a
/// well-formed generated identifier.
pub open spec fn doc_of(d: AircraftDocument, a: Aircraft) -> bool {
    &&& d.icao_code@ == a.icao_code@
    &&& d.iata_code@ == a.iata_code@
    &&& d.description@ == a.description@
    &&& is_uuid_text(d.id@)
}

/// Transforms every loaded record into a document: one document per record,
/// in order, each with the source fields unchanged and a fresh identifier.
pub fn to_documents(records: &Vec<Aircraft>) -> (r: Vec<AircraftDocument>)
    ensures
        r@.len() == records@.len(),
        forall|i: int| 0 <= i < r@.len() ==> doc_of(#[trigger] r@[i], records@[i]),
{
    let mut out: Vec<AircraftDocument> = Vec::new();
    let mut idx: usize = 0;
    while idx < records.len()
        invariant
            idx <= records@.len(),
            out@.len() == idx,
            forall|i: int| 0 <= i < out@.len() ==> doc_of(#[trigger] out@[i], records@[i]),
        decreases records@.len() - idx,
    {
        let a = &records[idx];
        let d = AircraftDocument {
            id: fresh_uuid_text(),
            icao_code: a.icao_code.clone(),
            iata_code: a.iata_code.clone(),
            description: a.description.clone(),
        };
        out.push(d);
        idx = idx + 1;
    }
    out
}

} // verus!
