use vstd::prelude::*;

verus! {

/// One aircraft reference record, as decoded from the input file.
///
/// The three textual fields are all required in the source file; a record
/// never exists in memory without them.
pub struct Aircraft {
    pub icao_code: String,
    pub iata_code: String,
    pub description: String,
}

/// The mathematical content of an [`Aircraft`]: its three fields as
/// character sequences.
pub struct AircraftView {
    pub icao: Seq<char>,
    pub iata: Seq<char>,
    pub desc: Seq<char>,
}

impl View for Aircraft {
    type V = AircraftView;

    open spec fn view(&self) -> AircraftView {
        AircraftView { icao: self.icao_code@, iata: self.iata_code@, desc: self.description@ }
    }
}

/// The views of a sequence of records, in order.
pub open spec fn seq_views(s: Seq<Aircraft>) -> Seq<AircraftView> {
    s.map_values(|a: Aircraft| a@)
}

/// The whole input file is rejected: it is not a JSON array of objects that
/// each carry the three required string fields.
#[derive(Debug, PartialEq, Eq, Structural)]
pub struct ParseError {}

impl ParseError {
    /// A human-readable description of the failure class.
    pub fn message(&self) -> (r: String)
        ensures
            r@ == "cannot parse json"@,
    {
        "cannot parse json".to_owned()
    }
}

} // verus!
