use vstd::prelude::*;
use barter_integration::model::instrument::Instrument;

verus! {

/// Declares the instrument type of barter-integration; a value of it is carried through
/// unread.
#[verifier::external_type_specification]
#[verifier::external_body]
pub struct ExInstrument(Instrument);

/// Relies on the derived `Clone` of barter-integration's `Instrument`: the copy is
/// equal to the value it was made from.
pub assume_specification[ <Instrument as Clone>::clone ](i: &Instrument) -> (r: Instrument)
    ensures
        r == *i,
;

/// A normalised event of one exchange about one instrument.
#[derive(Debug)]
pub struct Market<T> {
    pub exchange: String,
    pub instrument: Instrument,
    pub event: T,
}

} // verus!
