//! Shaping of award payloads between the route layer and the stored records.
use vstd::prelude::*;
use crate::dto;
use crate::model;

verus! {

/// Turns award payload parts into their stored shapes.
pub trait AwardConverter {
    fn alt_id_to_model(&self, d: dto::AwardAlternateId) -> (r: model::AwardAlternateId)
        ensures
            r.id@ == d.id@,
            r.id_type@ == d.id_type@,
    ;

    fn classification_to_model(&self, d: dto::AwardClassification) -> (r:
        model::AwardClassification)
        ensures
            r.id@ == d.id@,
            r.title@ == d.title@,
            r.active == d.active,
            r.note@ == d.note@,
    ;
}

pub struct AwardConverterImpl {}

impl AwardConverterImpl {
    pub fn new() -> AwardConverterImpl {
        AwardConverterImpl {}
    }
}

impl AwardConverter for AwardConverterImpl {
    fn alt_id_to_model(&self, d: dto::AwardAlternateId) -> (r: model::AwardAlternateId) {
        model::AwardAlternateId { id: d.id, id_type: d.id_type }
    }

    fn classification_to_model(&self, d: dto::AwardClassification) -> (r:
        model::AwardClassification) {
        model::AwardClassification { id: d.id, title: d.title, active: d.active, note: d.note }
    }
}

} // verus!
