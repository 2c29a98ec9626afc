//! Award records: creation and the narrow updates the routes allow.
use vstd::prelude::*;
use crate::converters::{AwardConverter, AwardConverterImpl};
use crate::dto;
use crate::dto::CreateAwardRequest;
use crate::errors::ApiError;
use crate::model::{Award, AwardAlternateIdView, AwardClassificationView, AwardView};
use crate::random::new_uuid_string;

verus! {

/// The first award whose identifier matches, if any.
pub open spec fn find_award_by_id(awards: Seq<AwardView>, id: Seq<char>) -> Option<AwardView>
    decreases awards.len(),
{
    if awards.len() == 0 {
        None
    } else if awards[0].id == id {
        Some(awards[0])
    } else {
        find_award_by_id(awards.drop_first(), id)
    }
}

/// Replaces the first record carrying the same identifier, or appends.
pub open spec fn upsert_award(awards: Seq<AwardView>, a: AwardView) -> Seq<AwardView>
    decreases awards.len(),
{
    if awards.len() == 0 {
        seq![a]
    } else if awards[0].id == a.id {
        seq![a] + awards.drop_first()
    } else {
        seq![awards[0]] + upsert_award(awards.drop_first(), a)
    }
}

/// The first classification under the identifier, if any.
pub open spec fn find_classification(
    cs: Seq<AwardClassificationView>,
    cid: Seq<char>,
) -> Option<AwardClassificationView>
    decreases cs.len(),
{
    if cs.len() == 0 {
        None
    } else if cs[0].id == cid {
        Some(cs[0])
    } else {
        find_classification(cs.drop_first(), cid)
    }
}

/// Replaces the first classification under the identifier; meaningful when
/// one is there.
pub open spec fn replace_classification(
    cs: Seq<AwardClassificationView>,
    cid: Seq<char>,
    repl: AwardClassificationView,
) -> Seq<AwardClassificationView>
    decreases cs.len(),
{
    if cs.len() == 0 {
        cs
    } else if cs[0].id == cid {
        seq![repl] + cs.drop_first()
    } else {
        seq![cs[0]] + replace_classification(cs.drop_first(), cid, repl)
    }
}

/// The award store.
pub struct AwardRespositoryImpl {
    records: Vec<Award>,
}

impl View for AwardRespositoryImpl {
    type V = Seq<AwardView>;

    closed spec fn view(&self) -> Seq<AwardView> {
        self.records.deep_view()
    }
}

impl AwardRespositoryImpl {
    pub fn new() -> (r: AwardRespositoryImpl)
        ensures
            r@ == Seq::<AwardView>::empty(),
    {
        let r = AwardRespositoryImpl { records: Vec::new() };
        proof {
            assert(r@ =~= Seq::<AwardView>::empty());
        }
        r
    }

    pub fn save(&mut self, award: &Award)
        ensures
            final(self)@ == upsert_award(old(self)@, award@),
    {
        let mut i: usize = 0;
        loop
            invariant
                i <= self.records.len(),
                self@ == old(self)@,
                forall|k: int| 0 <= k < i ==> old(self)@[k].id != award@.id,
            decreases self.records.len() - i,
        {
            if i == self.records.len() {
                self.records.push(award.duplicate());
                proof {
                    lemma_upsert_award_absent(old(self)@, award@);
                    assert(self@ =~= old(self)@.push(award@));
                }
                return;
            }
            if self.records[i].id == award.id {
                self.records.set(i, award.duplicate());
                proof {
                    lemma_upsert_award_at(old(self)@, award@, i as int);
                    assert(self@ =~= old(self)@.update(i as int, award@));
                }
                return;
            }
            i = i + 1;
        }
    }

    pub fn find_by_id(&self, award_id: &String) -> (r: Option<Award>)
        ensures
            r.deep_view() == find_award_by_id(self@, award_id@),
    {
        let mut i: usize = 0;
        proof {
            assert(self@.skip(0) =~= self@);
        }
        loop
            invariant
                i <= self.records.len(),
                find_award_by_id(self@, award_id@) == find_award_by_id(self@.skip(i as int),
                    award_id@),
            decreases self.records.len() - i,
        {
            if i == self.records.len() {
                proof {
                    assert(self@.skip(i as int) =~= Seq::<AwardView>::empty());
                }
                return None;
            }
            proof {
                assert(self@.skip(i as int)[0] == self@[i as int]);
            }
            if self.records[i].id == *award_id {
                return Some(self.records[i].duplicate());
            }
            proof {
                assert(self@.skip(i as int).drop_first() =~= self@.skip(i + 1));
            }
            i = i + 1;
        }
    }
}

proof fn lemma_upsert_award_at(awards: Seq<AwardView>, a: AwardView, i: int)
    requires
        0 <= i < awards.len(),
        awards[i].id == a.id,
        forall|k: int| 0 <= k < i ==> awards[k].id != a.id,
    ensures
        upsert_award(awards, a) == awards.update(i, a),
    decreases i,
{
    if i == 0 {
        assert(upsert_award(awards, a) == seq![a] + awards.drop_first());
        assert(seq![a] + awards.drop_first() =~= awards.update(0, a));
    } else {
        assert(awards[0].id != a.id);
        assert(awards.drop_first()[i - 1].id == a.id);
        assert forall|k: int| 0 <= k < i - 1 implies awards.drop_first()[k].id != a.id by {
            assert(awards.drop_first()[k] == awards[k + 1]);
        }
        lemma_upsert_award_at(awards.drop_first(), a, i - 1);
        assert(seq![awards[0]] + awards.drop_first().update(i - 1, a) =~= awards.update(i, a));
    }
}

proof fn lemma_upsert_award_absent(awards: Seq<AwardView>, a: AwardView)
    requires
        forall|k: int| 0 <= k < awards.len() ==> awards[k].id != a.id,
    ensures
        upsert_award(awards, a) == awards.push(a),
    decreases awards.len(),
{
    if awards.len() == 0 {
        assert(upsert_award(awards, a) =~= awards.push(a));
    } else {
        assert forall|k: int| 0 <= k < awards.drop_first().len() implies awards.drop_first()
            [k].id != a.id by {
            assert(awards.drop_first()[k] == awards[k + 1]);
        }
        lemma_upsert_award_absent(awards.drop_first(), a);
        assert(seq![awards[0]] + awards.drop_first().push(a) =~= awards.push(a));
    }
}

proof fn lemma_replace_classification_at(
    cs: Seq<AwardClassificationView>,
    cid: Seq<char>,
    repl: AwardClassificationView,
    i: int,
)
    requires
        0 <= i < cs.len(),
        cs[i].id == cid,
        forall|k: int| 0 <= k < i ==> cs[k].id != cid,
    ensures
        replace_classification(cs, cid, repl) == cs.update(i, repl),
        find_classification(cs, cid) == Some(cs[i]),
    decreases i,
{
    if i == 0 {
        assert(replace_classification(cs, cid, repl) == seq![repl] + cs.drop_first());
        assert(seq![repl] + cs.drop_first() =~= cs.update(0, repl));
    } else {
        assert(cs[0].id != cid);
        assert(cs.drop_first()[i - 1].id == cid);
        assert forall|k: int| 0 <= k < i - 1 implies cs.drop_first()[k].id != cid by {
            assert(cs.drop_first()[k] == cs[k + 1]);
        }
        lemma_replace_classification_at(cs.drop_first(), cid, repl, i - 1);
        assert(seq![cs[0]] + cs.drop_first().update(i - 1, repl) =~= cs.update(i, repl));
        assert(cs.drop_first()[i - 1] == cs[i]);
    }
}

proof fn lemma_find_classification_absent(cs: Seq<AwardClassificationView>, cid: Seq<char>)
    requires
        forall|k: int| 0 <= k < cs.len() ==> cs[k].id != cid,
    ensures
        find_classification(cs, cid) is None,
    decreases cs.len(),
{
    if cs.len() > 0 {
        assert forall|k: int| 0 <= k < cs.drop_first().len() implies cs.drop_first()[k].id
            != cid by {
            assert(cs.drop_first()[k] == cs[k + 1]);
        }
        lemma_find_classification_absent(cs.drop_first(), cid);
    }
}

/// How one award update runs: load the record, change the one field, save
/// it back.
pub struct AwardServiceImpl {
    award_converter: AwardConverterImpl,
    award_repository: AwardRespositoryImpl,
}

impl View for AwardServiceImpl {
    type V = Seq<AwardView>;

    closed spec fn view(&self) -> Seq<AwardView> {
        self.award_repository@
    }
}

impl AwardServiceImpl {
    pub fn new(
        award_converter: AwardConverterImpl,
        award_repository: AwardRespositoryImpl,
    ) -> (r: AwardServiceImpl)
        ensures
            r@ == award_repository@,
    {
        AwardServiceImpl { award_converter, award_repository }
    }

    /// The stored award, or the not-found failure the routes report.
    pub fn load_award(&self, award_id: &String) -> (r: Result<Award, ApiError>)
        ensures
            find_award_by_id(self@, award_id@) is None ==> r is Err && r.unwrap_err()
                is NotFound,
            find_award_by_id(self@, award_id@) is Some ==> r is Ok && r.unwrap()@
                == find_award_by_id(self@, award_id@).unwrap(),
    {
        match self.award_repository.find_by_id(award_id) {
            Some(a) => Ok(a),
            None => Err(ApiError::NotFound),
        }
    }

    /// Stores a new award under a fresh identifier.
    pub fn create_award(&mut self, award: CreateAwardRequest) -> (r: Result<(), ApiError>)
        ensures
            r is Ok,
            exists|rec: AwardView|
                rec.external_id == award.external_id@ && rec.name == award.name@
                    && rec.industry_name == award.industry_name@ && rec.common_rule
                    == award.common_rule.deep_view() && rec.alternate_ids
                    == award.alternate_ids.deep_view() && rec.operative_date
                    == award.operative_date as int && rec.expired_date == (match
                award.expired_date {
                    Some(d) => Some(d as int),
                    None => None,
                }) && rec.classifications == award.classifications.deep_view()
                    && final(self)@ == #[trigger] upsert_award(old(self)@, rec),
    {
        let mut alternate_ids: Vec<crate::model::AwardAlternateId> = Vec::new();
        let mut i: usize = 0;
        while i < award.alternate_ids.len()
            invariant
                i <= award.alternate_ids.len(),
                alternate_ids@.len() == i,
                forall|k: int| 0 <= k < i ==> alternate_ids@[k]@
                    == award.alternate_ids@[k]@,
            decreases award.alternate_ids.len() - i,
        {
            let d = &award.alternate_ids[i];
            alternate_ids.push(self.award_converter.alt_id_to_model(dto::AwardAlternateId {
                id: d.id.clone(),
                id_type: d.id_type.clone(),
            }));
            i = i + 1;
        }
        let mut classifications: Vec<crate::model::AwardClassification> = Vec::new();
        let mut j: usize = 0;
        while j < award.classifications.len()
            invariant
                j <= award.classifications.len(),
                classifications@.len() == j,
                forall|k: int| 0 <= k < j ==> classifications@[k]@
                    == award.classifications@[k]@,
            decreases award.classifications.len() - j,
        {
            let d = &award.classifications[j];
            classifications.push(self.award_converter.classification_to_model(
                dto::AwardClassification {
                    id: d.id.clone(),
                    title: d.title.clone(),
                    active: d.active,
                    note: d.note.clone(),
                },
            ));
            j = j + 1;
        }
        let rec = Award {
            id: new_uuid_string(),
            external_id: award.external_id,
            name: award.name,
            industry_name: award.industry_name,
            common_rule: award.common_rule,
            alternate_ids,
            operative_date: award.operative_date,
            expired_date: award.expired_date,
            classifications,
        };
        proof {
            assert(rec@.alternate_ids =~= award.alternate_ids.deep_view());
            assert(rec@.classifications =~= award.classifications.deep_view());
        }
        self.award_repository.save(&rec);
        proof {
            assert(self@ == upsert_award(old(self)@, rec@));
            assert(rec@.external_id == award.external_id@ && rec@.name == award.name@
                && rec@.industry_name == award.industry_name@ && rec@.common_rule
                == award.common_rule.deep_view() && rec@.operative_date
                == award.operative_date as int && rec@.expired_date == (match
            award.expired_date {
                Some(d) => Some(d as int),
                None => None,
            }));
        }
        Ok(())
    }

    /// Appends an alternate identifier to the stored award.
    pub fn add_alt_id(&mut self, award_id: &String, alt_id: dto::AwardAlternateId) -> (r:
        Result<(), ApiError>)
        ensures
            find_award_by_id(old(self)@, award_id@) is None ==> r is Err && r.unwrap_err()
                is NotFound && final(self)@ == old(self)@,
            find_award_by_id(old(self)@, award_id@) matches Some(a) ==> r is Ok
                && final(self)@ == upsert_award(old(self)@, AwardView {
                alternate_ids: a.alternate_ids.push(AwardAlternateIdView {
                    id: alt_id.id@,
                    id_type: alt_id.id_type@,
                }),
                ..a
            }),
    {
        let mut award = match self.award_repository.find_by_id(award_id) {
            Some(a) => a,
            None => {
                return Err(ApiError::NotFound);
            },
        };
        award.alternate_ids.push(self.award_converter.alt_id_to_model(alt_id));
        proof {
            let a = find_award_by_id(old(self)@, award_id@).unwrap();
            assert(award@.alternate_ids.last() =~= (AwardAlternateIdView {
                id: alt_id.id@,
                id_type: alt_id.id_type@,
            }));
            assert(award@.alternate_ids =~= a.alternate_ids.push(AwardAlternateIdView {
                id: alt_id.id@,
                id_type: alt_id.id_type@,
            }));
            assert(award@ =~= (AwardView {
                alternate_ids: a.alternate_ids.push(AwardAlternateIdView {
                    id: alt_id.id@,
                    id_type: alt_id.id_type@,
                }),
                ..a
            }));
        }
        self.award_repository.save(&award);
        Ok(())
    }

    /// Appends a classification to the stored award.
    pub fn add_classification(
        &mut self,
        award_id: &String,
        classification: dto::AwardClassification,
    ) -> (r: Result<(), ApiError>)
        ensures
            find_award_by_id(old(self)@, award_id@) is None ==> r is Err && r.unwrap_err()
                is NotFound && final(self)@ == old(self)@,
            find_award_by_id(old(self)@, award_id@) matches Some(a) ==> r is Ok
                && final(self)@ == upsert_award(old(self)@, AwardView {
                classifications: a.classifications.push(AwardClassificationView {
                    id: classification.id@,
                    title: classification.title@,
                    active: classification.active,
                    note: classification.note@,
                }),
                ..a
            }),
    {
        let mut award = match self.award_repository.find_by_id(award_id) {
            Some(a) => a,
            None => {
                return Err(ApiError::NotFound);
            },
        };
        award.classifications.push(self.award_converter.classification_to_model(
            classification));
        proof {
            let a = find_award_by_id(old(self)@, award_id@).unwrap();
            assert(award@.classifications.last() =~= (AwardClassificationView {
                id: classification.id@,
                title: classification.title@,
                active: classification.active,
                note: classification.note@,
            }));
            assert(award@.classifications =~= a.classifications.push(AwardClassificationView {
                id: classification.id@,
                title: classification.title@,
                active: classification.active,
                note: classification.note@,
            }));
            assert(award@ =~= (AwardView {
                classifications: a.classifications.push(AwardClassificationView {
                    id: classification.id@,
                    title: classification.title@,
                    active: classification.active,
                    note: classification.note@,
                }),
                ..a
            }));
        }
        self.award_repository.save(&award);
        Ok(())
    }

    /// Sets or clears the stored award's expiry date.
    pub fn update_expired_at(&mut self, award_id: &String, expired_at: Option<i64>) -> (r:
        Result<(), ApiError>)
        ensures
            find_award_by_id(old(self)@, award_id@) is None ==> r is Err && r.unwrap_err()
                is NotFound && final(self)@ == old(self)@,
            find_award_by_id(old(self)@, award_id@) matches Some(a) ==> r is Ok
                && final(self)@ == upsert_award(old(self)@, AwardView {
                expired_date: (match expired_at {
                    Some(d) => Some(d as int),
                    None => None,
                }),
                ..a
            }),
    {
        let mut award = match self.award_repository.find_by_id(award_id) {
            Some(a) => a,
            None => {
                return Err(ApiError::NotFound);
            },
        };
        award.expired_date = expired_at;
        proof {
            let a = find_award_by_id(old(self)@, award_id@).unwrap();
            assert(award@ =~= (AwardView {
                expired_date: (match expired_at {
                    Some(d) => Some(d as int),
                    None => None,
                }),
                ..a
            }));
        }
        self.award_repository.save(&award);
        Ok(())
    }

    /// Flips one classification's active flag on the stored award.
    pub fn update_classification_status(
        &mut self,
        award_id: &String,
        classification_id: &String,
        active: bool,
    ) -> (r: Result<(), ApiError>)
        ensures
            find_award_by_id(old(self)@, award_id@) is None ==> r is Err && r.unwrap_err()
                is NotFound && final(self)@ == old(self)@,
            find_award_by_id(old(self)@, award_id@) matches Some(a) ==> {
                &&& find_classification(a.classifications, classification_id@) is None ==> r
                    is Err && r.unwrap_err() is NotFound && final(self)@ == old(self)@
                &&& find_classification(a.classifications, classification_id@) matches Some(c)
                    ==> r is Ok && final(self)@ == upsert_award(old(self)@, AwardView {
                    classifications: replace_classification(a.classifications,
                        classification_id@, AwardClassificationView { active, ..c }),
                    ..a
                })
            },
    {
        let mut award = match self.award_repository.find_by_id(award_id) {
            Some(a) => a,
            None => {
                return Err(ApiError::NotFound);
            },
        };
        let ghost a = find_award_by_id(old(self)@, award_id@).unwrap();
        let mut i: usize = 0;
        loop
            invariant
                i <= award.classifications.len(),
                find_award_by_id(old(self)@, award_id@) == Some(a),
                award@ == a,
                self@ == old(self)@,
                forall|k: int| 0 <= k < i ==> a.classifications[k].id != classification_id@,
            decreases award.classifications.len() - i,
        {
            if i == award.classifications.len() {
                proof {
                    lemma_find_classification_absent(a.classifications, classification_id@);
                }
                return Err(ApiError::NotFound);
            }
            proof {
                assert(award@.classifications[i as int] == award.classifications@[i as int]@);
            }
            if award.classifications[i].id == *classification_id {
                let repl = crate::model::AwardClassification {
                    id: award.classifications[i].id.clone(),
                    title: award.classifications[i].title.clone(),
                    active,
                    note: award.classifications[i].note.clone(),
                };
                let ghost rview = repl@;
                award.classifications.set(i, repl);
                proof {
                    let c = a.classifications[i as int];
                    assert(rview =~= (AwardClassificationView { active, ..c }));
                    lemma_replace_classification_at(a.classifications, classification_id@,
                        AwardClassificationView { active, ..c }, i as int);
                    assert(award@.classifications =~= a.classifications.update(i as int,
                        AwardClassificationView { active, ..c }));
                    assert(award@ =~= (AwardView {
                        classifications: a.classifications.update(i as int,
                            AwardClassificationView { active, ..c }),
                        ..a
                    }));
                }
                self.award_repository.save(&award);
                return Ok(());
            }
            i = i + 1;
        }
    }

    /// Rewrites one classification's note on the stored award.
    pub fn update_classification_note(
        &mut self,
        award_id: &String,
        classification_id: &String,
        note: &str,
    ) -> (r: Result<(), ApiError>)
        ensures
            find_award_by_id(old(self)@, award_id@) is None ==> r is Err && r.unwrap_err()
                is NotFound && final(self)@ == old(self)@,
            find_award_by_id(old(self)@, award_id@) matches Some(a) ==> {
                &&& find_classification(a.classifications, classification_id@) is None ==> r
                    is Err && r.unwrap_err() is NotFound && final(self)@ == old(self)@
                &&& find_classification(a.classifications, classification_id@) matches Some(c)
                    ==> r is Ok && final(self)@ == upsert_award(old(self)@, AwardView {
                    classifications: replace_classification(a.classifications,
                        classification_id@, AwardClassificationView { note: note@, ..c }),
                    ..a
                })
            },
    {
        let mut award = match self.award_repository.find_by_id(award_id) {
            Some(a) => a,
            None => {
                return Err(ApiError::NotFound);
            },
        };
        let ghost a = find_award_by_id(old(self)@, award_id@).unwrap();
        let mut i: usize = 0;
        loop
            invariant
                i <= award.classifications.len(),
                find_award_by_id(old(self)@, award_id@) == Some(a),
                award@ == a,
                self@ == old(self)@,
                forall|k: int| 0 <= k < i ==> a.classifications[k].id != classification_id@,
            decreases award.classifications.len() - i,
        {
            if i == award.classifications.len() {
                proof {
                    lemma_find_classification_absent(a.classifications, classification_id@);
                }
                return Err(ApiError::NotFound);
            }
            proof {
                assert(award@.classifications[i as int] == award.classifications@[i as int]@);
            }
            if award.classifications[i].id == *classification_id {
                let repl = crate::model::AwardClassification {
                    id: award.classifications[i].id.clone(),
                    title: award.classifications[i].title.clone(),
                    active: award.classifications[i].active,
                    note: note.to_owned(),
                };
                let ghost rview = repl@;
                award.classifications.set(i, repl);
                proof {
                    let c = a.classifications[i as int];
                    assert(rview =~= (AwardClassificationView { note: note@, ..c }));
                    lemma_replace_classification_at(a.classifications, classification_id@,
                        AwardClassificationView { note: note@, ..c }, i as int);
                    assert(award@.classifications =~= a.classifications.update(i as int,
                        AwardClassificationView { note: note@, ..c }));
                    assert(award@ =~= (AwardView {
                        classifications: a.classifications.update(i as int,
                            AwardClassificationView { note: note@, ..c }),
                        ..a
                    }));
                }
                self.award_repository.save(&award);
                return Ok(());
            }
            i = i + 1;
        }
    }
}

} // verus!
