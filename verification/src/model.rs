//! Persisted records: identities, roles, sessions and awards.
//!
//! Timestamps are whole seconds since the epoch.
use vstd::prelude::*;

verus! {

pub const USER_TYPE_ADMIN: &'static str = "ADMIN";

pub const SESSION_TYPE_USER: &'static str = "SESSION_TYPE_USER";

pub const EXPIRY_REASON_LOG_OUT: &'static str = "LOG_OUT";

pub const EXPIRY_REASON_FORCE_EXPIRE: &'static str = "FORCE_EXPIRE";

/// A record that is stored under a string identifier.
pub trait WithId {
    spec fn spec_id(&self) -> Seq<char>;

    fn get_id(&self) -> (r: &str)
        ensures
            r@ == self.spec_id(),
    ;
}

#[derive(Debug)]
pub struct User {
    pub id: String,
    pub user_type: String,
    pub company_id: Option<String>,
    pub login_id: String,
    pub password: String,
    pub role_ids: Vec<String>,
}

#[verifier::ext_equal]
pub ghost struct UserView {
    pub id: Seq<char>,
    pub user_type: Seq<char>,
    pub company_id: Option<Seq<char>>,
    pub login_id: Seq<char>,
    pub password: Seq<char>,
    pub role_ids: Seq<Seq<char>>,
}

impl View for User {
    type V = UserView;

    open spec fn view(&self) -> UserView {
        UserView {
            id: self.id@,
            user_type: self.user_type@,
            company_id: self.company_id.deep_view(),
            login_id: self.login_id@,
            password: self.password@,
            role_ids: self.role_ids.deep_view(),
        }
    }
}

#[derive(Debug)]
pub struct Role {
    pub id: String,
    pub name: String,
    pub permissions: Vec<String>,
}

#[verifier::ext_equal]
pub ghost struct RoleView {
    pub id: Seq<char>,
    pub name: Seq<char>,
    pub permissions: Seq<Seq<char>>,
}

impl View for Role {
    type V = RoleView;

    open spec fn view(&self) -> RoleView {
        RoleView {
            id: self.id@,
            name: self.name@,
            permissions: self.permissions.deep_view(),
        }
    }
}

/// The record of a revocation; immutable once attached.
#[derive(Debug)]
pub struct SessionExpiry {
    pub expired_by: String,
    pub expired_at: i64,
    pub reason: String,
}

#[verifier::ext_equal]
pub ghost struct SessionExpiryView {
    pub expired_by: Seq<char>,
    pub expired_at: int,
    pub reason: Seq<char>,
}

impl View for SessionExpiry {
    type V = SessionExpiryView;

    open spec fn view(&self) -> SessionExpiryView {
        SessionExpiryView {
            expired_by: self.expired_by@,
            expired_at: self.expired_at as int,
            reason: self.reason@,
        }
    }
}

#[derive(Debug)]
pub struct UserSession {
    pub id: String,
    pub user_id: String,
    pub session_type: String,
    pub session_secret: String,
    pub created_at: i64,
    pub expire_at: i64,
    pub expired: Option<SessionExpiry>,
}

#[verifier::ext_equal]
pub ghost struct UserSessionView {
    pub id: Seq<char>,
    pub user_id: Seq<char>,
    pub session_type: Seq<char>,
    pub session_secret: Seq<char>,
    pub created_at: int,
    pub expire_at: int,
    pub expired: Option<SessionExpiryView>,
}

impl View for UserSession {
    type V = UserSessionView;

    open spec fn view(&self) -> UserSessionView {
        UserSessionView {
            id: self.id@,
            user_id: self.user_id@,
            session_type: self.session_type@,
            session_secret: self.session_secret@,
            created_at: self.created_at as int,
            expire_at: self.expire_at as int,
            expired: match self.expired {
                Some(e) => Some(e@),
                None => None,
            },
        }
    }
}

impl UserSessionView {
    /// A session is active at `now` iff it was never revoked and has not yet
    /// reached its expiry instant.
    pub open spec fn active_at(&self, now: int) -> bool {
        self.expired is None && self.expire_at > now
    }
}

impl WithId for UserSession {
    open spec fn spec_id(&self) -> Seq<char> {
        self.id@
    }

    fn get_id(&self) -> (r: &str) {
        self.id.as_str()
    }
}

impl DeepView for User {
    type V = UserView;

    open spec fn deep_view(&self) -> UserView {
        self.view()
    }
}

impl DeepView for Role {
    type V = RoleView;

    open spec fn deep_view(&self) -> RoleView {
        self.view()
    }
}

impl DeepView for UserSession {
    type V = UserSessionView;

    open spec fn deep_view(&self) -> UserSessionView {
        self.view()
    }
}

/// Copies a vector of strings, keeping its view.
pub fn copy_strings(v: &Vec<String>) -> (r: Vec<String>)
    ensures
        r.deep_view() == v.deep_view(),
{
    let mut r: Vec<String> = Vec::new();
    let mut i: usize = 0;
    while i < v.len()
        invariant
            i <= v.len(),
            r@.len() == i,
            forall|k: int| 0 <= k < i ==> r@[k] == v@[k],
        decreases v.len() - i,
    {
        r.push(v[i].clone());
        i = i + 1;
    }
    proof {
        assert(r.deep_view() =~= v.deep_view());
    }
    r
}

/// Copies an optional string, keeping its view.
pub fn copy_opt_string(v: &Option<String>) -> (r: Option<String>)
    ensures
        r.deep_view() == v.deep_view(),
{
    match v {
        Some(s) => Some(s.clone()),
        None => None,
    }
}

impl User {
    /// Copies the record, keeping its view.
    pub fn duplicate(&self) -> (r: User)
        ensures
            r@ == self@,
    {
        let r = User {
            id: self.id.clone(),
            user_type: self.user_type.clone(),
            company_id: copy_opt_string(&self.company_id),
            login_id: self.login_id.clone(),
            password: self.password.clone(),
            role_ids: copy_strings(&self.role_ids),
        };
        proof {
            assert(r@ =~= self@);
        }
        r
    }
}

impl Role {
    /// Copies the record, keeping its view.
    pub fn duplicate(&self) -> (r: Role)
        ensures
            r@ == self@,
    {
        let r = Role {
            id: self.id.clone(),
            name: self.name.clone(),
            permissions: copy_strings(&self.permissions),
        };
        proof {
            assert(r@ =~= self@);
        }
        r
    }
}

impl SessionExpiry {
    /// Copies the record, keeping its view.
    pub fn duplicate(&self) -> (r: SessionExpiry)
        ensures
            r@ == self@,
    {
        SessionExpiry {
            expired_by: self.expired_by.clone(),
            expired_at: self.expired_at,
            reason: self.reason.clone(),
        }
    }
}

impl UserSession {
    /// Copies the record, keeping its view.
    pub fn duplicate(&self) -> (r: UserSession)
        ensures
            r@ == self@,
    {
        let r = UserSession {
            id: self.id.clone(),
            user_id: self.user_id.clone(),
            session_type: self.session_type.clone(),
            session_secret: self.session_secret.clone(),
            created_at: self.created_at,
            expire_at: self.expire_at,
            expired: match &self.expired {
                Some(e) => Some(e.duplicate()),
                None => None,
            },
        };
        proof {
            assert(r@ =~= self@);
        }
        r
    }
}

#[derive(Debug)]
pub struct AwardAlternateId {
    pub id: String,
    pub id_type: String,
}

#[verifier::ext_equal]
pub ghost struct AwardAlternateIdView {
    pub id: Seq<char>,
    pub id_type: Seq<char>,
}

impl View for AwardAlternateId {
    type V = AwardAlternateIdView;

    open spec fn view(&self) -> AwardAlternateIdView {
        AwardAlternateIdView { id: self.id@, id_type: self.id_type@ }
    }
}

impl DeepView for AwardAlternateId {
    type V = AwardAlternateIdView;

    open spec fn deep_view(&self) -> AwardAlternateIdView {
        self.view()
    }
}

impl AwardAlternateId {
    /// Copies the record, keeping its view.
    pub fn duplicate(&self) -> (r: AwardAlternateId)
        ensures
            r@ == self@,
    {
        AwardAlternateId { id: self.id.clone(), id_type: self.id_type.clone() }
    }
}

#[derive(Debug)]
pub struct AwardClassification {
    pub id: String,
    pub title: String,
    pub active: bool,
    pub note: String,
}

#[verifier::ext_equal]
pub ghost struct AwardClassificationView {
    pub id: Seq<char>,
    pub title: Seq<char>,
    pub active: bool,
    pub note: Seq<char>,
}

impl View for AwardClassification {
    type V = AwardClassificationView;

    open spec fn view(&self) -> AwardClassificationView {
        AwardClassificationView {
            id: self.id@,
            title: self.title@,
            active: self.active,
            note: self.note@,
        }
    }
}

impl DeepView for AwardClassification {
    type V = AwardClassificationView;

    open spec fn deep_view(&self) -> AwardClassificationView {
        self.view()
    }
}

impl AwardClassification {
    /// Copies the record, keeping its view.
    pub fn duplicate(&self) -> (r: AwardClassification)
        ensures
            r@ == self@,
    {
        AwardClassification {
            id: self.id.clone(),
            title: self.title.clone(),
            active: self.active,
            note: self.note.clone(),
        }
    }
}

/// Copies a vector of alternate identifiers, keeping its view.
pub fn copy_alt_ids(v: &Vec<AwardAlternateId>) -> (r: Vec<AwardAlternateId>)
    ensures
        r.deep_view() == v.deep_view(),
{
    let mut r: Vec<AwardAlternateId> = Vec::new();
    let mut i: usize = 0;
    while i < v.len()
        invariant
            i <= v.len(),
            r@.len() == i,
            forall|k: int| 0 <= k < i ==> r@[k]@ == v@[k]@,
        decreases v.len() - i,
    {
        r.push(v[i].duplicate());
        i = i + 1;
    }
    proof {
        assert(r.deep_view() =~= v.deep_view());
    }
    r
}

/// Copies a vector of classifications, keeping its view.
pub fn copy_classifications(v: &Vec<AwardClassification>) -> (r: Vec<AwardClassification>)
    ensures
        r.deep_view() == v.deep_view(),
{
    let mut r: Vec<AwardClassification> = Vec::new();
    let mut i: usize = 0;
    while i < v.len()
        invariant
            i <= v.len(),
            r@.len() == i,
            forall|k: int| 0 <= k < i ==> r@[k]@ == v@[k]@,
        decreases v.len() - i,
    {
        r.push(v[i].duplicate());
        i = i + 1;
    }
    proof {
        assert(r.deep_view() =~= v.deep_view());
    }
    r
}

#[derive(Debug)]
pub struct Award {
    pub id: String,
    pub external_id: String,
    pub name: String,
    pub industry_name: String,
    pub common_rule: Option<String>,
    pub alternate_ids: Vec<AwardAlternateId>,
    pub operative_date: i64,
    pub expired_date: Option<i64>,
    pub classifications: Vec<AwardClassification>,
}

#[verifier::ext_equal]
pub ghost struct AwardView {
    pub id: Seq<char>,
    pub external_id: Seq<char>,
    pub name: Seq<char>,
    pub industry_name: Seq<char>,
    pub common_rule: Option<Seq<char>>,
    pub alternate_ids: Seq<AwardAlternateIdView>,
    pub operative_date: int,
    pub expired_date: Option<int>,
    pub classifications: Seq<AwardClassificationView>,
}

impl View for Award {
    type V = AwardView;

    open spec fn view(&self) -> AwardView {
        AwardView {
            id: self.id@,
            external_id: self.external_id@,
            name: self.name@,
            industry_name: self.industry_name@,
            common_rule: self.common_rule.deep_view(),
            alternate_ids: self.alternate_ids.deep_view(),
            operative_date: self.operative_date as int,
            expired_date: match self.expired_date {
                Some(d) => Some(d as int),
                None => None,
            },
            classifications: self.classifications.deep_view(),
        }
    }
}

impl DeepView for Award {
    type V = AwardView;

    open spec fn deep_view(&self) -> AwardView {
        self.view()
    }
}

impl Award {
    /// Copies the record, keeping its view.
    pub fn duplicate(&self) -> (r: Award)
        ensures
            r@ == self@,
    {
        let r = Award {
            id: self.id.clone(),
            external_id: self.external_id.clone(),
            name: self.name.clone(),
            industry_name: self.industry_name.clone(),
            common_rule: copy_opt_string(&self.common_rule),
            alternate_ids: copy_alt_ids(&self.alternate_ids),
            operative_date: self.operative_date,
            expired_date: self.expired_date,
            classifications: copy_classifications(&self.classifications),
        };
        proof {
            assert(r@ =~= self@);
        }
        r
    }
}

impl WithId for Award {
    open spec fn spec_id(&self) -> Seq<char> {
        self.id@
    }

    fn get_id(&self) -> (r: &str) {
        self.id.as_str()
    }
}

} // verus!
