//! Request and response bodies of the route layer, as plain values.
use vstd::prelude::*;
use crate::model::{AwardAlternateIdView, AwardClassificationView};

verus! {

pub const ERR_UNKNOWN: &'static str = "ERR1000";

pub const ERR_UNAUTHENTICATED: &'static str = "ERR1001";

pub const ERR_UNAUTHORIZED: &'static str = "ERR1002";

pub const ERR_NOT_FOUND: &'static str = "ERR1003";

pub const ERR_INVALID_PARAMETERS: &'static str = "ERR1004";

/// Failure body: a fixed code from the enumeration above.
#[derive(Debug)]
pub struct ErrorResponse {
    pub code: &'static str,
}

#[derive(Debug)]
pub struct LogInRequest {
    pub login_id: String,
    pub password: String,
}

#[derive(Debug)]
pub struct LogInResponse {
    pub session_id: String,
    pub session_secret: String,
    pub token: String,
}

#[derive(Debug)]
pub struct RefreshRequest {
    pub session_id: String,
    pub session_secret: String,
}

#[derive(Debug)]
pub struct RefreshResponse {
    pub token: String,
}

#[derive(Debug)]
pub struct CreateSystemAdminUserRequest {
    pub login_id: String,
    pub password: String,
    pub role_ids: Vec<String>,
}

#[derive(Debug)]
pub struct UserDto {
    pub id: String,
    pub user_type: String,
    pub company_id: Option<String>,
    pub login_id: String,
    pub role_ids: Vec<String>,
}

#[derive(Debug)]
pub struct AwardAlternateId {
    pub id: String,
    pub id_type: String,
}

#[derive(Debug)]
pub struct AwardClassification {
    pub id: String,
    pub title: String,
    pub active: bool,
    pub note: String,
}

impl View for AwardAlternateId {
    type V = AwardAlternateIdView;

    open spec fn view(&self) -> AwardAlternateIdView {
        AwardAlternateIdView { id: self.id@, id_type: self.id_type@ }
    }
}

impl DeepView for AwardAlternateId {
    type V = AwardAlternateIdView;

    open spec fn deep_view(&self) -> AwardAlternateIdView {
        self.view()
    }
}

impl View for AwardClassification {
    type V = AwardClassificationView;

    open spec fn view(&self) -> AwardClassificationView {
        AwardClassificationView {
            id: self.id@,
            title: self.title@,
            active: self.active,
            note: self.note@,
        }
    }
}

impl DeepView for AwardClassification {
    type V = AwardClassificationView;

    open spec fn deep_view(&self) -> AwardClassificationView {
        self.view()
    }
}

/// Dates travel as whole seconds since the epoch.
#[derive(Debug)]
pub struct CreateAwardRequest {
    pub external_id: String,
    pub name: String,
    pub industry_name: String,
    pub common_rule: Option<String>,
    pub alternate_ids: Vec<AwardAlternateId>,
    pub operative_date: i64,
    pub expired_date: Option<i64>,
    pub classifications: Vec<AwardClassification>,
}

#[derive(Debug)]
pub struct UpdateAwardExpiryDate {
    pub expired_at: i64,
}

#[derive(Debug)]
pub struct UpdateAwardClassificatonStatusRequest {
    pub active: bool,
}

#[derive(Debug)]
pub struct UpdateAwardClassificationNoteRequest {
    pub note: String,
}

} // verus!
