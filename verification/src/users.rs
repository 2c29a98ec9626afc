//! Identity management: creation of administrative users and lookups.
use vstd::prelude::*;
use crate::dto::{CreateSystemAdminUserRequest, UserDto};
use crate::errors::ApiError;
use crate::hash::{bcrypt_matches, HashServiceImpl};
use crate::model::{copy_opt_string, copy_strings, User, UserView, USER_TYPE_ADMIN};
use crate::random::new_uuid_string;
use crate::repository::{find_user_by_id, find_user_by_login, upsert_user, UsersRepositoryImpl};

verus! {

/// Shapes a stored identity for the route layer, without its password digest.
pub trait UserConverter {
    fn to_dto(&self, user: &User) -> (r: UserDto)
        ensures
            r.id@ == user@.id,
            r.user_type@ == user@.user_type,
            r.company_id.deep_view() == user@.company_id,
            r.login_id@ == user@.login_id,
            r.role_ids.deep_view() == user@.role_ids,
    ;
}

pub struct UserConverterImpl {}

impl UserConverterImpl {
    pub fn new() -> UserConverterImpl {
        UserConverterImpl {}
    }
}

impl UserConverter for UserConverterImpl {
    fn to_dto(&self, user: &User) -> (r: UserDto) {
        UserDto {
            id: user.id.clone(),
            user_type: user.user_type.clone(),
            company_id: copy_opt_string(&user.company_id),
            login_id: user.login_id.clone(),
            role_ids: copy_strings(&user.role_ids),
        }
    }
}

pub struct UsersServiceImpl {
    user_converter: UserConverterImpl,
    hash_service: HashServiceImpl,
    users_repository: UsersRepositoryImpl,
}

impl View for UsersServiceImpl {
    type V = Seq<UserView>;

    closed spec fn view(&self) -> Seq<UserView> {
        self.users_repository@
    }
}

impl UsersServiceImpl {
    pub fn new(
        user_converter: UserConverterImpl,
        hash_service: HashServiceImpl,
        users_repository: UsersRepositoryImpl,
    ) -> (r: UsersServiceImpl)
        ensures
            r@ == users_repository@,
    {
        UsersServiceImpl { user_converter, hash_service, users_repository }
    }

    /// Registers an administrative identity under a fresh identifier, with
    /// the password stored only as a salted digest.
    pub fn create_admin_user(&mut self, user: &CreateSystemAdminUserRequest) -> (r: Result<
        UserDto,
        ApiError,
    >)
        ensures
            r is Ok ==> exists|rec: UserView|
                bcrypt_matches(user.password@, rec.password) && rec.user_type
                    == USER_TYPE_ADMIN@ && rec.company_id is None && rec.login_id
                    == user.login_id@ && rec.role_ids == user.role_ids.deep_view()
                    && final(self)@ == #[trigger] upsert_user(old(self)@, rec)
                    && r.unwrap().id@ == rec.id && r.unwrap().user_type@ == USER_TYPE_ADMIN@
                    && r.unwrap().company_id is None && r.unwrap().login_id@ == user.login_id@
                    && r.unwrap().role_ids.deep_view() == user.role_ids.deep_view(),
            r is Err ==> r.unwrap_err() is Server && final(self)@ == old(self)@,
    {
        let id = new_uuid_string();
        let digest = match self.hash_service.hash_pw(user.password.as_str()) {
            Ok(d) => d,
            Err(e) => {
                return Err(ApiError::Server(e));
            },
        };
        let rec = User {
            id,
            user_type: USER_TYPE_ADMIN.to_owned(),
            company_id: None,
            login_id: user.login_id.clone(),
            password: digest,
            role_ids: copy_strings(&user.role_ids),
        };
        self.users_repository.save(&rec);
        let dto = self.user_converter.to_dto(&rec);
        proof {
            assert(bcrypt_matches(user.password@, rec@.password) && self@ == upsert_user(
                old(self)@, rec@) && dto.id@ == rec@.id && dto.user_type@ == USER_TYPE_ADMIN@
                && dto.company_id is None && dto.login_id@ == user.login_id@
                && dto.role_ids.deep_view() == user.role_ids.deep_view());
        }
        Ok(dto)
    }

    pub fn get_user(&self, user_id: &String) -> (r: Option<User>)
        ensures
            r.deep_view() == find_user_by_id(self@, user_id@),
    {
        self.users_repository.find_by_id(user_id)
    }

    pub fn get_user_by_login_id(&self, login_id: &String) -> (r: Option<User>)
        ensures
            r.deep_view() == find_user_by_login(self@, login_id@),
    {
        self.users_repository.find_by_login_id(login_id)
    }
}

} // verus!
