//! Resolution of role identifiers to the roles they name.
use vstd::prelude::*;
use crate::model::{Role, RoleView};
use crate::repository::{roles_by_ids, RoleRepositoryImpl};

verus! {

pub struct RolesServiceImpl {
    role_repository: RoleRepositoryImpl,
}

impl View for RolesServiceImpl {
    type V = Seq<RoleView>;

    closed spec fn view(&self) -> Seq<RoleView> {
        self.role_repository@
    }
}

impl RolesServiceImpl {
    pub fn new(role_repository: RoleRepositoryImpl) -> (r: RolesServiceImpl)
        ensures
            r@ == role_repository@,
    {
        RolesServiceImpl { role_repository }
    }

    /// The roles carrying the given identifiers, in store order.
    pub fn get_roles_by_id(&self, role_ids: &Vec<String>) -> (r: Vec<Role>)
        ensures
            r.deep_view() == roles_by_ids(self@, role_ids.deep_view()),
    {
        self.role_repository.find_by_ids(role_ids)
    }
}

} // verus!
