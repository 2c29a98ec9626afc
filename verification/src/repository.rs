//! In-memory stores with the query semantics of the persistence layer:
//! upsert by identifier, find-one by a filter, find-many by identifier set.
use vstd::prelude::*;
use crate::model::{Role, RoleView, User, UserSession, UserSessionView, UserView};

verus! {

/// The first user whose identifier matches, if any.
pub open spec fn find_user_by_id(users: Seq<UserView>, id: Seq<char>) -> Option<UserView>
    decreases users.len(),
{
    if users.len() == 0 {
        None
    } else if users[0].id == id {
        Some(users[0])
    } else {
        find_user_by_id(users.drop_first(), id)
    }
}

/// The first user whose login identifier matches, if any.
pub open spec fn find_user_by_login(users: Seq<UserView>, login_id: Seq<char>) -> Option<
    UserView,
>
    decreases users.len(),
{
    if users.len() == 0 {
        None
    } else if users[0].login_id == login_id {
        Some(users[0])
    } else {
        find_user_by_login(users.drop_first(), login_id)
    }
}

/// Replaces the first record carrying the same identifier, or appends.
pub open spec fn upsert_user(users: Seq<UserView>, u: UserView) -> Seq<UserView>
    decreases users.len(),
{
    if users.len() == 0 {
        seq![u]
    } else if users[0].id == u.id {
        seq![u] + users.drop_first()
    } else {
        seq![users[0]] + upsert_user(users.drop_first(), u)
    }
}

/// The first session with the identifier that is active at `now`, if any.
pub open spec fn find_active_session(
    sessions: Seq<UserSessionView>,
    id: Seq<char>,
    now: int,
) -> Option<UserSessionView>
    decreases sessions.len(),
{
    if sessions.len() == 0 {
        None
    } else if sessions[0].id == id && sessions[0].active_at(now) {
        Some(sessions[0])
    } else {
        find_active_session(sessions.drop_first(), id, now)
    }
}

/// Replaces the first record carrying the same identifier, or appends.
pub open spec fn upsert_session(sessions: Seq<UserSessionView>, s: UserSessionView) -> Seq<
    UserSessionView,
>
    decreases sessions.len(),
{
    if sessions.len() == 0 {
        seq![s]
    } else if sessions[0].id == s.id {
        seq![s] + sessions.drop_first()
    } else {
        seq![sessions[0]] + upsert_session(sessions.drop_first(), s)
    }
}

/// The roles whose identifiers appear in `ids`, in store order.
pub open spec fn roles_by_ids(roles: Seq<RoleView>, ids: Seq<Seq<char>>) -> Seq<RoleView>
    decreases roles.len(),
{
    if roles.len() == 0 {
        Seq::empty()
    } else if ids.contains(roles[0].id) {
        seq![roles[0]] + roles_by_ids(roles.drop_first(), ids)
    } else {
        roles_by_ids(roles.drop_first(), ids)
    }
}

/// The identity store.
pub struct UsersRepositoryImpl {
    records: Vec<User>,
}

impl View for UsersRepositoryImpl {
    type V = Seq<UserView>;

    closed spec fn view(&self) -> Seq<UserView> {
        self.records.deep_view()
    }
}

impl UsersRepositoryImpl {
    pub fn new() -> (r: UsersRepositoryImpl)
        ensures
            r@ == Seq::<UserView>::empty(),
    {
        let r = UsersRepositoryImpl { records: Vec::new() };
        proof {
            assert(r@ =~= Seq::<UserView>::empty());
        }
        r
    }

    pub fn save(&mut self, user: &User)
        ensures
            final(self)@ == upsert_user(old(self)@, user@),
    {
        let mut i: usize = 0;
        loop
            invariant
                i <= self.records.len(),
                self@ == old(self)@,
                forall|k: int| 0 <= k < i ==> old(self)@[k].id != user@.id,
            decreases self.records.len() - i,
        {
            if i == self.records.len() {
                self.records.push(user.duplicate());
                proof {
                    lemma_upsert_user_absent(old(self)@, user@);
                    assert(self@ =~= old(self)@.push(user@));
                }
                return;
            }
            if self.records[i].id == user.id {
                self.records.set(i, user.duplicate());
                proof {
                    lemma_upsert_user_at(old(self)@, user@, i as int);
                    assert(self@ =~= old(self)@.update(i as int, user@));
                }
                return;
            }
            i = i + 1;
        }
    }

    pub fn find_by_id(&self, user_id: &String) -> (r: Option<User>)
        ensures
            r.deep_view() == find_user_by_id(self@, user_id@),
    {
        let mut i: usize = 0;
        proof {
            assert(self@.skip(0) =~= self@);
        }
        loop
            invariant
                i <= self.records.len(),
                find_user_by_id(self@, user_id@) == find_user_by_id(self@.skip(i as int),
                    user_id@),
            decreases self.records.len() - i,
        {
            if i == self.records.len() {
                proof {
                    assert(self@.skip(i as int) =~= Seq::<UserView>::empty());
                }
                return None;
            }
            proof {
                assert(self@.skip(i as int)[0] == self@[i as int]);
            }
            if self.records[i].id == *user_id {
                return Some(self.records[i].duplicate());
            }
            proof {
                assert(self@.skip(i as int).drop_first() =~= self@.skip(i + 1));
            }
            i = i + 1;
        }
    }

    pub fn find_by_login_id(&self, login_id: &String) -> (r: Option<User>)
        ensures
            r.deep_view() == find_user_by_login(self@, login_id@),
    {
        let mut i: usize = 0;
        proof {
            assert(self@.skip(0) =~= self@);
        }
        loop
            invariant
                i <= self.records.len(),
                find_user_by_login(self@, login_id@) == find_user_by_login(self@.skip(i as int),
                    login_id@),
            decreases self.records.len() - i,
        {
            if i == self.records.len() {
                proof {
                    assert(self@.skip(i as int) =~= Seq::<UserView>::empty());
                }
                return None;
            }
            proof {
                assert(self@.skip(i as int)[0] == self@[i as int]);
            }
            if self.records[i].login_id == *login_id {
                return Some(self.records[i].duplicate());
            }
            proof {
                assert(self@.skip(i as int).drop_first() =~= self@.skip(i + 1));
            }
            i = i + 1;
        }
    }
}

proof fn lemma_upsert_user_at(users: Seq<UserView>, u: UserView, i: int)
    requires
        0 <= i < users.len(),
        users[i].id == u.id,
        forall|k: int| 0 <= k < i ==> users[k].id != u.id,
    ensures
        upsert_user(users, u) == users.update(i, u),
    decreases i,
{
    if i == 0 {
        assert(upsert_user(users, u) == seq![u] + users.drop_first());
        assert(seq![u] + users.drop_first() =~= users.update(0, u));
    } else {
        assert(users[0].id != u.id);
        assert(users.drop_first()[i - 1].id == u.id);
        assert forall|k: int| 0 <= k < i - 1 implies users.drop_first()[k].id != u.id by {
            assert(users.drop_first()[k] == users[k + 1]);
        }
        lemma_upsert_user_at(users.drop_first(), u, i - 1);
        assert(seq![users[0]] + users.drop_first().update(i - 1, u) =~= users.update(i, u));
    }
}

proof fn lemma_upsert_user_absent(users: Seq<UserView>, u: UserView)
    requires
        forall|k: int| 0 <= k < users.len() ==> users[k].id != u.id,
    ensures
        upsert_user(users, u) == users.push(u),
    decreases users.len(),
{
    if users.len() == 0 {
        assert(upsert_user(users, u) =~= users.push(u));
    } else {
        assert forall|k: int| 0 <= k < users.drop_first().len() implies users.drop_first()[k].id
            != u.id by {
            assert(users.drop_first()[k] == users[k + 1]);
        }
        lemma_upsert_user_absent(users.drop_first(), u);
        assert(seq![users[0]] + users.drop_first().push(u) =~= users.push(u));
    }
}

/// The session store.
pub struct UserSessionRepositoryImpl {
    records: Vec<UserSession>,
}

impl View for UserSessionRepositoryImpl {
    type V = Seq<UserSessionView>;

    closed spec fn view(&self) -> Seq<UserSessionView> {
        self.records.deep_view()
    }
}

impl UserSessionRepositoryImpl {
    pub fn new() -> (r: UserSessionRepositoryImpl)
        ensures
            r@ == Seq::<UserSessionView>::empty(),
    {
        let r = UserSessionRepositoryImpl { records: Vec::new() };
        proof {
            assert(r@ =~= Seq::<UserSessionView>::empty());
        }
        r
    }

    pub fn save(&mut self, session: &UserSession)
        ensures
            final(self)@ == upsert_session(old(self)@, session@),
    {
        let mut i: usize = 0;
        loop
            invariant
                i <= self.records.len(),
                self@ == old(self)@,
                forall|k: int| 0 <= k < i ==> old(self)@[k].id != session@.id,
            decreases self.records.len() - i,
        {
            if i == self.records.len() {
                self.records.push(session.duplicate());
                proof {
                    lemma_upsert_session_absent(old(self)@, session@);
                    assert(self@ =~= old(self)@.push(session@));
                }
                return;
            }
            if self.records[i].id == session.id {
                self.records.set(i, session.duplicate());
                proof {
                    lemma_upsert_session_at(old(self)@, session@, i as int);
                    assert(self@ =~= old(self)@.update(i as int, session@));
                }
                return;
            }
            i = i + 1;
        }
    }

    /// The query of the route layer: identifier match, expiry in the future,
    /// no expiry record attached.
    pub fn find_active_by_id(&self, id: &String, now: i64) -> (r: Option<UserSession>)
        ensures
            r.deep_view() == find_active_session(self@, id@, now as int),
    {
        let mut i: usize = 0;
        proof {
            assert(self@.skip(0) =~= self@);
        }
        loop
            invariant
                i <= self.records.len(),
                find_active_session(self@, id@, now as int) == find_active_session(self@.skip(
                    i as int), id@, now as int),
            decreases self.records.len() - i,
        {
            if i == self.records.len() {
                proof {
                    assert(self@.skip(i as int) =~= Seq::<UserSessionView>::empty());
                }
                return None;
            }
            proof {
                assert(self@.skip(i as int)[0] == self@[i as int]);
            }
            let rec = &self.records[i];
            if rec.id == *id && rec.expire_at > now && rec.expired.is_none() {
                return Some(rec.duplicate());
            }
            proof {
                assert(self@.skip(i as int).drop_first() =~= self@.skip(i + 1));
            }
            i = i + 1;
        }
    }
}

proof fn lemma_upsert_session_at(sessions: Seq<UserSessionView>, s: UserSessionView, i: int)
    requires
        0 <= i < sessions.len(),
        sessions[i].id == s.id,
        forall|k: int| 0 <= k < i ==> sessions[k].id != s.id,
    ensures
        upsert_session(sessions, s) == sessions.update(i, s),
    decreases i,
{
    if i == 0 {
        assert(upsert_session(sessions, s) == seq![s] + sessions.drop_first());
        assert(seq![s] + sessions.drop_first() =~= sessions.update(0, s));
    } else {
        assert(sessions[0].id != s.id);
        assert(sessions.drop_first()[i - 1].id == s.id);
        assert forall|k: int| 0 <= k < i - 1 implies sessions.drop_first()[k].id != s.id by {
            assert(sessions.drop_first()[k] == sessions[k + 1]);
        }
        lemma_upsert_session_at(sessions.drop_first(), s, i - 1);
        assert(seq![sessions[0]] + sessions.drop_first().update(i - 1, s) =~= sessions.update(
            i, s));
    }
}

proof fn lemma_upsert_session_absent(sessions: Seq<UserSessionView>, s: UserSessionView)
    requires
        forall|k: int| 0 <= k < sessions.len() ==> sessions[k].id != s.id,
    ensures
        upsert_session(sessions, s) == sessions.push(s),
    decreases sessions.len(),
{
    if sessions.len() == 0 {
        assert(upsert_session(sessions, s) =~= sessions.push(s));
    } else {
        assert forall|k: int| 0 <= k < sessions.drop_first().len() implies sessions.drop_first()
            [k].id != s.id by {
            assert(sessions.drop_first()[k] == sessions[k + 1]);
        }
        lemma_upsert_session_absent(sessions.drop_first(), s);
        assert(seq![sessions[0]] + sessions.drop_first().push(s) =~= sessions.push(s));
    }
}

/// The role store; read-only for this subsystem, filled at construction.
pub struct RoleRepositoryImpl {
    records: Vec<Role>,
}

impl View for RoleRepositoryImpl {
    type V = Seq<RoleView>;

    closed spec fn view(&self) -> Seq<RoleView> {
        self.records.deep_view()
    }
}

pub proof fn lemma_roles_by_ids_push(roles: Seq<RoleView>, ids: Seq<Seq<char>>, r: RoleView)
    ensures
        roles_by_ids(roles.push(r), ids) == roles_by_ids(roles, ids) + (if ids.contains(r.id) {
            seq![r]
        } else {
            Seq::<RoleView>::empty()
        }),
    decreases roles.len(),
{
    let tail = if ids.contains(r.id) {
        seq![r]
    } else {
        Seq::<RoleView>::empty()
    };
    if roles.len() == 0 {
        assert(roles.push(r).drop_first() =~= Seq::<RoleView>::empty());
        assert(roles.push(r)[0] == r);
        assert(roles_by_ids(Seq::<RoleView>::empty(), ids) == Seq::<RoleView>::empty());
        assert(roles_by_ids(roles, ids) == Seq::<RoleView>::empty());
        if ids.contains(r.id) {
            assert(roles_by_ids(roles.push(r), ids) == seq![r] + roles_by_ids(
                Seq::<RoleView>::empty(), ids));
            assert(roles_by_ids(roles.push(r), ids) =~= roles_by_ids(roles, ids) + tail);
        } else {
            assert(roles_by_ids(roles.push(r), ids) == roles_by_ids(Seq::<RoleView>::empty(),
                ids));
            assert(roles_by_ids(roles.push(r), ids) =~= roles_by_ids(roles, ids) + tail);
        }
    } else {
        assert(roles.push(r).drop_first() =~= roles.drop_first().push(r));
        assert(roles.push(r)[0] == roles[0]);
        lemma_roles_by_ids_push(roles.drop_first(), ids, r);
        assert(roles_by_ids(roles.push(r), ids) =~= roles_by_ids(roles, ids) + tail);
    }
}

impl RoleRepositoryImpl {
    pub fn new(records: Vec<Role>) -> (r: RoleRepositoryImpl)
        ensures
            r@ == records.deep_view(),
    {
        RoleRepositoryImpl { records }
    }

    pub fn find_by_ids(&self, role_ids: &Vec<String>) -> (r: Vec<Role>)
        ensures
            r.deep_view() == roles_by_ids(self@, role_ids.deep_view()),
    {
        let mut out: Vec<Role> = Vec::new();
        proof {
            assert(out.deep_view() =~= Seq::<RoleView>::empty());
            assert(self@.take(0) =~= Seq::<RoleView>::empty());
        }
        let mut i: usize = 0;
        while i < self.records.len()
            invariant
                i <= self.records.len(),
                out.deep_view() == roles_by_ids(self@.take(i as int), role_ids.deep_view()),
            decreases self.records.len() - i,
        {
            let ghost before = out.deep_view();
            if crate::token::contains_str(role_ids, &self.records[i].id) {
                out.push(self.records[i].duplicate());
                proof {
                    assert(out.deep_view() =~= before.push(self@[i as int]));
                }
            }
            proof {
                assert(self@.take(i as int).push(self@[i as int]) =~= self@.take(i + 1));
                lemma_roles_by_ids_push(self@.take(i as int), role_ids.deep_view(),
                    self@[i as int]);
                if role_ids.deep_view().contains(self@[i as int].id) {
                    assert(out.deep_view() =~= roles_by_ids(self@.take(i + 1),
                        role_ids.deep_view()));
                } else {
                    assert(before + Seq::<RoleView>::empty() =~= before);
                    assert(out.deep_view() =~= roles_by_ids(self@.take(i + 1),
                        role_ids.deep_view()));
                }
            }
            i = i + 1;
        }
        proof {
            assert(self@.take(self.records.len() as int) =~= self@);
        }
        out
    }
}

} // verus!
