//! Properties of the subsystem that span several operations, stated over the
//! same models that the operations' contracts use.
use vstd::prelude::*;
use crate::codec::claims_wf;
use crate::hash::bcrypt_matches;
use crate::model::{RoleView, UserSessionView, UserView};
use crate::repository::{find_active_session, find_user_by_id, find_user_by_login,
    roles_by_ids, upsert_session};
use crate::session::revoked_at;
use crate::token::{dedup_push, fold_perms, fold_roles, role_grants, token_claims, Keys,
    KeyCachePred};
use vstd::rwlock::RwLockPredicate;

verus! {

/// No two records share an identifier.
pub open spec fn unique_user_ids(users: Seq<UserView>) -> bool {
    forall|i: int, j: int| 0 <= i < j < users.len() ==> users[i].id != users[j].id
}

/// No two records share an identifier.
pub open spec fn unique_session_ids(sessions: Seq<UserSessionView>) -> bool {
    forall|i: int, j: int| 0 <= i < j < sessions.len() ==> sessions[i].id != sessions[j].id
}

/// A session just saved is found again by the active-session query, as long
/// as it is active: saving replaces the first record under its identifier,
/// and the records before that one carry other identifiers.
pub proof fn lemma_find_active_after_upsert(
    sessions: Seq<UserSessionView>,
    x: UserSessionView,
    now: int,
)
    requires
        x.active_at(now),
    ensures
        find_active_session(upsert_session(sessions, x), x.id, now) == Some(x),
    decreases sessions.len(),
{
    if sessions.len() == 0 {
        assert(upsert_session(sessions, x) == seq![x]);
        assert(seq![x][0] == x);
        assert(seq![x].drop_first() =~= Seq::<UserSessionView>::empty());
    } else if sessions[0].id == x.id {
        let up = seq![x] + sessions.drop_first();
        assert(upsert_session(sessions, x) == up);
        assert(up[0] == x);
    } else {
        let up = seq![sessions[0]] + upsert_session(sessions.drop_first(), x);
        assert(upsert_session(sessions, x) == up);
        assert(up[0] == sessions[0]);
        assert(up[0].id != x.id);
        lemma_find_active_after_upsert(sessions.drop_first(), x, now);
        assert(up.drop_first() =~= upsert_session(sessions.drop_first(), x));
    }
}

/// The active-session query returns nothing when no record carries the
/// identifier.
pub proof fn lemma_find_active_none_without_id(
    sessions: Seq<UserSessionView>,
    id: Seq<char>,
    now: int,
)
    requires
        forall|k: int| 0 <= k < sessions.len() ==> sessions[k].id != id,
    ensures
        find_active_session(sessions, id, now) is None,
    decreases sessions.len(),
{
    if sessions.len() > 0 {
        assert(sessions[0].id != id);
        assert forall|k: int| 0 <= k < sessions.drop_first().len() implies sessions.drop_first()
            [k].id != id by {
            assert(sessions.drop_first()[k] == sessions[k + 1]);
        }
        lemma_find_active_none_without_id(sessions.drop_first(), id, now);
    }
}

/// Whatever the active-session query returns was active at the queried
/// instant; in particular, a session whose expiry instant equals the query
/// instant is never returned.
pub proof fn lemma_found_session_is_active(
    sessions: Seq<UserSessionView>,
    id: Seq<char>,
    now: int,
)
    ensures
        find_active_session(sessions, id, now) is Some ==> {
            let s = find_active_session(sessions, id, now).unwrap();
            s.id == id && s.expired is None && s.expire_at > now
        },
    decreases sessions.len(),
{
    if sessions.len() > 0 {
        lemma_found_session_is_active(sessions.drop_first(), id, now);
    }
}

/// A second sign-out of the same session fails: the revocation that the
/// first one saved carries an expiry record, so the active-session query no
/// longer returns anything under that identifier at any instant.
pub proof fn lemma_sign_out_twice(
    sessions: Seq<UserSessionView>,
    sess: UserSessionView,
    now: int,
    later: int,
)
    requires
        unique_session_ids(sessions),
        find_active_session(sessions, sess.id, now) == Some(sess),
    ensures
        find_active_session(upsert_session(sessions, revoked_at(sess, now)), sess.id, later)
            is None,
{
    let r = revoked_at(sess, now);
    lemma_revoked_find_none(sessions, r, later);
}

/// Saving an already revoked record under an identifier that is unique in
/// the store leaves no active session under that identifier.
proof fn lemma_revoked_find_none(
    sessions: Seq<UserSessionView>,
    r: UserSessionView,
    later: int,
)
    requires
        unique_session_ids(sessions),
        r.expired is Some,
    ensures
        find_active_session(upsert_session(sessions, r), r.id, later) is None,
    decreases sessions.len(),
{
    if sessions.len() == 0 {
        assert(upsert_session(sessions, r) == seq![r]);
        assert(seq![r][0] == r);
        assert(!r.active_at(later));
        assert(seq![r].drop_first() =~= Seq::<UserSessionView>::empty());
        assert(find_active_session(seq![r], r.id, later) == find_active_session(
            seq![r].drop_first(), r.id, later));
        assert(find_active_session(Seq::<UserSessionView>::empty(), r.id, later) is None);
    } else if sessions[0].id == r.id {
        let up = seq![r] + sessions.drop_first();
        assert(upsert_session(sessions, r) == up);
        assert(up[0] == r);
        assert(!r.active_at(later));
        assert(up.drop_first() =~= sessions.drop_first());
        assert forall|k: int| 0 <= k < sessions.drop_first().len() implies sessions.drop_first()
            [k].id != r.id by {
            assert(sessions.drop_first()[k] == sessions[k + 1]);
        }
        lemma_find_active_none_without_id(sessions.drop_first(), r.id, later);
        assert(find_active_session(up, r.id, later) == find_active_session(up.drop_first(),
            r.id, later));
    } else {
        let up = seq![sessions[0]] + upsert_session(sessions.drop_first(), r);
        assert(upsert_session(sessions, r) == up);
        assert(up[0] == sessions[0]);
        assert(up[0].id != r.id);
        assert forall|i: int, j: int|
            0 <= i < j < sessions.drop_first().len() implies sessions.drop_first()[i].id
            != sessions.drop_first()[j].id by {
            assert(sessions.drop_first()[i] == sessions[i + 1]);
            assert(sessions.drop_first()[j] == sessions[j + 1]);
        }
        lemma_revoked_find_none(sessions.drop_first(), r, later);
        assert(up.drop_first() =~= upsert_session(sessions.drop_first(), r));
        assert(find_active_session(up, r.id, later) == find_active_session(up.drop_first(),
            r.id, later));
    }
}

/// The identity found by login identifier is also the one found by its own
/// identifier, as long as identifiers are unique in the store.
pub proof fn lemma_find_login_then_id(users: Seq<UserView>, login_id: Seq<char>, u: UserView)
    requires
        unique_user_ids(users),
        find_user_by_login(users, login_id) == Some(u),
    ensures
        find_user_by_id(users, u.id) == Some(u),
    decreases users.len(),
{
    if users.len() > 0 {
        if users[0].login_id == login_id {
            assert(u == users[0]);
        } else {
            assert forall|i: int, j: int|
                0 <= i < j < users.drop_first().len() implies users.drop_first()[i].id
                != users.drop_first()[j].id by {
                assert(users.drop_first()[i] == users[i + 1]);
                assert(users.drop_first()[j] == users[j + 1]);
            }
            lemma_find_login_then_id(users.drop_first(), login_id, u);
            assert(users[0].id != u.id) by {
                lemma_find_result_is_member(users.drop_first(), u.id);
                let k = choose|k: int|
                    0 <= k < users.drop_first().len() && users.drop_first()[k] == u;
                assert(users.drop_first()[k] == users[k + 1]);
            }
        }
    }
}

/// A found identity is a member of the store.
proof fn lemma_find_result_is_member(users: Seq<UserView>, id: Seq<char>)
    ensures
        find_user_by_id(users, id) is Some ==> exists|k: int|
            0 <= k < users.len() && users[k] == find_user_by_id(users, id).unwrap(),
    decreases users.len(),
{
    if users.len() > 0 {
        if users[0].id == id {
            assert(users[0] == find_user_by_id(users, id).unwrap());
        } else {
            lemma_find_result_is_member(users.drop_first(), id);
            if find_user_by_id(users, id) is Some {
                let k = choose|k: int|
                    0 <= k < users.drop_first().len() && users.drop_first()[k]
                        == find_user_by_id(users.drop_first(), id).unwrap();
                assert(users.drop_first()[k] == users[k + 1]);
                assert(users[k + 1] == find_user_by_id(users, id).unwrap());
            }
        }
    }
}

/// A login immediately followed by a refresh with the returned secret
/// succeeds: the freshly saved session is found active, its digest matches
/// the one-time secret, and its owner resolves to the identity that logged
/// in, so the refreshed token carries that identity as subject.
pub proof fn lemma_create_then_refresh(
    users: Seq<UserView>,
    sessions: Seq<UserSessionView>,
    roles: Seq<RoleView>,
    u: UserView,
    sess: UserSessionView,
    secret: Seq<char>,
    login_id: Seq<char>,
    now: int,
    exp_sec: int,
)
    requires
        unique_user_ids(users),
        find_user_by_login(users, login_id) == Some(u),
        sess.user_id == u.id,
        sess.expired is None,
        sess.expire_at > now,
        bcrypt_matches(secret, sess.session_secret),
    ensures
        find_active_session(upsert_session(sessions, sess), sess.id, now) == Some(sess),
        bcrypt_matches(secret, find_active_session(upsert_session(sessions, sess), sess.id,
            now).unwrap().session_secret),
        find_user_by_id(users, sess.user_id) == Some(u),
        token_claims(u, sess, roles_by_ids(roles, u.role_ids), now, exp_sec).sub == u.id,
{
    lemma_find_active_after_upsert(sessions, sess, now);
    lemma_find_login_then_id(users, login_id, u);
}

/// Issuing and checking a token is a round trip: the claims issued at `now`
/// name the identity, its login, the session, and the window
/// `[now, now + exp_sec)` exactly, so checking the token inside that window
/// hands these same claims back, by the token checker's own contract.
pub proof fn lemma_issued_claims(
    u: UserView,
    sess: UserSessionView,
    roles: Seq<RoleView>,
    now: int,
    exp_sec: int,
)
    ensures
        token_claims(u, sess, roles, now, exp_sec).sub == u.id,
        token_claims(u, sess, roles, now, exp_sec).login_id == u.login_id,
        token_claims(u, sess, roles, now, exp_sec).session_id == sess.id,
        token_claims(u, sess, roles, now, exp_sec).iat == now,
        token_claims(u, sess, roles, now, exp_sec).exp == now + exp_sec,
{
}

/// A permission travels in the issued claims exactly when some provided
/// role grants it; the claims carry the set deduplicated, so membership, not
/// order, is what the claims state.
pub proof fn lemma_claims_permissions(
    u: UserView,
    sess: UserSessionView,
    roles: Seq<RoleView>,
    now: int,
    exp_sec: int,
    p: Seq<char>,
)
    ensures
        token_claims(u, sess, roles, now, exp_sec).permissions.contains(p) <==> role_grants(
            roles, p),
{
    lemma_fold_roles_membership(Seq::empty(), roles, p);
    assert(!Seq::<Seq<char>>::empty().contains(p));
}

proof fn lemma_fold_perms_membership(acc: Seq<Seq<char>>, perms: Seq<Seq<char>>, p: Seq<char>)
    ensures
        fold_perms(acc, perms).contains(p) <==> acc.contains(p) || perms.contains(p),
    decreases perms.len(),
{
    if perms.len() == 0 {
        assert(!perms.contains(p));
    } else {
        let acc2 = dedup_push(acc, perms[0]);
        lemma_fold_perms_membership(acc2, perms.drop_first(), p);
        assert(acc2.contains(p) <==> acc.contains(p) || perms[0] == p) by {
            if acc.contains(p) {
                let k = choose|k: int| 0 <= k < acc.len() && acc[k] == p;
                if !acc.contains(perms[0]) {
                    assert(acc.push(perms[0])[k] == p);
                }
            }
            if perms[0] == p && !acc.contains(perms[0]) {
                assert(acc.push(perms[0])[acc.len() as int] == p);
            }
            if acc2.contains(p) && !acc.contains(p) {
                let k = choose|k: int| 0 <= k < acc2.len() && acc2[k] == p;
                if !acc.contains(perms[0]) {
                    assert(acc2 == acc.push(perms[0]));
                    assert(k == acc.len());
                }
            }
        }
        assert(perms.contains(p) <==> perms[0] == p || perms.drop_first().contains(p)) by {
            if perms.contains(p) {
                let k = choose|k: int| 0 <= k < perms.len() && perms[k] == p;
                if k > 0 {
                    assert(perms.drop_first()[k - 1] == p);
                }
            }
            if perms.drop_first().contains(p) {
                let k = choose|k: int|
                    0 <= k < perms.drop_first().len() && perms.drop_first()[k] == p;
                assert(perms[k + 1] == p);
            }
        }
    }
}

proof fn lemma_fold_roles_membership(acc: Seq<Seq<char>>, roles: Seq<RoleView>, p: Seq<char>)
    ensures
        fold_roles(acc, roles).contains(p) <==> acc.contains(p) || role_grants(roles, p),
    decreases roles.len(),
{
    if roles.len() == 0 {
        assert(!role_grants(roles, p));
    } else {
        let acc2 = fold_perms(acc, roles[0].permissions);
        lemma_fold_roles_membership(acc2, roles.drop_first(), p);
        lemma_fold_perms_membership(acc, roles[0].permissions, p);
        assert(role_grants(roles, p) <==> roles[0].permissions.contains(p) || role_grants(
            roles.drop_first(), p)) by {
            if role_grants(roles, p) {
                let i = choose|i: int|
                    0 <= i < roles.len() && roles[i].permissions.contains(p);
                if i > 0 {
                    assert(roles.drop_first()[i - 1].permissions.contains(p));
                }
            }
            if role_grants(roles.drop_first(), p) {
                let i = choose|i: int|
                    0 <= i < roles.drop_first().len() && roles.drop_first()[
                        i].permissions.contains(p);
                assert(roles[i + 1].permissions.contains(p));
            }
        }
    }
}

/// The claims issued at `now` are well formed and valid from `now` up to,
/// and excluding, `now + exp_sec`; at the expiry instant itself the validity
/// test fails, so a token checked then is refused.
pub proof fn lemma_expiry_boundary(
    u: UserView,
    sess: UserSessionView,
    roles: Seq<RoleView>,
    now: int,
    exp_sec: int,
)
    requires
        0 <= now <= 0x7fff_ffff_ffff,
        0 <= exp_sec <= 0x7fff_ffff_ffff,
    ensures
        claims_wf(token_claims(u, sess, roles, now, exp_sec)),
        ({
            let c = token_claims(u, sess, roles, now, exp_sec);
            &&& (c.iat <= c.exp - 1 && c.exp - 1 < c.exp) || exp_sec == 0
            &&& !(c.iat <= c.exp && c.exp < c.exp)
        }),
{
}

/// Two key pairs that the cache can ever hold for one configuration agree:
/// the lock's invariant ties any stored pair to the configured secret, so
/// concurrent first users cannot observe incompatible keys.
pub proof fn lemma_key_cache_agreement(p: KeyCachePred, a: Option<Keys>, b: Option<Keys>)
    requires
        p.inv(a),
        p.inv(b),
        a is Some,
        b is Some,
    ensures
        a.unwrap().secret_view() == b.unwrap().secret_view(),
{
}

} // verus!
