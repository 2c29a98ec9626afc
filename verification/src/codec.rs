//! Framing of token claims as JSON bytes.
//!
//! The token layer signs exactly the bytes produced here, and checks and
//! re-reads exactly these bytes on the way back, so the claims format is
//! stated once, as `claims_bytes`, and both directions are proved against it.
use vstd::prelude::*;
use vstd::utf8::{encode_utf8, decode_utf8, valid_utf8, encode_utf8_valid_utf8,
    encode_utf8_decode_utf8};
use crate::domain::{AuthView, UserAuth};

verus! {

/// Hexadecimal digit, lower case; meaningful for `n < 16`.
pub open spec fn hexd(n: u8) -> u8 {
    if n < 10 {
        (48 + n) as u8
    } else {
        (87 + n) as u8
    }
}

/// JSON escape of one byte of a string body.
pub open spec fn esc1(x: u8) -> Seq<u8> {
    if x == 34 {
        seq![92u8, 34u8]
    } else if x == 92 {
        seq![92u8, 92u8]
    } else if x < 32 {
        seq![92u8, 117u8, 48u8, 48u8, hexd(x / 16), hexd(x % 16)]
    } else {
        seq![x]
    }
}

/// JSON escape of a string body given as bytes.
pub open spec fn esc(b: Seq<u8>) -> Seq<u8>
    decreases b.len(),
{
    if b.len() == 0 {
        Seq::empty()
    } else {
        esc1(b[0]) + esc(b.drop_first())
    }
}

/// Canonical decimal digits of a non-negative integer.
pub open spec fn dec(n: int) -> Seq<u8>
    decreases n,
    when n >= 0
{
    if n < 10 {
        seq![(48 + n) as u8]
    } else {
        dec(n / 10) + seq![(48 + n % 10) as u8]
    }
}

pub open spec fn is_digit(x: u8) -> bool {
    48 <= x <= 57
}

/// Value of a digit sequence, most significant first.
pub open spec fn num(s: Seq<u8>) -> int
    decreases s.len(),
{
    if s.len() == 0 {
        0
    } else {
        num(s.drop_last()) * 10 + (s.last() - 48)
    }
}

/// A quoted, escaped JSON string for one permission.
pub open spec fn quoted(p: Seq<char>) -> Seq<u8> {
    seq![34u8] + esc(encode_utf8(p)) + seq![34u8]
}

/// The permission strings after the first, each preceded by a comma.
pub open spec fn perms_tail(ps: Seq<Seq<char>>) -> Seq<u8>
    decreases ps.len(),
{
    if ps.len() == 0 {
        Seq::empty()
    } else {
        seq![44u8] + quoted(ps[0]) + perms_tail(ps.drop_first())
    }
}

/// The body of the JSON array holding the permission set.
pub open spec fn perms_bytes(ps: Seq<Seq<char>>) -> Seq<u8> {
    if ps.len() == 0 {
        Seq::empty()
    } else {
        quoted(ps[0]) + perms_tail(ps.drop_first())
    }
}

pub open spec fn frag_sub() -> Seq<u8> {
    seq![123u8, 34u8, 115u8, 117u8, 98u8, 34u8, 58u8, 34u8]
}

pub open spec fn frag_login() -> Seq<u8> {
    seq![34u8, 44u8, 34u8, 108u8, 111u8, 103u8, 105u8, 110u8, 73u8, 100u8, 34u8, 58u8, 34u8]
}

pub open spec fn frag_session() -> Seq<u8> {
    seq![34u8, 44u8, 34u8, 115u8, 101u8, 115u8, 115u8, 105u8, 111u8, 110u8, 73u8, 100u8,
        34u8, 58u8, 34u8]
}

pub open spec fn frag_perms() -> Seq<u8> {
    seq![34u8, 44u8, 34u8, 112u8, 101u8, 114u8, 109u8, 105u8, 115u8, 115u8, 105u8, 111u8,
        110u8, 115u8, 34u8, 58u8, 91u8]
}

pub open spec fn frag_iat() -> Seq<u8> {
    seq![93u8, 44u8, 34u8, 105u8, 97u8, 116u8, 34u8, 58u8]
}

pub open spec fn frag_exp() -> Seq<u8> {
    seq![44u8, 34u8, 101u8, 120u8, 112u8, 34u8, 58u8]
}

/// Claims whose timestamps this framing can carry.
pub open spec fn claims_wf(c: AuthView) -> bool {
    0 <= c.iat <= 0x7fff_ffff_ffff_ffff && 0 <= c.exp <= 0x7fff_ffff_ffff_ffff
}

/// The JSON object carrying a set of claims, byte for byte.
pub open spec fn claims_bytes(c: AuthView) -> Seq<u8> {
    frag_sub() + esc(encode_utf8(c.sub)) + frag_login() + esc(encode_utf8(c.login_id))
        + frag_session() + esc(encode_utf8(c.session_id)) + frag_perms()
        + perms_bytes(c.permissions) + frag_iat() + dec(c.iat) + frag_exp() + dec(c.exp)
        + seq![125u8]
}

pub proof fn lemma_esc_append(a: Seq<u8>, b: Seq<u8>)
    ensures
        esc(a + b) == esc(a) + esc(b),
    decreases a.len(),
{
    if a.len() == 0 {
        assert(a + b =~= b);
        assert(esc(a) + esc(b) =~= esc(b));
    } else {
        assert((a + b).drop_first() =~= a.drop_first() + b);
        lemma_esc_append(a.drop_first(), b);
        assert(esc(a + b) =~= esc1(a[0]) + (esc(a.drop_first()) + esc(b)));
        assert(esc1(a[0]) + (esc(a.drop_first()) + esc(b))
            =~= (esc1(a[0]) + esc(a.drop_first())) + esc(b));
    }
}

pub proof fn lemma_esc_one(a: Seq<u8>, x: u8)
    ensures
        esc(a.push(x)) == esc(a) + esc1(x),
{
    lemma_esc_append(a, seq![x]);
    assert(a.push(x) =~= a + seq![x]);
    assert(seq![x].drop_first() =~= Seq::<u8>::empty());
    assert(esc(seq![x]) == esc1(seq![x][0]) + esc(seq![x].drop_first()));
    assert(seq![x][0] == x);
    assert(esc1(x) + esc(Seq::<u8>::empty()) =~= esc1(x));
}

/// Appends the escaped bytes of `s` to `out`.
fn push_escaped(out: &mut Vec<u8>, s: &str)
    ensures
        final(out)@ == old(out)@ + esc(encode_utf8(s@)),
{
    let b: &[u8] = s.as_bytes();
    let ghost orig = out@;
    let mut i: usize = 0;
    while i < b.len()
        invariant
            i <= b.len(),
            b@ == encode_utf8(s@),
            out@ == orig + esc(b@.take(i as int)),
        decreases b.len() - i,
    {
        let x = b[i];
        if x == 34 {
            out.push(92);
            out.push(34);
        } else if x == 92 {
            out.push(92);
            out.push(92);
        } else if x < 32 {
            out.push(92);
            out.push(117);
            out.push(48);
            out.push(48);
            let hi = x / 16;
            let lo = x % 16;
            out.push(if hi < 10 { 48 + hi } else { 87 + hi });
            out.push(if lo < 10 { 48 + lo } else { 87 + lo });
        } else {
            out.push(x);
        }
        proof {
            lemma_esc_one(b@.take(i as int), b@[i as int]);
            assert(b@.take(i as int).push(b@[i as int]) =~= b@.take(i + 1));
            assert(out@ =~= orig + esc(b@.take(i + 1)));
        }
        i = i + 1;
    }
    proof {
        assert(b@.take(b@.len() as int) =~= b@);
    }
}

/// Appends the canonical decimal digits of `n` to `out`.
fn push_dec(out: &mut Vec<u8>, n: i64)
    requires
        n >= 0,
    ensures
        final(out)@ == old(out)@ + dec(n as int),
    decreases n,
{
    if n < 10 {
        out.push(48 + n as u8);
        proof {
            assert(out@ =~= old(out)@ + dec(n as int));
        }
    } else {
        push_dec(out, n / 10);
        out.push(48 + (n % 10) as u8);
        proof {
            assert(out@ =~= old(out)@ + (dec(n as int / 10) + seq![(48 + n as int % 10) as u8]));
        }
    }
}

/// Appends one quoted permission string to `out`.
fn push_quoted(out: &mut Vec<u8>, p: &str)
    ensures
        final(out)@ == old(out)@ + quoted(p@),
{
    out.push(34);
    push_escaped(out, p);
    out.push(34);
    proof {
        assert(out@ =~= old(out)@ + quoted(p@));
    }
}

pub proof fn lemma_perms_tail_append(a: Seq<Seq<char>>, p: Seq<char>)
    ensures
        perms_tail(a.push(p)) == perms_tail(a) + seq![44u8] + quoted(p),
    decreases a.len(),
{
    if a.len() == 0 {
        assert(a.push(p).drop_first() =~= Seq::<Seq<char>>::empty());
        assert(a.push(p)[0] == p);
        assert(perms_tail(a.push(p)) == seq![44u8] + quoted(p) + perms_tail(
            Seq::<Seq<char>>::empty()));
        assert(perms_tail(a.push(p)) =~= perms_tail(a) + seq![44u8] + quoted(p));
    } else {
        assert(a.push(p).drop_first() =~= a.drop_first().push(p));
        assert(a.push(p)[0] == a[0]);
        lemma_perms_tail_append(a.drop_first(), p);
        assert(perms_tail(a.push(p)) == seq![44u8] + quoted(a[0]) + (perms_tail(a.drop_first())
            + seq![44u8] + quoted(p)));
        assert(perms_tail(a.push(p)) =~= perms_tail(a) + seq![44u8] + quoted(p));
    }
}

/// Appends the body of the permissions array to `out`.
fn push_perms(out: &mut Vec<u8>, ps: &Vec<String>)
    ensures
        final(out)@ == old(out)@ + perms_bytes(ps.deep_view()),
{
    let ghost orig = out@;
    let mut i: usize = 0;
    while i < ps.len()
        invariant
            i <= ps.len(),
            out@ == orig + perms_bytes(ps.deep_view().take(i as int)),
        decreases ps.len() - i,
    {
        if i > 0 {
            out.push(44);
        }
        push_quoted(out, ps[i].as_str());
        proof {
            let ghost pv = ps.deep_view();
            assert(pv.take(i as int).push(pv[i as int]) =~= pv.take(i + 1));
            if i == 0 {
                assert(pv.take(1).drop_first() =~= Seq::<Seq<char>>::empty());
                assert(perms_bytes(pv.take(1)) =~= quoted(pv[0]));
                assert(out@ =~= orig + perms_bytes(pv.take(i + 1)));
            } else {
                lemma_perms_tail_append(pv.take(i as int).drop_first(), pv[i as int]);
                assert(pv.take(i + 1).drop_first() =~= pv.take(i as int).drop_first().push(
                    pv[i as int]));
                assert(pv.take(i + 1)[0] == pv[0]);
                assert(perms_bytes(pv.take(i + 1)) =~= quoted(pv[0]) + perms_tail(pv.take(
                    i + 1).drop_first()));
                assert(out@ =~= orig + perms_bytes(pv.take(i + 1)));
            }
        }
        i = i + 1;
    }
    proof {
        assert(ps.deep_view().take(ps.len() as int) =~= ps.deep_view());
    }
}

fn push_frag_sub(out: &mut Vec<u8>)
    ensures
        final(out)@ == old(out)@ + frag_sub(),
{
    out.push(123);
    out.push(34);
    out.push(115);
    out.push(117);
    out.push(98);
    out.push(34);
    out.push(58);
    out.push(34);
    proof {
        assert(out@ =~= old(out)@ + frag_sub());
    }
}

fn push_frag_login(out: &mut Vec<u8>)
    ensures
        final(out)@ == old(out)@ + frag_login(),
{
    out.push(34);
    out.push(44);
    out.push(34);
    out.push(108);
    out.push(111);
    out.push(103);
    out.push(105);
    out.push(110);
    out.push(73);
    out.push(100);
    out.push(34);
    out.push(58);
    out.push(34);
    proof {
        assert(out@ =~= old(out)@ + frag_login());
    }
}

fn push_frag_session(out: &mut Vec<u8>)
    ensures
        final(out)@ == old(out)@ + frag_session(),
{
    out.push(34);
    out.push(44);
    out.push(34);
    out.push(115);
    out.push(101);
    out.push(115);
    out.push(115);
    out.push(105);
    out.push(111);
    out.push(110);
    out.push(73);
    out.push(100);
    out.push(34);
    out.push(58);
    out.push(34);
    proof {
        assert(out@ =~= old(out)@ + frag_session());
    }
}

fn push_frag_perms(out: &mut Vec<u8>)
    ensures
        final(out)@ == old(out)@ + frag_perms(),
{
    out.push(34);
    out.push(44);
    out.push(34);
    out.push(112);
    out.push(101);
    out.push(114);
    out.push(109);
    out.push(105);
    out.push(115);
    out.push(115);
    out.push(105);
    out.push(111);
    out.push(110);
    out.push(115);
    out.push(34);
    out.push(58);
    out.push(91);
    proof {
        assert(out@ =~= old(out)@ + frag_perms());
    }
}

fn push_frag_iat(out: &mut Vec<u8>)
    ensures
        final(out)@ == old(out)@ + frag_iat(),
{
    out.push(93);
    out.push(44);
    out.push(34);
    out.push(105);
    out.push(97);
    out.push(116);
    out.push(34);
    out.push(58);
    proof {
        assert(out@ =~= old(out)@ + frag_iat());
    }
}

fn push_frag_exp(out: &mut Vec<u8>)
    ensures
        final(out)@ == old(out)@ + frag_exp(),
{
    out.push(44);
    out.push(34);
    out.push(101);
    out.push(120);
    out.push(112);
    out.push(34);
    out.push(58);
    proof {
        assert(out@ =~= old(out)@ + frag_exp());
    }
}

/// Relies on `String::from_utf8`: it succeeds exactly on UTF-8 input and
/// keeps the bytes as they are.
#[verifier::external_body]
fn bytes_to_string(v: Vec<u8>) -> (r: Option<String>)
    ensures
        valid_utf8(v@) ==> r is Some,
        r is Some ==> encode_utf8(r.unwrap()@) == v@,
{
    String::from_utf8(v).ok()
}

/// Reads the escaped body of a JSON string up to and including the closing
/// quote, undoing `esc`.
#[verifier::rlimit(100)]
#[verifier::spinoff_prover]
fn unesc_prefix(b: &[u8], i: usize) -> (r: Option<(Vec<u8>, usize)>)
    requires
        i <= b@.len(),
    ensures
        r is Some ==> i < r.unwrap().1 <= b@.len() && b@.subrange(i as int, r.unwrap().1 as int)
            == esc(r.unwrap().0@) + seq![34u8],
        forall|u: Seq<u8>, rest: Seq<u8>|
            b@.skip(i as int) == esc(u) + seq![34u8] + rest ==> r is Some
                && r.unwrap().0@ == u && r.unwrap().1 == i + esc(u).len() + 1,
    decreases b@.len() - i,
{
    if b.len() - i < 1 {
        proof {
            assert forall|u: Seq<u8>, rest: Seq<u8>|
                b@.skip(i as int) == esc(u) + seq![34u8] + rest implies false by {
                assert(b@.skip(i as int).len() == 0);
                assert((esc(u) + seq![34u8] + rest).len() >= 1);
            }
        }
        return None;
    }
    let x = b[i];
    if x == 34 {
        proof {
            assert forall|u: Seq<u8>, rest: Seq<u8>|
                b@.skip(i as int) == esc(u) + seq![34u8] + rest implies u.len() == 0 by {
                if u.len() > 0 {
                    assert((esc(u) + seq![34u8] + rest)[0] == esc1(u[0])[0]);
                    assert(esc1(u[0])[0] != 34);
                    assert(b@.skip(i as int)[0] == 34);
                }
            }
            assert(b@.subrange(i as int, i + 1 as int) =~= esc(Seq::<u8>::empty()) + seq![34u8]);
        }
        return Some((Vec::new(), i + 1));
    }
    if x == 92 {
        if b.len() - i < 2 {
            proof {
                assert forall|u: Seq<u8>, rest: Seq<u8>|
                    b@.skip(i as int) == esc(u) + seq![34u8] + rest implies false by {
                    assert(b@.skip(i as int)[0] == 92);
                    if u.len() == 0 {
                        assert((esc(u) + seq![34u8] + rest)[0] == 34);
                    } else {
                        assert((esc(u) + seq![34u8] + rest)[0] == esc1(u[0])[0]);
                        assert(esc1(u[0]).len() >= 2);
                        assert(b@.skip(i as int).len() >= 2);
                    }
                }
            }
            return None;
        }
        let y = b[i + 1];
        if y == 34 || y == 92 {
            let r2 = unesc_prefix(b, i + 2);
            match r2 {
                Some((mut v, j)) => {
                    let ghost v0 = v@;
                    v.insert(0, y);
                    proof {
                        assert(v@ =~= seq![y] + v0);
                        assert(v@.skip(1) =~= v0);
                        assert(esc1(y) =~= seq![92u8, y]);
                        assert(b@.subrange(i as int, j as int) =~= b@.subrange(i as int, i + 2)
                            + b@.subrange(i + 2, j as int));
                        assert(b@.subrange(i as int, i + 2) =~= esc1(y));
                        assert(esc(v@) == esc1(y) + esc(v@.drop_first()));
                        assert(v@.drop_first() =~= v@.skip(1));
                        assert(b@.subrange(i as int, j as int) =~= esc(v@) + seq![34u8]);
                        assert forall|u: Seq<u8>, rest: Seq<u8>|
                            b@.skip(i as int) == esc(u) + seq![34u8] + rest implies
                            v@ == u && j == i + esc(u).len() + 1 by {
                            lemma_first_is_escape(b@, i as int, u, rest);
                            assert(u[0] == y) by {
                                if u[0] == 34 || u[0] == 92 {
                                    assert((esc(u) + seq![34u8] + rest)[1] == esc1(u[0])[1]);
                                    assert(b@.skip(i as int)[1] == y);
                                } else {
                                    assert(esc1(u[0])[1] == 117);
                                    assert((esc(u) + seq![34u8] + rest)[1] == esc1(u[0])[1]);
                                    assert(b@.skip(i as int)[1] == y);
                                }
                            }
                            assert(esc1(u[0]) =~= seq![92u8, y]);
                            assert(b@.skip(i + 2) =~= b@.skip(i as int).skip(2));
                            assert(b@.skip(i + 2) =~= esc(u.drop_first()) + seq![34u8] + rest) by {
                                assert(esc(u) + seq![34u8] + rest =~= esc1(u[0]) + (esc(
                                    u.drop_first()) + seq![34u8] + rest));
                            }
                            assert(v@.skip(1) == u.drop_first());
                            assert(v@ =~= u);
                            assert(esc(u).len() == 2 + esc(u.drop_first()).len());
                        }
                    }
                    return Some((v, j));
                },
                None => {
                    proof {
                        assert forall|u: Seq<u8>, rest: Seq<u8>|
                            b@.skip(i as int) == esc(u) + seq![34u8] + rest implies false by {
                            lemma_first_is_escape(b@, i as int, u, rest);
                            assert(u[0] == y) by {
                                assert((esc(u) + seq![34u8] + rest)[1] == esc1(u[0])[1]);
                                assert(b@.skip(i as int)[1] == y);
                            }
                            assert(b@.skip(i + 2) =~= esc(u.drop_first()) + seq![34u8] + rest) by {
                                assert(b@.skip(i + 2) =~= b@.skip(i as int).skip(2));
                                assert(esc(u) + seq![34u8] + rest =~= esc1(u[0]) + (esc(
                                    u.drop_first()) + seq![34u8] + rest));
                                assert(esc1(u[0]) =~= seq![92u8, y]);
                            }
                        }
                    }
                    return None;
                },
            }
        } else if y == 117 {
            if b.len() - i < 6 {
                proof {
                    assert forall|u: Seq<u8>, rest: Seq<u8>|
                        b@.skip(i as int) == esc(u) + seq![34u8] + rest implies false by {
                        lemma_first_is_escape(b@, i as int, u, rest);
                        assert((esc(u) + seq![34u8] + rest)[1] == esc1(u[0])[1]);
                        assert(b@.skip(i as int)[1] == 117);
                        assert(u[0] < 32);
                        assert(esc1(u[0]).len() == 6);
                        assert(b@.skip(i as int).len() >= 7);
                    }
                }
                return None;
            }
            let h1 = b[i + 4];
            let h2 = b[i + 5];
            let ok = b[i + 2] == 48 && b[i + 3] == 48 && (h1 == 48 || h1 == 49)
                && (48 <= h2 && h2 <= 57 || 97 <= h2 && h2 <= 102);
            if !ok {
                proof {
                    assert forall|u: Seq<u8>, rest: Seq<u8>|
                        b@.skip(i as int) == esc(u) + seq![34u8] + rest implies false by {
                        lemma_first_is_escape(b@, i as int, u, rest);
                        assert((esc(u) + seq![34u8] + rest)[1] == esc1(u[0])[1]);
                        assert(b@.skip(i as int)[1] == 117);
                        assert(u[0] < 32);
                        let e = esc1(u[0]);
                        assert((esc(u) + seq![34u8] + rest)[2] == e[2]);
                        assert((esc(u) + seq![34u8] + rest)[3] == e[3]);
                        assert((esc(u) + seq![34u8] + rest)[4] == e[4]);
                        assert((esc(u) + seq![34u8] + rest)[5] == e[5]);
                        assert(b@.skip(i as int)[2] == b@[i + 2]);
                        assert(b@.skip(i as int)[3] == b@[i + 3]);
                        assert(b@.skip(i as int)[4] == b@[i + 4]);
                        assert(b@.skip(i as int)[5] == b@[i + 5]);
                    }
                }
                return None;
            }
            let hv1: u8 = h1 - 48;
            let hv2: u8 = if h2 <= 57 { h2 - 48 } else { h2 - 87 };
            let val: u8 = 16 * hv1 + hv2;
            if val >= 32 {
                proof {
                    assert(hv1 == 1 && hv2 >= 16);
                    assert(false);
                }
                return None;
            }
            let r2 = unesc_prefix(b, i + 6);
            match r2 {
                Some((mut v, j)) => {
                    let ghost v0 = v@;
                    v.insert(0, val);
                    proof {
                        assert(val / 16 == hv1 && val % 16 == hv2);
                        assert(hexd(val / 16) == h1 && hexd(val % 16) == h2);
                        assert(esc1(val) =~= seq![92u8, 117u8, 48u8, 48u8, h1, h2]);
                        assert(v@ =~= seq![val] + v0);
                        assert(v@.skip(1) =~= v0);
                        assert(b@.subrange(i as int, j as int) =~= b@.subrange(i as int, i + 6)
                            + b@.subrange(i + 6, j as int));
                        assert(b@.subrange(i as int, i + 6) =~= esc1(val));
                        assert(esc(v@) == esc1(val) + esc(v@.drop_first()));
                        assert(v@.drop_first() =~= v@.skip(1));
                        assert(b@.subrange(i as int, j as int) =~= esc(v@) + seq![34u8]);
                        assert forall|u: Seq<u8>, rest: Seq<u8>|
                            b@.skip(i as int) == esc(u) + seq![34u8] + rest implies
                            v@ == u && j == i + esc(u).len() + 1 by {
                            lemma_first_is_escape(b@, i as int, u, rest);
                            assert((esc(u) + seq![34u8] + rest)[1] == esc1(u[0])[1]);
                            assert(b@.skip(i as int)[1] == 117);
                            assert(u[0] < 32);
                            let e = esc1(u[0]);
                            assert((esc(u) + seq![34u8] + rest)[4] == e[4]);
                            assert((esc(u) + seq![34u8] + rest)[5] == e[5]);
                            assert(b@.skip(i as int)[4] == h1);
                            assert(b@.skip(i as int)[5] == h2);
                            assert(hexd(u[0] / 16) == h1 && hexd(u[0] % 16) == h2);
                            assert(u[0] / 16 == hv1 && u[0] % 16 == hv2);
                            assert(u[0] == val);
                            assert(b@.skip(i + 6) =~= esc(u.drop_first()) + seq![34u8] + rest) by {
                                assert(b@.skip(i + 6) =~= b@.skip(i as int).skip(6));
                                assert(esc(u) + seq![34u8] + rest =~= esc1(u[0]) + (esc(
                                    u.drop_first()) + seq![34u8] + rest));
                                assert(esc1(u[0]) =~= seq![92u8, 117u8, 48u8, 48u8, h1, h2]);
                            }
                            assert(v@.skip(1) == u.drop_first());
                            assert(v@ =~= u);
                            assert(esc(u).len() == 6 + esc(u.drop_first()).len());
                        }
                    }
                    return Some((v, j));
                },
                None => {
                    proof {
                        assert forall|u: Seq<u8>, rest: Seq<u8>|
                            b@.skip(i as int) == esc(u) + seq![34u8] + rest implies false by {
                            lemma_first_is_escape(b@, i as int, u, rest);
                            assert((esc(u) + seq![34u8] + rest)[1] == esc1(u[0])[1]);
                            assert(b@.skip(i as int)[1] == 117);
                            assert(u[0] < 32);
                            assert(b@.skip(i + 6) =~= esc(u.drop_first()) + seq![34u8] + rest) by {
                                let e = esc1(u[0]);
                                assert((esc(u) + seq![34u8] + rest)[4] == e[4]);
                                assert((esc(u) + seq![34u8] + rest)[5] == e[5]);
                                assert(hexd(u[0] / 16) == h1 && hexd(u[0] % 16) == h2);
                                assert(b@.skip(i + 6) =~= b@.skip(i as int).skip(6));
                                assert(esc(u) + seq![34u8] + rest =~= esc1(u[0]) + (esc(
                                    u.drop_first()) + seq![34u8] + rest));
                                assert(esc1(u[0]) =~= seq![92u8, 117u8, 48u8, 48u8, h1, h2]);
                            }
                        }
                    }
                    return None;
                },
            }
        } else {
            proof {
                assert forall|u: Seq<u8>, rest: Seq<u8>|
                    b@.skip(i as int) == esc(u) + seq![34u8] + rest implies false by {
                    lemma_first_is_escape(b@, i as int, u, rest);
                    assert((esc(u) + seq![34u8] + rest)[1] == esc1(u[0])[1]);
                    assert(b@.skip(i as int)[1] == y);
                }
            }
            return None;
        }
    }
    if x < 32 {
        proof {
            assert forall|u: Seq<u8>, rest: Seq<u8>|
                b@.skip(i as int) == esc(u) + seq![34u8] + rest implies false by {
                if u.len() == 0 {
                    assert((esc(u) + seq![34u8] + rest)[0] == 34);
                } else {
                    assert((esc(u) + seq![34u8] + rest)[0] == esc1(u[0])[0]);
                    assert(b@.skip(i as int)[0] == x);
                }
            }
        }
        return None;
    }
    let r2 = unesc_prefix(b, i + 1);
    match r2 {
        Some((mut v, j)) => {
            let ghost v0 = v@;
            v.insert(0, x);
            proof {
                assert(esc1(x) =~= seq![x]);
                assert(v@ =~= seq![x] + v0);
                assert(v@.skip(1) =~= v0);
                assert(b@.subrange(i as int, j as int) =~= b@.subrange(i as int, i + 1)
                    + b@.subrange(i + 1, j as int));
                assert(b@.subrange(i as int, i + 1) =~= esc1(x));
                assert(esc(v@) == esc1(x) + esc(v@.drop_first()));
                assert(v@.drop_first() =~= v@.skip(1));
                assert(b@.subrange(i as int, j as int) =~= esc(v@) + seq![34u8]);
                assert forall|u: Seq<u8>, rest: Seq<u8>|
                    b@.skip(i as int) == esc(u) + seq![34u8] + rest implies
                    v@ == u && j == i + esc(u).len() + 1 by {
                    assert(u.len() > 0) by {
                        if u.len() == 0 {
                            assert((esc(u) + seq![34u8] + rest)[0] == 34);
                            assert(b@.skip(i as int)[0] == x);
                        }
                    }
                    assert((esc(u) + seq![34u8] + rest)[0] == esc1(u[0])[0]);
                    assert(b@.skip(i as int)[0] == x);
                    assert(u[0] == x) by {
                        if u[0] == 34 || u[0] == 92 || u[0] < 32 {
                            assert(esc1(u[0])[0] == 92);
                        }
                    }
                    assert(esc1(u[0]) =~= seq![x]);
                    assert(b@.skip(i + 1) =~= esc(u.drop_first()) + seq![34u8] + rest) by {
                        assert(b@.skip(i + 1) =~= b@.skip(i as int).skip(1));
                        assert(esc(u) + seq![34u8] + rest =~= esc1(u[0]) + (esc(u.drop_first())
                            + seq![34u8] + rest));
                    }
                    assert(v@.skip(1) == u.drop_first());
                    assert(v@ =~= u);
                    assert(esc(u).len() == 1 + esc(u.drop_first()).len());
                }
            }
            Some((v, j))
        },
        None => {
            proof {
                assert forall|u: Seq<u8>, rest: Seq<u8>|
                    b@.skip(i as int) == esc(u) + seq![34u8] + rest implies false by {
                    assert(u.len() > 0) by {
                        if u.len() == 0 {
                            assert((esc(u) + seq![34u8] + rest)[0] == 34);
                            assert(b@.skip(i as int)[0] == x);
                        }
                    }
                    assert((esc(u) + seq![34u8] + rest)[0] == esc1(u[0])[0]);
                    assert(b@.skip(i as int)[0] == x);
                    assert(u[0] == x) by {
                        if u[0] == 34 || u[0] == 92 || u[0] < 32 {
                            assert(esc1(u[0])[0] == 92);
                        }
                    }
                    assert(b@.skip(i + 1) =~= esc(u.drop_first()) + seq![34u8] + rest) by {
                        assert(b@.skip(i + 1) =~= b@.skip(i as int).skip(1));
                        assert(esc(u) + seq![34u8] + rest =~= esc1(u[0]) + (esc(u.drop_first())
                            + seq![34u8] + rest));
                        assert(esc1(u[0]) =~= seq![x]);
                    }
                }
            }
            None
        },
    }
}

/// Under a decomposition hypothesis whose bytes start with a backslash, the
/// first escaped byte is one of the three escape classes.
proof fn lemma_first_is_escape(b: Seq<u8>, i: int, u: Seq<u8>, rest: Seq<u8>)
    requires
        0 <= i <= b.len(),
        b.skip(i) == esc(u) + seq![34u8] + rest,
        b.skip(i).len() >= 1,
        b.skip(i)[0] == 92,
    ensures
        u.len() >= 1,
        u[0] == 34 || u[0] == 92 || u[0] < 32,
        esc1(u[0])[0] == 92,
        esc1(u[0]).len() >= 2,
        b.skip(i).len() >= esc1(u[0]).len() + 1,
{
    if u.len() == 0 {
        assert((esc(u) + seq![34u8] + rest)[0] == 34);
    }
    assert((esc(u) + seq![34u8] + rest)[0] == esc1(u[0])[0]);
    if !(u[0] == 34 || u[0] == 92 || u[0] < 32) {
        assert(esc1(u[0])[0] == u[0]);
    }
    assert(esc(u) == esc1(u[0]) + esc(u.drop_first()));
    assert((esc(u) + seq![34u8] + rest).len() >= esc1(u[0]).len() + 1);
}

/// Reads a JSON string body plus closing quote into a `String`.
fn parse_jstring(b: &[u8], i: usize) -> (r: Option<(String, usize)>)
    requires
        i <= b@.len(),
    ensures
        r is Some ==> i < r.unwrap().1 <= b@.len() && b@.subrange(i as int, r.unwrap().1 as int)
            == esc(encode_utf8(r.unwrap().0@)) + seq![34u8],
        forall|p: Seq<char>, rest: Seq<u8>|
            b@.skip(i as int) == esc(encode_utf8(p)) + seq![34u8] + rest ==> r is Some
                && r.unwrap().0@ == p && r.unwrap().1 == i + esc(encode_utf8(p)).len() + 1,
{
    match unesc_prefix(b, i) {
        Some((v, j)) => {
            let ghost vb = v@;
            match bytes_to_string(v) {
                Some(s) => {
                    proof {
                        broadcast use encode_utf8_decode_utf8;

                        assert(encode_utf8(s@) == vb);
                        assert forall|p: Seq<char>, rest: Seq<u8>|
                            b@.skip(i as int) == esc(encode_utf8(p)) + seq![34u8] + rest implies
                            s@ == p && j == i + esc(encode_utf8(p)).len() + 1 by {
                            assert(vb == encode_utf8(p));
                            assert(decode_utf8(encode_utf8(s@)) == s@);
                            assert(decode_utf8(encode_utf8(p)) == p);
                        }
                    }
                    Some((s, j))
                },
                None => {
                    proof {
                        broadcast use encode_utf8_valid_utf8;

                        assert forall|p: Seq<char>, rest: Seq<u8>|
                            b@.skip(i as int) == esc(encode_utf8(p)) + seq![34u8] + rest implies
                            false by {
                            assert(vb == encode_utf8(p));
                            assert(valid_utf8(vb));
                        }
                    }
                    None
                },
            }
        },
        None => {
            proof {
                assert forall|p: Seq<char>, rest: Seq<u8>|
                    b@.skip(i as int) == esc(encode_utf8(p)) + seq![34u8] + rest implies false by {
                    assert(b@.skip(i as int) == esc(encode_utf8(p)) + seq![34u8] + rest);
                }
            }
            None
        },
    }
}

pub proof fn lemma_dec_props(n: int)
    requires
        n >= 0,
    ensures
        dec(n).len() >= 1,
        forall|k: int| 0 <= k < dec(n).len() ==> is_digit(#[trigger] dec(n)[k]),
        num(dec(n)) == n,
        dec(n).len() == 1 <==> n < 10,
        n >= 1 ==> dec(n)[0] != 48,
        n == 0 ==> dec(n) == seq![48u8],
    decreases n,
{
    if n < 10 {
        assert(dec(n) == seq![(48 + n) as u8]);
        assert(num(dec(n)) == num(dec(n).drop_last()) * 10 + (dec(n).last() - 48));
        assert(dec(n).drop_last() =~= Seq::<u8>::empty());
        if n == 0 {
            assert(dec(n) =~= seq![48u8]);
        }
    } else {
        lemma_dec_props(n / 10);
        let s = dec(n);
        assert(s == dec(n / 10) + seq![(48 + n % 10) as u8]);
        assert(s.drop_last() =~= dec(n / 10));
        assert(s.last() == (48 + n % 10) as u8);
        assert(num(s) == num(dec(n / 10)) * 10 + n % 10);
        assert(num(s) == n);
        assert(s[0] == dec(n / 10)[0]);
        assert forall|k: int| 0 <= k < s.len() implies is_digit(#[trigger] s[k]) by {
            if k < dec(n / 10).len() {
                assert(s[k] == dec(n / 10)[k]);
            }
        }
    }
}

pub proof fn lemma_num_nonneg(s: Seq<u8>)
    requires
        forall|k: int| 0 <= k < s.len() ==> is_digit(#[trigger] s[k]),
    ensures
        num(s) >= 0,
    decreases s.len(),
{
    if s.len() > 0 {
        assert forall|k: int| 0 <= k < s.drop_last().len() implies is_digit(
            #[trigger] s.drop_last()[k]) by {
            assert(s.drop_last()[k] == s[k]);
        }
        lemma_num_nonneg(s.drop_last());
        assert(is_digit(s.last()));
    }
}

pub proof fn lemma_num_pos(s: Seq<u8>)
    requires
        s.len() >= 1,
        forall|k: int| 0 <= k < s.len() ==> is_digit(#[trigger] s[k]),
        s[0] != 48,
    ensures
        num(s) >= 1,
        s.len() > 1 ==> num(s) >= 10,
    decreases s.len(),
{
    assert(is_digit(s[0]));
    if s.len() == 1 {
        assert(num(s) == num(s.drop_last()) * 10 + (s.last() - 48));
        assert(s.drop_last() =~= Seq::<u8>::empty());
        assert(s.last() == s[0]);
    } else {
        assert forall|k: int| 0 <= k < s.drop_last().len() implies is_digit(
            #[trigger] s.drop_last()[k]) by {
            assert(s.drop_last()[k] == s[k]);
        }
        assert(s.drop_last()[0] == s[0]);
        lemma_num_pos(s.drop_last());
        assert(is_digit(s.last()));
        assert(num(s) == num(s.drop_last()) * 10 + (s.last() - 48));
    }
}

pub proof fn lemma_dec_canon(s: Seq<u8>)
    requires
        s.len() >= 1,
        forall|k: int| 0 <= k < s.len() ==> is_digit(#[trigger] s[k]),
        s[0] != 48 || s.len() == 1,
    ensures
        num(s) >= 0,
        dec(num(s)) == s,
    decreases s.len(),
{
    lemma_num_nonneg(s);
    if s.len() == 1 {
        assert(num(s) == num(s.drop_last()) * 10 + (s.last() - 48));
        assert(s.drop_last() =~= Seq::<u8>::empty());
        assert(is_digit(s[0]));
        assert(s.last() == s[0]);
        assert(num(s) == s[0] - 48 < 10);
        assert(dec(num(s)) == seq![(48 + num(s)) as u8]);
        assert(dec(num(s)) =~= s);
    } else {
        let s2 = s.drop_last();
        assert forall|k: int| 0 <= k < s2.len() implies is_digit(#[trigger] s2[k]) by {
            assert(s2[k] == s[k]);
        }
        assert(s2[0] == s[0]);
        lemma_dec_canon(s2);
        lemma_num_pos(s2);
        assert(is_digit(s.last()));
        assert(num(s) == num(s2) * 10 + (s.last() - 48));
        assert(num(s) >= 10);
        assert(num(s) / 10 == num(s2) && num(s) % 10 == s.last() - 48);
        assert(dec(num(s)) == dec(num(s2)) + seq![(48 + num(s) % 10) as u8]);
        assert(dec(num(s)) =~= s);
    }
}

pub proof fn lemma_num_prefix_le(s: Seq<u8>, k: int)
    requires
        forall|m: int| 0 <= m < s.len() ==> is_digit(#[trigger] s[m]),
        0 <= k <= s.len(),
    ensures
        num(s.take(k)) <= num(s),
    decreases s.len(),
{
    if k == s.len() {
        assert(s.take(k) =~= s);
    } else {
        let s2 = s.drop_last();
        assert forall|m: int| 0 <= m < s2.len() implies is_digit(#[trigger] s2[m]) by {
            assert(s2[m] == s[m]);
        }
        assert(s.take(k) =~= s2.take(k));
        lemma_num_prefix_le(s2, k);
        lemma_num_nonneg(s2);
        assert(is_digit(s.last()));
        assert(num(s) == num(s2) * 10 + (s.last() - 48));
        assert(num(s2) * 10 >= num(s2));
    }
}

/// Reads a canonical decimal number fitting an `i64`.
#[verifier::rlimit(100)]
fn parse_dec(b: &[u8], i: usize) -> (r: Option<(i64, usize)>)
    requires
        i <= b@.len(),
    ensures
        r is Some ==> i < r.unwrap().1 <= b@.len() && r.unwrap().0 >= 0
            && b@.subrange(i as int, r.unwrap().1 as int) == dec(r.unwrap().0 as int)
            && (r.unwrap().1 == b@.len() || !is_digit(b@[r.unwrap().1 as int])),
        forall|n: int, rest: Seq<u8>|
            (0 <= n <= 0x7fff_ffff_ffff_ffff && b@.skip(i as int) == dec(n) + rest && (rest.len()
                == 0 || !is_digit(rest[0]))) ==> r is Some && r.unwrap().0 == n
                && r.unwrap().1 == i + dec(n).len(),
{
    if b.len() - i < 1 {
        proof {
            assert forall|n: int, rest: Seq<u8>|
                (0 <= n <= 0x7fff_ffff_ffff_ffff && b@.skip(i as int) == dec(n) + rest
                    && (rest.len() == 0 || !is_digit(rest[0]))) implies false by {
                lemma_dec_props(n);
                assert(b@.skip(i as int).len() == 0);
                assert((dec(n) + rest).len() >= 1);
            }
        }
        return None;
    }
    let d0 = b[i];
    if !(48 <= d0 && d0 <= 57) {
        proof {
            assert forall|n: int, rest: Seq<u8>|
                (0 <= n <= 0x7fff_ffff_ffff_ffff && b@.skip(i as int) == dec(n) + rest
                    && (rest.len() == 0 || !is_digit(rest[0]))) implies false by {
                lemma_dec_props(n);
                assert(b@.skip(i as int)[0] == dec(n)[0]);
            }
        }
        return None;
    }
    if d0 == 48 {
        if b.len() - i >= 2 && 48 <= b[i + 1] && b[i + 1] <= 57 {
            proof {
                assert forall|n: int, rest: Seq<u8>|
                    (0 <= n <= 0x7fff_ffff_ffff_ffff && b@.skip(i as int) == dec(n) + rest
                        && (rest.len() == 0 || !is_digit(rest[0]))) implies false by {
                    lemma_dec_props(n);
                    assert(b@.skip(i as int)[0] == dec(n)[0]);
                    assert(n == 0);
                    assert(dec(n) == seq![48u8]);
                    assert(b@.skip(i as int)[1] == rest[0]);
                    assert(is_digit(b@[i + 1]));
                }
            }
            return None;
        }
        proof {
            assert(b@.subrange(i as int, i + 1) =~= seq![48u8]);
            assert(dec(0) == seq![48u8]);
            assert forall|n: int, rest: Seq<u8>|
                (0 <= n <= 0x7fff_ffff_ffff_ffff && b@.skip(i as int) == dec(n) + rest
                    && (rest.len() == 0 || !is_digit(rest[0]))) implies n == 0
                && i + 1 == i + dec(n).len() by {
                lemma_dec_props(n);
                assert(b@.skip(i as int)[0] == dec(n)[0]);
                assert(n == 0);
            }
        }
        return Some((0, i + 1));
    }
    let mut val: i64 = (d0 - 48) as i64;
    let mut j: usize = i + 1;
    proof {
        assert(b@.subrange(i as int, i + 1) =~= seq![d0]);
        assert(num(seq![d0]) == num(seq![d0].drop_last()) * 10 + (seq![d0].last() - 48));
        assert(seq![d0].drop_last() =~= Seq::<u8>::empty());
    }
    loop
        invariant
            i < j <= b@.len(),
            48 <= d0 <= 57,
            d0 != 48,
            b@[i as int] == d0,
            forall|k: int| i <= k < j ==> is_digit(#[trigger] b@[k]),
            val == num(b@.subrange(i as int, j as int)),
            0 <= val <= 0x7fff_ffff_ffff_ffff,
        decreases b@.len() - j,
    {
        let ghost run = b@.subrange(i as int, j as int);
        proof {
            assert forall|k: int| 0 <= k < run.len() implies is_digit(#[trigger] run[k]) by {
                assert(run[k] == b@[i + k]);
            }
            assert(run[0] == d0);
        }
        if j == b.len() || !(48 <= b[j] && b[j] <= 57) {
            proof {
                lemma_dec_canon(run);
                assert forall|n: int, rest: Seq<u8>|
                    (0 <= n <= 0x7fff_ffff_ffff_ffff && b@.skip(i as int) == dec(n) + rest
                        && (rest.len() == 0 || !is_digit(rest[0]))) implies val == n
                    && j == i + dec(n).len() by {
                    lemma_dec_props(n);
                    lemma_run_is_dec(b@, i as int, j as int, n, rest);
                    assert(run == dec(n));
                }
            }
            return Some((val, j));
        }
        let d = b[j];
        let dd: i64 = (d - 48) as i64;
        if val > (0x7fff_ffff_ffff_ffffi64 - dd) / 10 {
            proof {
                assert forall|n: int, rest: Seq<u8>|
                    (0 <= n <= 0x7fff_ffff_ffff_ffff && b@.skip(i as int) == dec(n) + rest
                        && (rest.len() == 0 || !is_digit(rest[0]))) implies false by {
                    lemma_dec_props(n);
                    lemma_run_prefix_of_dec(b@, i as int, j as int, n, rest);
                    assert(run == dec(n).take(j - i));
                    lemma_num_prefix_le(dec(n), j - i);
                    assert(val <= n);
                    assert(forall|k: int| i <= k < j + 1 ==> is_digit(#[trigger] b@[k]));
                    lemma_run_prefix_of_dec(b@, i as int, j + 1, n, rest);
                    let run2 = b@.subrange(i as int, j + 1);
                    assert(run2 =~= dec(n).take(j + 1 - i));
                    assert(run2.drop_last() =~= run);
                    assert(run2.last() == b@[j as int]);
                    assert(num(run2) == val * 10 + dd);
                    lemma_num_prefix_le(dec(n), j + 1 - i);
                    assert(val * 10 + dd <= n);
                    assert(val * 10 + dd > 0x7fff_ffff_ffff_ffff) by {
                        let cap = 0x7fff_ffff_ffff_ffff - dd;
                        assert(val >= cap / 10 + 1);
                        assert(cap / 10 * 10 + cap % 10 == cap);
                        assert(val * 10 >= (cap / 10 + 1) * 10);
                    }
                }
            }
            return None;
        }
        proof {
            let cap = 0x7fff_ffff_ffff_ffff - dd;
            assert(val <= cap / 10);
            assert(cap / 10 * 10 + cap % 10 == cap);
            assert(val * 10 <= cap / 10 * 10) by {
                assert(val <= cap / 10);
            }
            assert(val * 10 + dd <= 0x7fff_ffff_ffff_ffff);
            let run2 = b@.subrange(i as int, j + 1);
            assert(run2.drop_last() =~= run);
            assert(run2.last() == b@[j as int]);
            assert(num(run2) == num(run) * 10 + (d - 48));
            lemma_num_nonneg(run);
        }
        val = val * 10 + dd;
        j = j + 1;
    }
}

/// When the input at `i` carries `dec(n)` and the scan has taken `j - i`
/// digits without stopping, the scan is still inside `dec(n)`.
proof fn lemma_run_prefix_of_dec(b: Seq<u8>, i: int, j: int, n: int, rest: Seq<u8>)
    requires
        0 <= i < j <= b.len(),
        n >= 0,
        b.skip(i) == dec(n) + rest,
        rest.len() == 0 || !is_digit(rest[0]),
        forall|k: int| i <= k < j ==> is_digit(#[trigger] b[k]),
    ensures
        j - i <= dec(n).len(),
        b.subrange(i, j) == dec(n).take(j - i),
        forall|k: int| 0 <= k < j - i ==> dec(n)[k] == b[i + k],
{
    lemma_dec_props(n);
    if j - i > dec(n).len() {
        let m = i + dec(n).len();
        assert(is_digit(b[m]));
        assert(b.skip(i)[dec(n).len() as int] == rest[0]);
        assert(b.skip(i)[dec(n).len() as int] == b[m]);
        assert(rest.len() > 0);
    }
    assert forall|k: int| 0 <= k < j - i implies dec(n)[k] == b[i + k] by {
        assert(b.skip(i)[k] == b[i + k]);
        assert((dec(n) + rest)[k] == dec(n)[k]);
    }
    assert(b.subrange(i, j) =~= dec(n).take(j - i));
}

/// When the scan has stopped at `j` (end of input or a byte that is not a
/// digit), the digits taken are exactly `dec(n)`.
proof fn lemma_run_is_dec(b: Seq<u8>, i: int, j: int, n: int, rest: Seq<u8>)
    requires
        0 <= i < j <= b.len(),
        n >= 0,
        b.skip(i) == dec(n) + rest,
        rest.len() == 0 || !is_digit(rest[0]),
        forall|k: int| i <= k < j ==> is_digit(#[trigger] b[k]),
        j == b.len() || !is_digit(b[j]),
    ensures
        j - i == dec(n).len(),
        b.subrange(i, j) == dec(n),
{
    lemma_dec_props(n);
    lemma_run_prefix_of_dec(b, i, j, n, rest);
    if j - i < dec(n).len() {
        assert(b.skip(i)[j - i] == dec(n)[j - i]);
        assert(b.skip(i)[j - i] == b[j]);
        assert(is_digit(dec(n)[j - i]));
        assert(j < b.len()) by {
            assert(b.skip(i).len() >= dec(n).len());
        }
    }
    assert(b.subrange(i, j) =~= dec(n));
}

/// Relates the deep view of a vector after a front insertion to the views of
/// its parts.
proof fn lemma_deep_view_insert0(v: Vec<String>, v0: Seq<String>, s: String)
    requires
        v@ == v0.insert(0, s),
    ensures
        v.deep_view() == seq![s@] + Seq::new(v0.len(), |k: int| v0[k]@),
{
    let dv0 = Seq::new(v0.len(), |k: int| v0[k]@);
    assert forall|k: int| 0 <= k < v.deep_view().len() implies v.deep_view()[k] == (seq![s@]
        + dv0)[k] by {
        if k == 0 {
            assert(v@[0] == s);
        } else {
            assert(v@[k] == v0[k - 1]);
        }
    }
    assert(v.deep_view() =~= seq![s@] + dv0);
}

/// Ties a vector's deep view to the elementwise view sequence used above.
proof fn lemma_deep_view_eq(v: Vec<String>)
    ensures
        v.deep_view() == Seq::new(v@.len(), |k: int| v@[k]@),
{
    assert(v.deep_view() =~= Seq::new(v@.len(), |k: int| v@[k]@));
}

/// Reads the remainder of the permissions array: comma-led strings up to,
/// but not including, the closing bracket.
#[verifier::rlimit(100)]
fn parse_perms_more(b: &[u8], i: usize) -> (r: Option<(Vec<String>, usize)>)
    requires
        i <= b@.len(),
    ensures
        r is Some ==> i <= r.unwrap().1 < b@.len() && b@.subrange(i as int, r.unwrap().1 as int)
            == perms_tail(r.unwrap().0.deep_view()) && b@[r.unwrap().1 as int] == 93,
        forall|ps: Seq<Seq<char>>, rest: Seq<u8>|
            b@.skip(i as int) == perms_tail(ps) + seq![93u8] + rest ==> r is Some
                && r.unwrap().0.deep_view() == ps && r.unwrap().1 == i + perms_tail(ps).len(),
    decreases b@.len() - i,
{
    if b.len() - i < 1 {
        proof {
            assert forall|ps: Seq<Seq<char>>, rest: Seq<u8>|
                b@.skip(i as int) == perms_tail(ps) + seq![93u8] + rest implies false by {
                assert((perms_tail(ps) + seq![93u8] + rest).len() >= 1);
            }
        }
        return None;
    }
    let x = b[i];
    if x == 93 {
        let v: Vec<String> = Vec::new();
        proof {
            assert(v.deep_view() =~= Seq::<Seq<char>>::empty());
            assert(b@.subrange(i as int, i as int) =~= perms_tail(v.deep_view()));
            assert forall|ps: Seq<Seq<char>>, rest: Seq<u8>|
                b@.skip(i as int) == perms_tail(ps) + seq![93u8] + rest implies
                v.deep_view() == ps && i == i + perms_tail(ps).len() by {
                if ps.len() > 0 {
                    assert((perms_tail(ps) + seq![93u8] + rest)[0] == 44);
                    assert(b@.skip(i as int)[0] == 93);
                }
                assert(ps =~= Seq::<Seq<char>>::empty());
            }
        }
        return Some((v, i));
    }
    if x != 44 {
        proof {
            assert forall|ps: Seq<Seq<char>>, rest: Seq<u8>|
                b@.skip(i as int) == perms_tail(ps) + seq![93u8] + rest implies false by {
                if ps.len() == 0 {
                    assert((perms_tail(ps) + seq![93u8] + rest)[0] == 93);
                } else {
                    assert((perms_tail(ps) + seq![93u8] + rest)[0] == 44);
                }
                assert(b@.skip(i as int)[0] == x);
            }
        }
        return None;
    }
    if b.len() - i < 2 || b[i + 1] != 34 {
        proof {
            assert forall|ps: Seq<Seq<char>>, rest: Seq<u8>|
                b@.skip(i as int) == perms_tail(ps) + seq![93u8] + rest implies false by {
                assert(ps.len() > 0) by {
                    if ps.len() == 0 {
                        assert((perms_tail(ps) + seq![93u8] + rest)[0] == 93);
                        assert(b@.skip(i as int)[0] == 44);
                    }
                }
                assert(perms_tail(ps) == seq![44u8] + quoted(ps[0]) + perms_tail(
                    ps.drop_first()));
                assert((perms_tail(ps) + seq![93u8] + rest)[1] == quoted(ps[0])[0]);
                assert(quoted(ps[0])[0] == 34);
                assert(b@.skip(i as int).len() >= 2);
            }
        }
        return None;
    }
    match parse_jstring(b, i + 2) {
        Some((s, j2)) => {
            match parse_perms_more(b, j2) {
                Some((mut v, j3)) => {
                    let ghost v0 = v@;
                    let ghost dv0 = v.deep_view();
                    v.insert(0, s);
                    proof {
                        lemma_deep_view_eq(v);
                        assert(Seq::new(v0.len(), |k: int| v0[k]@) == dv0) by {
                            assert(Seq::new(v0.len(), |k: int| v0[k]@) =~= dv0);
                        }
                        lemma_deep_view_insert0(v, v0, s);
                        assert(v.deep_view() == seq![s@] + dv0);
                        assert(v.deep_view()[0] == s@);
                        assert(v.deep_view().drop_first() =~= dv0);
                        assert(b@.subrange(i as int, j3 as int) =~= b@.subrange(i as int, i + 2)
                            + b@.subrange(i + 2, j2 as int) + b@.subrange(j2 as int, j3 as int));
                        assert(b@.subrange(i as int, i + 2) =~= seq![44u8, 34u8]);
                        assert(perms_tail(v.deep_view()) == seq![44u8] + quoted(s@) + perms_tail(
                            dv0));
                        assert(quoted(s@) == seq![34u8] + esc(encode_utf8(s@)) + seq![34u8]);
                        assert(b@.subrange(i as int, j3 as int) =~= perms_tail(v.deep_view()));
                        assert forall|ps: Seq<Seq<char>>, rest: Seq<u8>|
                            b@.skip(i as int) == perms_tail(ps) + seq![93u8] + rest implies
                            v.deep_view() == ps && j3 == i + perms_tail(ps).len() by {
                            assert(ps.len() > 0) by {
                                if ps.len() == 0 {
                                    assert((perms_tail(ps) + seq![93u8] + rest)[0] == 93);
                                    assert(b@.skip(i as int)[0] == 44);
                                }
                            }
                            let p0 = ps[0];
                            let e = esc(encode_utf8(p0));
                            let tail2 = perms_tail(ps.drop_first()) + seq![93u8] + rest;
                            assert(perms_tail(ps) == seq![44u8] + quoted(p0) + perms_tail(
                                ps.drop_first()));
                            assert(b@.skip(i as int) =~= seq![44u8, 34u8] + (e + seq![34u8]
                                + tail2));
                            assert(b@.skip(i + 2) =~= b@.skip(i as int).skip(2));
                            assert(b@.skip(i + 2) =~= e + seq![34u8] + tail2);
                            assert(s@ == p0 && j2 == i + 2 + e.len() + 1);
                            assert(b@.skip(j2 as int) =~= b@.skip(i as int).skip(j2 - i));
                            assert(b@.skip(j2 as int) =~= tail2);
                            assert(v.deep_view() =~= ps);
                            assert(perms_tail(ps).len() == 1 + quoted(p0).len() + perms_tail(
                                ps.drop_first()).len());
                        }
                    }
                    Some((v, j3))
                },
                None => {
                    proof {
                        assert forall|ps: Seq<Seq<char>>, rest: Seq<u8>|
                            b@.skip(i as int) == perms_tail(ps) + seq![93u8] + rest implies
                            false by {
                            assert(ps.len() > 0) by {
                                if ps.len() == 0 {
                                    assert((perms_tail(ps) + seq![93u8] + rest)[0] == 93);
                                    assert(b@.skip(i as int)[0] == 44);
                                }
                            }
                            let p0 = ps[0];
                            let e = esc(encode_utf8(p0));
                            let tail2 = perms_tail(ps.drop_first()) + seq![93u8] + rest;
                            assert(perms_tail(ps) == seq![44u8] + quoted(p0) + perms_tail(
                                ps.drop_first()));
                            assert(b@.skip(i as int) =~= seq![44u8, 34u8] + (e + seq![34u8]
                                + tail2));
                            assert(b@.skip(i + 2) =~= b@.skip(i as int).skip(2));
                            assert(b@.skip(i + 2) =~= e + seq![34u8] + tail2);
                            assert(s@ == p0 && j2 == i + 2 + e.len() + 1);
                            assert(b@.skip(j2 as int) =~= b@.skip(i as int).skip(j2 - i));
                            assert(b@.skip(j2 as int) =~= tail2);
                        }
                    }
                    None
                },
            }
        },
        None => {
            proof {
                assert forall|ps: Seq<Seq<char>>, rest: Seq<u8>|
                    b@.skip(i as int) == perms_tail(ps) + seq![93u8] + rest implies false by {
                    assert(ps.len() > 0) by {
                        if ps.len() == 0 {
                            assert((perms_tail(ps) + seq![93u8] + rest)[0] == 93);
                            assert(b@.skip(i as int)[0] == 44);
                        }
                    }
                    let p0 = ps[0];
                    let e = esc(encode_utf8(p0));
                    let tail2 = perms_tail(ps.drop_first()) + seq![93u8] + rest;
                    assert(perms_tail(ps) == seq![44u8] + quoted(p0) + perms_tail(
                        ps.drop_first()));
                    assert(b@.skip(i as int) =~= seq![44u8, 34u8] + (e + seq![34u8] + tail2));
                    assert(b@.skip(i + 2) =~= b@.skip(i as int).skip(2));
                    assert(b@.skip(i + 2) =~= e + seq![34u8] + tail2);
                }
            }
            None
        },
    }
}

/// Reads the body of the permissions array, leaving the closing bracket.
#[verifier::rlimit(100)]
fn parse_perms(b: &[u8], i: usize) -> (r: Option<(Vec<String>, usize)>)
    requires
        i <= b@.len(),
    ensures
        r is Some ==> i <= r.unwrap().1 < b@.len() && b@.subrange(i as int, r.unwrap().1 as int)
            == perms_bytes(r.unwrap().0.deep_view()) && b@[r.unwrap().1 as int] == 93,
        forall|ps: Seq<Seq<char>>, rest: Seq<u8>|
            b@.skip(i as int) == perms_bytes(ps) + seq![93u8] + rest ==> r is Some
                && r.unwrap().0.deep_view() == ps && r.unwrap().1 == i + perms_bytes(ps).len(),
{
    if b.len() - i < 1 {
        proof {
            assert forall|ps: Seq<Seq<char>>, rest: Seq<u8>|
                b@.skip(i as int) == perms_bytes(ps) + seq![93u8] + rest implies false by {
                assert((perms_bytes(ps) + seq![93u8] + rest).len() >= 1);
            }
        }
        return None;
    }
    let x = b[i];
    if x == 93 {
        let v: Vec<String> = Vec::new();
        proof {
            assert(v.deep_view() =~= Seq::<Seq<char>>::empty());
            assert(b@.subrange(i as int, i as int) =~= perms_bytes(v.deep_view()));
            assert forall|ps: Seq<Seq<char>>, rest: Seq<u8>|
                b@.skip(i as int) == perms_bytes(ps) + seq![93u8] + rest implies
                v.deep_view() == ps && i == i + perms_bytes(ps).len() by {
                if ps.len() > 0 {
                    assert((perms_bytes(ps) + seq![93u8] + rest)[0] == quoted(ps[0])[0]);
                    assert(quoted(ps[0])[0] == 34);
                    assert(b@.skip(i as int)[0] == 93);
                }
                assert(ps =~= Seq::<Seq<char>>::empty());
            }
        }
        return Some((v, i));
    }
    if x != 34 {
        proof {
            assert forall|ps: Seq<Seq<char>>, rest: Seq<u8>|
                b@.skip(i as int) == perms_bytes(ps) + seq![93u8] + rest implies false by {
                if ps.len() == 0 {
                    assert((perms_bytes(ps) + seq![93u8] + rest)[0] == 93);
                } else {
                    assert((perms_bytes(ps) + seq![93u8] + rest)[0] == quoted(ps[0])[0]);
                    assert(quoted(ps[0])[0] == 34);
                }
                assert(b@.skip(i as int)[0] == x);
            }
        }
        return None;
    }
    match parse_jstring(b, i + 1) {
        Some((s, j2)) => {
            match parse_perms_more(b, j2) {
                Some((mut v, j3)) => {
                    let ghost v0 = v@;
                    let ghost dv0 = v.deep_view();
                    v.insert(0, s);
                    proof {
                        lemma_deep_view_eq(v);
                        assert(Seq::new(v0.len(), |k: int| v0[k]@) == dv0) by {
                            assert(Seq::new(v0.len(), |k: int| v0[k]@) =~= dv0);
                        }
                        lemma_deep_view_insert0(v, v0, s);
                        assert(v.deep_view() == seq![s@] + dv0);
                        assert(v.deep_view()[0] == s@);
                        assert(v.deep_view().drop_first() =~= dv0);
                        assert(b@.subrange(i as int, j3 as int) =~= b@.subrange(i as int, i + 1)
                            + b@.subrange(i + 1, j2 as int) + b@.subrange(j2 as int, j3 as int));
                        assert(b@.subrange(i as int, i + 1) =~= seq![34u8]);
                        assert(perms_bytes(v.deep_view()) == quoted(s@) + perms_tail(dv0));
                        assert(quoted(s@) == seq![34u8] + esc(encode_utf8(s@)) + seq![34u8]);
                        assert(b@.subrange(i as int, j3 as int) =~= perms_bytes(v.deep_view()));
                        assert forall|ps: Seq<Seq<char>>, rest: Seq<u8>|
                            b@.skip(i as int) == perms_bytes(ps) + seq![93u8] + rest implies
                            v.deep_view() == ps && j3 == i + perms_bytes(ps).len() by {
                            assert(ps.len() > 0) by {
                                if ps.len() == 0 {
                                    assert((perms_bytes(ps) + seq![93u8] + rest)[0] == 93);
                                    assert(b@.skip(i as int)[0] == 34);
                                }
                            }
                            let p0 = ps[0];
                            let e = esc(encode_utf8(p0));
                            let tail2 = perms_tail(ps.drop_first()) + seq![93u8] + rest;
                            assert(perms_bytes(ps) == quoted(p0) + perms_tail(ps.drop_first()));
                            assert(b@.skip(i as int) =~= seq![34u8] + (e + seq![34u8] + tail2));
                            assert(b@.skip(i + 1) =~= b@.skip(i as int).skip(1));
                            assert(b@.skip(i + 1) =~= e + seq![34u8] + tail2);
                            assert(s@ == p0 && j2 == i + 1 + e.len() + 1);
                            assert(b@.skip(j2 as int) =~= b@.skip(i as int).skip(j2 - i));
                            assert(b@.skip(j2 as int) =~= tail2);
                            assert(v.deep_view() =~= ps);
                            assert(perms_bytes(ps).len() == quoted(p0).len() + perms_tail(
                                ps.drop_first()).len());
                        }
                    }
                    Some((v, j3))
                },
                None => {
                    proof {
                        assert forall|ps: Seq<Seq<char>>, rest: Seq<u8>|
                            b@.skip(i as int) == perms_bytes(ps) + seq![93u8] + rest implies
                            false by {
                            assert(ps.len() > 0) by {
                                if ps.len() == 0 {
                                    assert((perms_bytes(ps) + seq![93u8] + rest)[0] == 93);
                                    assert(b@.skip(i as int)[0] == 34);
                                }
                            }
                            let p0 = ps[0];
                            let e = esc(encode_utf8(p0));
                            let tail2 = perms_tail(ps.drop_first()) + seq![93u8] + rest;
                            assert(perms_bytes(ps) == quoted(p0) + perms_tail(ps.drop_first()));
                            assert(b@.skip(i as int) =~= seq![34u8] + (e + seq![34u8] + tail2));
                            assert(b@.skip(i + 1) =~= b@.skip(i as int).skip(1));
                            assert(b@.skip(i + 1) =~= e + seq![34u8] + tail2);
                            assert(s@ == p0 && j2 == i + 1 + e.len() + 1);
                            assert(b@.skip(j2 as int) =~= b@.skip(i as int).skip(j2 - i));
                            assert(b@.skip(j2 as int) =~= tail2);
                        }
                    }
                    None
                },
            }
        },
        None => {
            proof {
                assert forall|ps: Seq<Seq<char>>, rest: Seq<u8>|
                    b@.skip(i as int) == perms_bytes(ps) + seq![93u8] + rest implies false by {
                    assert(ps.len() > 0) by {
                        if ps.len() == 0 {
                            assert((perms_bytes(ps) + seq![93u8] + rest)[0] == 93);
                            assert(b@.skip(i as int)[0] == 34);
                        }
                    }
                    let p0 = ps[0];
                    let e = esc(encode_utf8(p0));
                    let tail2 = perms_tail(ps.drop_first()) + seq![93u8] + rest;
                    assert(perms_bytes(ps) == quoted(p0) + perms_tail(ps.drop_first()));
                    assert(b@.skip(i as int) =~= seq![34u8] + (e + seq![34u8] + tail2));
                    assert(b@.skip(i + 1) =~= b@.skip(i as int).skip(1));
                    assert(b@.skip(i + 1) =~= e + seq![34u8] + tail2);
                }
            }
            None
        },
    }
}


fn eat_frag_sub(b: &[u8], i: usize) -> (r: Option<usize>)
    requires
        i <= b@.len(),
    ensures
        r is Some ==> r.unwrap() == i + 8 && i + 8 <= b@.len()
            && b@.subrange(i as int, i + 8) == frag_sub(),
        forall|tail: Seq<u8>| b@.skip(i as int) == frag_sub() + tail ==> r is Some,
{
    proof {
        assert(frag_sub() =~= seq![123u8, 34u8, 115u8, 117u8, 98u8, 34u8, 58u8, 34u8]);
    }
    if b.len() - i >= 8 && b[i + 0] == 123 && b[i + 1] == 34 && b[i + 2] == 115 && b[i + 3] == 117 && b[i + 4] == 98 && b[i + 5] == 34 && b[i + 6] == 58 && b[i + 7] == 34 {
        proof {
            assert(b@.subrange(i as int, i + 8) =~= seq![123u8, 34u8, 115u8, 117u8, 98u8, 34u8, 58u8, 34u8]);
        }
        Some(i + 8)
    } else {
        proof {
            assert forall|tail: Seq<u8>| b@.skip(i as int) == frag_sub() + tail implies false by {
                assert(b@.skip(i as int).len() >= 8);
                assert(b@.skip(i as int)[0] == b@[i + 0]);
                assert((frag_sub() + tail)[0] == 123);
                assert(b@.skip(i as int)[1] == b@[i + 1]);
                assert((frag_sub() + tail)[1] == 34);
                assert(b@.skip(i as int)[2] == b@[i + 2]);
                assert((frag_sub() + tail)[2] == 115);
                assert(b@.skip(i as int)[3] == b@[i + 3]);
                assert((frag_sub() + tail)[3] == 117);
                assert(b@.skip(i as int)[4] == b@[i + 4]);
                assert((frag_sub() + tail)[4] == 98);
                assert(b@.skip(i as int)[5] == b@[i + 5]);
                assert((frag_sub() + tail)[5] == 34);
                assert(b@.skip(i as int)[6] == b@[i + 6]);
                assert((frag_sub() + tail)[6] == 58);
                assert(b@.skip(i as int)[7] == b@[i + 7]);
                assert((frag_sub() + tail)[7] == 34);
            }
        }
        None
    }
}

fn eat_frag_login_t(b: &[u8], i: usize) -> (r: Option<usize>)
    requires
        i <= b@.len(),
    ensures
        r is Some ==> r.unwrap() == i + 12 && i + 12 <= b@.len()
            && b@.subrange(i as int, i + 12) == frag_login().skip(1),
        forall|tail: Seq<u8>| b@.skip(i as int) == frag_login().skip(1) + tail ==> r is Some,
{
    proof {
        assert(frag_login().skip(1) =~= seq![44u8, 34u8, 108u8, 111u8, 103u8, 105u8, 110u8, 73u8, 100u8, 34u8, 58u8, 34u8]);
    }
    if b.len() - i >= 12 && b[i + 0] == 44 && b[i + 1] == 34 && b[i + 2] == 108 && b[i + 3] == 111 && b[i + 4] == 103 && b[i + 5] == 105 && b[i + 6] == 110 && b[i + 7] == 73 && b[i + 8] == 100 && b[i + 9] == 34 && b[i + 10] == 58 && b[i + 11] == 34 {
        proof {
            assert(b@.subrange(i as int, i + 12) =~= seq![44u8, 34u8, 108u8, 111u8, 103u8, 105u8, 110u8, 73u8, 100u8, 34u8, 58u8, 34u8]);
        }
        Some(i + 12)
    } else {
        proof {
            assert forall|tail: Seq<u8>| b@.skip(i as int) == frag_login().skip(1) + tail implies false by {
                assert(b@.skip(i as int).len() >= 12);
                assert(b@.skip(i as int)[0] == b@[i + 0]);
                assert((frag_login().skip(1) + tail)[0] == 44);
                assert(b@.skip(i as int)[1] == b@[i + 1]);
                assert((frag_login().skip(1) + tail)[1] == 34);
                assert(b@.skip(i as int)[2] == b@[i + 2]);
                assert((frag_login().skip(1) + tail)[2] == 108);
                assert(b@.skip(i as int)[3] == b@[i + 3]);
                assert((frag_login().skip(1) + tail)[3] == 111);
                assert(b@.skip(i as int)[4] == b@[i + 4]);
                assert((frag_login().skip(1) + tail)[4] == 103);
                assert(b@.skip(i as int)[5] == b@[i + 5]);
                assert((frag_login().skip(1) + tail)[5] == 105);
                assert(b@.skip(i as int)[6] == b@[i + 6]);
                assert((frag_login().skip(1) + tail)[6] == 110);
                assert(b@.skip(i as int)[7] == b@[i + 7]);
                assert((frag_login().skip(1) + tail)[7] == 73);
                assert(b@.skip(i as int)[8] == b@[i + 8]);
                assert((frag_login().skip(1) + tail)[8] == 100);
                assert(b@.skip(i as int)[9] == b@[i + 9]);
                assert((frag_login().skip(1) + tail)[9] == 34);
                assert(b@.skip(i as int)[10] == b@[i + 10]);
                assert((frag_login().skip(1) + tail)[10] == 58);
                assert(b@.skip(i as int)[11] == b@[i + 11]);
                assert((frag_login().skip(1) + tail)[11] == 34);
            }
        }
        None
    }
}

fn eat_frag_session_t(b: &[u8], i: usize) -> (r: Option<usize>)
    requires
        i <= b@.len(),
    ensures
        r is Some ==> r.unwrap() == i + 14 && i + 14 <= b@.len()
            && b@.subrange(i as int, i + 14) == frag_session().skip(1),
        forall|tail: Seq<u8>| b@.skip(i as int) == frag_session().skip(1) + tail ==> r is Some,
{
    proof {
        assert(frag_session().skip(1) =~= seq![44u8, 34u8, 115u8, 101u8, 115u8, 115u8, 105u8, 111u8, 110u8, 73u8, 100u8, 34u8, 58u8, 34u8]);
    }
    if b.len() - i >= 14 && b[i + 0] == 44 && b[i + 1] == 34 && b[i + 2] == 115 && b[i + 3] == 101 && b[i + 4] == 115 && b[i + 5] == 115 && b[i + 6] == 105 && b[i + 7] == 111 && b[i + 8] == 110 && b[i + 9] == 73 && b[i + 10] == 100 && b[i + 11] == 34 && b[i + 12] == 58 && b[i + 13] == 34 {
        proof {
            assert(b@.subrange(i as int, i + 14) =~= seq![44u8, 34u8, 115u8, 101u8, 115u8, 115u8, 105u8, 111u8, 110u8, 73u8, 100u8, 34u8, 58u8, 34u8]);
        }
        Some(i + 14)
    } else {
        proof {
            assert forall|tail: Seq<u8>| b@.skip(i as int) == frag_session().skip(1) + tail implies false by {
                assert(b@.skip(i as int).len() >= 14);
                assert(b@.skip(i as int)[0] == b@[i + 0]);
                assert((frag_session().skip(1) + tail)[0] == 44);
                assert(b@.skip(i as int)[1] == b@[i + 1]);
                assert((frag_session().skip(1) + tail)[1] == 34);
                assert(b@.skip(i as int)[2] == b@[i + 2]);
                assert((frag_session().skip(1) + tail)[2] == 115);
                assert(b@.skip(i as int)[3] == b@[i + 3]);
                assert((frag_session().skip(1) + tail)[3] == 101);
                assert(b@.skip(i as int)[4] == b@[i + 4]);
                assert((frag_session().skip(1) + tail)[4] == 115);
                assert(b@.skip(i as int)[5] == b@[i + 5]);
                assert((frag_session().skip(1) + tail)[5] == 115);
                assert(b@.skip(i as int)[6] == b@[i + 6]);
                assert((frag_session().skip(1) + tail)[6] == 105);
                assert(b@.skip(i as int)[7] == b@[i + 7]);
                assert((frag_session().skip(1) + tail)[7] == 111);
                assert(b@.skip(i as int)[8] == b@[i + 8]);
                assert((frag_session().skip(1) + tail)[8] == 110);
                assert(b@.skip(i as int)[9] == b@[i + 9]);
                assert((frag_session().skip(1) + tail)[9] == 73);
                assert(b@.skip(i as int)[10] == b@[i + 10]);
                assert((frag_session().skip(1) + tail)[10] == 100);
                assert(b@.skip(i as int)[11] == b@[i + 11]);
                assert((frag_session().skip(1) + tail)[11] == 34);
                assert(b@.skip(i as int)[12] == b@[i + 12]);
                assert((frag_session().skip(1) + tail)[12] == 58);
                assert(b@.skip(i as int)[13] == b@[i + 13]);
                assert((frag_session().skip(1) + tail)[13] == 34);
            }
        }
        None
    }
}

fn eat_frag_perms_t(b: &[u8], i: usize) -> (r: Option<usize>)
    requires
        i <= b@.len(),
    ensures
        r is Some ==> r.unwrap() == i + 16 && i + 16 <= b@.len()
            && b@.subrange(i as int, i + 16) == frag_perms().skip(1),
        forall|tail: Seq<u8>| b@.skip(i as int) == frag_perms().skip(1) + tail ==> r is Some,
{
    proof {
        assert(frag_perms().skip(1) =~= seq![44u8, 34u8, 112u8, 101u8, 114u8, 109u8, 105u8, 115u8, 115u8, 105u8, 111u8, 110u8, 115u8, 34u8, 58u8, 91u8]);
    }
    if b.len() - i >= 16 && b[i + 0] == 44 && b[i + 1] == 34 && b[i + 2] == 112 && b[i + 3] == 101 && b[i + 4] == 114 && b[i + 5] == 109 && b[i + 6] == 105 && b[i + 7] == 115 && b[i + 8] == 115 && b[i + 9] == 105 && b[i + 10] == 111 && b[i + 11] == 110 && b[i + 12] == 115 && b[i + 13] == 34 && b[i + 14] == 58 && b[i + 15] == 91 {
        proof {
            assert(b@.subrange(i as int, i + 16) =~= seq![44u8, 34u8, 112u8, 101u8, 114u8, 109u8, 105u8, 115u8, 115u8, 105u8, 111u8, 110u8, 115u8, 34u8, 58u8, 91u8]);
        }
        Some(i + 16)
    } else {
        proof {
            assert forall|tail: Seq<u8>| b@.skip(i as int) == frag_perms().skip(1) + tail implies false by {
                assert(b@.skip(i as int).len() >= 16);
                assert(b@.skip(i as int)[0] == b@[i + 0]);
                assert((frag_perms().skip(1) + tail)[0] == 44);
                assert(b@.skip(i as int)[1] == b@[i + 1]);
                assert((frag_perms().skip(1) + tail)[1] == 34);
                assert(b@.skip(i as int)[2] == b@[i + 2]);
                assert((frag_perms().skip(1) + tail)[2] == 112);
                assert(b@.skip(i as int)[3] == b@[i + 3]);
                assert((frag_perms().skip(1) + tail)[3] == 101);
                assert(b@.skip(i as int)[4] == b@[i + 4]);
                assert((frag_perms().skip(1) + tail)[4] == 114);
                assert(b@.skip(i as int)[5] == b@[i + 5]);
                assert((frag_perms().skip(1) + tail)[5] == 109);
                assert(b@.skip(i as int)[6] == b@[i + 6]);
                assert((frag_perms().skip(1) + tail)[6] == 105);
                assert(b@.skip(i as int)[7] == b@[i + 7]);
                assert((frag_perms().skip(1) + tail)[7] == 115);
                assert(b@.skip(i as int)[8] == b@[i + 8]);
                assert((frag_perms().skip(1) + tail)[8] == 115);
                assert(b@.skip(i as int)[9] == b@[i + 9]);
                assert((frag_perms().skip(1) + tail)[9] == 105);
                assert(b@.skip(i as int)[10] == b@[i + 10]);
                assert((frag_perms().skip(1) + tail)[10] == 111);
                assert(b@.skip(i as int)[11] == b@[i + 11]);
                assert((frag_perms().skip(1) + tail)[11] == 110);
                assert(b@.skip(i as int)[12] == b@[i + 12]);
                assert((frag_perms().skip(1) + tail)[12] == 115);
                assert(b@.skip(i as int)[13] == b@[i + 13]);
                assert((frag_perms().skip(1) + tail)[13] == 34);
                assert(b@.skip(i as int)[14] == b@[i + 14]);
                assert((frag_perms().skip(1) + tail)[14] == 58);
                assert(b@.skip(i as int)[15] == b@[i + 15]);
                assert((frag_perms().skip(1) + tail)[15] == 91);
            }
        }
        None
    }
}

fn eat_frag_iat(b: &[u8], i: usize) -> (r: Option<usize>)
    requires
        i <= b@.len(),
    ensures
        r is Some ==> r.unwrap() == i + 8 && i + 8 <= b@.len()
            && b@.subrange(i as int, i + 8) == frag_iat(),
        forall|tail: Seq<u8>| b@.skip(i as int) == frag_iat() + tail ==> r is Some,
{
    proof {
        assert(frag_iat() =~= seq![93u8, 44u8, 34u8, 105u8, 97u8, 116u8, 34u8, 58u8]);
    }
    if b.len() - i >= 8 && b[i + 0] == 93 && b[i + 1] == 44 && b[i + 2] == 34 && b[i + 3] == 105 && b[i + 4] == 97 && b[i + 5] == 116 && b[i + 6] == 34 && b[i + 7] == 58 {
        proof {
            assert(b@.subrange(i as int, i + 8) =~= seq![93u8, 44u8, 34u8, 105u8, 97u8, 116u8, 34u8, 58u8]);
        }
        Some(i + 8)
    } else {
        proof {
            assert forall|tail: Seq<u8>| b@.skip(i as int) == frag_iat() + tail implies false by {
                assert(b@.skip(i as int).len() >= 8);
                assert(b@.skip(i as int)[0] == b@[i + 0]);
                assert((frag_iat() + tail)[0] == 93);
                assert(b@.skip(i as int)[1] == b@[i + 1]);
                assert((frag_iat() + tail)[1] == 44);
                assert(b@.skip(i as int)[2] == b@[i + 2]);
                assert((frag_iat() + tail)[2] == 34);
                assert(b@.skip(i as int)[3] == b@[i + 3]);
                assert((frag_iat() + tail)[3] == 105);
                assert(b@.skip(i as int)[4] == b@[i + 4]);
                assert((frag_iat() + tail)[4] == 97);
                assert(b@.skip(i as int)[5] == b@[i + 5]);
                assert((frag_iat() + tail)[5] == 116);
                assert(b@.skip(i as int)[6] == b@[i + 6]);
                assert((frag_iat() + tail)[6] == 34);
                assert(b@.skip(i as int)[7] == b@[i + 7]);
                assert((frag_iat() + tail)[7] == 58);
            }
        }
        None
    }
}

fn eat_frag_exp(b: &[u8], i: usize) -> (r: Option<usize>)
    requires
        i <= b@.len(),
    ensures
        r is Some ==> r.unwrap() == i + 7 && i + 7 <= b@.len()
            && b@.subrange(i as int, i + 7) == frag_exp(),
        forall|tail: Seq<u8>| b@.skip(i as int) == frag_exp() + tail ==> r is Some,
{
    proof {
        assert(frag_exp() =~= seq![44u8, 34u8, 101u8, 120u8, 112u8, 34u8, 58u8]);
    }
    if b.len() - i >= 7 && b[i + 0] == 44 && b[i + 1] == 34 && b[i + 2] == 101 && b[i + 3] == 120 && b[i + 4] == 112 && b[i + 5] == 34 && b[i + 6] == 58 {
        proof {
            assert(b@.subrange(i as int, i + 7) =~= seq![44u8, 34u8, 101u8, 120u8, 112u8, 34u8, 58u8]);
        }
        Some(i + 7)
    } else {
        proof {
            assert forall|tail: Seq<u8>| b@.skip(i as int) == frag_exp() + tail implies false by {
                assert(b@.skip(i as int).len() >= 7);
                assert(b@.skip(i as int)[0] == b@[i + 0]);
                assert((frag_exp() + tail)[0] == 44);
                assert(b@.skip(i as int)[1] == b@[i + 1]);
                assert((frag_exp() + tail)[1] == 34);
                assert(b@.skip(i as int)[2] == b@[i + 2]);
                assert((frag_exp() + tail)[2] == 101);
                assert(b@.skip(i as int)[3] == b@[i + 3]);
                assert((frag_exp() + tail)[3] == 120);
                assert(b@.skip(i as int)[4] == b@[i + 4]);
                assert((frag_exp() + tail)[4] == 112);
                assert(b@.skip(i as int)[5] == b@[i + 5]);
                assert((frag_exp() + tail)[5] == 34);
                assert(b@.skip(i as int)[6] == b@[i + 6]);
                assert((frag_exp() + tail)[6] == 58);
            }
        }
        None
    }
}

pub open spec fn sfx_exp(c: AuthView) -> Seq<u8> {
    dec(c.exp) + seq![125u8]
}

pub open spec fn sfx_f6(c: AuthView) -> Seq<u8> {
    frag_exp() + sfx_exp(c)
}

pub open spec fn sfx_iat(c: AuthView) -> Seq<u8> {
    dec(c.iat) + sfx_f6(c)
}

pub open spec fn sfx_f5(c: AuthView) -> Seq<u8> {
    frag_iat() + sfx_iat(c)
}

pub open spec fn sfx_pb(c: AuthView) -> Seq<u8> {
    perms_bytes(c.permissions) + sfx_f5(c)
}

pub open spec fn sfx_f4(c: AuthView) -> Seq<u8> {
    frag_perms() + sfx_pb(c)
}

pub open spec fn sfx_e3(c: AuthView) -> Seq<u8> {
    esc(encode_utf8(c.session_id)) + sfx_f4(c)
}

pub open spec fn sfx_f3(c: AuthView) -> Seq<u8> {
    frag_session() + sfx_e3(c)
}

pub open spec fn sfx_e2(c: AuthView) -> Seq<u8> {
    esc(encode_utf8(c.login_id)) + sfx_f3(c)
}

pub open spec fn sfx_f2(c: AuthView) -> Seq<u8> {
    frag_login() + sfx_e2(c)
}

pub open spec fn sfx_e1(c: AuthView) -> Seq<u8> {
    esc(encode_utf8(c.sub)) + sfx_f2(c)
}

/// How the claims object splits while a scan from the left is inside the
/// three identity strings.
#[verifier::rlimit(100)]
#[verifier::spinoff_prover]
pub proof fn lemma_claims_splits_a(b: Seq<u8>, c: AuthView)
    requires
        claims_wf(c),
        b == claims_bytes(c),
    ensures
        b.skip(0) == frag_sub() + sfx_e1(c),
        b.skip(8) == esc(encode_utf8(c.sub)) + seq![34u8] + (frag_login().skip(1) + sfx_e2(c)),
        b.skip((9 + esc(encode_utf8(c.sub)).len()) as int) == frag_login().skip(1) + sfx_e2(c),
        b.skip((21 + esc(encode_utf8(c.sub)).len()) as int) == esc(encode_utf8(c.login_id))
            + seq![34u8] + (frag_session().skip(1) + sfx_e3(c)),
        b.skip((22 + esc(encode_utf8(c.sub)).len() + esc(encode_utf8(c.login_id)).len()) as int)
            == frag_session().skip(1) + sfx_e3(c),
        b.skip((36 + esc(encode_utf8(c.sub)).len() + esc(encode_utf8(c.login_id)).len()) as int)
            == esc(encode_utf8(c.session_id)) + seq![34u8] + (frag_perms().skip(1) + sfx_pb(c)),
        b.skip((37 + esc(encode_utf8(c.sub)).len() + esc(encode_utf8(c.login_id)).len()
            + esc(encode_utf8(c.session_id)).len()) as int) == frag_perms().skip(1) + sfx_pb(c),
        b.len() == 53 + esc(encode_utf8(c.sub)).len() + esc(encode_utf8(c.login_id)).len()
            + esc(encode_utf8(c.session_id)).len() + sfx_pb(c).len(),
{
    let e1 = esc(encode_utf8(c.sub));
    let e2 = esc(encode_utf8(c.login_id));
    let e3 = esc(encode_utf8(c.session_id));
    let n1 = e1.len() as int;
    let n2 = e2.len() as int;
    let n3 = e3.len() as int;
    assert(b =~= frag_sub() + sfx_e1(c));
    assert(b.skip(0) =~= b);
    assert(b.skip(8) =~= sfx_e1(c));
    assert(sfx_e1(c) =~= e1 + seq![34u8] + (frag_login().skip(1) + sfx_e2(c)));
    assert(b.skip(9 + n1) =~= b.skip(8).skip(1 + n1));
    assert(sfx_e1(c).skip(1 + n1) =~= frag_login().skip(1) + sfx_e2(c));
    assert(b.skip(21 + n1) =~= b.skip(9 + n1).skip(12));
    assert((frag_login().skip(1) + sfx_e2(c)).skip(12) =~= sfx_e2(c));
    assert(sfx_e2(c) =~= e2 + seq![34u8] + (frag_session().skip(1) + sfx_e3(c)));
    assert(b.skip(22 + n1 + n2) =~= b.skip(21 + n1).skip(1 + n2));
    assert(sfx_e2(c).skip(1 + n2) =~= frag_session().skip(1) + sfx_e3(c));
    assert(b.skip(36 + n1 + n2) =~= b.skip(22 + n1 + n2).skip(14));
    assert((frag_session().skip(1) + sfx_e3(c)).skip(14) =~= sfx_e3(c));
    assert(sfx_e3(c) =~= e3 + seq![34u8] + (frag_perms().skip(1) + sfx_pb(c)));
    assert(b.skip(37 + n1 + n2 + n3) =~= b.skip(36 + n1 + n2).skip(1 + n3));
    assert(sfx_e3(c).skip(1 + n3) =~= frag_perms().skip(1) + sfx_pb(c));
}

/// How the claims object splits from the permission array to the end.
#[verifier::rlimit(100)]
#[verifier::spinoff_prover]
pub proof fn lemma_claims_splits_b(b: Seq<u8>, c: AuthView, p: int)
    requires
        claims_wf(c),
        0 <= p <= b.len(),
        b.skip(p) == frag_perms().skip(1) + sfx_pb(c),
    ensures
        b.skip(p + 16) == perms_bytes(c.permissions) + seq![93u8] + (frag_iat().skip(1)
            + sfx_iat(c)),
        b.skip((p + 16 + perms_bytes(c.permissions).len()) as int) == frag_iat() + sfx_iat(c),
        b.skip((p + 24 + perms_bytes(c.permissions).len()) as int) == dec(c.iat) + sfx_f6(c),
        !is_digit(sfx_f6(c)[0]),
        b.skip((p + 24 + perms_bytes(c.permissions).len() + dec(c.iat).len()) as int)
            == frag_exp() + sfx_exp(c),
        b.skip((p + 31 + perms_bytes(c.permissions).len() + dec(c.iat).len()) as int)
            == dec(c.exp) + seq![125u8],
        !is_digit(seq![125u8][0]),
        b.len() == p + 32 + perms_bytes(c.permissions).len() + dec(c.iat).len()
            + dec(c.exp).len(),
{
    let d1 = dec(c.iat);
    let d2 = dec(c.exp);
    let pb = perms_bytes(c.permissions);
    let np = pb.len() as int;
    let m1 = d1.len() as int;
    let m2 = d2.len() as int;
    assert(b.skip(p + 16) =~= b.skip(p).skip(16));
    assert((frag_perms().skip(1) + sfx_pb(c)).skip(16) =~= sfx_pb(c));
    assert(sfx_pb(c) =~= pb + seq![93u8] + (frag_iat().skip(1) + sfx_iat(c)));
    assert(b.skip(p + 16 + np) =~= b.skip(p + 16).skip(np));
    assert(sfx_pb(c).skip(np) =~= frag_iat() + sfx_iat(c));
    assert(b.skip(p + 24 + np) =~= b.skip(p + 16 + np).skip(8));
    assert((frag_iat() + sfx_iat(c)).skip(8) =~= sfx_iat(c));
    assert(sfx_iat(c) =~= d1 + sfx_f6(c));
    assert(sfx_f6(c)[0] == 44);
    assert(b.skip(p + 24 + np + m1) =~= b.skip(p + 24 + np).skip(m1));
    assert(sfx_iat(c).skip(m1) =~= frag_exp() + sfx_exp(c));
    assert(b.skip(p + 31 + np + m1) =~= b.skip(p + 24 + np + m1).skip(7));
    assert((frag_exp() + sfx_exp(c)).skip(7) =~= sfx_exp(c));
    assert(sfx_exp(c) =~= d2 + seq![125u8]);
}

/// Scans `{"sub":"<string>"` and hands back the subject.
#[verifier::rlimit(100)]
#[verifier::spinoff_prover]
fn pc_sub(b: &[u8]) -> (r: Option<(String, usize)>)
    ensures
        r is Some ==> r.unwrap().1 <= b@.len() && b@.subrange(0, r.unwrap().1 as int)
            == frag_sub() + esc(encode_utf8(r.unwrap().0@)) + seq![34u8],
        forall|c: AuthView|
            claims_wf(c) && b@.skip(0) == frag_sub() + sfx_e1(c) ==> r is Some
                && r.unwrap().0@ == c.sub
                && b@.skip(r.unwrap().1 as int) == frag_login().skip(1) + sfx_e2(c),
{
    let j0 = match eat_frag_sub(b, 0) {
        Some(j) => j,
        None => {
            proof {
                assert forall|c: AuthView|
                    claims_wf(c) && b@.skip(0) == frag_sub() + sfx_e1(c) implies false by {
                    assert(b@.skip(0) == frag_sub() + sfx_e1(c));
                }
            }
            return None;
        },
    };
    proof {
        assert forall|c: AuthView|
            claims_wf(c) && b@.skip(0) == frag_sub() + sfx_e1(c) implies b@.skip(8)
            == esc(encode_utf8(c.sub)) + seq![34u8] + (frag_login().skip(1) + sfx_e2(c)) by {
            assert(b@.skip(8) =~= b@.skip(0).skip(8));
            assert((frag_sub() + sfx_e1(c)).skip(8) =~= sfx_e1(c));
            assert(sfx_e1(c) =~= esc(encode_utf8(c.sub)) + seq![34u8] + (frag_login().skip(1)
                + sfx_e2(c)));
        }
    }
    match parse_jstring(b, j0) {
        Some((s1, j1)) => {
            proof {
                assert(b@.subrange(0, j1 as int) =~= b@.subrange(0, 8) + b@.subrange(8,
                    j1 as int));
                assert(b@.subrange(0, j1 as int) =~= frag_sub() + esc(encode_utf8(s1@))
                    + seq![34u8]);
                assert forall|c: AuthView|
                    claims_wf(c) && b@.skip(0) == frag_sub() + sfx_e1(c) implies s1@ == c.sub
                    && b@.skip(j1 as int) == frag_login().skip(1) + sfx_e2(c) by {
                    assert(s1@ == c.sub && j1 == 8 + esc(encode_utf8(c.sub)).len() + 1);
                    assert(b@.skip(j1 as int) =~= b@.skip(8).skip((j1 - 8) as int));
                    assert((esc(encode_utf8(c.sub)) + seq![34u8] + (frag_login().skip(1)
                        + sfx_e2(c))).skip((esc(encode_utf8(c.sub)).len() + 1) as int) =~= frag_login()
                        .skip(1) + sfx_e2(c));
                }
            }
            Some((s1, j1))
        },
        None => None,
    }
}

/// Scans `","loginId":"<string>"` and hands back the login identifier.
#[verifier::rlimit(100)]
#[verifier::spinoff_prover]
fn pc_login(b: &[u8], i: usize) -> (r: Option<(String, usize)>)
    requires
        i <= b@.len(),
    ensures
        r is Some ==> i <= r.unwrap().1 <= b@.len()
            && b@.subrange(i as int, r.unwrap().1 as int) == frag_login().skip(1)
            + esc(encode_utf8(r.unwrap().0@)) + seq![34u8],
        forall|c: AuthView|
            claims_wf(c) && b@.skip(i as int) == frag_login().skip(1) + sfx_e2(c) ==> r is Some
                && r.unwrap().0@ == c.login_id
                && b@.skip(r.unwrap().1 as int) == frag_session().skip(1) + sfx_e3(c),
{
    let j0 = match eat_frag_login_t(b, i) {
        Some(j) => j,
        None => {
            proof {
                assert forall|c: AuthView|
                    claims_wf(c) && b@.skip(i as int) == frag_login().skip(1) + sfx_e2(c)
                    implies false by {
                    assert(b@.skip(i as int) == frag_login().skip(1) + sfx_e2(c));
                }
            }
            return None;
        },
    };
    proof {
        assert forall|c: AuthView|
            claims_wf(c) && b@.skip(i as int) == frag_login().skip(1) + sfx_e2(c) implies b@
            .skip(j0 as int) == esc(encode_utf8(c.login_id)) + seq![34u8] + (frag_session()
            .skip(1) + sfx_e3(c)) by {
            assert(b@.skip(j0 as int) =~= b@.skip(i as int).skip(12));
            assert((frag_login().skip(1) + sfx_e2(c)).skip(12) =~= sfx_e2(c));
            assert(sfx_e2(c) =~= esc(encode_utf8(c.login_id)) + seq![34u8] + (frag_session()
                .skip(1) + sfx_e3(c)));
        }
    }
    match parse_jstring(b, j0) {
        Some((s2, j1)) => {
            proof {
                assert(b@.subrange(i as int, j1 as int) =~= b@.subrange(i as int, j0 as int)
                    + b@.subrange(j0 as int, j1 as int));
                assert(b@.subrange(i as int, j1 as int) =~= frag_login().skip(1)
                    + esc(encode_utf8(s2@)) + seq![34u8]);
                assert forall|c: AuthView|
                    claims_wf(c) && b@.skip(i as int) == frag_login().skip(1) + sfx_e2(c)
                    implies s2@ == c.login_id && b@.skip(j1 as int) == frag_session().skip(1)
                    + sfx_e3(c) by {
                    assert(s2@ == c.login_id && j1 == j0 + esc(encode_utf8(c.login_id)).len()
                        + 1);
                    assert(b@.skip(j1 as int) =~= b@.skip(j0 as int).skip((j1 - j0) as int));
                    assert((esc(encode_utf8(c.login_id)) + seq![34u8] + (frag_session().skip(1)
                        + sfx_e3(c))).skip((esc(encode_utf8(c.login_id)).len() + 1) as int)
                        =~= frag_session().skip(1) + sfx_e3(c));
                }
            }
            Some((s2, j1))
        },
        None => None,
    }
}

/// Scans `","sessionId":"<string>"` and hands back the session identifier.
#[verifier::rlimit(100)]
#[verifier::spinoff_prover]
fn pc_session(b: &[u8], i: usize) -> (r: Option<(String, usize)>)
    requires
        i <= b@.len(),
    ensures
        r is Some ==> i <= r.unwrap().1 <= b@.len()
            && b@.subrange(i as int, r.unwrap().1 as int) == frag_session().skip(1)
            + esc(encode_utf8(r.unwrap().0@)) + seq![34u8],
        forall|c: AuthView|
            claims_wf(c) && b@.skip(i as int) == frag_session().skip(1) + sfx_e3(c) ==> r
                is Some && r.unwrap().0@ == c.session_id
                && b@.skip(r.unwrap().1 as int) == frag_perms().skip(1) + sfx_pb(c),
{
    let j0 = match eat_frag_session_t(b, i) {
        Some(j) => j,
        None => {
            proof {
                assert forall|c: AuthView|
                    claims_wf(c) && b@.skip(i as int) == frag_session().skip(1) + sfx_e3(c)
                    implies false by {
                    assert(b@.skip(i as int) == frag_session().skip(1) + sfx_e3(c));
                }
            }
            return None;
        },
    };
    proof {
        assert forall|c: AuthView|
            claims_wf(c) && b@.skip(i as int) == frag_session().skip(1) + sfx_e3(c) implies b@
            .skip(j0 as int) == esc(encode_utf8(c.session_id)) + seq![34u8] + (frag_perms()
            .skip(1) + sfx_pb(c)) by {
            assert(b@.skip(j0 as int) =~= b@.skip(i as int).skip(14));
            assert((frag_session().skip(1) + sfx_e3(c)).skip(14) =~= sfx_e3(c));
            assert(sfx_e3(c) =~= esc(encode_utf8(c.session_id)) + seq![34u8] + (frag_perms()
                .skip(1) + sfx_pb(c)));
        }
    }
    match parse_jstring(b, j0) {
        Some((s3, j1)) => {
            proof {
                assert(b@.subrange(i as int, j1 as int) =~= b@.subrange(i as int, j0 as int)
                    + b@.subrange(j0 as int, j1 as int));
                assert(b@.subrange(i as int, j1 as int) =~= frag_session().skip(1)
                    + esc(encode_utf8(s3@)) + seq![34u8]);
                assert forall|c: AuthView|
                    claims_wf(c) && b@.skip(i as int) == frag_session().skip(1) + sfx_e3(c)
                    implies s3@ == c.session_id && b@.skip(j1 as int) == frag_perms().skip(1)
                    + sfx_pb(c) by {
                    assert(s3@ == c.session_id && j1 == j0 + esc(encode_utf8(
                        c.session_id)).len() + 1);
                    assert(b@.skip(j1 as int) =~= b@.skip(j0 as int).skip((j1 - j0) as int));
                    assert((esc(encode_utf8(c.session_id)) + seq![34u8] + (frag_perms().skip(1)
                        + sfx_pb(c))).skip((esc(encode_utf8(c.session_id)).len() + 1) as int)
                        =~= frag_perms().skip(1) + sfx_pb(c));
                }
            }
            Some((s3, j1))
        },
        None => None,
    }
}

/// Scans `","permissions":[...],"iat":` and hands back the permission list.
#[verifier::rlimit(100)]
#[verifier::spinoff_prover]
fn pc_permsblock(b: &[u8], i: usize) -> (r: Option<(Vec<String>, usize)>)
    requires
        i <= b@.len(),
    ensures
        r is Some ==> i <= r.unwrap().1 <= b@.len()
            && b@.subrange(i as int, r.unwrap().1 as int) == frag_perms().skip(1)
            + perms_bytes(r.unwrap().0.deep_view()) + frag_iat(),
        forall|c: AuthView|
            claims_wf(c) && b@.skip(i as int) == frag_perms().skip(1) + sfx_pb(c) ==> r is Some
                && r.unwrap().0.deep_view() == c.permissions
                && b@.skip(r.unwrap().1 as int) == dec(c.iat) + sfx_f6(c),
{
    let j0 = match eat_frag_perms_t(b, i) {
        Some(j) => j,
        None => {
            proof {
                assert forall|c: AuthView|
                    claims_wf(c) && b@.skip(i as int) == frag_perms().skip(1) + sfx_pb(c)
                    implies false by {
                    assert(b@.skip(i as int) == frag_perms().skip(1) + sfx_pb(c));
                }
            }
            return None;
        },
    };
    proof {
        assert forall|c: AuthView|
            claims_wf(c) && b@.skip(i as int) == frag_perms().skip(1) + sfx_pb(c) implies b@
            .skip(j0 as int) == perms_bytes(c.permissions) + seq![93u8] + (frag_iat().skip(1)
            + sfx_iat(c)) by {
            assert(b@.skip(j0 as int) =~= b@.skip(i as int).skip(16));
            assert((frag_perms().skip(1) + sfx_pb(c)).skip(16) =~= sfx_pb(c));
            assert(sfx_pb(c) =~= perms_bytes(c.permissions) + seq![93u8] + (frag_iat().skip(1)
                + sfx_iat(c)));
        }
    }
    let (perms, j1) = match parse_perms(b, j0) {
        Some(x) => x,
        None => {
            proof {
                assert forall|c: AuthView|
                    claims_wf(c) && b@.skip(i as int) == frag_perms().skip(1) + sfx_pb(c)
                    implies false by {
                    assert(b@.skip(j0 as int) == perms_bytes(c.permissions) + seq![93u8]
                        + (frag_iat().skip(1) + sfx_iat(c)));
                }
            }
            return None;
        },
    };
    let j2 = match eat_frag_iat(b, j1) {
        Some(j) => j,
        None => {
            proof {
                assert forall|c: AuthView|
                    claims_wf(c) && b@.skip(i as int) == frag_perms().skip(1) + sfx_pb(c)
                    implies false by {
                    assert(b@.skip(j0 as int) == perms_bytes(c.permissions) + seq![93u8]
                        + (frag_iat().skip(1) + sfx_iat(c)));
                    assert(perms.deep_view() == c.permissions && j1 == j0 + perms_bytes(
                        c.permissions).len());
                    assert(b@.skip(j1 as int) =~= b@.skip(j0 as int).skip((j1 - j0) as int));
                    assert((perms_bytes(c.permissions) + seq![93u8] + (frag_iat().skip(1)
                        + sfx_iat(c))).skip(perms_bytes(c.permissions).len() as int)
                        =~= frag_iat() + sfx_iat(c));
                }
            }
            return None;
        },
    };
    proof {
        assert(b@.subrange(i as int, j2 as int) =~= b@.subrange(i as int, j0 as int)
            + b@.subrange(j0 as int, j1 as int) + b@.subrange(j1 as int, j2 as int));
        assert(b@.subrange(i as int, j2 as int) =~= frag_perms().skip(1) + perms_bytes(
            perms.deep_view()) + frag_iat());
        assert forall|c: AuthView|
            claims_wf(c) && b@.skip(i as int) == frag_perms().skip(1) + sfx_pb(c) implies
            perms.deep_view() == c.permissions && b@.skip(j2 as int) == dec(c.iat)
            + sfx_f6(c) by {
            assert(b@.skip(j0 as int) == perms_bytes(c.permissions) + seq![93u8] + (frag_iat()
                .skip(1) + sfx_iat(c)));
            assert(perms.deep_view() == c.permissions && j1 == j0 + perms_bytes(
                c.permissions).len());
            assert(b@.skip(j1 as int) =~= b@.skip(j0 as int).skip((j1 - j0) as int));
            assert((perms_bytes(c.permissions) + seq![93u8] + (frag_iat().skip(1)
                + sfx_iat(c))).skip(perms_bytes(c.permissions).len() as int) =~= frag_iat()
                + sfx_iat(c));
            assert(b@.skip(j2 as int) =~= b@.skip(j1 as int).skip(8));
            assert((frag_iat() + sfx_iat(c)).skip(8) =~= sfx_iat(c));
            assert(sfx_iat(c) =~= dec(c.iat) + sfx_f6(c));
        }
    }
    Some((perms, j2))
}

/// Scans the two timestamps and the closing brace, which must end the input.
#[verifier::rlimit(100)]
#[verifier::spinoff_prover]
fn pc_nums(b: &[u8], i: usize) -> (r: Option<(i64, i64)>)
    requires
        i <= b@.len(),
    ensures
        r is Some ==> r.unwrap().0 >= 0 && r.unwrap().1 >= 0
            && b@.skip(i as int) == dec(r.unwrap().0 as int) + frag_exp()
            + dec(r.unwrap().1 as int) + seq![125u8],
        forall|c: AuthView|
            claims_wf(c) && b@.skip(i as int) == dec(c.iat) + sfx_f6(c) ==> r is Some
                && r.unwrap().0 == c.iat && r.unwrap().1 == c.exp,
{
    let (iat, j0) = match parse_dec(b, i) {
        Some(x) => x,
        None => {
            proof {
                assert forall|c: AuthView|
                    claims_wf(c) && b@.skip(i as int) == dec(c.iat) + sfx_f6(c) implies
                    false by {
                    assert(sfx_f6(c)[0] == 44);
                    assert(b@.skip(i as int) == dec(c.iat) + sfx_f6(c));
                }
            }
            return None;
        },
    };
    let j1 = match eat_frag_exp(b, j0) {
        Some(j) => j,
        None => {
            proof {
                assert forall|c: AuthView|
                    claims_wf(c) && b@.skip(i as int) == dec(c.iat) + sfx_f6(c) implies
                    false by {
                    assert(sfx_f6(c)[0] == 44);
                    assert(iat as int == c.iat && j0 == i + dec(c.iat).len());
                    assert(b@.skip(j0 as int) =~= b@.skip(i as int).skip((j0 - i) as int));
                    assert((dec(c.iat) + sfx_f6(c)).skip(dec(c.iat).len() as int)
                        =~= sfx_f6(c));
                    assert(sfx_f6(c) =~= frag_exp() + sfx_exp(c));
                }
            }
            return None;
        },
    };
    let (expv, j2) = match parse_dec(b, j1) {
        Some(x) => x,
        None => {
            proof {
                assert forall|c: AuthView|
                    claims_wf(c) && b@.skip(i as int) == dec(c.iat) + sfx_f6(c) implies
                    false by {
                    assert(sfx_f6(c)[0] == 44);
                    assert(iat as int == c.iat && j0 == i + dec(c.iat).len());
                    assert(b@.skip(j0 as int) =~= b@.skip(i as int).skip((j0 - i) as int));
                    assert((dec(c.iat) + sfx_f6(c)).skip(dec(c.iat).len() as int)
                        =~= sfx_f6(c));
                    assert(sfx_f6(c) =~= frag_exp() + sfx_exp(c));
                    assert(b@.skip(j0 as int) == frag_exp() + sfx_exp(c));
                    assert(j1 == j0 + 7);
                    assert(b@.skip(j1 as int) =~= b@.skip(j0 as int).skip(7));
                    assert((frag_exp() + sfx_exp(c)).skip(7) =~= sfx_exp(c));
                    assert(sfx_exp(c) =~= dec(c.exp) + seq![125u8]);
                    assert(!is_digit(seq![125u8][0]));
                    assert(b@.skip(j1 as int) == dec(c.exp) + seq![125u8]);
                }
            }
            return None;
        },
    };
    if !(j2 < b.len() && b[j2] == 125 && j2 + 1 == b.len()) {
        proof {
            assert forall|c: AuthView|
                claims_wf(c) && b@.skip(i as int) == dec(c.iat) + sfx_f6(c) implies false by {
                assert(sfx_f6(c)[0] == 44);
                assert(iat as int == c.iat && j0 == i + dec(c.iat).len());
                assert(b@.skip(j0 as int) =~= b@.skip(i as int).skip((j0 - i) as int));
                assert((dec(c.iat) + sfx_f6(c)).skip(dec(c.iat).len() as int) =~= sfx_f6(c));
                assert(sfx_f6(c) =~= frag_exp() + sfx_exp(c));
                assert(b@.skip(j0 as int) == frag_exp() + sfx_exp(c));
                assert(j1 == j0 + 7);
                assert(b@.skip(j1 as int) =~= b@.skip(j0 as int).skip(7));
                assert((frag_exp() + sfx_exp(c)).skip(7) =~= sfx_exp(c));
                assert(sfx_exp(c) =~= dec(c.exp) + seq![125u8]);
                assert(!is_digit(seq![125u8][0]));
                assert(b@.skip(j1 as int) == dec(c.exp) + seq![125u8]);
                assert(expv as int == c.exp && j2 == j1 + dec(c.exp).len());
                assert(b@.skip(j2 as int) =~= b@.skip(j1 as int).skip((j2 - j1) as int));
                assert((dec(c.exp) + seq![125u8]).skip(dec(c.exp).len() as int)
                    =~= seq![125u8]);
                assert(b@.skip(j2 as int) == seq![125u8]);
                assert(b@.len() == j2 + 1);
                assert(b@[j2 as int] == 125);
            }
        }
        return None;
    }
    proof {
        assert(b@.subrange(j2 as int, b@.len() as int) =~= seq![125u8]);
        assert(b@.skip(i as int) =~= b@.subrange(i as int, j0 as int) + b@.subrange(j0 as int,
            j1 as int) + b@.subrange(j1 as int, j2 as int) + b@.subrange(j2 as int,
            b@.len() as int));
        assert(b@.skip(i as int) =~= dec(iat as int) + frag_exp() + dec(expv as int)
            + seq![125u8]);
        assert forall|c: AuthView|
            claims_wf(c) && b@.skip(i as int) == dec(c.iat) + sfx_f6(c) implies iat as int
            == c.iat && expv as int == c.exp by {
            assert(sfx_f6(c)[0] == 44);
            assert(iat as int == c.iat && j0 == i + dec(c.iat).len());
            assert(b@.skip(j0 as int) =~= b@.skip(i as int).skip((j0 - i) as int));
            assert((dec(c.iat) + sfx_f6(c)).skip(dec(c.iat).len() as int) =~= sfx_f6(c));
            assert(sfx_f6(c) =~= frag_exp() + sfx_exp(c));
            assert(b@.skip(j0 as int) == frag_exp() + sfx_exp(c));
            assert(j1 == j0 + 7);
            assert(b@.skip(j1 as int) =~= b@.skip(j0 as int).skip(7));
            assert((frag_exp() + sfx_exp(c)).skip(7) =~= sfx_exp(c));
            assert(sfx_exp(c) =~= dec(c.exp) + seq![125u8]);
            assert(!is_digit(seq![125u8][0]));
            assert(b@.skip(j1 as int) == dec(c.exp) + seq![125u8]);
            assert(expv as int == c.exp);
        }
    }
    Some((iat, expv))
}

/// Reads back the claims object produced by `serialize_claims`, and accepts
/// nothing else.
#[verifier::rlimit(100)]
#[verifier::spinoff_prover]
pub fn parse_claims(b: &[u8]) -> (r: Option<UserAuth>)
    ensures
        r is Some ==> claims_wf(r.unwrap()@) && b@ == claims_bytes(r.unwrap()@),
        forall|c: AuthView| claims_wf(c) && b@ == claims_bytes(c) ==> r is Some
            && r.unwrap()@ == c,
{
    let (s1, ja) = match pc_sub(b) {
        Some(x) => x,
        None => {
            proof {
                assert forall|c: AuthView| claims_wf(c) && b@ == claims_bytes(c) implies
                    false by {
                    lemma_claims_splits_a(b@, c);
                }
            }
            return None;
        },
    };
    let (s2, jb) = match pc_login(b, ja) {
        Some(x) => x,
        None => {
            proof {
                assert forall|c: AuthView| claims_wf(c) && b@ == claims_bytes(c) implies
                    false by {
                    lemma_claims_splits_a(b@, c);
                    assert(b@.skip(ja as int) == frag_login().skip(1) + sfx_e2(c));
                }
            }
            return None;
        },
    };
    let (s3, jc) = match pc_session(b, jb) {
        Some(x) => x,
        None => {
            proof {
                assert forall|c: AuthView| claims_wf(c) && b@ == claims_bytes(c) implies
                    false by {
                    lemma_claims_splits_a(b@, c);
                    assert(b@.skip(ja as int) == frag_login().skip(1) + sfx_e2(c));
                    assert(b@.skip(jb as int) == frag_session().skip(1) + sfx_e3(c));
                }
            }
            return None;
        },
    };
    let (perms, jd) = match pc_permsblock(b, jc) {
        Some(x) => x,
        None => {
            proof {
                assert forall|c: AuthView| claims_wf(c) && b@ == claims_bytes(c) implies
                    false by {
                    lemma_claims_splits_a(b@, c);
                    assert(b@.skip(ja as int) == frag_login().skip(1) + sfx_e2(c));
                    assert(b@.skip(jb as int) == frag_session().skip(1) + sfx_e3(c));
                    assert(b@.skip(jc as int) == frag_perms().skip(1) + sfx_pb(c));
                }
            }
            return None;
        },
    };
    let (iat, expv) = match pc_nums(b, jd) {
        Some(x) => x,
        None => {
            proof {
                assert forall|c: AuthView| claims_wf(c) && b@ == claims_bytes(c) implies
                    false by {
                    lemma_claims_splits_a(b@, c);
                    assert(b@.skip(ja as int) == frag_login().skip(1) + sfx_e2(c));
                    assert(b@.skip(jb as int) == frag_session().skip(1) + sfx_e3(c));
                    assert(b@.skip(jc as int) == frag_perms().skip(1) + sfx_pb(c));
                    assert(b@.skip(jd as int) == dec(c.iat) + sfx_f6(c));
                }
            }
            return None;
        },
    };
    let ua = UserAuth {
        sub: s1,
        login_id: s2,
        session_id: s3,
        permissions: perms,
        iat,
        exp: expv,
    };
    proof {
        assert(b@ =~= b@.subrange(0, ja as int) + b@.subrange(ja as int, jb as int)
            + b@.subrange(jb as int, jc as int) + b@.subrange(jc as int, jd as int)
            + b@.skip(jd as int));
        assert(ua@.permissions == perms.deep_view());
        assert(b@ =~= claims_bytes(ua@));
        assert forall|c: AuthView| claims_wf(c) && b@ == claims_bytes(c) implies ua@
            == c by {
            lemma_claims_splits_a(b@, c);
            assert(b@.skip(ja as int) == frag_login().skip(1) + sfx_e2(c));
            assert(b@.skip(jb as int) == frag_session().skip(1) + sfx_e3(c));
            assert(b@.skip(jc as int) == frag_perms().skip(1) + sfx_pb(c));
            assert(b@.skip(jd as int) == dec(c.iat) + sfx_f6(c));
            assert(s1@ == c.sub && s2@ == c.login_id && s3@ == c.session_id
                && perms.deep_view() == c.permissions && iat as int == c.iat
                && expv as int == c.exp);
            assert(ua@ =~= c);
        }
    }
    Some(ua)
}

/// Writes the claims as the JSON object that the token layer signs.
#[verifier::rlimit(50)]
pub fn serialize_claims(c: &UserAuth) -> (r: Vec<u8>)
    requires
        claims_wf(c@),
    ensures
        r@ == claims_bytes(c@),
{
    let mut out: Vec<u8> = Vec::new();
    push_frag_sub(&mut out);
    push_escaped(&mut out, c.sub.as_str());
    push_frag_login(&mut out);
    push_escaped(&mut out, c.login_id.as_str());
    push_frag_session(&mut out);
    push_escaped(&mut out, c.session_id.as_str());
    push_frag_perms(&mut out);
    push_perms(&mut out, &c.permissions);
    push_frag_iat(&mut out);
    push_dec(&mut out, c.iat);
    push_frag_exp(&mut out);
    push_dec(&mut out, c.exp);
    out.push(125);
    proof {
        assert(out@ =~= claims_bytes(c@));
    }
    out
}

} // verus!
