//! The optional pass over a few common credentials before the full sweep.

use vstd::prelude::*;
use crate::request::pairs_view;
use crate::sweep::ScanResult;
use crate::text::{list_contains, strings_view};

verus! {

/// Usernames tried first, in this order.
pub open spec fn common_users() -> Seq<Seq<char>> {
    seq!["admin"@, "administrator"@, "root"@, "user"@, "test"@]
}

/// Passwords tried first, in this order.
pub open spec fn common_passwords() -> Seq<Seq<char>> {
    seq!["admin"@, "123456"@, "password"@, "12345678"@, "123456789"@]
}

/// The candidates, in their order, that `given` holds.
pub open spec fn present(candidates: Seq<Seq<char>>, given: Seq<Seq<char>>) -> Seq<Seq<char>>
    decreases candidates.len(),
{
    if candidates.len() == 0 {
        Seq::empty()
    } else {
        present(candidates.drop_last(), given) + if given.contains(candidates.last()) {
            seq![candidates.last()]
        } else {
            Seq::empty()
        }
    }
}

/// Every username of `users` with every password of `passwords`, username by username.
pub open spec fn cross(users: Seq<Seq<char>>, passwords: Seq<Seq<char>>) -> Seq<(Seq<char>, Seq<char>)>
    decreases users.len(),
{
    if users.len() == 0 {
        Seq::empty()
    } else {
        cross(users.drop_last(), passwords) + passwords.map_values(|p: Seq<char>| (users.last(), p))
    }
}

/// The precheck's pairs: the common usernames that were given, each with the
/// common passwords that were given.
pub open spec fn precheck_space(users: Seq<Seq<char>>, passwords: Seq<Seq<char>>) -> Seq<(Seq<char>, Seq<char>)> {
    cross(present(common_users(), users), present(common_passwords(), passwords))
}

fn literal_list(which_users: bool) -> (r: Vec<String>)
    ensures
        strings_view(r@) == if which_users {
            common_users()
        } else {
            common_passwords()
        },
{
    let mut r: Vec<String> = Vec::new();
    if which_users {
        r.push("admin".to_owned());
        r.push("administrator".to_owned());
        r.push("root".to_owned());
        r.push("user".to_owned());
        r.push("test".to_owned());
        assert(strings_view(r@) =~= common_users());
    } else {
        r.push("admin".to_owned());
        r.push("123456".to_owned());
        r.push("password".to_owned());
        r.push("12345678".to_owned());
        r.push("123456789".to_owned());
        assert(strings_view(r@) =~= common_passwords());
    }
    r
}

fn keep_present(candidates: &Vec<String>, given: &Vec<String>) -> (r: Vec<String>)
    ensures
        strings_view(r@) == present(strings_view(candidates@), strings_view(given@)),
{
    let mut r: Vec<String> = Vec::new();
    let mut i: usize = 0;
    while i < candidates.len()
        invariant
            i <= candidates@.len(),
            strings_view(r@) == present(strings_view(candidates@.subrange(0, i as int)), strings_view(given@)),
        decreases candidates@.len() - i,
    {
        let ghost before = r@;
        let c = &candidates[i];
        let ghost cands = strings_view(candidates@.subrange(0, i + 1));
        assert(cands.drop_last() =~= strings_view(candidates@.subrange(0, i as int)));
        assert(cands.last() == c@);
        if list_contains(given, c.as_str()) {
            r.push(c.clone());
            assert(strings_view(r@) =~= strings_view(before) + seq![c@]);
        } else {
            assert(strings_view(r@) =~= strings_view(before) + Seq::<Seq<char>>::empty());
        }
        i += 1;
    }
    assert(candidates@.subrange(0, candidates@.len() as int) =~= candidates@);
    r
}

/// The pairs the precheck tries: the common usernames present in `users`,
/// in the common list's order, each with the common passwords present in
/// `passwords`, in theirs.
pub fn precheck_pairs(users: &Vec<String>, passwords: &Vec<String>) -> (r: Vec<(String, String)>)
    ensures
        pairs_view(r@) == precheck_space(strings_view(users@), strings_view(passwords@)),
{
    let us = keep_present(&literal_list(true), users);
    let ps = keep_present(&literal_list(false), passwords);
    let ghost pv = strings_view(ps@);
    let mut r: Vec<(String, String)> = Vec::new();
    let mut i: usize = 0;
    while i < us.len()
        invariant
            i <= us@.len(),
            pv == strings_view(ps@),
            pairs_view(r@) == cross(strings_view(us@.subrange(0, i as int)), pv),
        decreases us@.len() - i,
    {
        let ghost before = r@;
        let u = &us[i];
        let mut j: usize = 0;
        while j < ps.len()
            invariant
                j <= ps@.len(),
                pv == strings_view(ps@),
                pairs_view(r@) == pairs_view(before) + pv.subrange(0, j as int).map_values(
                    |p: Seq<char>| (u@, p),
                ),
            decreases ps@.len() - j,
        {
            let ghost mid = r@;
            r.push((u.clone(), ps[j].clone()));
            assert(pv.subrange(0, j + 1).map_values(|p: Seq<char>| (u@, p)) =~= pv.subrange(
                0,
                j as int,
            ).map_values(|p: Seq<char>| (u@, p)).push((u@, pv[j as int])));
            assert(pairs_view(r@) =~= pairs_view(mid).push((u@, pv[j as int])));
            j += 1;
        }
        let ghost uv = strings_view(us@.subrange(0, i + 1));
        assert(uv.drop_last() =~= strings_view(us@.subrange(0, i as int)));
        assert(uv.last() == u@);
        assert(pv.subrange(0, pv.len() as int) =~= pv);
        i += 1;
    }
    assert(us@.subrange(0, us@.len() as int) =~= us@);
    r
}

/// The results of the precheck that are kept: the successes, in order.
pub fn keep_successes(results: &Vec<ScanResult>) -> (r: Vec<ScanResult>)
    ensures
        r@ == results@.filter(|x: ScanResult| x.success),
{
    let mut r: Vec<ScanResult> = Vec::new();
    let mut i: usize = 0;
    while i < results.len()
        invariant
            i <= results@.len(),
            r@ == results@.subrange(0, i as int).filter(|x: ScanResult| x.success),
        decreases results@.len() - i,
    {
        proof {
            assert(results@.subrange(0, i + 1) =~= results@.subrange(0, i as int).push(results@[i as int]));
            results@.subrange(0, i as int).lemma_filter_push(results@[i as int], |x: ScanResult| x.success);
        }
        if results[i].success {
            r.push(results[i].copy());
        }
        i += 1;
    }
    assert(results@.subrange(0, results@.len() as int) =~= results@);
    r
}

} // verus!
