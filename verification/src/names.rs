//! The display names of the ranked users, out of the names that the caller
//! holds.

use std::collections::HashMap;
use vstd::prelude::*;
use vstd::string::StringExecFns;
use crate::mean::MeanUsage;
use crate::text::{join_lines, lemma_join_lines_step, push_newline};

verus! {

/// A user for whom the names at hand hold no entry.
#[derive(Clone, Copy, Debug, PartialEq, Eq, Structural)]
pub struct UnknownUser {
    pub uid: u32,
}

/// What `names` holds for one user.
pub open spec fn name_of(names: Map<u32, String>, uid: u32) -> Option<String> {
    if names.contains_key(uid) {
        Some(names[uid])
    } else {
        None
    }
}

/// Entry by entry, the user of `ranked` and what `names` holds for that user.
pub open spec fn looked_up(ranked: Seq<(u32, MeanUsage)>, names: Map<u32, String>) -> Seq<
    (u32, Option<String>),
> {
    Seq::new(ranked.len(), |i: int| (ranked[i].0, name_of(names, ranked[i].0)))
}

/// The name of every entry, in the order of the entries; nothing where the
/// user has none.
pub open spec fn name_lines(resolved: Seq<(u32, Option<String>)>) -> Seq<Seq<char>> {
    Seq::new(
        resolved.len(),
        |i: int|
            match resolved[i].1 {
                Some(name) => name@,
                None => Seq::<char>::empty(),
            },
    )
}

/// Every user has a name.
pub open spec fn all_resolved(resolved: Seq<(u32, Option<String>)>) -> bool {
    forall|i: int| #![trigger resolved[i]] 0 <= i < resolved.len() ==> resolved[i].1 is Some
}

/// Entry `i` is the first whose user has no name.
pub open spec fn is_first_unresolved(resolved: Seq<(u32, Option<String>)>, i: int) -> bool {
    &&& 0 <= i < resolved.len()
    &&& resolved[i].1 is None
    &&& forall|j: int| #![trigger resolved[j]] 0 <= j < i ==> resolved[j].1 is Some
}

/// What the names come to: the names joined, one to a line, where every user
/// has one; else the first user who has none.
pub open spec fn names_result(
    resolved: Seq<(u32, Option<String>)>,
    result: Result<String, UnknownUser>,
) -> bool {
    match result {
        Ok(text) => all_resolved(resolved) && text@ == join_lines(name_lines(resolved)),
        Err(unknown) => exists|i: int|
            #![trigger resolved[i]]
            is_first_unresolved(resolved, i) && unknown.uid == resolved[i].0,
    }
}

/// Every user of the list has a name exactly where `names` holds every user
/// of the list.
pub proof fn lemma_all_resolved(ranked: Seq<(u32, MeanUsage)>, names: Map<u32, String>)
    ensures
        all_resolved(looked_up(ranked, names)) <==> forall|i: int|
            #![trigger ranked[i]]
            0 <= i < ranked.len() ==> names.contains_key(ranked[i].0),
{
    let resolved = looked_up(ranked, names);
    if all_resolved(resolved) {
        assert forall|i: int| #![trigger ranked[i]] 0 <= i < ranked.len() implies names.contains_key(
            ranked[i].0,
        ) by {
            assert(resolved[i].1 is Some);
        }
    }
}

/// Pairs every ranked user with the user's name, where `names` holds one.
pub fn look_up(usage_vec: &[(u32, MeanUsage)], names: &HashMap<u32, String>) -> (resolved: Vec<
    (u32, Option<String>),
>)
    ensures
        resolved@ == looked_up(usage_vec@, names@),
{
    broadcast use vstd::std_specs::hash::group_hash_axioms;

    let mut resolved: Vec<(u32, Option<String>)> = Vec::new();
    let mut i: usize = 0;
    while i < usage_vec.len()
        invariant
            i <= usage_vec@.len(),
            resolved@.len() == i,
            forall|j: int|
                #![trigger resolved@[j]]
                0 <= j < i ==> resolved@[j] == looked_up(usage_vec@, names@)[j],
        decreases usage_vec@.len() - i,
    {
        let uid: u32 = usage_vec[i].0;
        let name: Option<String> = match names.get(&uid) {
            Some(name) => Some(name.clone()),
            None => None,
        };
        resolved.push((uid, name));
        i += 1;
    }
    proof {
        assert(resolved@ =~= looked_up(usage_vec@, names@));
    }
    resolved
}

/// Joins the names, one to a line, in the order of the entries. A single user
/// without a name fails the whole: the first such user is handed back.
pub fn format_names(resolved: &Vec<(u32, Option<String>)>) -> (result: Result<String, UnknownUser>)
    ensures
        names_result(resolved@, result),
{
    let ghost lines = name_lines(resolved@);
    let mut name_string: String = String::new();
    let mut i: usize = 0;
    while i < resolved.len()
        invariant
            i <= resolved@.len(),
            lines == name_lines(resolved@),
            forall|j: int| #![trigger resolved@[j]] 0 <= j < i ==> resolved@[j].1 is Some,
            name_string@ == join_lines(lines.take(i as int)),
        decreases resolved@.len() - i,
    {
        proof {
            lemma_join_lines_step(lines, i as int);
        }
        match &resolved[i].1 {
            Some(name) => {
                if i > 0 {
                    push_newline(&mut name_string);
                }
                name_string.append(name.as_str());
                proof {
                    assert(lines[i as int] == name@);
                    if i == 0 {
                        assert(name_string@ =~= name@);
                    }
                }
            },
            None => {
                proof {
                    assert(is_first_unresolved(resolved@, i as int));
                }
                return Err(UnknownUser { uid: resolved[i].0 });
            },
        }
        i += 1;
    }
    proof {
        assert(lines.take(resolved@.len() as int) =~= lines);
    }
    Ok(name_string)
}

/// The display names of the ranked users, one to a line, in rank order; or
/// the first user for whom `names` holds none.
pub fn get_name_string(usage_vec: &[(u32, MeanUsage)], names: &HashMap<u32, String>) -> (result:
    Result<String, UnknownUser>)
    ensures
        names_result(looked_up(usage_vec@, names@), result),
        result is Ok <==> forall|i: int|
            #![trigger usage_vec@[i]]
            0 <= i < usage_vec@.len() ==> names@.contains_key(usage_vec@[i].0),
{
    let resolved: Vec<(u32, Option<String>)> = look_up(usage_vec, names);
    proof {
        lemma_all_resolved(usage_vec@, names@);
    }
    format_names(&resolved)
}

} // verus!
