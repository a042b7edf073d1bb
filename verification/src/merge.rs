//! Merging the parameters of a path with those of one of its operations.

use vstd::prelude::*;
use crate::command_tree::{params_view, ParamDef, ParamModel};
use crate::text::{
    lemma_text_lt_irreflexive, lemma_text_lt_total, lemma_text_lt_transitive, same_text,
    text_before, text_lt,
};

verus! {

/// Whether two parameters have the same key: name and location.
pub open spec fn same_key(a: ParamModel, b: ParamModel) -> bool {
    a.name == b.name && a.location == b.location
}

/// The order of parameters by key: by name, then by location.
pub open spec fn key_lt(a: ParamModel, b: ParamModel) -> bool {
    text_lt(a.name, b.name) || (a.name == b.name && text_lt(a.location, b.location))
}

/// `p` put into the key-ordered run `sorted`: in place of the entry with its
/// key where there is one, else before the first entry with a greater key.
pub open spec fn upsert(sorted: Seq<ParamModel>, p: ParamModel) -> Seq<ParamModel>
    decreases sorted.len(),
{
    if sorted.len() == 0 {
        seq![p]
    } else if key_lt(p, sorted[0]) {
        seq![p] + sorted
    } else if same_key(p, sorted[0]) {
        seq![p] + sorted.drop_first()
    } else {
        seq![sorted[0]] + upsert(sorted.drop_first(), p)
    }
}

/// `items` put into `acc` one after the other, first to last.
pub open spec fn upsert_all(acc: Seq<ParamModel>, items: Seq<ParamModel>) -> Seq<ParamModel>
    decreases items.len(),
{
    if items.len() == 0 {
        acc
    } else {
        upsert(upsert_all(acc, items.drop_last()), items.last())
    }
}

/// The parameters of an operation: those of its path overridden by its own,
/// one per key, in key order.
pub open spec fn merged(base: Seq<ParamModel>, overrides: Seq<ParamModel>) -> Seq<ParamModel> {
    upsert_all(upsert_all(Seq::empty(), base), overrides)
}

/// Every entry of `s` has a key above that of `x`.
pub open spec fn key_below_all(x: ParamModel, s: Seq<ParamModel>) -> bool {
    forall|i: int| 0 <= i < s.len() ==> key_lt(x, #[trigger] s[i])
}

/// Strictly ascending by key, so that no key occurs twice.
pub open spec fn key_sorted(s: Seq<ParamModel>) -> bool {
    forall|i: int, j: int| 0 <= i < j < s.len() ==> key_lt(#[trigger] s[i], #[trigger] s[j])
}

/// The first entry of `s` with the key (`name`, `location`).
pub open spec fn find_key(s: Seq<ParamModel>, name: Seq<char>, location: Seq<char>) -> Option<
    ParamModel,
>
    decreases s.len(),
{
    if s.len() == 0 {
        None
    } else if s[0].name == name && s[0].location == location {
        Some(s[0])
    } else {
        find_key(s.drop_first(), name, location)
    }
}

/// The last entry of `s` with the key (`name`, `location`).
pub open spec fn last_with_key(
    s: Seq<ParamModel>,
    name: Seq<char>,
    location: Seq<char>,
) -> Option<ParamModel>
    decreases s.len(),
{
    if s.len() == 0 {
        None
    } else if s.last().name == name && s.last().location == location {
        Some(s.last())
    } else {
        last_with_key(s.drop_last(), name, location)
    }
}

/// The key order is transitive.
pub proof fn lemma_key_lt_transitive(a: ParamModel, b: ParamModel, c: ParamModel)
    requires
        key_lt(a, b),
        key_lt(b, c),
    ensures
        key_lt(a, c),
{
    if text_lt(a.name, b.name) && text_lt(b.name, c.name) {
        lemma_text_lt_transitive(a.name, b.name, c.name);
    }
    if a.name == b.name && b.name == c.name {
        lemma_text_lt_irreflexive(a.name);
        lemma_text_lt_transitive(a.location, b.location, c.location);
    }
}

/// Two parameters have the same key or are ordered one way, never both.
pub proof fn lemma_key_lt_total(a: ParamModel, b: ParamModel)
    ensures
        same_key(a, b) || key_lt(a, b) || key_lt(b, a),
        same_key(a, b) ==> !key_lt(a, b) && !key_lt(b, a),
{
    lemma_text_lt_total(a.name, b.name);
    lemma_text_lt_total(a.location, b.location);
    lemma_text_lt_irreflexive(a.name);
    lemma_text_lt_irreflexive(a.location);
}

/// Putting a parameter into a key-ordered run keeps it key-ordered.
pub proof fn lemma_upsert_sorted(s: Seq<ParamModel>, p: ParamModel)
    requires
        key_sorted(s),
    ensures
        key_sorted(upsert(s, p)),
        forall|x: ParamModel| key_below_all(x, s) && key_lt(x, p) ==> key_below_all(x, upsert(s, p)),
    decreases s.len(),
{
    let out = upsert(s, p);
    if s.len() == 0 {
    } else if key_lt(p, s[0]) {
        assert forall|i: int, j: int| 0 <= i < j < out.len() implies key_lt(
            #[trigger] out[i],
            #[trigger] out[j],
        ) by {
            if i == 0 {
                if j > 1 {
                    lemma_key_lt_transitive(p, s[0], s[j - 1]);
                }
            }
        }
    } else if same_key(p, s[0]) {
        assert forall|i: int, j: int| 0 <= i < j < out.len() implies key_lt(
            #[trigger] out[i],
            #[trigger] out[j],
        ) by {
            if i == 0 {
                assert(key_lt(s[0], s[j]));
            } else {
                assert(key_lt(s[i], s[j]));
            }
        }
        assert forall|x: ParamModel| key_below_all(x, s) && key_lt(x, p) implies key_below_all(
            x,
            out,
        ) by {
            assert forall|i: int| 0 <= i < out.len() implies key_lt(x, #[trigger] out[i]) by {
                if i > 0 {
                    assert(out[i] == s[i]);
                }
            }
        }
    } else {
        let rest = s.drop_first();
        assert(key_sorted(rest)) by {
            assert forall|i: int, j: int| 0 <= i < j < rest.len() implies key_lt(
                #[trigger] rest[i],
                #[trigger] rest[j],
            ) by {
                assert(key_lt(s[i + 1], s[j + 1]));
            }
        }
        lemma_upsert_sorted(rest, p);
        lemma_key_lt_total(p, s[0]);
        let tail = upsert(rest, p);
        assert(key_below_all(s[0], rest)) by {
            assert forall|i: int| 0 <= i < rest.len() implies key_lt(s[0], #[trigger] rest[i]) by {
                assert(key_lt(s[0], s[i + 1]));
            }
        }
        assert(key_below_all(s[0], tail));
        assert forall|i: int, j: int| 0 <= i < j < out.len() implies key_lt(
            #[trigger] out[i],
            #[trigger] out[j],
        ) by {
            if i == 0 {
                assert(out[j] == tail[j - 1]);
            } else {
                assert(out[i] == tail[i - 1] && out[j] == tail[j - 1]);
            }
        }
        assert forall|x: ParamModel| key_below_all(x, s) && key_lt(x, p) implies key_below_all(
            x,
            out,
        ) by {
            assert(key_below_all(x, rest)) by {
                assert forall|i: int| 0 <= i < rest.len() implies key_lt(x, #[trigger] rest[i]) by {
                    assert(rest[i] == s[i + 1]);
                }
            }
            assert forall|i: int| 0 <= i < out.len() implies key_lt(x, #[trigger] out[i]) by {
                if i == 0 {
                    assert(out[0] == s[0]);
                } else {
                    assert(out[i] == tail[i - 1]);
                }
            }
        }
    }
}

/// After a parameter is put in, its key finds it, and every other key finds
/// what it found before.
pub proof fn lemma_upsert_find(
    s: Seq<ParamModel>,
    p: ParamModel,
    name: Seq<char>,
    location: Seq<char>,
)
    ensures
        find_key(upsert(s, p), name, location) == if p.name == name && p.location == location {
            Some(p)
        } else {
            find_key(s, name, location)
        },
    decreases s.len(),
{
    let out = upsert(s, p);
    if s.len() == 0 {
        assert(out[0] == p);
        assert(out.drop_first() =~= Seq::<ParamModel>::empty());
        assert(find_key(out.drop_first(), name, location) is None);
    } else if key_lt(p, s[0]) {
        assert(out[0] == p);
        assert(out.drop_first() =~= s);
    } else if same_key(p, s[0]) {
        assert(out[0] == p);
        assert(out.drop_first() =~= s.drop_first());
    } else {
        lemma_upsert_find(s.drop_first(), p, name, location);
        assert(out[0] == s[0]);
        assert(out.drop_first() =~= upsert(s.drop_first(), p));
    }
}

/// Putting a run of parameters in keeps key order, and each key then finds
/// the last of the run with that key, or what it found before.
pub proof fn lemma_upsert_all(
    acc: Seq<ParamModel>,
    items: Seq<ParamModel>,
    name: Seq<char>,
    location: Seq<char>,
)
    requires
        key_sorted(acc),
    ensures
        key_sorted(upsert_all(acc, items)),
        find_key(upsert_all(acc, items), name, location) == match last_with_key(
            items,
            name,
            location,
        ) {
            Some(p) => Some(p),
            None => find_key(acc, name, location),
        },
    decreases items.len(),
{
    if items.len() > 0 {
        lemma_upsert_all(acc, items.drop_last(), name, location);
        lemma_upsert_sorted(upsert_all(acc, items.drop_last()), items.last());
        lemma_upsert_find(upsert_all(acc, items.drop_last()), items.last(), name, location);
    }
}

/// Merged parameters are strictly ascending by key, so no key occurs twice.
pub proof fn lemma_merged_sorted(base: Seq<ParamModel>, overrides: Seq<ParamModel>)
    ensures
        key_sorted(merged(base, overrides)),
{
    let none = Seq::<char>::empty();
    lemma_upsert_all(Seq::empty(), base, none, none);
    lemma_upsert_all(upsert_all(Seq::empty(), base), overrides, none, none);
}

/// Override semantics: a key finds the operation's own last parameter with
/// that key where there is one, whole and not field by field; else the
/// path's last parameter with that key; else nothing.
pub proof fn lemma_merged_find(
    base: Seq<ParamModel>,
    overrides: Seq<ParamModel>,
    name: Seq<char>,
    location: Seq<char>,
)
    ensures
        find_key(merged(base, overrides), name, location) == match last_with_key(
            overrides,
            name,
            location,
        ) {
            Some(p) => Some(p),
            None => last_with_key(base, name, location),
        },
{
    lemma_upsert_all(Seq::empty(), base, name, location);
    lemma_upsert_all(upsert_all(Seq::empty(), base), overrides, name, location);
}

fn key_before(a: &ParamDef, b: &ParamDef) -> (r: bool)
    ensures
        r == key_lt(a@, b@),
{
    if text_before(a.name.as_str(), b.name.as_str()) {
        true
    } else if same_text(a.name.as_str(), b.name.as_str()) {
        text_before(a.location.as_str(), b.location.as_str())
    } else {
        false
    }
}

fn key_same(a: &ParamDef, b: &ParamDef) -> (r: bool)
    ensures
        r == same_key(a@, b@),
{
    same_text(a.name.as_str(), b.name.as_str()) && same_text(
        a.location.as_str(),
        b.location.as_str(),
    )
}

/// Puts `p` into the key-ordered `acc`.
fn upsert_param(acc: &mut Vec<ParamDef>, p: ParamDef)
    ensures
        params_view(final(acc)@) == upsert(params_view(old(acc)@), p@),
{
    let ghost before = params_view(acc@);
    let mut i: usize = 0;
    assert(before.skip(0) =~= before);
    assert(before.take(0) + upsert(before.skip(0), p@) =~= upsert(before, p@));
    while i < acc.len()
        invariant
            i <= acc.len(),
            acc@ == old(acc)@,
            before == params_view(acc@),
            before.take(i as int) + upsert(before.skip(i as int), p@) == upsert(before, p@),
        decreases acc.len() - i,
    {
        let ghost rest = before.skip(i as int);
        assert(rest[0] == acc@[i as int]@);
        if key_before(&p, &acc[i]) {
            acc.insert(i, p);
            assert(params_view(acc@) =~= before.take(i as int) + (seq![p@] + rest));
            return;
        }
        if key_same(&p, &acc[i]) {
            acc.set(i, p);
            assert(params_view(acc@) =~= before.take(i as int) + (seq![p@] + rest.drop_first()));
            return;
        }
        assert(rest.drop_first() =~= before.skip(i + 1));
        assert(before.take(i as int) + (seq![rest[0]] + upsert(rest.drop_first(), p@))
            =~= before.take(i + 1) + upsert(before.skip(i + 1), p@));
        i += 1;
    }
    acc.push(p);
    assert(params_view(acc@) =~= before.take(i as int) + seq![p@]);
}

/// Puts every parameter of `items` into the key-ordered `acc`, first to last.
fn upsert_params(acc: &mut Vec<ParamDef>, items: Vec<ParamDef>)
    ensures
        params_view(final(acc)@) == upsert_all(params_view(old(acc)@), params_view(items@)),
{
    let ghost start = params_view(acc@);
    let ghost models = params_view(items@);
    let ghost all = items@;
    assert(models.take(0) =~= Seq::<ParamModel>::empty());
    for p in it: items
        invariant
            it.seq() == all,
            models == params_view(all),
            params_view(acc@) == upsert_all(start, models.take(it.index())),
    {
        assert(models.take(it.index() + 1).drop_last() =~= models.take(it.index()));
        assert(models.take(it.index() + 1).last() == p@);
        upsert_param(acc, p);
    }
    assert(models.take(all.len() as int) =~= models);
}

/// Merges the parameters declared for a path with those declared for one of
/// its operations. A parameter is keyed by name and location; an override
/// with a key replaces the base parameter with that key as a whole, and
/// where a list repeats a key its last entry counts. The result holds each
/// key once, in ascending order of (name, location).
pub fn merge_parameters(base: Vec<ParamDef>, override_params: Vec<ParamDef>) -> (out: Vec<
    ParamDef,
>)
    ensures
        params_view(out@) == merged(params_view(base@), params_view(override_params@)),
        key_sorted(params_view(out@)),
{
    let mut out: Vec<ParamDef> = Vec::new();
    assert(params_view(out@) =~= Seq::<ParamModel>::empty());
    proof {
        lemma_merged_sorted(params_view(base@), params_view(override_params@));
    }
    upsert_params(&mut out, base);
    upsert_params(&mut out, override_params);
    out
}

} // verus!
