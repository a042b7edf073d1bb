//! Naming an operation so that no two operations of a resource share a name.

use vstd::prelude::*;
use vstd::set_lib::lemma_len_subset;
use crate::command_tree::{find_operation, lemma_name_position, op_names, Resource};
use crate::text::{
    decimal, decimal_text, joined, lemma_decimal_injective, lowered, to_lower,
};

verus! {

/// The second name tried for an operation: its base name, a dash, and its
/// method in lower case.
pub open spec fn qualified(base: Seq<char>, method: Seq<char>) -> Seq<char> {
    base + seq!['-'] + lowered(method)
}

/// The names tried after that: the qualified name, a dash, and a number.
pub open spec fn numbered(candidate: Seq<char>, k: nat) -> Seq<char> {
    candidate + seq!['-'] + decimal(k)
}

/// The least number from `k` on whose numbered name is not among `names`.
/// The search never needs to go past `names.len() + 2`, where it stops.
pub open spec fn first_free_number(names: Seq<Seq<char>>, candidate: Seq<char>, k: nat) -> nat
    decreases names.len() + 3 - k,
{
    if k > names.len() + 2 || !names.contains(numbered(candidate, k)) {
        k
    } else {
        first_free_number(names, candidate, k + 1)
    }
}

/// The name an operation gets beside the operations called `names`: its
/// base name where that is free, else the qualified name where that is free,
/// else the qualified name with the first free number from 2 on.
pub open spec fn unique_name(names: Seq<Seq<char>>, base: Seq<char>, method: Seq<char>) -> Seq<
    char,
> {
    if !names.contains(base) {
        base
    } else if !names.contains(qualified(base, method)) {
        qualified(base, method)
    } else {
        numbered(qualified(base, method), first_free_number(names, qualified(base, method), 2))
    }
}

/// The numbered names for `count` numbers from `from` on.
pub open spec fn numbered_set(candidate: Seq<char>, from: nat, count: nat) -> Set<Seq<char>>
    decreases count,
{
    if count == 0 {
        Set::empty()
    } else {
        numbered_set(candidate, from, (count - 1) as nat).insert(
            numbered(candidate, (from + count - 1) as nat),
        )
    }
}

proof fn lemma_numbered_injective(candidate: Seq<char>, a: nat, b: nat)
    requires
        numbered(candidate, a) == numbered(candidate, b),
    ensures
        a == b,
{
    assert(numbered(candidate, a).skip(candidate.len() as int + 1) =~= decimal(a));
    assert(numbered(candidate, b).skip(candidate.len() as int + 1) =~= decimal(b));
    lemma_decimal_injective(a, b);
}

proof fn lemma_numbered_set(candidate: Seq<char>, from: nat, count: nat)
    ensures
        numbered_set(candidate, from, count).finite(),
        numbered_set(candidate, from, count).len() == count,
        forall|t: Seq<char>| #[trigger]
            numbered_set(candidate, from, count).contains(t) ==> exists|k: nat|
                from <= k < from + count && t == numbered(candidate, k),
    decreases count,
{
    if count > 0 {
        let fewer = numbered_set(candidate, from, (count - 1) as nat);
        let last = numbered(candidate, (from + count - 1) as nat);
        lemma_numbered_set(candidate, from, (count - 1) as nat);
        if fewer.contains(last) {
            let k = choose|k: nat| from <= k < from + count - 1 && last == numbered(candidate, k);
            lemma_numbered_injective(candidate, k, (from + count - 1) as nat);
        }
        assert forall|t: Seq<char>| #[trigger] fewer.insert(last).contains(t) implies exists|
            k: nat,
        |
            from <= k < from + count && t == numbered(candidate, k) by {
            if t == last {
                let top = (from + count - 1) as nat;
                assert(from <= top && top < from + count && t == numbered(candidate, top));
            } else {
                let k = choose|k: nat| from <= k < from + count - 1 && t == numbered(candidate, k);
                assert(from <= k < from + count && t == numbered(candidate, k));
            }
        }
    }
}

/// Numbered names differ from one another, so a list of `n` names holds at
/// most `n` of them.
proof fn lemma_numbered_bound(names: Seq<Seq<char>>, candidate: Seq<char>, from: nat, count: nat)
    requires
        forall|k: nat| from <= k < from + count ==> names.contains(#[trigger] numbered(candidate, k)),
    ensures
        count <= names.len(),
{
    let tried = numbered_set(candidate, from, count);
    lemma_numbered_set(candidate, from, count);
    assert(tried.subset_of(names.to_set())) by {
        assert forall|t: Seq<char>| tried.contains(t) implies names.to_set().contains(t) by {
            let k = choose|k: nat| from <= k < from + count && t == numbered(candidate, k);
            assert(names.contains(numbered(candidate, k)));
        }
    }
    vstd::seq_lib::seq_to_set_is_finite(names);
    lemma_len_subset(tried, names.to_set());
    names.lemma_cardinality_of_set();
}

/// The search for a free number succeeds: the number found is at most
/// `names.len() + 2`, its numbered name is not among `names`, and every
/// number from `k` up to it names one of `names`.
pub proof fn lemma_first_free_number(names: Seq<Seq<char>>, candidate: Seq<char>, k: nat)
    requires
        2 <= k <= names.len() + 2,
        forall|j: nat| 2 <= j < k ==> names.contains(#[trigger] numbered(candidate, j)),
    ensures
        k <= first_free_number(names, candidate, k) <= names.len() + 2,
        !names.contains(numbered(candidate, first_free_number(names, candidate, k))),
        forall|j: nat|
            2 <= j < first_free_number(names, candidate, k) ==> names.contains(
                #[trigger] numbered(candidate, j),
            ),
    decreases names.len() + 3 - k,
{
    if names.contains(numbered(candidate, k)) {
        if k == names.len() + 2 {
            lemma_numbered_bound(names, candidate, 2, (names.len() + 1) as nat);
        } else {
            lemma_first_free_number(names, candidate, k + 1);
        }
    }
}

/// The name that `unique_name` picks is never among the names it was given.
pub proof fn lemma_unique_name_free(names: Seq<Seq<char>>, base: Seq<char>, method: Seq<char>)
    ensures
        !names.contains(unique_name(names, base, method)),
{
    lemma_first_free_number(names, qualified(base, method), 2);
}

fn has_operation(resource: &Resource, name: &str) -> (r: bool)
    ensures
        r == op_names(resource@.ops).contains(name@),
{
    proof {
        lemma_name_position(op_names(resource@.ops), name@);
    }
    find_operation(&resource.ops, name) < resource.ops.len()
}

/// Picks the name for an operation that joins `resource`: `base` where no
/// operation of the resource has that name; else `base-method`, the method
/// in lower case; else `base-method-2`, `base-method-3` and so on, the first
/// that is free. The name returned is never one the resource already holds.
pub fn unique_op_name(resource: &Resource, base: &str, method: &str) -> (out: String)
    ensures
        out@ == unique_name(op_names(resource@.ops), base@, method@),
        !op_names(resource@.ops).contains(out@),
{
    let ghost names = op_names(resource@.ops);
    proof {
        lemma_unique_name_free(names, base@, method@);
        reveal_strlit("-");
        assert("-"@ =~= seq!['-']);
    }
    if !has_operation(resource, base) {
        return base.to_owned();
    }
    let lower = to_lower(method);
    let stem = joined(base, "-");
    let candidate = joined(stem.as_str(), lower.as_str());
    assert(candidate@ == qualified(base@, method@));
    if !has_operation(resource, candidate.as_str()) {
        return candidate;
    }
    let prefix = joined(candidate.as_str(), "-");
    let mut idx: u128 = 2;
    loop
        invariant
            2 <= idx <= names.len() + 2,
            names == op_names(resource@.ops),
            names.len() == resource.ops.len(),
            prefix@ == candidate@ + seq!['-'],
            unique_name(names, base@, method@) == numbered(
                candidate@,
                first_free_number(names, candidate@, 2),
            ),
            !names.contains(unique_name(names, base@, method@)),
            forall|j: nat| 2 <= j < idx ==> names.contains(#[trigger] numbered(candidate@, j)),
            first_free_number(names, candidate@, 2) == first_free_number(names, candidate@, idx as nat),
        decreases names.len() + 3 - idx,
    {
        let number = decimal_text(idx);
        let next = joined(prefix.as_str(), number.as_str());
        assert(next@ == numbered(candidate@, idx as nat));
        if !has_operation(resource, next.as_str()) {
            return next;
        }
        proof {
            lemma_first_free_number(names, candidate@, idx as nat);
        }
        idx += 1;
    }
}

} // verus!
