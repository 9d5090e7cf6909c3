//! The reordering engine.
//!
//! Given an array of optional type-tagged slots (one per record field, in
//! declaration order, already-consumed entries holding `None`) and an
//! ordered list of target type tokens, the engine produces the slots
//! permuted into the target order, or an empty result when some target
//! cannot be matched.  Each target position claims the first remaining
//! slot with the matching token and removes it, so a duplicated target
//! token consumes distinct field occurrences.

use vstd::prelude::*;

use crate::slot::Slot;
use crate::slot::TypeToken;

verus! {

/// Whether an (optional) slot is still present and carries token `t`.
pub open spec fn slot_matches(c: Option<Slot>, t: TypeToken) -> bool {
    c is Some && c->0.token == t
}

/// Position of the first remaining slot carrying token `t`, if any.
pub open spec fn first_match(comps: Seq<Option<Slot>>, t: TypeToken) -> Option<int>
    decreases comps.len(),
{
    if comps.len() == 0 {
        None
    } else if slot_matches(comps[0], t) {
        Some(0)
    } else {
        match first_match(comps.skip(1), t) {
            None => None,
            Some(p) => Some(p + 1),
        }
    }
}

/// How many remaining slots carry token `t`.
pub open spec fn token_count(comps: Seq<Option<Slot>>, t: TypeToken) -> nat
    decreases comps.len(),
{
    if comps.len() == 0 {
        0
    } else {
        (if slot_matches(comps[0], t) {
            1nat
        } else {
            0nat
        }) + token_count(comps.skip(1), t)
    }
}

/// How many times token `t` is requested by the target order.
pub open spec fn order_count(order: Seq<TypeToken>, t: TypeToken) -> nat
    decreases order.len(),
{
    if order.len() == 0 {
        0
    } else {
        (if order[0] == t {
            1nat
        } else {
            0nat
        }) + order_count(order.skip(1), t)
    }
}

/// The engine's result: for each target token, in order, claim the first
/// remaining slot with that token and remove it; `None` as soon as one
/// target cannot be matched.
pub open spec fn reorder_spec(comps: Seq<Option<Slot>>, order: Seq<TypeToken>) -> Option<Seq<Slot>>
    decreases order.len(),
{
    if order.len() == 0 {
        Some(Seq::empty())
    } else {
        match first_match(comps, order[0]) {
            None => None,
            Some(p) => {
                match reorder_spec(comps.update(p, None), order.skip(1)) {
                    None => None,
                    Some(rest) => Some(seq![comps[p]->0] + rest),
                }
            },
        }
    }
}

/// `Some(r)` prefixed with already-claimed slots; `None` stays `None`.
spec fn with_prefix(prefix: Seq<Slot>, rest: Option<Seq<Slot>>) -> Option<Seq<Slot>> {
    match rest {
        None => None,
        Some(r) => Some(prefix + r),
    }
}

pub(crate) proof fn lemma_first_match_props(comps: Seq<Option<Slot>>, t: TypeToken)
    ensures
        match first_match(comps, t) {
            Some(p) => 0 <= p < comps.len() && slot_matches(comps[p], t) && (forall|m: int|
                0 <= m < p ==> !slot_matches(comps[m], t)),
            None => forall|m: int| 0 <= m < comps.len() ==> !slot_matches(comps[m], t),
        },
    decreases comps.len(),
{
    if comps.len() == 0 {
    } else if slot_matches(comps[0], t) {
    } else {
        lemma_first_match_props(comps.skip(1), t);
        assert forall|m: int| 0 <= m < comps.len() && !slot_matches(comps.skip(1)[m - 1], t) && m
            >= 1 implies !slot_matches(comps[m], t) by {
            assert(comps.skip(1)[m - 1] == comps[m]);
        }
    }
}

pub(crate) proof fn lemma_first_match_found(comps: Seq<Option<Slot>>, t: TypeToken, k: int)
    requires
        0 <= k < comps.len(),
        slot_matches(comps[k], t),
        forall|m: int| 0 <= m < k ==> !slot_matches(comps[m], t),
    ensures
        first_match(comps, t) == Some(k),
    decreases k,
{
    if k == 0 {
    } else {
        assert(!slot_matches(comps[0], t));
        assert(comps.skip(1)[k - 1] == comps[k]);
        assert forall|m: int| 0 <= m < k - 1 implies !slot_matches(comps.skip(1)[m], t) by {
            assert(comps.skip(1)[m] == comps[m + 1]);
        }
        lemma_first_match_found(comps.skip(1), t, k - 1);
    }
}

/// Law: a successful reorder has exactly one output slot per target, and
/// the output follows the *target* order: the slot at position `i`
/// carries the `i`-th requested token.
pub proof fn lemma_reorder_order_preserved(comps: Seq<Option<Slot>>, order: Seq<TypeToken>)
    requires
        reorder_spec(comps, order) is Some,
    ensures
        reorder_spec(comps, order)->0.len() == order.len(),
        forall|i: int|
            0 <= i < order.len() ==> reorder_spec(comps, order)->0[i].token == order[i],
    decreases order.len(),
{
    if order.len() == 0 {
    } else {
        let p = first_match(comps, order[0])->0;
        lemma_first_match_props(comps, order[0]);
        lemma_reorder_order_preserved(comps.update(p, None), order.skip(1));
        let r = reorder_spec(comps, order)->0;
        let rest = reorder_spec(comps.update(p, None), order.skip(1))->0;
        assert forall|i: int| 0 <= i < order.len() implies r[i].token == order[i] by {
            if i > 0 {
                assert(r[i] == rest[i - 1]);
                assert(order.skip(1)[i - 1] == order[i]);
            }
        }
    }
}

/// Law: every slot of a successful reorder is one of the input slots.
pub proof fn lemma_reorder_slots_from_input(comps: Seq<Option<Slot>>, order: Seq<TypeToken>)
    requires
        reorder_spec(comps, order) is Some,
    ensures
        forall|k: int|
            0 <= k < reorder_spec(comps, order)->0.len() ==> exists|m: int|
                0 <= m < comps.len() && comps[m] == Some(
                    #[trigger] reorder_spec(comps, order)->0[k],
                ),
    decreases order.len(),
{
    if order.len() == 0 {
    } else {
        let p = first_match(comps, order[0])->0;
        lemma_first_match_props(comps, order[0]);
        let comps2 = comps.update(p, None);
        lemma_reorder_slots_from_input(comps2, order.skip(1));
        let r = reorder_spec(comps, order)->0;
        let rest = reorder_spec(comps2, order.skip(1))->0;
        assert forall|k: int| 0 <= k < r.len() implies exists|m: int|
            0 <= m < comps.len() && comps[m] == Some(#[trigger] r[k]) by {
            if k == 0 {
                assert(comps[p] == Some(r[0]));
            } else {
                assert(r[k] == rest[k - 1]);
                let m = choose|m: int| 0 <= m < comps2.len() && comps2[m] == Some(rest[k - 1]);
                assert(comps[m] == Some(r[k]));
            }
        }
    }
}

/// No two remaining input slots point at the same field.  This holds of
/// every slot array a record hands out, since each physical field
/// contributes exactly one slot.
pub open spec fn distinct_fields(comps: Seq<Option<Slot>>) -> bool {
    forall|i: int, j: int|
        0 <= i < j < comps.len() && comps[i] is Some && comps[j] is Some ==> comps[i]->0.field
            != comps[j]->0.field
}

/// Law: when the input slots reference pairwise distinct fields, so do
/// the slots of a successful reorder.  A target order that names the same
/// type twice is therefore satisfied by two *distinct* fields, never by
/// one field handed out twice; an exclusive extraction can never alias.
pub proof fn lemma_reorder_distinct_fields(comps: Seq<Option<Slot>>, order: Seq<TypeToken>)
    requires
        distinct_fields(comps),
        reorder_spec(comps, order) is Some,
    ensures
        forall|i: int, j: int|
            0 <= i < j < reorder_spec(comps, order)->0.len() ==> reorder_spec(
                comps,
                order,
            )->0[i].field != reorder_spec(comps, order)->0[j].field,
    decreases order.len(),
{
    if order.len() == 0 {
    } else {
        let p = first_match(comps, order[0])->0;
        lemma_first_match_props(comps, order[0]);
        let s = comps[p]->0;
        let comps2 = comps.update(p, None);
        assert(distinct_fields(comps2));
        lemma_reorder_distinct_fields(comps2, order.skip(1));
        lemma_reorder_slots_from_input(comps2, order.skip(1));
        let r = reorder_spec(comps, order)->0;
        let rest = reorder_spec(comps2, order.skip(1))->0;
        assert forall|i: int, j: int| 0 <= i < j < r.len() implies r[i].field != r[j].field by {
            if i == 0 {
                assert(rest[j - 1] == r[j]);
                let m = choose|m: int| 0 <= m < comps2.len() && comps2[m] == Some(rest[j - 1]);
                assert(m != p);
                assert(comps[m] == Some(r[j]));
                assert(r[j].field != s.field);
            } else {
                assert(r[i] == rest[i - 1] && r[j] == rest[j - 1]);
            }
        }
    }
}

proof fn lemma_token_count_update(comps: Seq<Option<Slot>>, p: int)
    requires
        0 <= p < comps.len(),
        comps[p] is Some,
    ensures
        forall|t: TypeToken|
            token_count(comps.update(p, None), t) + (if slot_matches(comps[p], t) {
                1nat
            } else {
                0nat
            }) == token_count(comps, t),
    decreases comps.len(),
{
    let comps2 = comps.update(p, None);
    if p == 0 {
        assert(comps2.skip(1) =~= comps.skip(1));
        assert forall|t: TypeToken|
            token_count(comps2, t) + (if slot_matches(comps[0], t) {
                1nat
            } else {
                0nat
            }) == token_count(comps, t) by {
            assert(!slot_matches(comps2[0], t));
        }
    } else {
        lemma_token_count_update(comps.skip(1), p - 1);
        assert(comps2.skip(1) =~= comps.skip(1).update(p - 1, None));
        assert forall|t: TypeToken|
            token_count(comps2, t) + (if slot_matches(comps[p], t) {
                1nat
            } else {
                0nat
            }) == token_count(comps, t) by {
            assert(comps.skip(1)[p - 1] == comps[p]);
            assert(comps2[0] == comps[0]);
            assert(token_count(comps2, t) == (if slot_matches(comps2[0], t) {
                1nat
            } else {
                0nat
            }) + token_count(comps2.skip(1), t));
            assert(token_count(comps, t) == (if slot_matches(comps[0], t) {
                1nat
            } else {
                0nat
            }) + token_count(comps.skip(1), t));
            assert(token_count(comps2.skip(1), t) == token_count(
                comps.skip(1).update(p - 1, None),
                t,
            ));
            assert(token_count(comps.skip(1).update(p - 1, None), t) + (if slot_matches(
                comps.skip(1)[p - 1],
                t,
            ) {
                1nat
            } else {
                0nat
            }) == token_count(comps.skip(1), t));
        }
    }
}

proof fn lemma_first_match_count(comps: Seq<Option<Slot>>, t: TypeToken)
    ensures
        first_match(comps, t) is Some <==> token_count(comps, t) >= 1,
    decreases comps.len(),
{
    if comps.len() == 0 {
    } else if slot_matches(comps[0], t) {
    } else {
        lemma_first_match_count(comps.skip(1), t);
    }
}

/// Law: the engine succeeds exactly when no target token is requested
/// more often than remaining slots carry it.  In particular a token that
/// no slot carries fails the whole query, and a token requested twice
/// needs two distinct slot occurrences.
pub proof fn lemma_reorder_succeeds_iff(comps: Seq<Option<Slot>>, order: Seq<TypeToken>)
    ensures
        reorder_spec(comps, order) is Some <==> (forall|t: TypeToken|
            order_count(order, t) <= token_count(comps, t)),
    decreases order.len(),
{
    if order.len() == 0 {
        assert forall|t: TypeToken| order_count(order, t) <= token_count(comps, t) by {
            assert(order_count(order, t) == 0);
        }
    } else {
        let t0 = order[0];
        lemma_first_match_count(comps, t0);
        match first_match(comps, t0) {
            None => {
                assert(order_count(order, t0) >= 1);
                assert(token_count(comps, t0) == 0);
            },
            Some(p) => {
                lemma_first_match_props(comps, t0);
                let comps2 = comps.update(p, None);
                lemma_token_count_update(comps, p);
                lemma_reorder_succeeds_iff(comps2, order.skip(1));
                assert forall|t: TypeToken|
                    order_count(order, t) <= token_count(comps, t) <==> order_count(
                        order.skip(1),
                        t,
                    ) <= token_count(comps2, t) by {
                    assert(order_count(order, t) == order_count(order.skip(1), t) + (
                    if t == t0 {
                        1nat
                    } else {
                        0nat
                    }));
                    assert(token_count(comps, t) == token_count(comps2, t) + (
                    if t == t0 {
                        1nat
                    } else {
                        0nat
                    }));
                }
            },
        }
    }
}

/// Law: a target order that names a token carried by no remaining slot
/// makes the whole reorder fail; no partial result is ever produced.
pub proof fn lemma_missing_type_fails(comps: Seq<Option<Slot>>, order: Seq<TypeToken>, j: int)
    requires
        0 <= j < order.len(),
        forall|m: int| 0 <= m < comps.len() ==> !slot_matches(comps[m], #[trigger] order[j]),
    ensures
        reorder_spec(comps, order) is None,
{
    lemma_token_count_zero(comps, order[j]);
    lemma_order_count_member(order, j);
    lemma_reorder_succeeds_iff(comps, order);
}

/// A token carried by no remaining slot has count zero, and conversely.
pub proof fn lemma_token_count_zero(comps: Seq<Option<Slot>>, t: TypeToken)
    ensures
        token_count(comps, t) == 0 <==> (forall|m: int|
            0 <= m < comps.len() ==> !slot_matches(comps[m], t)),
    decreases comps.len(),
{
    if comps.len() == 0 {
    } else {
        lemma_token_count_zero(comps.skip(1), t);
        if token_count(comps, t) == 0 {
            assert forall|m: int| 0 <= m < comps.len() implies !slot_matches(comps[m], t) by {
                if m >= 1 {
                    assert(comps.skip(1)[m - 1] == comps[m]);
                }
            }
        } else {
            if !slot_matches(comps[0], t) {
                let m = choose|m: int|
                    0 <= m < comps.skip(1).len() && slot_matches(comps.skip(1)[m], t);
                assert(slot_matches(comps[m + 1], t));
            }
        }
    }
}

proof fn lemma_order_count_member(order: Seq<TypeToken>, j: int)
    requires
        0 <= j < order.len(),
    ensures
        order_count(order, order[j]) >= 1,
    decreases j,
{
    if j == 0 {
    } else {
        assert(order.skip(1)[j - 1] == order[j]);
        lemma_order_count_member(order.skip(1), j - 1);
    }
}

/// Scan for the first remaining slot whose token equals `t`.
fn find_first_match(comps: &Vec<Option<Slot>>, t: TypeToken) -> (r: Option<usize>)
    ensures
        match r {
            Some(k) => first_match(comps@, t) == Some(k as int),
            None => first_match(comps@, t) is None,
        },
{
    let mut k: usize = 0;
    while k < comps.len()
        invariant
            0 <= k <= comps@.len(),
            forall|m: int| 0 <= m < k ==> !slot_matches(comps@[m], t),
        decreases comps@.len() - k,
    {
        match &comps[k] {
            Some(s) => {
                if s.token == t {
                    proof {
                        lemma_first_match_found(comps@, t, k as int);
                    }
                    return Some(k);
                }
            },
            None => {},
        }
        k = k + 1;
    }
    proof {
        lemma_first_match_props(comps@, t);
    }
    None
}

/// Permute `components` into the order given by `type_order`.
///
/// Targets are satisfied left to right; each claims the first remaining
/// slot whose token matches and removes it from the array, so a token
/// requested twice is satisfied by two distinct field occurrences.  When
/// any target cannot be matched the whole call fails and the result is
/// empty, never a partial permutation.
pub fn reorder_components(components: Vec<Option<Slot>>, type_order: &Vec<TypeToken>) -> (result:
    Vec<Slot>)
    ensures
        reorder_spec(components@, type_order@) matches Some(r) ==> result@ == r,
        reorder_spec(components@, type_order@) is None ==> result@.len() == 0,
{
    let ghost comps0 = components@;
    let mut comps = components;
    let mut result: Vec<Slot> = Vec::new();
    let mut j: usize = 0;
    proof {
        assert(type_order@.skip(0) =~= type_order@);
        assert(result@ + reorder_spec(comps@, type_order@)->0 =~= reorder_spec(
            comps@,
            type_order@,
        )->0);
    }
    while j < type_order.len()
        invariant
            0 <= j <= type_order@.len(),
            result@.len() == j,
            comps0 == components@,
            reorder_spec(comps0, type_order@) == with_prefix(
                result@,
                reorder_spec(comps@, type_order@.skip(j as int)),
            ),
        decreases type_order@.len() - j,
    {
        let ghost tail = type_order@.skip(j as int);
        let t = type_order[j];
        assert(tail[0] == t);
        match find_first_match(&comps, t) {
            Some(p) => {
                proof {
                    lemma_first_match_props(comps@, t);
                }
                let s = match &comps[p] {
                    Some(s) => *s,
                    None => vstd::pervasive::unreached(),
                };
                let ghost comps_before = comps@;
                comps.set(p, None);
                result.push(s);
                proof {
                    assert(comps@ =~= comps_before.update(p as int, None));
                    assert(tail.skip(1) =~= type_order@.skip(j + 1));
                    match reorder_spec(comps@, type_order@.skip(j + 1)) {
                        None => {
                            assert(reorder_spec(comps_before, tail) is None);
                        },
                        Some(rest) => {
                            assert(reorder_spec(comps_before, tail) == Some(seq![s] + rest));
                            assert(result@ + rest =~= result@.drop_last() + (seq![s] + rest));
                        },
                    }
                }
            },
            None => {
                proof {
                    assert(reorder_spec(comps@, tail) is None);
                }
                return Vec::new();
            },
        }
        j = j + 1;
    }
    proof {
        assert(type_order@.skip(j as int) =~= Seq::<TypeToken>::empty());
        assert(result@ + Seq::<Slot>::empty() =~= result@);
    }
    result
}

} // verus!
