//! Constraints on the operands and results of an operation, and the check of
//! a list of types against them.

use vstd::prelude::*;
use crate::attribute::Variadicity;
use crate::types::{clone_type, types_equal, Type, TypeView};

verus! {

/// A predicate on the type of one value.
#[derive(Debug)]
pub enum TypeConstraint {
    /// Every type is accepted.
    Any,
    /// Exactly the given type is accepted.
    Is(Type),
    /// Integers of every width are accepted.
    AnyInteger,
}

/// The mathematical value of a [`TypeConstraint`].
pub enum TypeConstraintView {
    Any,
    Is(TypeView),
    AnyInteger,
}

impl View for TypeConstraint {
    type V = TypeConstraintView;

    open spec fn view(&self) -> TypeConstraintView {
        match self {
            TypeConstraint::Any => TypeConstraintView::Any,
            TypeConstraint::Is(ty) => TypeConstraintView::Is(ty@),
            TypeConstraint::AnyInteger => TypeConstraintView::AnyInteger,
        }
    }
}

impl TypeConstraintView {
    /// Whether the predicate holds of the type `ty`.
    pub open spec fn accepts(self, ty: TypeView) -> bool {
        match self {
            TypeConstraintView::Any => true,
            TypeConstraintView::Is(wanted) => ty == wanted,
            TypeConstraintView::AnyInteger => ty is Integer,
        }
    }
}

impl TypeConstraint {
    /// Whether the predicate holds of the type `ty`.
    pub fn accepts(&self, ty: &Type) -> (accepted: bool)
        ensures
            accepted == self@.accepts(ty@),
    {
        match self {
            TypeConstraint::Any => true,
            TypeConstraint::Is(wanted) => types_equal(ty, wanted),
            TypeConstraint::AnyInteger => ty.integer_width().is_some(),
        }
    }
}

impl Clone for TypeConstraint {
    fn clone(&self) -> (copy: Self)
        ensures
            copy@ == self@,
    {
        match self {
            TypeConstraint::Any => TypeConstraint::Any,
            TypeConstraint::Is(ty) => TypeConstraint::Is(clone_type(ty)),
            TypeConstraint::AnyInteger => TypeConstraint::AnyInteger,
        }
    }
}

/// One place in the list of operands or results that a constraint describes:
/// a predicate, and how many values the place stands for.
#[derive(Debug)]
pub struct Slot {
    pub accepts: TypeConstraint,
    pub variadicity: Variadicity,
}

/// The mathematical value of a [`Slot`].
pub struct SlotView {
    pub accepts: TypeConstraintView,
    pub variadicity: Variadicity,
}

impl View for Slot {
    type V = SlotView;

    open spec fn view(&self) -> SlotView {
        SlotView { accepts: self.accepts@, variadicity: self.variadicity }
    }
}

impl Slot {
    /// A place for exactly one value that `accepts` holds of.
    pub fn single(accepts: TypeConstraint) -> (slot: Slot)
        ensures
            slot@ == (SlotView { accepts: accepts@, variadicity: Variadicity::Single }),
    {
        Slot { accepts, variadicity: Variadicity::Single }
    }

    /// A place for at most one value that `accepts` holds of.
    pub fn optional(accepts: TypeConstraint) -> (slot: Slot)
        ensures
            slot@ == (SlotView { accepts: accepts@, variadicity: Variadicity::Optional }),
    {
        Slot { accepts, variadicity: Variadicity::Optional }
    }

    /// A place for any number of values, of each of which `accepts` holds.
    pub fn variadic(accepts: TypeConstraint) -> (slot: Slot)
        ensures
            slot@ == (SlotView { accepts: accepts@, variadicity: Variadicity::Variadic }),
    {
        Slot { accepts, variadicity: Variadicity::Variadic }
    }
}

impl Clone for Slot {
    fn clone(&self) -> (copy: Self)
        ensures
            copy@ == self@,
    {
        Slot { accepts: self.accepts.clone(), variadicity: self.variadicity }
    }
}

/// The views of a list of slots, in order.
pub open spec fn slots_view(slots: Seq<Slot>) -> Seq<SlotView> {
    Seq::new(slots.len(), |k: int| slots[k]@)
}

/// A copy of a list of slots.
pub fn clone_slots(slots: &Vec<Slot>) -> (copy: Vec<Slot>)
    ensures
        slots_view(copy@) == slots_view(slots@),
{
    let mut copy: Vec<Slot> = Vec::new();
    let mut k: usize = 0;
    while k < slots.len()
        invariant
            k <= slots.len(),
            copy@.len() == k,
            forall|j: int| 0 <= j < k ==> copy@[j]@ == slots@[j]@,
        decreases slots.len() - k,
    {
        copy.push(slots[k].clone());
        k += 1;
    }
    assert(slots_view(copy@) =~= slots_view(slots@));
    copy
}

/// The number of slots that stand for exactly one value.
pub open spec fn singles(slots: Seq<SlotView>) -> nat
    decreases slots.len(),
{
    if slots.len() == 0 {
        0
    } else {
        let first: nat = if slots[0].variadicity == Variadicity::Single {
            1
        } else {
            0
        };
        first + singles(slots.drop_first())
    }
}

/// The number of slots that stand for at most one value.
pub open spec fn optionals(slots: Seq<SlotView>) -> nat
    decreases slots.len(),
{
    if slots.len() == 0 {
        0
    } else {
        let first: nat = if slots[0].variadicity == Variadicity::Optional {
            1
        } else {
            0
        };
        first + optionals(slots.drop_first())
    }
}

/// Whether one of the slots stands for any number of values.
pub open spec fn has_variadic(slots: Seq<SlotView>) -> bool {
    exists|i: int| 0 <= i < slots.len() && (#[trigger] slots[i]).variadicity == Variadicity::Variadic
}

/// Whether the slots admit a list of `count` values: there is one value for
/// every single slot, and no more values than the slots can take.
pub open spec fn arity_ok(slots: Seq<SlotView>, count: nat) -> bool {
    &&& singles(slots) <= count
    &&& has_variadic(slots) || count <= singles(slots) + optionals(slots)
}

/// The position of the first value that is missing or in excess where the
/// slots do not admit `count` values.
pub open spec fn arity_fault(slots: Seq<SlotView>, count: nat) -> nat
    recommends
        !arity_ok(slots, count),
{
    if count < singles(slots) {
        count
    } else {
        singles(slots) + optionals(slots)
    }
}

/// How many of `left` values still to deal the first of `slots` takes: as
/// many as it may while one value is left for every single slot after it.
pub open spec fn share(slots: Seq<SlotView>, left: int) -> nat
    recommends
        slots.len() > 0,
{
    let spare = left - singles(slots.drop_first());
    match slots[0].variadicity {
        Variadicity::Single => 1,
        Variadicity::Optional => if spare >= 1 {
            1
        } else {
            0
        },
        Variadicity::Variadic => if spare >= 0 {
            spare as nat
        } else {
            0
        },
    }
}

/// Deals `left` values to `slots` from left to right and gives, for each
/// value in order, the number of the slot that takes it. `first` is the
/// number of the first of `slots`.
pub open spec fn deal(slots: Seq<SlotView>, left: int, first: int) -> Seq<int>
    decreases slots.len(),
{
    if slots.len() == 0 {
        Seq::empty()
    } else {
        let take = share(slots, left);
        Seq::new(take, |k: int| first) + deal(slots.drop_first(), left - take, first + 1)
    }
}

/// Whether the value at `position` of `types` has a type that the slot
/// taking it accepts.
pub open spec fn fits(slots: Seq<SlotView>, types: Seq<TypeView>, position: int) -> bool {
    slots[deal(slots, types.len() as int, 0)[position]].accepts.accepts(types[position])
}

/// Whether a list of types satisfies a list of slots: the slots admit their
/// number, and each type is accepted by the slot that takes it.
pub open spec fn satisfies(slots: Seq<SlotView>, types: Seq<TypeView>) -> bool {
    &&& arity_ok(slots, types.len())
    &&& forall|position: int| 0 <= position < types.len() ==> fits(slots, types, position)
}

/// What is wrong with a list of values held against a list of slots.
#[derive(Clone, Copy, Debug, PartialEq, Eq, Structural)]
pub enum Fault {
    /// The number of values: the position of the first missing or in excess.
    Count { position: usize },
    /// The type of the value at this position.
    Kind { position: usize },
}

/// The fault that [`check_types`] reports for `types` held against `slots`:
/// a wrong number of values before any wrong type, and of wrong types the
/// first.
pub open spec fn fault_of(slots: Seq<SlotView>, types: Seq<TypeView>) -> Option<Fault> {
    if !arity_ok(slots, types.len()) {
        Some(Fault::Count { position: arity_fault(slots, types.len()) as usize })
    } else if exists|position: int| 0 <= position < types.len() && !fits(slots, types, position) {
        let first = choose|position: int|
            0 <= position < types.len() && !fits(slots, types, position) && forall|earlier: int|
                0 <= earlier < position ==> fits(slots, types, earlier);
        Some(Fault::Kind { position: first as usize })
    } else {
        None
    }
}

/// Where the slots admit the number of values, every value is dealt to a
/// slot that exists.
pub proof fn lemma_deal_len(slots: Seq<SlotView>, left: int, first: int)
    requires
        singles(slots) <= left,
        has_variadic(slots) || left <= singles(slots) + optionals(slots),
    ensures
        deal(slots, left, first).len() == left,
        forall|k: int|
            0 <= k < left ==> first <= (#[trigger] deal(slots, left, first)[k]) < first
                + slots.len(),
    decreases slots.len(),
{
    if slots.len() == 0 {
    } else {
        let rest = slots.drop_first();
        let take = share(slots, left);
        if has_variadic(slots) {
            let i = choose|i: int|
                0 <= i < slots.len() && (#[trigger] slots[i]).variadicity == Variadicity::Variadic;
            if i > 0 {
                assert(rest[i - 1] == slots[i]);
                assert(has_variadic(rest));
            }
        } else {
            if has_variadic(rest) {
                let i = choose|i: int|
                    0 <= i < rest.len() && (#[trigger] rest[i]).variadicity
                        == Variadicity::Variadic;
                assert(slots[i + 1] == rest[i]);
            }
        }
        lemma_deal_len(rest, left - take, first + 1);
        let head = Seq::new(take, |k: int| first);
        let tail = deal(rest, left - take, first + 1);
        assert forall|k: int| 0 <= k < left implies first <= (#[trigger] deal(
            slots,
            left,
            first,
        )[k]) < first + slots.len() by {
            if k < take {
                assert((head + tail)[k] == head[k]);
            } else {
                assert((head + tail)[k] == tail[k - take]);
            }
        }
    }
}

/// Holds a list of types against a list of slots.
///
/// `types[k]` is the type of the value at position `k`. The values are dealt
/// to the slots from left to right; a slot that may take fewer values takes
/// as many as it can while one value is left for every single slot after it.
/// The number of values is checked before their types.
pub fn check_types(slots: &Vec<Slot>, types: &Vec<&Type>) -> (fault: Option<Fault>)
    ensures
        fault == fault_of(slots_view(slots@), Seq::new(types@.len(), |k: int| types@[k]@)),
        fault is None <==> satisfies(
            slots_view(slots@),
            Seq::new(types@.len(), |k: int| types@[k]@),
        ),
{
    let ghost all = slots_view(slots@);
    let ghost kinds = Seq::new(types@.len(), |k: int| types@[k]@);
    let count = types.len();
    // Count the single and the optional slots, and look for a variadic one.
    let mut single_count: usize = 0;
    let mut optional_count: usize = 0;
    let mut variadic = false;
    let mut i: usize = 0;
    proof {
        assert(all.subrange(0, all.len() as int) =~= all);
    }
    while i < slots.len()
        invariant
            i <= slots.len(),
            all == slots_view(slots@),
            single_count + optional_count <= i,
            singles(all) == single_count + singles(all.subrange(i as int, all.len() as int)),
            optionals(all) == optional_count + optionals(
                all.subrange(i as int, all.len() as int),
            ),
            variadic <==> exists|j: int|
                0 <= j < i && (#[trigger] all[j]).variadicity == Variadicity::Variadic,
        decreases slots.len() - i,
    {
        let ghost rest = all.subrange(i as int, all.len() as int);
        proof {
            assert(rest[0] == all[i as int]);
            assert(rest.drop_first() =~= all.subrange(i + 1, all.len() as int));
        }
        match slots[i].variadicity {
            Variadicity::Single => {
                single_count += 1;
            },
            Variadicity::Optional => {
                optional_count += 1;
            },
            Variadicity::Variadic => {
                variadic = true;
            },
        }
        i += 1;
    }
    assert(variadic == has_variadic(all));
    if count < single_count {
        return Some(Fault::Count { position: count });
    }
    if !variadic && count - single_count > optional_count {
        return Some(Fault::Count { position: single_count + optional_count });
    }
    assert(arity_ok(all, kinds.len()));
    proof {
        lemma_deal_len(all, count as int, 0);
    }
    // Deal the values to the slots and check each against the slot that takes it.
    let ghost dealt = deal(all, count as int, 0);
    let mut after: usize = single_count;
    let mut position: usize = 0;
    let mut i: usize = 0;
    while i < slots.len()
        invariant
            i <= slots.len(),
            position <= count,
            count == types@.len(),
            all == slots_view(slots@),
            kinds == Seq::new(types@.len(), |k: int| types@[k]@),
            dealt == deal(all, count as int, 0),
            dealt.len() == count,
            after == singles(all.subrange(i as int, all.len() as int)),
            after <= count - position,
            has_variadic(all.subrange(i as int, all.len() as int)) || count - position <= after
                + optionals(all.subrange(i as int, all.len() as int)),
            arity_ok(all, kinds.len()),
            forall|k: int|
                position <= k < count ==> (#[trigger] dealt[k]) == deal(
                    all.subrange(i as int, all.len() as int),
                    count - position,
                    i as int,
                )[k - position],
            deal(all.subrange(i as int, all.len() as int), count - position, i as int).len()
                == count - position,
            forall|k: int| 0 <= k < position ==> fits(all, kinds, k),
        decreases slots.len() - i,
    {
        let ghost rest = all.subrange(i as int, all.len() as int);
        let ghost tail = rest.drop_first();
        proof {
            assert(rest[0] == all[i as int]);
            assert(tail =~= all.subrange(i + 1, all.len() as int));
            if has_variadic(rest) {
                let j = choose|j: int|
                    0 <= j < rest.len() && (#[trigger] rest[j]).variadicity
                        == Variadicity::Variadic;
                if j > 0 {
                    assert(tail[j - 1] == rest[j]);
                }
            } else if has_variadic(tail) {
                let j = choose|j: int|
                    0 <= j < tail.len() && (#[trigger] tail[j]).variadicity
                        == Variadicity::Variadic;
                assert(rest[j + 1] == tail[j]);
            }
        }
        let slot = &slots[i];
        let take: usize = match slot.variadicity {
            Variadicity::Single => {
                after -= 1;
                1
            },
            Variadicity::Optional => {
                if count - position > after {
                    1
                } else {
                    0
                }
            },
            Variadicity::Variadic => count - position - after,
        };
        assert(take == share(rest, count - position));
        let ghost here = deal(rest, count - position, i as int);
        let ghost next = deal(tail, count - position - take, i + 1);
        proof {
            lemma_deal_len(tail, count - position - take, i + 1);
            assert(here == Seq::new(take as nat, |k: int| i as int) + next);
            assert forall|k: int| position <= k < position + take implies (#[trigger] dealt[k])
                == i by {
                assert(dealt[k] == here[k - position]);
            }
        }
        let mut taken: usize = 0;
        while taken < take
            invariant
                taken <= take,
                position + take <= count,
                i < slots.len(),
                count == types@.len(),
                slot == slots@[i as int],
                all == slots_view(slots@),
                kinds == Seq::new(types@.len(), |k: int| types@[k]@),
                dealt.len() == count,
                arity_ok(all, kinds.len()),
                forall|k: int| position <= k < position + take ==> (#[trigger] dealt[k]) == i,
                forall|k: int| 0 <= k < position + taken ==> fits(all, kinds, k),
                dealt == deal(all, count as int, 0),
            decreases take - taken,
        {
            if !slot.accepts.accepts(types[position + taken]) {
                proof {
                    let bad = (position + taken) as int;
                    assert(!fits(all, kinds, bad));
                    assert(!satisfies(all, kinds));
                    lemma_first_misfit(all, kinds, bad);
                }
                return Some(Fault::Kind { position: position + taken });
            }
            taken += 1;
        }
        proof {
            assert forall|k: int| position + take <= k < count implies (#[trigger] dealt[k])
                == next[k - (position + take)] by {
                assert(dealt[k] == here[k - position]);
            }
        }
        position += take;
        i += 1;
    }
    proof {
        assert(all.subrange(all.len() as int, all.len() as int) =~= Seq::<SlotView>::empty());
        assert(position == count);
    }
    None
}

/// A position that does not fit, with every earlier one fitting, is the one
/// that [`fault_of`] names.
pub proof fn lemma_first_misfit(slots: Seq<SlotView>, types: Seq<TypeView>, position: int)
    requires
        arity_ok(slots, types.len()),
        0 <= position < types.len(),
        !fits(slots, types, position),
        forall|earlier: int| 0 <= earlier < position ==> fits(slots, types, earlier),
        types.len() <= usize::MAX,
    ensures
        fault_of(slots, types) == Some(Fault::Kind { position: position as usize }),
{
    let first = choose|p: int|
        0 <= p < types.len() && !fits(slots, types, p) && forall|earlier: int|
            0 <= earlier < p ==> fits(slots, types, earlier);
    assert(first == position) by {
        if first < position {
            assert(fits(slots, types, first));
        } else if position < first {
            assert(fits(slots, types, position));
        }
    }
}

} // verus!
