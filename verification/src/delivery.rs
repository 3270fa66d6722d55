//! What a run of completions amounts to: which deliveries are made, in which
//! order, and which messages stay in flight.

use vstd::prelude::*;
use crate::context::ProducerContext;
use crate::message::Completion;
use crate::report::DeliveryReport;

verus! {

/// One delivery: what the producer hands to its context for one completed
/// message.
pub struct Delivery<D> {
    /// The handle of the message.
    pub opaque: usize,
    /// What the engine reported of it.
    pub report: DeliveryReport,
    /// The delivery context that was sent along with it, if there was one.
    pub delivery_context: Option<D>,
}

/// A delivery context without its box.
pub open spec fn unboxed<D>(delivery_context: Option<Box<D>>) -> Option<D> {
    match delivery_context {
        Some(boxed) => Some(*boxed),
        None => None,
    }
}

/// The delivery that `completion` gives rise to while the messages `in_flight`
/// are in flight; it has a meaning where the message of the completion is one
/// of them.
pub open spec fn delivery_of<D>(
    in_flight: Map<usize, Option<Box<D>>>,
    completion: Completion,
) -> Delivery<D> {
    Delivery {
        opaque: completion.opaque,
        report: completion.spec_report(),
        delivery_context: unboxed(in_flight[completion.opaque]),
    }
}

/// The deliveries that a run of completions gives rise to, in their order,
/// while the messages `in_flight` are in flight. A completion is delivered
/// where its message is in flight when its turn comes; a message is in flight
/// no longer once a completion for it has been delivered.
pub open spec fn deliveries<D>(
    in_flight: Map<usize, Option<Box<D>>>,
    completions: Seq<Completion>,
) -> Seq<Delivery<D>>
    decreases completions.len(),
{
    if completions.len() == 0 {
        Seq::empty()
    } else {
        let first = completions[0];
        let rest = deliveries(in_flight.remove(first.opaque), completions.drop_first());
        if in_flight.contains_key(first.opaque) {
            seq![delivery_of(in_flight, first)] + rest
        } else {
            rest
        }
    }
}

/// The context `context` was handed `delivery`: its `delivery` was called with
/// the report and the delivery context of `delivery`, and returned.
pub open spec fn was_delivered<C: ProducerContext>(
    context: C,
    delivery: Delivery<C::DeliveryContext>,
) -> bool {
    call_ensures(C::delivery, (&context, delivery.report, delivery.delivery_context), ())
}

/// The handles that a run of completions names.
pub open spec fn handles_of(completions: Seq<Completion>) -> Set<usize> {
    Set::new(|h: usize| exists|i: int| 0 <= i < completions.len() && completions[i].opaque == h)
}

/// The messages still in flight after a run of completions: those that none
/// of the completions names.
pub open spec fn remaining<D>(
    in_flight: Map<usize, Option<Box<D>>>,
    completions: Seq<Completion>,
) -> Map<usize, Option<Box<D>>> {
    in_flight.remove_keys(handles_of(completions))
}

/// The messages that remain in flight after a run of completions are those
/// that remain after its first completion and then after the others; after no
/// completion, all remain.
pub proof fn lemma_remaining_unfolds<D>(
    in_flight: Map<usize, Option<Box<D>>>,
    completions: Seq<Completion>,
)
    ensures
        completions.len() == 0 ==> remaining(in_flight, completions) == in_flight,
        completions.len() > 0 ==> remaining(in_flight, completions) == remaining(
            in_flight.remove(completions[0].opaque),
            completions.drop_first(),
        ),
{
    if completions.len() == 0 {
        assert(remaining(in_flight, completions) =~= in_flight);
    } else {
        let first = completions[0].opaque;
        let rest = completions.drop_first();
        assert forall|h: usize| handles_of(completions).contains(h) <==> (h == first || handles_of(
            rest,
        ).contains(h)) by {
            if handles_of(completions).contains(h) {
                let i = choose|i: int| 0 <= i < completions.len() && completions[i].opaque == h;
                if i > 0 {
                    assert(rest[i - 1].opaque == h);
                }
            }
            if handles_of(rest).contains(h) {
                let i = choose|i: int| 0 <= i < rest.len() && rest[i].opaque == h;
                assert(completions[i + 1].opaque == h);
            }
        }
        assert(remaining(in_flight, completions) =~= remaining(in_flight.remove(first), rest));
    }
}

/// `k` is the place of the first completion in `completions` that names the
/// message with handle `opaque`.
pub open spec fn is_first_completion_of(completions: Seq<Completion>, k: int, opaque: usize) -> bool {
    &&& 0 <= k < completions.len()
    &&& completions[k].opaque == opaque
    &&& forall|j: int| 0 <= j < k ==> completions[j].opaque != opaque
}

/// `delivery` is the right delivery for one of the messages `in_flight`, given
/// the run `completions`: its message is in flight, its delivery context is the
/// one that was sent along with that message, and its report is made of the
/// first completion of the run that names the message.
pub open spec fn is_delivery_for<D>(
    in_flight: Map<usize, Option<Box<D>>>,
    completions: Seq<Completion>,
    delivery: Delivery<D>,
) -> bool {
    &&& in_flight.contains_key(delivery.opaque)
    &&& delivery.delivery_context == unboxed(in_flight[delivery.opaque])
    &&& exists|k: int|
        is_first_completion_of(completions, k, delivery.opaque) && delivery.report
            == completions[k].spec_report()
}

/// Each message is delivered exactly once: of the messages in flight, those
/// that a run of completions names get one delivery each, with their own
/// delivery context and the report of their first completion; no delivery is
/// made for anything else, none is made twice, and the messages that the run
/// does not name stay in flight as they are.
pub proof fn lemma_each_message_delivered_once<D>(
    in_flight: Map<usize, Option<Box<D>>>,
    completions: Seq<Completion>,
)
    ensures
        deliveries(in_flight, completions).len() <= completions.len(),
        forall|i: int, j: int|
            0 <= i < j < deliveries(in_flight, completions).len() ==> deliveries(
                in_flight,
                completions,
            )[i].opaque != deliveries(in_flight, completions)[j].opaque,
        forall|i: int|
            0 <= i < deliveries(in_flight, completions).len() ==> is_delivery_for(
                in_flight,
                completions,
                #[trigger] deliveries(in_flight, completions)[i],
            ),
        forall|h: usize|
            in_flight.contains_key(h) && #[trigger] handles_of(completions).contains(h)
                ==> exists|i: int|
                0 <= i < deliveries(in_flight, completions).len() && deliveries(
                    in_flight,
                    completions,
                )[i].opaque == h,
        forall|h: usize|
            in_flight.contains_key(h) && !handles_of(completions).contains(h) ==> (
            #[trigger] remaining(in_flight, completions).contains_key(h)) && remaining(
                in_flight,
                completions,
            )[h] == in_flight[h],
        forall|h: usize|
            #[trigger] remaining(in_flight, completions).contains_key(h) ==> in_flight.contains_key(
                h,
            ) && !handles_of(completions).contains(h),
    decreases completions.len(),
{
    let made = deliveries(in_flight, completions);
    if completions.len() > 0 {
        let first = completions[0];
        let rest = completions.drop_first();
        let after = in_flight.remove(first.opaque);
        let later = deliveries(after, rest);
        lemma_each_message_delivered_once(after, rest);
        let shift: int = if in_flight.contains_key(first.opaque) {
            1
        } else {
            0
        };
        assert(made.len() == later.len() + shift);
        assert forall|i: int| shift <= i < made.len() implies made[i] == later[i - shift] by {}
        assert forall|i: int| 0 <= i < made.len() implies is_delivery_for(
            in_flight,
            completions,
            #[trigger] made[i],
        ) by {
            if i < shift {
                assert(is_first_completion_of(completions, 0, first.opaque));
            } else {
                let d = later[i - shift];
                assert(is_delivery_for(after, rest, d));
                let k = choose|k: int|
                    is_first_completion_of(rest, k, d.opaque) && d.report == rest[k].spec_report();
                assert(completions[k + 1] == rest[k]);
                assert forall|j: int| 0 <= j < k + 1 implies completions[j].opaque
                    != d.opaque by {
                    if j > 0 {
                        assert(completions[j] == rest[j - 1]);
                    }
                }
                assert(is_first_completion_of(completions, k + 1, d.opaque));
            }
        }
        assert forall|i: int, j: int| 0 <= i < j < made.len() implies made[i].opaque
            != made[j].opaque by {
            assert(is_delivery_for(after, rest, later[j - shift]));
            if i >= shift {
                assert(later[i - shift].opaque != later[j - shift].opaque);
            }
        }
        assert forall|h: usize|
            in_flight.contains_key(h) && #[trigger] handles_of(completions).contains(
                h,
            ) implies exists|i: int| 0 <= i < made.len() && made[i].opaque == h by {
            if h == first.opaque {
                assert(made[0].opaque == h);
            } else {
                let k = choose|k: int| 0 <= k < completions.len() && completions[k].opaque == h;
                assert(rest[k - 1].opaque == h);
                assert(handles_of(rest).contains(h));
                let i = choose|i: int| 0 <= i < later.len() && later[i].opaque == h;
                assert(made[i + shift].opaque == h);
            }
        }
    }
}

/// Deliveries are made in the order of the completions: of two deliveries, the
/// one that is made first belongs to the message whose first completion comes
/// first in the run.
pub proof fn lemma_deliveries_keep_the_order_of_completions<D>(
    in_flight: Map<usize, Option<Box<D>>>,
    completions: Seq<Completion>,
)
    ensures
        forall|i: int, j: int, ki: int, kj: int|
            0 <= i < j < deliveries(in_flight, completions).len()
                && #[trigger] is_first_completion_of(
                completions,
                ki,
                deliveries(in_flight, completions)[i].opaque,
            ) && #[trigger] is_first_completion_of(
                completions,
                kj,
                deliveries(in_flight, completions)[j].opaque,
            ) ==> ki < kj,
    decreases completions.len(),
{
    let made = deliveries(in_flight, completions);
    if completions.len() > 0 {
        let first = completions[0];
        let rest = completions.drop_first();
        let after = in_flight.remove(first.opaque);
        let later = deliveries(after, rest);
        lemma_deliveries_keep_the_order_of_completions(after, rest);
        lemma_each_message_delivered_once(after, rest);
        let shift: int = if in_flight.contains_key(first.opaque) {
            1
        } else {
            0
        };
        assert forall|i: int, j: int, ki: int, kj: int|
            0 <= i < j < made.len() && #[trigger] is_first_completion_of(
                completions,
                ki,
                made[i].opaque,
            ) && #[trigger] is_first_completion_of(completions, kj, made[j].opaque) implies ki
            < kj by {
            assert(made[j] == later[j - shift]);
            assert(is_delivery_for(after, rest, later[j - shift]));
            assert(kj > 0);
            if i < shift {
                assert(ki == 0);
            } else {
                assert(made[i] == later[i - shift]);
                assert(is_delivery_for(after, rest, later[i - shift]));
                assert(ki > 0);
                assert forall|k: int, o: usize|
                    k > 0 && is_first_completion_of(
                        completions,
                        k,
                        o,
                    ) implies is_first_completion_of(rest, k - 1, o) by {
                    assert(rest[k - 1] == completions[k]);
                    assert forall|n: int| 0 <= n < k - 1 implies rest[n].opaque != o by {
                        assert(rest[n] == completions[n + 1]);
                    }
                }
                assert(is_first_completion_of(rest, ki - 1, later[i - shift].opaque));
                assert(is_first_completion_of(rest, kj - 1, later[j - shift].opaque));
            }
        }
    }
}

/// Where a run of completions names messages in flight only, and none of them
/// twice, every completion is delivered, in the order of the run.
pub proof fn lemma_distinct_completions_all_delivered<D>(
    in_flight: Map<usize, Option<Box<D>>>,
    completions: Seq<Completion>,
)
    requires
        forall|i: int|
            0 <= i < completions.len() ==> in_flight.contains_key(#[trigger] completions[i].opaque),
        forall|i: int, j: int|
            0 <= i < j < completions.len() ==> completions[i].opaque != completions[j].opaque,
    ensures
        deliveries(in_flight, completions).len() == completions.len(),
        forall|i: int|
            0 <= i < completions.len() ==> #[trigger] deliveries(in_flight, completions)[i]
                == delivery_of(in_flight, completions[i]),
    decreases completions.len(),
{
    if completions.len() > 0 {
        let first = completions[0];
        let rest = completions.drop_first();
        let after = in_flight.remove(first.opaque);
        assert forall|i: int| 0 <= i < rest.len() implies after.contains_key(
            #[trigger] rest[i].opaque,
        ) by {
            assert(rest[i] == completions[i + 1]);
        }
        assert forall|i: int, j: int| 0 <= i < j < rest.len() implies rest[i].opaque
            != rest[j].opaque by {
            assert(rest[i] == completions[i + 1]);
            assert(rest[j] == completions[j + 1]);
        }
        lemma_distinct_completions_all_delivered(after, rest);
        let made = deliveries(in_flight, completions);
        assert forall|i: int| 0 <= i < completions.len() implies #[trigger] made[i] == delivery_of(
            in_flight,
            completions[i],
        ) by {
            if i > 0 {
                assert(made[i] == deliveries(after, rest)[i - 1]);
                assert(rest[i - 1] == completions[i]);
            }
        }
    }
}

/// Polling with one run of completions and then with another amounts to
/// polling once with the two runs on end: the same deliveries are made, in the
/// same order, and the same messages stay in flight.
pub proof fn lemma_polling_in_batches<D>(
    in_flight: Map<usize, Option<Box<D>>>,
    first: Seq<Completion>,
    second: Seq<Completion>,
)
    ensures
        deliveries(in_flight, first + second) == deliveries(in_flight, first) + deliveries(
            remaining(in_flight, first),
            second,
        ),
        remaining(in_flight, first + second) == remaining(remaining(in_flight, first), second),
    decreases first.len(),
{
    lemma_remaining_unfolds(in_flight, first);
    if first.len() == 0 {
        assert(first + second == second);
        assert(deliveries(in_flight, first) + deliveries(in_flight, second) == deliveries(
            in_flight,
            second,
        ));
    } else {
        let head = first[0];
        let after = in_flight.remove(head.opaque);
        assert((first + second)[0] == head);
        assert((first + second).drop_first() == first.drop_first() + second);
        lemma_polling_in_batches(after, first.drop_first(), second);
        lemma_remaining_unfolds(in_flight, first + second);
        let tail = deliveries(remaining(in_flight, first), second);
        if in_flight.contains_key(head.opaque) {
            assert((seq![delivery_of(in_flight, head)] + deliveries(after, first.drop_first()))
                + tail == seq![delivery_of(in_flight, head)] + (deliveries(
                after,
                first.drop_first(),
            ) + tail));
        }
    }
}

/// Once a run of completions has named every message in flight, none is in
/// flight any more.
pub proof fn lemma_nothing_remains_when_all_completed<D>(
    in_flight: Map<usize, Option<Box<D>>>,
    completions: Seq<Completion>,
)
    requires
        forall|h: usize| in_flight.contains_key(h) ==> handles_of(completions).contains(h),
    ensures
        remaining(in_flight, completions) == Map::<usize, Option<Box<D>>>::empty(),
        remaining(in_flight, completions).dom().len() == 0,
{
    assert(remaining(in_flight, completions) =~= Map::<usize, Option<Box<D>>>::empty());
}

} // verus!
