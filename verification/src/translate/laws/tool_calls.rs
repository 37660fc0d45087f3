//! What becomes of tool calls.

use vstd::prelude::*;

use super::order;
use crate::models::anthropic::{BlockDeltaView, BlockStartView, EventView};
use crate::models::openai;
use crate::models::openai::{CallDeltaView, ChunkView, DeltaView};
use crate::translate::json;
use crate::translate::outcome;
use crate::translate::outcome::{BlockView, StreamView, ToolCallView};

verus! {

// ---- Buffering ----

/// What is buffered under a number; a blank call where nothing is.
pub open spec fn buffered_under(buffered: Seq<ToolCallView>, index: usize) -> ToolCallView {
    match outcome::call_indices(buffered).index_of_first(index) {
        Some(at) => buffered[at],
        None => ToolCallView {
            id: Seq::empty(),
            name: Seq::empty(),
            arguments: Seq::empty(),
            openai_index: index,
        },
    }
}

/// The function name in a fragment, if any.
pub open spec fn name_in(fragment: CallDeltaView) -> Option<Seq<char>> {
    match fragment.function {
        Some(function) => function.name,
        None => None,
    }
}

/// The argument text in a fragment, if any.
pub open spec fn arguments_in(fragment: CallDeltaView) -> Option<Seq<char>> {
    match fragment.function {
        Some(function) => function.arguments,
        None => None,
    }
}

/// The fragments of tool calls in a delta.
pub open spec fn fragments_of(delta: DeltaView) -> Seq<CallDeltaView> {
    match delta.tool_calls {
        Some(fragments) => fragments,
        None => Seq::empty(),
    }
}

/// Law: a fragment whose number is buffered changes the first call of that number and no other
/// one. The id and the name that the fragment gives replace those of the call; the argument text
/// that it gives is appended, whatever else it carries; what it does not give stays.
pub proof fn law_fragment_extends_call(
    buffered: Seq<ToolCallView>,
    fragment: CallDeltaView,
    at: int,
)
    requires
        0 <= at < buffered.len(),
        buffered[at].openai_index == fragment.index,
        forall|k: int| 0 <= k < at ==> (#[trigger] buffered[k]).openai_index != fragment.index,
    ensures
        ({
            let after = outcome::merge_fragments(buffered, seq![fragment]);
            let (old, new) = (buffered[at], after[at]);
            &&& after.len() == buffered.len()
            &&& forall|k: int|
                0 <= k < buffered.len() && k != at ==> #[trigger] after[k] == buffered[k]
            &&& new.openai_index == old.openai_index
            &&& fragment.id matches Some(id) ==> new.id == id
            &&& fragment.id is None ==> new.id == old.id
            &&& fragment.function matches Some(function) ==> {
                &&& function.name matches Some(name) ==> new.name == name
                &&& function.name is None ==> new.name == old.name
                &&& function.arguments matches Some(text) ==> new.arguments == old.arguments + text
                &&& function.arguments is None ==> new.arguments == old.arguments
            }
            &&& fragment.function is None ==> new.name == old.name && new.arguments
                == old.arguments
        }),
{
    let indices = outcome::call_indices(buffered);
    indices.index_of_first_ensures(fragment.index);
    assert(indices[at] == fragment.index);
    assert(indices.contains(fragment.index));
    assert(seq![fragment].drop_last() == Seq::<CallDeltaView>::empty());
    reveal_with_fuel(outcome::merge_fragments, 2);
    let first = indices.index_of_first(fragment.index)->0;
    assert(first == at) by {
        if first < at {
            assert(buffered[first].openai_index == fragment.index);
        }
    }
    assert(buffered[at].arguments + Seq::<char>::empty() == buffered[at].arguments);
}

/// Law: a fragment whose number is not buffered adds a last call of that number, with the id, the
/// name and the argument text that it gives, each empty where it gives none.
pub proof fn law_fragment_begins_call(buffered: Seq<ToolCallView>, fragment: CallDeltaView)
    requires
        forall|k: int|
            0 <= k < buffered.len() ==> (#[trigger] buffered[k]).openai_index != fragment.index,
    ensures
        ({
            let after = outcome::merge_fragments(buffered, seq![fragment]);
            let new = after[buffered.len() as int];
            &&& after.len() == buffered.len() + 1
            &&& forall|k: int| 0 <= k < buffered.len() ==> #[trigger] after[k] == buffered[k]
            &&& new.openai_index == fragment.index
            &&& fragment.id matches Some(id) ==> new.id == id
            &&& fragment.id is None ==> new.id.len() == 0
            &&& fragment.function matches Some(function) ==> {
                &&& function.name matches Some(name) ==> new.name == name
                &&& function.name is None ==> new.name.len() == 0
                &&& function.arguments matches Some(text) ==> new.arguments == text
                &&& function.arguments is None ==> new.arguments.len() == 0
            }
            &&& fragment.function is None ==> new.name.len() == 0 && new.arguments.len() == 0
        }),
{
    let indices = outcome::call_indices(buffered);
    indices.index_of_first_ensures(fragment.index);
    assert(!indices.contains(fragment.index)) by {
        if indices.contains(fragment.index) {
            let k = choose|k: int| 0 <= k < indices.len() && indices[k] == fragment.index;
            assert(buffered[k].openai_index == fragment.index);
        }
    }
    assert(seq![fragment].drop_last() == Seq::<CallDeltaView>::empty());
    reveal_with_fuel(outcome::merge_fragments, 2);
    let new = outcome::merge_fragments(buffered, seq![fragment])[buffered.len() as int];
    assert(arguments_in(fragment) is Some ==> new.arguments == arguments_in(fragment)->0);
}

/// A call with the fragments of its number added, one after the other.
pub open spec fn merge_own(call: ToolCallView, fragments: Seq<CallDeltaView>) -> ToolCallView
    decreases fragments.len(),
{
    if fragments.len() == 0 {
        call
    } else {
        let before = merge_own(call, fragments.drop_last());
        if fragments.last().index == call.openai_index {
            ToolCallView {
                id: fragments.last().id.unwrap_or(before.id),
                name: name_in(fragments.last()).unwrap_or(before.name),
                arguments: before.arguments + arguments_in(fragments.last()).unwrap_or(
                    Seq::empty(),
                ),
                openai_index: before.openai_index,
            }
        } else {
            before
        }
    }
}

/// The pieces of argument text for a number, joined.
pub open spec fn joined_arguments(fragments: Seq<CallDeltaView>, index: usize) -> Seq<char>
    decreases fragments.len(),
{
    if fragments.len() == 0 {
        Seq::empty()
    } else {
        let before = joined_arguments(fragments.drop_last(), index);
        if fragments.last().index == index {
            before + arguments_in(fragments.last()).unwrap_or(Seq::empty())
        } else {
            before
        }
    }
}

/// Law: each call is made of the fragments that bear its number, and of no others.
pub proof fn law_fragments_find_their_call(
    buffered: Seq<ToolCallView>,
    fragments: Seq<CallDeltaView>,
    index: usize,
)
    ensures
        buffered_under(outcome::merge_fragments(buffered, fragments), index) == merge_own(
            buffered_under(buffered, index),
            fragments,
        ),
    decreases fragments.len(),
{
    outcome::call_indices(buffered).index_of_first_ensures(index);
    if fragments.len() > 0 {
        law_fragments_find_their_call(buffered, fragments.drop_last(), index);
        lemma_merge_own_number(buffered_under(buffered, index), fragments.drop_last());
        let before = outcome::merge_fragments(buffered, fragments.drop_last());
        let after = outcome::merge_fragments(buffered, fragments);
        let last = fragments.last().index;
        let indices = outcome::call_indices(before);
        let later = outcome::call_indices(after);
        indices.index_of_first_ensures(last);
        indices.index_of_first_ensures(index);
        later.index_of_first_ensures(index);
        if indices.contains(last) {
            assert(later == indices);
        } else {
            assert(later == indices.push(last));
            assert(later[indices.len() as int] == last);
            if indices.contains(index) {
                let at = indices.index_of_first(index)->0;
                assert(later[at] == index);
                assert(later.contains(index));
                let at_later = later.index_of_first(index)->0;
                assert(at_later == at) by {
                    if at_later < at {
                        assert(indices[at_later] == index);
                    }
                }
            } else if index != last {
                assert(!later.contains(index)) by {
                    if later.contains(index) {
                        let k = choose|k: int| 0 <= k < later.len() && later[k] == index;
                        assert(indices[k] == index);
                    }
                }
            } else {
                assert(later.contains(index));
                let at_later = later.index_of_first(index)->0;
                if at_later < indices.len() {
                    assert(indices[at_later] == index);
                }
            }
        }
    }
}

proof fn lemma_merge_own_number(call: ToolCallView, fragments: Seq<CallDeltaView>)
    ensures
        merge_own(call, fragments).openai_index == call.openai_index,
    decreases fragments.len(),
{
    if fragments.len() > 0 {
        lemma_merge_own_number(call, fragments.drop_last());
    }
}

/// Law: the argument text of a call is what was there before and then the pieces that came for
/// it, joined in the order in which they came.
pub proof fn law_arguments_are_joined(
    buffered: Seq<ToolCallView>,
    fragments: Seq<CallDeltaView>,
    index: usize,
)
    ensures
        buffered_under(outcome::merge_fragments(buffered, fragments), index).arguments
            == buffered_under(buffered, index).arguments + joined_arguments(fragments, index),
{
    law_fragments_find_their_call(buffered, fragments, index);
    outcome::call_indices(buffered).index_of_first_ensures(index);
    lemma_own_arguments(buffered_under(buffered, index), fragments);
}

proof fn lemma_own_arguments(call: ToolCallView, fragments: Seq<CallDeltaView>)
    ensures
        merge_own(call, fragments).arguments == call.arguments + joined_arguments(
            fragments,
            call.openai_index,
        ),
    decreases fragments.len(),
{
    if fragments.len() > 0 {
        lemma_own_arguments(call, fragments.drop_last());
    }
}

/// The numbers that fragments bear.
pub open spec fn fragment_numbers(fragments: Seq<CallDeltaView>) -> Seq<usize> {
    fragments.map_values(|fragment: CallDeltaView| fragment.index)
}

/// The numbers that fragments bear and that are not known before, each where it first appears.
pub open spec fn new_numbers(known: Seq<usize>, fragments: Seq<CallDeltaView>) -> Seq<usize>
    decreases fragments.len(),
{
    if fragments.len() == 0 {
        Seq::empty()
    } else {
        let before = new_numbers(known, fragments.drop_last());
        let number = fragments.last().index;
        if known.contains(number) || before.contains(number) {
            before
        } else {
            before.push(number)
        }
    }
}

/// Law: the numbers in the buffer are those that were there before, in their order, followed by
/// the new ones by first appearance.
pub proof fn law_new_calls_come_last(buffered: Seq<ToolCallView>, fragments: Seq<CallDeltaView>)
    ensures
        outcome::call_indices(outcome::merge_fragments(buffered, fragments))
            == outcome::call_indices(buffered) + new_numbers(
            outcome::call_indices(buffered),
            fragments,
        ),
    decreases fragments.len(),
{
    let known = outcome::call_indices(buffered);
    if fragments.len() == 0 {
        assert(known + new_numbers(known, fragments) == known);
    } else {
        law_new_calls_come_last(buffered, fragments.drop_last());
        let before = outcome::merge_fragments(buffered, fragments.drop_last());
        let new = new_numbers(known, fragments.drop_last());
        let number = fragments.last().index;
        let indices = outcome::call_indices(before);
        let after = outcome::call_indices(outcome::merge_fragments(buffered, fragments));
        indices.index_of_first_ensures(number);
        lemma_contains_concat(known, new, number);
        if indices.contains(number) {
            assert(after == indices);
        } else {
            assert(after == indices.push(number));
            assert(indices.push(number) == known + new.push(number));
        }
    }
}

proof fn lemma_contains_concat(a: Seq<usize>, b: Seq<usize>, number: usize)
    ensures
        (a + b).contains(number) <==> a.contains(number) || b.contains(number),
{
    if a.contains(number) {
        let i = choose|i: int| 0 <= i < a.len() && a[i] == number;
        assert((a + b)[i] == number);
    }
    if b.contains(number) {
        let i = choose|i: int| 0 <= i < b.len() && b[i] == number;
        assert((a + b)[a.len() + i] == number);
    }
}

/// Law: the new numbers are exactly the numbers of the fragments that are not known before, each
/// once, and a number stands before another where it appears before it among the fragments.
pub proof fn law_new_numbers(known: Seq<usize>, fragments: Seq<CallDeltaView>)
    ensures
        ({
            let numbers = fragment_numbers(fragments);
            let new = new_numbers(known, fragments);
            &&& new.no_duplicates()
            &&& forall|number: usize|
                #[trigger] new.contains(number) <==> numbers.contains(number) && !known.contains(
                    number,
                )
            &&& forall|m: int, k: int|
                0 <= m < k < new.len() ==> numbers.index_of_first(#[trigger] new[m])->0
                    < numbers.index_of_first(#[trigger] new[k])->0
        }),
    decreases fragments.len(),
{
    let numbers = fragment_numbers(fragments);
    let new = new_numbers(known, fragments);
    if fragments.len() > 0 {
        let earlier = fragments.drop_last();
        let last = fragments.last().index;
        law_new_numbers(known, earlier);
        let before = fragment_numbers(earlier);
        let known_new = new_numbers(known, earlier);
        assert(numbers == before.push(last));
        assert(numbers[before.len() as int] == last);
        assert forall|number: usize| numbers.contains(number) <==> before.contains(number)
            || number == last by {
            if before.contains(number) {
                let i = choose|i: int| 0 <= i < before.len() && before[i] == number;
                assert(numbers[i] == number);
            }
        }
        assert forall|number: usize| #[trigger] new.contains(number) <==> numbers.contains(number)
            && !known.contains(number) by {
            assert(known_new.contains(number) <==> before.contains(number) && !known.contains(
                number,
            ));
            if new.len() > known_new.len() {
                assert(new[known_new.len() as int] == last);
                if known_new.contains(number) {
                    let i = choose|i: int| 0 <= i < known_new.len() && known_new[i] == number;
                    assert(new[i] == number);
                }
            }
        }
        assert forall|m: int, k: int| 0 <= m < k < new.len() implies numbers.index_of_first(
            #[trigger] new[m],
        )->0 < numbers.index_of_first(#[trigger] new[k])->0 by {
            assert(known_new[m] == new[m]);
            assert(known_new.contains(new[m]));
            lemma_first_in_prefix(before, last, new[m]);
            if k < known_new.len() {
                assert(known_new[k] == new[k]);
                assert(known_new.contains(new[k]));
                lemma_first_in_prefix(before, last, new[k]);
            } else {
                assert(!before.contains(last)) by {
                    assert(known_new.contains(last) <==> before.contains(last) && !known.contains(
                        last,
                    ));
                }
                numbers.index_of_first_ensures(last);
                before.index_of_first_ensures(new[m]);
                let at = numbers.index_of_first(last)->0;
                if at < before.len() {
                    assert(before[at] == last);
                }
            }
        }
    }
}

/// Where a number first appears does not change when another follows.
proof fn lemma_first_in_prefix(numbers: Seq<usize>, next: usize, number: usize)
    requires
        numbers.contains(number),
    ensures
        numbers.push(next).index_of_first(number) == numbers.index_of_first(number),
{
    let longer = numbers.push(next);
    numbers.index_of_first_ensures(number);
    longer.index_of_first_ensures(number);
    let at = numbers.index_of_first(number)->0;
    assert(longer[at] == number);
    assert(longer.contains(number));
    let other = longer.index_of_first(number)->0;
    if other < at {
        assert(numbers[other] == number);
    }
}

/// Law: how fragments are spread over chunks makes no difference, and none of them change nothing.
pub proof fn law_fragments_compose(
    buffered: Seq<ToolCallView>,
    first: Seq<CallDeltaView>,
    second: Seq<CallDeltaView>,
)
    ensures
        outcome::merge_fragments(buffered, first + second) == outcome::merge_fragments(
            outcome::merge_fragments(buffered, first),
            second,
        ),
        outcome::merge_fragments(buffered, Seq::empty()) == buffered,
    decreases second.len(),
{
    if second.len() == 0 {
        assert(first + second == first);
    } else {
        law_fragments_compose(buffered, first, second.drop_last());
        assert((first + second).drop_last() == first + second.drop_last());
    }
}

// ---- Choosing ----

/// Whether call `i` has an id and a name, and no earlier call with an id has the same name and the
/// same input.
pub open spec fn stands_alone<K>(calls: Seq<ToolCallView>, inputs: Seq<K>, i: int) -> bool {
    &&& calls[i].id.len() > 0
    &&& calls[i].name.len() > 0
    &&& forall|j: int|
        0 <= j < i && (#[trigger] calls[j]).id.len() > 0 && calls[j].name == calls[i].name
            ==> inputs[j] != inputs[i]
}

proof fn lemma_stands_alone<K>(calls: Seq<ToolCallView>, inputs: Seq<K>, i: int)
    ensures
        stands_alone(calls, inputs, i) <==> outcome::usable(calls[i]) && !outcome::repeats_earlier(
            calls,
            inputs,
            i,
        ),
{
}

/// Where the calls stand that are emitted among the first `n`.
pub open spec fn emitted_at<K>(calls: Seq<ToolCallView>, inputs: Seq<K>, n: nat) -> Seq<int>
    decreases n,
{
    if n == 0 {
        Seq::empty()
    } else {
        let before = emitted_at(calls, inputs, (n - 1) as nat);
        if stands_alone(calls, inputs, n - 1) {
            before.push(n - 1)
        } else {
            before
        }
    }
}

/// Law: the emitted calls are exactly the buffered calls that have an id and a name and repeat no
/// earlier one, in the order of the buffer.
pub proof fn law_emitted_calls_are_buffered<K>(
    calls: Seq<ToolCallView>,
    inputs: Seq<K>,
    n: nat,
)
    requires
        n <= calls.len(),
    ensures
        ({
            let at = emitted_at(calls, inputs, n);
            let emitted = outcome::distinct_calls(calls, inputs, n);
            &&& emitted.len() == at.len()
            &&& forall|m: int| 0 <= m < at.len() ==> 0 <= #[trigger] at[m] < n
            &&& forall|m: int, k: int| 0 <= m < k < at.len() ==> at[m] < at[k]
            &&& forall|m: int|
                0 <= m < at.len() ==> #[trigger] emitted[m] == calls[at[m]] && emitted[m].id.len()
                    > 0 && emitted[m].name.len() > 0
            &&& forall|i: int|
                #[trigger] at.contains(i) <==> 0 <= i < n && stands_alone(calls, inputs, i)
        }),
    decreases n,
{
    if n > 0 {
        lemma_stands_alone(calls, inputs, n - 1);
        let before = emitted_at(calls, inputs, (n - 1) as nat);
        let at = emitted_at(calls, inputs, n);
        assert forall|i: int|
            #[trigger] at.contains(i) <==> before.contains(i) || (i == n - 1 && stands_alone(
                calls,
                inputs,
                i,
            )) by {
            if stands_alone(calls, inputs, n - 1) {
                assert(at == before.push(n - 1));
                assert(at[before.len() as int] == n - 1);
                if before.contains(i) {
                    let k = choose|k: int| 0 <= k < before.len() && before[k] == i;
                    assert(at[k] == i);
                }
            }
        }
        law_emitted_calls_are_buffered(calls, inputs, (n - 1) as nat);
    }
}

/// Law: no two emitted calls have the same name and the same input.
pub proof fn law_no_call_is_repeated<K>(
    calls: Seq<ToolCallView>,
    inputs: Seq<K>,
    n: nat,
    m: int,
    k: int,
)
    requires
        n <= calls.len() == inputs.len(),
        0 <= m < k < emitted_at(calls, inputs, n).len(),
    ensures
        ({
            let at = emitted_at(calls, inputs, n);
            calls[at[m]].name == calls[at[k]].name ==> inputs[at[m]] != inputs[at[k]]
        }),
    decreases n,
{
    law_emitted_calls_are_buffered(calls, inputs, n);
    if n > 0 {
        let before = emitted_at(calls, inputs, (n - 1) as nat);
        if k < before.len() {
            law_no_call_is_repeated(calls, inputs, (n - 1) as nat, m, k);
        } else {
            let at = emitted_at(calls, inputs, n);
            let emitted = outcome::distinct_calls(calls, inputs, n);
            assert(at[k] == n - 1);
            assert(at[m] < at[k]);
            assert(emitted[m] == calls[at[m]]);
        }
    }
}

/// Law: for every usable call, one of the same name with the same input is emitted: itself or an
/// earlier one.
pub proof fn law_every_call_is_represented<K>(
    calls: Seq<ToolCallView>,
    inputs: Seq<K>,
    n: nat,
    i: int,
)
    requires
        n <= calls.len() == inputs.len(),
        0 <= i < n,
        calls[i].id.len() > 0,
        calls[i].name.len() > 0,
    ensures
        exists|m: int|
            0 <= m < emitted_at(calls, inputs, n).len() && {
                let at = #[trigger] emitted_at(calls, inputs, n)[m];
                at <= i && calls[at].name == calls[i].name && inputs[at] == inputs[i]
            },
    decreases i,
{
    if !stands_alone(calls, inputs, i) {
        let j = choose|j: int|
            0 <= j < i && (#[trigger] calls[j]).id.len() > 0 && calls[j].name == calls[i].name
                && inputs[j] == inputs[i];
        law_every_call_is_represented(calls, inputs, n, j);
    } else {
        lemma_emitted_has(calls, inputs, n, i);
    }
}

proof fn lemma_emitted_has<K>(calls: Seq<ToolCallView>, inputs: Seq<K>, n: nat, i: int)
    requires
        0 <= i < n,
        stands_alone(calls, inputs, i),
    ensures
        exists|m: int|
            0 <= m < emitted_at(calls, inputs, n).len() && #[trigger] emitted_at(
                calls,
                inputs,
                n,
            )[m] == i,
    decreases n,
{
    let at = emitted_at(calls, inputs, n);
    let before = emitted_at(calls, inputs, (n - 1) as nat);
    if i == n - 1 {
        assert(at[before.len() as int] == i);
    } else {
        lemma_emitted_has(calls, inputs, (n - 1) as nat, i);
        let m = choose|m: int| 0 <= m < before.len() && #[trigger] before[m] == i;
        assert(at[m] == i);
    }
}

/// Law: a flush leaves nothing for a second one, which emits nothing and changes nothing, however
/// the inputs are told apart.
pub proof fn law_flush_twice<K, L>(s: StreamView, inputs: Seq<K>, others: Seq<L>)
    ensures
        ({
            let flushed = outcome::flush_with(s, inputs).state;
            outcome::flush_with(flushed, others) == outcome::unchanged(flushed)
        }),
        outcome::flush(outcome::flush(s).state) == outcome::unchanged(outcome::flush(s).state),
{
}

/// Law: argument text that is not JSON counts as the empty object, and so does no text at all.
pub proof fn law_bad_arguments_are_empty(arguments: Seq<char>)
    requires
        arguments.len() == 0 || json::parsed_json(arguments) is None,
    ensures
        json::input_content(arguments) == json::input_content("{}"@),
{
    reveal_strlit("{}");
}

/// Law: argument text that spells a JSON value stands for that value, whatever its length; other
/// text stands for what `{}` spells.
pub proof fn law_arguments_stand_for_their_value(arguments: Seq<char>)
    ensures
        arguments.len() > 0 && json::parsed_json(arguments) is Some ==> json::input_content(
            arguments,
        ) == json::parsed_json(arguments)->0,
        arguments.len() == 0 || json::parsed_json(arguments) is None ==> json::input_content(
            arguments,
        ) == json::parsed_json("{}"@)->0,
{
}

/// The calls to emit out of a buffer.
pub open spec fn to_emit(buffered: Seq<ToolCallView>) -> Seq<ToolCallView> {
    outcome::distinct_calls(buffered, outcome::inputs_of(buffered), buffered.len())
}

/// Law: of the calls emitted out of a buffer, no two have the same name and the same JSON input.
pub proof fn law_emitted_calls_differ(buffered: Seq<ToolCallView>, m: int, k: int)
    requires
        0 <= m < k < to_emit(buffered).len(),
        to_emit(buffered)[m].name == to_emit(buffered)[k].name,
    ensures
        json::input_content(to_emit(buffered)[m].arguments) != json::input_content(
            to_emit(buffered)[k].arguments,
        ),
{
    let inputs = outcome::inputs_of(buffered);
    let at = emitted_at(buffered, inputs, buffered.len());
    law_emitted_calls_are_buffered(buffered, inputs, buffered.len());
    law_no_call_is_repeated(buffered, inputs, buffered.len(), m, k);
    assert(to_emit(buffered)[m] == buffered[at[m]]);
    assert(to_emit(buffered)[k] == buffered[at[k]]);
}

/// Law: the calls emitted out of a buffer, by what their argument texts parse to. Each is a call
/// with an id and a name such that no earlier call with an id has the same name and a JSON input
/// equal to its own; all of these are emitted, in the order of the buffer.
pub proof fn law_emitted_by_parsed_input(buffered: Seq<ToolCallView>)
    ensures
        ({
            let input = |i: int|
                {
                    let text = buffered[i].arguments;
                    if text.len() > 0 && json::parsed_json(text) is Some {
                        json::parsed_json(text)->0
                    } else {
                        json::parsed_json("{}"@)->0
                    }
                };
            let at = emitted_at(buffered, outcome::inputs_of(buffered), buffered.len());
            &&& to_emit(buffered).len() == at.len()
            &&& forall|m: int, k: int| 0 <= m < k < at.len() ==> at[m] < at[k]
            &&& forall|m: int|
                0 <= m < at.len() ==> 0 <= at[m] < buffered.len() && #[trigger] to_emit(buffered)[m]
                    == buffered[at[m]]
            &&& forall|i: int|
                #[trigger] at.contains(i) <==> {
                    &&& 0 <= i < buffered.len()
                    &&& buffered[i].id.len() > 0
                    &&& buffered[i].name.len() > 0
                    &&& forall|j: int|
                        0 <= j < i && (#[trigger] buffered[j]).id.len() > 0 && buffered[j].name
                            == buffered[i].name ==> input(j) != input(i)
                }
        }),
{
    let inputs = outcome::inputs_of(buffered);
    law_emitted_calls_are_buffered(buffered, inputs, buffered.len());
    assert forall|i: int| 0 <= i < buffered.len() implies #[trigger] inputs[i]
        == json::input_content(buffered[i].arguments) by {}
}

/// Law: no JSON value is lost. For every buffered call with an id and a name whose argument text
/// parses, a call of the same name is emitted whose input is that very value; so calls whose
/// argument texts parse to different values are never taken for one.
pub proof fn law_every_value_is_emitted(buffered: Seq<ToolCallView>, i: int)
    requires
        0 <= i < buffered.len(),
        buffered[i].id.len() > 0,
        buffered[i].name.len() > 0,
        buffered[i].arguments.len() > 0,
        json::parsed_json(buffered[i].arguments) is Some,
    ensures
        exists|m: int|
            0 <= m < to_emit(buffered).len() && {
                let call = #[trigger] to_emit(buffered)[m];
                let text = if call.arguments.len() > 0 && json::parsed_json(
                    call.arguments,
                ) is Some {
                    call.arguments
                } else {
                    "{}"@
                };
                call.name == buffered[i].name && json::parsed_json(text)->0 == json::parsed_json(
                    buffered[i].arguments,
                )->0
            },
{
    let inputs = outcome::inputs_of(buffered);
    let n = buffered.len();
    law_emitted_calls_are_buffered(buffered, inputs, n);
    law_every_call_is_represented(buffered, inputs, n, i);
    let m = choose|m: int|
        0 <= m < emitted_at(buffered, inputs, n).len() && {
            let at = #[trigger] emitted_at(buffered, inputs, n)[m];
            at <= i && buffered[at].name == buffered[i].name && inputs[at] == inputs[i]
        };
    let at = emitted_at(buffered, inputs, n)[m];
    assert(to_emit(buffered)[m] == buffered[at]);
    assert(inputs[at] == json::input_content(buffered[at].arguments));
    assert(inputs[i] == json::input_content(buffered[i].arguments));
}

/// Law: where two calls are buffered, each with an id and a name, and their argument texts parse
/// to different JSON values, both are emitted.
pub proof fn law_different_values_are_both_emitted(first: ToolCallView, second: ToolCallView)
    requires
        first.id.len() > 0,
        first.name.len() > 0,
        second.id.len() > 0,
        second.name.len() > 0,
        first.arguments.len() > 0,
        second.arguments.len() > 0,
        json::parsed_json(first.arguments) is Some,
        json::parsed_json(second.arguments) is Some,
        json::parsed_json(first.arguments) != json::parsed_json(second.arguments),
    ensures
        to_emit(seq![first, second]) == seq![first, second],
{
    let calls = seq![first, second];
    let inputs = outcome::inputs_of(calls);
    law_arguments_stand_for_their_value(first.arguments);
    law_arguments_stand_for_their_value(second.arguments);
    assert(inputs[0] == json::input_content(calls[0].arguments));
    assert(inputs[1] == json::input_content(calls[1].arguments));
    reveal_with_fuel(outcome::distinct_calls, 3);
    assert(!outcome::repeats_earlier(calls, inputs, 0));
    assert(!outcome::repeats_earlier(calls, inputs, 1));
    assert(Seq::<ToolCallView>::empty().push(first).push(second) == calls);
}

// ---- Emitting ----

/// A tool call as the receiver of the events puts it together.
#[verifier::ext_equal]
pub struct ToolUse {
    pub id: Seq<char>,
    pub name: Seq<char>,
    pub arguments: Seq<char>,
}

/// A buffered call as the receiver is to see it.
pub open spec fn as_use(call: ToolCallView) -> ToolUse {
    ToolUse { id: call.id, name: call.name, arguments: call.arguments }
}

/// Buffered calls as the receiver is to see them.
pub open spec fn as_uses(calls: Seq<ToolCallView>) -> Seq<ToolUse> {
    calls.map_values(|call: ToolCallView| as_use(call))
}

/// The tool calls known to the receiver after an event.
pub open spec fn take_in(uses: Seq<ToolUse>, event: EventView) -> Seq<ToolUse> {
    match event {
        EventView::ContentBlockStart {
            content_block: BlockStartView::ToolUse { id, name },
            ..
        } => uses.push(ToolUse { id, name, arguments: Seq::empty() }),
        EventView::ContentBlockDelta {
            delta: BlockDeltaView::InputJsonDelta { partial_json },
            ..
        } => uses.update(
            uses.len() - 1,
            ToolUse { arguments: uses.last().arguments + partial_json, ..uses.last() },
        ),
        _ => uses,
    }
}

/// The tool calls known to the receiver after events.
pub open spec fn take_in_all(uses: Seq<ToolUse>, events: Seq<EventView>) -> Seq<ToolUse>
    decreases events.len(),
{
    if events.len() == 0 {
        uses
    } else {
        take_in(take_in_all(uses, events.drop_last()), events.last())
    }
}

/// Whether a chunk thinks or speaks.
pub open spec fn answers(delta: DeltaView) -> bool {
    ||| delta.reasoning is Some
    ||| delta.reasoning_content is Some
    ||| delta.content is Some && delta.content->0.len() > 0
}

/// What a buffer gives where something flushes it.
pub open spec fn emitted_if(flushed: bool, buffered: Seq<ToolCallView>) -> Seq<ToolCallView> {
    if flushed {
        to_emit(buffered)
    } else {
        Seq::empty()
    }
}

/// What stays in a buffer that something flushes or leaves alone.
pub open spec fn kept_unless(flushed: bool, buffered: Seq<ToolCallView>) -> Seq<ToolCallView> {
    if flushed {
        Seq::empty()
    } else {
        buffered
    }
}

/// What the buffer holds before a choice ends.
pub open spec fn buffered_by_then(s: StreamView, delta: DeltaView) -> Seq<ToolCallView> {
    outcome::merge_fragments(
        kept_unless(answers(delta), s.buffered),
        fragments_of(delta),
    )
}

/// The calls that a chunk causes to be emitted: those buffered before, where it thinks or speaks,
/// and where it ends the message, those buffered by then.
pub open spec fn emitted_by(s: StreamView, chunk: ChunkView) -> Seq<ToolCallView> {
    if chunk.choices.len() == 0 {
        Seq::empty()
    } else {
        let choice = chunk.choices[0];
        emitted_if(answers(choice.delta), s.buffered) + emitted_if(
            choice.finish_reason is Some,
            buffered_by_then(s, choice.delta),
        )
    }
}

/// The buffer that a chunk leaves.
pub open spec fn buffered_after(s: StreamView, chunk: ChunkView) -> Seq<ToolCallView> {
    if chunk.choices.len() == 0 {
        s.buffered
    } else {
        let choice = chunk.choices[0];
        kept_unless(choice.finish_reason is Some, buffered_by_then(s, choice.delta))
    }
}

proof fn lemma_take_in_concat(uses: Seq<ToolUse>, a: Seq<EventView>, b: Seq<EventView>)
    ensures
        take_in_all(uses, a + b) == take_in_all(take_in_all(uses, a), b),
    decreases b.len(),
{
    if b.len() == 0 {
        assert(a + b == a);
    } else {
        lemma_take_in_concat(uses, a, b.drop_last());
        assert((a + b).drop_last() == a + b.drop_last());
    }
}

proof fn lemma_take_in_event(uses: Seq<ToolUse>, event: EventView)
    ensures
        take_in_all(uses, seq![event]) == take_in(uses, event),
{
    reveal_with_fuel(take_in_all, 2);
    assert(seq![event].drop_last() == Seq::<EventView>::empty());
}

proof fn lemma_take_in_block(uses: Seq<ToolUse>, call: ToolCallView, index: int)
    ensures
        take_in_all(uses, outcome::tool_block(call, index)) == uses.push(as_use(call)),
{
    reveal_with_fuel(take_in_all, 4);
    let events = outcome::tool_block(call, index);
    assert(events.drop_last() == seq![events[0]] || events.drop_last() == seq![
        events[0],
        events[1],
    ]);
    assert(seq![events[0], events[1]].drop_last() == seq![events[0]]);
    assert(seq![events[0]].drop_last() == Seq::<EventView>::empty());
    let opened = uses.push(ToolUse { id: call.id, name: call.name, arguments: Seq::empty() });
    assert(take_in_all(uses, seq![events[0]]) == opened);
    if call.arguments.len() == 0 {
        assert(call.arguments == Seq::<char>::empty());
    } else {
        assert(opened.last().arguments + call.arguments == call.arguments);
        assert(take_in(opened, events[1]) == uses.push(as_use(call)));
    }
}

proof fn lemma_take_in_blocks(uses: Seq<ToolUse>, calls: Seq<ToolCallView>, first: int)
    ensures
        take_in_all(uses, outcome::tool_blocks(calls, first)) == uses + as_uses(
            calls,
        ),
    decreases calls.len(),
{
    if calls.len() > 0 {
        let before = outcome::tool_blocks(calls.drop_last(), first);
        let block = outcome::tool_block(calls.last(), first + calls.len() - 1);
        lemma_take_in_blocks(uses, calls.drop_last(), first);
        lemma_take_in_concat(uses, before, block);
        lemma_take_in_block(take_in_all(uses, before), calls.last(), first + calls.len() - 1);
        assert((uses + as_uses(calls.drop_last())).push(as_use(calls.last())) == uses + as_uses(
            calls,
        ));
    } else {
        assert(uses + as_uses(calls) == uses);
    }
}

/// Law: flushed calls reach the receiver whole, each with its id, its name and its arguments.
pub proof fn law_flushed_calls_are_received(uses: Seq<ToolUse>, s: StreamView)
    ensures
        take_in_all(uses, outcome::flush(s).events) == uses + as_uses(
            to_emit(s.buffered),
        ),
{
    lemma_take_in_blocks(uses, to_emit(s.buffered), s.next_index);
    if s.buffered.len() == 0 {
        assert(to_emit(s.buffered) == Seq::<ToolCallView>::empty());
    }
}

proof fn lemma_take_in_close(uses: Seq<ToolUse>, s: StreamView)
    ensures
        take_in_all(uses, outcome::close_block(s).events) == uses,
{
    lemma_take_in_event(uses, EventView::ContentBlockStop { index: s.next_index });
}

proof fn lemma_take_in_write(uses: Seq<ToolUse>, s: StreamView, kind: BlockView, text: Seq<char>)
    ensures
        take_in_all(uses, outcome::write(s, kind, text).events) == uses,
{
    let closed = outcome::close_block(s);
    lemma_take_in_close(uses, s);
    let start = EventView::ContentBlockStart {
        index: closed.state.next_index,
        content_block: outcome::empty_block(kind),
    };
    lemma_take_in_event(uses, start);
    lemma_take_in_concat(uses, closed.events, seq![start]);
    let opened = outcome::open_block(s, kind);
    assert(take_in_all(uses, opened.events) == uses);
    let delta = EventView::ContentBlockDelta {
        index: opened.state.next_index,
        delta: outcome::block_delta(kind, text),
    };
    lemma_take_in_event(uses, delta);
    lemma_take_in_concat(uses, opened.events, seq![delta]);
}

proof fn lemma_no_uses(uses: Seq<ToolUse>)
    ensures
        uses + as_uses(Seq::empty()) == uses,
        to_emit(Seq::empty()) == Seq::<ToolCallView>::empty(),
{
    assert(uses + as_uses(Seq::empty()) == uses);
}

/// Thinking or text, after a flush.
proof fn lemma_flush_and_write(uses: Seq<ToolUse>, s: StreamView, kind: BlockView, text: Seq<char>)
    ensures
        ({
            let flushed = outcome::flush(s);
            let step = flushed.extend(outcome::write(flushed.state, kind, text));
            &&& take_in_all(uses, step.events) == uses + as_uses(to_emit(s.buffered))
            &&& step.state.buffered == Seq::<ToolCallView>::empty()
        }),
{
    let flushed = outcome::flush(s);
    law_flushed_calls_are_received(uses, s);
    lemma_take_in_write(uses + as_uses(to_emit(s.buffered)), flushed.state, kind, text);
    lemma_take_in_concat(uses, flushed.events, outcome::write(flushed.state, kind, text).events);
    assert(flushed.state.buffered == Seq::<ToolCallView>::empty());
}

proof fn lemma_think_calls(uses: Seq<ToolUse>, s: StreamView, reasoning: Option<Seq<char>>)
    ensures
        take_in_all(uses, outcome::think(s, reasoning).events) == uses + as_uses(
            emitted_if(reasoning is Some, s.buffered),
        ),
        outcome::think(s, reasoning).state.buffered == kept_unless(reasoning is Some, s.buffered),
{
    lemma_no_uses(uses);
    if let Some(text) = reasoning {
        lemma_flush_and_write(uses, s, BlockView::Thinking, text);
    }
}

proof fn lemma_speak_calls(uses: Seq<ToolUse>, s: StreamView, content: Option<Seq<char>>)
    ensures
        ({
            let speaks = content is Some && content->0.len() > 0;
            let step = outcome::speak(s, content);
            &&& take_in_all(uses, step.events) == uses + as_uses(emitted_if(speaks, s.buffered))
            &&& step.state.buffered == kept_unless(speaks, s.buffered)
        }),
{
    lemma_no_uses(uses);
    if let Some(text) = content {
        lemma_flush_and_write(uses, s, BlockView::Text, text);
    }
}

proof fn lemma_answer_calls(uses: Seq<ToolUse>, s: StreamView, delta: DeltaView)
    ensures
        take_in_all(uses, outcome::answer(s, delta).events) == uses + as_uses(
            emitted_if(answers(delta), s.buffered),
        ),
        outcome::answer(s, delta).state.buffered == kept_unless(answers(delta), s.buffered),
{
    let started = outcome::start_message(s);
    if started.events.len() > 0 {
        lemma_take_in_event(uses, started.events[0]);
        assert(started.events == seq![started.events[0]]);
    }
    assert(take_in_all(uses, started.events) == uses);
    let thinks = outcome::think(started.state, delta.reasoning);
    lemma_think_calls(uses, started.state, delta.reasoning);
    lemma_take_in_concat(uses, started.events, thinks.events);

    let thought = started.extend(thinks);
    let uses1 = take_in_all(uses, thought.events);
    let reflects = outcome::think(thought.state, delta.reasoning_content);
    lemma_think_calls(uses1, thought.state, delta.reasoning_content);
    lemma_take_in_concat(uses, thought.events, reflects.events);

    let reflected = thought.extend(reflects);
    let uses2 = take_in_all(uses, reflected.events);
    let speaks = outcome::speak(reflected.state, delta.content);
    lemma_speak_calls(uses2, reflected.state, delta.content);
    lemma_take_in_concat(uses, reflected.events, speaks.events);

    lemma_no_uses(uses);
    lemma_no_uses(uses1);
    lemma_no_uses(uses2);
}

proof fn lemma_progress_calls(uses: Seq<ToolUse>, s: StreamView, delta: DeltaView)
    ensures
        take_in_all(uses, outcome::progress(s, delta).events) == uses + as_uses(
            emitted_if(answers(delta), s.buffered),
        ),
        outcome::progress(s, delta).state.buffered == outcome::merge_fragments(
            kept_unless(answers(delta), s.buffered),
            fragments_of(delta),
        ),
{
    let answered = outcome::answer(s, delta);
    lemma_answer_calls(uses, s, delta);
    let told = take_in_all(uses, answered.events);
    let collects = outcome::collect(answered.state, delta.tool_calls);
    lemma_take_in_close(told, answered.state);
    assert(collects.events == outcome::close_block(answered.state).events || collects.events
        == Seq::<EventView>::empty());
    lemma_take_in_concat(uses, answered.events, collects.events);
}

proof fn lemma_conclude_calls(
    uses: Seq<ToolUse>,
    s: StreamView,
    finish_reason: Option<Seq<char>>,
    usage: Option<openai::Usage>,
)
    ensures
        ({
            let step = outcome::conclude(s, finish_reason, usage);
            &&& take_in_all(uses, step.events) == uses + as_uses(
                emitted_if(finish_reason is Some, s.buffered),
            )
            &&& step.state.buffered == kept_unless(finish_reason is Some, s.buffered)
        }),
{
    lemma_no_uses(uses);
    if let Some(reason) = finish_reason {
        let flushed = outcome::flush(s);
        law_flushed_calls_are_received(uses, s);
        let told = take_in_all(uses, flushed.events);
        let ending = outcome::ending(reason, usage);
        let closed = outcome::close_block(flushed.state);
        lemma_take_in_close(told, flushed.state);
        lemma_take_in_event(told, ending);
        lemma_take_in_concat(told, closed.events, seq![ending]);
        lemma_take_in_concat(uses, flushed.events, closed.events + seq![ending]);
        assert(flushed.state.buffered == Seq::<ToolCallView>::empty());
    }
}

/// Law: the calls that the receiver learns of from a chunk are the calls that it causes to be
/// emitted, each whole and in order; the others stay buffered.
pub proof fn law_chunk_calls_are_received(uses: Seq<ToolUse>, s: StreamView, chunk: ChunkView)
    ensures
        take_in_all(uses, outcome::chunk_outcome(s, chunk).events) == uses + as_uses(
            emitted_by(s, chunk),
        ),
        outcome::chunk_outcome(s, chunk).state.buffered == buffered_after(s, chunk),
{
    if chunk.choices.len() == 0 {
        lemma_no_uses(uses);
    } else {
        let known = outcome::learn(s, chunk);
        let choice = chunk.choices[0];
        let progressed = outcome::progress(known, choice.delta);
        lemma_progress_calls(uses, known, choice.delta);
        let told = take_in_all(uses, progressed.events);
        lemma_conclude_calls(told, progressed.state, choice.finish_reason, chunk.usage);
        lemma_take_in_concat(
            uses,
            progressed.events,
            outcome::conclude(progressed.state, choice.finish_reason, chunk.usage).events,
        );
        let at_first = emitted_if(answers(choice.delta), s.buffered);
        let at_last = emitted_if(choice.finish_reason is Some, progressed.state.buffered);
        assert(emitted_by(s, chunk) == at_first + at_last);
        assert((uses + as_uses(at_first)) + as_uses(at_last) == uses + as_uses(
            at_first + at_last,
        ));
    }
}

/// The calls that chunks cause to be emitted, one chunk after the other.
pub open spec fn emitted_by_all(s: StreamView, chunks: Seq<ChunkView>) -> Seq<ToolCallView>
    decreases chunks.len(),
{
    if chunks.len() == 0 {
        Seq::empty()
    } else {
        let before = order::session(s, chunks.drop_last()).state;
        emitted_by_all(s, chunks.drop_last()) + emitted_by(before, chunks.last())
    }
}

/// Law: the calls that the receiver learns of from a whole stream are the calls that its chunks
/// cause to be emitted, each whole and in order.
pub proof fn law_session_calls_are_received(
    uses: Seq<ToolUse>,
    s: StreamView,
    chunks: Seq<ChunkView>,
)
    ensures
        take_in_all(uses, order::session(s, chunks).events) == uses + as_uses(
            emitted_by_all(s, chunks),
        ),
    decreases chunks.len(),
{
    if chunks.len() == 0 {
        lemma_no_uses(uses);
    } else {
        law_session_calls_are_received(uses, s, chunks.drop_last());
        let before = order::session(s, chunks.drop_last());
        let told = take_in_all(uses, before.events);
        law_chunk_calls_are_received(told, before.state, chunks.last());
        lemma_take_in_concat(
            uses,
            before.events,
            outcome::chunk_outcome(before.state, chunks.last()).events,
        );
        let earlier = emitted_by_all(s, chunks.drop_last());
        let latest = emitted_by(before.state, chunks.last());
        assert((uses + as_uses(earlier)) + as_uses(latest) == uses + as_uses(earlier + latest));
    }
}

/// Whether a chunk brings nothing but fragments of tool calls.
pub open spec fn only_fragments(chunk: ChunkView) -> bool {
    chunk.choices.len() > 0 ==> !answers(chunk.choices[0].delta) && chunk.choices[0].finish_reason
        is None
}

/// All the fragments in chunks.
pub open spec fn all_fragments(chunks: Seq<ChunkView>) -> Seq<CallDeltaView>
    decreases chunks.len(),
{
    if chunks.len() == 0 {
        Seq::empty()
    } else {
        let last = chunks.last();
        all_fragments(chunks.drop_last()) + if last.choices.len() == 0 {
            Seq::empty()
        } else {
            fragments_of(last.choices[0].delta)
        }
    }
}

/// Law: tool calls wait. Chunks that bring nothing but fragments tell the receiver of no call;
/// they buffer their fragments as if these had come in one.
pub proof fn law_calls_wait(uses: Seq<ToolUse>, s: StreamView, chunks: Seq<ChunkView>)
    requires
        forall|i: int| 0 <= i < chunks.len() ==> only_fragments(#[trigger] chunks[i]),
    ensures
        take_in_all(uses, order::session(s, chunks).events) == uses,
        order::session(s, chunks).state.buffered == outcome::merge_fragments(
            s.buffered,
            all_fragments(chunks),
        ),
    decreases chunks.len(),
{
    if chunks.len() > 0 {
        let earlier = chunks.drop_last();
        let last = chunks.last();
        assert forall|i: int| 0 <= i < earlier.len() implies only_fragments(
            #[trigger] earlier[i],
        ) by {
            assert(earlier[i] == chunks[i]);
        }
        law_calls_wait(uses, s, earlier);
        let before = order::session(s, earlier);
        let step = outcome::chunk_outcome(before.state, last);
        assert(only_fragments(chunks[chunks.len() - 1]));
        law_chunk_calls_are_received(uses, before.state, last);
        assert(uses + as_uses(emitted_by(before.state, last)) == uses);
        lemma_take_in_concat(uses, before.events, step.events);
        let new = if last.choices.len() == 0 {
            Seq::empty()
        } else {
            fragments_of(last.choices[0].delta)
        };
        law_fragments_compose(s.buffered, all_fragments(earlier), new);
    }
}

/// Law: the end of a stream tells the receiver of all the calls still to emit out of the buffer,
/// each whole and in order, whatever the state.
pub proof fn law_done_calls_are_received(uses: Seq<ToolUse>, s: StreamView)
    ensures
        take_in_all(uses, outcome::done_outcome(s).events) == uses + as_uses(to_emit(s.buffered)),
{
    law_flushed_calls_are_received(uses, s);
    lemma_take_in_event(uses + as_uses(to_emit(s.buffered)), EventView::MessageStop);
    lemma_take_in_concat(uses, outcome::flush(s).events, seq![EventView::MessageStop]);
}

} // verus!
