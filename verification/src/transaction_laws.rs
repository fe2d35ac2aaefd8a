//! What is read from a transaction.

use crate::contract::{
    answer_model, contract_call_model, converted_events_model, full_call_model,
    transaction_events_model, ContractModel, EventCallModel, FullCallModel,
};
use crate::convert::convert_named_model;
use crate::decode::InMessageModel;
use crate::error::{ErrorModel, ReasonModel};
use crate::event::EventModel;
use crate::function::FunctionModel;
use crate::giving_laws::{given_back_is_dictionary, is_dictionary_of};
use crate::token::NamedTokenModel;
use crate::transaction::{
    answers, collect_model, failure_of, first_failure_decides, last_answer_is_output, route_model,
    OutRecordModel, ReadEventModel, RouteModel,
};
use crate::value::ItemModel;
use vstd::prelude::*;

verus! {

/// The id that the body of a message begins with, where the message leaves the ledger.
pub open spec fn outgoing_id(record: OutRecordModel) -> Option<u32> {
    match record.message {
        Ok(message) => match message.body {
            Some(body) => if message.outbound_external {
                body.function_id
            } else {
                None
            },
            None => None,
        },
        Err(_) => None,
    }
}

/// Whether a message leaves the ledger with the id of the answer that is looked for.
pub open spec fn is_answer(record: OutRecordModel, output_id: Option<u32>) -> bool {
    outgoing_id(record) is Some && outgoing_id(record) == output_id
}

/// Whether a message leaves the ledger with the id of an event, and not with that of the
/// answer that is looked for.
pub open spec fn is_event(record: OutRecordModel, output_id: Option<u32>) -> bool {
    &&& outgoing_id(record) is Some
    &&& outgoing_id(record) != output_id
    &&& record.message->Ok_0.body->0.event is Some
}

/// The event that a message holds: its name and the tokens that its body was decoded to.
pub open spec fn event_in(record: OutRecordModel) -> ReadEventModel {
    ReadEventModel {
        name: record.message->Ok_0.body->0.event->0,
        tokens: record.decoded->Ok_0,
    }
}

/// What is to be read from a message is its answer or its event, from its own body, or
/// nothing.
pub proof fn messages_are_routed_by_id(record: OutRecordModel, output_id: Option<u32>)
    ensures
        record.message matches Ok(message) ==> (match route_model(message, output_id) {
            RouteModel::Skip => !is_answer(record, output_id) && !is_event(record, output_id),
            RouteModel::Output(decoding) => {
                &&& is_answer(record, output_id)
                &&& decoding.body == message.body->0.cell
                &&& !decoding.internal
                &&& !decoding.partial
            },
            RouteModel::Event(name, body) => {
                &&& is_event(record, output_id)
                &&& message.body->0.event == Some(name)
                &&& body == message.body->0.cell
            },
        }),
{
}

/// Whether reading a message fails: it cannot be read itself, or its body holds an answer or
/// an event and cannot be decoded.
pub open spec fn fails(record: OutRecordModel, output_id: Option<u32>) -> bool {
    record.message is Err || ((is_answer(record, output_id) || is_event(record, output_id))
        && record.decoded is Err)
}

/// The messages of a transaction are read exactly if none of them fails; otherwise the
/// first that does says why, as a `RuntimeError`.
pub proof fn messages_are_read_unless_one_fails(
    records: Seq<OutRecordModel>,
    output_id: Option<u32>,
    first: int,
)
    requires
        0 <= first <= records.len(),
        forall|i: int| 0 <= i < first ==> !fails(#[trigger] records[i], output_id),
        first < records.len() ==> fails(records[first], output_id),
    ensures
        match collect_model(records, output_id) {
            Ok(_) => first == records.len(),
            Err(e) => first < records.len() && e == ErrorModel::Runtime(
                ReasonModel::Reported(
                    if records[first].message is Err {
                        records[first].message->Err_0
                    } else {
                        records[first].decoded->Err_0
                    },
                ),
            ),
        },
{
    assert forall|i: int| 0 <= i < first implies failure_of(
        #[trigger] records[i],
        output_id,
    ) is None by {
        messages_are_routed_by_id(records[i], output_id);
        assert(!fails(records[i], output_id));
    }
    if first < records.len() {
        messages_are_routed_by_id(records[first], output_id);
    }
    first_failure_decides(records, output_id, first);
}

/// The events are, one for one and in the order of the messages, those of the messages that
/// hold an event, each with its name and its decoded tokens.
pub proof fn every_event_is_listed(records: Seq<OutRecordModel>, output_id: Option<u32>)
    requires
        collect_model(records, output_id) is Ok,
    ensures
        collect_model(records, output_id)->Ok_0.events == records.filter(
            |record: OutRecordModel| is_event(record, output_id),
        ).map_values(|record: OutRecordModel| event_in(record)),
    decreases records.len(),
{
    reveal(Seq::filter);
    let holds = |record: OutRecordModel| is_event(record, output_id);
    let read = |record: OutRecordModel| event_in(record);
    let events = collect_model(records, output_id)->Ok_0.events;
    if records.len() > 0 {
        let shorter = records.drop_last();
        every_event_is_listed(shorter, output_id);
        messages_are_routed_by_id(records.last(), output_id);
        let kept = shorter.filter(holds);
        if holds(records.last()) {
            assert(records.filter(holds) == kept.push(records.last()));
            assert(kept.push(records.last()).map_values(read) =~= kept.map_values(read).push(
                event_in(records.last()),
            ));
        } else {
            assert(records.filter(holds) == kept);
        }
    } else {
        assert(records.filter(holds).map_values(read) =~= Seq::<ReadEventModel>::empty());
        assert(events =~= Seq::<ReadEventModel>::empty());
    }
}

/// The answer is what the last message with its id was decoded to; where no message has that
/// id, there is none.
pub proof fn last_answer_is_taken(records: Seq<OutRecordModel>, output_id: u32, last: int)
    requires
        collect_model(records, Some(output_id)) is Ok,
        -1 <= last < records.len(),
        last >= 0 ==> is_answer(records[last], Some(output_id)),
        forall|i: int|
            last < i < records.len() ==> !is_answer(#[trigger] records[i], Some(output_id)),
    ensures
        match collect_model(records, Some(output_id))->Ok_0.output {
            Some(tokens) => last >= 0 && records[last].decoded == Ok::<
                Seq<NamedTokenModel>,
                Seq<char>,
            >(tokens),
            None => last < 0,
        },
{
    if last >= 0 {
        messages_are_routed_by_id(records[last], Some(output_id));
    }
    assert forall|i: int| last < i < records.len() implies !answers(
        #[trigger] records[i],
        output_id,
    ) by {
        messages_are_routed_by_id(records[i], Some(output_id));
        assert(!is_answer(records[i], Some(output_id)));
    }
    last_answer_is_output(records, output_id, last);
}

/// Where no answer is looked for, there is none.
pub proof fn no_answer_where_none_is_looked_for(records: Seq<OutRecordModel>)
    ensures
        collect_model(records, None) matches Ok(collected) ==> collected.output is None,
    decreases records.len(),
{
    if records.len() > 0 {
        no_answer_where_none_is_looked_for(records.drop_last());
        messages_are_routed_by_id(records.last(), None);
    }
}

/// Whether events with their values are those that were read, one for one and in order: the
/// event of each name, with the dictionary for its tokens.
pub open spec fn are_events_of(
    calls: Seq<EventCallModel>,
    read: Seq<ReadEventModel>,
    events: Map<Seq<char>, EventModel>,
) -> bool {
    &&& calls.len() == read.len()
    &&& forall|i: int|
        #![trigger calls[i]]
        0 <= i < calls.len() ==> calls[i].event == events[read[i].name] && is_dictionary_of(
            calls[i].input,
            read[i].tokens,
        )
}

/// Events are given back exactly if the tokens of each are, and then one for one and in
/// order; otherwise the first that is not says why.
pub proof fn events_are_given_back(
    read: Seq<ReadEventModel>,
    events: Map<Seq<char>, EventModel>,
    first: int,
)
    requires
        0 <= first <= read.len(),
        forall|i: int| 0 <= i < first ==> convert_named_model((#[trigger] read[i]).tokens) is Ok,
        first < read.len() ==> convert_named_model(read[first].tokens) is Err,
    ensures
        match converted_events_model(read, events) {
            Ok(calls) => first == read.len() && are_events_of(calls, read, events),
            Err(e) => first < read.len() && convert_named_model(read[first].tokens) == Err::<
                Seq<ItemModel>,
                ErrorModel,
            >(e),
        },
    decreases read.len(),
{
    if read.len() > 0 {
        let shorter = read.drop_last();
        let cut = if first < shorter.len() { first } else { shorter.len() as int };
        assert forall|i: int| 0 <= i < cut implies convert_named_model(
            (#[trigger] shorter[i]).tokens,
        ) is Ok by {
            assert(shorter[i] == read[i]);
        }
        if cut < shorter.len() {
            assert(shorter[cut] == read[first]);
        }
        events_are_given_back(shorter, events, cut);
        assert(read.last() == read[read.len() - 1]);
        given_back_is_dictionary(read.last().tokens);
        if first == read.len() {
            assert(convert_named_model(read[read.len() - 1].tokens) is Ok);
            let before = converted_events_model(shorter, events)->Ok_0;
            let calls = converted_events_model(read, events)->Ok_0;
            assert forall|i: int| #![trigger calls[i]] 0 <= i < calls.len() implies calls[i].event
                == events[read[i].name] && is_dictionary_of(calls[i].input, read[i].tokens) by {
                if i < before.len() {
                    assert(calls[i] == before[i]);
                    assert(shorter[i] == read[i]);
                }
            }
        }
    }
}

/// Whether the tokens of an event are not given back.
pub open spec fn some_event_fails(read: Seq<ReadEventModel>) -> bool {
    exists|i: int| 0 <= i < read.len() && convert_named_model((#[trigger] read[i]).tokens) is Err
}

/// Whether an exception is that of the first event whose tokens are not given back.
pub open spec fn first_event_fails(read: Seq<ReadEventModel>, e: ErrorModel) -> bool {
    exists|i: int|
        #![trigger read[i]]
        0 <= i < read.len() && convert_named_model(read[i].tokens) == Err::<
            Seq<ItemModel>,
            ErrorModel,
        >(e) && forall|j: int| 0 <= j < i ==> convert_named_model((#[trigger] read[j]).tokens) is Ok
}

/// The first event whose tokens are not given back; the number of events if there is none.
spec fn first_bad(read: Seq<ReadEventModel>) -> int
    decreases read.len(),
{
    if read.len() == 0 {
        0
    } else {
        let before = first_bad(read.drop_last());
        if before < read.len() - 1 || convert_named_model(read.last().tokens) is Err {
            before
        } else {
            read.len() as int
        }
    }
}

proof fn lemma_first_bad(read: Seq<ReadEventModel>)
    ensures
        0 <= first_bad(read) <= read.len(),
        forall|i: int|
            0 <= i < first_bad(read) ==> convert_named_model((#[trigger] read[i]).tokens) is Ok,
        first_bad(read) < read.len() ==> convert_named_model(read[first_bad(read)].tokens) is Err,
    decreases read.len(),
{
    if read.len() > 0 {
        let shorter = read.drop_last();
        lemma_first_bad(shorter);
        assert forall|i: int| 0 <= i < first_bad(read) implies convert_named_model(
            (#[trigger] read[i]).tokens,
        ) is Ok by {
            if i < shorter.len() {
                assert(shorter[i] == read[i]);
            }
        }
    }
}

/// The events of a transaction are, one for one and in the order of the messages, those of
/// the messages that leave the ledger with the id of an event: the event that was declared,
/// with the dictionary for its tokens.
pub proof fn transaction_lists_its_events(
    events: Map<Seq<char>, EventModel>,
    records: Seq<OutRecordModel>,
)
    ensures
        match transaction_events_model(events, records) {
            Ok(calls) => collect_model(records, None) is Ok && are_events_of(
                calls,
                records.filter(|record: OutRecordModel| is_event(record, None)).map_values(
                    |record: OutRecordModel| event_in(record),
                ),
                events,
            ),
            Err(e) => match collect_model(records, None) {
                Err(first) => e == first,
                Ok(collected) => first_event_fails(collected.events, e),
            },
        },
{
    if let Ok(collected) = collect_model(records, None) {
        every_event_is_listed(records, None);
        lemma_first_bad(collected.events);
        events_are_given_back(collected.events, events, first_bad(collected.events));
        assert(transaction_events_model(events, records) == converted_events_model(
            collected.events,
            events,
        ));
        if let Err(e) = converted_events_model(collected.events, events) {
            let bad = first_bad(collected.events);
            assert(convert_named_model(collected.events[bad].tokens) == Err::<
                Seq<ItemModel>,
                ErrorModel,
            >(e));
        }
    }
}

/// A call that is read with its function holds that function, the dictionary for the input,
/// the dictionary for the last answer, and the events of the messages. Where no answer came,
/// the output is empty, and the function has none. Of what can fail the input comes first,
/// the messages come second, and a missing answer third; then the events are given back, the
/// input, and the output.
pub proof fn full_call_holds_what_came_back(
    function: FunctionModel,
    events: Map<Seq<char>, EventModel>,
    input: Result<Seq<NamedTokenModel>, Seq<char>>,
    records: Seq<OutRecordModel>,
    last: int,
)
    requires
        -1 <= last < records.len(),
        last >= 0 ==> is_answer(records[last], Some(function.output_id)),
        forall|i: int|
            last < i < records.len() ==> !is_answer(
                #[trigger] records[i],
                Some(function.output_id),
            ),
    ensures
        match full_call_model(function, events, input, records) {
            Ok(full) => {
                &&& input matches Ok(given)
                &&& collect_model(records, Some(function.output_id)) is Ok
                &&& full.function == function
                &&& is_dictionary_of(full.call.input, given)
                &&& last >= 0 ==> (records[last].decoded matches Ok(answer) && is_dictionary_of(
                    full.call.output,
                    answer,
                ))
                &&& last < 0 ==> !function.has_output && full.call.output.len() == 0
                &&& are_events_of(
                    full.events,
                    records.filter(
                        |record: OutRecordModel| is_event(record, Some(function.output_id)),
                    ).map_values(|record: OutRecordModel| event_in(record)),
                    events,
                )
            },
            Err(e) => match input {
                Err(words) => e == ErrorModel::Runtime(ReasonModel::Reported(words)),
                Ok(given) => match collect_model(records, Some(function.output_id)) {
                    Err(first) => e == first,
                    Ok(collected) => if last < 0 && function.has_output {
                        e == ErrorModel::Runtime(ReasonModel::NoOutput)
                    } else if some_event_fails(collected.events) {
                        first_event_fails(collected.events, e)
                    } else if convert_named_model(given) is Err {
                        convert_named_model(given) == Err::<Seq<ItemModel>, ErrorModel>(e)
                    } else {
                        last >= 0 && convert_named_model(records[last].decoded->Ok_0) == Err::<
                            Seq<ItemModel>,
                            ErrorModel,
                        >(e)
                    },
                },
            },
        },
{
    if let (Ok(given), Ok(collected)) = (
        input,
        collect_model(records, Some(function.output_id)),
    ) {
        every_event_is_listed(records, Some(function.output_id));
        last_answer_is_taken(records, function.output_id, last);
        lemma_first_bad(collected.events);
        let bad = first_bad(collected.events);
        events_are_given_back(collected.events, events, bad);
        given_back_is_dictionary(given);
        let answer = answer_model(collected.output, function.has_output);
        if let Ok(tokens) = answer {
            given_back_is_dictionary(tokens);
            if last < 0 {
                assert(tokens =~= Seq::<NamedTokenModel>::empty());
                assert(convert_named_model(tokens) == Ok::<Seq<ItemModel>, ErrorModel>(
                    Seq::empty(),
                ));
            }
            if let Err(e) = converted_events_model(collected.events, events) {
                assert(convert_named_model(collected.events[bad].tokens) == Err::<
                    Seq<ItemModel>,
                    ErrorModel,
                >(e));
            }
        }
    }
}

/// The call that a transaction came from is that of the function that was guessed, where a
/// message with a body is there and a function was guessed; otherwise there is none. What
/// keeps the message from being read is a `RuntimeError`, and what keeps the function from
/// being guessed a `ValueError`.
pub proof fn contract_call_is_of_the_guessed_function(
    contract: ContractModel,
    in_msg: Result<Option<InMessageModel>, Seq<char>>,
    guess: Result<Option<Seq<char>>, Seq<char>>,
    input: Result<Seq<NamedTokenModel>, Seq<char>>,
    records: Seq<OutRecordModel>,
)
    ensures
        match in_msg {
            Err(words) => contract_call_model(contract, in_msg, guess, input, records) == Err::<
                Option<FullCallModel>,
                ErrorModel,
            >(ErrorModel::Runtime(ReasonModel::Reported(words))),
            Ok(None) => contract_call_model(contract, in_msg, guess, input, records) == Ok::<
                Option<FullCallModel>,
                ErrorModel,
            >(None),
            Ok(Some(message)) => if message.body is None {
                contract_call_model(contract, in_msg, guess, input, records) == Ok::<
                    Option<FullCallModel>,
                    ErrorModel,
                >(None)
            } else {
                match guess {
                    Err(words) => contract_call_model(contract, in_msg, guess, input, records)
                        == Err::<Option<FullCallModel>, ErrorModel>(
                        ErrorModel::Value(ReasonModel::Reported(words)),
                    ),
                    Ok(None) => contract_call_model(contract, in_msg, guess, input, records)
                        == Ok::<Option<FullCallModel>, ErrorModel>(None),
                    Ok(Some(name)) => match full_call_model(
                        contract.functions[name],
                        contract.events,
                        input,
                        records,
                    ) {
                        Ok(full) => {
                            &&& contract_call_model(contract, in_msg, guess, input, records)
                                == Ok::<Option<FullCallModel>, ErrorModel>(Some(full))
                            &&& full.function == contract.functions[name]
                        },
                        Err(e) => contract_call_model(contract, in_msg, guess, input, records)
                            == Err::<Option<FullCallModel>, ErrorModel>(e),
                    },
                }
            },
        },
{
}

} // verus!
