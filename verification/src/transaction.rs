//! The messages that a transaction sends, and what is read from them.

use crate::decode::{returned_tokens, BodyDecoding, BodyDecodingModel};
use crate::error::{reported_runtime, AbiError, ErrorModel, Reason};
use crate::ledger::Cell;
use crate::token::{named_tokens_model, NamedTokenModel, Token};
use vstd::prelude::*;

verus! {

/// The body of a message that a transaction sends.
#[derive(Debug, PartialEq, Eq)]
pub struct OutBody {
    pub cell: Cell,
    /// The id that the body begins with, if `nekoton::abi::read_function_id` reads one.
    pub function_id: Option<u32>,
    /// The name of the event with that id, if `ton_abi::Contract::event_by_id` finds one.
    pub event: Option<String>,
}

/// A message that a transaction sends.
#[derive(Debug, PartialEq, Eq)]
pub struct OutMessage {
    pub outbound_external: bool,
    pub body: Option<OutBody>,
}

/// A message that a transaction sends, or the words with which reading it failed; and
/// what came back from decoding its body as [`OutMessage::route`] asks. Where nothing is
/// to be decoded, nothing is made of what stands there.
#[derive(Debug, PartialEq, Eq)]
pub struct OutRecord {
    pub message: Result<OutMessage, String>,
    pub decoded: Result<Vec<Token>, String>,
}

/// [`OutBody`] over models.
pub struct OutBodyModel {
    pub cell: Seq<u8>,
    pub function_id: Option<u32>,
    pub event: Option<Seq<char>>,
}

/// [`OutMessage`] over models.
pub struct OutMessageModel {
    pub outbound_external: bool,
    pub body: Option<OutBodyModel>,
}

/// [`OutRecord`] over models.
pub struct OutRecordModel {
    pub message: Result<OutMessageModel, Seq<char>>,
    pub decoded: Result<Seq<NamedTokenModel>, Seq<char>>,
}

impl View for OutBody {
    type V = OutBodyModel;

    open spec fn view(&self) -> OutBodyModel {
        OutBodyModel {
            cell: self.cell@,
            function_id: self.function_id,
            event: match self.event {
                Some(name) => Some(name@),
                None => None,
            },
        }
    }
}

impl View for OutMessage {
    type V = OutMessageModel;

    open spec fn view(&self) -> OutMessageModel {
        OutMessageModel {
            outbound_external: self.outbound_external,
            body: match self.body {
                Some(body) => Some(body@),
                None => None,
            },
        }
    }
}

impl View for OutRecord {
    type V = OutRecordModel;

    open spec fn view(&self) -> OutRecordModel {
        OutRecordModel {
            message: match self.message {
                Ok(message) => Ok(message@),
                Err(words) => Err(words@),
            },
            decoded: returned_tokens(self.decoded),
        }
    }
}

/// The models of records, in order.
pub open spec fn records_model(records: Seq<OutRecord>) -> Seq<OutRecordModel> {
    Seq::new(records.len(), |i: int| records[i]@)
}

/// What is to be read from a message.
#[derive(Debug, PartialEq, Eq)]
pub enum Route {
    /// Nothing.
    Skip,
    /// The answer of the function, from the body.
    Output(BodyDecoding),
    /// The event of a name, from the body.
    Event(String, Cell),
}

/// [`Route`] over models.
pub enum RouteModel {
    Skip,
    Output(BodyDecodingModel),
    Event(Seq<char>, Seq<u8>),
}

impl View for Route {
    type V = RouteModel;

    open spec fn view(&self) -> RouteModel {
        match self {
            Route::Skip => RouteModel::Skip,
            Route::Output(decoding) => RouteModel::Output(decoding@),
            Route::Event(name, body) => RouteModel::Event(name@, body@),
        }
    }
}

/// What is to be read from a message: one that leaves the ledger and whose body begins
/// with the id of the answer holds the answer; another that leaves the ledger and whose
/// body begins with the id of an event holds the event.
pub open spec fn route_model(message: OutMessageModel, output_id: Option<u32>) -> RouteModel {
    if !message.outbound_external {
        RouteModel::Skip
    } else {
        match message.body {
            None => RouteModel::Skip,
            Some(body) => match body.function_id {
                None => RouteModel::Skip,
                Some(id) => if output_id == Some(id) {
                    RouteModel::Output(
                        BodyDecodingModel { body: body.cell, internal: false, partial: false },
                    )
                } else {
                    match body.event {
                        Some(name) => RouteModel::Event(name, body.cell),
                        None => RouteModel::Skip,
                    }
                },
            },
        }
    }
}

impl OutMessage {
    /// What is to be read from the message. `output_id` is the id of the answer, where
    /// an answer is looked for.
    pub fn route(&self, output_id: Option<u32>) -> (route: Route)
        ensures
            route@ == route_model(self@, output_id),
    {
        if !self.outbound_external {
            return Route::Skip;
        }
        let body: &OutBody = match &self.body {
            Some(body) => body,
            None => {
                return Route::Skip;
            },
        };
        let id: u32 = match body.function_id {
            Some(id) => id,
            None => {
                return Route::Skip;
            },
        };
        let answer: bool = match output_id {
            Some(expected) => id == expected,
            None => false,
        };
        if answer {
            return Route::Output(
                BodyDecoding { body: body.cell.clone(), internal: false, partial: false },
            );
        }
        match &body.event {
            Some(name) => Route::Event(name.clone(), body.cell.clone()),
            None => Route::Skip,
        }
    }
}

/// An event that was read: its name and its values.
#[derive(Debug, PartialEq, Eq)]
pub struct ReadEvent {
    pub name: String,
    pub tokens: Vec<Token>,
}

/// [`ReadEvent`] over models.
pub struct ReadEventModel {
    pub name: Seq<char>,
    pub tokens: Seq<NamedTokenModel>,
}

impl View for ReadEvent {
    type V = ReadEventModel;

    open spec fn view(&self) -> ReadEventModel {
        ReadEventModel { name: self.name@, tokens: named_tokens_model(self.tokens@) }
    }
}

/// The models of events, in order.
pub open spec fn read_events_model(events: Seq<ReadEvent>) -> Seq<ReadEventModel> {
    Seq::new(events.len(), |i: int| events[i]@)
}

/// What was read from the messages of a transaction.
#[derive(Debug, PartialEq, Eq)]
pub struct Collected {
    pub output: Option<Vec<Token>>,
    pub events: Vec<ReadEvent>,
}

/// [`Collected`] over models.
pub struct CollectedModel {
    pub output: Option<Seq<NamedTokenModel>>,
    pub events: Seq<ReadEventModel>,
}

impl View for Collected {
    type V = CollectedModel;

    open spec fn view(&self) -> CollectedModel {
        CollectedModel {
            output: match self.output {
                Some(tokens) => Some(named_tokens_model(tokens@)),
                None => None,
            },
            events: read_events_model(self.events@),
        }
    }
}

/// What was read after one message more.
pub open spec fn collect_one_model(
    before: CollectedModel,
    record: OutRecordModel,
    output_id: Option<u32>,
) -> Result<CollectedModel, ErrorModel> {
    match record.message {
        Err(words) => Err(reported_runtime(words)),
        Ok(message) => match route_model(message, output_id) {
            RouteModel::Skip => Ok(before),
            RouteModel::Output(_) => match record.decoded {
                Err(words) => Err(reported_runtime(words)),
                Ok(tokens) => Ok(CollectedModel { output: Some(tokens), events: before.events }),
            },
            RouteModel::Event(name, _) => match record.decoded {
                Err(words) => Err(reported_runtime(words)),
                Ok(tokens) => Ok(
                    CollectedModel {
                        output: before.output,
                        events: before.events.push(ReadEventModel { name, tokens }),
                    },
                ),
            },
        },
    }
}

/// What is read from the messages of a transaction, one after the other; the first that
/// fails decides.
pub open spec fn collect_model(
    records: Seq<OutRecordModel>,
    output_id: Option<u32>,
) -> Result<CollectedModel, ErrorModel>
    decreases records.len(),
{
    if records.len() == 0 {
        Ok(CollectedModel { output: None, events: Seq::empty() })
    } else {
        match collect_model(records.drop_last(), output_id) {
            Ok(before) => collect_one_model(before, records.last(), output_id),
            Err(e) => Err(e),
        }
    }
}

proof fn lemma_collect_error(records: Seq<OutRecordModel>, n: int, output_id: Option<u32>)
    requires
        0 <= n <= records.len(),
        collect_model(records.take(n), output_id) is Err,
    ensures
        collect_model(records, output_id) == collect_model(records.take(n), output_id),
    decreases records.len(),
{
    if n == records.len() {
        assert(records.take(n) =~= records);
    } else {
        assert(records.drop_last().take(n) =~= records.take(n));
        lemma_collect_error(records.drop_last(), n, output_id);
    }
}

/// Reads the messages of a transaction.
pub fn collect(records: Vec<OutRecord>, output_id: Option<u32>) -> (collected: Result<
    Collected,
    AbiError,
>)
    ensures
        match collected {
            Ok(c) => collect_model(records_model(records@), output_id) == Ok::<
                CollectedModel,
                ErrorModel,
            >(c@),
            Err(e) => collect_model(records_model(records@), output_id) == Err::<
                CollectedModel,
                ErrorModel,
            >(e@),
        },
{
    let ghost model = records_model(records@);
    let mut output: Option<Vec<Token>> = None;
    let mut events: Vec<ReadEvent> = Vec::new();
    proof {
        assert(model.take(0) =~= Seq::<OutRecordModel>::empty());
        assert(read_events_model(events@) =~= Seq::<ReadEventModel>::empty());
    }
    for record in it: records
        invariant
            it.seq() == records@,
            model == records_model(records@),
            collect_model(model.take(it.index() as int), output_id) == Ok::<
                CollectedModel,
                ErrorModel,
            >((Collected { output, events })@),
    {
        let ghost i = it.index() as int;
        let ghost before = (Collected { output, events })@;
        proof {
            assert(record == records@[i]);
            assert(model.take(i + 1).drop_last() =~= model.take(i));
            assert(model.take(i + 1).last() == record@);
            assert(collect_model(model.take(i + 1), output_id) == collect_one_model(
                before,
                record@,
                output_id,
            ));
        }
        let message: OutMessage = match record.message {
            Ok(message) => message,
            Err(words) => {
                proof {
                    lemma_collect_error(model, i + 1, output_id);
                }
                return Err(AbiError::Runtime(Reason::Reported(words)));
            },
        };
        match message.route(output_id) {
            Route::Skip => {},
            Route::Output(_) => match record.decoded {
                Ok(tokens) => {
                    output = Some(tokens);
                },
                Err(words) => {
                    proof {
                        lemma_collect_error(model, i + 1, output_id);
                    }
                    return Err(AbiError::Runtime(Reason::Reported(words)));
                },
            },
            Route::Event(name, _) => match record.decoded {
                Ok(tokens) => {
                    let ghost earlier = events@;
                    let event: ReadEvent = ReadEvent { name, tokens };
                    events.push(event);
                    assert(read_events_model(events@) =~= read_events_model(earlier).push(event@));
                },
                Err(words) => {
                    proof {
                        lemma_collect_error(model, i + 1, output_id);
                    }
                    return Err(AbiError::Runtime(Reason::Reported(words)));
                },
            },
        }
    }
    assert(model.take(records@.len() as int) =~= model);
    Ok(Collected { output, events })
}

/// Whether a message holds the answer of a function.
pub open spec fn answers(record: OutRecordModel, output_id: u32) -> bool {
    record.message matches Ok(message) && route_model(message, Some(output_id)) is Output
}

/// The exception that reading a message gives, if it gives one.
pub open spec fn failure_of(record: OutRecordModel, output_id: Option<u32>) -> Option<ErrorModel> {
    match record.message {
        Err(words) => Some(reported_runtime(words)),
        Ok(message) => if route_model(message, output_id) is Skip {
            None
        } else {
            match record.decoded {
                Err(words) => Some(reported_runtime(words)),
                Ok(_) => None,
            }
        },
    }
}

/// Reading the messages fails exactly if reading one of them fails, and then as the first
/// such message does.
pub proof fn first_failure_decides(
    records: Seq<OutRecordModel>,
    output_id: Option<u32>,
    first: int,
)
    requires
        0 <= first <= records.len(),
        forall|i: int| 0 <= i < first ==> failure_of(#[trigger] records[i], output_id) is None,
        first < records.len() ==> failure_of(records[first], output_id) is Some,
    ensures
        collect_model(records, output_id) is Ok <==> first == records.len(),
        first < records.len() ==> collect_model(records, output_id) == Err::<
            CollectedModel,
            ErrorModel,
        >(failure_of(records[first], output_id)->0),
    decreases records.len(),
{
    if records.len() > 0 {
        let shorter = records.drop_last();
        let cut = if first < shorter.len() { first } else { shorter.len() as int };
        assert forall|i: int| 0 <= i < cut implies failure_of(
            #[trigger] shorter[i],
            output_id,
        ) is None by {
            assert(shorter[i] == records[i]);
        }
        if cut < shorter.len() {
            assert(shorter[cut] == records[first]);
        }
        first_failure_decides(shorter, output_id, cut);
        if first == records.len() {
            assert(failure_of(records[records.len() - 1], output_id) is None);
        }
    }
}

/// The answer is the one in the last message that holds an answer; where no message holds
/// one, there is none.
pub proof fn last_answer_is_output(records: Seq<OutRecordModel>, output_id: u32, last: int)
    requires
        collect_model(records, Some(output_id)) is Ok,
        -1 <= last < records.len(),
        last >= 0 ==> answers(records[last], output_id),
        forall|i: int| last < i < records.len() ==> !answers(#[trigger] records[i], output_id),
    ensures
        collect_model(records, Some(output_id))->Ok_0.output == (if last < 0 {
            None
        } else {
            Some(records[last].decoded->Ok_0)
        }),
        last >= 0 ==> records[last].decoded is Ok,
    decreases records.len(),
{
    if records.len() > 0 {
        let shorter = records.drop_last();
        if last < records.len() - 1 {
            assert forall|i: int| last < i < shorter.len() implies !answers(
                #[trigger] shorter[i],
                output_id,
            ) by {
                assert(shorter[i] == records[i]);
            }
            if last >= 0 {
                assert(shorter[last] == records[last]);
            }
            last_answer_is_output(shorter, output_id, last);
            assert(!answers(records[records.len() - 1], output_id));
        }
    }
}

/// The events of a call are those of the transaction without the messages that hold an
/// answer.
pub proof fn answers_are_no_events(records: Seq<OutRecordModel>, output_id: u32)
    requires
        collect_model(records, Some(output_id)) is Ok,
    ensures
        collect_model(
            records.filter(|record: OutRecordModel| !answers(record, output_id)),
            None,
        ) == Ok::<CollectedModel, ErrorModel>(
            CollectedModel {
                output: None,
                events: collect_model(records, Some(output_id))->Ok_0.events,
            },
        ),
    decreases records.len(),
{
    reveal(Seq::filter);
    let others = |record: OutRecordModel| !answers(record, output_id);
    if records.len() > 0 {
        answers_are_no_events(records.drop_last(), output_id);
        let kept = records.drop_last().filter(others);
        if others(records.last()) {
            assert(records.filter(others) == kept.push(records.last()));
            assert(kept.push(records.last()).drop_last() =~= kept);
        } else {
            assert(records.filter(others) == kept);
        }
    }
}

} // verus!
