//! Contracts: functions and events by name, initial data, and transactions.

use crate::convert::{convert_named_model, convert_tokens};
use crate::decode::{
    call_model, returned_message, returned_tokens, CallModel, FunctionCall, InMessage,
    InMessageModel,
};
use crate::error::{
    handle_runtime_error, handle_value_error, reported_runtime, reported_value, AbiError,
    ErrorModel, Reason, ReasonModel,
};
use crate::event::{EventAbi, EventModel};
use crate::function::{FunctionAbi, FunctionModel};
use crate::headers::optional_key;
use crate::init_data::{
    data_items_model, existing_data_is_only_begun_with, existing_root, init_data_model, plan_init_data, plan_items_model,
    plan_start_model, read_init_data, DataItem, DataItemModel, InitData, InitDataModel, InitPlan,
    KeyEntry,
};
use crate::keys::PublicKey;
use crate::ledger::Cell;
use crate::parse::{refusals_model, Refusal};
use crate::token::{lemma_named_tokens_model, named_tokens_model, NamedTokenModel, Token};
use crate::transaction::{
    collect, collect_model, read_events_model, records_model, route_model, Collected,
    CollectedModel, OutRecord, OutRecordModel, ReadEvent, ReadEventModel, RouteModel,
};
use crate::value::{Dict, ItemModel};
use crate::version::AbiVersion;
use vstd::hash_map::StringHashMap;
use vstd::prelude::*;

verus! {

/// A function under the name by which it is found.
#[derive(Debug, PartialEq, Eq)]
pub struct FunctionEntry {
    pub name: String,
    pub abi: FunctionAbi,
}

/// An event under the name by which it is found.
#[derive(Debug, PartialEq, Eq)]
pub struct EventEntry {
    pub name: String,
    pub abi: EventAbi,
}

/// A name and what stands under it.
pub struct NamedModel<M> {
    pub name: Seq<char>,
    pub abi: M,
}

/// What is found under names; of entries with one name the last is found.
pub open spec fn name_table<M>(entries: Seq<NamedModel<M>>) -> Map<Seq<char>, M>
    decreases entries.len(),
{
    if entries.len() == 0 {
        Map::empty()
    } else {
        name_table(entries.drop_last()).insert(entries.last().name, entries.last().abi)
    }
}

/// The models of functions with their names, in order.
pub open spec fn function_entries_model(entries: Seq<FunctionEntry>) -> Seq<
    NamedModel<FunctionModel>,
> {
    Seq::new(
        entries.len(),
        |i: int| NamedModel { name: entries[i].name@, abi: entries[i].abi@ },
    )
}

/// The models of events with their names, in order.
pub open spec fn event_entries_model(entries: Seq<EventEntry>) -> Seq<NamedModel<EventModel>> {
    Seq::new(
        entries.len(),
        |i: int| NamedModel { name: entries[i].name@, abi: entries[i].abi@ },
    )
}

/// Under a name the last entry with that name is found, and nothing where no entry has it.
pub proof fn last_entry_is_found<M>(entries: Seq<NamedModel<M>>, name: Seq<char>, last: int)
    requires
        -1 <= last < entries.len(),
        last >= 0 ==> entries[last].name == name,
        forall|i: int| last < i < entries.len() ==> (#[trigger] entries[i]).name != name,
    ensures
        name_table(entries).contains_key(name) <==> last >= 0,
        last >= 0 ==> name_table(entries)[name] == entries[last].abi,
    decreases entries.len(),
{
    if entries.len() > 0 {
        let shorter = entries.drop_last();
        let end = entries.len() - 1;
        if last < end {
            assert(entries[end].name != name);
            assert forall|i: int| last < i < shorter.len() implies (#[trigger] shorter[i]).name
                != name by {
                assert(shorter[i] == entries[i]);
            }
            if last >= 0 {
                assert(shorter[last] == entries[last]);
            }
            last_entry_is_found(shorter, name, last);
        }
    }
}

/// A contract: its functions and events by name, and the values of its initial data.
pub struct ContractAbi {
    pub abi_version: AbiVersion,
    pub functions: StringHashMap<FunctionAbi>,
    pub events: StringHashMap<EventAbi>,
    pub data: Vec<DataItem>,
}

/// [`ContractAbi`] over models.
pub struct ContractModel {
    pub abi_version: AbiVersion,
    pub functions: Map<Seq<char>, FunctionModel>,
    pub events: Map<Seq<char>, EventModel>,
    pub data: Seq<DataItemModel>,
}

/// The models of functions, under their names.
pub open spec fn functions_model(functions: Map<Seq<char>, FunctionAbi>) -> Map<
    Seq<char>,
    FunctionModel,
> {
    functions.map_values(|function: FunctionAbi| function@)
}

/// The models of events, under their names.
pub open spec fn events_model(events: Map<Seq<char>, EventAbi>) -> Map<Seq<char>, EventModel> {
    events.map_values(|event: EventAbi| event@)
}

impl View for ContractAbi {
    type V = ContractModel;

    open spec fn view(&self) -> ContractModel {
        ContractModel {
            abi_version: self.abi_version,
            functions: functions_model(self.functions@),
            events: events_model(self.events@),
            data: data_items_model(self.data@),
        }
    }
}

/// Whether every function and every event stands under its own name and is of the
/// contract's version.
pub open spec fn own_names(contract: ContractModel) -> bool {
    &&& forall|name: Seq<char>| #[trigger]
        contract.functions.contains_key(name) ==> contract.functions[name].name == name
            && contract.functions[name].abi_version == contract.abi_version
    &&& forall|name: Seq<char>| #[trigger]
        contract.events.contains_key(name) ==> contract.events[name].name == name
            && contract.events[name].abi_version == contract.abi_version
}

/// Whether every entry is a function under its own name and of a version.
pub open spec fn own_function_names(
    version: AbiVersion,
    entries: Seq<NamedModel<FunctionModel>>,
) -> bool {
    forall|i: int|
        #![trigger entries[i]]
        0 <= i < entries.len() ==> entries[i].abi.name == entries[i].name
            && entries[i].abi.abi_version == version
}

/// Whether every entry is an event under its own name and of a version.
pub open spec fn own_event_names(
    version: AbiVersion,
    entries: Seq<NamedModel<EventModel>>,
) -> bool {
    forall|i: int|
        #![trigger entries[i]]
        0 <= i < entries.len() ==> entries[i].abi.name == entries[i].name
            && entries[i].abi.abi_version == version
}

/// Under a name something is found exactly if an entry has that name, and then it is what
/// stands in one of those entries.
pub proof fn found_is_declared<M>(entries: Seq<NamedModel<M>>, name: Seq<char>)
    ensures
        name_table(entries).contains_key(name) <==> exists|i: int|
            0 <= i < entries.len() && (#[trigger] entries[i]).name == name,
        name_table(entries).contains_key(name) ==> exists|i: int|
            0 <= i < entries.len() && (#[trigger] entries[i]).name == name && entries[i].abi
                == name_table(entries)[name],
    decreases entries.len(),
{
    if entries.len() > 0 {
        let shorter = entries.drop_last();
        let end = entries.len() - 1;
        found_is_declared(shorter, name);
        assert(entries.last() == entries[end]);
        if entries[end].name != name {
            if name_table(shorter).contains_key(name) {
                let i = choose|i: int|
                    0 <= i < shorter.len() && (#[trigger] shorter[i]).name == name
                        && shorter[i].abi == name_table(shorter)[name];
                assert(entries[i] == shorter[i]);
            }
            if exists|i: int| 0 <= i < entries.len() && (#[trigger] entries[i]).name == name {
                let i = choose|i: int|
                    0 <= i < entries.len() && (#[trigger] entries[i]).name == name;
                assert(shorter[i] == entries[i]);
            }
        }
    }
}

/// A contract whose entries stand under their own names and are of its version gives back
/// under a name just a function or an event of that name and of its version.
pub proof fn own_names_are_found(
    contract: ContractModel,
    functions: Seq<NamedModel<FunctionModel>>,
    events: Seq<NamedModel<EventModel>>,
)
    requires
        contract.functions == name_table(functions),
        contract.events == name_table(events),
        own_function_names(contract.abi_version, functions),
        own_event_names(contract.abi_version, events),
    ensures
        own_names(contract),
{
    assert forall|name: Seq<char>| #[trigger] contract.functions.contains_key(name) implies
        contract.functions[name].name == name && contract.functions[name].abi_version
        == contract.abi_version by {
        found_is_declared(functions, name);
    }
    assert forall|name: Seq<char>| #[trigger] contract.events.contains_key(name) implies
        contract.events[name].name == name && contract.events[name].abi_version
        == contract.abi_version by {
        found_is_declared(events, name);
    }
}

/// An event of a transaction, with its values.
#[derive(Debug, PartialEq, Eq)]
pub struct EventCall {
    pub event: EventAbi,
    pub input: Dict,
}

/// [`EventCall`] over models.
pub struct EventCallModel {
    pub event: EventModel,
    pub input: Seq<ItemModel>,
}

impl View for EventCall {
    type V = EventCallModel;

    open spec fn view(&self) -> EventCallModel {
        EventCallModel { event: self.event@, input: self.input@ }
    }
}

/// The models of events with their values, in order.
pub open spec fn event_calls_model(calls: Seq<EventCall>) -> Seq<EventCallModel> {
    Seq::new(calls.len(), |i: int| calls[i]@)
}

/// The events that were read, converted one after the other; the first that fails decides.
pub open spec fn converted_events_model(
    read: Seq<ReadEventModel>,
    events: Map<Seq<char>, EventModel>,
) -> Result<Seq<EventCallModel>, ErrorModel>
    decreases read.len(),
{
    if read.len() == 0 {
        Ok(Seq::empty())
    } else {
        match converted_events_model(read.drop_last(), events) {
            Err(e) => Err(e),
            Ok(calls) => match convert_named_model(read.last().tokens) {
                Err(e) => Err(e),
                Ok(input) => Ok(
                    calls.push(EventCallModel { event: events[read.last().name], input }),
                ),
            },
        }
    }
}

proof fn lemma_converted_events_error(
    read: Seq<ReadEventModel>,
    n: int,
    events: Map<Seq<char>, EventModel>,
)
    requires
        0 <= n <= read.len(),
        converted_events_model(read.take(n), events) is Err,
    ensures
        converted_events_model(read, events) == converted_events_model(read.take(n), events),
    decreases read.len(),
{
    if n == read.len() {
        assert(read.take(n) =~= read);
    } else {
        assert(read.drop_last().take(n) =~= read.take(n));
        lemma_converted_events_error(read.drop_last(), n, events);
    }
}

/// A call with its function and the events of its transaction.
#[derive(Debug, PartialEq, Eq)]
pub struct FunctionCallFull {
    pub call: FunctionCall,
    pub function: FunctionAbi,
    pub events: Vec<EventCall>,
}

/// [`FunctionCallFull`] over models.
pub struct FullCallModel {
    pub call: CallModel,
    pub function: FunctionModel,
    pub events: Seq<EventCallModel>,
}

impl View for FunctionCallFull {
    type V = FullCallModel;

    open spec fn view(&self) -> FullCallModel {
        FullCallModel {
            call: self.call@,
            function: self.function@,
            events: event_calls_model(self.events@),
        }
    }
}

/// The answer of a function: the one that was read, or an empty one where the function
/// has no answer.
pub open spec fn answer_model(
    output: Option<Seq<NamedTokenModel>>,
    has_output: bool,
) -> Result<Seq<NamedTokenModel>, ErrorModel> {
    match output {
        Some(tokens) => Ok(tokens),
        None => if has_output {
            Err(ErrorModel::Runtime(ReasonModel::NoOutput))
        } else {
            Ok(Seq::empty())
        },
    }
}

/// The call of a function with the events of its transaction, from what came back from
/// decoding the input and from the messages that the transaction sends. The input decides
/// first, then the messages, then whether there is an answer; events are converted before
/// the input and the output.
pub open spec fn full_call_model(
    function: FunctionModel,
    events: Map<Seq<char>, EventModel>,
    input: Result<Seq<NamedTokenModel>, Seq<char>>,
    records: Seq<OutRecordModel>,
) -> Result<FullCallModel, ErrorModel> {
    match input {
        Err(words) => Err(reported_runtime(words)),
        Ok(given) => match collect_model(records, Some(function.output_id)) {
            Err(e) => Err(e),
            Ok(collected) => match answer_model(collected.output, function.has_output) {
                Err(e) => Err(e),
                Ok(answer) => match converted_events_model(collected.events, events) {
                    Err(e) => Err(e),
                    Ok(calls) => match call_model(given, answer) {
                        Err(e) => Err(e),
                        Ok(call) => Ok(FullCallModel { call, function, events: calls }),
                    },
                },
            },
        },
    }
}

/// What came back from guessing the function of a message.
pub open spec fn returned_guess(guess: Result<Option<String>, String>) -> Result<
    Option<Seq<char>>,
    Seq<char>,
> {
    match guess {
        Ok(Some(name)) => Ok(Some(name@)),
        Ok(None) => Ok(None),
        Err(words) => Err(words@),
    }
}

/// The call that a transaction came from. There is none where there is no message with a
/// body, or where no function is guessed from it.
pub open spec fn contract_call_model(
    contract: ContractModel,
    in_msg: Result<Option<InMessageModel>, Seq<char>>,
    guess: Result<Option<Seq<char>>, Seq<char>>,
    input: Result<Seq<NamedTokenModel>, Seq<char>>,
    records: Seq<OutRecordModel>,
) -> Result<Option<FullCallModel>, ErrorModel> {
    match in_msg {
        Err(words) => Err(reported_runtime(words)),
        Ok(None) => Ok(None),
        Ok(Some(message)) => if message.body is None {
            Ok(None)
        } else {
            match guess {
                Err(words) => Err(reported_value(words)),
                Ok(None) => Ok(None),
                Ok(Some(name)) => match full_call_model(
                    contract.functions[name],
                    contract.events,
                    input,
                    records,
                ) {
                    Ok(call) => Ok(Some(call)),
                    Err(e) => Err(e),
                },
            }
        },
    }
}

/// The events of a transaction, from the messages that it sends.
pub open spec fn transaction_events_model(
    events: Map<Seq<char>, EventModel>,
    records: Seq<OutRecordModel>,
) -> Result<Seq<EventCallModel>, ErrorModel> {
    match collect_model(records, None) {
        Err(e) => Err(e),
        Ok(collected) => converted_events_model(collected.events, events),
    }
}

/// Whether every event that is to be read is one of those given. Behind a message that
/// fails nothing is read.
pub open spec fn events_known(
    records: Seq<OutRecordModel>,
    output_id: Option<u32>,
    events: Map<Seq<char>, EventModel>,
) -> bool {
    forall|i: int|
        #![trigger records[i]]
        0 <= i < records.len() && collect_model(records.take(i), output_id) is Ok ==> (
        records[i].message matches Ok(message) ==> (route_model(
            message,
            output_id,
        ) matches RouteModel::Event(name, _) ==> events.contains_key(name)))
}

proof fn lemma_read_events_known(
    records: Seq<OutRecordModel>,
    output_id: Option<u32>,
    events: Map<Seq<char>, EventModel>,
)
    requires
        events_known(records, output_id, events),
        collect_model(records, output_id) is Ok,
    ensures
        forall|i: int|
            0 <= i < collect_model(records, output_id)->Ok_0.events.len()
                ==> events.contains_key(
                (#[trigger] collect_model(records, output_id)->Ok_0.events[i]).name,
            ),
    decreases records.len(),
{
    if records.len() > 0 {
        let shorter = records.drop_last();
        let last = records.len() - 1;
        assert(events_known(shorter, output_id, events)) by {
            assert forall|i: int|
                #![trigger shorter[i]]
                0 <= i < shorter.len() && collect_model(shorter.take(i), output_id) is Ok implies (
            shorter[i].message matches Ok(message) ==> (route_model(
                message,
                output_id,
            ) matches RouteModel::Event(name, _) ==> events.contains_key(name))) by {
                assert(shorter.take(i) =~= records.take(i));
                assert(shorter[i] == records[i]);
            }
        }
        lemma_read_events_known(shorter, output_id, events);
        assert(records.last() == records[last]);
        assert(records.take(last) =~= shorter);
        let before = collect_model(shorter, output_id)->Ok_0.events;
        let after = collect_model(records, output_id)->Ok_0.events;
        assert forall|i: int| 0 <= i < after.len() implies events.contains_key(
            (#[trigger] after[i]).name,
        ) by {
            if i < before.len() {
                assert(after[i] == before[i]);
            }
        }
    }
}

/// Whether the names that came back are known as far as they are used: that of the
/// function where there is a body, and those of events where the input was decoded.
pub open spec fn names_known(
    contract: ContractModel,
    in_msg: Result<Option<InMessageModel>, Seq<char>>,
    guess: Result<Option<Seq<char>>, Seq<char>>,
    input: Result<Seq<NamedTokenModel>, Seq<char>>,
    records: Seq<OutRecordModel>,
) -> bool {
    in_msg matches Ok(Some(message)) ==> (message.body is Some ==> (guess matches Ok(Some(name))
        ==> {
        &&& contract.functions.contains_key(name)
        &&& input is Ok ==> events_known(
            records,
            Some(contract.functions[name].output_id),
            contract.events,
        )
    }))
}

fn convert_events(read: Vec<ReadEvent>, events: &StringHashMap<EventAbi>) -> (calls: Result<
    Vec<EventCall>,
    AbiError,
>)
    requires
        forall|i: int|
            0 <= i < read@.len() ==> events@.contains_key((#[trigger] read@[i]).name@),
    ensures
        ({
            let model = converted_events_model(
                read_events_model(read@),
                events_model(events@),
            );
            match calls {
                Ok(cs) => model == Ok::<Seq<EventCallModel>, ErrorModel>(event_calls_model(cs@)),
                Err(e) => model == Err::<Seq<EventCallModel>, ErrorModel>(e@),
            }
        }),
{
    let ghost model = read_events_model(read@);
    let ghost known = events_model(events@);
    let mut calls: Vec<EventCall> = Vec::new();
    proof {
        assert(model.take(0) =~= Seq::<ReadEventModel>::empty());
        assert(event_calls_model(calls@) =~= Seq::<EventCallModel>::empty());
    }
    for event in it: read
        invariant
            it.seq() == read@,
            model == read_events_model(read@),
            known == events_model(events@),
            forall|i: int|
                0 <= i < read@.len() ==> events@.contains_key((#[trigger] read@[i]).name@),
            converted_events_model(model.take(it.index() as int), known) == Ok::<
                Seq<EventCallModel>,
                ErrorModel,
            >(event_calls_model(calls@)),
    {
        let ghost i = it.index() as int;
        proof {
            assert(event == read@[i]);
            assert(model.take(i + 1).drop_last() =~= model.take(i));
            assert(model.take(i + 1).last() == event@);
        }
        let input: Dict = match convert_tokens(event.tokens) {
            Ok(dict) => dict,
            Err(e) => {
                proof {
                    lemma_converted_events_error(model, i + 1, known);
                }
                return Err(e);
            },
        };
        match events.get(event.name.as_str()) {
            Some(abi) => {
                let ghost earlier = calls@;
                let call: EventCall = EventCall { event: abi.clone(), input };
                calls.push(call);
                proof {
                    assert(known[event.name@] == abi@);
                    assert(event_calls_model(calls@) =~= event_calls_model(earlier).push(call@));
                }
            },
            None => {
                assert(false);
            },
        }
    }
    assert(model.take(read@.len() as int) =~= model);
    Ok(calls)
}

impl ContractAbi {
    /// A contract of functions and events under their names, and of the values of its
    /// initial data.
    pub fn new(
        abi_version: AbiVersion,
        functions: Vec<FunctionEntry>,
        events: Vec<EventEntry>,
        data: Vec<DataItem>,
    ) -> (contract: ContractAbi)
        ensures
            contract@ == (ContractModel {
                abi_version,
                functions: name_table(function_entries_model(functions@)),
                events: name_table(event_entries_model(events@)),
                data: data_items_model(data@),
            }),
            own_function_names(abi_version, function_entries_model(functions@))
                && own_event_names(abi_version, event_entries_model(events@)) ==> own_names(
                contract@,
            ),
    {
        let ghost named_functions = function_entries_model(functions@);
        let ghost named_events = event_entries_model(events@);
        let mut function_map: StringHashMap<FunctionAbi> = StringHashMap::new();
        assert(functions_model(function_map@) =~= name_table(named_functions.take(0)));
        for entry in it: functions
            invariant
                it.seq() == functions@,
                named_functions == function_entries_model(functions@),
                functions_model(function_map@) == name_table(
                    named_functions.take(it.index() as int),
                ),
        {
            let ghost i = it.index() as int;
            let ghost before = function_map@;
            proof {
                assert(entry == functions@[i]);
                assert(named_functions.take(i + 1).drop_last() =~= named_functions.take(i));
            }
            function_map.insert(entry.name, entry.abi);
            assert(functions_model(function_map@) =~= functions_model(before).insert(
                entry.name@,
                entry.abi@,
            ));
        }
        assert(named_functions.take(functions@.len() as int) =~= named_functions);
        let mut event_map: StringHashMap<EventAbi> = StringHashMap::new();
        assert(events_model(event_map@) =~= name_table(named_events.take(0)));
        for entry in it: events
            invariant
                it.seq() == events@,
                named_events == event_entries_model(events@),
                events_model(event_map@) == name_table(named_events.take(it.index() as int)),
        {
            let ghost i = it.index() as int;
            let ghost before = event_map@;
            proof {
                assert(entry == events@[i]);
                assert(named_events.take(i + 1).drop_last() =~= named_events.take(i));
            }
            event_map.insert(entry.name, entry.abi);
            assert(events_model(event_map@) =~= events_model(before).insert(
                entry.name@,
                entry.abi@,
            ));
        }
        assert(named_events.take(events@.len() as int) =~= named_events);
        let contract: ContractAbi = ContractAbi {
            abi_version,
            functions: function_map,
            events: event_map,
            data,
        };
        proof {
            if own_function_names(abi_version, named_functions) && own_event_names(
                abi_version,
                named_events,
            ) {
                own_names_are_found(contract@, named_functions, named_events);
            }
        }
        contract
    }

    /// The version of the ABI.
    pub fn abi_version(&self) -> (version: AbiVersion)
        ensures
            version == self@.abi_version,
    {
        self.abi_version
    }

    /// The function of a name.
    pub fn get_function(&self, name: &str) -> (function: Option<FunctionAbi>)
        ensures
            match function {
                Some(f) => self@.functions.contains_key(name@) && f@ == self@.functions[name@],
                None => !self@.functions.contains_key(name@),
            },
            own_names(self@) ==> (function matches Some(f) ==> f@.name == name@ && f@.abi_version
                == self@.abi_version),
    {
        match self.functions.get(name) {
            Some(function) => Some(function.clone()),
            None => None,
        }
    }

    /// The event of a name.
    pub fn get_event(&self, name: &str) -> (event: Option<EventAbi>)
        ensures
            match event {
                Some(e) => self@.events.contains_key(name@) && e@ == self@.events[name@],
                None => !self@.events.contains_key(name@),
            },
            own_names(self@) ==> (event matches Some(e) ==> e@.name == name@ && e@.abi_version
                == self@.abi_version),
    {
        match self.events.get(name) {
            Some(event) => Some(event.clone()),
            None => None,
        }
    }

    /// How the initial data of the contract is made; its values are packed for the version
    /// of the contract. `existing` is what came back from reading the first reference of data
    /// that exists.
    pub fn encode_init_data(
        &self,
        data: &Dict,
        public_key: Option<&PublicKey>,
        existing: Option<Result<Cell, String>>,
        refusals: &[Refusal],
    ) -> (plan: InitPlan)
        ensures
            plan@ == plan_items_model(
                plan_start_model(
                    self@.abi_version,
                    optional_key(public_key),
                    existing_root(existing),
                ),
                self@.data,
                data@,
                refusals_model(refusals@),
            ),
            plan@.abi_version == self@.abi_version,
    {
        proof {
            existing_data_is_only_begun_with(
                self.abi_version,
                optional_key(public_key),
                existing_root(existing),
                None,
                self@.data,
                data@,
                refusals_model(refusals@),
            );
        }
        plan_init_data(
            self.abi_version,
            self.data.as_slice(),
            data,
            public_key,
            existing,
            refusals,
        )
    }

    /// The initial data of the contract, from what came back from looking the public key
    /// up and from decoding the values.
    pub fn decode_init_data(&self, entry: KeyEntry, tokens: Result<Vec<Token>, String>) -> (data:
        Result<InitData, AbiError>)
        ensures
            match data {
                Ok(d) => init_data_model(entry, returned_tokens(tokens)) == Ok::<
                    InitDataModel,
                    ErrorModel,
                >(d@),
                Err(e) => init_data_model(entry, returned_tokens(tokens)) == Err::<
                    InitDataModel,
                    ErrorModel,
                >(e@),
            },
    {
        read_init_data(entry, tokens)
    }

    /// The call that a transaction came from, from the message that it came from, from
    /// what came back from guessing the function and decoding the input, and from the
    /// messages that the transaction sends.
    pub fn decode_transaction(
        &self,
        in_msg: Result<Option<InMessage>, String>,
        guess: Result<Option<String>, String>,
        input: Result<Vec<Token>, String>,
        records: Vec<OutRecord>,
    ) -> (call: Result<Option<FunctionCallFull>, AbiError>)
        requires
            names_known(
                self@,
                returned_message(in_msg),
                returned_guess(guess),
                returned_tokens(input),
                records_model(records@),
            ),
        ensures
            ({
                let model = contract_call_model(
                    self@,
                    returned_message(in_msg),
                    returned_guess(guess),
                    returned_tokens(input),
                    records_model(records@),
                );
                match call {
                    Ok(Some(c)) => model == Ok::<Option<FullCallModel>, ErrorModel>(Some(c@)),
                    Ok(None) => model == Ok::<Option<FullCallModel>, ErrorModel>(None),
                    Err(e) => model == Err::<Option<FullCallModel>, ErrorModel>(e@),
                }
            }),
    {
        let message: InMessage = match handle_runtime_error(in_msg) {
            Ok(Some(message)) => message,
            Ok(None) => {
                return Ok(None);
            },
            Err(e) => {
                return Err(e);
            },
        };
        if message.body.is_none() {
            return Ok(None);
        }
        let name: String = match handle_value_error(guess) {
            Ok(Some(name)) => name,
            Ok(None) => {
                return Ok(None);
            },
            Err(e) => {
                return Err(e);
            },
        };
        match self.get_function(name.as_str()) {
            Some(function) => match self.decode_call(function, input, records) {
                Ok(call) => Ok(Some(call)),
                Err(e) => Err(e),
            },
            None => {
                assert(false);
                Ok(None)
            },
        }
    }

    fn decode_call(
        &self,
        function: FunctionAbi,
        input: Result<Vec<Token>, String>,
        records: Vec<OutRecord>,
    ) -> (call: Result<FunctionCallFull, AbiError>)
        requires
            returned_tokens(input) is Ok ==> events_known(
                records_model(records@),
                Some(function@.output_id),
                self@.events,
            ),
        ensures
            ({
                let model = full_call_model(
                    function@,
                    self@.events,
                    returned_tokens(input),
                    records_model(records@),
                );
                match call {
                    Ok(c) => model == Ok::<FullCallModel, ErrorModel>(c@),
                    Err(e) => model == Err::<FullCallModel, ErrorModel>(e@),
                }
            }),
    {
        let input: Vec<Token> = match handle_runtime_error(input) {
            Ok(tokens) => tokens,
            Err(e) => {
                return Err(e);
            },
        };
        let ghost model = records_model(records@);
        let collected: Collected = match collect(records, Some(function.output_id)) {
            Ok(collected) => collected,
            Err(e) => {
                return Err(e);
            },
        };
        let output: Vec<Token> = match collected.output {
            Some(tokens) => tokens,
            None => {
                if function.has_output {
                    return Err(AbiError::Runtime(Reason::NoOutput));
                }
                let empty: Vec<Token> = Vec::new();
                proof {
                    lemma_named_tokens_model(empty@);
                    assert(named_tokens_model(empty@) =~= Seq::<NamedTokenModel>::empty());
                }
                empty
            },
        };
        proof {
            lemma_read_events_known(model, Some(function.output_id), self@.events);
            lemma_collected_known(collected@, collected.events@, self.events@);
        }
        let events: Vec<EventCall> = match convert_events(collected.events, &self.events) {
            Ok(events) => events,
            Err(e) => {
                return Err(e);
            },
        };
        match FunctionCall::from_tokens(input, output) {
            Ok(call) => Ok(FunctionCallFull { call, function, events }),
            Err(e) => Err(e),
        }
    }

    /// The events of a transaction, from the messages that it sends.
    pub fn decode_transaction_events(&self, records: Vec<OutRecord>) -> (events: Result<
        Vec<EventCall>,
        AbiError,
    >)
        requires
            events_known(records_model(records@), None, self@.events),
        ensures
            ({
                let model = transaction_events_model(self@.events, records_model(records@));
                match events {
                    Ok(es) => model == Ok::<Seq<EventCallModel>, ErrorModel>(
                        event_calls_model(es@),
                    ),
                    Err(e) => model == Err::<Seq<EventCallModel>, ErrorModel>(e@),
                }
            }),
    {
        let ghost model = records_model(records@);
        let collected: Collected = match collect(records, None) {
            Ok(collected) => collected,
            Err(e) => {
                return Err(e);
            },
        };
        proof {
            lemma_read_events_known(model, None, self@.events);
            lemma_collected_known(collected@, collected.events@, self.events@);
        }
        convert_events(collected.events, &self.events)
    }
}

proof fn lemma_collected_known(
    collected: CollectedModel,
    read: Seq<ReadEvent>,
    events: Map<Seq<char>, EventAbi>,
)
    requires
        collected.events == read_events_model(read),
        forall|i: int|
            0 <= i < collected.events.len() ==> events_model(events).contains_key(
                (#[trigger] collected.events[i]).name,
            ),
    ensures
        forall|i: int| 0 <= i < read.len() ==> events.contains_key((#[trigger] read[i]).name@),
{
    assert forall|i: int| 0 <= i < read.len() implies events.contains_key(
        (#[trigger] read[i]).name@,
    ) by {
        assert(collected.events[i] == read[i]@);
    }
}

} // verus!
