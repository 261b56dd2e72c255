//! The decisions of a conversation step.
//!
//! The CSML interpreter runs a bot's flow and reports what it does as a
//! stream of messages: memories to remember or forget, messages to send,
//! holds, jumps to other steps, flows or bots, and errors. For each report the
//! library decides how the conversation's state changes and which outside
//! work (database writes, callbacks) is to be done, in order; the caller does
//! that work and, for jumps, tells the library whether it succeeded.
use vstd::prelude::*;

use crate::error::BitpartError;
use crate::event::Client;
use crate::flows::{flow_called, get_flow_by_id, CsmlBot, CsmlFlow, MultiBot};
use crate::text::str_is;

verus! {

/// Where in a flow a conversation stands.
#[derive(Debug, Clone)]
pub enum ContextStepInfo {
    /// A step of the current flow.
    Normal(String),
    /// A step of a flow that is not known yet.
    UnknownFlow(String),
    /// A step inserted into the current flow from another flow.
    InsertedStep { step: String, flow: String },
}

/// The name of the step.
pub open spec fn step_name(s: ContextStepInfo) -> Seq<char> {
    match s {
        ContextStepInfo::Normal(step) => step@,
        ContextStepInfo::UnknownFlow(step) => step@,
        ContextStepInfo::InsertedStep { step, flow } => step@,
    }
}

impl ContextStepInfo {
    /// The name of the step.
    pub fn get_step(&self) -> (r: String)
        ensures
            r@ == step_name(*self),
    {
        match self {
            ContextStepInfo::Normal(step) => step.clone(),
            ContextStepInfo::UnknownFlow(step) => step.clone(),
            ContextStepInfo::InsertedStep { step, flow: _ } => step.clone(),
        }
    }

    /// Whether the step is called `name`.
    pub fn is_step(&self, name: &str) -> (r: bool)
        ensures
            r == (step_name(*self) == name@),
    {
        match self {
            ContextStepInfo::Normal(step) => str_is(step.as_str(), name),
            ContextStepInfo::UnknownFlow(step) => str_is(step.as_str(), name),
            ContextStepInfo::InsertedStep { step, flow: _ } => str_is(step.as_str(), name),
        }
    }
}

/// A value the bot remembers for the user, under a key.
#[derive(Debug)]
pub struct Memory<V> {
    pub key: String,
    pub value: V,
}

/// A hand-over of the conversation to another bot.
#[derive(Debug, Clone)]
pub struct SwitchBot {
    pub bot_id: String,
    pub version_id: Option<String>,
    pub flow: Option<String>,
    pub step: String,
}

/// What the interpreter reports while it runs a step. `M` is a message to
/// the user, `H` the position the conversation holds at, `V` a remembered
/// value.
#[derive(Debug)]
pub enum InterpreterMessage<M, H, V> {
    Remember(Memory<V>),
    ForgetAll,
    ForgetOne(String),
    ForgetList(Vec<String>),
    Message(M),
    Shout(M),
    Log,
    Hold(H),
    Next { flow: Option<String>, step: Option<ContextStepInfo>, bot: Option<String> },
    Error(M),
}

/// Outside work that a report calls for, in the order it is to be done.
#[derive(Debug)]
pub enum StepAction<M> {
    /// Delete every memory of the conversation's user from the database.
    ForgetAllMemories,
    /// Delete the memory under this key from the database.
    ForgetMemory(String),
    /// Send the message to the callback URL, with the interaction order and
    /// end flag given, then keep it among the conversation's messages.
    Deliver { message: M, interaction_order: i32, end: bool },
    /// Send the message to the callback URL, then keep a copy of it for each
    /// open conversation of the bot.
    Shout { message: M, interaction_order: i32 },
    /// Store the hold position that the state now holds.
    StoreHold,
    /// Mark the conversation closed in the database.
    CloseConversation,
    /// Load the remembered values into the interpreter's context.
    LoadMemoriesIntoContext,
    /// Record the conversation's new flow (where it changes) and step.
    UpdateConversation { flow_id: Option<String>, step: String },
    /// Tell the callback URL that the conversation ended.
    NotifyEnd { interaction_order: i32 },
    /// Tell the callback URL that switching to this bot is not allowed.
    RefuseSwitch { target: String, interaction_order: i32 },
    /// Keep a switch-bot message to this bot among the conversation's
    /// messages and send it to the callback URL as the end.
    AnnounceSwitch { bot_id: String, interaction_order: i32 },
    /// Store, for the user's conversation with the next bot, where this bot
    /// left off: this bot's flow and step.
    SetPreviousBot { next_bot_id: String, flow: String, step: ContextStepInfo },
}

/// What happens to the state once the outside work of a report is done
/// without error.
#[derive(Debug)]
pub enum Settle {
    /// Nothing more.
    Nothing,
    /// The conversation moves on to its next interaction.
    NextInteraction,
    /// The step loop ends: the conversation is over.
    EndConversation,
    /// The step loop ends: the conversation goes over to another bot.
    SwitchTo(SwitchBot),
}

/// The decision on one report: the outside work to do, whether a failure of
/// that work ends the whole step with an error (otherwise it only cuts the
/// report's work short and nothing is settled), and what to settle after.
#[derive(Debug)]
pub struct StepOutcome<M> {
    pub actions: Vec<StepAction<M>>,
    pub failure_is_fatal: bool,
    pub on_success: Settle,
}

/// The state of a conversation while a step runs.
#[derive(Debug)]
pub struct StepState<V, H> {
    memories: Vec<Memory<V>>,
    conversation_end: bool,
    interaction_order: i32,
    flow: String,
    step: ContextStepInfo,
    current_flow: usize,
    hold: Option<H>,
    switch_bot: Option<SwitchBot>,
}

/// The keys of the remembered values, in order.
pub open spec fn memory_keys<V>(mems: Seq<Memory<V>>) -> Seq<Seq<char>> {
    mems.map_values(|m: Memory<V>| m.key@)
}

/// No key is remembered twice.
pub open spec fn keys_distinct<V>(mems: Seq<Memory<V>>) -> bool {
    forall|i: int, j: int| 0 <= i < mems.len() && 0 <= j < mems.len() && i != j ==> (#[trigger] mems[i]).key@ != (#[trigger] mems[j]).key@
}

/// The value remembered under `key`, if any.
pub open spec fn recalled<V>(mems: Seq<Memory<V>>, key: Seq<char>) -> Option<V> {
    if exists|i: int| 0 <= i < mems.len() && (#[trigger] mems[i]).key@ == key {
        Some(mems[choose|i: int| 0 <= i < mems.len() && (#[trigger] mems[i]).key@ == key].value)
    } else {
        None
    }
}

/// A view of the step state.
pub struct StepView<V, H> {
    pub memories: Seq<Memory<V>>,
    pub conversation_end: bool,
    pub interaction_order: i32,
    pub flow: Seq<char>,
    pub step: ContextStepInfo,
    pub current_flow: int,
    pub hold: Option<H>,
    pub switch_bot: Option<SwitchBot>,
}

impl<V, H> StepState<V, H> {
    pub closed spec fn view(&self) -> StepView<V, H> {
        StepView {
            memories: self.memories@,
            conversation_end: self.conversation_end,
            interaction_order: self.interaction_order,
            flow: self.flow@,
            step: self.step,
            current_flow: self.current_flow as int,
            hold: self.hold,
            switch_bot: self.switch_bot,
        }
    }

    /// Remembered keys are distinct and the current flow is one of the bot's.
    pub open spec fn wf(&self, bot: CsmlBot) -> bool {
        &&& keys_distinct(self.view().memories)
        &&& 0 <= self.view().current_flow < bot.flows@.len()
    }
}

/// The remembered values after remembering `m`: the value under its key is
/// replaced where there is one, otherwise `m` is added.
pub open spec fn remember<V>(mems: Seq<Memory<V>>, m: Memory<V>) -> Seq<Memory<V>> {
    if exists|i: int| 0 <= i < mems.len() && (#[trigger] mems[i]).key@ == m.key@ {
        mems.update(choose|i: int| 0 <= i < mems.len() && (#[trigger] mems[i]).key@ == m.key@, m)
    } else {
        mems.push(m)
    }
}

/// The remembered values after forgetting the one under `key`.
pub open spec fn forget<V>(mems: Seq<Memory<V>>, key: Seq<char>) -> Seq<Memory<V>> {
    if exists|i: int| 0 <= i < mems.len() && (#[trigger] mems[i]).key@ == key {
        mems.remove(choose|i: int| 0 <= i < mems.len() && (#[trigger] mems[i]).key@ == key)
    } else {
        mems
    }
}

/// The remembered values after forgetting each of `keys`, in order.
pub open spec fn forget_all_of<V>(mems: Seq<Memory<V>>, keys: Seq<Seq<char>>) -> Seq<Memory<V>>
    decreases keys.len(),
{
    if keys.len() == 0 {
        mems
    } else {
        forget_all_of(forget(mems, keys[0]), keys.drop_first())
    }
}

/// What a report does to the remembered values.
pub open spec fn memory_effect<M, H, V>(mems: Seq<Memory<V>>, msg: InterpreterMessage<M, H, V>) -> Seq<Memory<V>> {
    match msg {
        InterpreterMessage::Remember(m) => remember(mems, m),
        InterpreterMessage::ForgetAll => Seq::empty(),
        InterpreterMessage::ForgetOne(k) => forget(mems, k@),
        InterpreterMessage::ForgetList(ks) => forget_all_of(mems, ks@.map_values(|k: String| k@)),
        _ => mems,
    }
}

/// What a report does to the end of the conversation: an error ends it, and
/// so does a jump within the bot to step `end` (the default) without a flow.
pub open spec fn end_effect<M, H, V>(end: bool, msg: InterpreterMessage<M, H, V>) -> bool {
    match msg {
        InterpreterMessage::Error(_) => true,
        InterpreterMessage::Next { flow: None, step, bot: None } => match step {
            Some(s) => end || step_name(s) == "end"@,
            None => true,
        },
        _ => end,
    }
}

/// The remembered values after a run of reports.
pub open spec fn memories_after<M, H, V>(mems: Seq<Memory<V>>, msgs: Seq<InterpreterMessage<M, H, V>>) -> Seq<Memory<V>>
    decreases msgs.len(),
{
    if msgs.len() == 0 {
        mems
    } else {
        memory_effect(memories_after(mems, msgs.drop_last()), msgs.last())
    }
}

/// Whether the conversation has ended after a run of reports.
pub open spec fn end_after<M, H, V>(end: bool, msgs: Seq<InterpreterMessage<M, H, V>>) -> bool
    decreases msgs.len(),
{
    if msgs.len() == 0 {
        end
    } else {
        end_effect(end_after(end, msgs.drop_last()), msgs.last())
    }
}

/// Over a step run, where each report is handled and settled as
/// `handle_message` and `settle` state: the values remembered and not
/// forgotten afterwards (which `finish` hands on to be stored) are those
/// the reports leave, in turn, and the conversation has ended exactly when
/// some report was an error or a jump to the end.
pub proof fn lemma_step_run<M, H, V>(states: Seq<StepView<V, H>>, msgs: Seq<InterpreterMessage<M, H, V>>)
    requires
        states.len() == msgs.len() + 1,
        forall|i: int|
            0 <= i < msgs.len() ==> states[i + 1].memories == memory_effect(states[i].memories, #[trigger] msgs[i])
                && states[i + 1].conversation_end == end_effect(states[i].conversation_end, msgs[i]),
    ensures
        states.last().memories == memories_after(states[0].memories, msgs),
        states.last().conversation_end == end_after(states[0].conversation_end, msgs),
    decreases msgs.len(),
{
    if msgs.len() > 0 {
        let n = msgs.len() - 1;
        let s2 = states.drop_last();
        let m2 = msgs.drop_last();
        assert forall|i: int| 0 <= i < m2.len() implies s2[i + 1].memories == memory_effect(
            s2[i].memories,
            #[trigger] m2[i],
        ) && s2[i + 1].conversation_end == end_effect(s2[i].conversation_end, m2[i]) by {
            assert(s2[i + 1] == states[i + 1]);
            assert(s2[i] == states[i]);
            assert(m2[i] == msgs[i]);
        }
        lemma_step_run(s2, m2);
        assert(states[n + 1].memories == memory_effect(states[n].memories, msgs[n]));
        assert(s2.last() == states[n]);
        assert(msgs.last() == msgs[n]);
    }
}

/// Over a step run that starts with no bot switch, where each settlement
/// moves the state as `settle` states and the run stops at the first
/// settlement that ends the loop: the run hands the conversation over to
/// another bot exactly when its last settlement was a switch (which
/// `handle_message` settles only for a jump to a bot the conversation may
/// go over to), and then to that bot.
pub proof fn lemma_switch_run<V, H>(states: Seq<StepView<V, H>>, settles: Seq<Settle>)
    requires
        states.len() == settles.len() + 1,
        states[0].switch_bot is None,
        forall|i: int|
            0 <= i < settles.len() ==> states[i + 1].switch_bot == match #[trigger] settles[i] {
                Settle::SwitchTo(sb) => Some(sb),
                _ => states[i].switch_bot,
            },
        forall|i: int| 0 <= i < settles.len() - 1 ==> !(#[trigger] settles[i] is EndConversation || settles[i] is SwitchTo),
    ensures
        states.last().switch_bot is Some <==> (settles.len() > 0 && settles.last() is SwitchTo),
        settles.len() > 0 ==> match settles.last() {
            Settle::SwitchTo(sb) => states.last().switch_bot == Some(sb),
            _ => true,
        },
{
    if settles.len() > 0 {
        let n = settles.len() - 1;
        lemma_no_switch_before(states, settles, n);
        assert(states.last() == states[n + 1]);
        assert(settles.last() == settles[n]);
    }
}

proof fn lemma_no_switch_before<V, H>(states: Seq<StepView<V, H>>, settles: Seq<Settle>, k: int)
    requires
        states.len() == settles.len() + 1,
        states[0].switch_bot is None,
        forall|i: int|
            0 <= i < settles.len() ==> states[i + 1].switch_bot == match #[trigger] settles[i] {
                Settle::SwitchTo(sb) => Some(sb),
                _ => states[i].switch_bot,
            },
        forall|i: int| 0 <= i < settles.len() - 1 ==> !(#[trigger] settles[i] is EndConversation || settles[i] is SwitchTo),
        0 <= k < settles.len(),
    ensures
        states[k].switch_bot is None,
    decreases k,
{
    if k > 0 {
        lemma_no_switch_before(states, settles, k - 1);
        assert(!(settles[k - 1] is SwitchTo));
    }
}

/// The first bot that `target` names among the bots a conversation may be
/// handed over to: by id, or by name where it has one.
pub open spec fn names_bot(b: MultiBot, target: Seq<char>) -> bool {
    target == b.id@ || (b.name is Some && target == b.name->Some_0@)
}

/// `i` is the position of the first bot that `target` names.
pub open spec fn first_named(bots: Seq<MultiBot>, i: int, target: Seq<char>) -> bool {
    &&& 0 <= i < bots.len()
    &&& names_bot(bots[i], target)
    &&& forall|k: int| 0 <= k < i ==> !names_bot(#[trigger] bots[k], target)
}

proof fn lemma_key_index<V>(mems: Seq<Memory<V>>, key: Seq<char>, i: int)
    requires
        keys_distinct(mems),
        0 <= i < mems.len(),
        mems[i].key@ == key,
    ensures
        (choose|j: int| 0 <= j < mems.len() && (#[trigger] mems[j]).key@ == key) == i,
{
    let j = choose|j: int| 0 <= j < mems.len() && (#[trigger] mems[j]).key@ == key;
    assert(mems[j].key@ == key);
}

fn find_key<V>(mems: &Vec<Memory<V>>, key: &String) -> (r: Option<usize>)
    requires
        keys_distinct(mems@),
    ensures
        match r {
            Some(i) => i < mems@.len() && mems@[i as int].key@ == key@ && (choose|j: int|
                0 <= j < mems@.len() && (#[trigger] mems@[j]).key@ == key@) == i,
            None => !exists|i: int| 0 <= i < mems@.len() && (#[trigger] mems@[i]).key@ == key@,
        },
{
    let n = mems.len();
    let mut i: usize = 0;
    while i < n
        invariant
            n == mems@.len(),
            keys_distinct(mems@),
            i <= n,
            forall|k: int| 0 <= k < i ==> (#[trigger] mems@[k]).key@ != key@,
        decreases n - i,
    {
        if mems[i].key == *key {
            proof {
                lemma_key_index(mems@, key@, i as int);
            }
            return Some(i);
        }
        i = i + 1;
    }
    None
}

fn remember_in<V>(mems: &mut Vec<Memory<V>>, m: Memory<V>)
    requires
        keys_distinct(old(mems)@),
    ensures
        final(mems)@ == remember(old(mems)@, m),
        keys_distinct(final(mems)@),
{
    match find_key(mems, &m.key) {
        Some(i) => {
            let ghost before = mems@;
            mems.set(i, m);
            assert(keys_distinct(mems@)) by {
                assert forall|a: int, b: int|
                    0 <= a < mems@.len() && 0 <= b < mems@.len() && a != b implies (#[trigger] mems@[a]).key@
                        != (#[trigger] mems@[b]).key@ by {
                    if a != i && b != i {
                        assert(mems@[a] == before[a]);
                        assert(mems@[b] == before[b]);
                    } else if a == i {
                        assert(mems@[b] == before[b]);
                        assert(before[i as int].key@ == mems@[a].key@);
                    } else {
                        assert(mems@[a] == before[a]);
                        assert(before[i as int].key@ == mems@[b].key@);
                    }
                }
            }
        },
        None => {
            let ghost before = mems@;
            mems.push(m);
            assert(keys_distinct(mems@)) by {
                assert forall|a: int, b: int|
                    0 <= a < mems@.len() && 0 <= b < mems@.len() && a != b implies (#[trigger] mems@[a]).key@
                        != (#[trigger] mems@[b]).key@ by {
                    if a < before.len() && b < before.len() {
                        assert(mems@[a] == before[a]);
                        assert(mems@[b] == before[b]);
                    } else if a < before.len() {
                        assert(mems@[a] == before[a]);
                    } else {
                        assert(mems@[b] == before[b]);
                    }
                }
            }
        },
    }
}

fn forget_in<V>(mems: &mut Vec<Memory<V>>, key: &String)
    requires
        keys_distinct(old(mems)@),
    ensures
        final(mems)@ == forget(old(mems)@, key@),
        keys_distinct(final(mems)@),
{
    match find_key(mems, key) {
        Some(i) => {
            let ghost before = mems@;
            let _ = mems.remove(i);
            assert(keys_distinct(mems@)) by {
                assert forall|a: int, b: int|
                    0 <= a < mems@.len() && 0 <= b < mems@.len() && a != b implies (#[trigger] mems@[a]).key@
                        != (#[trigger] mems@[b]).key@ by {
                    let a0 = if a < i { a } else { a + 1 };
                    let b0 = if b < i { b } else { b + 1 };
                    assert(mems@[a] == before[a0]);
                    assert(mems@[b] == before[b0]);
                }
            }
        },
        None => {},
    }
}

/// The bot that `target` names among those a conversation may be handed over
/// to, if any: the first one whose id, or name where it has one, is `target`.
pub fn find_next_bot<'a>(multibot: &'a Option<Vec<MultiBot>>, target: &str) -> (r: Option<&'a MultiBot>)
    ensures
        match *multibot {
            None => r is None,
            Some(bots) => match r {
                Some(b) => exists|i: int| first_named(bots@, i, target@) && *b == bots@[i],
                None => forall|i: int| 0 <= i < bots@.len() ==> !names_bot(#[trigger] bots@[i], target@),
            },
        },
{
    match multibot {
        None => None,
        Some(bots) => {
            let n = bots.len();
            let mut i: usize = 0;
            while i < n
                invariant
                    n == bots@.len(),
                    *multibot == Some(*bots),
                    i <= n,
                    forall|k: int| 0 <= k < i ==> !names_bot(#[trigger] bots@[k], target@),
                decreases n - i,
            {
                let b = &bots[i];
                let by_name = match &b.name {
                    Some(name) => str_is(target, name.as_str()),
                    None => false,
                };
                if str_is(target, b.id.as_str()) || by_name {
                    assert(first_named(bots@, i as int, target@));
                    assert(first_named((*multibot)->Some_0@, i as int, target@));
                    return Some(b);
                }
                i = i + 1;
            }
            None
        },
    }
}

impl<V, H> StepState<V, H> {
    /// Starts a step in a conversation standing at `step` of `flow`, with its
    /// hold position `hold`: nothing remembered yet, the first interaction,
    /// and the flow called `flow` as the current flow.
    pub fn start(flow: String, step: ContextStepInfo, hold: Option<H>, bot: &CsmlBot) -> (r: Result<Self, BitpartError>)
        ensures
            match r {
                Ok(s) => {
                    &&& s.wf(*bot)
                    &&& s.view().memories.len() == 0
                    &&& !s.view().conversation_end
                    &&& s.view().interaction_order == 0
                    &&& s.view().flow == flow@
                    &&& s.view().step == step
                    &&& s.view().hold == hold
                    &&& s.view().switch_bot is None
                    &&& crate::flows::first_with(bot.flows@, s.view().current_flow, |g: CsmlFlow| flow_called(g, flow@))
                },
                Err(e) => {
                    &&& forall|i: int| 0 <= i < bot.flows@.len() ==> !flow_called(#[trigger] bot.flows@[i], flow@)
                    &&& e is Interpreter
                    &&& e->Interpreter_0@ == "Flow '"@ + flow@ + "' does not exist"@
                },
            },
    {
        let i = crate::flows::flow_index_by_id(flow.as_str(), bot.flows.as_slice())?;
        Ok(StepState {
            memories: Vec::new(),
            conversation_end: false,
            interaction_order: 0,
            flow,
            step,
            current_flow: i,
            hold,
            switch_bot: None,
        })
    }

    /// Whether the conversation has ended.
    pub fn conversation_end(&self) -> (r: bool)
        ensures
            r == self.view().conversation_end,
    {
        self.conversation_end
    }

    /// The number of the current interaction.
    pub fn interaction_order(&self) -> (r: i32)
        ensures
            r == self.view().interaction_order,
    {
        self.interaction_order
    }

    /// The name of the conversation's flow.
    pub fn flow(&self) -> (r: &String)
        ensures
            r@ == self.view().flow,
    {
        &self.flow
    }

    /// Where in the flow the conversation stands.
    pub fn step(&self) -> (r: &ContextStepInfo)
        ensures
            *r == self.view().step,
    {
        &self.step
    }

    /// The current flow.
    pub fn current_flow<'a>(&self, bot: &'a CsmlBot) -> (r: &'a CsmlFlow)
        requires
            self.wf(*bot),
        ensures
            *r == bot.flows@[self.view().current_flow],
    {
        &bot.flows[self.current_flow]
    }

    /// The position the conversation holds at.
    pub fn hold(&self) -> (r: &Option<H>)
        ensures
            *r == self.view().hold,
    {
        &self.hold
    }

    /// The remembered values.
    pub fn memories(&self) -> (r: &Vec<Memory<V>>)
        ensures
            r@ == self.view().memories,
    {
        &self.memories
    }

    /// The bot the conversation goes over to, once it does.
    pub fn switch_bot(&self) -> (r: &Option<SwitchBot>)
        ensures
            *r == self.view().switch_bot,
    {
        &self.switch_bot
    }
}

fn clone_opt_string(o: &Option<String>) -> (r: Option<String>)
    ensures
        r == *o,
{
    match o {
        Some(s) => Some(s.clone()),
        None => None,
    }
}

impl ContextStepInfo {
    /// A copy of the step.
    pub fn copy(&self) -> (r: ContextStepInfo)
        ensures
            r == *self,
    {
        match self {
            ContextStepInfo::Normal(step) => ContextStepInfo::Normal(step.clone()),
            ContextStepInfo::UnknownFlow(step) => ContextStepInfo::UnknownFlow(step.clone()),
            ContextStepInfo::InsertedStep { step, flow } => ContextStepInfo::InsertedStep {
                step: step.clone(),
                flow: flow.clone(),
            },
        }
    }
}

/// The step that a jump without a named step goes to.
pub open spec fn is_normal_step(s: ContextStepInfo, name: Seq<char>) -> bool {
    s is Normal && step_name(s) == name
}

/// The state is unchanged but for what the listed parts say.
pub open spec fn same_context<V, H>(a: StepView<V, H>, b: StepView<V, H>) -> bool {
    &&& a.flow == b.flow
    &&& a.step == b.step
    &&& a.current_flow == b.current_flow
}

impl<V, H> StepState<V, H> {
    /// Decides what one report of the interpreter does to the conversation.
    ///
    /// Memories: remembering replaces or adds the value under its key,
    /// forgetting drops values and deletes them from the database. Messages
    /// are delivered (errors as the conversation's end, which also closes it);
    /// shouts go to every conversation of the bot; holds are stored.
    /// A jump to a flow loads the memories into the context and, where the bot
    /// has a flow of that name, makes it current at the given step (`start`
    /// by default) and records it; a jump to a step records it, and a jump to
    /// `end` (the default) ends the conversation. A jump to another bot hands
    /// the conversation over where the bot may switch to it, and is refused
    /// otherwise. The interaction moves on, the loop ends or the bot switches
    /// only once the report's outside work has succeeded (see `settle`).
    pub fn handle_message<M>(&mut self, msg: InterpreterMessage<M, H, V>, bot: &CsmlBot) -> (r: StepOutcome<M>)
        requires
            old(self).wf(*bot),
        ensures
            final(self).wf(*bot),
            final(self).view().interaction_order == old(self).view().interaction_order,
            old(self).view().conversation_end ==> final(self).view().conversation_end,
            final(self).view().switch_bot == old(self).view().switch_bot,
            final(self).view().memories == memory_effect(old(self).view().memories, msg),
            final(self).view().conversation_end == end_effect(old(self).view().conversation_end, msg),
            ({
                let o = old(self).view();
                let f = final(self).view();
                let ord = o.interaction_order;
                match msg {
                    InterpreterMessage::Remember(m) => f == StepView { memories: remember(o.memories, m), ..o }
                        && r.actions@.len() == 0 && r.failure_is_fatal && r.on_success is Nothing,
                    InterpreterMessage::ForgetAll => f == StepView { memories: Seq::empty(), ..o }
                        && r.actions@ == seq![StepAction::<M>::ForgetAllMemories] && r.failure_is_fatal
                        && r.on_success is Nothing,
                    InterpreterMessage::ForgetOne(k) => f == StepView { memories: forget(o.memories, k@), ..o }
                        && r.actions@ == seq![StepAction::<M>::ForgetMemory(k)] && r.failure_is_fatal
                        && r.on_success is Nothing,
                    InterpreterMessage::ForgetList(ks) => f == StepView {
                        memories: forget_all_of(o.memories, ks@.map_values(|k: String| k@)),
                        ..o
                    } && r.actions@ == ks@.map_values(|k: String| StepAction::<M>::ForgetMemory(k))
                        && r.failure_is_fatal && r.on_success is Nothing,
                    InterpreterMessage::Message(m) => f == o && r.actions@ == seq![
                        StepAction::Deliver { message: m, interaction_order: ord, end: false },
                    ] && r.failure_is_fatal && r.on_success is Nothing,
                    InterpreterMessage::Shout(m) => f == o && r.actions@ == seq![
                        StepAction::Shout { message: m, interaction_order: ord },
                    ] && r.failure_is_fatal && r.on_success is Nothing,
                    InterpreterMessage::Log => f == o && r.actions@.len() == 0 && r.failure_is_fatal && r.on_success is Nothing,
                    InterpreterMessage::Hold(h) => f == StepView { hold: Some(h), ..o }
                        && r.actions@ == seq![StepAction::<M>::StoreHold] && r.failure_is_fatal
                        && r.on_success is Nothing,
                    InterpreterMessage::Error(m) => f == StepView { conversation_end: true, ..o } && r.actions@
                        == seq![
                        StepAction::Deliver { message: m, interaction_order: ord, end: true },
                        StepAction::CloseConversation,
                    ] && r.failure_is_fatal && r.on_success is Nothing,
                    InterpreterMessage::Next { flow, step, bot: Some(target) } => f == o && !r.failure_is_fatal
                        && match bot.multibot {
                        Some(bots) if exists|i: int| 0 <= i < bots@.len() && names_bot(#[trigger] bots@[i], target@) => {
                            exists|i: int| {
                                &&& first_named(bots@, i, target@)
                                &&& r.actions@ == seq![
                                    StepAction::<M>::AnnounceSwitch { bot_id: bots@[i].id, interaction_order: ord },
                                    StepAction::CloseConversation,
                                    StepAction::SetPreviousBot { next_bot_id: bots@[i].id, flow: r.actions@[2]->flow, step: o.step },
                                ]
                                &&& r.actions@[2]->flow@ == o.flow
                                &&& r.on_success == Settle::SwitchTo(SwitchBot {
                                    bot_id: bots@[i].id,
                                    version_id: bots@[i].version_id,
                                    flow,
                                    step: r.on_success->SwitchTo_0.step,
                                })
                                &&& r.on_success->SwitchTo_0.step@ == match step {
                                    Some(s) => step_name(s),
                                    None => "start"@,
                                }
                            }
                        },
                        _ => r.actions@ == seq![StepAction::<M>::RefuseSwitch { target, interaction_order: ord }]
                            && r.on_success is Nothing,
                    },
                    InterpreterMessage::Next { flow: Some(fl), step, bot: None } => !r.failure_is_fatal
                        && r.actions@.len() >= 1 && r.actions@[0] is LoadMemoriesIntoContext
                        && if exists|i: int| 0 <= i < bot.flows@.len() && flow_called(#[trigger] bot.flows@[i], fl@) {
                        &&& crate::flows::first_with(bot.flows@, f.current_flow, |g: CsmlFlow| flow_called(g, fl@))
                        &&& f == StepView { flow: fl@, step: f.step, current_flow: f.current_flow, ..o }
                        &&& match step {
                            Some(s) => f.step == s,
                            None => is_normal_step(f.step, "start"@),
                        }
                        &&& r.actions@.len() == 2
                        &&& r.actions@[1] is UpdateConversation
                        &&& r.actions@[1]->flow_id == Some(bot.flows@[f.current_flow].id)
                        &&& r.actions@[1]->UpdateConversation_step@ == step_name(f.step)
                        &&& r.on_success is NextInteraction
                    } else {
                        f == o && r.actions@.len() == 1 && r.on_success is Nothing
                    },
                    InterpreterMessage::Next { flow: None, step, bot: None } => !r.failure_is_fatal
                        && if match step {
                        Some(s) => step_name(s) == "end"@,
                        None => true,
                    } {
                        &&& f == StepView { conversation_end: true, ..o }
                        &&& r.actions@ == seq![
                            StepAction::<M>::NotifyEnd { interaction_order: ord },
                            StepAction::CloseConversation,
                        ]
                        &&& r.on_success is EndConversation
                    } else {
                        &&& f == StepView { step: step->Some_0, ..o }
                        &&& r.actions@.len() == 1
                        &&& r.actions@[0] is UpdateConversation
                        &&& r.actions@[0]->flow_id is None
                        &&& r.actions@[0]->UpdateConversation_step@ == step_name(step->Some_0)
                        &&& r.on_success is NextInteraction
                    },
                }
            }),
    {
        let ord = self.interaction_order;
        match msg {
            InterpreterMessage::Remember(m) => {
                remember_in(&mut self.memories, m);
                StepOutcome { actions: Vec::new(), failure_is_fatal: true, on_success: Settle::Nothing }
            },
            InterpreterMessage::ForgetAll => {
                self.memories = Vec::new();
                let mut actions = Vec::new();
                actions.push(StepAction::ForgetAllMemories);
                StepOutcome { actions, failure_is_fatal: true, on_success: Settle::Nothing }
            },
            InterpreterMessage::ForgetOne(k) => {
                forget_in(&mut self.memories, &k);
                let mut actions = Vec::new();
                actions.push(StepAction::ForgetMemory(k));
                StepOutcome { actions, failure_is_fatal: true, on_success: Settle::Nothing }
            },
            InterpreterMessage::ForgetList(ks) => {
                let ghost keys = ks@.map_values(|k: String| k@);
                let ghost start = self.memories@;
                let mut actions: Vec<StepAction<M>> = Vec::new();
                let mut rest = ks;
                let ghost all = rest@;
                let total: usize = rest.len();
                let mut done: usize = 0;
                while rest.len() > 0
                    invariant
                        keys_distinct(self.memories@),
                        0 <= self.current_flow < bot.flows@.len(),
                        self.interaction_order == ord,
                        done + rest@.len() == all.len(),
                        all.len() == total,
                        rest@ == all.skip(done as int),
                        actions@ == all.take(done as int).map_values(|k: String| StepAction::<M>::ForgetMemory(k)),
                        forget_all_of(start, all.map_values(|k: String| k@)) == forget_all_of(
                            self.memories@,
                            rest@.map_values(|k: String| k@),
                        ),
                        self.flow == old(self).flow,
                        self.step == old(self).step,
                        self.current_flow == old(self).current_flow,
                        self.hold == old(self).hold,
                        self.conversation_end == old(self).conversation_end,
                        self.switch_bot == old(self).switch_bot,
                    decreases rest.len(),
                {
                    let ghost before = self.memories@;
                    let ghost rest_before = rest@;
                    let k = rest.remove(0);
                    forget_in(&mut self.memories, &k);
                    proof {
                        assert(rest_before.map_values(|k: String| k@)[0] == k@);
                        assert(rest_before.map_values(|k: String| k@).drop_first() =~= rest@.map_values(|k: String| k@));
                        assert(all.take(done as int + 1) =~= all.take(done as int).push(k));
                        assert(rest@ =~= all.skip(done as int + 1));
                    }
                    actions.push(StepAction::ForgetMemory(k));
                    proof {
                        assert(actions@ =~= all.take(done as int + 1).map_values(|k: String| StepAction::<M>::ForgetMemory(k)));
                    }
                    done = done + 1;
                }
                proof {
                    assert(rest@.map_values(|k: String| k@) =~= Seq::<Seq<char>>::empty());
                    assert(all.take(done as int) =~= all);
                }
                StepOutcome { actions, failure_is_fatal: true, on_success: Settle::Nothing }
            },
            InterpreterMessage::Message(m) => {
                let mut actions = Vec::new();
                actions.push(StepAction::Deliver { message: m, interaction_order: ord, end: false });
                StepOutcome { actions, failure_is_fatal: true, on_success: Settle::Nothing }
            },
            InterpreterMessage::Shout(m) => {
                let mut actions = Vec::new();
                actions.push(StepAction::Shout { message: m, interaction_order: ord });
                StepOutcome { actions, failure_is_fatal: true, on_success: Settle::Nothing }
            },
            InterpreterMessage::Log => {
                StepOutcome { actions: Vec::new(), failure_is_fatal: true, on_success: Settle::Nothing }
            },
            InterpreterMessage::Hold(h) => {
                self.hold = Some(h);
                let mut actions = Vec::new();
                actions.push(StepAction::StoreHold);
                StepOutcome { actions, failure_is_fatal: true, on_success: Settle::Nothing }
            },
            InterpreterMessage::Error(m) => {
                self.conversation_end = true;
                let mut actions = Vec::new();
                actions.push(StepAction::Deliver { message: m, interaction_order: ord, end: true });
                actions.push(StepAction::CloseConversation);
                StepOutcome { actions, failure_is_fatal: true, on_success: Settle::Nothing }
            },
            InterpreterMessage::Next { flow, step, bot: Some(target) } => {
                let mut actions = Vec::new();
                match find_next_bot(&bot.multibot, target.as_str()) {
                    None => {
                        actions.push(StepAction::RefuseSwitch { target, interaction_order: ord });
                        StepOutcome { actions, failure_is_fatal: false, on_success: Settle::Nothing }
                    },
                    Some(next) => {
                        let step_name_now = match &step {
                            Some(s) => s.get_step(),
                            None => String::from_str("start"),
                        };
                        actions.push(StepAction::AnnounceSwitch { bot_id: next.id.clone(), interaction_order: ord });
                        actions.push(StepAction::CloseConversation);
                        actions.push(
                            StepAction::SetPreviousBot {
                                next_bot_id: next.id.clone(),
                                flow: self.flow.clone(),
                                step: self.step.copy(),
                            },
                        );
                        let sb = SwitchBot {
                            bot_id: next.id.clone(),
                            version_id: clone_opt_string(&next.version_id),
                            flow,
                            step: step_name_now,
                        };
                        StepOutcome { actions, failure_is_fatal: false, on_success: Settle::SwitchTo(sb) }
                    },
                }
            },
            InterpreterMessage::Next { flow: Some(fl), step, bot: None } => {
                let mut actions = Vec::new();
                actions.push(StepAction::LoadMemoriesIntoContext);
                match crate::flows::flow_index_by_id(fl.as_str(), bot.flows.as_slice()) {
                    Err(_) => StepOutcome { actions, failure_is_fatal: false, on_success: Settle::Nothing },
                    Ok(i) => {
                        let next_step = match step {
                            Some(s) => s,
                            None => ContextStepInfo::Normal(String::from_str("start")),
                        };
                        let name = next_step.get_step();
                        self.current_flow = i;
                        self.flow = fl;
                        self.step = next_step;
                        actions.push(StepAction::UpdateConversation { flow_id: Some(bot.flows[i].id.clone()), step: name });
                        StepOutcome { actions, failure_is_fatal: false, on_success: Settle::NextInteraction }
                    },
                }
            },
            InterpreterMessage::Next { flow: None, step, bot: None } => {
                let next_step = match step {
                    Some(s) => s,
                    None => ContextStepInfo::Normal(String::from_str("end")),
                };
                let mut actions = Vec::new();
                if next_step.is_step("end") {
                    self.conversation_end = true;
                    actions.push(StepAction::NotifyEnd { interaction_order: ord });
                    actions.push(StepAction::CloseConversation);
                    StepOutcome { actions, failure_is_fatal: false, on_success: Settle::EndConversation }
                } else {
                    let name = next_step.get_step();
                    self.step = next_step;
                    actions.push(StepAction::UpdateConversation { flow_id: None, step: name });
                    StepOutcome { actions, failure_is_fatal: false, on_success: Settle::NextInteraction }
                }
            },
        }
    }

    /// Applies what a report settles once its outside work has succeeded, and
    /// tells whether the step loop ends: moving on to the next interaction,
    /// ending the conversation, or handing it over to another bot.
    pub fn settle(&mut self, s: Settle) -> (stop: bool)
        requires
            old(self).view().interaction_order < i32::MAX,
        ensures
            stop == (s is EndConversation || s is SwitchTo),
            final(self).view() == match s {
                Settle::NextInteraction => StepView {
                    interaction_order: (old(self).view().interaction_order + 1) as i32,
                    ..old(self).view()
                },
                Settle::SwitchTo(sb) => StepView { switch_bot: Some(sb), ..old(self).view() },
                _ => old(self).view(),
            },
    {
        match s {
            Settle::Nothing => false,
            Settle::NextInteraction => {
                self.interaction_order = self.interaction_order + 1;
                false
            },
            Settle::EndConversation => true,
            Settle::SwitchTo(sb) => {
                self.switch_bot = Some(sb);
                true
            },
        }
    }
}

} // verus!

verus! {

/// A message as a step's result sends it back: the message, the interaction
/// it belongs to, the conversation, and the direction `SEND`.
#[derive(Debug)]
pub struct SentMessage<M> {
    pub payload: M,
    pub interaction_order: i32,
    pub conversation_id: String,
    pub direction: String,
}

/// What a step sends back: its messages, whether the conversation ended,
/// the request it answers, when it was received, and who the conversation
/// is with.
#[derive(Debug)]
pub struct StepResult<M> {
    pub messages: Vec<SentMessage<M>>,
    pub conversation_end: bool,
    pub request_id: String,
    pub received_at: String,
    pub client: Client,
}

/// Puts a step's messages into its result, each tagged with the
/// interaction order, the conversation and the direction `SEND`.
/// `received_at` is the time of the answer, as the caller writes it.
pub fn messages_formatter<M>(
    messages: Vec<M>,
    interaction_order: i32,
    end: bool,
    conversation_id: &str,
    request_id: &str,
    received_at: &str,
    client: &Client,
) -> (r: StepResult<M>)
    ensures
        r.messages@.len() == messages@.len(),
        forall|i: int|
            0 <= i < messages@.len() ==> {
                &&& (#[trigger] r.messages@[i]).payload == messages@[i]
                &&& r.messages@[i].interaction_order == interaction_order
                &&& r.messages@[i].conversation_id@ == conversation_id@
                &&& r.messages@[i].direction@ == "SEND"@
            },
        r.conversation_end == end,
        r.request_id@ == request_id@,
        r.received_at@ == received_at@,
        r.client.bot_id@ == client.bot_id@,
        r.client.user_id@ == client.user_id@,
        r.client.channel_id@ == client.channel_id@,
{
    let ghost all = messages@;
    let n = messages.len();
    let mut rest = messages;
    let mut out: Vec<SentMessage<M>> = Vec::new();
    let mut i: usize = 0;
    while i < n
        invariant
            n == all.len(),
            i <= n,
            rest@ == all.skip(i as int),
            out@.len() == i,
            forall|k: int|
                0 <= k < i ==> {
                    &&& (#[trigger] out@[k]).payload == all[k]
                    &&& out@[k].interaction_order == interaction_order
                    &&& out@[k].conversation_id@ == conversation_id@
                    &&& out@[k].direction@ == "SEND"@
                },
        decreases n - i,
    {
        let m = rest.remove(0);
        proof {
            assert(all.skip(i as int)[0] == all[i as int]);
            assert(rest@ =~= all.skip(i as int + 1));
        }
        out.push(
            SentMessage {
                payload: m,
                interaction_order,
                conversation_id: String::from_str(conversation_id),
                direction: String::from_str("SEND"),
            },
        );
        i = i + 1;
    }
    StepResult {
        messages: out,
        conversation_end: end,
        request_id: String::from_str(request_id),
        received_at: String::from_str(received_at),
        client: Client {
            bot_id: client.bot_id.clone(),
            channel_id: client.channel_id.clone(),
            user_id: client.user_id.clone(),
        },
    }
}

/// The outcome of a whole step run: the result sent back, the remembered
/// values to store for the user, and the bot the conversation goes over to,
/// if any.
#[derive(Debug)]
pub struct StepRun<M, V> {
    pub result: StepResult<M>,
    pub memories: Vec<Memory<V>>,
    pub switch_bot: Option<SwitchBot>,
}

impl<V, H> StepState<V, H> {
    /// Ends a step run: its result holds the messages kept during the run,
    /// tagged with the final interaction order and telling whether the
    /// conversation ended; every value remembered and not forgotten during
    /// the run is to be stored; and the bot switched to, if any, is handed
    /// on.
    pub fn finish<M>(
        self,
        messages: Vec<M>,
        conversation_id: &str,
        request_id: &str,
        received_at: &str,
        client: &Client,
    ) -> (r: StepRun<M, V>)
        ensures
            r.result.messages@.len() == messages@.len(),
            forall|i: int|
                0 <= i < messages@.len() ==> {
                    &&& (#[trigger] r.result.messages@[i]).payload == messages@[i]
                    &&& r.result.messages@[i].interaction_order == self.view().interaction_order
                    &&& r.result.messages@[i].conversation_id@ == conversation_id@
                    &&& r.result.messages@[i].direction@ == "SEND"@
                },
            r.result.conversation_end == self.view().conversation_end,
            r.result.request_id@ == request_id@,
            r.result.received_at@ == received_at@,
            r.result.client.bot_id@ == client.bot_id@,
            r.result.client.user_id@ == client.user_id@,
            r.result.client.channel_id@ == client.channel_id@,
            r.memories@ == self.view().memories,
            r.switch_bot == self.view().switch_bot,
    {
        let result = messages_formatter(
            messages,
            self.interaction_order,
            self.conversation_end,
            conversation_id,
            request_id,
            received_at,
            client,
        );
        StepRun { result, memories: self.memories, switch_bot: self.switch_bot }
    }
}

} // verus!

verus! {

/// What is remembered can be recalled: after remembering `m`, its key recalls
/// its value, and every other key recalls what it did before.
pub proof fn lemma_recall_after_remember<V>(mems: Seq<Memory<V>>, m: Memory<V>, other: Seq<char>)
    requires
        keys_distinct(mems),
        other != m.key@,
    ensures
        recalled(remember(mems, m), m.key@) == Some(m.value),
        recalled(remember(mems, m), other) == recalled(mems, other),
        keys_distinct(remember(mems, m)),
{
    let r = remember(mems, m);
    if exists|i: int| 0 <= i < mems.len() && (#[trigger] mems[i]).key@ == m.key@ {
        let i = choose|i: int| 0 <= i < mems.len() && (#[trigger] mems[i]).key@ == m.key@;
        assert(r[i] == m);
        assert forall|a: int, b: int| 0 <= a < r.len() && 0 <= b < r.len() && a != b implies (#[trigger] r[a]).key@
            != (#[trigger] r[b]).key@ by {
            if a == i {
                assert(r[b] == mems[b]);
            } else if b == i {
                assert(r[a] == mems[a]);
            } else {
                assert(r[a] == mems[a]);
                assert(r[b] == mems[b]);
            }
        }
        lemma_key_index(r, m.key@, i);
        if exists|j: int| 0 <= j < mems.len() && (#[trigger] mems[j]).key@ == other {
            let j = choose|j: int| 0 <= j < mems.len() && (#[trigger] mems[j]).key@ == other;
            assert(r[j] == mems[j]);
            lemma_key_index(r, other, j);
        } else {
            assert forall|j: int| 0 <= j < r.len() implies (#[trigger] r[j]).key@ != other by {
                if j != i {
                    assert(r[j] == mems[j]);
                }
            }
        }
    } else {
        let n = mems.len() as int;
        assert(r[n] == m);
        assert forall|a: int, b: int| 0 <= a < r.len() && 0 <= b < r.len() && a != b implies (#[trigger] r[a]).key@
            != (#[trigger] r[b]).key@ by {
            if a < n {
                assert(r[a] == mems[a]);
            }
            if b < n {
                assert(r[b] == mems[b]);
            }
        }
        lemma_key_index(r, m.key@, n);
        if exists|j: int| 0 <= j < mems.len() && (#[trigger] mems[j]).key@ == other {
            let j = choose|j: int| 0 <= j < mems.len() && (#[trigger] mems[j]).key@ == other;
            assert(r[j] == mems[j]);
            lemma_key_index(r, other, j);
        } else {
            assert forall|j: int| 0 <= j < r.len() implies (#[trigger] r[j]).key@ != other by {
                if j < n {
                    assert(r[j] == mems[j]);
                }
            }
        }
    }
}

/// What is forgotten cannot be recalled any more; every other key recalls
/// what it did before.
pub proof fn lemma_forget_then_recall<V>(mems: Seq<Memory<V>>, key: Seq<char>, other: Seq<char>)
    requires
        keys_distinct(mems),
        other != key,
    ensures
        recalled(forget(mems, key), key) is None,
        recalled(forget(mems, key), other) == recalled(mems, other),
        keys_distinct(forget(mems, key)),
{
    let r = forget(mems, key);
    if exists|i: int| 0 <= i < mems.len() && (#[trigger] mems[i]).key@ == key {
        let i = choose|i: int| 0 <= i < mems.len() && (#[trigger] mems[i]).key@ == key;
        assert forall|a: int| 0 <= a < r.len() implies (#[trigger] r[a]).key@ != key by {
            let a0 = if a < i { a } else { a + 1 };
            assert(r[a] == mems[a0]);
        }
        assert forall|a: int, b: int| 0 <= a < r.len() && 0 <= b < r.len() && a != b implies (#[trigger] r[a]).key@
            != (#[trigger] r[b]).key@ by {
            let a0 = if a < i { a } else { a + 1 };
            let b0 = if b < i { b } else { b + 1 };
            assert(r[a] == mems[a0]);
            assert(r[b] == mems[b0]);
        }
        if exists|j: int| 0 <= j < mems.len() && (#[trigger] mems[j]).key@ == other {
            let j = choose|j: int| 0 <= j < mems.len() && (#[trigger] mems[j]).key@ == other;
            let j1 = if j < i { j } else { j - 1 };
            assert(r[j1] == mems[j]);
            lemma_key_index(r, other, j1);
        } else {
            assert forall|a: int| 0 <= a < r.len() implies (#[trigger] r[a]).key@ != other by {
                let a0 = if a < i { a } else { a + 1 };
                assert(r[a] == mems[a0]);
            }
        }
    }
}

} // verus!
