//! The scripting runtime: one interpreter, the registries of callbacks that its
//! scripts registered, and the dispatch of input, received text and
//! out-of-band messages to them.

use vstd::prelude::*;
use crate::engine::{call_global, call_with_groups, call_with_text, failure_of, fresh_state, run_chunk};
use crate::gmcp::{split_message, split_spec, GmcpTable};
use crate::pattern::{optional_text, pattern_is_valid, texts};
use crate::registry::{firing, last_gag, lemma_fires_once_in_order, plan_view, reported_gag, slot_fires, Entry, Invocation, PatternError, Registry};
use crate::text::{clean, clean_text};

verus! {

/// The global under which a script may define its "connection established"
/// hook.
pub const ON_CONNECT_CALLBACK: &'static str = "on_connect";

/// The global under which a script may define its "GMCP ready" hook.
pub const ON_GMCP_READY_CALLBACK: &'static str = "on_gmcp_ready";

/// A failure of a script that is handed to the caller.
#[derive(Debug)]
pub struct ScriptError {
    pub message: String,
}

/// The diagnostics that a run of calls emits: the message of each failed call,
/// in the order of the calls. A call that succeeded emits nothing.
pub open spec fn emitted(failures: Seq<Option<Seq<char>>>) -> Seq<Seq<char>>
    decreases failures.len(),
{
    if failures.len() == 0 {
        Seq::empty()
    } else {
        let earlier = emitted(failures.drop_last());
        match failures.last() {
            Some(message) => earlier.push(message),
            None => earlier,
        }
    }
}

/// `after` is `before` followed by the diagnostics of `calls` calls, each of
/// which may have failed or not.
pub open spec fn reports(before: Seq<Seq<char>>, after: Seq<Seq<char>>, calls: nat) -> bool {
    exists|failures: Seq<Option<Seq<char>>>|
        failures.len() == calls && after == before + #[trigger] emitted(failures)
}

/// Appends the diagnostic of one call to the outbound events: the message of a
/// failed call, nothing for a call that succeeded.
pub fn report(failure: Option<String>, events: &mut Vec<String>)
    ensures
        match failure {
            Some(message) => final(events)@ == old(events)@.push(message),
            None => final(events)@ == old(events)@,
        },
{
    match failure {
        Some(message) => events.push(message),
        None => {},
    }
}

/// What a hook's run means for the caller: a hook that is not defined, or that
/// ran to its end, is a success; a failure is handed on with its message.
pub fn hook_result(outcome: Option<Option<String>>) -> (r: Result<(), ScriptError>)
    ensures
        r.is_err() == (outcome matches Some(Some(_))),
        r matches Err(e) ==> outcome == Some(Some(e.message)),
{
    match outcome {
        Some(Some(message)) => Err(ScriptError { message }),
        _ => Ok(()),
    }
}

/// The three registries of patterns.
#[derive(Clone, Copy, Debug, PartialEq, Eq, Structural)]
pub enum Kind {
    Alias,
    Trigger,
    PromptTrigger,
}

/// The runtime's state on the host side.
pub struct LuaScript {
    /// The interpreter. The host installs in it what scripts may call.
    pub state: rlua::Lua,
    /// Patterns matched against what the user types.
    pub aliases: Registry<rlua::RegistryKey>,
    /// Patterns matched against lines received from the remote side.
    pub triggers: Registry<rlua::RegistryKey>,
    /// Patterns matched against prompts.
    pub prompt_triggers: Registry<rlua::RegistryKey>,
    /// Listeners for out-of-band messages, by message type.
    pub listeners: GmcpTable<rlua::RegistryKey>,
}

impl LuaScript {
    /// Nothing is registered.
    pub open spec fn is_fresh(&self) -> bool {
        &&& self.aliases@ == Seq::<Option<Entry<rlua::RegistryKey>>>::empty()
        &&& self.triggers@ == Seq::<Option<Entry<rlua::RegistryKey>>>::empty()
        &&& self.prompt_triggers@ == Seq::<Option<Entry<rlua::RegistryKey>>>::empty()
        &&& self.listeners@ == Map::<Seq<char>, rlua::RegistryKey>::empty()
    }

    /// The entries of the registry of `kind`, by position.
    pub open spec fn slots(&self, kind: Kind) -> Seq<Option<Entry<rlua::RegistryKey>>> {
        match kind {
            Kind::Alias => self.aliases@,
            Kind::Trigger => self.triggers@,
            Kind::PromptTrigger => self.prompt_triggers@,
        }
    }

    /// Nothing but the registry of `kind` differs between `self` and `other`.
    pub open spec fn same_but(&self, other: &LuaScript, kind: Kind) -> bool {
        &&& self.state == other.state
        &&& self.listeners == other.listeners
        &&& forall|k: Kind| k != kind ==> self.slots(k) == other.slots(k)
    }

    /// Compiles `pattern` and appends an entry for it to the registry of
    /// `kind`. Returns the entry's position, by which it can be switched and
    /// removed. A text that is no regular expression is refused and changes
    /// nothing.
    pub fn register(
        &mut self,
        kind: Kind,
        pattern: &str,
        enabled: bool,
        gag: bool,
        callback: rlua::RegistryKey,
    ) -> (r: Result<usize, PatternError>)
        ensures
            r.is_ok() == pattern_is_valid(pattern@),
            final(self).same_but(old(self), kind),
            match r {
                Ok(id) => {
                    &&& id == old(self).slots(kind).len()
                    &&& final(self).slots(kind).len() == old(self).slots(kind).len() + 1
                    &&& final(self).slots(kind).drop_last() == old(self).slots(kind)
                    &&& final(self).slots(kind).last() matches Some(e) && e.pattern.source()
                        == pattern@ && e.enabled == enabled && e.gag == gag && e.callback
                        == callback
                },
                Err(e) => final(self).slots(kind) == old(self).slots(kind) && e.pattern@
                    == pattern@,
            },
    {
        match kind {
            Kind::Alias => self.aliases.register(pattern, enabled, gag, callback),
            Kind::Trigger => self.triggers.register(pattern, enabled, gag, callback),
            Kind::PromptTrigger => self.prompt_triggers.register(pattern, enabled, gag, callback),
        }
    }

    /// Switches the entry at `id` in the registry of `kind` on or off. Returns
    /// whether there is such an entry; without one nothing changes.
    pub fn set_enabled(&mut self, kind: Kind, id: usize, enabled: bool) -> (found: bool)
        ensures
            final(self).same_but(old(self), kind),
            found == (id < old(self).slots(kind).len() && old(self).slots(kind)[id as int].is_some()),
            found ==> final(self).slots(kind) == old(self).slots(kind).update(
                id as int,
                Some(Entry { enabled: enabled, ..old(self).slots(kind)[id as int].unwrap() }),
            ),
            !found ==> final(self).slots(kind) == old(self).slots(kind),
    {
        match kind {
            Kind::Alias => self.aliases.set_enabled(id, enabled),
            Kind::Trigger => self.triggers.set_enabled(id, enabled),
            Kind::PromptTrigger => self.prompt_triggers.set_enabled(id, enabled),
        }
    }

    /// Removes the entry at `id` from the registry of `kind`. Returns whether
    /// there was one; removing twice changes nothing.
    pub fn remove(&mut self, kind: Kind, id: usize) -> (found: bool)
        ensures
            final(self).same_but(old(self), kind),
            found == (id < old(self).slots(kind).len() && old(self).slots(kind)[id as int].is_some()),
            found ==> final(self).slots(kind) == old(self).slots(kind).update(id as int, None),
            !found ==> final(self).slots(kind) == old(self).slots(kind),
    {
        match kind {
            Kind::Alias => self.aliases.remove(id),
            Kind::Trigger => self.triggers.remove(id),
            Kind::PromptTrigger => self.prompt_triggers.remove(id),
        }
    }

    /// Registers `callback` as the listener for messages of type `msg_type`,
    /// in place of the one registered before, if any.
    pub fn listen(&mut self, msg_type: &str, callback: rlua::RegistryKey)
        ensures
            final(self).listeners@ == old(self).listeners@.insert(msg_type@, callback),
            final(self).state == old(self).state,
            forall|k: Kind| final(self).slots(k) == old(self).slots(k),
    {
        self.listeners.register(msg_type, callback);
    }

    /// A runtime with a fresh interpreter and nothing registered.
    pub fn new() -> (script: Self)
        ensures
            script.is_fresh(),
    {
        LuaScript {
            state: fresh_state(),
            aliases: Registry::new(),
            triggers: Registry::new(),
            prompt_triggers: Registry::new(),
            listeners: GmcpTable::new(),
        }
    }

    /// Discards the interpreter and everything registered with it, and starts
    /// over with a fresh one.
    pub fn reset(&mut self)
        ensures
            final(self).is_fresh(),
    {
        *self = LuaScript::new();
    }

    /// Invokes the callbacks of `plan` in order. A failure is reported and the
    /// pass goes on with the next callback.
    fn run(
        &self,
        registry: &Registry<rlua::RegistryKey>,
        plan: &Vec<Invocation>,
        events: &mut Vec<String>,
    )
        requires
            forall|k: int|
                0 <= k < plan@.len() ==> (#[trigger] plan@[k]).entry < registry@.len()
                    && registry@[plan@[k].entry as int].is_some(),
        ensures
            reports(texts(old(events)@), texts(final(events)@), plan@.len()),
    {
        let ghost mut failures: Seq<Option<Seq<char>>> = Seq::empty();
        let mut k: usize = 0;
        assert(texts(events@) =~= texts(old(events)@) + emitted(failures));
        while k < plan.len()
            invariant
                k <= plan@.len(),
                failures.len() == k,
                texts(events@) == texts(old(events)@) + emitted(failures),
                forall|j: int|
                    0 <= j < plan@.len() ==> (#[trigger] plan@[j]).entry < registry@.len()
                        && registry@[plan@[j].entry as int].is_some(),
            decreases plan@.len() - k,
        {
            let invocation = &plan[k];
            let entry = registry.get(invocation.entry).unwrap();
            let failure = failure_of(call_with_groups(&self.state, &entry.callback, &invocation.args));
            let ghost before = events@;
            let ghost outcome = optional_text(failure);
            report(failure, events);
            proof {
                assert(failures.push(outcome).drop_last() =~= failures);
                match outcome {
                    Some(message) => {
                        assert(texts(events@) =~= texts(before).push(message));
                        assert(texts(old(events)@) + emitted(failures).push(message) =~= (texts(
                            old(events)@,
                        ) + emitted(failures)).push(message));
                    },
                    None => {},
                }
                failures = failures.push(outcome);
            }
            k = k + 1;
        }
    }

    /// Matches what the user typed against the aliases, in the order in which
    /// they were registered, and invokes the callback of each enabled alias that
    /// matches with its capture groups. A failing callback adds its message to
    /// `events` and does not end the pass. Returns whether any alias matched.
    pub fn check_for_alias_match(&self, input: &str, events: &mut Vec<String>) -> (matched: bool)
        ensures
            matched == (firing(self.aliases@, input@).len() > 0),
            reports(
                texts(old(events)@),
                texts(final(events)@),
                firing(self.aliases@, input@).len(),
            ),
    {
        let plan = self.aliases.matches(input);
        proof {
            lemma_fires_once_in_order(self.aliases@, input@);
            assert forall|k: int| 0 <= k < plan@.len() implies (#[trigger] plan@[k]).entry
                < self.aliases@.len() && self.aliases@[plan@[k].entry as int].is_some() by {
                assert(plan_view(plan@)[k] == plan@[k]@);
                assert(slot_fires(self.aliases@, firing(self.aliases@, input@)[k].entry, input@));
            }
        }
        self.run(&self.aliases, &plan, events);
        plan.len() > 0
    }

    /// Matches a line that is already clean against `registry` and invokes the
    /// callbacks as `check_for_alias_match` does. Returns the gag flag of the
    /// last trigger that matched, `false` where none did.
    pub fn fire_triggers(
        &self,
        registry: &Registry<rlua::RegistryKey>,
        text: &str,
        events: &mut Vec<String>,
    ) -> (gag: bool)
        ensures
            gag == reported_gag(firing(registry@, text@)),
            reports(texts(old(events)@), texts(final(events)@), firing(registry@, text@).len()),
    {
        let plan = registry.matches(text);
        proof {
            lemma_fires_once_in_order(registry@, text@);
            assert forall|k: int| 0 <= k < plan@.len() implies (#[trigger] plan@[k]).entry
                < registry@.len() && registry@[plan@[k].entry as int].is_some() by {
                assert(plan_view(plan@)[k] == plan@[k]@);
                assert(slot_fires(registry@, firing(registry@, text@)[k].entry, text@));
            }
        }
        self.run(registry, &plan, events);
        last_gag(&plan)
    }

    /// Strips the escape sequences from `input` and matches what is left
    /// against `registry`. Where stripping fails nothing is matched.
    fn check_trigger_match(
        &self,
        input: &str,
        registry: &Registry<rlua::RegistryKey>,
        events: &mut Vec<String>,
    ) -> (gag: bool)
        ensures
            trigger_pass(registry@, input@, old(events)@, final(events)@, gag),
    {
        match clean_text(input) {
            Some(text) => self.fire_triggers(registry, text.as_str(), events),
            None => false,
        }
    }

    /// Matches a received line, without its escape sequences, against the
    /// triggers. Returns whether the line is to be hidden: the gag flag of the
    /// last trigger that matched.
    pub fn check_for_trigger_match(&self, input: &str, events: &mut Vec<String>) -> (gag: bool)
        ensures
            trigger_pass(self.triggers@, input@, old(events)@, final(events)@, gag),
    {
        self.check_trigger_match(input, &self.triggers, events)
    }

    /// Matches a received prompt, without its escape sequences, against the
    /// prompt triggers. Returns the gag flag of the last one that matched.
    pub fn check_for_prompt_trigger_match(&self, input: &str, events: &mut Vec<String>) -> (gag:
        bool)
        ensures
            trigger_pass(self.prompt_triggers@, input@, old(events)@, final(events)@, gag),
    {
        self.check_trigger_match(input, &self.prompt_triggers, events)
    }

    /// Hands an out-of-band message to the listener registered for its type,
    /// with the message's content as argument. Returns whether a listener was
    /// invoked: the message has a type and a content, and the type has a
    /// listener. A failure of the listener is dropped.
    pub fn receive_gmcp(&self, data: &str) -> (invoked: bool)
        ensures
            invoked == gmcp_target(self.listeners@, data@).is_some(),
    {
        match split_message(data) {
            Some(message) => match self.listeners.lookup(message.msg_type.as_str()) {
                Some(callback) => {
                    let _ = call_with_text(&self.state, callback, message.content.as_str());
                    true
                },
                None => false,
            },
            None => false,
        }
    }

    /// Runs a script in the interpreter. A script that fails to compile or to
    /// run adds its message to `events`; the load itself always succeeds.
    pub fn load_script(&self, source: &str, name: &str, events: &mut Vec<String>) -> (r: Result<
        (),
        ScriptError,
    >)
        ensures
            r.is_ok(),
            reports(texts(old(events)@), texts(final(events)@), 1),
    {
        let failure = failure_of(run_chunk(&self.state, source, name));
        let ghost outcome = optional_text(failure);
        report(failure, events);
        proof {
            let failures = seq![outcome];
            assert(failures.drop_last() =~= Seq::<Option<Seq<char>>>::empty());
            assert(emitted(failures.drop_last()) =~= Seq::<Seq<char>>::empty());
            assert(texts(events@) =~= texts(old(events)@) + emitted(failures));
        }
        Ok(())
    }

    /// Runs the script's "connection established" hook, if it defines one, and
    /// hands its failure on.
    pub fn on_connect(&self) -> (r: Result<(), ScriptError>) {
        self.run_hook(ON_CONNECT_CALLBACK)
    }

    /// Runs the script's "GMCP ready" hook, if it defines one, and hands its
    /// failure on.
    pub fn on_gmcp_ready(&self) -> (r: Result<(), ScriptError>) {
        self.run_hook(ON_GMCP_READY_CALLBACK)
    }

    fn run_hook(&self, name: &str) -> (r: Result<(), ScriptError>) {
        let outcome = match call_global(&self.state, name) {
            Some(result) => Some(failure_of(result)),
            None => None,
        };
        hook_result(outcome)
    }
}

/// The outcome of a pass over triggers for a received line. Where the line has
/// a visible text, the triggers that match that text were invoked, each
/// failure added its diagnostic, and `gag` is that of the last of them. Where
/// it has none, nothing happened and the line is not hidden.
pub open spec fn trigger_pass(
    slots: Seq<Option<Entry<rlua::RegistryKey>>>,
    input: Seq<char>,
    before: Seq<String>,
    after: Seq<String>,
    gag: bool,
) -> bool {
    match clean(input) {
        Some(text) => {
            &&& gag == reported_gag(firing(slots, text))
            &&& reports(texts(before), texts(after), firing(slots, text).len())
        },
        None => !gag && after == before,
    }
}

/// The listener that a raw message goes to and the content it gets: the
/// message splits at its first space into type and content, and the type has a
/// listener.
pub open spec fn gmcp_target(
    listeners: Map<Seq<char>, rlua::RegistryKey>,
    data: Seq<char>,
) -> Option<(rlua::RegistryKey, Seq<char>)> {
    match split_spec(data) {
        Some((msg_type, content)) => if listeners.contains_key(msg_type) {
            Some((listeners[msg_type], content))
        } else {
            None
        },
        None => None,
    }
}

/// One failing callback among the calls of a pass gives exactly one
/// diagnostic, its message, however many calls stand before and after it.
pub proof fn lemma_one_failure_one_diagnostic(failures: Seq<Option<Seq<char>>>, failed: int)
    requires
        0 <= failed < failures.len(),
        failures[failed].is_some(),
        forall|i: int| 0 <= i < failures.len() && i != failed ==> failures[i].is_none(),
    ensures
        emitted(failures) == seq![failures[failed].unwrap()],
    decreases failures.len(),
{
    let earlier = failures.drop_last();
    if failed == failures.len() - 1 {
        lemma_no_failure_no_diagnostic(earlier);
        assert(emitted(failures) =~= seq![failures[failed].unwrap()]);
    } else {
        lemma_one_failure_one_diagnostic(earlier, failed);
    }
}

/// Calls that all succeed give no diagnostic.
pub proof fn lemma_no_failure_no_diagnostic(failures: Seq<Option<Seq<char>>>)
    requires
        forall|i: int| 0 <= i < failures.len() ==> failures[i].is_none(),
    ensures
        emitted(failures) == Seq::<Seq<char>>::empty(),
    decreases failures.len(),
{
    if failures.len() > 0 {
        lemma_no_failure_no_diagnostic(failures.drop_last());
    }
}

/// A pass never takes a diagnostic away: what was in the outbound events
/// stays at their head, and a pass of `calls` calls adds at most `calls`.
pub proof fn lemma_reports_extends(before: Seq<Seq<char>>, after: Seq<Seq<char>>, calls: nat)
    requires
        reports(before, after, calls),
    ensures
        before.len() <= after.len() <= before.len() + calls,
        after.subrange(0, before.len() as int) == before,
{
    let failures = choose|failures: Seq<Option<Seq<char>>>|
        failures.len() == calls && after == before + #[trigger] emitted(failures);
    lemma_emitted_is_bounded(failures);
    assert(after.subrange(0, before.len() as int) =~= before);
}

/// There are no more diagnostics than calls.
pub proof fn lemma_emitted_is_bounded(failures: Seq<Option<Seq<char>>>)
    ensures
        emitted(failures).len() <= failures.len(),
    decreases failures.len(),
{
    if failures.len() > 0 {
        lemma_emitted_is_bounded(failures.drop_last());
    }
}

/// A runtime with nothing registered reacts to nothing: no alias matches, no
/// trigger gags, and no message finds a listener.
pub proof fn lemma_fresh_is_silent(script: LuaScript, input: Seq<char>)
    requires
        script.is_fresh(),
    ensures
        firing(script.aliases@, input).len() == 0,
        !reported_gag(firing(script.triggers@, input)),
        !reported_gag(firing(script.prompt_triggers@, input)),
        gmcp_target(script.listeners@, input).is_none(),
{
}

} // verus!
