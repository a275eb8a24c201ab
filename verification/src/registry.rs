//! Ordered registries of pattern-keyed callbacks.
//!
//! A registry keeps its entries in the order in which they were registered.
//! Registration hands out the entry's position, which stays valid for the life
//! of the registry: removing an entry empties its position and moves nothing.

use vstd::prelude::*;
use crate::pattern::{Pattern, pattern_is_valid, pattern_matches, pattern_groups, filled, texts, fill_groups};

verus! {

/// One registered callback: the pattern it waits for, whether it takes part in
/// matching, whether a matching line is to be hidden, and its handle.
pub struct Entry<C> {
    pub pattern: Pattern,
    pub enabled: bool,
    pub gag: bool,
    pub callback: C,
}

impl<C> Entry<C> {
    /// Whether the entry reacts to `input`: it is enabled and its pattern
    /// matches.
    pub open spec fn fires(&self, input: Seq<char>) -> bool {
        self.enabled && pattern_matches(self.pattern.source(), input)
    }
}

/// The text that was refused as a regular expression.
#[derive(Debug)]
pub struct PatternError {
    pub pattern: String,
}

/// One callback to invoke: the position of its entry, the arguments for it and
/// the entry's gag flag.
#[derive(Debug)]
pub struct Invocation {
    pub entry: usize,
    pub args: Vec<String>,
    pub gag: bool,
}

/// What an `Invocation` stands for.
pub struct Firing {
    pub entry: int,
    pub args: Seq<Seq<char>>,
    pub gag: bool,
}

impl View for Invocation {
    type V = Firing;

    open spec fn view(&self) -> Firing {
        Firing { entry: self.entry as int, args: texts(self.args@), gag: self.gag }
    }
}

/// The invocations that a plan holds.
pub open spec fn plan_view(plan: Seq<Invocation>) -> Seq<Firing> {
    plan.map_values(|i: Invocation| i@)
}

/// Whether the entry at position `i`, if there is one, reacts to `input`.
pub open spec fn slot_fires<C>(slots: Seq<Option<Entry<C>>>, i: int, input: Seq<char>) -> bool {
    0 <= i < slots.len() && (match slots[i] {
        Some(e) => e.fires(input),
        None => false,
    })
}

/// The callbacks to invoke for `input`, in order: one for each position whose
/// entry reacts to it, with the capture groups of that entry's pattern as
/// arguments.
pub open spec fn firing<C>(slots: Seq<Option<Entry<C>>>, input: Seq<char>) -> Seq<Firing>
    decreases slots.len(),
{
    if slots.len() == 0 {
        Seq::empty()
    } else {
        let earlier = firing(slots.drop_last(), input);
        match slots.last() {
            Some(e) => if e.fires(input) {
                earlier.push(
                    Firing {
                        entry: slots.len() - 1,
                        args: filled(pattern_groups(e.pattern.source(), input)),
                        gag: e.gag,
                    },
                )
            } else {
                earlier
            },
            None => earlier,
        }
    }
}

/// The gag flag reported for a pass: that of the last callback invoked, and
/// `false` when there was none.
pub open spec fn reported_gag(plan: Seq<Firing>) -> bool {
    if plan.len() == 0 {
        false
    } else {
        plan.last().gag
    }
}

/// Entries in registration order.
pub struct Registry<C> {
    slots: Vec<Option<Entry<C>>>,
}

impl<C> View for Registry<C> {
    type V = Seq<Option<Entry<C>>>;

    closed spec fn view(&self) -> Seq<Option<Entry<C>>> {
        self.slots@
    }
}

impl<C> Registry<C> {
    /// A registry without entries.
    pub fn new() -> (r: Self)
        ensures
            r@ == Seq::<Option<Entry<C>>>::empty(),
    {
        Registry { slots: Vec::new() }
    }

    /// The number of positions handed out so far.
    pub fn len(&self) -> (n: usize)
        ensures
            n == self@.len(),
    {
        self.slots.len()
    }

    /// Compiles `pattern` and appends an entry for it. A text that is no
    /// regular expression is refused and leaves the registry as it was.
    pub fn register(&mut self, pattern: &str, enabled: bool, gag: bool, callback: C) -> (r: Result<
        usize,
        PatternError,
    >)
        ensures
            r.is_ok() == pattern_is_valid(pattern@),
            match r {
                Ok(id) => {
                    &&& id == old(self)@.len()
                    &&& final(self)@.len() == old(self)@.len() + 1
                    &&& final(self)@.drop_last() == old(self)@
                    &&& final(self)@.last() matches Some(e) && e.pattern.source() == pattern@
                        && e.enabled == enabled && e.gag == gag && e.callback == callback
                },
                Err(e) => final(self)@ == old(self)@ && e.pattern@ == pattern@,
            },
    {
        match Pattern::compile(pattern) {
            Ok(compiled) => {
                let id = self.slots.len();
                self.slots.push(Some(Entry { pattern: compiled, enabled, gag, callback }));
                assert(self.slots@.drop_last() =~= old(self).slots@);
                Ok(id)
            },
            Err(_) => Err(PatternError { pattern: String::from_str(pattern) }),
        }
    }

    /// Switches the entry at `id` on or off. Returns whether there is such an
    /// entry; without one nothing changes.
    pub fn set_enabled(&mut self, id: usize, enabled: bool) -> (found: bool)
        ensures
            found == (id < old(self)@.len() && old(self)@[id as int].is_some()),
            found ==> final(self)@ == old(self)@.update(
                id as int,
                Some(Entry { enabled: enabled, ..old(self)@[id as int].unwrap() }),
            ),
            !found ==> final(self)@ == old(self)@,
    {
        if id >= self.slots.len() {
            return false;
        }
        let slot = self.slots[id].take();
        match slot {
            Some(e) => {
                self.slots[id] = Some(
                    Entry { pattern: e.pattern, enabled, gag: e.gag, callback: e.callback },
                );
                assert(self.slots@ =~= old(self).slots@.update(
                    id as int,
                    Some(Entry { enabled: enabled, ..old(self).slots@[id as int].unwrap() }),
                ));
                true
            },
            None => {
                assert(self.slots@ =~= old(self).slots@);
                false
            },
        }
    }

    /// Removes the entry at `id`. Returns whether there was one; removing
    /// twice, or at a position never handed out, changes nothing.
    pub fn remove(&mut self, id: usize) -> (found: bool)
        ensures
            found == (id < old(self)@.len() && old(self)@[id as int].is_some()),
            found ==> final(self)@ == old(self)@.update(id as int, None),
            !found ==> final(self)@ == old(self)@,
    {
        if id >= self.slots.len() {
            return false;
        }
        let slot = self.slots[id].take();
        assert(self.slots@ =~= old(self).slots@.update(id as int, None));
        slot.is_some()
    }

    /// The entry at `id`, if there is one.
    pub fn get(&self, id: usize) -> (r: Option<&Entry<C>>)
        ensures
            r.is_some() == (id < self@.len() && self@[id as int].is_some()),
            r matches Some(e) ==> Some(*e) == self@[id as int],
    {
        if id < self.slots.len() {
            self.slots[id].as_ref()
        } else {
            None
        }
    }

    /// Scans the entries in registration order and lists the callbacks to
    /// invoke for `input`.
    pub fn matches(&self, input: &str) -> (plan: Vec<Invocation>)
        ensures
            plan_view(plan@) == firing(self@, input@),
    {
        let mut plan: Vec<Invocation> = Vec::new();
        let mut i: usize = 0;
        assert(self.slots@.take(0) =~= Seq::empty());
        while i < self.slots.len()
            invariant
                i <= self.slots@.len(),
                plan_view(plan@) == firing(self.slots@.take(i as int), input@),
            decreases self.slots@.len() - i,
        {
            proof {
                assert(self.slots@.take(i + 1).drop_last() =~= self.slots@.take(i as int));
            }
            if let Some(e) = &self.slots[i] {
                if e.enabled && e.pattern.is_match(input) {
                    let groups = e.pattern.captures(input).unwrap();
                    let args = fill_groups(groups);
                    let ghost before = plan@;
                    plan.push(Invocation { entry: i, args, gag: e.gag });
                    assert(plan_view(plan@) =~= plan_view(before).push(plan@.last()@));
                }
            }
            i = i + 1;
        }
        assert(self.slots@.take(i as int) =~= self.slots@);
        plan
    }
}

/// The gag flag to report for a plan: that of its last invocation.
pub fn last_gag(plan: &Vec<Invocation>) -> (gag: bool)
    ensures
        gag == reported_gag(plan_view(plan@)),
{
    if plan.len() == 0 {
        false
    } else {
        plan[plan.len() - 1].gag
    }
}

} // verus!

verus! {

/// The callbacks invoked for an input are exactly those of the positions whose
/// entry is enabled and matches: each such position occurs once, positions
/// occur in increasing order, and each invocation carries the capture groups of
/// its entry's pattern and the entry's gag flag. A disabled or removed entry
/// never occurs.
pub proof fn lemma_fires_once_in_order<C>(slots: Seq<Option<Entry<C>>>, input: Seq<char>)
    ensures
        forall|k: int|
            0 <= k < firing(slots, input).len() ==> {
                let f = #[trigger] firing(slots, input)[k];
                &&& slot_fires(slots, f.entry, input)
                &&& f.args == filled(pattern_groups(slots[f.entry].unwrap().pattern.source(), input))
                &&& f.gag == slots[f.entry].unwrap().gag
            },
        forall|k: int, l: int|
            0 <= k < l < firing(slots, input).len() ==> (#[trigger] firing(slots, input)[k]).entry < (
            #[trigger] firing(slots, input)[l]).entry,
        forall|i: int| #[trigger]
            slot_fires(slots, i, input) ==> exists|k: int|
                0 <= k < firing(slots, input).len() && (#[trigger] firing(slots, input)[k]).entry
                    == i,
    decreases slots.len(),
{
    if slots.len() > 0 {
        let earlier = slots.drop_last();
        lemma_fires_once_in_order(earlier, input);
        let p = firing(slots, input);
        let q = firing(earlier, input);
        assert forall|i: int| #[trigger] slot_fires(slots, i, input) implies exists|k: int|
            0 <= k < p.len() && (#[trigger] p[k]).entry == i by {
            if i < slots.len() - 1 {
                assert(slot_fires(earlier, i, input));
                let k = choose|k: int| 0 <= k < q.len() && (#[trigger] q[k]).entry == i;
                assert(p[k].entry == i);
            } else {
                assert(p[p.len() - 1].entry == i);
            }
        }
    }
}

/// Last match wins: the gag flag reported for an input is that of the last
/// entry, in registration order, that is enabled and matches.
pub proof fn lemma_last_match_wins<C>(slots: Seq<Option<Entry<C>>>, input: Seq<char>, last: int)
    requires
        slot_fires(slots, last, input),
        forall|i: int| last < i < slots.len() ==> !#[trigger] slot_fires(slots, i, input),
    ensures
        reported_gag(firing(slots, input)) == slots[last].unwrap().gag,
    decreases slots.len(),
{
    if last < slots.len() - 1 {
        assert(!slot_fires(slots, slots.len() - 1, input));
        assert forall|i: int| last < i < slots.drop_last().len() implies !#[trigger] slot_fires(
            slots.drop_last(),
            i,
            input,
        ) by {
            assert(!slot_fires(slots, i, input));
        }
        lemma_last_match_wins(slots.drop_last(), input, last);
    }
}

/// Where no entry is enabled and matches, nothing is invoked and no gag is
/// reported. A registry without entries is such a registry.
pub proof fn lemma_silent_without_match<C>(slots: Seq<Option<Entry<C>>>, input: Seq<char>)
    requires
        forall|i: int| 0 <= i < slots.len() ==> !#[trigger] slot_fires(slots, i, input),
    ensures
        firing(slots, input).len() == 0,
        !reported_gag(firing(slots, input)),
    decreases slots.len(),
{
    if slots.len() > 0 {
        assert(!slot_fires(slots, slots.len() - 1, input));
        assert forall|i: int| 0 <= i < slots.drop_last().len() implies !#[trigger] slot_fires(
            slots.drop_last(),
            i,
            input,
        ) by {
            assert(!slot_fires(slots, i, input));
        }
        lemma_silent_without_match(slots.drop_last(), input);
    }
}

} // verus!
