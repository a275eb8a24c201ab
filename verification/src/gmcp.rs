//! Out-of-band messages: splitting a raw message into its type and content,
//! and the table of listeners keyed by message type.

use vstd::prelude::*;

verus! {

/// A message of the out-of-band channel.
#[derive(Debug)]
pub struct GmcpMessage {
    pub msg_type: String,
    pub content: String,
}

/// The position of the first space in `data`, or the length of `data` where
/// it holds none.
pub open spec fn first_space(data: Seq<char>) -> int
    decreases data.len(),
{
    if data.len() == 0 || data[0] == ' ' {
        0
    } else {
        1 + first_space(data.drop_first())
    }
}

/// The type and the content of a raw message: what stands before its first
/// space, and what stands after it. A message without a space has neither.
pub open spec fn split_spec(data: Seq<char>) -> Option<(Seq<char>, Seq<char>)> {
    let at = first_space(data);
    if at < data.len() {
        Some((data.subrange(0, at), data.subrange(at + 1, data.len() as int)))
    } else {
        None
    }
}

/// `first_space` is the position before which no space stands and at which
/// one does, or the text ends.
pub proof fn lemma_first_space(data: Seq<char>, at: int)
    requires
        0 <= at <= data.len(),
        forall|j: int| 0 <= j < at ==> data[j] != ' ',
        at < data.len() ==> data[at] == ' ',
    ensures
        first_space(data) == at,
    decreases at,
{
    if at > 0 {
        let rest = data.drop_first();
        assert forall|j: int| 0 <= j < at - 1 implies rest[j] != ' ' by {
            assert(rest[j] == data[j + 1]);
        }
        lemma_first_space(rest, at - 1);
    }
}

/// Splits a raw message at its first space into type and content. A message
/// without a space is malformed and gives `None`.
pub fn split_message(data: &str) -> (r: Option<GmcpMessage>)
    ensures
        r.is_some() == data@.contains(' '),
        match r {
            Some(m) => {
                &&& split_spec(data@) == Some((m.msg_type@, m.content@))
                &&& !m.msg_type@.contains(' ')
                &&& data@ == m.msg_type@ + seq![' '] + m.content@
            },
            None => split_spec(data@).is_none(),
        },
{
    let n = data.unicode_len();
    let mut i: usize = 0;
    while i < n
        invariant
            n == data@.len(),
            i <= n,
            forall|j: int| 0 <= j < i ==> data@[j] != ' ',
        decreases n - i,
    {
        if data.get_char(i) == ' ' {
            let msg_type = String::from_str(data.substring_char(0, i));
            let content = String::from_str(data.substring_char(i + 1, n));
            proof {
                lemma_first_space(data@, i as int);
                assert(data@ =~= msg_type@ + seq![' '] + content@);
                assert(data@[i as int] == ' ');
            }
            return Some(GmcpMessage { msg_type, content });
        }
        i = i + 1;
    }
    proof {
        lemma_first_space(data@, n as int);
    }
    None
}

/// The message types of the listeners, in the order in which they were first
/// registered.
pub open spec fn keys_of<C>(entries: Seq<(String, C)>) -> Seq<Seq<char>> {
    entries.map_values(|e: (String, C)| e.0@)
}

/// The first position at which `key` stands in `keys`.
pub open spec fn position(keys: Seq<Seq<char>>, key: Seq<char>) -> Option<int>
    decreases keys.len(),
{
    if keys.len() == 0 {
        None
    } else {
        match position(keys.drop_last(), key) {
            Some(i) => Some(i),
            None => if keys.last() == key {
                Some(keys.len() - 1)
            } else {
                None
            },
        }
    }
}

/// A position that `position` gives lies in `keys` and holds `key`.
pub proof fn lemma_position_holds_key(keys: Seq<Seq<char>>, key: Seq<char>)
    ensures
        position(keys, key) matches Some(i) ==> 0 <= i < keys.len() && keys[i] == key,
    decreases keys.len(),
{
    if keys.len() > 0 {
        lemma_position_holds_key(keys.drop_last(), key);
    }
}

/// A key that stands in `keys` has a position.
pub proof fn lemma_position_finds(keys: Seq<Seq<char>>, key: Seq<char>, at: int)
    requires
        0 <= at < keys.len(),
        keys[at] == key,
    ensures
        position(keys, key).is_some(),
    decreases keys.len(),
{
    if at < keys.len() - 1 {
        lemma_position_finds(keys.drop_last(), key, at);
    }
}

/// The listeners as a mapping from message type to callback.
pub open spec fn table_of<C>(entries: Seq<(String, C)>) -> Map<Seq<char>, C> {
    Map::new(
        |k: Seq<char>| position(keys_of(entries), k).is_some(),
        |k: Seq<char>| entries[position(keys_of(entries), k).unwrap()].1,
    )
}

/// At most one listener per message type.
pub struct GmcpTable<C> {
    entries: Vec<(String, C)>,
}

impl<C> View for GmcpTable<C> {
    type V = Map<Seq<char>, C>;

    closed spec fn view(&self) -> Map<Seq<char>, C> {
        table_of(self.entries@)
    }
}

impl<C> GmcpTable<C> {
    /// No message type stands twice in the table.
    #[verifier::type_invariant]
    spec fn distinct_types(&self) -> bool {
        keys_of(self.entries@).no_duplicates()
    }

    /// A table without listeners.
    pub fn new() -> (t: Self)
        ensures
            t@ == Map::<Seq<char>, C>::empty(),
    {
        let t = GmcpTable { entries: Vec::new() };
        assert(t@ =~= Map::<Seq<char>, C>::empty());
        t
    }

    fn find(&self, msg_type: &str) -> (r: Option<usize>)
        ensures
            match r {
                Some(i) => position(keys_of(self.entries@), msg_type@) == Some(i as int) && i
                    < self.entries@.len() && self.entries@[i as int].0@ == msg_type@,
                None => position(keys_of(self.entries@), msg_type@).is_none(),
            },
    {
        let wanted = String::from_str(msg_type);
        let mut found: Option<usize> = None;
        let mut i: usize = 0;
        let ghost keys = keys_of(self.entries@);
        assert(keys.take(0) =~= Seq::empty());
        while i < self.entries.len()
            invariant
                wanted@ == msg_type@,
                keys == keys_of(self.entries@),
                i <= self.entries@.len(),
                match found {
                    Some(f) => position(keys.take(i as int), msg_type@) == Some(f as int) && f < i
                        && keys[f as int] == msg_type@,
                    None => position(keys.take(i as int), msg_type@).is_none(),
                },
            decreases self.entries@.len() - i,
        {
            proof {
                assert(keys.take(i + 1).drop_last() =~= keys.take(i as int));
            }
            if found.is_none() && self.entries[i].0 == wanted {
                found = Some(i);
            }
            i = i + 1;
        }
        assert(keys.take(i as int) =~= keys);
        found
    }

    /// Registers `callback` for `msg_type`. A listener already registered for
    /// that type is replaced.
    pub fn register(&mut self, msg_type: &str, callback: C)
        ensures
            final(self)@ == old(self)@.insert(msg_type@, callback),
    {
        let ghost before = self.entries@;
        let key = String::from_str(msg_type);
        proof {
            use_type_invariant(&*self);
        }
        let found = self.find(msg_type);
        let mut entries: Vec<(String, C)> = Vec::new();
        assert(keys_of(entries@) =~= Seq::<Seq<char>>::empty());
        core::mem::swap(&mut entries, &mut self.entries);
        match found {
            Some(i) => {
                entries[i] = (key, callback);
                proof {
                    assert(keys_of(entries@) =~= keys_of(before));
                    assert forall|k: Seq<char>| position(keys_of(before), k).is_some() implies (
                    #[trigger] table_of(entries@)[k]) == table_of(before).insert(
                        msg_type@,
                        callback,
                    )[k] by {
                        lemma_position_holds_key(keys_of(before), k);
                    }
                    assert(table_of(entries@) =~= table_of(before).insert(msg_type@, callback));
                }
            },
            None => {
                entries.push((key, callback));
                proof {
                    let after = entries@;
                    assert(keys_of(after).drop_last() =~= keys_of(before));
                    assert forall|k: Seq<char>|
                        (#[trigger] table_of(after).dom().contains(k)) == table_of(before).insert(
                            msg_type@,
                            callback,
                        ).dom().contains(k) by {}
                    assert forall|k: Seq<char>| table_of(after).dom().contains(k) implies (
                    #[trigger] table_of(after)[k]) == table_of(before).insert(msg_type@, callback)[k] by {
                        lemma_position_holds_key(keys_of(before), k);
                    }
                    assert(table_of(after) =~= table_of(before).insert(msg_type@, callback));
                    assert forall|i: int| 0 <= i < before.len() implies keys_of(before)[i]
                        != msg_type@ by {
                        if keys_of(before)[i] == msg_type@ {
                            lemma_position_finds(keys_of(before), msg_type@, i);
                        }
                    }
                    assert(keys_of(after).no_duplicates()) by {
                        assert forall|i: int, j: int|
                            0 <= i < after.len() && 0 <= j < after.len() && i != j implies keys_of(
                            after,
                        )[i] != keys_of(after)[j] by {
                            if i < before.len() {
                                assert(keys_of(after)[i] == keys_of(before)[i]);
                            }
                            if j < before.len() {
                                assert(keys_of(after)[j] == keys_of(before)[j]);
                            }
                        }
                    }
                }
            },
        }
        core::mem::swap(&mut entries, &mut self.entries);
    }

    /// The listener registered for exactly `msg_type`, if there is one.
    pub fn lookup(&self, msg_type: &str) -> (r: Option<&C>)
        ensures
            r.is_some() == self@.contains_key(msg_type@),
            r matches Some(c) ==> *c == self@[msg_type@],
    {
        match self.find(msg_type) {
            Some(i) => Some(&self.entries[i].1),
            None => None,
        }
    }

    /// The number of message types with a listener.
    pub fn len(&self) -> (n: usize)
        ensures
            self@.dom().finite(),
            n == self@.dom().len(),
    {
        proof {
            use_type_invariant(self);
            let keys = keys_of(self.entries@);
            keys.unique_seq_to_set();
            assert(self@.dom() =~= keys.to_set()) by {
                assert forall|k: Seq<char>| self@.dom().contains(k) == keys.to_set().contains(k) by {
                    lemma_position_holds_key(keys, k);
                    if keys.contains(k) {
                        let at = choose|at: int| 0 <= at < keys.len() && keys[at] == k;
                        lemma_position_finds(keys, k, at);
                    }
                }
            }
        }
        self.entries.len()
    }
}

} // verus!
