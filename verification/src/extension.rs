//! Metadata that travels with a response without being part of it.
//!
//! The bag is append-only: an entry that was put in stays. It is read by
//! logging and telemetry after the response has left the router, and plays
//! no part in what is written to the wire.

use vstd::prelude::*;
use vstd::string::*;

verus! {

/// The meaning of an entry.
#[derive(Clone, Copy, Debug, PartialEq, Eq, Structural)]
pub enum ExtensionKey {
    /// The error-type identifier of a failure raised by the runtime.
    RuntimeErrorType,
    /// The error-type identifier of a failure modeled by the service.
    ModeledErrorType,
    /// The name of the operation that handled the request.
    OperationName,
}

/// One entry of the bag.
#[derive(Clone, Debug, PartialEq, Eq)]
pub struct Extension {
    pub key: ExtensionKey,
    pub value: String,
}

impl View for Extension {
    type V = (ExtensionKey, Seq<char>);

    open spec fn view(&self) -> (ExtensionKey, Seq<char>) {
        (self.key, self.value@)
    }
}

/// The models of a vector of entries.
pub open spec fn entries_view(v: Seq<Extension>) -> Seq<(ExtensionKey, Seq<char>)> {
    Seq::new(v.len(), |i: int| v[i]@)
}

/// The value most recently put in under `key`, if any.
pub open spec fn latest(entries: Seq<(ExtensionKey, Seq<char>)>, key: ExtensionKey) -> Option<
    Seq<char>,
>
    decreases entries.len(),
{
    if entries.len() == 0 {
        None
    } else if entries.last().0 == key {
        Some(entries.last().1)
    } else {
        latest(entries.drop_last(), key)
    }
}

/// The bag of metadata attached to a response.
#[derive(Clone, Debug, PartialEq, Eq)]
pub struct Extensions {
    entries: Vec<Extension>,
}

impl View for Extensions {
    type V = Seq<(ExtensionKey, Seq<char>)>;

    closed spec fn view(&self) -> Seq<(ExtensionKey, Seq<char>)> {
        entries_view(self.entries@)
    }
}

impl Extensions {
    /// An empty bag.
    pub fn new() -> (bag: Self)
        ensures
            bag@ == Seq::<(ExtensionKey, Seq<char>)>::empty(),
    {
        let bag = Extensions { entries: Vec::new() };
        assert(bag@ =~= Seq::<(ExtensionKey, Seq<char>)>::empty());
        bag
    }

    /// Puts an entry in, after those already there.
    pub fn insert(&mut self, key: ExtensionKey, value: String)
        ensures
            final(self)@ == old(self)@.push((key, value@)),
    {
        self.entries.push(Extension { key, value });
        assert(self@ =~= old(self)@.push((key, value@)));
    }

    /// The number of entries.
    pub fn len(&self) -> (n: usize)
        ensures
            n == self@.len(),
    {
        self.entries.len()
    }

    /// The entries, oldest first.
    pub fn entries(&self) -> (entries: &Vec<Extension>)
        ensures
            entries_view(entries@) == self@,
    {
        &self.entries
    }

    /// The value most recently put in under `key`.
    pub fn get(&self, key: ExtensionKey) -> (value: Option<&str>)
        ensures
            match value {
                Some(text) => latest(self@, key) == Some(text@),
                None => latest(self@, key) is None,
            },
    {
        let ghost model = self@;
        let mut found: Option<usize> = None;
        let mut i: usize = 0;
        assert(model.take(0) =~= Seq::<(ExtensionKey, Seq<char>)>::empty());
        while i < self.entries.len()
            invariant
                i <= self.entries.len(),
                model == entries_view(self.entries@),
                match found {
                    Some(at) => at < i && latest(model.take(i as int), key) == Some(model[at as int].1),
                    None => latest(model.take(i as int), key) is None,
                },
            decreases self.entries.len() - i,
        {
            assert(model.take(i + 1).drop_last() =~= model.take(i as int));
            assert(model.take(i + 1).last() == model[i as int]);
            assert(model[i as int] == self.entries@[i as int]@);
            if self.entries[i].key == key {
                found = Some(i);
            }
            i += 1;
        }
        assert(model.take(i as int) =~= model);
        match found {
            Some(at) => {
                assert(model[at as int] == self.entries@[at as int]@);
                Some(self.entries[at].value.as_str())
            },
            None => None,
        }
    }
}

} // verus!
