//! String maps: tags and registries.
//!
//! A string map is stored as the number of its entries and then, for each
//! entry, its key and its value. The entries are kept in the order of the
//! file; where a key occurs more than once, its last value is the one that
//! counts.

use crate::parser::{Decode, Failure, ParseError, Parser, Prefix};
use crate::parser::{at_field, end_of, failed, field, value_of, views};
use crate::parser::{lemma_reads_counted, lemma_reads_string};
use crate::parser::{lemma_same_later};
use crate::parser::{spec_counted, spec_string};
use vstd::prelude::*;

verus! {

/// A key and the value that goes with it.
#[derive(Clone, Debug)]
pub struct Entry {
    pub key: String,
    pub value: String,
}

/// What an entry holds.
pub struct EntryView {
    pub key: Seq<char>,
    pub value: Seq<char>,
}

impl View for Entry {
    type V = EntryView;

    open spec fn view(&self) -> EntryView {
        EntryView {
            key: self.key@,
            value: self.value@,
        }
    }
}

/// What reading an entry at `at` gives: its parts one after the other.
#[verifier::opaque]
pub open spec fn spec_entry(bytes: Seq<u8>, at: int) -> Result<(EntryView, int), Failure> {
    let key = field(spec_string(bytes, at, Prefix::U32), "key");
    let value = field(spec_string(bytes, end_of(key), Prefix::U32), "value");
    if key is Err {
        failed(key)
    } else if value is Err {
        failed(value)
    } else {
        Ok(
            (
                EntryView {
                    key: value_of(key),
                    value: value_of(value),
                },
                end_of(value),
            ),
        )
    }
}

impl Decode for Entry {
    open spec fn spec_parse(bytes: Seq<u8>, at: int) -> Result<(EntryView, int), Failure> {
        spec_entry(bytes, at)
    }

    fn parse(parser: &mut Parser) -> (got: Result<Entry, ParseError>) {
        proof {
            reveal(spec_entry);
        }
        let key = at_field(parser.read_string(Prefix::U32), "key")?;
        let value = at_field(parser.read_string(Prefix::U32), "value")?;
        Ok(Entry { key, value })
    }

    proof fn lemma_reads_ahead(a: Seq<u8>, b: Seq<u8>, at: int) {
        reveal(spec_entry);
        lemma_reads_string(a, b, at, Prefix::U32);
        let key = field(spec_string(a, at, Prefix::U32), "key");
        let so_far = key is Ok;
        if so_far {
            lemma_same_later(a, b, at, end_of(key));
            lemma_reads_string(a, b, end_of(key), Prefix::U32);
        }
    }
}

/// The value of each key among the first `n` entries. Of two entries with
/// one key the later counts.
pub open spec fn associations(entries: Seq<EntryView>, n: nat) -> Map<Seq<char>, Seq<char>>
    decreases n,
{
    if n == 0 {
        Map::empty()
    } else {
        associations(entries, (n - 1) as nat).insert(entries[n - 1].key, entries[n - 1].value)
    }
}

/// A key has a value among the first `n` entries exactly where one of them
/// has the key, and the value is that of the last of them.
pub proof fn lemma_associations(entries: Seq<EntryView>, n: nat, key: Seq<char>)
    requires
        n <= entries.len(),
    ensures
        associations(entries, n).contains_key(key) <==> exists|i: int|
            0 <= i < n && #[trigger] entries[i].key == key,
        forall|i: int|
            0 <= i < n && #[trigger] entries[i].key == key && (forall|j: int|
                i < j < n ==> #[trigger] entries[j].key != key) ==> associations(entries, n)[key]
                == entries[i].value,
    decreases n,
{
    if n > 0 {
        lemma_associations(entries, (n - 1) as nat, key);
        if entries[n - 1].key != key {
            assert forall|i: int|
                0 <= i < n && #[trigger] entries[i].key == key && (forall|j: int|
                    i < j < n ==> #[trigger] entries[j].key != key) implies associations(
                entries,
                n,
            )[key] == entries[i].value by {
                assert(i < n - 1);
            }
        }
    }
}

/// The value of the last entry with the key `key`.
fn lookup<'a>(entries: &'a Vec<Entry>, key: &str) -> (found: Option<&'a String>)
    ensures
        match found {
            Some(text) => associations(views(entries@), entries@.len()).contains_key(key@)
                && associations(views(entries@), entries@.len())[key@] == text@,
            None => !associations(views(entries@), entries@.len()).contains_key(key@),
        },
{
    let wanted = String::from_str(key);
    let mut i: usize = entries.len();
    while i > 0
        invariant
            i <= entries@.len(),
            wanted@ == key@,
            forall|j: int| i <= j < entries@.len() ==> #[trigger] views(entries@)[j].key != key@,
        decreases i,
    {
        i = i - 1;
        assert(views(entries@)[i as int] == entries@[i as int]@);
        if entries[i].key == wanted {
            proof {
                let all = views(entries@);
                lemma_associations(all, entries@.len() as nat, key@);
                assert(all[i as int].key == key@);
                assert(forall|j: int| i < j < entries@.len() ==> #[trigger] all[j].key != key@);
                assert(associations(all, entries@.len() as nat)[key@] == all[i as int].value);
            }
            return Some(&entries[i].value);
        }
    }
    proof {
        lemma_associations(views(entries@), entries@.len() as nat, key@);
    }
    None
}

/// The tags of an entity: keys with values, in the order of the file.
#[derive(Clone, Debug)]
pub struct Tags(pub Vec<Entry>);

impl View for Tags {
    type V = Seq<EntryView>;

    open spec fn view(&self) -> Seq<EntryView> {
        views(self.0@)
    }
}

impl Decode for Tags {
    /// The number of entries in one byte, then the entries.
    open spec fn spec_parse(bytes: Seq<u8>, at: int) -> Result<(Seq<EntryView>, int), Failure> {
        spec_counted::<Entry>(bytes, at, Prefix::U8)
    }

    fn parse(parser: &mut Parser) -> (got: Result<Tags, ParseError>) {
        Ok(Tags(parser.read_counted::<Entry>(Prefix::U8)?))
    }

    proof fn lemma_reads_ahead(a: Seq<u8>, b: Seq<u8>, at: int) {
        lemma_reads_counted::<Entry>(a, b, at, Prefix::U8);
    }
}

impl Tags {
    /// The value of each key. Of two entries with one key the later counts.
    pub open spec fn as_map(&self) -> Map<Seq<char>, Seq<char>> {
        associations(self@, self@.len())
    }

    /// Number of entries.
    pub fn len(&self) -> (n: usize)
        ensures
            n == self@.len(),
    {
        self.0.len()
    }

    /// Whether there is no entry.
    pub fn is_empty(&self) -> (empty: bool)
        ensures
            empty == (self@.len() == 0),
    {
        self.0.len() == 0
    }

    /// The value of `key`, if the entity has the key.
    pub fn get(&self, key: &str) -> (found: Option<&String>)
        ensures
            match found {
                Some(text) => self.as_map().contains_key(key@) && self.as_map()[key@] == text@,
                None => !self.as_map().contains_key(key@),
            },
    {
        lookup(&self.0, key)
    }
}

/// A registry: keys with values, in the order of the file.
#[derive(Clone, Debug)]
pub struct Registry(pub Vec<Entry>);

impl View for Registry {
    type V = Seq<EntryView>;

    open spec fn view(&self) -> Seq<EntryView> {
        views(self.0@)
    }
}

impl Decode for Registry {
    /// The number of entries in one byte, then the entries.
    open spec fn spec_parse(bytes: Seq<u8>, at: int) -> Result<(Seq<EntryView>, int), Failure> {
        spec_counted::<Entry>(bytes, at, Prefix::U8)
    }

    fn parse(parser: &mut Parser) -> (got: Result<Registry, ParseError>) {
        Ok(Registry(parser.read_counted::<Entry>(Prefix::U8)?))
    }

    proof fn lemma_reads_ahead(a: Seq<u8>, b: Seq<u8>, at: int) {
        lemma_reads_counted::<Entry>(a, b, at, Prefix::U8);
    }
}

impl Registry {
    /// The value of each key. Of two entries with one key the later counts.
    pub open spec fn as_map(&self) -> Map<Seq<char>, Seq<char>> {
        associations(self@, self@.len())
    }

    /// Number of entries.
    pub fn len(&self) -> (n: usize)
        ensures
            n == self@.len(),
    {
        self.0.len()
    }

    /// Whether there is no entry.
    pub fn is_empty(&self) -> (empty: bool)
        ensures
            empty == (self@.len() == 0),
    {
        self.0.len() == 0
    }

    /// The value of `key`, if the registry has the key.
    pub fn get(&self, key: &str) -> (found: Option<&String>)
        ensures
            match found {
                Some(text) => self.as_map().contains_key(key@) && self.as_map()[key@] == text@,
                None => !self.as_map().contains_key(key@),
            },
    {
        lookup(&self.0, key)
    }
}

} // verus!
