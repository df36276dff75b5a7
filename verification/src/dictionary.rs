//! The translation dictionary and its reconciliation with the keys in use.
//!
//! The dictionary only grows: a key that the sources use and the dictionary
//! lacks is appended with a placeholder value, and nothing else changes.

use vstd::prelude::*;
use indexmap::IndexMap;
use serde_json::Value;
use crate::json::{
    has_key, json_string, map_contains_key, map_entries, map_insert_string, parse_object,
    parsed_object, pretty_object, pretty_text, Entry,
};
use crate::keys::{lemma_sorted_distinct, strictly_sorted, views, KeySet};

verus! {

/// The value that a newly added key gets.
pub const PLACEHOLDER: &'static str = "TODO";

/// Why a dictionary could not be read or written.
#[derive(Debug)]
pub enum DictionaryError {
    /// The text is not JSON, or not a JSON object.
    Parse(serde_json::Error),
    /// The updated dictionary could not be written as JSON text.
    Serialize(serde_json::Error),
}

/// The test that picks the keys that `entries` lacks.
pub open spec fn absent_from(entries: Seq<Entry>) -> spec_fn(Seq<char>) -> bool {
    |key: Seq<char>| !has_key(entries, key)
}

/// Those of the `wanted` keys that `entries` lacks, in the order of `wanted`.
pub open spec fn missing(entries: Seq<Entry>, wanted: Seq<Seq<char>>) -> Seq<Seq<char>> {
    wanted.filter(absent_from(entries))
}

/// The entry that a newly added key gets.
pub open spec fn placeholder(key: Seq<char>) -> Entry {
    (key, json_string(PLACEHOLDER@))
}

/// The entries that these newly added keys get.
pub open spec fn placeholders(keys: Seq<Seq<char>>) -> Seq<Entry> {
    keys.map_values(|key: Seq<char>| placeholder(key))
}

/// The dictionary after reconciliation: the entries that it had, unchanged and
/// in their order, and after them a placeholder for each wanted key that it
/// lacked.
pub open spec fn reconciled(entries: Seq<Entry>, wanted: Seq<Seq<char>>) -> Seq<Entry> {
    entries + placeholders(missing(entries, wanted))
}

/// A translation dictionary: an ordered mapping from keys to JSON values.
#[derive(Debug)]
pub struct Dictionary {
    map: IndexMap<String, Value>,
}

impl View for Dictionary {
    type V = Seq<Entry>;

    /// The entries in their order, each key with the compact JSON text of its
    /// value.
    closed spec fn view(&self) -> Seq<Entry> {
        map_entries(self.map)
    }
}

impl Dictionary {
    /// Reads a dictionary from the text of a JSON file.
    pub fn parse(text: &str) -> (r: Result<Dictionary, DictionaryError>)
        ensures
            match parsed_object(text@) {
                Some(entries) => r matches Ok(dictionary) && dictionary@ == entries,
                None => r matches Err(DictionaryError::Parse(_)),
            },
    {
        match parse_object(text) {
            Ok(map) => Ok(Dictionary { map }),
            Err(error) => Err(DictionaryError::Parse(error)),
        }
    }

    /// Whether the dictionary has an entry for `key`.
    pub fn contains_key(&self, key: &str) -> (r: bool)
        ensures
            r == has_key(self@, key@),
    {
        map_contains_key(&self.map, key)
    }

    /// Appends a placeholder entry for each of `keys` that the dictionary
    /// lacks, in the order of `keys`, and returns the keys that it added.
    pub fn add_missing(&mut self, keys: &KeySet) -> (added: Vec<String>)
        ensures
            views(added@) == missing(old(self)@, keys.ordered()),
            final(self)@ == reconciled(old(self)@, keys.ordered()),
            final(self)@.take(old(self)@.len() as int) == old(self)@,
            missing(final(self)@, keys.ordered()) == Seq::<Seq<char>>::empty(),
    {
        let wanted = keys.keys();
        let ghost before = self@;
        let mut added: Vec<String> = Vec::new();
        let mut i: usize = 0;
        proof {
            reveal(Seq::filter);
            assert(views(wanted@).take(0) =~= Seq::<Seq<char>>::empty());
            assert(views(added@) =~= missing(before, views(wanted@).take(0)));
            assert(self@ =~= reconciled(before, views(wanted@).take(0)));
        }
        while i < wanted.len()
            invariant
                0 <= i <= wanted.len(),
                strictly_sorted(views(wanted@)),
                views(added@) == missing(before, views(wanted@).take(i as int)),
                self@ == reconciled(before, views(wanted@).take(i as int)),
            decreases wanted.len() - i,
        {
            let key = &wanted[i];
            proof {
                let seen = views(wanted@).take(i as int);
                assert(views(wanted@).take(i + 1) =~= seen.push(key@));
                seen.lemma_filter_push(key@, absent_from(before));
                lemma_fresh_key(before, views(wanted@), i as int);
            }
            if !map_contains_key(&self.map, key.as_str()) {
                proof {
                    let found = missing(before, views(wanted@).take(i as int));
                    assert(views(added@.push(*key)) =~= views(added@).push(key@));
                    assert(placeholders(found.push(key@)) =~= placeholders(found).push(
                        placeholder(key@),
                    ));
                    assert(before + placeholders(found).push(placeholder(key@)) =~= (before
                        + placeholders(found)).push(placeholder(key@)));
                }
                map_insert_string(&mut self.map, key.clone(), String::from_str(PLACEHOLDER));
                added.push(key.clone());
            }
            i += 1;
        }
        proof {
            assert(views(wanted@).take(i as int) =~= views(wanted@));
            lemma_entries_kept(before, keys.ordered());
            lemma_reconcile_idempotent(before, keys.ordered());
        }
        added
    }

    /// The dictionary as pretty-printed JSON text.
    pub fn to_pretty(&self) -> (r: Result<String, DictionaryError>)
        ensures
            match pretty_object(self@) {
                Some(text) => r matches Ok(written) && written@ == text,
                None => r matches Err(DictionaryError::Serialize(_)),
            },
    {
        match pretty_text(&self.map) {
            Ok(text) => Ok(text),
            Err(error) => Err(DictionaryError::Serialize(error)),
        }
    }
}

/// The exit status of a run that found every key in the dictionary.
pub const STATUS_COMPLETE: u8 = 0;

/// The exit status of a run that added keys to the dictionary.
pub const STATUS_ADDED: u8 = 1;

/// The exit status of a run that failed: it differs from the other two, so
/// that a failure is not taken for missing translations.
pub const STATUS_FAILED: u8 = 2;

/// What a reconciliation did.
#[derive(Debug)]
pub struct Reconciliation {
    /// The keys that were added, in the order in which they were appended.
    pub added: Vec<String>,
    /// The new text of the dictionary file. `None` where nothing was added:
    /// the file is then left as it is.
    pub rewritten: Option<String>,
}

impl Reconciliation {
    /// The exit status that reports this outcome: `STATUS_ADDED` where keys
    /// were added, so that a commit or a build stops until somebody has seen
    /// the placeholders, and `STATUS_COMPLETE` where the dictionary lacked
    /// nothing.
    pub fn exit_status(&self) -> (status: u8)
        ensures
            status == if self.added@.len() > 0 {
                STATUS_ADDED
            } else {
                STATUS_COMPLETE
            },
            status != STATUS_FAILED,
    {
        if self.added.len() > 0 {
            STATUS_ADDED
        } else {
            STATUS_COMPLETE
        }
    }
}

/// Reconciles the dictionary file whose text is `text` with the keys in use.
///
/// Where the dictionary lacks none of `keys`, nothing is added and no new
/// text is made. Otherwise the result names the keys that were added and
/// holds the pretty-printed text of the grown dictionary.
pub fn reconcile(keys: &KeySet, text: &str) -> (r: Result<Reconciliation, DictionaryError>)
    ensures
        match parsed_object(text@) {
            None => r matches Err(DictionaryError::Parse(_)),
            Some(entries) => if missing(entries, keys.ordered()).len() == 0 {
                r matches Ok(done) && done.added@.len() == 0 && done.rewritten is None
            } else {
                match pretty_object(reconciled(entries, keys.ordered())) {
                    Some(grown) => {
                        &&& r matches Ok(done)
                        &&& views(done.added@) == missing(entries, keys.ordered())
                        &&& done.rewritten matches Some(written)
                        &&& written@ == grown
                    },
                    None => r matches Err(DictionaryError::Serialize(_)),
                }
            },
        },
{
    let mut dictionary = match Dictionary::parse(text) {
        Ok(dictionary) => dictionary,
        Err(error) => {
            return Err(error);
        },
    };
    let added = dictionary.add_missing(keys);
    if added.len() == 0 {
        return Ok(Reconciliation { added, rewritten: None });
    }
    match dictionary.to_pretty() {
        Ok(written) => Ok(Reconciliation { added, rewritten: Some(written) }),
        Err(error) => Err(error),
    }
}

/// Reconciliation keeps every entry that the dictionary had, with its value
/// and at its place.
pub proof fn lemma_entries_kept(entries: Seq<Entry>, wanted: Seq<Seq<char>>)
    ensures
        reconciled(entries, wanted).len() >= entries.len(),
        reconciled(entries, wanted).take(entries.len() as int) == entries,
        forall|i: int| 0 <= i < entries.len() ==> reconciled(entries, wanted)[i] == entries[i],
{
    assert(reconciled(entries, wanted).take(entries.len() as int) =~= entries);
}

/// A reconciled dictionary has an entry for every wanted key.
pub proof fn lemma_reconciled_complete(entries: Seq<Entry>, wanted: Seq<Seq<char>>, i: int)
    requires
        0 <= i < wanted.len(),
    ensures
        has_key(reconciled(entries, wanted), wanted[i]),
{
    let key = wanted[i];
    let now = reconciled(entries, wanted);
    let found = missing(entries, wanted);
    if has_key(entries, key) {
        let at = choose|at: int| 0 <= at < entries.len() && (#[trigger] entries[at]).0 == key;
        assert(now[at].0 == key);
    } else {
        assert(absent_from(entries)(wanted[i]));
        wanted.lemma_filter_contains(absent_from(entries), i);
        let at = choose|at: int| 0 <= at < found.len() && found[at] == key;
        assert(now[entries.len() + at] == placeholders(found)[at]);
        assert(now[entries.len() + at].0 == key);
    }
}

/// Reconciliation is idempotent: a dictionary that was reconciled with some
/// keys lacks none of them, so that reconciling it again with the same keys
/// adds nothing and leaves it as it is.
pub proof fn lemma_reconcile_idempotent(entries: Seq<Entry>, wanted: Seq<Seq<char>>)
    ensures
        missing(reconciled(entries, wanted), wanted) == Seq::<Seq<char>>::empty(),
        reconciled(reconciled(entries, wanted), wanted) == reconciled(entries, wanted),
{
    let once = reconciled(entries, wanted);
    let test = absent_from(once);
    assert forall|i: int| 0 <= i < wanted.len() implies !test(#[trigger] wanted[i]) by {
        lemma_reconciled_complete(entries, wanted, i);
    }
    assert(wanted.all(|key: Seq<char>| !test(key)));
    wanted.lemma_all_neg_filter_empty(test);
    assert(missing(once, wanted) =~= Seq::<Seq<char>>::empty());
    assert(placeholders(missing(once, wanted)) =~= Seq::<Entry>::empty());
    assert(reconciled(once, wanted) =~= once);
}

/// Where the dictionary lacks none of the wanted keys, reconciliation leaves
/// it as it is.
pub proof fn lemma_nothing_missing(entries: Seq<Entry>, wanted: Seq<Seq<char>>)
    requires
        missing(entries, wanted).len() == 0,
    ensures
        reconciled(entries, wanted) == entries,
{
    assert(placeholders(missing(entries, wanted)) =~= Seq::<Entry>::empty());
    assert(reconciled(entries, wanted) =~= entries);
}

/// While the keys before `wanted[i]` are reconciled, the dictionary holds
/// `wanted[i]` exactly if it held it at the start: no placeholder added so far
/// is for that key, since the wanted keys are distinct.
proof fn lemma_fresh_key(entries: Seq<Entry>, wanted: Seq<Seq<char>>, i: int)
    requires
        strictly_sorted(wanted),
        0 <= i < wanted.len(),
    ensures
        has_key(reconciled(entries, wanted.take(i)), wanted[i]) == has_key(entries, wanted[i]),
{
    let key = wanted[i];
    let seen = wanted.take(i);
    let now = reconciled(entries, seen);
    let found = missing(entries, seen);
    lemma_sorted_distinct(wanted);
    seen.lemma_filter_len(absent_from(entries));
    if has_key(entries, key) {
        let at = choose|at: int| 0 <= at < entries.len() && (#[trigger] entries[at]).0 == key;
        assert(now[at].0 == key);
    }
    if has_key(now, key) {
        let at = choose|at: int| 0 <= at < now.len() && (#[trigger] now[at]).0 == key;
        if at >= entries.len() {
            let k = at - entries.len();
            assert(now[at] == placeholders(found)[k]);
            assert(found[k] == key);
            assert(found.contains(key));
            seen.lemma_filter_contains_rev(absent_from(entries), key);
            let p = choose|p: int| 0 <= p < seen.len() && seen[p] == key;
            assert(wanted[p] == wanted[i]);
        } else {
            assert(entries[at].0 == key);
        }
    }
}

} // verus!
