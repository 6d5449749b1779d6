//! JSON values, and how a settings file takes over what the file that it
//! extends holds.

use vstd::prelude::*;
use crate::text::same_text;

verus! {

/// A JSON value. A number is kept as its text.
#[derive(Debug, PartialEq, Eq)]
pub enum JsonValue {
    Null,
    Bool(bool),
    Number(String),
    Text(String),
    List(Vec<JsonValue>),
    Object(Vec<(String, JsonValue)>),
}

/// The mathematical value of a [`JsonValue`].
pub enum JsonView {
    Null,
    Bool(bool),
    Number(Seq<char>),
    Text(Seq<char>),
    List(Seq<JsonView>),
    Object(Seq<(Seq<char>, JsonView)>),
}

/// The mathematical value of a JSON value.
pub open spec fn value_of(value: JsonValue) -> JsonView
    decreases value,
{
    match value {
        JsonValue::Null => JsonView::Null,
        JsonValue::Bool(b) => JsonView::Bool(b),
        JsonValue::Number(n) => JsonView::Number(n@),
        JsonValue::Text(t) => JsonView::Text(t@),
        JsonValue::List(items) => JsonView::List(
            Seq::new(
                items.len() as nat,
                |i: int|
                    if 0 <= i < items.len() {
                        value_of(items[i])
                    } else {
                        JsonView::Null
                    },
            ),
        ),
        JsonValue::Object(entries) => JsonView::Object(
            Seq::new(
                entries.len() as nat,
                |i: int|
                    if 0 <= i < entries.len() {
                        (entries[i].0@, value_of(entries[i].1))
                    } else {
                        (Seq::empty(), JsonView::Null)
                    },
            ),
        ),
    }
}

impl View for JsonValue {
    type V = JsonView;

    open spec fn view(&self) -> JsonView {
        value_of(*self)
    }
}

impl DeepView for JsonValue {
    type V = JsonView;

    open spec fn deep_view(&self) -> JsonView {
        self@
    }
}

/// The entries of an object, each with the value of its key and of what it
/// holds.
pub open spec fn entries_view(entries: Seq<(String, JsonValue)>) -> Seq<(Seq<char>, JsonView)> {
    Seq::new(entries.len(), |i: int| (entries[i].0@, entries[i].1@))
}

/// The index of the first entry from `from` on with the given key.
pub open spec fn key_from(entries: Seq<(Seq<char>, JsonView)>, key: Seq<char>, from: int) -> Option<
    int,
>
    decreases entries.len() - from,
{
    if from < 0 || from >= entries.len() {
        None
    } else if entries[from].0 == key {
        Some(from)
    } else {
        key_from(entries, key, from + 1)
    }
}

/// The index of the entry with the given key.
pub open spec fn key_index(entries: Seq<(Seq<char>, JsonView)>, key: Seq<char>) -> Option<int> {
    key_from(entries, key, 0)
}

/// The value `a` after it has taken over from `b` what it lacks: where both
/// are objects, each entry of `b` is merged into the entry of `a` with the
/// same key, or added where `a` has none; else `a` stays, unless it is
/// null, where `b` takes its place.
pub open spec fn merged(a: JsonView, b: JsonView) -> JsonView
    decreases b, 0int,
{
    match (a, b) {
        (JsonView::Object(mine), JsonView::Object(theirs)) => JsonView::Object(
            merged_entries(mine, theirs, theirs.len() as int),
        ),
        _ => if a is Null {
            b
        } else {
            a
        },
    }
}

/// The entries `mine` after the first `upto` of `theirs` are merged into
/// them.
pub open spec fn merged_entries(
    mine: Seq<(Seq<char>, JsonView)>,
    theirs: Seq<(Seq<char>, JsonView)>,
    upto: int,
) -> Seq<(Seq<char>, JsonView)>
    decreases theirs, upto,
{
    if upto <= 0 || upto > theirs.len() {
        mine
    } else {
        let sofar = merged_entries(mine, theirs, upto - 1);
        let key = theirs[upto - 1].0;
        match key_index(sofar, key) {
            Some(i) => if 0 <= i < sofar.len() {
                sofar.update(i, (sofar[i].0, merged(sofar[i].1, theirs[upto - 1].1)))
            } else {
                sofar
            },
            None => sofar.push(theirs[upto - 1]),
        }
    }
}

fn find_key(entries: &Vec<(String, JsonValue)>, key: &String) -> (out: Option<usize>)
    ensures
        out is Some <==> key_index(entries_view(entries@), key@) is Some,
        out matches Some(i) ==> key_index(entries_view(entries@), key@) == Some(i as int) && i
            < entries.len(),
{
    let ghost all = entries_view(entries@);
    let mut i: usize = 0;
    while i < entries.len()
        invariant
            i <= entries.len(),
            all == entries_view(entries@),
            key_index(all, key@) == key_from(all, key@, i as int),
        decreases entries.len() - i,
    {
        if same_text(&entries[i].0, key) {
            return Some(i);
        }
        i += 1;
    }
    None
}

impl JsonValue {
    /// The value that takes over from `other` what it lacks.
    pub fn merged_with(self, other: JsonValue) -> (out: JsonValue)
        ensures
            out@ == merged(self@, other@),
        decreases other,
    {
        let ghost whole = other;
        let ghost own = self;
        match (self, other) {
            (JsonValue::Object(mut mine), JsonValue::Object(theirs)) => {
                let ghost start = entries_view(mine@);
                let ghost given = entries_view(theirs@);
                assert(own@->Object_0 =~= start);
                assert(whole@->Object_0 =~= given);
                let mut rest = theirs;
                let mut done: usize = 0;
                let total = rest.len();
                assert(rest@.skip(0) =~= rest@);
                while rest.len() > 0
                    invariant
                        done + rest.len() == total,
                        total == theirs.len(),
                        given == entries_view(theirs@),
                        rest@ == theirs@.skip(done as int),
                        whole == JsonValue::Object(theirs),
                        whole == other,
                        entries_view(mine@) == merged_entries(start, given, done as int),
                    decreases rest.len(),
                {
                    let ghost sofar = entries_view(mine@);
                    let entry = rest.remove(0);
                    assert(entry == theirs@[done as int]);
                    assert(rest@ =~= theirs@.skip(done as int + 1));
                    assert(given[done as int] == (entry.0@, entry.1@));
                    match find_key(&mine, &entry.0) {
                        Some(i) => {
                            let ghost before = mine@;
                            let old = mine.remove(i);
                            assert(old == before[i as int]);
                            let key = old.0;
                            proof {
                                assert(whole->Object_0[done as int].1 == entry.1);
                                assert(decreases_to!(whole => whole->Object_0[done as int].1));
                            }
                            let value = old.1.merged_with(entry.1);
                            mine.insert(i, (key, value));
                            assert(entries_view(mine@) =~= sofar.update(
                                i as int,
                                (sofar[i as int].0, merged(sofar[i as int].1, given[done as int].1)),
                            ));
                        },
                        None => {
                            mine.push(entry);
                            assert(entries_view(mine@) =~= sofar.push(given[done as int]));
                        },
                    }
                    done += 1;
                }
                let out = JsonValue::Object(mine);
                assert(out@ =~= JsonView::Object(entries_view(mine@))) by {
                    assert(out@->Object_0 =~= entries_view(mine@));
                }
                out
            },
            (JsonValue::Null, b) => b,
            (a, _) => a,
        }
    }

    /// Takes over from `other` what this value lacks.
    pub fn merge(&mut self, other: JsonValue)
        ensures
            final(self)@ == merged(old(self)@, other@),
    {
        let mut mine = JsonValue::Null;
        core::mem::swap(self, &mut mine);
        *self = mine.merged_with(other);
    }

    /// The value that an object holds under `key`, if this is an object
    /// that has the key.
    pub fn get(&self, key: &str) -> (out: Option<&JsonValue>)
        ensures
            match self@ {
                JsonView::Object(entries) => match key_index(entries, key@) {
                    Some(i) => out matches Some(v) && v@ == entries[i].1,
                    None => out is None,
                },
                _ => out is None,
            },
    {
        match self {
            JsonValue::Object(entries) => {
                assert(self@->Object_0 =~= entries_view(entries@));
                let wanted = key.to_owned();
                match find_key(entries, &wanted) {
                    Some(i) => Some(&entries[i].1),
                    None => None,
                }
            },
            _ => None,
        }
    }

    /// The path of the file that a settings file extends: the text under
    /// the key `extends`, where the file has one and it is asked to
    /// extend.
    pub fn extends_path(&self, extend: bool) -> (out: Option<String>)
        ensures
            out.deep_view() == extended(self@, extend),
    {
        if !extend {
            return None;
        }
        match self.get("extends") {
            Some(JsonValue::Text(path)) => Some(path.clone()),
            _ => None,
        }
    }
}

/// The path of the file that the settings `value` extend, where they are
/// asked to extend and hold a text under the key `extends`.
pub open spec fn extended(value: JsonView, extend: bool) -> Option<Seq<char>> {
    if !extend {
        None
    } else {
        match value {
            JsonView::Object(entries) => match key_index(entries, "extends"@) {
                Some(i) => match entries[i].1 {
                    JsonView::Text(path) => Some(path),
                    _ => None,
                },
                None => None,
            },
            _ => None,
        }
    }
}

} // verus!
