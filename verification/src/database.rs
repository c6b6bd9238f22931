//! Entries of the text database: one line holds the name of a field, the
//! two characters `": "` and the field's value. A value may itself be a
//! list of items with commas between them.

use vstd::prelude::*;
use crate::text::{chars_of, split, split_chars, string_of, string_of_range, views_of};

verus! {

/// One entry of the database: the name of a field and its value.
#[derive(Debug, Clone, PartialEq, Eq)]
pub struct DatabaseEntry<T> {
    pub name: String,
    pub value: T,
}

/// Whether the delimiter between name and value, a colon and a space,
/// stands at position `i` of `s`.
pub open spec fn delim_at(s: Seq<char>, i: int) -> bool {
    0 <= i && i + 1 < s.len() && s[i] == ':' && s[i + 1] == ' '
}

/// Whether `s` holds the delimiter anywhere.
pub open spec fn has_delim(s: Seq<char>) -> bool {
    exists|i: int| delim_at(s, i)
}

/// Whether the leftmost delimiter of `s` stands at position `i`.
pub open spec fn first_delim(s: Seq<char>, i: int) -> bool {
    delim_at(s, i) && forall|j: int| 0 <= j < i ==> !delim_at(s, j)
}

/// The position of the leftmost delimiter of a line that has one.
pub open spec fn delim_index(s: Seq<char>) -> int {
    choose|i: int| first_delim(s, i)
}

/// The name of the field in a line that has a delimiter: what stands
/// before the leftmost one.
pub open spec fn name_of(s: Seq<char>) -> Seq<char> {
    s.take(delim_index(s))
}

/// The value in a line that has a delimiter: what stands behind the
/// leftmost one, further delimiters included.
pub open spec fn value_of(s: Seq<char>) -> Seq<char> {
    s.skip(delim_index(s) + 2)
}

/// The items of the list in a line that has a delimiter: the pieces of its
/// value between the commas.
pub open spec fn items_of(s: Seq<char>) -> Seq<Seq<char>> {
    split(value_of(s), ',')
}

/// A line has only one leftmost delimiter.
pub proof fn lemma_first_delim_unique(s: Seq<char>, i: int)
    requires
        first_delim(s, i),
    ensures
        has_delim(s),
        delim_index(s) == i,
{
    let k = delim_index(s);
    assert(first_delim(s, k));
    if k < i {
        assert(!delim_at(s, k));
    }
    if i < k {
        assert(!delim_at(s, i));
    }
}

/// The line of an entry: the name, the delimiter and the value.
pub open spec fn entry_line(name: Seq<char>, value: Seq<char>) -> Seq<char> {
    name + seq![':', ' '] + value
}

/// The line of an entry whose name holds no colon splits into that name
/// and that value.
pub proof fn lemma_entry_line(name: Seq<char>, value: Seq<char>)
    requires
        !name.contains(':'),
    ensures
        has_delim(entry_line(name, value)),
        name_of(entry_line(name, value)) == name,
        value_of(entry_line(name, value)) == value,
{
    let s = entry_line(name, value);
    let i = name.len() as int;
    assert(s[i] == ':');
    assert(s[i + 1] == ' ');
    assert forall|j: int| 0 <= j < i implies !delim_at(s, j) by {
        assert(s[j] == name[j]);
        assert(name.contains(name[j]));
    }
    lemma_first_delim_unique(s, i);
    assert(s.take(i) =~= name);
    assert(s.skip(i + 2) =~= value);
}

/// Finds the leftmost delimiter of a line.
fn find_delim(s: &Vec<char>) -> (r: Option<usize>)
    ensures
        r is Some <==> has_delim(s@),
        r is Some ==> r->0 == delim_index(s@) && r->0 + 2 <= s.len(),
{
    let mut i: usize = 0;
    while i < s.len()
        invariant
            i <= s.len(),
            forall|j: int| 0 <= j < i ==> !delim_at(s@, j),
        decreases s.len() - i,
    {
        if s[i] == ':' && i + 1 < s.len() && s[i + 1] == ' ' {
            proof {
                lemma_first_delim_unique(s@, i as int);
            }
            return Some(i);
        }
        i += 1;
    }
    assert forall|j: int| !delim_at(s@, j) by {
        if 0 <= j < i {
        }
    }
    None
}

/// Splits a line into the name and the value of its entry, if it has a
/// delimiter.
pub fn split_line(line: &str) -> (r: Option<(String, String)>)
    ensures
        match r {
            Some((name, value)) => has_delim(line@) && name@ == name_of(line@) && value@
                == value_of(line@),
            None => !has_delim(line@),
        },
{
    let chars = chars_of(line);
    match find_delim(&chars) {
        None => None,
        Some(i) => {
            let name = string_of_range(&chars, 0, i);
            let value = string_of_range(&chars, i + 2, chars.len());
            Some((name, value))
        },
    }
}

impl<T> DatabaseEntry<T> {
    /// An entry with the given name and value.
    pub fn new(name: String, value: T) -> (entry: Self)
        ensures
            entry.name == name,
            entry.value == value,
    {
        DatabaseEntry { name, value }
    }

    /// Reads an entry from a line. The value is what `string_to_t` makes
    /// of the text behind the delimiter. A line without a delimiter holds
    /// no entry.
    pub fn from_line<F: Fn(&str) -> T>(line: &str, string_to_t: F) -> (entry: Option<Self>)
        requires
            forall|v: &str| v@ == value_of(line@) ==> call_requires(string_to_t, (v,)),
        ensures
            entry is Some <==> has_delim(line@),
            entry is Some ==> entry->0.name@ == name_of(line@) && exists|v: &str|
                v@ == value_of(line@) && #[trigger] call_ensures(
                    string_to_t,
                    (v,),
                    entry->0.value,
                ),
    {
        match split_line(line) {
            None => None,
            Some((name, text)) => {
                let v: &str = text.as_str();
                let value = string_to_t(v);
                assert(v@ == value_of(line@) && call_ensures(string_to_t, (v,), value));
                Some(DatabaseEntry::new(name, value))
            },
        }
    }

    /// Reads an entry from a line whose value may fail to parse. A line
    /// without a delimiter holds no entry; the error of `string_to_t` is
    /// handed on.
    pub fn try_from_line<E, F: Fn(&str) -> Result<T, E>>(line: &str, string_to_t: F) -> (entry:
        Result<Option<Self>, E>)
        requires
            forall|v: &str| v@ == value_of(line@) ==> call_requires(string_to_t, (v,)),
        ensures
            match entry {
                Ok(None) => !has_delim(line@),
                Ok(Some(read)) => has_delim(line@) && read.name@ == name_of(line@) && exists|
                    v: &str,
                |
                    v@ == value_of(line@) && #[trigger] call_ensures(
                        string_to_t,
                        (v,),
                        Ok::<T, E>(read.value),
                    ),
                Err(error) => has_delim(line@) && exists|v: &str|
                    v@ == value_of(line@) && #[trigger] call_ensures(
                        string_to_t,
                        (v,),
                        Err::<T, E>(error),
                    ),
            },
    {
        match split_line(line) {
            None => Ok(None),
            Some((name, text)) => {
                let v: &str = text.as_str();
                let parsed = string_to_t(v);
                assert(v@ == value_of(line@) && call_ensures(string_to_t, (v,), parsed));
                match parsed {
                    Ok(value) => Ok(Some(DatabaseEntry::new(name, value))),
                    Err(e) => {
                        let failed: Result<Option<Self>, E> = Err(e);
                        assert(parsed == Err::<T, E>(failed->Err_0));
                        failed
                    },
                }
            },
        }
    }
}

/// Whether `value` is what `f` made of the item at position `i` of the
/// list in `line`.
pub open spec fn item_read<V, F: Fn(&str) -> V>(line: Seq<char>, f: F, i: int, value: V) -> bool {
    exists|v: &str| v@ == items_of(line)[i] && #[trigger] call_ensures(f, (v,), value)
}

/// Whether `f` made an element of the item at position `i` of the list in
/// `line`, and did not refuse it.
pub open spec fn item_accepted<V, E, F: Fn(&str) -> Result<V, E>>(
    line: Seq<char>,
    f: F,
    i: int,
) -> bool {
    exists|value: V| #[trigger] item_read(line, f, i, Ok::<V, E>(value))
}

impl<V> DatabaseEntry<Vec<V>> {
    /// Reads an entry whose value is a list: the text behind the delimiter
    /// is cut at each comma, and `string_to_v` makes an element of each
    /// piece, in their order. A value without a comma is a list of one
    /// item, an empty value too. A line without a delimiter holds no entry.
    pub fn from_collection<F: Fn(&str) -> V>(line: &str, string_to_v: F) -> (entry: Option<Self>)
        requires
            forall|v: &str| call_requires(string_to_v, (v,)),
        ensures
            entry is Some <==> has_delim(line@),
            entry is Some ==> {
                &&& entry->0.name@ == name_of(line@)
                &&& entry->0.value@.len() == items_of(line@).len()
                &&& forall|i: int|
                    0 <= i < items_of(line@).len() ==> item_read(
                        line@,
                        string_to_v,
                        i,
                        #[trigger] entry->0.value@[i],
                    )
            },
    {
        match split_line(line) {
            None => None,
            Some((name, text)) => {
                let chars = chars_of(text.as_str());
                let pieces = split_chars(&chars, ',');
                let mut items: Vec<V> = Vec::new();
                let mut i: usize = 0;
                while i < pieces.len()
                    invariant
                        i <= pieces.len(),
                        views_of(pieces@) == items_of(line@),
                        items@.len() == i,
                        forall|v: &str| call_requires(string_to_v, (v,)),
                        forall|j: int|
                            0 <= j < i ==> item_read(line@, string_to_v, j, #[trigger] items@[j]),
                    decreases pieces.len() - i,
                {
                    let item = string_of(&pieces[i]);
                    let v: &str = item.as_str();
                    assert(v@ == views_of(pieces@)[i as int]);
                    let value = string_to_v(v);
                    assert(item_read(line@, string_to_v, i as int, value));
                    items.push(value);
                    i += 1;
                }
                Some(DatabaseEntry::new(name, items))
            },
        }
    }

    /// Reads an entry whose value is a list of items that may fail to
    /// parse. The first item that `string_to_v` refuses ends the reading,
    /// and its error is handed on.
    pub fn try_from_collection<E, F: Fn(&str) -> Result<V, E>>(line: &str, string_to_v: F) -> (entry:
        Result<Option<Self>, E>)
        requires
            forall|v: &str| call_requires(string_to_v, (v,)),
        ensures
            match entry {
                Ok(None) => !has_delim(line@),
                Ok(Some(read)) => {
                    &&& has_delim(line@)
                    &&& read.name@ == name_of(line@)
                    &&& read.value@.len() == items_of(line@).len()
                    &&& forall|i: int|
                        0 <= i < items_of(line@).len() ==> item_read(
                            line@,
                            string_to_v,
                            i,
                            Ok::<V, E>(#[trigger] read.value@[i]),
                        )
                },
                Err(error) => has_delim(line@) && exists|i: int|
                    {
                        &&& 0 <= i < items_of(line@).len()
                        &&& #[trigger] item_read(line@, string_to_v, i, Err::<V, E>(error))
                        &&& forall|j: int|
                            0 <= j < i ==> #[trigger] item_accepted(line@, string_to_v, j)
                    },
            },
    {
        match split_line(line) {
            None => Ok(None),
            Some((name, text)) => {
                let chars = chars_of(text.as_str());
                let pieces = split_chars(&chars, ',');
                let mut items: Vec<V> = Vec::new();
                let mut i: usize = 0;
                while i < pieces.len()
                    invariant
                        i <= pieces.len(),
                        has_delim(line@),
                        views_of(pieces@) == items_of(line@),
                        items@.len() == i,
                        forall|v: &str| call_requires(string_to_v, (v,)),
                        forall|j: int|
                            0 <= j < i ==> item_read(
                                line@,
                                string_to_v,
                                j,
                                Ok::<V, E>(#[trigger] items@[j]),
                            ),
                    decreases pieces.len() - i,
                {
                    let item = string_of(&pieces[i]);
                    let v: &str = item.as_str();
                    assert(v@ == views_of(pieces@)[i as int]);
                    let parsed = string_to_v(v);
                    assert(item_read(line@, string_to_v, i as int, parsed));
                    match parsed {
                        Ok(value) => {
                            assert(parsed == Ok::<V, E>(value));
                            items.push(value);
                        },
                        Err(e) => {
                            let failed: Result<Option<Self>, E> = Err(e);
                            assert(parsed == Err::<V, E>(failed->Err_0));
                            assert forall|j: int| 0 <= j < i implies #[trigger] item_accepted(
                                line@,
                                string_to_v,
                                j,
                            ) by {
                                assert(item_read(line@, string_to_v, j, Ok::<V, E>(items@[j])));
                            }
                            return failed;
                        },
                    }
                    i += 1;
                }
                Ok(Some(DatabaseEntry::new(name, items)))
            },
        }
    }
}

} // verus!
