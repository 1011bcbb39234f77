//! Parsed HOCON values.

use vstd::prelude::*;

use crate::text::same_text;

verus! {

/// A parsed HOCON value.
///
/// Object entries keep their insertion order and may contain duplicate keys;
/// [`Value::get`] returns the last occurrence, matching HOCON's rule that a
/// later assignment overrides an earlier one. A floating-point number is kept
/// as the literal text it was written with, which is a valid `f64` literal.
#[derive(Debug, PartialEq)]
pub enum Value {
    Null,
    Bool(bool),
    Integer(i64),
    Float(String),
    String(String),
    Array(Vec<Value>),
    Object(Vec<(String, Value)>),
}

/// The content of a [`Value`].
pub enum ValueView {
    Null,
    Bool(bool),
    Integer(int),
    Float(Seq<char>),
    Str(Seq<char>),
    Array(Seq<ValueView>),
    Object(Seq<(Seq<char>, ValueView)>),
}

impl View for Value {
    type V = ValueView;

    open spec fn view(&self) -> ValueView
        decreases self, 1nat,
    {
        match self {
            Value::Null => ValueView::Null,
            Value::Bool(b) => ValueView::Bool(*b),
            Value::Integer(i) => ValueView::Integer(*i as int),
            Value::Float(text) => ValueView::Float(text@),
            Value::String(text) => ValueView::Str(text@),
            Value::Array(items) => ValueView::Array(items_view(items@)),
            Value::Object(entries) => ValueView::Object(entries_view(entries@)),
        }
    }
}

/// The contents of array items.
pub open spec fn items_view(items: Seq<Value>) -> Seq<ValueView>
    decreases items, 0nat,
{
    if items.len() == 0 {
        Seq::empty()
    } else {
        seq![items[0].view()] + items_view(items.subrange(1, items.len() as int))
    }
}

/// The contents of object entries: each key's text with its value's content.
pub open spec fn entries_view(entries: Seq<(String, Value)>) -> Seq<(Seq<char>, ValueView)>
    decreases entries, 0nat,
{
    if entries.len() == 0 {
        Seq::empty()
    } else {
        seq![(entries[0].0@, entries[0].1.view())] + entries_view(
            entries.subrange(1, entries.len() as int),
        )
    }
}

/// The value of the last entry with the given key.
pub open spec fn last_entry(entries: Seq<(Seq<char>, ValueView)>, key: Seq<char>) -> Option<
    ValueView,
>
    decreases entries.len(),
{
    if entries.len() == 0 {
        None
    } else if entries.last().0 == key {
        Some(entries.last().1)
    } else {
        last_entry(entries.drop_last(), key)
    }
}

/// The contents of array items, item by item.
pub proof fn lemma_items_view(items: Seq<Value>)
    ensures
        items_view(items).len() == items.len(),
        forall|k: int| 0 <= k < items.len() ==> #[trigger] items_view(items)[k] == items[k].view(),
    decreases items.len(),
{
    if items.len() > 0 {
        let rest = items.subrange(1, items.len() as int);
        lemma_items_view(rest);
        assert(items_view(items) == seq![items[0].view()] + items_view(rest));
        assert forall|k: int| 0 <= k < items.len() implies #[trigger] items_view(items)[k]
            == items[k].view() by {
            if k > 0 {
                assert(rest[k - 1] == items[k]);
            }
        }
    }
}

/// The contents of object entries, entry by entry.
pub proof fn lemma_entries_view(entries: Seq<(String, Value)>)
    ensures
        entries_view(entries).len() == entries.len(),
        forall|k: int|
            0 <= k < entries.len() ==> #[trigger] entries_view(entries)[k] == (
                entries[k].0@,
                entries[k].1.view(),
            ),
    decreases entries.len(),
{
    if entries.len() > 0 {
        let rest = entries.subrange(1, entries.len() as int);
        lemma_entries_view(rest);
        assert(entries_view(entries) == seq![(entries[0].0@, entries[0].1.view())] + entries_view(
            rest,
        ));
        assert forall|k: int| 0 <= k < entries.len() implies #[trigger] entries_view(entries)[k]
            == (entries[k].0@, entries[k].1.view()) by {
            if k > 0 {
                assert(rest[k - 1] == entries[k]);
            }
        }
    }
}

/// Adding an item adds its content.
pub proof fn lemma_items_view_push(items: Seq<Value>, item: Value)
    ensures
        items_view(items.push(item)) == items_view(items).push(item.view()),
{
    lemma_items_view(items);
    lemma_items_view(items.push(item));
    assert(items_view(items.push(item)) =~= items_view(items).push(item.view()));
}

/// Adding an entry adds its content.
pub proof fn lemma_entries_view_push(entries: Seq<(String, Value)>, entry: (String, Value))
    ensures
        entries_view(entries.push(entry)) == entries_view(entries).push((entry.0@, entry.1.view())),
{
    lemma_entries_view(entries);
    lemma_entries_view(entries.push(entry));
    assert(entries_view(entries.push(entry)) =~= entries_view(entries).push(
        (entry.0@, entry.1.view()),
    ));
}

impl ValueView {
    /// The value of the direct child named `key`: for an object, the last
    /// entry with that key (a later assignment overrides an earlier one); for
    /// any other value, nothing.
    pub open spec fn child(self, key: Seq<char>) -> Option<ValueView> {
        match self {
            ValueView::Object(entries) => last_entry(entries, key),
            _ => None,
        }
    }
}

/// A later assignment overrides an earlier one: after an entry for `key`,
/// `key` gives that entry's value and every other key gives what it gave
/// before.
pub proof fn lemma_later_entry_wins(
    entries: Seq<(Seq<char>, ValueView)>,
    key: Seq<char>,
    value: ValueView,
    other: Seq<char>,
)
    requires
        other != key,
    ensures
        last_entry(entries.push((key, value)), key) == Some(value),
        last_entry(entries.push((key, value)), other) == last_entry(entries, other),
{
    assert(entries.push((key, value)).drop_last() =~= entries);
}

impl Value {
    /// Looks up a direct child by key, returning the last match (override
    /// wins).
    pub fn get(&self, key: &str) -> (child: Option<&Value>)
        ensures
            match child {
                Some(v) => self@.child(key@) == Some(v@),
                None => self@.child(key@) is None,
            },
    {
        match self {
            Value::Object(entries) => {
                let ghost view = entries_view(entries@);
                proof {
                    lemma_entries_view(entries@);
                }
                assert(view.take(view.len() as int) =~= view);
                assert(self@ == ValueView::Object(view));
                let mut i = entries.len();
                while i > 0
                    invariant
                        i <= entries@.len(),
                        view.len() == entries@.len(),
                        forall|k: int| 0 <= k < entries@.len() ==> #[trigger] view[k] == (entries@[k].0@, entries@[k].1.view()),
                        last_entry(view, key@) == last_entry(view.take(i as int), key@),
                        self@ == ValueView::Object(view),
                    decreases i,
                {
                    let ghost prefix = view.take(i as int);
                    assert(prefix.drop_last() =~= view.take(i - 1));
                    assert(prefix.last() == view[i - 1]);
                    if same_text(entries[i - 1].0.as_str(), key) {
                        let found = &entries[i - 1].1;
                        assert(last_entry(prefix, key@) == Some(entries@[i - 1].1.view()));
                        assert(found@ == entries@[i - 1].1.view());
                        assert(self@.child(key@) == Some(found@));
                        return Some(found);
                    }
                    i -= 1;
                }
                None
            },
            _ => None,
        }
    }
}

} // verus!
