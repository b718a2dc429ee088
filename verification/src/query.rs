//! Query strings: `key=value` segments joined by `&`, read into a table
//! from each key to the values given for it.

use crate::text::{
    after_stop, before_stop, has_stop, lemma_first_stop, lemma_first_stop_is, same_text,
    split_once, AMPERSAND, EQUALS_SIGN,
};
use vstd::prelude::*;

verus! {

/// What a query string gives for one key: the one value of a key that
/// occurs once, or the values of a key that repeats, first seen first.
#[derive(Debug, PartialEq, Eq)]
pub enum Value<'buf> {
    Single(&'buf str),
    Multiple(Vec<&'buf str>),
}

/// A `Value` as text.
pub enum ValueView {
    Single(Seq<char>),
    Multiple(Seq<Seq<char>>),
}

/// The texts of a sequence of string slices.
pub open spec fn texts(slices: Seq<&str>) -> Seq<Seq<char>> {
    slices.map_values(|s: &str| s@)
}

impl<'buf> View for Value<'buf> {
    type V = ValueView;

    open spec fn view(&self) -> ValueView {
        match self {
            Value::Single(value) => ValueView::Single(value@),
            Value::Multiple(values) => ValueView::Multiple(texts(values@)),
        }
    }
}

/// The segments of a query string: the texts between its `&` characters.
/// There is always at least one, and a segment may be empty.
pub open spec fn segments(s: Seq<char>) -> Seq<Seq<char>>
    decreases s.len(),
{
    if has_stop(s, set!['&']) {
        seq![before_stop(s, set!['&'])] + segments(after_stop(s, set!['&']))
    } else {
        seq![s]
    }
}

/// The key of a segment: its text before the first `=`, or all of it.
pub open spec fn key_of(segment: Seq<char>) -> Seq<char> {
    before_stop(segment, set!['='])
}

/// The value of a segment: its text after the first `=`, or nothing.
pub open spec fn value_of(segment: Seq<char>) -> Seq<char> {
    if has_stop(segment, set!['=']) {
        after_stop(segment, set!['='])
    } else {
        Seq::empty()
    }
}

/// The values that `segments` give for `key`, in the order of the
/// segments.
pub open spec fn values_for(segments: Seq<Seq<char>>, key: Seq<char>) -> Seq<Seq<char>> {
    segments.filter(|segment: Seq<char>| key_of(segment) == key).map_values(
        |segment: Seq<char>| value_of(segment),
    )
}

/// One value stands alone; more are kept as a sequence.
pub open spec fn value_from(values: Seq<Seq<char>>) -> ValueView {
    if values.len() == 1 {
        ValueView::Single(values[0])
    } else {
        ValueView::Multiple(values)
    }
}

/// The table that `segments` make: each key that occurs, with its values.
pub open spec fn query_map(segments: Seq<Seq<char>>) -> Map<Seq<char>, ValueView> {
    Map::new(
        |key: Seq<char>| values_for(segments, key).len() > 0,
        |key: Seq<char>| value_from(values_for(segments, key)),
    )
}

/// The table that a query string stands for.
pub open spec fn parse_query(s: Seq<char>) -> Map<Seq<char>, ValueView> {
    query_map(segments(s))
}

/// What one more pair does to a table: a new key gets a single value, a
/// single value becomes a sequence of two, a sequence grows by one.
pub open spec fn with_pair(
    table: Map<Seq<char>, ValueView>,
    key: Seq<char>,
    value: Seq<char>,
) -> Map<Seq<char>, ValueView> {
    if !table.contains_key(key) {
        table.insert(key, ValueView::Single(value))
    } else {
        match table[key] {
            ValueView::Single(first) => table.insert(key, ValueView::Multiple(seq![first, value])),
            ValueView::Multiple(values) => table.insert(key, ValueView::Multiple(values.push(value))),
        }
    }
}

/// The values for a key after one more segment.
pub proof fn lemma_values_for_push(segments: Seq<Seq<char>>, segment: Seq<char>, key: Seq<char>)
    ensures
        values_for(segments.push(segment), key) == if key_of(segment) == key {
            values_for(segments, key).push(value_of(segment))
        } else {
            values_for(segments, key)
        },
{
    let pred = |segment: Seq<char>| key_of(segment) == key;
    segments.lemma_filter_push(segment, pred);
    if key_of(segment) == key {
        assert(values_for(segments.push(segment), key) =~= values_for(segments, key).push(
            value_of(segment),
        ));
    }
}

/// Reading the segments one by one, each as a pair added to the table so
/// far, makes the table of all of them.
pub proof fn lemma_query_map_push(segments: Seq<Seq<char>>, segment: Seq<char>)
    ensures
        query_map(segments.push(segment)) == with_pair(
            query_map(segments),
            key_of(segment),
            value_of(segment),
        ),
{
    let before = query_map(segments);
    let after = query_map(segments.push(segment));
    let expected = with_pair(before, key_of(segment), value_of(segment));
    assert forall|key: Seq<char>| #[trigger]
        after.dom().contains(key) == expected.dom().contains(key) && (after.dom().contains(key)
            ==> after[key] == expected[key]) by {
        lemma_values_for_push(segments, segment, key);
        if key_of(segment) == key {
            let values = values_for(segments, key);
            if values.len() == 1 {
                assert(values.push(value_of(segment)) =~= seq![values[0], value_of(segment)]);
            }
        }
    }
    assert(after =~= expected);
}

/// A key that occurs once has its one value alone. A key that occurs more
/// than once has all its values as a sequence, first seen first, and only
/// such a key has a sequence.
pub proof fn lemma_single_or_multiple(s: Seq<char>, key: Seq<char>)
    ensures
        values_for(segments(s), key).len() == 0 ==> !parse_query(s).contains_key(key),
        values_for(segments(s), key).len() == 1 ==> parse_query(s).contains_key(key)
            && parse_query(s)[key] == ValueView::Single(values_for(segments(s), key)[0]),
        values_for(segments(s), key).len() >= 2 ==> parse_query(s).contains_key(key)
            && parse_query(s)[key] == ValueView::Multiple(values_for(segments(s), key)),
        parse_query(s).contains_key(key) ==> (parse_query(s)[key] matches ValueView::Multiple(
            values,
        ) ==> values.len() >= 2),
{
}

/// A segment that holds a `=` is its key, the `=`, and its value, and the
/// key holds no `=`: the segment is split at its first `=` only. A segment
/// without `=` is its own key.
pub proof fn lemma_segment_parts(segment: Seq<char>)
    ensures
        !has_stop(key_of(segment), set!['=']),
        has_stop(segment, set!['=']) ==> segment == key_of(segment) + seq!['='] + value_of(segment),
        !has_stop(segment, set!['=']) ==> segment == key_of(segment) && value_of(segment).len() == 0,
{
    lemma_first_stop(segment, set!['=']);
    let key = key_of(segment);
    lemma_first_stop_is(key, set!['='], key.len() as int);
    if has_stop(segment, set!['=']) {
        assert(segment =~= key + seq!['='] + value_of(segment));
    } else {
        assert(segment =~= key);
    }
}

/// One key of a query string with what was given for it.
#[derive(Debug)]
struct Param<'buf> {
    key: &'buf str,
    value: Value<'buf>,
}

/// No two entries have the same key.
spec fn distinct_keys(params: Seq<Param>) -> bool {
    forall|i: int, j: int|
        0 <= i < j < params.len() ==> (#[trigger] params[i]).key@ != (#[trigger] params[j]).key@
}

/// Whether an entry has the key.
spec fn has_key(params: Seq<Param>, key: Seq<char>) -> bool {
    exists|i: int| 0 <= i < params.len() && (#[trigger] params[i]).key@ == key
}

/// The place of the entry with the key.
spec fn slot_of(params: Seq<Param>, key: Seq<char>) -> int {
    choose|i: int| 0 <= i < params.len() && (#[trigger] params[i]).key@ == key
}

/// The entries as a table.
spec fn table_of(params: Seq<Param>) -> Map<Seq<char>, ValueView> {
    Map::new(
        |key: Seq<char>| has_key(params, key),
        |key: Seq<char>| params[slot_of(params, key)].value@,
    )
}

/// With distinct keys, each entry is what the table has for its key.
proof fn lemma_table_entry(params: Seq<Param>, i: int)
    requires
        distinct_keys(params),
        0 <= i < params.len(),
    ensures
        table_of(params).contains_key(params[i].key@),
        table_of(params)[params[i].key@] == params[i].value@,
{
    assert(has_key(params, params[i].key@));
    assert(slot_of(params, params[i].key@) == i);
}

/// An entry with a new key puts its key and value into the table.
proof fn lemma_table_push(params: Seq<Param>, param: Param)
    requires
        distinct_keys(params),
        !has_key(params, param.key@),
    ensures
        distinct_keys(params.push(param)),
        table_of(params.push(param)) == table_of(params).insert(param.key@, param.value@),
{
    let after = params.push(param);
    assert forall|key: Seq<char>| #[trigger]
        table_of(after).dom().contains(key) == table_of(params).insert(
            param.key@,
            param.value@,
        ).dom().contains(key) by {
        if has_key(params, key) {
            assert(after[slot_of(params, key)].key@ == key);
        }
        if key == param.key@ {
            assert(after[params.len() as int].key@ == key);
        }
    }
    assert forall|key: Seq<char>| #[trigger] table_of(after).dom().contains(key) implies table_of(
        after,
    )[key] == table_of(params).insert(param.key@, param.value@)[key] by {
        let i = slot_of(after, key);
        lemma_table_entry(after, i);
        if i < params.len() {
            lemma_table_entry(params, i);
        }
    }
    assert(table_of(after) =~= table_of(params).insert(param.key@, param.value@));
}

/// A new value in one entry puts that value into the table for its key.
proof fn lemma_table_update(before: Seq<Param>, after: Seq<Param>, i: int)
    requires
        distinct_keys(before),
        0 <= i < before.len(),
        after.len() == before.len(),
        after[i].key == before[i].key,
        forall|j: int| 0 <= j < before.len() && j != i ==> after[j] == before[j],
    ensures
        distinct_keys(after),
        table_of(after) == table_of(before).insert(before[i].key@, after[i].value@),
{
    assert forall|j: int| 0 <= j < before.len() implies (#[trigger] after[j]).key@
        == before[j].key@ by {}
    assert forall|key: Seq<char>| #[trigger]
        table_of(after).dom().contains(key) == table_of(before).insert(
            before[i].key@,
            after[i].value@,
        ).dom().contains(key) by {
        if has_key(before, key) {
            assert(after[slot_of(before, key)].key@ == key);
        }
        if has_key(after, key) {
            assert(before[slot_of(after, key)].key@ == key);
        }
        lemma_table_entry(before, i);
    }
    assert forall|key: Seq<char>| #[trigger] table_of(after).dom().contains(key) implies table_of(
        after,
    )[key] == table_of(before).insert(before[i].key@, after[i].value@)[key] by {
        let j = slot_of(after, key);
        lemma_table_entry(after, j);
        lemma_table_entry(before, j);
    }
    assert(table_of(after) =~= table_of(before).insert(before[i].key@, after[i].value@));
}

/// The place of the entry with the key, if there is one.
fn find(params: &Vec<Param>, key: &str) -> (r: Option<usize>)
    ensures
        match r {
            Some(i) => i < params@.len() && params@[i as int].key@ == key@,
            None => !has_key(params@, key@),
        },
{
    let mut i: usize = 0;
    while i < params.len()
        invariant
            i <= params@.len(),
            forall|j: int| 0 <= j < i ==> (#[trigger] params@[j]).key@ != key@,
        decreases params@.len() - i,
    {
        if same_text(params[i].key, key) {
            return Some(i);
        }
        i += 1;
    }
    None
}

/// Adds the pair of one segment to the entries: a new key gets an entry of
/// its own, a key that is there already gets one more value.
fn record<'buf>(params: &mut Vec<Param<'buf>>, segment: &'buf str)
    requires
        distinct_keys(old(params)@),
    ensures
        distinct_keys(final(params)@),
        table_of(final(params)@) == with_pair(
            table_of(old(params)@),
            key_of(segment@),
            value_of(segment@),
        ),
{
    let (key, value) = match split_once(segment, EQUALS_SIGN) {
        Some((key, value)) => (key, value),
        None => (segment, ""),
    };
    proof {
        reveal_strlit("");
        lemma_first_stop(segment@, set!['=']);
        assert(key@ =~= key_of(segment@));
        assert(value@ =~= value_of(segment@));
    }
    match find(params, key) {
        None => {
            let param = Param { key, value: Value::Single(value) };
            proof {
                lemma_table_push(params@, param);
            }
            params.push(param);
        },
        Some(i) => {
            let slot = &mut params[i].value;
            match slot {
                Value::Single(first) => {
                    let first: &'buf str = *first;
                    *slot = Value::Multiple(vec![first, value]);
                    assert(texts(seq![first, value]) =~= seq![first@, value@]);
                },
                Value::Multiple(values) => {
                    let ghost earlier = values@;
                    values.push(value);
                    assert(texts(values@) =~= texts(earlier).push(value@));
                },
            }
            proof {
                lemma_table_entry(old(params)@, i as int);
                lemma_table_update(old(params)@, params@, i as int);
            }
        },
    }
}

/// The parameters of a request: a table from each key of the query string
/// to what was given for it. It borrows its text from the request.
#[derive(Debug)]
pub struct QueryString<'buf> {
    params: Vec<Param<'buf>>,
}

impl<'buf> View for QueryString<'buf> {
    type V = Map<Seq<char>, ValueView>;

    closed spec fn view(&self) -> Map<Seq<char>, ValueView> {
        table_of(self.params@)
    }
}

impl<'buf> QueryString<'buf> {
    #[verifier::type_invariant]
    spec fn keys_are_distinct(&self) -> bool {
        distinct_keys(self.params@)
    }

    /// Reads a query string: the text that follows the `?` of a request
    /// target.
    pub fn from(s: &'buf str) -> (r: QueryString<'buf>)
        ensures
            r@ == parse_query(s@),
    {
        let mut params: Vec<Param<'buf>> = Vec::new();
        let mut rest: &'buf str = s;
        let ghost mut done: Seq<Seq<char>> = Seq::empty();
        proof {
            assert(table_of(params@) =~= query_map(done)) by {
                reveal(Seq::filter);
            }
        }
        loop
            invariant
                distinct_keys(params@),
                table_of(params@) == query_map(done),
                segments(s@) == done + segments(rest@),
            decreases rest@.len(),
        {
            match split_once(rest, AMPERSAND) {
                Some((segment, tail)) => {
                    proof {
                        lemma_query_map_push(done, segment@);
                        assert(done.push(segment@) + segments(tail@) =~= done + segments(rest@));
                    }
                    record(&mut params, segment);
                    proof {
                        done = done.push(segment@);
                    }
                    rest = tail;
                },
                None => {
                    proof {
                        lemma_query_map_push(done, rest@);
                        assert(done.push(rest@) =~= done + segments(rest@));
                    }
                    record(&mut params, rest);
                    return QueryString { params };
                },
            }
        }
    }

    /// Looks a key up: what the query string gave for it, if it occurs.
    pub fn parse(&self, key: &str) -> (r: Option<&Value<'buf>>)
        ensures
            match r {
                Some(value) => self@.contains_key(key@) && value@ == self@[key@],
                None => !self@.contains_key(key@),
            },
    {
        proof {
            use_type_invariant(self);
        }
        match find(&self.params, key) {
            Some(i) => {
                proof {
                    lemma_table_entry(self.params@, i as int);
                }
                Some(&self.params[i].value)
            },
            None => None,
        }
    }
}

} // verus!
