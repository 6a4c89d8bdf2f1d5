//! Query strings: the part of a request target after `?`, decoded into a
//! mapping from each key to the one value or the several values it was
//! given.

use vstd::prelude::*;
use vstd::std_specs::convert::FromSpecImpl;
use crate::http::text::{
    cut, lacks, lemma_cut, lemma_cut_concat, lemma_cut_none, split, split_at_first, str_eq,
};

verus! {

/// What a key of a query string maps to, as plain text.
pub ghost enum ValueView {
    /// The key occurred once, with this value.
    Single(Seq<char>),
    /// The key occurred more than once; its values in order of appearance.
    Multiple(Seq<Seq<char>>),
}

/// What a key of a query string maps to.
#[derive(Debug)]
pub enum Value<'buf> {
    /// The key occurred once, with this value.
    Single(&'buf str),
    /// The key occurred more than once; its values in order of appearance.
    Multiple(Vec<&'buf str>),
}

/// The characters of each slice of `slices`.
pub open spec fn texts(slices: Seq<&str>) -> Seq<Seq<char>> {
    Seq::new(slices.len(), |i: int| slices[i]@)
}

impl<'buf> View for Value<'buf> {
    type V = ValueView;

    open spec fn view(&self) -> ValueView {
        match self {
            Value::Single(value) => ValueView::Single(value@),
            Value::Multiple(values) => ValueView::Multiple(texts(values@)),
        }
    }
}

/// Key and value of one token: the sides of its first `=`, or the whole
/// token and the empty string where it has none.
pub open spec fn key_value(token: Seq<char>) -> (Seq<char>, Seq<char>) {
    match cut(token, '=', '=') {
        Some(sides) => sides,
        None => (token, Seq::empty()),
    }
}

/// The key-value pairs of a query string, in order of appearance.
pub open spec fn pairs(s: Seq<char>) -> Seq<(Seq<char>, Seq<char>)> {
    split(s, '&').map_values(|token: Seq<char>| key_value(token))
}

/// The values that `pairs` gives to `key`, in order of appearance.
pub open spec fn values_of(pairs: Seq<(Seq<char>, Seq<char>)>, key: Seq<char>) -> Seq<Seq<char>>
    decreases pairs.len(),
{
    if pairs.len() == 0 {
        Seq::empty()
    } else {
        let earlier = values_of(pairs.drop_last(), key);
        if pairs.last().0 == key {
            earlier.push(pairs.last().1)
        } else {
            earlier
        }
    }
}

/// One value stands alone; any other number of values stands as a sequence.
pub open spec fn value_of(values: Seq<Seq<char>>) -> ValueView {
    if values.len() == 1 {
        ValueView::Single(values[0])
    } else {
        ValueView::Multiple(values)
    }
}

/// The mapping that a sequence of pairs amounts to: every key that occurs,
/// with all of its values in order of appearance.
pub open spec fn collect(pairs: Seq<(Seq<char>, Seq<char>)>) -> Map<Seq<char>, ValueView> {
    Map::new(
        |key: Seq<char>| values_of(pairs, key).len() > 0,
        |key: Seq<char>| value_of(values_of(pairs, key)),
    )
}

/// The mapping that the query string `s` decodes to.
pub open spec fn query_map(s: Seq<char>) -> Map<Seq<char>, ValueView> {
    collect(pairs(s))
}

/// The mapping `m` after one more pair: a new key gets a single value, a
/// single value becomes a sequence of two, a sequence grows by one.
pub open spec fn upsert(m: Map<Seq<char>, ValueView>, key: Seq<char>, value: Seq<char>) -> Map<
    Seq<char>,
    ValueView,
> {
    if m.contains_key(key) {
        match m[key] {
            ValueView::Single(prev) => m.insert(key, ValueView::Multiple(seq![prev, value])),
            ValueView::Multiple(values) => m.insert(key, ValueView::Multiple(values.push(value))),
        }
    } else {
        m.insert(key, ValueView::Single(value))
    }
}

/// The values of a key in two runs of pairs are its values in the first
/// run, then its values in the second.
pub proof fn lemma_values_of_concat(
    first: Seq<(Seq<char>, Seq<char>)>,
    second: Seq<(Seq<char>, Seq<char>)>,
    key: Seq<char>,
)
    ensures
        values_of(first + second, key) == values_of(first, key) + values_of(second, key),
    decreases second.len(),
{
    if second.len() == 0 {
        assert(first + second =~= first);
        assert(values_of(first, key) + values_of(second, key) =~= values_of(first, key));
    } else {
        let all = first + second;
        assert(all.drop_last() =~= first + second.drop_last());
        assert(all.last() == second.last());
        lemma_values_of_concat(first, second.drop_last(), key);
        let before = values_of(first, key) + values_of(second.drop_last(), key);
        if second.last().0 == key {
            assert(before.push(second.last().1) =~= values_of(first, key) + values_of(
                second.drop_last(),
                key,
            ).push(second.last().1));
        }
    }
}

/// A key is mapped exactly when it occurs. Where it occurs once, it maps to
/// that one value; where it occurs more often, it maps to the sequence of
/// all its values, which so never holds fewer than two.
pub proof fn lemma_value_kinds(pairs: Seq<(Seq<char>, Seq<char>)>, key: Seq<char>)
    ensures
        collect(pairs).contains_key(key) <==> values_of(pairs, key).len() >= 1,
        values_of(pairs, key).len() == 1 ==> collect(pairs)[key] == ValueView::Single(
            values_of(pairs, key)[0],
        ),
        values_of(pairs, key).len() >= 2 ==> collect(pairs)[key] == ValueView::Multiple(
            values_of(pairs, key),
        ),
        collect(pairs).contains_key(key) ==> (collect(pairs)[key] matches ValueView::Multiple(values)
            ==> values.len() >= 2),
{
}

/// No pairs, no keys.
pub proof fn lemma_collect_empty()
    ensures
        collect(Seq::empty()) == Map::<Seq<char>, ValueView>::empty(),
{
    assert(collect(Seq::empty()) =~= Map::<Seq<char>, ValueView>::empty());
}

/// Collecting one more pair is one application of the update rule.
pub proof fn lemma_collect_push(pairs: Seq<(Seq<char>, Seq<char>)>, key: Seq<char>, value: Seq<char>)
    ensures
        collect(pairs.push((key, value))) == upsert(collect(pairs), key, value),
{
    let more = pairs.push((key, value));
    assert(more.drop_last() =~= pairs);
    let old_values = values_of(pairs, key);
    assert(values_of(more, key) == old_values.push(value));
    if old_values.len() == 1 {
        assert(old_values.push(value) =~= seq![old_values[0], value]);
    }
    assert forall|k: Seq<char>| k != key implies values_of(more, k) == values_of(pairs, k) by {}
    assert(collect(more) =~= upsert(collect(pairs), key, value));
}

/// A token, an `&` and more text: the token's pair, then the pairs of the
/// rest.
pub proof fn lemma_pairs_first(token: Seq<char>, rest: Seq<char>)
    requires
        lacks(token, '&'),
    ensures
        pairs(token + seq!['&'] + rest) == seq![key_value(token)] + pairs(rest),
{
    lemma_cut_concat(token, '&', rest, '&', '&');
    lemma_pairs_unfold(token + seq!['&'] + rest);
}

/// Text without `&` is a single token.
pub proof fn lemma_pairs_last(token: Seq<char>)
    requires
        lacks(token, '&'),
    ensures
        pairs(token) == seq![key_value(token)],
{
    lemma_cut_none(token, '&', '&');
    lemma_pairs_unfold(token);
}

/// Only the first `=` of a token splits it: the value may hold more.
pub proof fn lemma_key_value(key: Seq<char>, value: Seq<char>)
    requires
        lacks(key, '='),
    ensures
        key_value(key + seq!['='] + value) == (key, value),
{
    lemma_cut_concat(key, '=', value, '=', '=');
}

/// A token without `=` is a key with the empty value.
pub proof fn lemma_bare_key(token: Seq<char>)
    requires
        lacks(token, '='),
    ensures
        key_value(token) == (token, Seq::<char>::empty()),
{
    lemma_cut_none(token, '=', '=');
}

/// A query string with neither `&` nor `=` decodes to one entry: the whole
/// string as the key, with the empty value.
pub proof fn lemma_query_of_bare_key(s: Seq<char>)
    requires
        lacks(s, '&'),
        lacks(s, '='),
    ensures
        query_map(s) == Map::<Seq<char>, ValueView>::empty().insert(
            s,
            ValueView::Single(Seq::empty()),
        ),
{
    lemma_pairs_last(s);
    lemma_bare_key(s);
    let none = Seq::<(Seq<char>, Seq<char>)>::empty();
    assert(pairs(s) =~= none.push((s, Seq::<char>::empty())));
    lemma_collect_empty();
    lemma_collect_push(none, s, Seq::<char>::empty());
}

/// A key given three times maps to its three values, in the order in which
/// they were given and with equal values kept apart.
pub proof fn lemma_query_of_repeated_key(
    key: Seq<char>,
    first: Seq<char>,
    second: Seq<char>,
    third: Seq<char>,
)
    requires
        lacks(key, '&'),
        lacks(key, '='),
        lacks(first, '&'),
        lacks(second, '&'),
        lacks(third, '&'),
    ensures
        query_map(
            key + seq!['='] + first + seq!['&'] + (key + seq!['='] + second) + seq!['&'] + (key
                + seq!['='] + third),
        ) == Map::<Seq<char>, ValueView>::empty().insert(
            key,
            ValueView::Multiple(seq![first, second, third]),
        ),
{
    let t1 = key + seq!['='] + first;
    let t2 = key + seq!['='] + second;
    let t3 = key + seq!['='] + third;
    let s = t1 + seq!['&'] + t2 + seq!['&'] + t3;
    assert(lacks(t1, '&'));
    assert(lacks(t2, '&'));
    assert(lacks(t3, '&'));
    assert(s =~= t1 + seq!['&'] + (t2 + seq!['&'] + t3));
    lemma_pairs_first(t1, t2 + seq!['&'] + t3);
    lemma_pairs_first(t2, t3);
    lemma_pairs_last(t3);
    lemma_key_value(key, first);
    lemma_key_value(key, second);
    lemma_key_value(key, third);
    let none = Seq::<(Seq<char>, Seq<char>)>::empty();
    let one = none.push((key, first));
    let two = one.push((key, second));
    let three = two.push((key, third));
    assert(pairs(s) =~= three);
    lemma_collect_empty();
    lemma_collect_push(none, key, first);
    lemma_collect_push(one, key, second);
    lemma_collect_push(two, key, third);
    assert(seq![first, second].push(third) =~= seq![first, second, third]);
    assert(collect(three) =~= Map::<Seq<char>, ValueView>::empty().insert(
        key,
        ValueView::Multiple(seq![first, second, third]),
    ));
}

/// Whether no two entries share a key.
spec fn unique_keys(entries: Seq<(&str, Value)>) -> bool {
    forall|i: int, j: int|
        0 <= i < j < entries.len() ==> (#[trigger] entries[i]).0@ != (#[trigger] entries[j]).0@
}

/// Whether `entries[i]` is the entry of `key`.
spec fn holds_key(entries: Seq<(&str, Value)>, key: Seq<char>, i: int) -> bool {
    0 <= i < entries.len() && entries[i].0@ == key
}

/// The mapping that a list of entries stands for.
spec fn entries_map(entries: Seq<(&str, Value)>) -> Map<Seq<char>, ValueView> {
    Map::new(
        |key: Seq<char>| exists|i: int| holds_key(entries, key, i),
        |key: Seq<char>| entries[choose|i: int| holds_key(entries, key, i)].1@,
    )
}

/// With unique keys, the entry at `i` is what its key maps to.
proof fn lemma_entry_is_mapped(entries: Seq<(&str, Value)>, i: int)
    requires
        unique_keys(entries),
        0 <= i < entries.len(),
    ensures
        entries_map(entries).contains_key(entries[i].0@),
        entries_map(entries)[entries[i].0@] == entries[i].1@,
{
    let key = entries[i].0@;
    assert(holds_key(entries, key, i));
    let c = choose|c: int| holds_key(entries, key, c);
    assert(c == i);
}

/// Applies the update rule for one pair to a list of entries.
fn insert<'buf>(entries: &mut Vec<(&'buf str, Value<'buf>)>, key: &'buf str, value: &'buf str)
    requires
        unique_keys(old(entries)@),
    ensures
        unique_keys(final(entries)@),
        entries_map(final(entries)@) == upsert(entries_map(old(entries)@), key@, value@),
{
    let n = entries.len();
    let mut i: usize = 0;
    while i < n
        invariant
            entries@ == old(entries)@,
            n == entries@.len(),
            i <= n,
            unique_keys(entries@),
            forall|j: int| 0 <= j < i ==> entries@[j].0@ != key@,
        decreases n - i,
    {
        if str_eq(entries[i].0, key) {
            let ghost before = entries@;
            let entry = &mut entries[i];
            match &mut entry.1 {
                Value::Single(prev) => {
                    let mut both: Vec<&'buf str> = Vec::new();
                    both.push(*prev);
                    both.push(value);
                    entry.1 = Value::Multiple(both);
                },
                Value::Multiple(values) => {
                    values.push(value);
                },
            }
            proof {
                let after = entries@;
                let m = entries_map(before);
                lemma_entry_is_mapped(before, i as int);
                assert(after.len() == before.len());
                assert(forall|j: int| 0 <= j < after.len() ==> after[j].0 == before[j].0);
                assert(forall|j: int| 0 <= j < after.len() && j != i ==> after[j] == before[j]);
                assert(after[i as int].1@ == upsert(m, key@, value@)[key@]) by {
                    match before[i as int].1 {
                        Value::Single(prev) => {
                            assert(after[i as int].1 is Multiple);
                            assert(after[i as int].1->Multiple_0@ == seq![prev, value]);
                            assert(texts(seq![prev, value]) =~= seq![prev@, value@]);
                        },
                        Value::Multiple(values) => {
                            assert(after[i as int].1 is Multiple);
                            assert(after[i as int].1->Multiple_0@ == values@.push(value));
                            assert(texts(values@.push(value)) =~= texts(values@).push(value@));
                        },
                    }
                }
                assert forall|k: Seq<char>, j: int| holds_key(after, k, j) == holds_key(before, k, j) by {}
                assert forall|k: Seq<char>| #[trigger]
                    entries_map(after).contains_key(k) implies entries_map(after)[k] == upsert(
                    m,
                    key@,
                    value@,
                )[k] by {
                    let c = choose|c: int| holds_key(after, k, c);
                    assert(holds_key(before, k, c));
                    lemma_entry_is_mapped(before, c);
                }
                assert(entries_map(after) =~= upsert(m, key@, value@));
            }
            return;
        }
        i += 1;
    }
    let ghost before = entries@;
    entries.push((key, Value::Single(value)));
    proof {
        let after = entries@;
        let m = entries_map(before);
        assert(!m.contains_key(key@));
        assert forall|k: Seq<char>| #[trigger]
            entries_map(after).contains_key(k) == upsert(m, key@, value@).contains_key(k) by {
            if entries_map(after).contains_key(k) {
                let c = choose|c: int| holds_key(after, k, c);
                if c < n {
                    assert(holds_key(before, k, c));
                }
            }
            if m.contains_key(k) {
                let c = choose|c: int| holds_key(before, k, c);
                assert(holds_key(after, k, c));
            }
            if k == key@ {
                assert(holds_key(after, k, n as int));
            }
        }
        assert forall|k: Seq<char>| #[trigger]
            entries_map(after).contains_key(k) implies entries_map(after)[k] == upsert(
            m,
            key@,
            value@,
        )[k] by {
            let c = choose|c: int| holds_key(after, k, c);
            lemma_entry_is_mapped(after, c);
            if c < n {
                assert(holds_key(before, k, c));
                lemma_entry_is_mapped(before, c);
            }
        }
        assert(entries_map(after) =~= upsert(m, key@, value@));
    }
}

/// Key and value of one token, borrowed from it.
fn split_key_value<'buf>(token: &'buf str) -> (r: (&'buf str, &'buf str))
    ensures
        (r.0@, r.1@) == key_value(token@),
{
    match split_at_first(token, '=', '=') {
        Some(sides) => sides,
        None => {
            proof {
                reveal_strlit("");
                assert(""@ =~= Seq::<char>::empty());
            }
            (token, "")
        },
    }
}

/// Unfolds `pairs` once, at the first `&`.
proof fn lemma_pairs_unfold(s: Seq<char>)
    ensures
        pairs(s) == match cut(s, '&', '&') {
            Some((token, rest)) => seq![key_value(token)] + pairs(rest),
            None => seq![key_value(s)],
        },
{
    match cut(s, '&', '&') {
        Some((token, rest)) => {
            assert(pairs(s) =~= seq![key_value(token)] + pairs(rest));
        },
        None => {
            assert(pairs(s) =~= seq![key_value(s)]);
        },
    }
}

/// A decoded query string: each key with its value or values. The slices
/// are borrowed from the text that was decoded.
#[derive(Debug)]
pub struct QueryString<'buf> {
    entries: Vec<(&'buf str, Value<'buf>)>,
}

impl<'buf> View for QueryString<'buf> {
    type V = Map<Seq<char>, ValueView>;

    closed spec fn view(&self) -> Map<Seq<char>, ValueView> {
        entries_map(self.entries@)
    }
}

impl<'buf> QueryString<'buf> {
    #[verifier::type_invariant]
    spec fn keys_are_unique(&self) -> bool {
        unique_keys(self.entries@)
    }

    /// Looks `key` up.
    pub fn get(&self, key: &str) -> (r: Option<&Value<'buf>>)
        ensures
            match r {
                Some(value) => self@.contains_key(key@) && self@[key@] == value@,
                None => !self@.contains_key(key@),
            },
    {
        proof {
            use_type_invariant(self);
        }
        let n = self.entries.len();
        let mut i: usize = 0;
        while i < n
            invariant
                n == self.entries@.len(),
                i <= n,
                unique_keys(self.entries@),
                forall|j: int| 0 <= j < i ==> !holds_key(self.entries@, key@, j),
            decreases n - i,
        {
            if str_eq(self.entries[i].0, key) {
                proof {
                    lemma_entry_is_mapped(self.entries@, i as int);
                }
                return Some(&self.entries[i].1);
            }
            i += 1;
        }
        None
    }
}

impl<'buf> From<&'buf str> for QueryString<'buf> {
    /// Decodes a query string. Every input decodes: a token without `=` is a
    /// key with the empty value, and an empty token is the empty key.
    fn from(s: &'buf str) -> (q: Self)
        ensures
            q@ == query_map(s@),
    {
        let mut entries: Vec<(&'buf str, Value<'buf>)> = Vec::new();
        let mut rest = s;
        let ghost mut done: Seq<(Seq<char>, Seq<char>)> = Seq::empty();
        proof {
            lemma_collect_empty();
            assert(entries_map(entries@) =~= Map::<Seq<char>, ValueView>::empty());
            assert(done + pairs(rest@) =~= pairs(s@));
        }
        loop
            invariant_except_break
                unique_keys(entries@),
                entries_map(entries@) == collect(done),
                pairs(s@) == done + pairs(rest@),
            ensures
                unique_keys(entries@),
                entries_map(entries@) == query_map(s@),
            decreases rest@.len(),
        {
            proof {
                lemma_pairs_unfold(rest@);
                lemma_cut(rest@, '&', '&');
            }
            match split_at_first(rest, '&', '&') {
                Some((token, tail)) => {
                    let (key, value) = split_key_value(token);
                    insert(&mut entries, key, value);
                    proof {
                        lemma_collect_push(done, key@, value@);
                        assert(done.push((key@, value@)) + pairs(tail@) =~= done + pairs(rest@));
                        done = done.push((key@, value@));
                    }
                    rest = tail;
                },
                None => {
                    let (key, value) = split_key_value(rest);
                    insert(&mut entries, key, value);
                    proof {
                        lemma_collect_push(done, key@, value@);
                        assert(done.push((key@, value@)) =~= done + pairs(rest@));
                    }
                    break;
                },
            }
        }
        QueryString { entries }
    }
}

/// `from` is stated by its own `ensures`, over the view of its result: the
/// borrowed representation has no value in specifications that a result
/// could be equated with, so `from_spec` is left unused.
impl<'buf> FromSpecImpl<&'buf str> for QueryString<'buf> {
    open spec fn obeys_from_spec() -> bool {
        false
    }

    open spec fn from_spec(s: &'buf str) -> Self {
        arbitrary()
    }
}

} // verus!
