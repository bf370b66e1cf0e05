//! The map from each name to the values given for it.

use vstd::prelude::*;
use vstd::utf8::*;

verus! {

/// The test that picks the pairs whose name is `name`.
pub open spec fn is_named(name: Seq<char>) -> spec_fn((Seq<char>, Seq<char>)) -> bool {
    |pair: (Seq<char>, Seq<char>)| pair.0 == name
}

/// The values that stand beside `name` in `pairs`, in the order of `pairs`.
pub open spec fn values_of(pairs: Seq<(Seq<char>, Seq<char>)>, name: Seq<char>) -> Seq<Seq<char>> {
    pairs.filter(is_named(name)).map_values(|pair: (Seq<char>, Seq<char>)| pair.1)
}

/// The map that holds, for each name that occurs in `pairs`, all the values
/// given for it, first occurrence first.
pub open spec fn grouped(pairs: Seq<(Seq<char>, Seq<char>)>) -> Map<Seq<char>, Seq<Seq<char>>> {
    Map::new(
        |name: Seq<char>| values_of(pairs, name).len() > 0,
        |name: Seq<char>| values_of(pairs, name),
    )
}

/// One more pair adds its value behind the values of its own name and
/// leaves those of every other name as they are.
pub proof fn lemma_values_of_push(
    pairs: Seq<(Seq<char>, Seq<char>)>,
    pair: (Seq<char>, Seq<char>),
    name: Seq<char>,
)
    ensures
        values_of(pairs.push(pair), name) == if pair.0 == name {
            values_of(pairs, name).push(pair.1)
        } else {
            values_of(pairs, name)
        },
{
    let longer = pairs.push(pair);
    assert(longer.drop_last() =~= pairs);
    assert(longer.filter(is_named(name)) == if pair.0 == name {
        pairs.filter(is_named(name)).push(pair)
    } else {
        pairs.filter(is_named(name))
    }) by {
        reveal_with_fuel(Seq::filter, 2);
    }
    if pair.0 == name {
        assert(values_of(longer, name) =~= values_of(pairs, name).push(pair.1));
    }
}

/// One more pair puts its value into the map under its name, behind the
/// values that the name had, and changes nothing else.
pub proof fn lemma_grouped_push(pairs: Seq<(Seq<char>, Seq<char>)>, pair: (Seq<char>, Seq<char>))
    ensures
        grouped(pairs.push(pair)) == grouped(pairs).insert(
            pair.0,
            if grouped(pairs).contains_key(pair.0) {
                grouped(pairs)[pair.0].push(pair.1)
            } else {
                seq![pair.1]
            },
        ),
{
    let longer = pairs.push(pair);
    let values = if grouped(pairs).contains_key(pair.0) {
        grouped(pairs)[pair.0].push(pair.1)
    } else {
        seq![pair.1]
    };
    assert forall|name: Seq<char>|
        values_of(longer, name) == (if pair.0 == name {
            values
        } else {
            values_of(pairs, name)
        }) by {
        lemma_values_of_push(pairs, pair, name);
        if pair.0 == name && !grouped(pairs).contains_key(name) {
            assert(values_of(pairs, name) =~= Seq::empty());
            assert(values_of(pairs, name).push(pair.1) =~= seq![pair.1]);
        }
    }
    assert(grouped(longer) =~= grouped(pairs).insert(pair.0, values));
}

/// The map holds a name exactly when some pair has it.
pub proof fn lemma_grouped_names(pairs: Seq<(Seq<char>, Seq<char>)>, name: Seq<char>)
    ensures
        grouped(pairs).contains_key(name) <==> exists|i: int|
            0 <= i < pairs.len() && (#[trigger] pairs[i]).0 == name,
{
    let kept = pairs.filter(is_named(name));
    if grouped(pairs).contains_key(name) {
        assert(kept.len() > 0);
        pairs.lemma_filter_pred(is_named(name), 0);
        assert(kept.contains(kept[0]));
        pairs.lemma_filter_contains_rev(is_named(name), kept[0]);
        let i = choose|i: int| 0 <= i < pairs.len() && pairs[i] == kept[0];
        assert(pairs[i].0 == name);
    }
    if exists|i: int| 0 <= i < pairs.len() && (#[trigger] pairs[i]).0 == name {
        let i = choose|i: int| 0 <= i < pairs.len() && (#[trigger] pairs[i]).0 == name;
        pairs.lemma_filter_contains(is_named(name), i);
    }
}

/// No occurrence of a name is lost: the value of every pair stands in the
/// map among the values of that pair's name.
pub proof fn lemma_grouped_keeps_every_pair(pairs: Seq<(Seq<char>, Seq<char>)>, i: int)
    requires
        0 <= i < pairs.len(),
    ensures
        grouped(pairs).contains_key(pairs[i].0),
        grouped(pairs)[pairs[i].0].contains(pairs[i].1),
{
    let name = pairs[i].0;
    let kept = pairs.filter(is_named(name));
    pairs.lemma_filter_contains(is_named(name), i);
    let k = choose|k: int| 0 <= k < kept.len() && kept[k] == pairs[i];
    assert(values_of(pairs, name)[k] == pairs[i].1);
}

/// Nothing is made up: every value that the map holds under a name stands
/// beside that name in some pair.
pub proof fn lemma_grouped_values_come_from_pairs(
    pairs: Seq<(Seq<char>, Seq<char>)>,
    name: Seq<char>,
    k: int,
)
    requires
        0 <= k < values_of(pairs, name).len(),
    ensures
        pairs.contains((name, values_of(pairs, name)[k])),
{
    let kept = pairs.filter(is_named(name));
    pairs.lemma_filter_pred(is_named(name), k);
    assert(kept.contains(kept[k]));
    pairs.lemma_filter_contains_rev(is_named(name), kept[k]);
    assert(kept[k] == (name, values_of(pairs, name)[k]));
}

/// Whether no name stands at two places of `entries`.
pub open spec fn names_are_distinct(entries: Seq<(Seq<char>, Seq<Seq<char>>)>) -> bool {
    forall|i: int, j: int|
        0 <= i < j < entries.len() ==> (#[trigger] entries[i]).0 != (#[trigger] entries[j]).0
}

/// Whether `name` stands at some place of `entries`.
pub open spec fn has_name(entries: Seq<(Seq<char>, Seq<Seq<char>>)>, name: Seq<char>) -> bool {
    exists|i: int| 0 <= i < entries.len() && (#[trigger] entries[i]).0 == name
}

/// A place of `entries` at which `name` stands, if there is one.
pub open spec fn place_of(entries: Seq<(Seq<char>, Seq<Seq<char>>)>, name: Seq<char>) -> int {
    choose|i: int| 0 <= i < entries.len() && (#[trigger] entries[i]).0 == name
}

/// The map that `entries` lists: each name with the values beside it.
pub open spec fn map_of(entries: Seq<(Seq<char>, Seq<Seq<char>>)>) -> Map<
    Seq<char>,
    Seq<Seq<char>>,
> {
    Map::new(
        |name: Seq<char>| has_name(entries, name),
        |name: Seq<char>| entries[place_of(entries, name)].1,
    )
}

/// Adding an entry under a name that is not held yet adds that name to the
/// map and leaves the others as they are.
proof fn lemma_map_of_push(
    entries: Seq<(Seq<char>, Seq<Seq<char>>)>,
    name: Seq<char>,
    values: Seq<Seq<char>>,
)
    requires
        names_are_distinct(entries),
        !has_name(entries, name),
    ensures
        names_are_distinct(entries.push((name, values))),
        map_of(entries.push((name, values))) == map_of(entries).insert(name, values),
{
    let longer = entries.push((name, values));
    assert forall|i: int, j: int| 0 <= i < j < longer.len() implies (#[trigger] longer[i]).0 != (
    #[trigger] longer[j]).0 by {
        if j < entries.len() {
            assert(entries[i].0 != entries[j].0);
        } else {
            assert(entries[i].0 != name);
        }
    }
    assert forall|other: Seq<char>| #[trigger]
        has_name(longer, other) <==> (other == name || has_name(entries, other)) by {
        if has_name(longer, other) {
            let i = place_of(longer, other);
            if i < entries.len() {
                assert(entries[i].0 == other);
            }
        }
        if other == name {
            assert(longer[entries.len() as int].0 == other);
        }
        if has_name(entries, other) {
            let i = place_of(entries, other);
            assert(longer[i].0 == other);
        }
    }
    assert forall|other: Seq<char>| has_name(longer, other) implies #[trigger] map_of(longer)[other]
        == map_of(entries).insert(name, values)[other] by {
        if other == name {
            assert(longer[entries.len() as int].0 == other);
        } else {
            let k = place_of(entries, other);
            assert(longer[k].0 == other);
        }
    }
    assert(map_of(longer) =~= map_of(entries).insert(name, values));
}

/// Replacing the values beside the name at place `i` replaces them in the
/// map and leaves the other names as they are.
proof fn lemma_map_of_update(
    entries: Seq<(Seq<char>, Seq<Seq<char>>)>,
    i: int,
    values: Seq<Seq<char>>,
)
    requires
        names_are_distinct(entries),
        0 <= i < entries.len(),
    ensures
        names_are_distinct(entries.update(i, (entries[i].0, values))),
        map_of(entries.update(i, (entries[i].0, values))) == map_of(entries).insert(
            entries[i].0,
            values,
        ),
{
    let name = entries[i].0;
    let changed = entries.update(i, (name, values));
    assert forall|a: int, b: int| 0 <= a < b < changed.len() implies (#[trigger] changed[a]).0 != (
    #[trigger] changed[b]).0 by {
        assert(entries[a].0 != entries[b].0);
    }
    assert forall|other: Seq<char>| #[trigger]
        has_name(changed, other) <==> has_name(entries, other) by {
        if has_name(changed, other) {
            let k = place_of(changed, other);
            assert(entries[k].0 == other);
        }
        if has_name(entries, other) {
            let k = place_of(entries, other);
            assert(changed[k].0 == other);
        }
    }
    assert(has_name(entries, name));
    assert forall|other: Seq<char>| has_name(changed, other) implies #[trigger] map_of(
        changed,
    )[other] == map_of(entries).insert(name, values)[other] by {
        let k = place_of(changed, other);
        let e = place_of(entries, other);
        assert(entries[k].0 == other);
        assert(changed[e].0 == other);
    }
    assert(map_of(changed) =~= map_of(entries).insert(name, values));
}

/// Entries with distinct names list a finite map with one name for each
/// entry.
proof fn lemma_map_of_len(entries: Seq<(Seq<char>, Seq<Seq<char>>)>)
    requires
        names_are_distinct(entries),
    ensures
        map_of(entries).dom().finite(),
        map_of(entries).dom().len() == entries.len(),
    decreases entries.len(),
{
    if entries.len() == 0 {
        assert(map_of(entries).dom() =~= Set::<Seq<char>>::empty());
    } else {
        let shorter = entries.drop_last();
        let last = entries.last();
        assert forall|i: int, j: int| 0 <= i < j < shorter.len() implies (#[trigger] shorter[i]).0
            != (#[trigger] shorter[j]).0 by {
            assert(entries[i].0 != entries[j].0);
        }
        if has_name(shorter, last.0) {
            let k = place_of(shorter, last.0);
            assert(entries[k].0 != entries[entries.len() - 1].0);
        }
        lemma_map_of_len(shorter);
        lemma_map_of_push(shorter, last.0, last.1);
        assert(shorter.push((last.0, last.1)) =~= entries);
        assert(map_of(entries).dom() =~= map_of(shorter).dom().insert(last.0));
    }
}

/// Whether two texts are the same, character by character.
fn same_text(a: &str, b: &str) -> (same: bool)
    ensures
        same == (a@ == b@),
{
    let x = a.as_bytes();
    let y = b.as_bytes();
    proof {
        encode_utf8_decode_utf8(a@);
        encode_utf8_decode_utf8(b@);
    }
    if x.len() != y.len() {
        return false;
    }
    let mut i: usize = 0;
    while i < x.len()
        invariant
            i <= x.len(),
            x.len() == y.len(),
            forall|k: int| 0 <= k < i ==> x@[k] == y@[k],
            x@ == encode_utf8(a@),
            y@ == encode_utf8(b@),
            decode_utf8(encode_utf8(a@)) == a@,
            decode_utf8(encode_utf8(b@)) == b@,
        decreases x.len() - i,
    {
        if x[i] != y[i] {
            return false;
        }
        i += 1;
    }
    assert(x@ =~= y@);
    true
}

/// The place of `entries` at which `name` stands, if it stands at one.
fn place(entries: &Vec<(String, Vec<String>)>, name: &str) -> (found: Option<usize>)
    ensures
        match found {
            Some(i) => i < entries.len() && entries[i as int].0@ == name@,
            None => !has_name(entries.deep_view(), name@),
        },
{
    let mut i: usize = 0;
    while i < entries.len()
        invariant
            i <= entries.len(),
            forall|k: int| 0 <= k < i ==> entries[k].0@ != name@,
        decreases entries.len() - i,
    {
        if same_text(entries[i].0.as_str(), name) {
            return Some(i);
        }
        i += 1;
    }
    None
}

/// A map from each name to the values given for it, in the order in which
/// they were given. No name is held twice, and none without a value.
#[derive(Debug)]
pub struct QueryMap {
    entries: Vec<(String, Vec<String>)>,
}

impl View for QueryMap {
    type V = Map<Seq<char>, Seq<Seq<char>>>;

    closed spec fn view(&self) -> Self::V {
        map_of(self.entries.deep_view())
    }
}

impl QueryMap {
    #[verifier::type_invariant]
    spec fn well_formed(self) -> bool {
        &&& names_are_distinct(self.entries.deep_view())
        &&& forall|i: int| 0 <= i < self.entries.len() ==> (#[trigger] self.entries[i]).1.len() > 0
    }

    /// A map that holds nothing.
    pub fn new() -> (map: QueryMap)
        ensures
            map@ == Map::<Seq<char>, Seq<Seq<char>>>::empty(),
    {
        let map = QueryMap { entries: Vec::new() };
        assert(map@ =~= Map::<Seq<char>, Seq<Seq<char>>>::empty());
        map
    }

    /// The values given for `name`, if any were.
    pub fn get(&self, name: &str) -> (values: Option<&Vec<String>>)
        ensures
            match values {
                Some(v) => self@.contains_key(name@) && v.deep_view() == self@[name@],
                None => !self@.contains_key(name@),
            },
    {
        proof {
            use_type_invariant(self);
        }
        match place(&self.entries, name) {
            Some(i) => {
                let ghost entries = self.entries.deep_view();
                assert(entries[i as int].0 == name@);
                assert(has_name(entries, name@));
                assert(place_of(entries, name@) == i);
                Some(&self.entries[i].1)
            },
            None => None,
        }
    }

    /// Whether any values were given for `name`.
    pub fn contains_key(&self, name: &str) -> (held: bool)
        ensures
            held == self@.contains_key(name@),
    {
        match place(&self.entries, name) {
            Some(i) => {
                assert(self.entries.deep_view()[i as int].0 == name@);
                true
            },
            None => false,
        }
    }

    /// The number of names held.
    pub fn len(&self) -> (count: usize)
        ensures
            self@.dom().finite(),
            count == self@.len(),
    {
        proof {
            use_type_invariant(self);
            lemma_map_of_len(self.entries.deep_view());
        }
        self.entries.len()
    }

    /// Whether no name is held.
    pub fn is_empty(&self) -> (empty: bool)
        ensures
            empty == (self@ == Map::<Seq<char>, Seq<Seq<char>>>::empty()),
    {
        proof {
            if self.entries.len() == 0 {
                assert(self@ =~= Map::<Seq<char>, Seq<Seq<char>>>::empty());
            } else {
                assert(has_name(self.entries.deep_view(), self.entries.deep_view()[0].0));
                assert(self@.contains_key(self.entries.deep_view()[0].0));
            }
        }
        self.entries.len() == 0
    }

    /// The names held, each once and with its values beside it.
    pub fn into_entries(self) -> (entries: Vec<(String, Vec<String>)>)
        ensures
            names_are_distinct(entries.deep_view()),
            forall|i: int| 0 <= i < entries.len() ==> (#[trigger] entries[i]).1.len() > 0,
            map_of(entries.deep_view()) == self@,
    {
        proof {
            use_type_invariant(&self);
        }
        self.entries
    }
}

/// Groups `pairs` by name: each name is held once, with all the values that
/// stand beside it in `pairs`, in their order there.
pub fn combine_duplicates(pairs: Vec<(String, String)>) -> (map: QueryMap)
    ensures
        map@ == grouped(pairs.deep_view()),
{
    let ghost all = pairs.deep_view();
    let ghost given = pairs@;
    let mut entries: Vec<(String, Vec<String>)> = Vec::new();
    assert(map_of(entries.deep_view()) =~= grouped(all.take(0)));
    for pair in it: pairs
        invariant
            it.seq() == given,
            all == Seq::new(given.len(), |i: int| given[i].deep_view()),
            names_are_distinct(entries.deep_view()),
            forall|i: int| 0 <= i < entries.len() ==> (#[trigger] entries[i]).1.len() > 0,
            map_of(entries.deep_view()) == grouped(all.take(it.index())),
    {
        let ghost done = all.take(it.index());
        let ghost held = entries@;
        let ghost before = entries.deep_view();
        proof {
            assert(pair.deep_view() == all[it.index()]);
            assert(all.take(it.index() + 1) =~= done.push(pair.deep_view()));
            lemma_grouped_push(done, pair.deep_view());
        }
        let (name, value) = pair;
        match place(&entries, name.as_str()) {
            Some(i) => {
                assert(before[i as int].0 == name@);
                assert(has_name(before, name@));
                assert(place_of(before, name@) == i);
                entries[i].1.push(value);
                proof {
                    let values = before[i as int].1.push(value@);
                    lemma_map_of_update(before, i as int, values);
                    assert(entries@.len() == held.len());
                    assert(entries@[i as int].0 == held[i as int].0);
                    assert(entries@[i as int].1@ == held[i as int].1@.push(value));
                    assert(entries@[i as int].1.deep_view() =~= values);
                    assert forall|k: int| 0 <= k < held.len() && k != i implies entries@[k]
                        == held[k] by {}
                    assert(entries.deep_view() =~= before.update(i as int, (name@, values)));
                }
            },
            None => {
                let mut values: Vec<String> = Vec::new();
                values.push(value);
                entries.push((name, values));
                proof {
                    lemma_map_of_push(before, name@, seq![value@]);
                    assert(values.deep_view() =~= seq![value@]);
                    assert(entries@ == held.push((name, values)));
                    assert(entries.deep_view() =~= before.push((name@, seq![value@])));
                }
            },
        }
    }
    assert(all.take(all.len() as int) =~= all);
    QueryMap { entries }
}

} // verus!
