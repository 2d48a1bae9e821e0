//! The mathematical model of JSON documents and of the ordered key/value
//! mappings inside them.

use vstd::prelude::*;

verus! {

/// A JSON document as a mathematical tree. An object is the sequence of its
/// members in the order in which they are stored.
pub enum JsonView {
    Null,
    Bool(bool),
    /// A number, stood for by its decimal literal.
    Number(Seq<char>),
    Text(Seq<char>),
    Array(Seq<JsonView>),
    Object(Seq<(Seq<char>, JsonView)>),
}

/// One member of an object: its key and its value.
pub type Entry = (Seq<char>, JsonView);

/// Some member of `entries` has the key `key`.
pub open spec fn has_key(entries: Seq<Entry>, key: Seq<char>) -> bool {
    exists|i: int| 0 <= i < entries.len() && (#[trigger] entries[i]).0 == key
}

/// No key occurs twice.
pub open spec fn distinct_keys(entries: Seq<Entry>) -> bool {
    forall|i: int, j: int|
        0 <= i < j < entries.len() ==> (#[trigger] entries[i]).0 != (#[trigger] entries[j]).0
}

/// The place of a member with the key `key`; meaningful where `has_key` holds.
pub open spec fn position(entries: Seq<Entry>, key: Seq<char>) -> int {
    choose|i: int| 0 <= i < entries.len() && (#[trigger] entries[i]).0 == key
}

/// The value stored under `key`, if there is one.
pub open spec fn value_at(entries: Seq<Entry>, key: Seq<char>) -> Option<JsonView> {
    if has_key(entries, key) {
        Some(entries[position(entries, key)].1)
    } else {
        None
    }
}

/// `entries` after `key` has been set to `value`: an existing member keeps its
/// place and takes the new value, a new member goes last.
pub open spec fn upsert(entries: Seq<Entry>, key: Seq<char>, value: JsonView) -> Seq<Entry> {
    if has_key(entries, key) {
        entries.update(position(entries, key), (key, value))
    } else {
        entries.push((key, value))
    }
}

/// `entries` after the member with the key `key`, if any, has been taken out;
/// the members behind it move up.
pub open spec fn without_key(entries: Seq<Entry>, key: Seq<char>) -> Seq<Entry> {
    if has_key(entries, key) {
        entries.remove(position(entries, key))
    } else {
        entries
    }
}

/// The value that a merge stores for a member of the overriding side: where
/// the base holds an object under the same key and the member is an object
/// too, the merge of the two; in every other case the member's own value.
pub open spec fn merged_value(below: Option<JsonView>, over: JsonView) -> JsonView
    decreases over,
{
    match (below, over) {
        (Some(JsonView::Object(base)), JsonView::Object(extra)) => JsonView::Object(
            merged(base, extra),
        ),
        _ => over,
    }
}

/// The deep merge of `extra` into `base`: every member of `extra` is set in
/// `base`, first to last, with the value that `merged_value` gives it. So the
/// members of `base` keep their places, new keys follow in the order of
/// `extra`, and objects that both sides hold under one key are merged in turn.
pub open spec fn merged(base: Seq<Entry>, extra: Seq<Entry>) -> Seq<Entry>
    decreases extra,
{
    if extra.len() == 0 {
        base
    } else {
        let key = extra[0].0;
        merged(
            upsert(base, key, merged_value(value_at(base, key), extra[0].1)),
            extra.skip(1),
        )
    }
}

/// Holds of the members whose key is one of `keys`.
pub open spec fn listed_in(keys: Seq<Seq<char>>) -> spec_fn(Entry) -> bool {
    |e: Entry| keys.contains(e.0)
}

/// Holds of the members whose key is none of `keys`.
pub open spec fn not_listed_in(keys: Seq<Seq<char>>) -> spec_fn(Entry) -> bool {
    |e: Entry| !keys.contains(e.0)
}

/// Holds of the members whose key is not `key`.
pub open spec fn other_than(key: Seq<char>) -> spec_fn(Entry) -> bool {
    |e: Entry| e.0 != key
}

/// The members whose key is one of `keys`, in their own order.
pub open spec fn only_keys(entries: Seq<Entry>, keys: Seq<Seq<char>>) -> Seq<Entry> {
    entries.filter(listed_in(keys))
}

/// The members whose key is none of `keys`, in their own order.
pub open spec fn except_keys(entries: Seq<Entry>, keys: Seq<Seq<char>>) -> Seq<Entry> {
    entries.filter(not_listed_in(keys))
}

/// Filtering twice is filtering once by both conditions.
pub proof fn lemma_filter_twice<A>(
    s: Seq<A>,
    p: spec_fn(A) -> bool,
    q: spec_fn(A) -> bool,
    both: spec_fn(A) -> bool,
)
    requires
        forall|x: A| #[trigger] both(x) == (p(x) && q(x)),
    ensures
        s.filter(p).filter(q) == s.filter(both),
    decreases s.len(),
{
    if s.len() == 0 {
        assert(s.filter(p) =~= s);
        assert(s.filter(both) =~= s);
        assert(s.filter(q) =~= s);
    } else {
        let init = s.drop_last();
        let x = s.last();
        assert(s =~= init.push(x));
        lemma_filter_twice(init, p, q, both);
        Seq::lemma_filter_push(init, x, p);
        Seq::lemma_filter_push(init, x, both);
        if p(x) {
            Seq::lemma_filter_push(init.filter(p), x, q);
        }
    }
}

/// A filter that every member passes changes nothing.
pub proof fn lemma_filter_all<A>(s: Seq<A>, p: spec_fn(A) -> bool)
    requires
        forall|i: int| 0 <= i < s.len() ==> p(#[trigger] s[i]),
    ensures
        s.filter(p) == s,
    decreases s.len(),
{
    if s.len() == 0 {
        assert(s.filter(p) =~= s);
    } else {
        let init = s.drop_last();
        let x = s.last();
        assert(s =~= init.push(x));
        assert forall|i: int| 0 <= i < init.len() implies p(#[trigger] init[i]) by {
            assert(init[i] == s[i]);
        }
        lemma_filter_all(init, p);
        Seq::lemma_filter_push(init, x, p);
    }
}

/// A key of the filtered members is a key of the members.
pub proof fn lemma_filter_has_key(entries: Seq<Entry>, p: spec_fn(Entry) -> bool, key: Seq<char>)
    requires
        has_key(entries.filter(p), key),
    ensures
        has_key(entries, key),
{
    let kept = entries.filter(p);
    let i = choose|i: int| 0 <= i < kept.len() && (#[trigger] kept[i]).0 == key;
    assert(kept.contains(kept[i]));
    entries.lemma_filter_contains_rev(p, kept[i]);
    let j = choose|j: int| 0 <= j < entries.len() && entries[j] == kept[i];
    assert(entries[j].0 == key);
}

/// Filtering leaves the keys distinct.
pub proof fn lemma_filter_distinct(entries: Seq<Entry>, p: spec_fn(Entry) -> bool)
    requires
        distinct_keys(entries),
    ensures
        distinct_keys(entries.filter(p)),
    decreases entries.len(),
{
    if entries.len() == 0 {
        assert(entries.filter(p) =~= entries);
    } else {
        let init = entries.drop_last();
        let x = entries.last();
        assert(entries =~= init.push(x));
        assert(distinct_keys(init)) by {
            assert forall|i: int, j: int| 0 <= i < j < init.len() implies (#[trigger] init[i]).0 != (
            #[trigger] init[j]).0 by {
                assert(init[i] == entries[i] && init[j] == entries[j]);
            }
        }
        lemma_filter_distinct(init, p);
        Seq::lemma_filter_push(init, x, p);
        if p(x) {
            let kept = init.filter(p);
            if has_key(kept, x.0) {
                lemma_filter_has_key(init, p, x.0);
                let j = choose|j: int| 0 <= j < init.len() && (#[trigger] init[j]).0 == x.0;
                assert(entries[j] == init[j]);
                assert(entries[entries.len() - 1] == x);
                assert(false);
            }
            let all = kept.push(x);
            assert forall|i: int, j: int| 0 <= i < j < all.len() implies (#[trigger] all[i]).0 != (
            #[trigger] all[j]).0 by {
                if j < kept.len() {
                    assert(all[i] == kept[i] && all[j] == kept[j]);
                } else {
                    assert(all[i] == kept[i]);
                }
            }
        }
    }
}

/// Where no key occurs twice, taking the member with a key out is keeping the
/// members with any other key.
pub proof fn lemma_without_key_is_filter(entries: Seq<Entry>, key: Seq<char>)
    requires
        distinct_keys(entries),
    ensures
        without_key(entries, key) == entries.filter(other_than(key)),
    decreases entries.len(),
{
    let p = other_than(key);
    if !has_key(entries, key) {
        lemma_filter_all(entries, p);
    } else {
        let at = position(entries, key);
        let init = entries.drop_last();
        let x = entries.last();
        assert(entries =~= init.push(x));
        assert(distinct_keys(init)) by {
            assert forall|i: int, j: int| 0 <= i < j < init.len() implies (#[trigger] init[i]).0 != (
            #[trigger] init[j]).0 by {
                assert(init[i] == entries[i] && init[j] == entries[j]);
            }
        }
        Seq::lemma_filter_push(init, x, p);
        if x.0 == key {
            assert(entries[entries.len() - 1] == x);
            assert(at == entries.len() - 1);
            assert(entries.remove(at) =~= init);
            assert forall|i: int| 0 <= i < init.len() implies p(#[trigger] init[i]) by {
                assert(init[i] == entries[i]);
            }
            lemma_filter_all(init, p);
        } else {
            assert(at < init.len());
            assert(init[at] == entries[at]);
            assert(has_key(init, key));
            let inner = position(init, key);
            assert(entries[inner] == init[inner]);
            assert(inner == at);
            lemma_without_key_is_filter(init, key);
            assert(entries.remove(at) =~= init.remove(at).push(x));
        }
    }
}

/// Where no key occurs twice, a member is the one found under its key.
pub proof fn lemma_position_unique(entries: Seq<Entry>, key: Seq<char>, i: int)
    requires
        distinct_keys(entries),
        0 <= i < entries.len(),
        entries[i].0 == key,
    ensures
        has_key(entries, key),
        position(entries, key) == i,
        value_at(entries, key) == Some(entries[i].1),
{
    let at = position(entries, key);
    assert(0 <= at < entries.len() && entries[at].0 == key);
    if at < i {
        assert(entries[at].0 != entries[i].0);
    } else if i < at {
        assert(entries[i].0 != entries[at].0);
    }
}

/// Setting a key keeps the keys distinct, stores the value under the key, and
/// leaves every other key as it was.
pub proof fn lemma_upsert(entries: Seq<Entry>, key: Seq<char>, value: JsonView)
    requires
        distinct_keys(entries),
    ensures
        distinct_keys(upsert(entries, key, value)),
        value_at(upsert(entries, key, value), key) == Some(value),
        forall|other: Seq<char>|
            other != key ==> #[trigger] has_key(upsert(entries, key, value), other) == has_key(
                entries,
                other,
            ) && value_at(upsert(entries, key, value), other) == value_at(entries, other),
{
    let after = upsert(entries, key, value);
    if has_key(entries, key) {
        let at = position(entries, key);
        assert(0 <= at < entries.len() && entries[at].0 == key);
        assert(after.len() == entries.len());
        assert forall|i: int| 0 <= i < after.len() implies (#[trigger] after[i]).0
            == entries[i].0 by {}
        assert forall|i: int, j: int| 0 <= i < j < after.len() implies (#[trigger] after[i]).0 != (
        #[trigger] after[j]).0 by {
            assert(entries[i].0 != entries[j].0);
        }
        lemma_position_unique(after, key, at);
        assert forall|other: Seq<char>| other != key implies #[trigger] has_key(after, other)
            == has_key(entries, other) && value_at(after, other) == value_at(entries, other) by {
            if has_key(entries, other) {
                let i = position(entries, other);
                assert(entries[i].0 == other);
                assert(after[i] == entries[i]);
                lemma_position_unique(after, other, i);
                lemma_position_unique(entries, other, i);
            }
            if has_key(after, other) {
                let i = position(after, other);
                assert(after[i].0 == other);
                assert(entries[i] == after[i]);
                lemma_position_unique(entries, other, i);
            }
        }
    } else {
        let last = entries.len() as int;
        assert(after.len() == last + 1);
        assert(after[last] == (key, value));
        assert forall|i: int, j: int| 0 <= i < j < after.len() implies (#[trigger] after[i]).0 != (
        #[trigger] after[j]).0 by {
            assert(after[i] == entries[i]);
            if j < last {
                assert(after[j] == entries[j]);
            }
        }
        lemma_position_unique(after, key, last);
        assert forall|other: Seq<char>| other != key implies #[trigger] has_key(after, other)
            == has_key(entries, other) && value_at(after, other) == value_at(entries, other) by {
            if has_key(entries, other) {
                let i = position(entries, other);
                assert(entries[i].0 == other);
                assert(after[i] == entries[i]);
                lemma_position_unique(after, other, i);
                lemma_position_unique(entries, other, i);
            }
            if has_key(after, other) {
                let i = position(after, other);
                assert(after[i].0 == other);
                assert(i < last);
                assert(entries[i] == after[i]);
                lemma_position_unique(entries, other, i);
            }
        }
    }
}

/// The members behind the first have distinct keys too, and none of them has
/// the key of the first.
pub proof fn lemma_distinct_rest(entries: Seq<Entry>)
    requires
        distinct_keys(entries),
        entries.len() > 0,
    ensures
        distinct_keys(entries.skip(1)),
        !has_key(entries.skip(1), entries[0].0),
        forall|key: Seq<char>|
            key != entries[0].0 ==> #[trigger] has_key(entries.skip(1), key) == has_key(
                entries,
                key,
            ) && value_at(entries.skip(1), key) == value_at(entries, key),
{
    let rest = entries.skip(1);
    assert forall|i: int, j: int| 0 <= i < j < rest.len() implies (#[trigger] rest[i]).0 != (
    #[trigger] rest[j]).0 by {
        assert(rest[i] == entries[i + 1] && rest[j] == entries[j + 1]);
    }
    if has_key(rest, entries[0].0) {
        let i = position(rest, entries[0].0);
        assert(rest[i] == entries[i + 1]);
        assert(entries[0].0 != entries[i + 1].0);
    }
    assert forall|key: Seq<char>| key != entries[0].0 implies #[trigger] has_key(rest, key)
        == has_key(entries, key) && value_at(rest, key) == value_at(entries, key) by {
        if has_key(rest, key) {
            let i = position(rest, key);
            assert(rest[i] == entries[i + 1]);
            lemma_position_unique(entries, key, i + 1);
            lemma_position_unique(rest, key, i);
        }
        if has_key(entries, key) {
            let i = position(entries, key);
            assert(entries[i].0 == key);
            assert(i > 0);
            assert(rest[i - 1] == entries[i]);
            lemma_position_unique(rest, key, i - 1);
            lemma_position_unique(entries, key, i);
        }
    }
}

/// In a merge the members of `extra` take precedence: a key of `extra` has
/// the value that `extra` gives it, merged with the value of `base` where both
/// are objects; any other key has the value that `base` gives it; and no key
/// occurs twice.
pub proof fn law_merge_overrides(base: Seq<Entry>, extra: Seq<Entry>, key: Seq<char>)
    requires
        distinct_keys(base),
        distinct_keys(extra),
    ensures
        distinct_keys(merged(base, extra)),
        has_key(merged(base, extra), key) == (has_key(base, key) || has_key(extra, key)),
        value_at(merged(base, extra), key) == if has_key(extra, key) {
            Some(merged_value(value_at(base, key), value_at(extra, key)->0))
        } else {
            value_at(base, key)
        },
    decreases extra.len(),
{
    if extra.len() > 0 {
        let first = extra[0];
        let value = merged_value(value_at(base, first.0), first.1);
        let next = upsert(base, first.0, value);
        lemma_upsert(base, first.0, value);
        lemma_distinct_rest(extra);
        law_merge_overrides(next, extra.skip(1), key);
        if key == first.0 {
            lemma_position_unique(extra, key, 0);
            assert(has_key(next, key));
        } else {
            assert(has_key(next, key) == has_key(base, key));
            assert(has_key(extra.skip(1), key) == has_key(extra, key));
        }
    }
}

/// A merge keeps the members of `base` in their places: it is at least as
/// long, and the keys of `base` stand where they stood.
pub proof fn law_merge_keeps_order(base: Seq<Entry>, extra: Seq<Entry>)
    ensures
        merged(base, extra).len() >= base.len(),
        forall|i: int| 0 <= i < base.len() ==> (#[trigger] merged(base, extra)[i]).0 == base[i].0,
    decreases extra.len(),
{
    if extra.len() > 0 {
        let first = extra[0];
        let next = upsert(base, first.0, merged_value(value_at(base, first.0), first.1));
        law_merge_keeps_order(next, extra.skip(1));
        assert(next.len() >= base.len());
        assert forall|i: int| 0 <= i < base.len() implies (#[trigger] merged(base, extra)[i]).0
            == base[i].0 by {
            assert(merged(base, extra)[i].0 == next[i].0);
            if has_key(base, first.0) {
                let at = position(base, first.0);
                assert(0 <= at < base.len() && base[at].0 == first.0);
            }
        }
    }
}

/// Merged into nothing, members with distinct keys stay as they are.
pub proof fn law_merge_into_nothing(extra: Seq<Entry>)
    requires
        distinct_keys(extra),
    ensures
        merged(Seq::<Entry>::empty(), extra) == extra,
{
    lemma_merge_appends(Seq::<Entry>::empty(), extra);
    assert(Seq::<Entry>::empty() + extra =~= extra);
}

/// Members whose keys are new to `base` and differ from each other are added
/// behind `base`, in their order and with their own values.
pub proof fn lemma_merge_appends(base: Seq<Entry>, extra: Seq<Entry>)
    requires
        distinct_keys(extra),
        forall|i: int| 0 <= i < extra.len() ==> !has_key(base, (#[trigger] extra[i]).0),
    ensures
        merged(base, extra) == base + extra,
    decreases extra.len(),
{
    if extra.len() == 0 {
        assert(base + extra =~= base);
    } else {
        let first = extra[0];
        let rest = extra.skip(1);
        assert(!has_key(base, first.0));
        assert(merged_value(value_at(base, first.0), first.1) == first.1);
        let next = upsert(base, first.0, first.1);
        assert(next == base.push(first));
        lemma_distinct_rest(extra);
        assert forall|i: int| 0 <= i < rest.len() implies !has_key(next, (#[trigger] rest[i]).0) by {
            assert(rest[i] == extra[i + 1]);
            assert(!has_key(base, extra[i + 1].0));
            if has_key(next, rest[i].0) {
                let j = position(next, rest[i].0);
                assert(next[j].0 == rest[i].0);
                if j < base.len() {
                    assert(base[j] == next[j]);
                    assert(has_key(base, rest[i].0));
                } else {
                    assert(next[j] == first);
                    assert(extra[0].0 != extra[i + 1].0);
                }
            }
        }
        lemma_merge_appends(next, rest);
        assert(base.push(first) + rest =~= base + extra);
    }
}

} // verus!
