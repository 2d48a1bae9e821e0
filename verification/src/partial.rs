//! Partial reloads: which props of a page a protocol request gets.

use crate::http::{find_header, header_text, HeaderView, Request};
use crate::json::{into_object, json_view, map_entries, object_value, retain_listed, shift_remove};
use crate::text::{key_list, parse_key_list, same_text, texts};
use crate::tree::{
    distinct_keys, except_keys, lemma_filter_all, lemma_filter_distinct, lemma_filter_twice,
    lemma_without_key_is_filter, listed_in, not_listed_in, only_keys, other_than, Entry, JsonView,
};
use crate::{X_INERTIA_PARTIAL_COMPONENT, X_INERTIA_PARTIAL_EXCEPT, X_INERTIA_PARTIAL_ONLY};
use serde_json::Value;
use vstd::prelude::*;

verus! {

/// What a request says about a partial reload: the component it is meant for,
/// the list of props it asks for and the list of props it leaves out, each as
/// the text of its header.
pub struct Selection {
    pub component: Option<Seq<char>>,
    pub only: Option<Seq<char>>,
    pub except: Option<Seq<char>>,
}

/// The selection that the headers of a request make.
pub open spec fn selection(headers: Seq<HeaderView>) -> Selection {
    Selection {
        component: header_text(headers, X_INERTIA_PARTIAL_COMPONENT@),
        only: header_text(headers, X_INERTIA_PARTIAL_ONLY@),
        except: header_text(headers, X_INERTIA_PARTIAL_EXCEPT@),
    }
}

/// Whether the selection narrows the props of the page `component`: it names
/// that very component, or it names none and has one of the two lists.
pub open spec fn filter_active(component: Seq<char>, asked: Selection) -> bool {
    match asked.component {
        Some(name) => name == component,
        None => asked.only is Some || asked.except is Some,
    }
}

/// The members that an active selection leaves: first those that the list of
/// props asked for names, where there is such a list, and of these the ones
/// that the list of props left out does not name.
pub open spec fn selected(entries: Seq<Entry>, asked: Selection) -> Seq<Entry> {
    let kept = match asked.only {
        Some(list) => only_keys(entries, key_list(list)),
        None => entries,
    };
    match asked.except {
        Some(list) => except_keys(kept, key_list(list)),
        None => kept,
    }
}

/// The props that a request with the headers `headers` gets of the page
/// `component` with the props `props`. Props that are no object pass as they
/// are, and so do all props where the selection is not active.
pub open spec fn partial_props(
    props: JsonView,
    component: Seq<char>,
    headers: Seq<HeaderView>,
) -> JsonView {
    match props {
        JsonView::Object(entries) if filter_active(component, selection(headers)) => {
            JsonView::Object(selected(entries, selection(headers)))
        },
        _ => props,
    }
}

/// Whether a member with the key `key` stays under the selection `asked`.
pub open spec fn stays(key: Seq<char>, asked: Selection) -> bool {
    &&& asked.only matches Some(list) ==> key_list(list).contains(key)
    &&& asked.except matches Some(list) ==> !key_list(list).contains(key)
}

/// Holds of the members that stay under `asked`.
pub open spec fn staying(asked: Selection) -> spec_fn(Entry) -> bool {
    |e: Entry| stays(e.0, asked)
}

/// Whether the selection made by the three headers narrows the props of the
/// page `component`.
pub fn should_filter(
    component: &str,
    asked_component: Option<&String>,
    only: Option<&String>,
    except: Option<&String>,
) -> (active: bool)
    ensures
        active == filter_active(
            component@,
            Selection {
                component: view_of(asked_component),
                only: view_of(only),
                except: view_of(except),
            },
        ),
{
    match asked_component {
        Some(name) => same_text(name.as_str(), component),
        None => only.is_some() || except.is_some(),
    }
}

/// The view of an optional string.
pub open spec fn view_of(text: Option<&String>) -> Option<Seq<char>> {
    match text {
        Some(t) => Some(t@),
        None => None,
    }
}

/// Takes the members named by `keys` out of `map`.
fn remove_listed(map: &mut serde_json::Map<String, Value>, keys: &Vec<String>)
    requires
        distinct_keys(map_entries(*old(map))),
    ensures
        map_entries(*final(map)) == except_keys(map_entries(*old(map)), texts(keys@)),
{
    let ghost start = map_entries(*map);
    let mut i: usize = 0;
    proof {
        let none = texts(keys@).take(0);
        assert forall|j: int| 0 <= j < start.len() implies not_listed_in(none)(
            #[trigger] start[j],
        ) by {}
        lemma_filter_all(start, not_listed_in(none));
    }
    while i < keys.len()
        invariant
            i <= keys.len(),
            distinct_keys(start),
            map_entries(*map) == except_keys(start, texts(keys@).take(i as int)),
        decreases keys.len() - i,
    {
        let ghost done = texts(keys@).take(i as int);
        let ghost key = keys@[i as int]@;
        proof {
            lemma_filter_distinct(start, not_listed_in(done));
            lemma_without_key_is_filter(map_entries(*map), key);
            let next = texts(keys@).take(i + 1);
            assert(next =~= done.push(key));
            assert forall|e: Entry| #[trigger]
                not_listed_in(next)(e) == (not_listed_in(done)(e) && other_than(key)(e)) by {
                if done.contains(e.0) {
                    let j = choose|j: int| 0 <= j < done.len() && done[j] == e.0;
                    assert(next[j] == e.0);
                }
                if e.0 == key {
                    assert(next[i as int] == e.0);
                }
                if next.contains(e.0) {
                    let j = choose|j: int| 0 <= j < next.len() && next[j] == e.0;
                    if j < i {
                        assert(done[j] == e.0);
                    }
                }
            }
            lemma_filter_twice(start, not_listed_in(done), other_than(key), not_listed_in(next));
        }
        shift_remove(map, keys[i].as_str());
        i += 1;
    }
    proof {
        assert(texts(keys@).take(i as int) =~= texts(keys@));
    }
}

/// Narrows `map` to the members that the two lists leave.
fn select_entries(
    map: &mut serde_json::Map<String, Value>,
    only: Option<&String>,
    except: Option<&String>,
)
    requires
        distinct_keys(map_entries(*old(map))),
    ensures
        map_entries(*final(map)) == selected(
            map_entries(*old(map)),
            Selection { component: None, only: view_of(only), except: view_of(except) },
        ),
{
    if let Some(list) = only {
        let keys = parse_key_list(list.as_str());
        proof {
            lemma_filter_distinct(map_entries(*map), listed_in(texts(keys@)));
        }
        retain_listed(map, &keys);
    }
    if let Some(list) = except {
        let keys = parse_key_list(list.as_str());
        remove_listed(map, &keys);
    }
}

/// The props of the page `component` that `request` gets: all of them, unless
/// the request makes a selection that is active for this page and the props
/// are an object; then the members that the selection leaves, in their order.
pub fn filter_props(props: Value, component: &str, request: &Request) -> (out: Value)
    ensures
        json_view(out) == partial_props(json_view(props), component@, request@.headers),
{
    let asked = request.header_text(X_INERTIA_PARTIAL_COMPONENT);
    let only = request.header_text(X_INERTIA_PARTIAL_ONLY);
    let except = request.header_text(X_INERTIA_PARTIAL_EXCEPT);
    if !should_filter(component, asked, only, except) {
        return props;
    }
    match into_object(props) {
        Ok(mut map) => {
            select_entries(&mut map, only, except);
            object_value(map)
        },
        Err(other) => other,
    }
}

/// The members that a selection leaves are just those whose key one of its
/// lists asks for, where there is such a list, and the other does not leave
/// out; they stand in the order in which the page has them.
pub proof fn law_selected_members(entries: Seq<Entry>, asked: Selection)
    ensures
        selected(entries, asked) == entries.filter(staying(asked)),
{
    let all = |e: Entry| true;
    let kept_only = match asked.only {
        Some(list) => listed_in(key_list(list)),
        None => all,
    };
    let kept_except = match asked.except {
        Some(list) => not_listed_in(key_list(list)),
        None => all,
    };
    assert forall|i: int| 0 <= i < entries.len() implies all(#[trigger] entries[i]) by {}
    lemma_filter_all(entries, all);
    let first = entries.filter(kept_only);
    assert forall|i: int| 0 <= i < first.len() implies all(#[trigger] first[i]) by {}
    lemma_filter_all(first, all);
    assert(selected(entries, asked) == first.filter(kept_except));
    assert forall|e: Entry| #[trigger] staying(asked)(e) == (kept_only(e) && kept_except(e)) by {}
    lemma_filter_twice(entries, kept_only, kept_except, staying(asked));
}

/// Leaving out wins over asking for: no member that a selection leaves has a
/// key that its list of props left out names.
pub proof fn law_exclusion_wins(entries: Seq<Entry>, asked: Selection, i: int)
    requires
        asked.except is Some,
        0 <= i < selected(entries, asked).len(),
    ensures
        !key_list(asked.except->0).contains(selected(entries, asked)[i].0),
{
    law_selected_members(entries, asked);
    entries.lemma_filter_pred(staying(asked), i);
}

/// A member of the page is among those that a selection leaves just when its
/// key stays.
pub proof fn law_selected_contains(entries: Seq<Entry>, asked: Selection, member: Entry)
    ensures
        selected(entries, asked).contains(member) <==> entries.contains(member) && stays(
            member.0,
            asked,
        ),
{
    law_selected_members(entries, asked);
    let kept = entries.filter(staying(asked));
    if kept.contains(member) {
        entries.lemma_filter_contains_rev(staying(asked), member);
        let i = choose|i: int| 0 <= i < kept.len() && kept[i] == member;
        entries.lemma_filter_pred(staying(asked), i);
    }
    if entries.contains(member) && stays(member.0, asked) {
        let i = choose|i: int| 0 <= i < entries.len() && entries[i] == member;
        entries.lemma_filter_contains(staying(asked), i);
    }
}

/// A request that carries none of the three partial-reload headers gets all
/// props of the page.
pub proof fn law_no_selection(props: JsonView, component: Seq<char>, headers: Seq<HeaderView>)
    requires
        find_header(headers, X_INERTIA_PARTIAL_COMPONENT@) is None,
        find_header(headers, X_INERTIA_PARTIAL_ONLY@) is None,
        find_header(headers, X_INERTIA_PARTIAL_EXCEPT@) is None,
    ensures
        partial_props(props, component, headers) == props,
{
}

/// A request that names another component gets all props of the page,
/// whatever its two lists say.
pub proof fn law_other_component(props: JsonView, component: Seq<char>, headers: Seq<HeaderView>)
    requires
        header_text(headers, X_INERTIA_PARTIAL_COMPONENT@) matches Some(name) && name != component,
    ensures
        partial_props(props, component, headers) == props,
{
}

/// A selection is active just when it names the component of the page, or
/// names no component and has one of the two lists.
pub proof fn law_activation(component: Seq<char>, asked: Selection)
    ensures
        filter_active(component, asked) <==> (asked.component == Some(component) || (
        asked.component is None && (asked.only is Some || asked.except is Some))),
{
}

} // verus!
