//! The store of what every page shares: the props that are merged into each
//! page and the resolver of the current asset version.

use crate::http::{redirect, Response};
use crate::json::{
    clone_map, clone_value, entry_views, get_value, into_entries, into_object, json_view,
    map_entries,
    null_value, object_value,
};
use crate::page::Inertia;
use crate::tree::{
    distinct_keys, has_key, law_merge_into_nothing, law_merge_keeps_order, law_merge_overrides,
    lemma_upsert, merged, merged_value, upsert, value_at, Entry, JsonView,
};
use serde_json::Value;
use vstd::prelude::*;

verus! {

/// Something that tells the current asset version.
pub trait VersionSource: Send + Sync {
    /// Whether the source can be asked.
    spec fn ready(&self) -> bool;

    /// Whether the source may answer `version`.
    spec fn yields(&self, version: Seq<char>) -> bool;

    /// The current asset version.
    fn current(&self) -> (version: String)
        requires
            self.ready(),
        ensures
            self.yields(version@),
    ;
}

/// A function as a source of the version.
struct Resolver<F> {
    resolve: F,
}

impl<F: Fn() -> String + Send + Sync> VersionSource for Resolver<F> {
    closed spec fn ready(&self) -> bool {
        self.resolve.requires(())
    }

    closed spec fn yields(&self, version: Seq<char>) -> bool {
        exists|answer: String| answer@ == version && self.resolve.ensures((), answer)
    }

    fn current(&self) -> (version: String) {
        (self.resolve)()
    }
}

/// The props of a page once the shared props `shared` are merged in. The
/// merge is deep: the shared members come first and the members of the page
/// are set in them; where both have an object under one key, the two objects
/// are merged in the same way; everywhere else the page wins. Props that are
/// no object stay as they are.
pub open spec fn merged_props(shared: Seq<Entry>, props: JsonView) -> JsonView {
    match props {
        JsonView::Object(own) => JsonView::Object(merged(shared, own)),
        _ => props,
    }
}

/// Merges the members of `extra` into `base`, objects under a common key in
/// turn.
fn merge_into(base: &mut serde_json::Map<String, Value>, extra: serde_json::Map<String, Value>)
    ensures
        map_entries(*final(base)) == merged(map_entries(*old(base)), map_entries(extra)),
    decreases map_entries(extra),
{
    let ghost start = map_entries(*base);
    let ghost all = map_entries(extra);
    let entries = into_entries(extra);
    proof {
        assert(all.skip(0) =~= all);
    }
    for entry in it: entries.into_iter()
        invariant
            entry_views(it.seq()) == all,
            all == map_entries(extra),
            merged(map_entries(*base), all.skip(it.index() as int)) == merged(start, all),
    {
        let ghost rest = all.skip(it.index() as int);
        let ghost before = map_entries(*base);
        let (key, value) = entry;
        proof {
            assert(rest[0] == all[it.index() as int]);
            assert(rest[0] == (key@, json_view(value)));
            assert(rest.skip(1) =~= all.skip(it.index() + 1));
        }
        let value = match get_value(base, key.as_str()) {
            Some(below) => match below.as_object() {
                Some(under) => match into_object(value) {
                    Ok(over) => {
                        proof {
                            let member = all[it.index() as int];
                            assert(member.1 == JsonView::Object(map_entries(over)));
                            assert(decreases_to!(all => member));
                            assert(decreases_to!(member => member.1));
                            assert(decreases_to!(member.1 => member.1->Object_0));
                        }
                        let mut inner = clone_map(under);
                        merge_into(&mut inner, over);
                        object_value(inner)
                    },
                    Err(other) => other,
                },
                None => value,
            },
            None => value,
        };
        proof {
            assert(json_view(value) == merged_value(value_at(before, rest[0].0), rest[0].1));
        }
        base.insert(key, value);
    }
    proof {
        assert(all.skip(all.len() as int) =~= Seq::<Entry>::empty());
    }
}

/// What `get_shared` returns for `key`: the value shared under that key or
/// `null`, and the object of all shared props where no key is given.
pub open spec fn shared_value(shared: Seq<Entry>, key: Option<Seq<char>>) -> JsonView {
    match key {
        Some(k) => match value_at(shared, k) {
            Some(value) => value,
            None => JsonView::Null,
        },
        None => JsonView::Object(shared),
    }
}

/// The store shared by all requests.
pub struct ResponseFactory {
    root_view: String,
    shared_props: serde_json::Map<String, Value>,
    version: Option<Box<dyn VersionSource>>,
}

impl ResponseFactory {
    #[verifier::type_invariant]
    spec fn well_formed(&self) -> bool {
        &&& distinct_keys(map_entries(self.shared_props))
        &&& self.version matches Some(source) ==> source.ready()
    }

    /// The name of the root view.
    pub closed spec fn root_view(&self) -> Seq<char> {
        self.root_view@
    }

    /// The name of the root view.
    pub fn root_view_name(&self) -> (name: &str)
        ensures
            name@ == self.root_view(),
    {
        self.root_view.as_str()
    }

    /// The shared props, in the order in which their keys were first shared.
    pub closed spec fn shared(&self) -> Seq<Entry> {
        map_entries(self.shared_props)
    }

    /// The resolver of the version, where one is installed.
    pub closed spec fn resolver(&self) -> Option<Box<dyn VersionSource>> {
        self.version
    }

    /// Whether `version` is an answer that `get_version` may give.
    pub open spec fn may_yield(&self, version: Seq<char>) -> bool {
        match self.resolver() {
            Some(source) => source.yields(version),
            None => version == Seq::<char>::empty(),
        }
    }

    /// A store with the root view `app`, no shared props and no resolver.
    pub fn new() -> (factory: Self)
        ensures
            factory.root_view() == "app"@,
            factory.shared() == Seq::<Entry>::empty(),
            factory.resolver() is None,
    {
        Self { root_view: "app".to_owned(), shared_props: serde_json::Map::new(), version: None }
    }

    /// Names the root view.
    pub fn set_root_view(&mut self, name: &str)
        ensures
            final(self).root_view() == name@,
            final(self).shared() == old(self).shared(),
            final(self).resolver() == old(self).resolver(),
    {
        proof {
            use_type_invariant(&*self);
        }
        self.root_view = name.to_owned();
    }

    /// Shares `value` under `key`: a key that is shared already keeps its place
    /// and takes the new value, a new key goes last.
    pub fn share(&mut self, key: &str, value: Value)
        ensures
            final(self).shared() == upsert(old(self).shared(), key@, json_view(value)),
            distinct_keys(final(self).shared()),
            final(self).root_view() == old(self).root_view(),
            final(self).resolver() == old(self).resolver(),
    {
        proof {
            use_type_invariant(&*self);
            lemma_upsert(map_entries(self.shared_props), key@, json_view(value));
        }
        // The mapping is taken out of the store while it is changed.
        let mut props = serde_json::Map::new();
        std::mem::swap(&mut self.shared_props, &mut props);
        props.insert(key.to_owned(), value);
        std::mem::swap(&mut self.shared_props, &mut props);
    }

    /// A copy of what is shared under `key`, `null` where nothing is; without
    /// a key, a copy of all shared props as one object.
    pub fn get_shared(&self, key: Option<&str>) -> (value: Value)
        ensures
            json_view(value) == shared_value(
                self.shared(),
                match key {
                    Some(k) => Some(k@),
                    None => None,
                },
            ),
            distinct_keys(self.shared()),
    {
        proof {
            use_type_invariant(self);
        }
        match key {
            Some(k) => match get_value(&self.shared_props, k) {
                Some(found) => clone_value(found),
                None => null_value(),
            },
            None => object_value(clone_map(&self.shared_props)),
        }
    }

    /// Forgets all shared props.
    pub fn flush_shared(&mut self)
        ensures
            final(self).shared() == Seq::<Entry>::empty(),
            final(self).root_view() == old(self).root_view(),
            final(self).resolver() == old(self).resolver(),
    {
        proof {
            use_type_invariant(&*self);
        }
        self.shared_props = serde_json::Map::new();
    }

    /// Installs `version` as the resolver of the asset version, in the place
    /// of any earlier one.
    pub fn set_version<F>(&mut self, version: F) where F: Fn() -> String + Send + Sync + 'static
        requires
            version.requires(()),
        ensures
            final(self).resolver() is Some,
            forall|answer: Seq<char>|
                #[trigger] final(self).may_yield(answer) <==> exists|text: String|
                    text@ == answer && version.ensures((), text),
            final(self).root_view() == old(self).root_view(),
            final(self).shared() == old(self).shared(),
    {
        proof {
            use_type_invariant(&*self);
        }
        let inner = Resolver { resolve: version };
        assert(inner.ready());
        self.version = Some(Box::new(inner));
    }

    /// The current asset version: what the resolver answers, and the empty
    /// string where none is installed.
    pub fn get_version(&self) -> (version: String)
        ensures
            self.may_yield(version@),
    {
        proof {
            use_type_invariant(self);
        }
        match &self.version {
            Some(source) => source.current(),
            None => String::new(),
        }
    }

    /// The page `component` at `url` whose props are the deep merge of the
    /// shared props, as the base, and `props`, which override them.
    pub fn render(&self, component: &str, props: Value, url: &str) -> (page: Inertia<Value>)
        ensures
            page.component() == component@,
            page.url() == Some(url@),
            json_view(page.props()) == merged_props(self.shared(), json_view(props)),
            distinct_keys(self.shared()),
    {
        proof {
            use_type_invariant(self);
        }
        let props = match into_object(props) {
            Ok(own) => {
                let mut all = clone_map(&self.shared_props);
                merge_into(&mut all, own);
                object_value(all)
            },
            Err(other) => other,
        };
        Inertia::new(component.to_owned(), props, url.to_owned())
    }

    /// The response that makes the client load `url` in full.
    pub fn location(&self, url: &str) -> (response: Response)
        ensures
            response@ == redirect(url@),
    {
        Response::redirect(url)
    }
}

/// Whether the members of an object, where `props` is one, have distinct
/// keys; the members of the objects inside it are not looked at.
pub open spec fn keys_distinct(props: JsonView) -> bool {
    props matches JsonView::Object(own) ==> distinct_keys(own)
}

/// In the merged props a key of the page has the value that the page gives
/// it, merged with the shared value where both are objects; any other key has
/// the value that is shared under it; and no key occurs twice.
pub proof fn law_page_props_win(shared: Seq<Entry>, own: Seq<Entry>, key: Seq<char>)
    requires
        distinct_keys(shared),
        distinct_keys(own),
    ensures
        merged_props(shared, JsonView::Object(own)) matches JsonView::Object(all)
            && distinct_keys(all) && value_at(all, key) == if has_key(own, key) {
            Some(merged_value(value_at(shared, key), value_at(own, key)->0))
        } else {
            value_at(shared, key)
        },
{
    law_merge_overrides(shared, own, key);
}

/// Where the page and the shared props do not both hold an object under a
/// key of the page, the merged props hold the page's value under it.
pub proof fn law_page_value_replaces(shared: Seq<Entry>, own: Seq<Entry>, key: Seq<char>)
    requires
        distinct_keys(shared),
        distinct_keys(own),
        has_key(own, key),
        !(value_at(shared, key) matches Some(JsonView::Object(_))) || !(value_at(own, key)
            matches Some(JsonView::Object(_))),
    ensures
        merged_props(shared, JsonView::Object(own)) matches JsonView::Object(all) && value_at(
            all,
            key,
        ) == value_at(own, key),
{
    law_merge_overrides(shared, own, key);
}

/// Where the page and the shared props both hold an object under a key, the
/// merged props hold the merge of the two under it, the shared object as the
/// base.
pub proof fn law_nested_objects_merge(
    shared: Seq<Entry>,
    own: Seq<Entry>,
    key: Seq<char>,
    below: Seq<Entry>,
    over: Seq<Entry>,
)
    requires
        distinct_keys(shared),
        distinct_keys(own),
        value_at(shared, key) == Some(JsonView::Object(below)),
        value_at(own, key) == Some(JsonView::Object(over)),
    ensures
        merged_props(shared, JsonView::Object(own)) matches JsonView::Object(all) && value_at(
            all,
            key,
        ) == Some(JsonView::Object(merged(below, over))),
{
    law_merge_overrides(shared, own, key);
}

/// Where nothing is shared the merged props are the props of the page.
pub proof fn law_nothing_shared(props: JsonView)
    requires
        keys_distinct(props),
    ensures
        merged_props(Seq::<Entry>::empty(), props) == props,
{
    if let JsonView::Object(own) = props {
        law_merge_into_nothing(own);
    }
}

/// In the merged props the shared keys come first, in the order in which
/// they are shared.
pub proof fn law_shared_props_first(shared: Seq<Entry>, own: Seq<Entry>)
    ensures
        merged_props(shared, JsonView::Object(own)) matches JsonView::Object(all) && all.len()
            >= shared.len() && forall|i: int|
            0 <= i < shared.len() ==> (#[trigger] all[i]).0 == shared[i].0,
{
    law_merge_keeps_order(shared, own);
}

} // verus!
