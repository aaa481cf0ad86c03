//! The JSON that passes between a binding and its host: the snapshot of credential
//! references that the host resolves in place, and the hint that lists the secrets
//! a binding depends on.
use serde_json::Value;
use vstd::prelude::*;

use crate::error::{
    transport_error, transport_message, BackendError, BackendErrorView, TransportStep,
};
use crate::text::{opt_text, pair_views, same_text, text_views, PairView};

verus! {

/// A JSON value of the `serde_json` crate.
#[verifier::external_type_specification]
#[verifier::external_body]
pub struct ExValue(serde_json::Value);

/// The members of a JSON object of the `serde_json` crate.
#[verifier::external_type_specification]
#[verifier::external_body]
#[verifier::reject_recursive_types(K)]
#[verifier::reject_recursive_types(V)]
pub struct ExJsonMap<K, V>(serde_json::Map<K, V>);

/// The texts of the members of a JSON object: `None` for a member that is no
/// string.
pub type MembersView = Map<Seq<char>, Option<Seq<char>>>;

/// The members put into an object so far.
pub uninterp spec fn json_members(
    members: serde_json::Map<String, serde_json::Value>,
) -> Map<Seq<char>, Option<Seq<char>>>;

/// The members of a value that is an object; `None` for any other value.
pub uninterp spec fn object_members(value: serde_json::Value) -> Option<
    Map<Seq<char>, Option<Seq<char>>>,
>;

/// The texts of the items of the array that a value holds under a key, `None` for
/// an item that is no string; `None` if the value is no object, has no such member
/// or has one that is no array.
pub uninterp spec fn member_items(value: serde_json::Value, key: Seq<char>) -> Option<
    Seq<Option<Seq<char>>>,
>;

/// An object without members.
pub open spec fn no_members() -> MembersView {
    Map::empty()
}

/// Calls `serde_json::Map::new`: there are no members yet.
#[verifier::external_body]
fn new_members() -> (members: serde_json::Map<String, Value>)
    ensures
        json_members(members) == no_members(),
{
    serde_json::Map::new()
}

/// Calls `serde_json::Map::insert` with a string value: the member `key` takes it
/// in place of an earlier value, and no other member changes.
#[verifier::external_body]
fn insert_text_member(members: &mut serde_json::Map<String, Value>, key: &str, text: &str)
    ensures
        json_members(*final(members)) == json_members(*old(members)).insert(key@, Some(text@)),
{
    members.insert(key.to_owned(), Value::String(text.to_owned()));
}

/// Makes the variant `serde_json::Value::Object` of the members.
#[verifier::external_body]
fn object_of(members: serde_json::Map<String, Value>) -> (value: Value)
    ensures
        object_members(value) == Some(json_members(members)),
{
    Value::Object(members)
}

/// The name and the text of each listed member.
pub open spec fn entry_views(entries: Seq<(String, Option<String>)>) -> Seq<
    (Seq<char>, Option<Seq<char>>),
> {
    entries.map_values(|e: (String, Option<String>)| (e.0@, opt_text(e.1)))
}

/// `entries` lists every member of `members` once and nothing else.
pub open spec fn lists_members(
    entries: Seq<(Seq<char>, Option<Seq<char>>)>,
    members: MembersView,
) -> bool {
    &&& forall|i: int, j: int|
        0 <= i < j < entries.len() ==> (#[trigger] entries[i]).0 != (#[trigger] entries[j]).0
    &&& forall|i: int|
        0 <= i < entries.len() ==> members.contains_key((#[trigger] entries[i]).0)
            && members[entries[i].0] == entries[i].1
    &&& forall|key: Seq<char>| #[trigger]
        members.contains_key(key) ==> entries.contains((key, members[key]))
}

/// Calls `serde_json::Value::as_object`, and `serde_json::Map::iter` on what it
/// gives: each member once, with its text by `serde_json::Value::as_str`; `None` if
/// the value is no object.
#[verifier::external_body]
fn object_entries(value: &Value) -> (entries: Option<Vec<(String, Option<String>)>>)
    ensures
        match entries {
            Some(list) => object_members(*value) matches Some(members) && lists_members(
                entry_views(list@),
                members,
            ),
            None => object_members(*value) is None,
        },
{
    value.as_object().map(
        |m| m.iter().map(|(k, v)| (k.clone(), v.as_str().map(str::to_owned))).collect(),
    )
}

/// The texts of a list of items.
pub open spec fn item_views(items: Seq<Option<String>>) -> Seq<Option<Seq<char>>> {
    items.map_values(|t: Option<String>| opt_text(t))
}

/// Calls `serde_json::Value::get` with a key, and `serde_json::Value::as_array` on
/// what it gives: the items in order, each by `serde_json::Value::as_str`.
#[verifier::external_body]
fn array_member(value: &Value, key: &str) -> (items: Option<Vec<Option<String>>>)
    ensures
        match items {
            Some(list) => member_items(*value, key@) == Some(item_views(list@)),
            None => member_items(*value, key@) is None,
        },
{
    value.get(key).and_then(|v| v.as_array()).map(
        |a| a.iter().map(|v| v.as_str().map(str::to_owned)).collect(),
    )
}

/// The snapshot of the references `uris`: each is a member whose text is the
/// reference itself.
pub open spec fn snapshot_members(uris: Seq<Seq<char>>) -> MembersView {
    Map::new(|u: Seq<char>| uris.contains(u), |u: Seq<char>| Some(u))
}

/// Builds the snapshot that the host resolves in place.
pub fn resolution_snapshot(uris: &Vec<String>) -> (snapshot: Value)
    ensures
        object_members(snapshot) == Some(snapshot_members(text_views(uris@))),
{
    let mut members = new_members();
    let ghost views = text_views(uris@);
    assert(json_members(members) =~= snapshot_members(views.take(0)));
    let mut i: usize = 0;
    while i < uris.len()
        invariant
            i <= uris.len(),
            views == text_views(uris@),
            json_members(members) == snapshot_members(views.take(i as int)),
        decreases uris.len() - i,
    {
        insert_text_member(&mut members, &uris[i], &uris[i]);
        proof {
            let shorter = views.take(i as int);
            let longer = views.take(i + 1);
            assert(longer =~= shorter.push(views[i as int]));
            assert forall|u: Seq<char>| #[trigger] longer.contains(u) <==> shorter.contains(u) || u
                == views[i as int] by {
                if shorter.contains(u) {
                    let k = choose|k: int| 0 <= k < shorter.len() && shorter[k] == u;
                    assert(longer[k] == u);
                }
                assert(longer[i as int] == views[i as int]);
            }
            assert(json_members(members) =~= snapshot_members(longer));
        }
        i += 1;
    }
    assert(views.take(i as int) =~= views);
    object_of(members)
}

/// How the host failed to resolve credentials.
pub enum HostFailure {
    /// A backend of the host failed.
    Backend { cause: BackendError },
    /// Anything else, in words.
    Other { detail: String },
}

/// The error of a call whose credentials the host failed to resolve.
pub open spec fn host_failure_view(failure: HostFailure) -> BackendErrorView {
    match failure {
        HostFailure::Backend { cause } => cause@,
        HostFailure::Other { detail } => BackendErrorView::Transport(
            transport_message(TransportStep::CredentialResolution, detail@),
        ),
    }
}

/// `pairs` lists every member of `members` that is a string once, with its text,
/// and nothing else.
pub open spec fn lists_texts(pairs: Seq<PairView>, members: MembersView) -> bool {
    &&& forall|i: int, j: int|
        0 <= i < j < pairs.len() ==> (#[trigger] pairs[i]).0 != (#[trigger] pairs[j]).0
    &&& forall|key: Seq<char>, text: Seq<char>| #[trigger]
        pairs.contains((key, text)) <==> members.contains_key(key) && members[key] == Some(text)
}

/// The name and the text of each entry that is a string, in order.
pub open spec fn text_pairs(entries: Seq<(Seq<char>, Option<Seq<char>>)>) -> Seq<PairView>
    decreases entries.len(),
{
    if entries.len() == 0 {
        seq![]
    } else {
        let rest = text_pairs(entries.drop_last());
        match entries.last().1 {
            Some(text) => rest.push((entries.last().0, text)),
            None => rest,
        }
    }
}

/// Keeps the entries that are strings, with their texts.
pub fn text_members(entries: Vec<(String, Option<String>)>) -> (pairs: Vec<(String, String)>)
    ensures
        pair_views(pairs@) == text_pairs(entry_views(entries@)),
{
    let mut pairs: Vec<(String, String)> = Vec::new();
    let ghost views = entry_views(entries@);
    assert(pair_views(pairs@) =~= text_pairs(views.take(0)));
    for entry in it: entries
        invariant
            views == entry_views(it.seq()),
            pair_views(pairs@) == text_pairs(views.take(it.index() as int)),
    {
        let ghost i = it.index() as int;
        let ghost before = pair_views(pairs@);
        assert(views.take(i + 1).drop_last() =~= views.take(i));
        assert(views[i] == (entry.0@, opt_text(entry.1)));
        if let Some(text) = entry.1 {
            pairs.push((entry.0, text));
            assert(pair_views(pairs@) =~= before.push((entry.0@, text@)));
        }
    }
    assert(views.take(views.len() as int) =~= views);
    pairs
}

/// The strings among some entries are exactly the entries that are strings, and no name
/// comes twice among them if none does among the entries.
proof fn lemma_text_pairs(entries: Seq<(Seq<char>, Option<Seq<char>>)>)
    ensures
        forall|p: PairView| #[trigger]
            text_pairs(entries).contains(p) <==> entries.contains((p.0, Some(p.1))),
        (forall|i: int, j: int|
            0 <= i < j < entries.len() ==> (#[trigger] entries[i]).0 != (#[trigger] entries[j]).0)
            ==> forall|i: int, j: int|
            0 <= i < j < text_pairs(entries).len() ==> (#[trigger] text_pairs(entries)[i]).0 != (
            #[trigger] text_pairs(entries)[j]).0,
    decreases entries.len(),
{
    if entries.len() > 0 {
        let rest = entries.drop_last();
        let last = entries.last();
        let before = text_pairs(rest);
        let after = text_pairs(entries);
        lemma_text_pairs(rest);
        assert forall|p: PairView| #[trigger] after.contains(p) <==> entries.contains(
            (p.0, Some(p.1)),
        ) by {
            let e = (p.0, Some(p.1));
            if before.contains(p) {
                let k = choose|k: int| 0 <= k < before.len() && before[k] == p;
                assert(after[k] == p);
            }
            if rest.contains(e) {
                let k = choose|k: int| 0 <= k < rest.len() && rest[k] == e;
                assert(entries[k] == e);
            }
            if last == e {
                assert(after[before.len() as int] == p);
                assert(entries[rest.len() as int] == e);
            }
            if after.contains(p) {
                let k = choose|k: int| 0 <= k < after.len() && after[k] == p;
                assert(k < before.len() ==> before[k] == p);
            }
            if entries.contains(e) {
                let k = choose|k: int| 0 <= k < entries.len() && entries[k] == e;
                assert(k < rest.len() ==> rest[k] == e);
            }
            assert(before.contains(p) <==> rest.contains(e));
        }
        if forall|i: int, j: int|
            0 <= i < j < entries.len() ==> (#[trigger] entries[i]).0 != (#[trigger] entries[j]).0 {
            assert forall|i: int, j: int| 0 <= i < j < rest.len() implies (#[trigger] rest[i]).0
                != (#[trigger] rest[j]).0 by {
                assert(entries[i].0 != entries[j].0);
            }
            assert forall|k: int| 0 <= k < before.len() implies (#[trigger] before[k]).0
                != last.0 by {
                assert(before.contains(before[k]));
                let m = choose|m: int|
                    0 <= m < rest.len() && rest[m] == (before[k].0, Some(before[k].1));
                assert(entries[m].0 != entries[rest.len() as int].0);
            }
        }
    }
}

/// The strings among the listed members of an object are its strings.
proof fn lemma_listed_texts(
    entries: Seq<(Seq<char>, Option<Seq<char>>)>,
    members: MembersView,
)
    requires
        lists_members(entries, members),
    ensures
        lists_texts(text_pairs(entries), members),
{
    lemma_text_pairs(entries);
    assert forall|key: Seq<char>, text: Seq<char>| #[trigger]
        text_pairs(entries).contains((key, text)) <==> members.contains_key(key) && members[key]
            == Some(text) by {
        let p = (key, text);
        assert(text_pairs(entries).contains(p) <==> entries.contains((p.0, Some(p.1))));
        if entries.contains((key, Some(text))) {
            let k = choose|k: int| 0 <= k < entries.len() && entries[k] == (key, Some(text));
            assert(members.contains_key(entries[k].0));
        }
    }
}

/// Reads the host's reply: the text of every reference it resolved to a string.
/// `reply` is the snapshot as the host left it, or why it failed.
pub fn resolved_values(reply: Result<&Value, HostFailure>) -> (result: Result<
    Vec<(String, String)>,
    BackendError,
>)
    ensures
        match reply {
            Ok(snapshot) => match object_members(*snapshot) {
                Some(members) => result matches Ok(pairs) && lists_texts(
                    pair_views(pairs@),
                    members,
                ),
                None => result matches Err(e) && e@ == BackendErrorView::Transport(
                    "credential resolver mutated snapshot to non-object"@,
                ),
            },
            Err(failure) => result matches Err(e) && e@ == host_failure_view(failure),
        },
{
    match reply {
        Ok(snapshot) => match object_entries(snapshot) {
            Some(entries) => {
                proof {
                    lemma_listed_texts(entry_views(entries@), object_members(*snapshot)->0);
                }
                Ok(text_members(entries))
            },
            None => Err(
                BackendError::Transport {
                    message: "credential resolver mutated snapshot to non-object".to_owned(),
                },
            ),
        },
        Err(failure) => Err(
            match failure {
                HostFailure::Backend { cause } => cause,
                HostFailure::Other { detail } => transport_error(
                    &TransportStep::CredentialResolution,
                    &detail,
                ),
            },
        ),
    }
}

/// The texts among `items`, in order.
pub open spec fn texts_of(items: Seq<Option<Seq<char>>>) -> Seq<Seq<char>>
    decreases items.len(),
{
    if items.len() == 0 {
        seq![]
    } else {
        let rest = texts_of(items.drop_last());
        match items.last() {
            Some(text) => rest.push(text),
            None => rest,
        }
    }
}

/// Keeps the items that are strings.
pub fn text_items(items: Vec<Option<String>>) -> (texts: Vec<String>)
    ensures
        text_views(texts@) == texts_of(item_views(items@)),
{
    let mut texts: Vec<String> = Vec::new();
    let ghost views = item_views(items@);
    assert(text_views(texts@) =~= texts_of(views.take(0)));
    for item in it: items
        invariant
            views == item_views(it.seq()),
            text_views(texts@) == texts_of(views.take(it.index() as int)),
    {
        let ghost i = it.index() as int;
        let ghost before = text_views(texts@);
        assert(views.take(i + 1).drop_last() =~= views.take(i));
        assert(views[i] == opt_text(item));
        if let Some(text) = item {
            texts.push(text);
            assert(text_views(texts@) =~= before.push(text@));
        }
    }
    assert(views.take(views.len() as int) =~= views);
    texts
}

/// The secrets among the items of a list, if there is one: its strings.
pub open spec fn listed_secrets(items: Option<Seq<Option<Seq<char>>>>) -> Seq<Seq<char>> {
    match items {
        Some(items) => texts_of(items),
        None => seq![],
    }
}

/// The secrets a binding depends on: the strings that the gateway lists under
/// `__mcpg_secret_refs` in the binding spec.
pub fn rotation_secret_refs(spec: &Value) -> (refs: Vec<String>)
    ensures
        text_views(refs@) == listed_secrets(member_items(*spec, "__mcpg_secret_refs"@)),
{
    match array_member(spec, "__mcpg_secret_refs") {
        Some(items) => text_items(items),
        None => {
            let refs: Vec<String> = Vec::new();
            assert(text_views(refs@) =~= seq![]);
            refs
        },
    }
}

/// Whether the rotation of `secret_ref` concerns a binding that depends on `refs`.
pub fn rotation_applies(refs: &Vec<String>, secret_ref: &str) -> (b: bool)
    ensures
        b == text_views(refs@).contains(secret_ref@),
{
    let ghost views = text_views(refs@);
    let mut i: usize = 0;
    while i < refs.len()
        invariant
            i <= refs.len(),
            views == text_views(refs@),
            forall|j: int| 0 <= j < i ==> views[j] != secret_ref@,
        decreases refs.len() - i,
    {
        assert(views[i as int] == refs@[i as int]@);
        if same_text(&refs[i], secret_ref) {
            return true;
        }
        i += 1;
    }
    false
}


/// The snapshot of some references holds each of them as a member that stands for itself, and
/// no other member.
pub proof fn law_snapshot_lists_the_references(
    uris: Vec<String>,
    snapshot: Value,
    member: Seq<char>,
)
    requires
        call_ensures(resolution_snapshot, (&uris,), snapshot),
    ensures
        object_members(snapshot) matches Some(members) && {
            &&& members.contains_key(member) <==> exists|i: int|
                0 <= i < uris@.len() && (#[trigger] uris@[i])@ == member
            &&& members.contains_key(member) ==> members[member] == Some(member)
        },
{
    let views = text_views(uris@);
    assert forall|i: int| 0 <= i < uris@.len() implies (#[trigger] uris@[i])@ == views[i] by {}
    if views.contains(member) {
        let i = choose|i: int| 0 <= i < views.len() && views[i] == member;
        assert(uris@[i]@ == member);
    }
}

/// What is read from a snapshot that the host left as an object: every member that is a string
/// once, with its text, and nothing else.
pub proof fn law_reply_gives_its_strings(
    reply: Value,
    members: MembersView,
    result: Result<Vec<(String, String)>, BackendError>,
    key: Seq<char>,
    text: Seq<char>,
)
    requires
        call_ensures(resolved_values, (Ok(&reply),), result),
        object_members(reply) == Some(members),
    ensures
        result matches Ok(pairs) && {
            &&& members.contains_key(key) && members[key] == Some(text) <==> exists|i: int|
                0 <= i < pairs@.len() && (#[trigger] pairs@[i]).0@ == key && pairs@[i].1@ == text
            &&& forall|i: int, j: int|
                0 <= i < j < pairs@.len() ==> (#[trigger] pairs@[i]).0@ != (#[trigger] pairs@[j]).0@
        },
{
    let pairs = result->Ok_0;
    let views = pair_views(pairs@);
    assert forall|i: int| 0 <= i < pairs@.len() implies views[i] == (
        (#[trigger] pairs@[i]).0@,
        pairs@[i].1@,
    ) by {}
    assert(views.contains((key, text)) <==> members.contains_key(key) && members[key] == Some(
        text,
    ));
    if views.contains((key, text)) {
        let i = choose|i: int| 0 <= i < views.len() && views[i] == (key, text);
        assert(pairs@[i].0@ == key);
    }
}

/// What is read from a host that failed: the failure of a backend comes back as it is, anything
/// else and a snapshot that is no object are transport failures.
pub proof fn law_host_failures_are_passed_on(
    reply: Value,
    read: Result<Vec<(String, String)>, BackendError>,
    cause: BackendError,
    backend: Result<Vec<(String, String)>, BackendError>,
    detail: String,
    other: Result<Vec<(String, String)>, BackendError>,
)
    requires
        object_members(reply) is None,
        call_ensures(resolved_values, (Ok(&reply),), read),
        call_ensures(resolved_values, (Err(HostFailure::Backend { cause }),), backend),
        call_ensures(resolved_values, (Err(HostFailure::Other { detail }),), other),
    ensures
        read matches Err(BackendError::Transport { message }) && message@
            == "credential resolver mutated snapshot to non-object"@,
        backend matches Err(e) && e@ == cause@,
        other matches Err(BackendError::Transport { message }) && message@
            == "credential resolution: "@ + detail@,
{
}

/// Of listed members those that are strings are kept, in order, with their texts: those of two
/// lists in a row are those of the one and then those of the other.
pub proof fn law_string_members_are_kept_in_order(
    a: Seq<(Seq<char>, Option<Seq<char>>)>,
    b: Seq<(Seq<char>, Option<Seq<char>>)>,
    name: Seq<char>,
    text: Seq<char>,
)
    ensures
        text_pairs(Seq::empty()) == Seq::<PairView>::empty(),
        text_pairs(seq![(name, Some(text))]) == seq![(name, text)],
        text_pairs(seq![(name, None)]) == Seq::<PairView>::empty(),
        text_pairs(a + b) == text_pairs(a) + text_pairs(b),
    decreases b.len(),
{
    reveal_with_fuel(text_pairs, 2);
    assert(seq![(name, Some(text))].drop_last() =~= Seq::empty());
    assert(seq![(name, None::<Seq<char>>)].drop_last() =~= Seq::empty());
    if b.len() == 0 {
        assert(a + b =~= a);
        assert(text_pairs(a) + text_pairs(b) =~= text_pairs(a));
    } else {
        law_string_members_are_kept_in_order(a, b.drop_last(), name, text);
        assert((a + b).drop_last() =~= a + b.drop_last());
        assert(text_pairs(a + b) =~= text_pairs(a) + text_pairs(b));
    }
}

/// Of listed items those that are strings are kept, in order: those of two lists in a row are
/// those of the one and then those of the other.
pub proof fn law_string_items_are_kept_in_order(
    a: Seq<Option<Seq<char>>>,
    b: Seq<Option<Seq<char>>>,
    text: Seq<char>,
)
    ensures
        texts_of(Seq::empty()) == Seq::<Seq<char>>::empty(),
        texts_of(seq![Some(text)]) == seq![text],
        texts_of(seq![None]) == Seq::<Seq<char>>::empty(),
        texts_of(a + b) == texts_of(a) + texts_of(b),
    decreases b.len(),
{
    reveal_with_fuel(texts_of, 2);
    assert(seq![Some(text)].drop_last() =~= Seq::empty());
    assert(seq![None::<Seq<char>>].drop_last() =~= Seq::empty());
    if b.len() == 0 {
        assert(a + b =~= a);
        assert(texts_of(a) + texts_of(b) =~= texts_of(a));
    } else {
        law_string_items_are_kept_in_order(a, b.drop_last(), text);
        assert((a + b).drop_last() =~= a + b.drop_last());
        assert(texts_of(a + b) =~= texts_of(a) + texts_of(b));
    }
}

/// Listed members and items are taken as they are.
pub proof fn law_listings_are_taken_as_they_are(
    entries: Seq<(String, Option<String>)>,
    items: Seq<Option<String>>,
)
    ensures
        entry_views(entries).len() == entries.len(),
        forall|i: int|
            0 <= i < entries.len() ==> #[trigger] entry_views(entries)[i] == (
                entries[i].0@,
                opt_text(entries[i].1),
            ),
        item_views(items).len() == items.len(),
        forall|i: int|
            0 <= i < items.len() ==> #[trigger] item_views(items)[i] == opt_text(items[i]),
{
}

/// A binding depends on a secret if and only if the gateway lists it, as a string, under
/// `__mcpg_secret_refs`, and a rotation concerns it if and only if it depends on the secret.
pub proof fn law_rotation_concerns_listed_secrets(
    spec: Value,
    refs: Vec<String>,
    secret_ref: &str,
    applies: bool,
)
    requires
        call_ensures(rotation_secret_refs, (&spec,), refs),
        call_ensures(rotation_applies, (&refs, secret_ref), applies),
    ensures
        applies <==> (member_items(spec, "__mcpg_secret_refs"@) matches Some(items)
            && items.contains(Some(secret_ref@))),
        member_items(spec, "__mcpg_secret_refs"@) matches Some(items) ==> text_views(refs@)
            == texts_of(items),
        member_items(spec, "__mcpg_secret_refs"@) is None ==> refs@.len() == 0,
{
    match member_items(spec, "__mcpg_secret_refs"@) {
        Some(items) => {
            lemma_texts_of(items, secret_ref@);
        },
        None => {
            assert(refs@.len() == text_views(refs@).len());
        },
    }
}

/// The texts among some items are exactly the items that are strings.
pub(crate) proof fn lemma_texts_of(items: Seq<Option<Seq<char>>>, text: Seq<char>)
    ensures
        texts_of(items).contains(text) <==> items.contains(Some(text)),
    decreases items.len(),
{
    if items.len() > 0 {
        let rest = items.drop_last();
        lemma_texts_of(rest, text);
        let before = texts_of(rest);
        let after = texts_of(items);
        if before.contains(text) {
            let k = choose|k: int| 0 <= k < before.len() && before[k] == text;
            let m = choose|m: int| 0 <= m < rest.len() && rest[m] == Some(text);
            assert(after[k] == text);
            assert(items[m] == Some(text));
        } else if items.last() == Some(text) {
            assert(after[before.len() as int] == text);
            assert(items[rest.len() as int] == Some(text));
        } else {
            if after.contains(text) {
                let k = choose|k: int| 0 <= k < after.len() && after[k] == text;
                assert(k < before.len() ==> before[k] == text);
            }
            if items.contains(Some(text)) {
                let m = choose|m: int| 0 <= m < items.len() && items[m] == Some(text);
                assert(m < rest.len() ==> rest[m] == Some(text));
            }
        }
    }
}

} // verus!
