//! Credential tokens in connection parameters: the references they name, and the
//! keys a client that depends on them is revoked under.
//!
//! Only a token of the form `${cred://issuer/target}` is a credential reference. A
//! bare `cred://…` is plain text. The tokens of a string, the values put in their
//! place, and the key a reference is revoked under come from the gateway's plugin
//! protocol.
use vstd::prelude::*;

use crate::text::{
    law_text_order_total, law_text_order_transitive, pair_view, pair_views, same_text,
    text_before, text_less, text_views, PairView,
};

verus! {

/// A credential token in a string.
#[derive(Debug)]
pub struct CredToken {
    /// The `cred://…` reference inside the token.
    pub uri: String,
    /// The `(plugin_id, target)` of the reference, if it parses as one.
    pub key: Option<(String, String)>,
}

/// What a [`CredToken`] says, as text.
pub ghost struct CredTokenView {
    /// See [`CredToken::uri`].
    pub uri: Seq<char>,
    /// See [`CredToken::key`].
    pub key: Option<PairView>,
}

impl View for CredToken {
    type V = CredTokenView;

    open spec fn view(&self) -> CredTokenView {
        CredTokenView {
            uri: self.uri@,
            key: match self.key {
                Some(k) => Some(pair_view(k)),
                None => None,
            },
        }
    }
}

/// What a list of tokens says.
pub open spec fn token_views(tokens: Seq<CredToken>) -> Seq<CredTokenView> {
    tokens.map_values(|t: CredToken| t@)
}

/// The credential tokens of the connection parameters of a binding spec. A
/// parameter that is not given has none.
#[derive(Debug)]
pub struct CredTokens {
    /// Those of `bootstrap_servers`.
    pub bootstrap_servers: Vec<CredToken>,
    /// Those of `sasl_username`.
    pub sasl_username: Vec<CredToken>,
    /// Those of `sasl_password`.
    pub sasl_password: Vec<CredToken>,
}

/// What [`CredTokens`] say.
pub ghost struct CredTokensView {
    /// See [`CredTokens::bootstrap_servers`].
    pub bootstrap_servers: Seq<CredTokenView>,
    /// See [`CredTokens::sasl_username`].
    pub sasl_username: Seq<CredTokenView>,
    /// See [`CredTokens::sasl_password`].
    pub sasl_password: Seq<CredTokenView>,
}

impl View for CredTokens {
    type V = CredTokensView;

    open spec fn view(&self) -> CredTokensView {
        CredTokensView {
            bootstrap_servers: token_views(self.bootstrap_servers@),
            sasl_username: token_views(self.sasl_username@),
            sasl_password: token_views(self.sasl_password@),
        }
    }
}

impl CredTokensView {
    /// The tokens of all three parameters.
    pub open spec fn all(self) -> Seq<CredTokenView> {
        self.bootstrap_servers + self.sasl_username + self.sasl_password
    }

    /// `uri` is the reference of some token.
    pub open spec fn names_uri(self, uri: Seq<char>) -> bool {
        exists|i: int| 0 <= i < self.all().len() && (#[trigger] self.all()[i]).uri == uri
    }

    /// `key` is what the reference of some token is revoked under.
    pub open spec fn names_key(self, key: PairView) -> bool {
        exists|i: int| 0 <= i < self.all().len() && (#[trigger] self.all()[i]).key == Some(key)
    }
}

/// Whether a binding spec with these tokens has to be resolved per caller.
pub fn spec_has_cred_refs(tokens: &CredTokens) -> (b: bool)
    ensures
        b == (tokens@.all().len() > 0),
{
    tokens.bootstrap_servers.len() > 0 || tokens.sasl_username.len() > 0
        || tokens.sasl_password.len() > 0
}

/// Each text comes strictly before the next.
pub open spec fn ascending(texts: Seq<Seq<char>>) -> bool {
    forall|i: int, j: int|
        0 <= i < j < texts.len() ==> text_less(#[trigger] texts[i], #[trigger] texts[j])
}

/// `a` comes strictly before `b`, by the first text and then by the second.
pub open spec fn pair_less(a: PairView, b: PairView) -> bool {
    text_less(a.0, b.0) || (a.0 == b.0 && text_less(a.1, b.1))
}

/// Each pair comes strictly before the next.
pub open spec fn pairs_ascending(pairs: Seq<PairView>) -> bool {
    forall|i: int, j: int|
        0 <= i < j < pairs.len() ==> pair_less(#[trigger] pairs[i], #[trigger] pairs[j])
}

/// Puts `text` into an ascending list, unless it is there already.
fn insert_text(sorted: &mut Vec<String>, text: &str)
    requires
        ascending(text_views(old(sorted)@)),
    ensures
        ascending(text_views(final(sorted)@)),
        forall|t: Seq<char>| #[trigger]
            text_views(final(sorted)@).contains(t) <==> text_views(old(sorted)@).contains(t) || t
                == text@,
{
    let ghost before = text_views(sorted@);
    let mut at: usize = 0;
    while at < sorted.len() && text_before(&sorted[at], text)
        invariant
            at <= sorted.len(),
            before == text_views(sorted@),
            forall|j: int| 0 <= j < at ==> text_less(#[trigger] before[j], text@),
        decreases sorted.len() - at,
    {
        at += 1;
    }
    if at < sorted.len() && same_text(&sorted[at], text) {
        assert(before[at as int] == text@);
        return;
    }
    sorted.insert(at, text.to_owned());
    proof {
        let after = text_views(sorted@);
        assert(after =~= before.insert(at as int, text@));
        if at < before.len() {
            law_text_order_total(before[at as int], text@);
        }
        assert forall|j: int| at <= j < before.len() implies text_less(
            text@,
            #[trigger] before[j],
        ) by {
            if j > at {
                law_text_order_transitive(text@, before[at as int], before[j]);
            }
        }
        assert forall|i: int, j: int| 0 <= i < j < after.len() implies text_less(
            #[trigger] after[i],
            #[trigger] after[j],
        ) by {
            let bi = if i < at { i } else { i - 1 };
            let bj = if j < at { j } else { j - 1 };
            if i != at && j != at {
                assert(text_less(before[bi], before[bj]));
            }
        }
        assert forall|t: Seq<char>| #[trigger] after.contains(t) <==> before.contains(t) || t
            == text@ by {
            if after.contains(t) {
                let i = choose|i: int| 0 <= i < after.len() && after[i] == t;
                if i < at {
                    assert(before[i] == t);
                } else if i > at {
                    assert(before[i - 1] == t);
                }
            }
            if before.contains(t) {
                let i = choose|i: int| 0 <= i < before.len() && before[i] == t;
                assert(after[if i < at { i } else { i + 1 }] == t);
            }
            assert(after[at as int] == text@);
        }
    }
}

/// Puts the references of `tokens` into an ascending list.
fn insert_uris(sorted: &mut Vec<String>, tokens: &Vec<CredToken>)
    requires
        ascending(text_views(old(sorted)@)),
    ensures
        ascending(text_views(final(sorted)@)),
        forall|u: Seq<char>| #[trigger]
            text_views(final(sorted)@).contains(u) <==> {
                ||| text_views(old(sorted)@).contains(u)
                ||| exists|i: int|
                    0 <= i < tokens@.len() && (#[trigger] token_views(tokens@)[i]).uri == u
            },
{
    let ghost before = text_views(sorted@);
    let ghost views = token_views(tokens@);
    let mut i: usize = 0;
    while i < tokens.len()
        invariant
            i <= tokens.len(),
            views == token_views(tokens@),
            ascending(text_views(sorted@)),
            forall|u: Seq<char>| #[trigger]
                text_views(sorted@).contains(u) <==> {
                    ||| before.contains(u)
                    ||| exists|j: int| 0 <= j < i && (#[trigger] views[j]).uri == u
                },
        decreases tokens.len() - i,
    {
        let ghost so_far = text_views(sorted@);
        insert_text(sorted, &tokens[i].uri);
        assert(views[i as int].uri == tokens@[i as int].uri@);
        assert forall|u: Seq<char>| #[trigger] text_views(sorted@).contains(u) <==> {
            ||| before.contains(u)
            ||| exists|j: int| 0 <= j < i + 1 && (#[trigger] views[j]).uri == u
        } by {
            assert(text_views(sorted@).contains(u) <==> so_far.contains(u) || u
                == views[i as int].uri);
        }
        i += 1;
    }
}

/// The references of all tokens: each once, in ascending order.
pub fn collect_cred_uris(tokens: &CredTokens) -> (uris: Vec<String>)
    ensures
        ascending(text_views(uris@)),
        forall|u: Seq<char>| #[trigger] text_views(uris@).contains(u) <==> tokens@.names_uri(u),
{
    let mut uris: Vec<String> = Vec::new();
    insert_uris(&mut uris, &tokens.bootstrap_servers);
    insert_uris(&mut uris, &tokens.sasl_username);
    insert_uris(&mut uris, &tokens.sasl_password);
    proof {
        let v = tokens@;
        let m = v.bootstrap_servers.len() as int;
        let n = m + v.sasl_username.len();
        assert forall|u: Seq<char>| #[trigger] text_views(uris@).contains(u) <==> v.names_uri(
            u,
        ) by {
            if v.names_uri(u) {
                let i = choose|i: int| 0 <= i < v.all().len() && (#[trigger] v.all()[i]).uri == u;
                if i < m {
                    assert(v.bootstrap_servers[i].uri == u);
                } else if i < n {
                    assert(v.sasl_username[i - m].uri == u);
                } else {
                    assert(v.sasl_password[i - n].uri == u);
                }
            }
            assert(forall|i: int|
                0 <= i < m ==> #[trigger] v.bootstrap_servers[i] == v.all()[i]);
            assert(forall|i: int|
                0 <= i < v.sasl_username.len() ==> #[trigger] v.sasl_username[i] == v.all()[m + i]);
            assert(forall|i: int|
                0 <= i < v.sasl_password.len() ==> #[trigger] v.sasl_password[i] == v.all()[n + i]);
        }
    }
    uris
}

/// Whether the pair `a` comes strictly before the pair `b`.
fn pair_before(a: &(String, String), b: &(String, String)) -> (before: bool)
    ensures
        before == pair_less(pair_view(*a), pair_view(*b)),
{
    text_before(&a.0, &b.0) || (same_text(&a.0, &b.0) && text_before(&a.1, &b.1))
}

/// Of two different pairs one comes before the other.
proof fn lemma_pair_order_total(a: PairView, b: PairView)
    ensures
        a == b || pair_less(a, b) || pair_less(b, a),
{
    law_text_order_total(a.0, b.0);
    law_text_order_total(a.1, b.1);
}

/// The order of pairs is transitive.
proof fn lemma_pair_order_transitive(a: PairView, b: PairView, c: PairView)
    requires
        pair_less(a, b),
        pair_less(b, c),
    ensures
        pair_less(a, c),
{
    if text_less(a.0, b.0) && text_less(b.0, c.0) {
        law_text_order_transitive(a.0, b.0, c.0);
    }
    if text_less(a.1, b.1) && text_less(b.1, c.1) {
        law_text_order_transitive(a.1, b.1, c.1);
    }
}

/// Puts `pair` into an ascending list, unless it is there already.
fn insert_pair(sorted: &mut Vec<(String, String)>, pair: &(String, String))
    requires
        pairs_ascending(pair_views(old(sorted)@)),
    ensures
        pairs_ascending(pair_views(final(sorted)@)),
        forall|p: PairView| #[trigger]
            pair_views(final(sorted)@).contains(p) <==> pair_views(old(sorted)@).contains(p) || p
                == pair_view(*pair),
{
    let ghost before = pair_views(sorted@);
    let ghost new = pair_view(*pair);
    let mut at: usize = 0;
    while at < sorted.len() && pair_before(&sorted[at], pair)
        invariant
            at <= sorted.len(),
            before == pair_views(sorted@),
            new == pair_view(*pair),
            forall|j: int| 0 <= j < at ==> pair_less(#[trigger] before[j], new),
        decreases sorted.len() - at,
    {
        at += 1;
    }
    if at < sorted.len() && same_text(&sorted[at].0, &pair.0) && same_text(&sorted[at].1, &pair.1) {
        assert(before[at as int] == new);
        return;
    }
    sorted.insert(at, (pair.0.clone(), pair.1.clone()));
    proof {
        let after = pair_views(sorted@);
        assert(after =~= before.insert(at as int, new));
        if at < before.len() {
            lemma_pair_order_total(before[at as int], new);
        }
        assert forall|j: int| at <= j < before.len() implies pair_less(
            new,
            #[trigger] before[j],
        ) by {
            if j > at {
                lemma_pair_order_transitive(new, before[at as int], before[j]);
            }
        }
        assert forall|i: int, j: int| 0 <= i < j < after.len() implies pair_less(
            #[trigger] after[i],
            #[trigger] after[j],
        ) by {
            let bi = if i < at { i } else { i - 1 };
            let bj = if j < at { j } else { j - 1 };
            if i != at && j != at {
                assert(pair_less(before[bi], before[bj]));
            }
        }
        assert forall|p: PairView| #[trigger] after.contains(p) <==> before.contains(p) || p
            == new by {
            if after.contains(p) {
                let i = choose|i: int| 0 <= i < after.len() && after[i] == p;
                if i < at {
                    assert(before[i] == p);
                } else if i > at {
                    assert(before[i - 1] == p);
                }
            }
            if before.contains(p) {
                let i = choose|i: int| 0 <= i < before.len() && before[i] == p;
                assert(after[if i < at { i } else { i + 1 }] == p);
            }
            assert(after[at as int] == new);
        }
    }
}

/// Puts the keys of `tokens` into an ascending list.
fn insert_keys(sorted: &mut Vec<(String, String)>, tokens: &Vec<CredToken>)
    requires
        pairs_ascending(pair_views(old(sorted)@)),
    ensures
        pairs_ascending(pair_views(final(sorted)@)),
        forall|k: PairView| #[trigger]
            pair_views(final(sorted)@).contains(k) <==> {
                ||| pair_views(old(sorted)@).contains(k)
                ||| exists|i: int|
                    0 <= i < tokens@.len() && (#[trigger] token_views(tokens@)[i]).key == Some(k)
            },
{
    let ghost before = pair_views(sorted@);
    let ghost views = token_views(tokens@);
    let mut i: usize = 0;
    while i < tokens.len()
        invariant
            i <= tokens.len(),
            views == token_views(tokens@),
            pairs_ascending(pair_views(sorted@)),
            forall|k: PairView| #[trigger]
                pair_views(sorted@).contains(k) <==> {
                    ||| before.contains(k)
                    ||| exists|j: int| 0 <= j < i && (#[trigger] views[j]).key == Some(k)
                },
        decreases tokens.len() - i,
    {
        let ghost so_far = pair_views(sorted@);
        assert(views[i as int] == tokens@[i as int]@);
        if let Some(key) = &tokens[i].key {
            insert_pair(sorted, key);
        }
        assert forall|k: PairView| #[trigger] pair_views(sorted@).contains(k) <==> {
            ||| before.contains(k)
            ||| exists|j: int| 0 <= j < i + 1 && (#[trigger] views[j]).key == Some(k)
        } by {
            assert(pair_views(sorted@).contains(k) <==> so_far.contains(k) || views[i as int].key
                == Some(k));
        }
        i += 1;
    }
}

/// The `(plugin_id, target)` keys under which a client that these tokens lead to is
/// revoked: each once, in ascending order. A reference that does not parse has
/// none.
pub fn collect_cred_keys(tokens: &CredTokens) -> (keys: Vec<(String, String)>)
    ensures
        pairs_ascending(pair_views(keys@)),
        forall|k: PairView| #[trigger] pair_views(keys@).contains(k) <==> tokens@.names_key(k),
{
    let mut keys: Vec<(String, String)> = Vec::new();
    insert_keys(&mut keys, &tokens.bootstrap_servers);
    insert_keys(&mut keys, &tokens.sasl_username);
    insert_keys(&mut keys, &tokens.sasl_password);
    proof {
        let v = tokens@;
        let m = v.bootstrap_servers.len() as int;
        let n = m + v.sasl_username.len();
        assert forall|k: PairView| #[trigger] pair_views(keys@).contains(k) <==> v.names_key(
            k,
        ) by {
            if v.names_key(k) {
                let i = choose|i: int|
                    0 <= i < v.all().len() && (#[trigger] v.all()[i]).key == Some(k);
                if i < m {
                    assert(v.bootstrap_servers[i].key == Some(k));
                } else if i < n {
                    assert(v.sasl_username[i - m].key == Some(k));
                } else {
                    assert(v.sasl_password[i - n].key == Some(k));
                }
            }
            assert(forall|i: int|
                0 <= i < m ==> #[trigger] v.bootstrap_servers[i] == v.all()[i]);
            assert(forall|i: int|
                0 <= i < v.sasl_username.len() ==> #[trigger] v.sasl_username[i] == v.all()[m + i]);
            assert(forall|i: int|
                0 <= i < v.sasl_password.len() ==> #[trigger] v.sasl_password[i] == v.all()[n + i]);
        }
    }
    keys
}


/// The references and the keys of a binding are those of the tokens of its three connection
/// parameters, and of no others.
pub proof fn law_references_are_those_of_the_tokens(
    tokens: CredTokens,
    uri: Seq<char>,
    key: PairView,
)
    ensures
        tokens@.names_uri(uri) <==> {
            ||| exists|i: int|
                0 <= i < tokens.bootstrap_servers@.len() && (
                #[trigger] tokens.bootstrap_servers@[i]).uri@ == uri
            ||| exists|i: int|
                0 <= i < tokens.sasl_username@.len() && (#[trigger] tokens.sasl_username@[i]).uri@
                    == uri
            ||| exists|i: int|
                0 <= i < tokens.sasl_password@.len() && (#[trigger] tokens.sasl_password@[i]).uri@
                    == uri
        },
        tokens@.names_key(key) <==> {
            ||| exists|i: int|
                0 <= i < tokens.bootstrap_servers@.len() && ((
                #[trigger] tokens.bootstrap_servers@[i]).key matches Some(k) && k.0@ == key.0
                    && k.1@ == key.1)
            ||| exists|i: int|
                0 <= i < tokens.sasl_username@.len() && ((
                #[trigger] tokens.sasl_username@[i]).key matches Some(k) && k.0@ == key.0 && k.1@
                    == key.1)
            ||| exists|i: int|
                0 <= i < tokens.sasl_password@.len() && ((
                #[trigger] tokens.sasl_password@[i]).key matches Some(k) && k.0@ == key.0 && k.1@
                    == key.1)
        },
{
    let v = tokens@;
    let b = tokens.bootstrap_servers@;
    let u = tokens.sasl_username@;
    let p = tokens.sasl_password@;
    let m = b.len() as int;
    let n = m + u.len();
    assert(v.all().len() == n + p.len());
    assert forall|i: int| 0 <= i < v.all().len() implies #[trigger] v.all()[i] == if i < m {
        b[i]@
    } else if i < n {
        u[i - m]@
    } else {
        p[i - n]@
    } by {}
    assert forall|i: int| 0 <= i < m implies (#[trigger] b[i])@ == v.all()[i] by {}
    assert forall|i: int| 0 <= i < u.len() implies (#[trigger] u[i])@ == v.all()[m + i] by {}
    assert forall|i: int| 0 <= i < p.len() implies (#[trigger] p[i])@ == v.all()[n + i] by {}
}

/// A binding is resolved per caller if and only if some connection parameter holds a token.
pub proof fn law_tokens_ask_for_resolution(tokens: CredTokens, resolves: bool)
    requires
        call_ensures(spec_has_cred_refs, (&tokens,), resolves),
    ensures
        resolves <==> tokens.bootstrap_servers@.len() > 0 || tokens.sasl_username@.len() > 0
            || tokens.sasl_password@.len() > 0,
{
}

/// The collected references are those of the tokens, none twice, in ascending order.
pub proof fn law_collected_references(tokens: CredTokens, uris: Vec<String>, uri: String)
    requires
        call_ensures(collect_cred_uris, (&tokens,), uris),
    ensures
        tokens@.names_uri(uri@) <==> exists|i: int|
            0 <= i < uris@.len() && (#[trigger] uris@[i])@ == uri@,
        forall|i: int, j: int|
            0 <= i < j < uris@.len() ==> text_less((#[trigger] uris@[i])@, (#[trigger] uris@[j])@),
{
    let views = text_views(uris@);
    assert forall|i: int| 0 <= i < uris@.len() implies (#[trigger] uris@[i])@ == views[i] by {}
    assert(views.contains(uri@) <==> tokens@.names_uri(uri@));
    if views.contains(uri@) {
        let i = choose|i: int| 0 <= i < views.len() && views[i] == uri@;
        assert(uris@[i]@ == uri@);
    }
}

/// The collected keys are those of the tokens, none twice, in ascending order: by plugin and,
/// for one plugin, by target.
pub proof fn law_collected_keys(
    tokens: CredTokens,
    keys: Vec<(String, String)>,
    key: (String, String),
)
    requires
        call_ensures(collect_cred_keys, (&tokens,), keys),
    ensures
        tokens@.names_key((key.0@, key.1@)) <==> exists|i: int|
            0 <= i < keys@.len() && (#[trigger] keys@[i]).0@ == key.0@ && keys@[i].1@ == key.1@,
        forall|i: int, j: int|
            0 <= i < j < keys@.len() ==> {
                ||| text_less((#[trigger] keys@[i]).0@, (#[trigger] keys@[j]).0@)
                ||| keys@[i].0@ == keys@[j].0@ && text_less(keys@[i].1@, keys@[j].1@)
            },
{
    let views = pair_views(keys@);
    let wanted = (key.0@, key.1@);
    assert forall|i: int| 0 <= i < keys@.len() implies views[i] == (
        (#[trigger] keys@[i]).0@,
        keys@[i].1@,
    ) by {}
    assert(views.contains(wanted) <==> tokens@.names_key(wanted));
    if views.contains(wanted) {
        let i = choose|i: int| 0 <= i < views.len() && views[i] == wanted;
        assert(keys@[i].0@ == key.0@);
    }
    assert forall|i: int, j: int| 0 <= i < j < keys@.len() implies {
        ||| text_less((#[trigger] keys@[i]).0@, (#[trigger] keys@[j]).0@)
        ||| keys@[i].0@ == keys@[j].0@ && text_less(keys@[i].1@, keys@[j].1@)
    } by {
        assert(pair_less(views[i], views[j]));
    }
}

} // verus!
