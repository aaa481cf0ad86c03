//! BLAKE3 digests that identify a resolved credential bundle.
use vstd::prelude::*;
use vstd::string::*;
use vstd::utf8::*;

use crate::text::{
    law_text_order_irreflexive, law_text_order_total, law_text_order_transitive, pair_view,
    pair_views, text_before, text_less, PairView,
};

verus! {

/// The 32-byte BLAKE3 digest of a resolved credential bundle.
pub type CredDigest = [u8; 32];

/// The BLAKE3 digest of `input`.
pub uninterp spec fn blake3_hash(input: Seq<u8>) -> Seq<u8>;

/// Calls `blake3::hash`, the default hash function of the `blake3` crate. The
/// digest is a function of the input bytes alone; nothing else is claimed.
#[verifier::external_body]
fn hash_bytes(input: &[u8]) -> (digest: CredDigest)
    ensures
        digest@ == blake3_hash(input@),
{
    blake3::hash(input).into()
}

/// `pair` placed into `sorted` behind every pair whose key does not come after
/// its own.
pub open spec fn insert_by_key(sorted: Seq<PairView>, pair: PairView) -> Seq<PairView>
    decreases sorted.len(),
{
    if sorted.len() == 0 || !text_less(pair.0, sorted.last().0) {
        sorted.push(pair)
    } else {
        insert_by_key(sorted.drop_last(), pair).push(sorted.last())
    }
}

/// `pairs` sorted by key; pairs with the same key keep their order.
pub open spec fn sort_by_key(pairs: Seq<PairView>) -> Seq<PairView>
    decreases pairs.len(),
{
    if pairs.len() == 0 {
        pairs
    } else {
        insert_by_key(sort_by_key(pairs.drop_last()), pairs.last())
    }
}

/// The line of one pair: its key, `=`, its value and a line feed, in UTF-8.
pub open spec fn pair_line(pair: PairView) -> Seq<u8> {
    encode_utf8(pair.0) + seq![0x3du8] + encode_utf8(pair.1) + seq![0x0au8]
}

/// The lines of `pairs`, in order.
pub open spec fn bundle_bytes(pairs: Seq<PairView>) -> Seq<u8>
    decreases pairs.len(),
{
    if pairs.len() == 0 {
        seq![]
    } else {
        bundle_bytes(pairs.drop_last()) + pair_line(pairs.last())
    }
}

/// The digest of the credential bundle `pairs`.
pub open spec fn bundle_digest(pairs: Seq<PairView>) -> Seq<u8> {
    blake3_hash(bundle_bytes(sort_by_key(pairs)))
}

/// The digest of a profile without credential references: that of the text
/// `static`.
#[must_use]
pub fn static_digest() -> (digest: CredDigest)
    ensures
        digest@ == blake3_hash(encode_utf8("static"@)),
{
    hash_bytes("static".as_bytes())
}

/// The digest of a resolved credential bundle. The pairs are sorted by key
/// before they are hashed, so the order in which a caller lists its keys does
/// not shift the digest.
#[must_use]
pub fn digest_credential_bundle(pairs: &[(String, String)]) -> (digest: CredDigest)
    ensures
        digest@ == bundle_digest(pair_views(pairs@)),
{
    let sorted = sorted_pairs(pairs);
    let ghost views = sort_by_key(pair_views(pairs@));
    let mut bytes: Vec<u8> = Vec::new();
    let mut i: usize = 0;
    while i < sorted.len()
        invariant
            i <= sorted.len(),
            pair_views(sorted@.unref()) == views,
            bytes@ == bundle_bytes(views.take(i as int)),
        decreases sorted.len() - i,
    {
        let ghost before = bytes@;
        let pair = sorted[i];
        push_all(&mut bytes, pair.0.as_str().as_bytes());
        bytes.push(0x3d);
        push_all(&mut bytes, pair.1.as_str().as_bytes());
        bytes.push(0x0a);
        proof {
            let grown = views.take(i + 1);
            assert(grown.drop_last() =~= views.take(i as int));
            assert(grown.last() == pair_view(*pair));
            assert(bytes@ =~= before + pair_line(pair_view(*pair)));
        }
        i += 1;
    }
    assert(views.take(i as int) =~= views);
    hash_bytes(bytes.as_slice())
}

/// Appends `more` to `bytes`.
fn push_all(bytes: &mut Vec<u8>, more: &[u8])
    ensures
        final(bytes)@ == old(bytes)@ + more@,
{
    let ghost before = bytes@;
    bytes.extend_from_slice(more);
    assert(bytes@ =~= before + more@);
}

/// The given pairs in the order of [`sort_by_key`].
fn sorted_pairs<'a>(pairs: &'a [(String, String)]) -> (sorted: Vec<&'a (String, String)>)
    ensures
        pair_views(sorted@.unref()) == sort_by_key(pair_views(pairs@)),
{
    let mut sorted: Vec<&'a (String, String)> = Vec::new();
    let ghost views = pair_views(pairs@);
    assert(pair_views(sorted@.unref()) =~= sort_by_key(views.take(0)));
    let mut i: usize = 0;
    while i < pairs.len()
        invariant
            i <= pairs.len(),
            views == pair_views(pairs@),
            pair_views(sorted@.unref()) == sort_by_key(views.take(i as int)),
        decreases pairs.len() - i,
    {
        let pair = &pairs[i];
        let ghost before = pair_views(sorted@.unref());
        let mut at: usize = sorted.len();
        while at > 0 && text_before(&pair.0, &sorted[at - 1].0)
            invariant
                at <= sorted.len(),
                before == pair_views(sorted@.unref()),
                forall|j: int|
                    at <= j < before.len() ==> text_less(pair.0@, #[trigger] before[j].0),
            decreases at,
        {
            at -= 1;
        }
        proof {
            lemma_insert_by_key_at(before, pair_view(*pair), at as int);
            let grown = views.take(i + 1);
            assert(grown.drop_last() =~= views.take(i as int));
            assert(grown.last() == pair_view(*pair));
        }
        sorted.insert(at, pair);
        assert(pair_views(sorted@.unref()) =~= before.insert(at as int, pair_view(*pair)));
        i += 1;
    }
    assert(views.take(i as int) =~= views);
    sorted
}

/// Where [`insert_by_key`] puts a pair.
proof fn lemma_insert_by_key_at(sorted: Seq<PairView>, pair: PairView, at: int)
    requires
        0 <= at <= sorted.len(),
        forall|j: int| at <= j < sorted.len() ==> text_less(pair.0, #[trigger] sorted[j].0),
        at > 0 ==> !text_less(pair.0, sorted[at - 1].0),
    ensures
        insert_by_key(sorted, pair) == sorted.insert(at, pair),
    decreases sorted.len(),
{
    if at == sorted.len() {
        assert(sorted.insert(at, pair) =~= sorted.push(pair));
    } else {
        let rest = sorted.drop_last();
        lemma_insert_by_key_at(rest, pair, at);
        assert(sorted.insert(at, pair) =~= rest.insert(at, pair).push(sorted.last()));
    }
}

/// The pairs of `pairs` whose key is `key`, in order.
pub open spec fn with_key(pairs: Seq<PairView>, key: Seq<char>) -> Seq<PairView> {
    pairs.filter(key_is(key))
}

/// Whether the key of a pair is `key`.
pub open spec fn key_is(key: Seq<char>) -> spec_fn(PairView) -> bool {
    |p: PairView| p.0 == key
}

/// No pair comes before one whose key is smaller.
pub open spec fn key_sorted(pairs: Seq<PairView>) -> bool {
    forall|i: int, j: int|
        0 <= i < j < pairs.len() ==> !text_less(#[trigger] pairs[j].0, #[trigger] pairs[i].0)
}

/// Sorting sorts, and keeps the pairs of each key and their order.
pub proof fn law_sort_is_stable(pairs: Seq<PairView>)
    ensures
        key_sorted(sort_by_key(pairs)),
        forall|key: Seq<char>| #[trigger]
            with_key(sort_by_key(pairs), key) == with_key(pairs, key),
    decreases pairs.len(),
{
    if pairs.len() > 0 {
        let rest = pairs.drop_last();
        law_sort_is_stable(rest);
        lemma_insert_by_key_sorted(sort_by_key(rest), pairs.last());
        assert forall|key: Seq<char>| #[trigger]
            with_key(sort_by_key(pairs), key) == with_key(pairs, key) by {
            assert(with_key(sort_by_key(rest), key) == with_key(rest, key));
            lemma_insert_by_key_filter(sort_by_key(rest), pairs.last(), key);
            reveal(Seq::filter);
        }
    }
}

/// Insertion into a sorted list leaves it sorted, and adds no other key.
proof fn lemma_insert_by_key_sorted(sorted: Seq<PairView>, pair: PairView)
    requires
        key_sorted(sorted),
    ensures
        key_sorted(insert_by_key(sorted, pair)),
        insert_by_key(sorted, pair).len() == sorted.len() + 1,
        forall|i: int|
            0 <= i < insert_by_key(sorted, pair).len() ==> {
                ||| #[trigger] insert_by_key(sorted, pair)[i] == pair
                ||| sorted.contains(insert_by_key(sorted, pair)[i])
            },
    decreases sorted.len(),
{
    let out = insert_by_key(sorted, pair);
    if sorted.len() == 0 {
    } else if !text_less(pair.0, sorted.last().0) {
        assert forall|i: int, j: int| 0 <= i < j < out.len() implies !text_less(
            #[trigger] out[j].0,
            #[trigger] out[i].0,
        ) by {
            if j == sorted.len() {
                let n = sorted.len() - 1;
                if i < n {
                    assert(!text_less(sorted[n].0, sorted[i].0));
                    if text_less(pair.0, sorted[i].0) {
                        law_text_order_total(sorted[i].0, sorted[n].0);
                        if text_less(sorted[i].0, sorted[n].0) {
                            law_text_order_transitive(pair.0, sorted[i].0, sorted[n].0);
                        }
                    }
                }
            }
        }
        assert forall|i: int| 0 <= i < out.len() implies (#[trigger] out[i] == pair
            || sorted.contains(out[i])) by {
            if i < sorted.len() {
                assert(sorted.contains(sorted[i]));
            }
        }
    } else {
        let rest = sorted.drop_last();
        let inner = insert_by_key(rest, pair);
        lemma_insert_by_key_sorted(rest, pair);
        assert forall|i: int| 0 <= i < out.len() implies (#[trigger] out[i] == pair
            || sorted.contains(out[i])) by {
            if i < inner.len() {
                assert(out[i] == inner[i]);
                if inner[i] != pair {
                    let k = choose|k: int| 0 <= k < rest.len() && rest[k] == inner[i];
                    assert(sorted[k] == inner[i]);
                }
            } else {
                assert(sorted.contains(sorted[sorted.len() - 1]));
            }
        }
        assert forall|i: int, j: int| 0 <= i < j < out.len() implies !text_less(
            #[trigger] out[j].0,
            #[trigger] out[i].0,
        ) by {
            if j < inner.len() {
                assert(!text_less(inner[j].0, inner[i].0));
            } else {
                assert(out[i] == inner[i]);
                if inner[i] == pair {
                    if text_less(sorted.last().0, pair.0) {
                        law_text_order_transitive(sorted.last().0, pair.0, sorted.last().0);
                        law_text_order_irreflexive(sorted.last().0);
                    }
                } else {
                    let k = choose|k: int| 0 <= k < rest.len() && rest[k] == inner[i];
                    assert(!text_less(sorted[sorted.len() - 1].0, sorted[k].0));
                }
            }
        }
    }
}

/// Insertion puts a pair behind all others of its key and moves none of another.
proof fn lemma_insert_by_key_filter(sorted: Seq<PairView>, pair: PairView, key: Seq<char>)
    ensures
        with_key(insert_by_key(sorted, pair), key) == if pair.0 == key {
            with_key(sorted, key).push(pair)
        } else {
            with_key(sorted, key)
        },
    decreases sorted.len(),
{
    reveal(Seq::filter);
    let out = insert_by_key(sorted, pair);
    if sorted.len() == 0 || !text_less(pair.0, sorted.last().0) {
        assert(out.drop_last() =~= sorted);
    } else {
        let rest = sorted.drop_last();
        lemma_insert_by_key_filter(rest, pair, key);
        assert(out.drop_last() =~= insert_by_key(rest, pair));
        law_text_order_irreflexive(pair.0);
    }
}

/// Two sorted lists with the same pairs of each key, in the same order, are equal.
proof fn lemma_sorted_determined(a: Seq<PairView>, b: Seq<PairView>)
    requires
        key_sorted(a),
        key_sorted(b),
        forall|key: Seq<char>| #[trigger] with_key(a, key) == with_key(b, key),
    ensures
        a == b,
    decreases a.len(),
{
    reveal(Seq::filter);
    if a.len() == 0 {
        if b.len() > 0 {
            assert(with_key(a, b.last().0) == with_key(b, b.last().0));
        }
        assert(a =~= b);
    } else {
        let k = a.last().0;
        assert(with_key(a, k) == with_key(b, k));
        assert(with_key(a, k).last() == a.last());
        assert(b.len() > 0);
        let m = b.last().0;
        assert(with_key(a, m) == with_key(b, m));
        assert(with_key(b, m).last() == b.last());
        assert(k == m) by {
            if k != m {
                law_text_order_total(k, m);
                if text_less(k, m) {
                    lemma_key_bounded(a, m);
                } else {
                    lemma_key_bounded(b, k);
                }
            }
        }
        let c = a.drop_last();
        let d = b.drop_last();
        assert forall|key: Seq<char>| #[trigger] with_key(c, key) == with_key(d, key) by {
            assert(with_key(a, key) == with_key(b, key));
            if key == k {
                assert(with_key(c, key) =~= with_key(a, key).drop_last());
                assert(with_key(d, key) =~= with_key(b, key).drop_last());
            }
        }
        lemma_sorted_determined(c, d);
        assert(a =~= c.push(a.last()));
        assert(b =~= d.push(b.last()));
    }
}

/// A sorted list holds no key behind that of its last pair.
proof fn lemma_key_bounded(pairs: Seq<PairView>, key: Seq<char>)
    requires
        key_sorted(pairs),
        pairs.len() > 0,
        text_less(pairs.last().0, key),
    ensures
        with_key(pairs, key).len() == 0,
{
    let pred = key_is(key);
    let kept = with_key(pairs, key);
    if kept.len() > 0 {
        pairs.lemma_filter_pred(pred, 0);
        pairs.lemma_filter_contains_rev(pred, kept[0]);
        let i = choose|i: int| 0 <= i < pairs.len() && pairs[i] == kept[0];
        law_text_order_irreflexive(key);
        assert(pairs[i].0 == key);
    }
}

/// The digest does not depend on the order in which the keys are listed: two
/// bundles that list the same pairs under each key, in whatever order of keys,
/// have the same digest.
pub proof fn law_digest_order_independent(a: Seq<PairView>, b: Seq<PairView>)
    requires
        forall|key: Seq<char>| #[trigger] with_key(a, key) == with_key(b, key),
    ensures
        sort_by_key(a) == sort_by_key(b),
        bundle_digest(a) == bundle_digest(b),
{
    law_sort_is_stable(a);
    law_sort_is_stable(b);
    assert forall|key: Seq<char>| #[trigger]
        with_key(sort_by_key(a), key) == with_key(sort_by_key(b), key) by {
        assert(with_key(a, key) == with_key(b, key));
    }
    lemma_sorted_determined(sort_by_key(a), sort_by_key(b));
}

/// No key occurs twice.
pub open spec fn keys_distinct(pairs: Seq<PairView>) -> bool {
    forall|i: int, j: int|
        0 <= i < j < pairs.len() ==> (#[trigger] pairs[i]).0 != (#[trigger] pairs[j]).0
}

/// Two bundles that hold the same pairs, no key twice, are hashed in the same order, in
/// whatever order they list them.
pub proof fn law_sort_ignores_listing_order(a: Seq<PairView>, b: Seq<PairView>)
    requires
        keys_distinct(a),
        keys_distinct(b),
        forall|p: PairView| #[trigger] a.contains(p) <==> b.contains(p),
    ensures
        sort_by_key(a) == sort_by_key(b),
{
    assert forall|key: Seq<char>| #[trigger] with_key(a, key) == with_key(b, key) by {
        lemma_with_unique_key(a, key);
        lemma_with_unique_key(b, key);
        if with_key(a, key).len() > 0 {
            assert(b.contains(with_key(a, key)[0]));
        }
        if with_key(b, key).len() > 0 {
            assert(a.contains(with_key(b, key)[0]));
        }
        assert(with_key(a, key) =~= with_key(b, key));
    }
    law_digest_order_independent(a, b);
}

/// Two bundles that hold the same pairs, no key twice, have the same digest in
/// whatever order they list them.
pub proof fn law_digest_ignores_listing_order(a: Seq<PairView>, b: Seq<PairView>)
    requires
        keys_distinct(a),
        keys_distinct(b),
        forall|p: PairView| #[trigger] a.contains(p) <==> b.contains(p),
    ensures
        bundle_digest(a) == bundle_digest(b),
{
    law_sort_ignores_listing_order(a, b);
}

/// Where no key occurs twice, a key selects the one pair that has it, if any.
pub(crate) proof fn lemma_with_unique_key(pairs: Seq<PairView>, key: Seq<char>)
    requires
        keys_distinct(pairs),
    ensures
        with_key(pairs, key).len() <= 1,
        with_key(pairs, key).len() == 1 ==> pairs.contains(with_key(pairs, key)[0]),
        forall|i: int|
            0 <= i < pairs.len() && (#[trigger] pairs[i]).0 == key ==> with_key(pairs, key)
                == seq![pairs[i]],
    decreases pairs.len(),
{
    reveal(Seq::filter);
    if pairs.len() > 0 {
        let rest = pairs.drop_last();
        lemma_with_unique_key(rest, key);
        if with_key(rest, key).len() == 1 {
            let k = choose|k: int| 0 <= k < rest.len() && rest[k] == with_key(rest, key)[0];
            rest.lemma_filter_pred(key_is(key), 0);
            assert(pairs[k] == with_key(rest, key)[0]);
            assert(pairs[k].0 == key);
        }
        assert(pairs.contains(pairs[pairs.len() - 1]));
        assert forall|i: int| 0 <= i < pairs.len() && (#[trigger] pairs[i]).0
            == key implies with_key(pairs, key) == seq![pairs[i]] by {
            if i < rest.len() {
                assert(rest[i].0 == key);
            } else {
                assert(with_key(pairs, key) =~= seq![pairs[i]]);
            }
        }
    }
}

/// Neither `=` nor a line feed stands in `text`.
pub open spec fn plain_key(text: Seq<char>) -> bool {
    !text.contains('=') && !text.contains('\n')
}

/// Every key is free of `=` and line feeds, every value of line feeds.
pub open spec fn line_safe(pairs: Seq<PairView>) -> bool {
    forall|i: int|
        0 <= i < pairs.len() ==> plain_key((#[trigger] pairs[i]).0) && !pairs[i].1.contains('\n')
}

/// A byte below 0x80 occurs in the UTF-8 of a text only for that very character.
proof fn lemma_ascii_byte(text: Seq<char>, c: char)
    requires
        (c as u32) < 0x80,
        !text.contains(c),
    ensures
        !encode_utf8(text).contains(c as u8),
    decreases text.len(),
{
    if text.len() > 0 {
        let head = encode_scalar(text[0] as u32);
        let tail = encode_utf8(text.drop_first());
        assert(text.contains(text[0]));
        assert(!text.drop_first().contains(c)) by {
            if text.drop_first().contains(c) {
                let i = choose|i: int|
                    0 <= i < text.drop_first().len() && text.drop_first()[i] == c;
                assert(text[i + 1] == c);
            }
        }
        lemma_ascii_byte(text.drop_first(), c);
        let u = text[0] as u32;
        let v = c as u32;
        assert(u != v) by {
            char_u32_cast(text[0], u);
            char_u32_cast(c, v);
        }
        assert(!head.contains(c as u8)) by {
            assert(u <= 0x7f ==> (u & 0x7f) as u8 == u) by (bit_vector);
            assert(v < 0x80 ==> v as u8 == v) by (bit_vector);
            assert(forall|x: u8| #[trigger] (0x80u8 | x) >= 0x80) by (bit_vector);
            assert(forall|x: u8| #[trigger] (0xC0u8 | x) >= 0x80) by (bit_vector);
            assert(forall|x: u8| #[trigger] (0xE0u8 | x) >= 0x80) by (bit_vector);
            assert(forall|x: u8| #[trigger] (0xF0u8 | x) >= 0x80) by (bit_vector);
        }
        if (head + tail).contains(c as u8) {
            let i = choose|i: int| 0 <= i < (head + tail).len() && (head + tail)[i] == c as u8;
            if i < head.len() {
                assert(head[i] == c as u8);
            } else {
                assert(tail[i - head.len()] == c as u8);
            }
        }
    }
}

/// Different texts have different UTF-8.
proof fn lemma_utf8_injective(a: Seq<char>, b: Seq<char>)
    requires
        encode_utf8(a) == encode_utf8(b),
    ensures
        a == b,
{
    encode_utf8_decode_utf8(a);
    encode_utf8_decode_utf8(b);
}

/// A line without its line feed tells its key from its value.
proof fn lemma_line_injective(a: PairView, b: PairView)
    requires
        plain_key(a.0),
        plain_key(b.0),
        pair_line(a) == pair_line(b),
    ensures
        a == b,
{
    let ka = encode_utf8(a.0);
    let kb = encode_utf8(b.0);
    let va = encode_utf8(a.1);
    let vb = encode_utf8(b.1);
    lemma_ascii_byte(a.0, '=');
    lemma_ascii_byte(b.0, '=');
    let la = pair_line(a);
    let lb = pair_line(b);
    assert(la[ka.len() as int] == 0x3du8);
    assert(lb[kb.len() as int] == 0x3du8);
    assert(ka.len() == kb.len()) by {
        if ka.len() < kb.len() {
            assert(kb[ka.len() as int] == lb[ka.len() as int]);
        } else if kb.len() < ka.len() {
            assert(ka[kb.len() as int] == la[kb.len() as int]);
        }
    }
    assert(ka =~= la.take(ka.len() as int));
    assert(kb =~= lb.take(kb.len() as int));
    assert(va =~= la.subrange(ka.len() as int + 1, la.len() - 1));
    assert(vb =~= lb.subrange(kb.len() as int + 1, lb.len() - 1));
    lemma_utf8_injective(a.0, b.0);
    lemma_utf8_injective(a.1, b.1);
}

/// No line feed stands in a line but at its end.
proof fn lemma_line_feed_ends_line(pair: PairView, i: int)
    requires
        plain_key(pair.0),
        !pair.1.contains('\n'),
        0 <= i < pair_line(pair).len() - 1,
    ensures
        pair_line(pair)[i] != 0x0au8,
{
    let k = encode_utf8(pair.0);
    let v = encode_utf8(pair.1);
    lemma_ascii_byte(pair.0, '\n');
    lemma_ascii_byte(pair.1, '\n');
    if i < k.len() {
        assert(k.contains(k[i]));
    } else if i > k.len() {
        assert(v.contains(v[i - k.len() - 1]));
    }
}

/// The bytes that are hashed tell bundles apart: where no key holds `=` or a
/// line feed and no value a line feed, different lists of pairs give different
/// bytes.
pub proof fn law_bundle_bytes_injective(a: Seq<PairView>, b: Seq<PairView>)
    requires
        line_safe(a),
        line_safe(b),
        bundle_bytes(a) == bundle_bytes(b),
    ensures
        a == b,
    decreases a.len(),
{
    if a.len() == 0 || b.len() == 0 {
        if a.len() > 0 {
            assert(pair_line(a.last()).len() > 0);
        }
        if b.len() > 0 {
            assert(pair_line(b.last()).len() > 0);
        }
        assert(a =~= b);
    } else {
        let pa = bundle_bytes(a.drop_last());
        let pb = bundle_bytes(b.drop_last());
        let la = pair_line(a.last());
        let lb = pair_line(b.last());
        let all = bundle_bytes(a);
        assert(all == pa + la);
        assert(all == pb + lb);
        assert(pa.len() == pb.len()) by {
            if pa.len() < pb.len() {
                lemma_bundle_ends_in_line_feed(b.drop_last());
                lemma_line_feed_ends_line(a.last(), pb.len() - 1 - pa.len());
                assert(all[pb.len() - 1] == pb.last());
                assert(all[pb.len() - 1] == la[pb.len() - 1 - pa.len()]);
            } else if pb.len() < pa.len() {
                lemma_bundle_ends_in_line_feed(a.drop_last());
                lemma_line_feed_ends_line(b.last(), pa.len() - 1 - pb.len());
                assert(all[pa.len() - 1] == pa.last());
                assert(all[pa.len() - 1] == lb[pa.len() - 1 - pb.len()]);
            }
        }
        assert(pa =~= all.take(pa.len() as int));
        assert(pb =~= all.take(pb.len() as int));
        assert(la =~= all.skip(pa.len() as int));
        assert(lb =~= all.skip(pb.len() as int));
        lemma_line_injective(a.last(), b.last());
        law_bundle_bytes_injective(a.drop_last(), b.drop_last());
        assert(a =~= a.drop_last().push(a.last()));
        assert(b =~= b.drop_last().push(b.last()));
    }
}

/// What is hashed of a bundle is empty or ends in a line feed.
proof fn lemma_bundle_ends_in_line_feed(pairs: Seq<PairView>)
    ensures
        bundle_bytes(pairs).len() > 0 ==> bundle_bytes(pairs).last() == 0x0au8,
{
}

/// What is hashed is text: the lines of a bundle are the lines of its parts, and the line of a
/// pair is the UTF-8 of key, `=`, value and line feed.
pub proof fn law_bundle_is_hashed_line_by_line(
    a: Seq<PairView>,
    b: Seq<PairView>,
    key: Seq<char>,
    value: Seq<char>,
)
    ensures
        bundle_bytes(Seq::<PairView>::empty()) == Seq::<u8>::empty(),
        bundle_bytes(a + b) == bundle_bytes(a) + bundle_bytes(b),
        bundle_bytes(seq![(key, value)]) == encode_utf8(key + seq!['='] + value + seq!['\n']),
    decreases b.len(),
{
    if b.len() == 0 {
        assert(a + b =~= a);
        assert(bundle_bytes(a) + bundle_bytes(b) =~= bundle_bytes(a));
    } else {
        law_bundle_is_hashed_line_by_line(a, b.drop_last(), key, value);
        assert((a + b).drop_last() =~= a + b.drop_last());
        assert(bundle_bytes(a) + bundle_bytes(b) =~= bundle_bytes(a) + bundle_bytes(b.drop_last())
            + pair_line(b.last()));
    }
    let one = seq![(key, value)];
    assert(one.drop_last() =~= Seq::<PairView>::empty());
    assert(bundle_bytes(one) =~= pair_line((key, value))) by {
        reveal_with_fuel(bundle_bytes, 2);
    }
    lemma_utf8_concat(key, seq!['=']);
    lemma_utf8_concat(key + seq!['='], value);
    lemma_utf8_concat(key + seq!['='] + value, seq!['\n']);
    lemma_utf8_ascii('=');
    lemma_utf8_ascii('\n');
    assert(encode_utf8(seq!['=']) =~= seq![0x3du8]);
    assert(encode_utf8(seq!['\n']) =~= seq![0x0au8]);
}

/// The UTF-8 of two texts in a row is that of the one and then that of the other.
pub(crate) proof fn lemma_utf8_concat(a: Seq<char>, b: Seq<char>)
    ensures
        encode_utf8(a + b) == encode_utf8(a) + encode_utf8(b),
    decreases a.len(),
{
    if a.len() == 0 {
        assert(a + b =~= b);
        assert(encode_utf8(a) + encode_utf8(b) =~= encode_utf8(b));
    } else {
        assert((a + b).drop_first() =~= a.drop_first() + b);
        lemma_utf8_concat(a.drop_first(), b);
        assert(encode_utf8(a + b) =~= encode_utf8(a) + encode_utf8(b));
    }
}

/// The UTF-8 of an ASCII character is its number.
proof fn lemma_utf8_ascii(c: char)
    requires
        (c as u32) < 0x80,
    ensures
        encode_utf8(seq![c]) == seq![c as u8],
{
    let u = c as u32;
    char_u32_cast(c, u);
    assert(u <= 0x7f ==> (u & 0x7f) as u8 == u) by (bit_vector);
    assert(u < 0x80 ==> u as u8 == u) by (bit_vector);
    assert(seq![c].drop_first() =~= Seq::<char>::empty());
    reveal_with_fuel(encode_utf8, 2);
    assert(encode_utf8(seq![c]) =~= seq![c as u8]);
}

/// A bundle whose keys are already in order is hashed as it is.
pub proof fn law_ordered_bundle_is_hashed_as_it_is(pairs: Seq<PairView>)
    requires
        forall|i: int, j: int|
            0 <= i < j < pairs.len() ==> !text_less(#[trigger] pairs[j].0, #[trigger] pairs[i].0),
    ensures
        sort_by_key(pairs) == pairs,
        bundle_digest(pairs) == blake3_hash(bundle_bytes(pairs)),
{
    law_sort_is_stable(pairs);
    lemma_sorted_determined(sort_by_key(pairs), pairs);
}


/// The digest of a bundle whose keys are in order is the hash of its lines, and two bundles
/// that hold the same pairs, no key twice, have the same digest. A profile without credential
/// references has the hash of `static`.
pub proof fn law_digest_is_the_hash_of_the_bundle(
    pairs: &[(String, String)],
    digest: CredDigest,
    other: &[(String, String)],
    other_digest: CredDigest,
    plain: CredDigest,
)
    requires
        call_ensures(digest_credential_bundle, (pairs,), digest),
        call_ensures(digest_credential_bundle, (other,), other_digest),
        call_ensures(static_digest, (), plain),
    ensures
        (forall|i: int, j: int|
            0 <= i < j < pairs@.len() ==> !text_less(
                (#[trigger] pairs@[j]).0@,
                (#[trigger] pairs@[i]).0@,
            )) ==> digest@ == blake3_hash(bundle_bytes(pair_views(pairs@))),
        keys_distinct(pair_views(pairs@)) && keys_distinct(pair_views(other@)) && (forall|
            p: PairView,
        | #[trigger]
            pair_views(pairs@).contains(p) <==> pair_views(other@).contains(p)) ==> digest@
            == other_digest@,
        plain@ == blake3_hash(encode_utf8("static"@)),
{
    let a = pair_views(pairs@);
    let b = pair_views(other@);
    if forall|i: int, j: int|
        0 <= i < j < pairs@.len() ==> !text_less(
            (#[trigger] pairs@[j]).0@,
            (#[trigger] pairs@[i]).0@,
        ) {
        assert forall|i: int, j: int| 0 <= i < j < a.len() implies !text_less(
            #[trigger] a[j].0,
            #[trigger] a[i].0,
        ) by {
            assert(!text_less(pairs@[j].0@, pairs@[i].0@));
        }
        law_ordered_bundle_is_hashed_as_it_is(a);
    }
    if keys_distinct(a) && keys_distinct(b) && (forall|p: PairView| #[trigger]
        a.contains(p) <==> b.contains(p)) {
        law_digest_ignores_listing_order(a, b);
    }
}

} // verus!
