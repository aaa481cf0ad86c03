//! Text as sequences of characters: white space, search, order, and joining.
use vstd::prelude::*;
use vstd::string::*;

verus! {

/// A character with the Unicode `White_Space` property.
pub open spec fn is_white_space(c: char) -> bool {
    let u = c as int;
    ||| 0x09 <= u <= 0x0d
    ||| u == 0x20
    ||| u == 0x85
    ||| u == 0xa0
    ||| u == 0x1680
    ||| 0x2000 <= u <= 0x200a
    ||| u == 0x2028
    ||| u == 0x2029
    ||| u == 0x202f
    ||| u == 0x205f
    ||| u == 0x3000
}

/// Text that is empty or consists of white space only.
pub open spec fn is_blank(text: Seq<char>) -> bool {
    forall|i: int| 0 <= i < text.len() ==> is_white_space(#[trigger] text[i])
}

/// `needle` stands in `text` from index `at` on.
pub open spec fn occurs_at(needle: Seq<char>, text: Seq<char>, at: int) -> bool {
    &&& 0 <= at
    &&& at + needle.len() <= text.len()
    &&& text.subrange(at, at + needle.len()) == needle
}

/// `needle` stands somewhere in `text`.
pub open spec fn occurs_in(needle: Seq<char>, text: Seq<char>) -> bool {
    exists|at: int| occurs_at(needle, text, at)
}

/// `a` and `b` agree before index `k`, and `a` ends there or has the smaller
/// character there.
pub open spec fn less_from(a: Seq<char>, b: Seq<char>, k: int) -> bool {
    &&& 0 <= k <= a.len()
    &&& k < b.len()
    &&& a.take(k) == b.take(k)
    &&& k == a.len() || (a[k] as int) < (b[k] as int)
}

/// `a` comes strictly before `b` in the lexicographic order of code points,
/// which is the order of `str`.
pub open spec fn text_less(a: Seq<char>, b: Seq<char>) -> bool {
    exists|k: int| less_from(a, b, k)
}

/// The characters of an optional string.
pub open spec fn opt_text(text: Option<String>) -> Option<Seq<char>> {
    match text {
        Some(s) => Some(s@),
        None => None,
    }
}

/// A pair of texts.
pub type PairView = (Seq<char>, Seq<char>);

/// The characters of a pair of strings.
pub open spec fn pair_view(pair: (String, String)) -> PairView {
    (pair.0@, pair.1@)
}

/// The characters of a list of pairs of strings.
pub open spec fn pair_views(pairs: Seq<(String, String)>) -> Seq<PairView> {
    pairs.map_values(|p: (String, String)| pair_view(p))
}

/// The characters of a list of strings.
pub open spec fn text_views(texts: Seq<String>) -> Seq<Seq<char>> {
    texts.map_values(|s: String| s@)
}

/// No text comes before itself.
pub proof fn law_text_order_irreflexive(a: Seq<char>)
    ensures
        !text_less(a, a),
{
}

/// The order of texts is transitive.
pub proof fn law_text_order_transitive(a: Seq<char>, b: Seq<char>, c: Seq<char>)
    requires
        text_less(a, b),
        text_less(b, c),
    ensures
        text_less(a, c),
{
    let j = choose|j: int| less_from(a, b, j);
    let k = choose|k: int| less_from(b, c, k);
    let m = if j <= k { j } else { k };
    assert(a.take(m) =~= a.take(j).take(m));
    assert(b.take(m) =~= b.take(j).take(m));
    assert(b.take(m) =~= b.take(k).take(m));
    assert(c.take(m) =~= c.take(k).take(m));
    if m < j {
        assert(a.take(j)[m] == b.take(j)[m]);
    }
    if m < k {
        assert(b.take(k)[m] == c.take(k)[m]);
    }
    assert(less_from(a, c, m));
}

/// Of two different texts one comes before the other.
pub proof fn law_text_order_total(a: Seq<char>, b: Seq<char>)
    ensures
        a == b || text_less(a, b) || text_less(b, a),
    decreases a.len(),
{
    if a.len() == 0 {
        if b.len() > 0 {
            assert(a.take(0) =~= b.take(0));
            assert(less_from(a, b, 0));
        } else {
            assert(a =~= b);
        }
    } else {
        let p = a.drop_last();
        let n = p.len() as int;
        law_text_order_total(p, b);
        if p == b {
            assert(b.take(n) =~= a.take(n));
            assert(less_from(b, a, n));
        } else if text_less(p, b) {
            let k = choose|k: int| less_from(p, b, k);
            assert(a.take(k) =~= p.take(k));
            if k < n {
                assert(less_from(a, b, k));
            } else {
                let x = a[n] as int;
                let y = b[n] as int;
                if x < y {
                    assert(less_from(a, b, n));
                } else if y < x {
                    assert(less_from(b, a, n));
                } else {
                    assert(a.take(n + 1) =~= a);
                    assert(a =~= b.take(n + 1)) by {
                        assert forall|i: int| 0 <= i < a.len() implies a[i] == b.take(n + 1)[i] by {
                            if i < n {
                                assert(p.take(k)[i] == b.take(k)[i]);
                            }
                        }
                    }
                    if b.len() == n + 1 {
                        assert(a =~= b);
                    } else {
                        assert(less_from(a, b, n + 1));
                    }
                }
            }
        } else {
            let k = choose|k: int| less_from(b, p, k);
            assert(a.take(k) =~= p.take(k));
            assert(less_from(b, a, k));
        }
    }
}

/// The characters of `s`.
pub(crate) fn chars_of(s: &str) -> (out: Vec<char>)
    ensures
        out@ == s@,
{
    let mut out: Vec<char> = Vec::new();
    for c in it: s.chars()
        invariant
            out@ == it.seq().take(it.index() as int),
            it.seq() == s@,
    {
        out.push(c);
    }
    out
}

/// Whether `c` is white space.
pub fn white_space(c: char) -> (b: bool)
    ensures
        b == is_white_space(c),
{
    ('\u{9}' <= c && c <= '\u{d}') || c == '\u{20}' || c == '\u{85}' || c == '\u{a0}' || c
        == '\u{1680}' || ('\u{2000}' <= c && c <= '\u{200a}') || c == '\u{2028}' || c
        == '\u{2029}' || c == '\u{202f}' || c == '\u{205f}' || c == '\u{3000}'
}

/// Whether nothing but white space stands in `s`.
pub fn blank(s: &str) -> (b: bool)
    ensures
        b == is_blank(s@),
{
    let cs = chars_of(s);
    let mut i: usize = 0;
    while i < cs.len()
        invariant
            i <= cs.len(),
            cs@ == s@,
            forall|j: int| 0 <= j < i ==> is_white_space(#[trigger] s@[j]),
        decreases cs.len() - i,
    {
        if !white_space(cs[i]) {
            assert(!is_white_space(s@[i as int]));
            return false;
        }
        i += 1;
    }
    true
}

/// Whether the character `c` stands in `s`.
pub fn contains_char(s: &str, c: char) -> (b: bool)
    ensures
        b == s@.contains(c),
{
    let cs = chars_of(s);
    let mut i: usize = 0;
    while i < cs.len()
        invariant
            i <= cs.len(),
            cs@ == s@,
            forall|j: int| 0 <= j < i ==> s@[j] != c,
        decreases cs.len() - i,
    {
        if cs[i] == c {
            assert(s@[i as int] == c);
            return true;
        }
        i += 1;
    }
    false
}

/// Whether `needle` stands in `s`.
pub fn contains_text(s: &str, needle: &str) -> (b: bool)
    ensures
        b == occurs_in(needle@, s@),
{
    let cs = chars_of(s);
    let ns = chars_of(needle);
    if ns.len() > cs.len() {
        return false;
    }
    let mut at: usize = 0;
    let last: usize = cs.len() - ns.len();
    while at <= last
        invariant
            at <= last + 1,
            last == cs.len() - ns.len(),
            cs@ == s@,
            ns@ == needle@,
            forall|k: int| 0 <= k < at ==> !occurs_at(needle@, s@, k),
        decreases last + 1 - at,
    {
        let mut j: usize = 0;
        while j < ns.len() && cs[at + j] == ns[j]
            invariant
                j <= ns.len(),
                at + ns.len() <= cs.len(),
                forall|i: int| 0 <= i < j ==> cs@[at + i] == ns@[i],
            decreases ns.len() - j,
        {
            j += 1;
        }
        if j == ns.len() {
            assert(s@.subrange(at as int, at + needle@.len()) =~= needle@);
            assert(occurs_at(needle@, s@, at as int));
            return true;
        }
        assert(!occurs_at(needle@, s@, at as int)) by {
            assert(s@.subrange(at as int, at + needle@.len())[j as int] == s@[at + j]);
        }
        if at == last {
            assert(forall|k: int| occurs_at(needle@, s@, k) ==> 0 <= k <= last);
            return false;
        }
        at += 1;
    }
    false
}

/// Whether two strings hold the same text.
pub(crate) fn same_text(a: &str, b: &str) -> (same: bool)
    ensures
        same == (a@ == b@),
{
    let xs = chars_of(a);
    let ys = chars_of(b);
    if xs.len() != ys.len() {
        return false;
    }
    let mut i: usize = 0;
    while i < xs.len()
        invariant
            i <= xs.len(),
            xs.len() == ys.len(),
            xs@ == a@,
            ys@ == b@,
            forall|j: int| 0 <= j < i ==> xs@[j] == ys@[j],
        decreases xs.len() - i,
    {
        if xs[i] != ys[i] {
            return false;
        }
        i += 1;
    }
    assert(xs@ =~= ys@);
    true
}

/// Whether the text of `a` comes strictly before that of `b`.
pub fn text_before(a: &str, b: &str) -> (before: bool)
    ensures
        before == text_less(a@, b@),
{
    let xs = chars_of(a);
    let ys = chars_of(b);
    let mut i: usize = 0;
    while i < xs.len() && i < ys.len() && xs[i] == ys[i]
        invariant
            i <= xs.len(),
            i <= ys.len(),
            forall|j: int| 0 <= j < i ==> xs@[j] == ys@[j],
        decreases xs.len() - i,
    {
        i += 1;
    }
    assert(a@.take(i as int) =~= b@.take(i as int));
    let before = i < ys.len() && (i == xs.len() || xs[i] < ys[i]);
    proof {
        if before {
            assert(less_from(a@, b@, i as int));
        } else {
            assert forall|k: int| !less_from(a@, b@, k) by {
                if less_from(a@, b@, k) {
                    if k > i {
                        assert(a@.take(k)[i as int] == b@.take(k)[i as int]);
                    }
                }
            }
        }
    }
    before
}

/// The two texts one after the other.
pub(crate) fn join(a: &str, b: &str) -> (out: String)
    ensures
        out@ == a@ + b@,
{
    let mut out = a.to_owned();
    out.append(b);
    out
}

/// A copy of an optional string.
pub(crate) fn copy_text(text: &Option<String>) -> (out: Option<String>)
    ensures
        opt_text(out) == opt_text(*text),
{
    match text {
        Some(s) => Some(s.clone()),
        None => None,
    }
}

/// White space is the 25 characters that Unicode lists under that property.
pub proof fn law_white_space_is_that_of_unicode(c: char)
    ensures
        is_white_space(c) <==> {
            ||| c == '\t' || c == '\n' || c == '\u{b}' || c == '\u{c}' || c == '\r'
            ||| c == ' ' || c == '\u{85}' || c == '\u{a0}' || c == '\u{1680}'
            ||| c == '\u{2000}' || c == '\u{2001}' || c == '\u{2002}' || c == '\u{2003}'
            ||| c == '\u{2004}' || c == '\u{2005}' || c == '\u{2006}' || c == '\u{2007}'
            ||| c == '\u{2008}' || c == '\u{2009}' || c == '\u{200a}'
            ||| c == '\u{2028}' || c == '\u{2029}' || c == '\u{202f}' || c == '\u{205f}'
            ||| c == '\u{3000}'
        },
{
}

/// Nothing is blank, a character is if it is white space, and a text is if both parts of it
/// are, wherever it is parted.
pub proof fn law_blank_text_is_white_space_only(a: Seq<char>, b: Seq<char>, c: char)
    ensures
        is_blank(Seq::<char>::empty()),
        is_blank(seq![c]) <==> is_white_space(c),
        is_blank(a + b) <==> is_blank(a) && is_blank(b),
{
    assert(seq![c][0] == c);
    let both = a + b;
    assert(forall|i: int| 0 <= i < a.len() ==> #[trigger] a[i] == both[i]);
    assert(forall|i: int| 0 <= i < b.len() ==> #[trigger] b[i] == both[a.len() + i]);
}

/// A text holds what stands between any two parts of it, and whatever it holds stands between
/// two parts of it.
pub proof fn law_text_holds_its_parts(
    needle: Seq<char>,
    text: Seq<char>,
    before: Seq<char>,
    after: Seq<char>,
)
    ensures
        occurs_in(needle, before + needle + after),
        occurs_in(needle, text) ==> exists|a: Seq<char>, b: Seq<char>|
            text == #[trigger] (a + needle + b),
{
    let whole = before + needle + after;
    assert(whole.subrange(before.len() as int, (before.len() + needle.len()) as int) =~= needle);
    assert(occurs_at(needle, whole, before.len() as int));
    if occurs_in(needle, text) {
        let at = choose|at: int| occurs_at(needle, text, at);
        let a = text.take(at);
        let b = text.skip(at + needle.len());
        assert(text =~= a + needle + b);
    }
}

/// Texts are ordered by the first character in which they differ, and a text comes before
/// whatever it is the beginning of.
pub proof fn law_text_order_is_lexicographic(
    common: Seq<char>,
    x: char,
    y: char,
    a: Seq<char>,
    b: Seq<char>,
)
    ensures
        x != y ==> (text_less(common + seq![x] + a, common + seq![y] + b) <==> x < y),
        text_less(common, common + seq![y] + b),
        !text_less(common + seq![x] + a, common),
{
    let n = common.len() as int;
    let s = common + seq![x] + a;
    let t = common + seq![y] + b;
    assert(s.take(n) =~= common);
    assert(t.take(n) =~= common);
    assert(common.take(n) =~= common);
    assert(s[n] == x && t[n] == y);
    assert(less_from(common, t, n));
    if x < y {
        assert(less_from(s, t, n));
    }
    if x != y && text_less(s, t) {
        let k = choose|k: int| less_from(s, t, k);
        if k > n {
            assert(s.take(k)[n] == t.take(k)[n]);
        } else if k < n {
            assert(s[k] == common[k] && t[k] == common[k]);
        }
    }
    if text_less(s, common) {
        let k = choose|k: int| less_from(s, common, k);
        assert(s[k] == common[k]);
    }
}

/// Strings are taken as they are: in options, pairs and lists, in order.
pub proof fn law_strings_are_taken_as_they_are(
    text: String,
    pair: (String, String),
    pairs: Seq<(String, String)>,
    texts: Seq<String>,
)
    ensures
        opt_text(Some(text)) == Some(text@),
        opt_text(None) is None,
        pair_view(pair) == (pair.0@, pair.1@),
        pair_views(pairs).len() == pairs.len(),
        forall|i: int|
            0 <= i < pairs.len() ==> #[trigger] pair_views(pairs)[i] == (pairs[i].0@, pairs[i].1@),
        text_views(texts).len() == texts.len(),
        forall|i: int| 0 <= i < texts.len() ==> #[trigger] text_views(texts)[i] == texts[i]@,
{
}


/// The tests on text say what they find: white space, a character, a part, and which text comes
/// first.
pub proof fn law_tests_on_text(
    text: &str,
    c: char,
    part: &str,
    is_space: bool,
    is_blank_text: bool,
    has_char: bool,
    has_part: bool,
    comes_first: bool,
)
    requires
        call_ensures(white_space, (c,), is_space),
        call_ensures(blank, (text,), is_blank_text),
        call_ensures(contains_char, (text, c), has_char),
        call_ensures(contains_text, (text, part), has_part),
        call_ensures(text_before, (text, part), comes_first),
    ensures
        is_space <==> is_white_space(c),
        is_blank_text <==> forall|i: int|
            0 <= i < text@.len() ==> is_white_space(#[trigger] text@[i]),
        has_char <==> exists|i: int| 0 <= i < text@.len() && #[trigger] text@[i] == c,
        has_part <==> occurs_in(part@, text@),
        comes_first <==> text_less(text@, part@),
{
}

} // verus!
