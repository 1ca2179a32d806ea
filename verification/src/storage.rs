//! The routing table: backends keyed by virtual host, kept sorted by
//! hostname so that listing them is deterministic.  At most one entry per
//! hostname; a put overwrites, a delete of an absent key is a no-op.

use vstd::prelude::*;

use crate::backend::{Backend, BackendV};

verus! {

use vstd::utf8::encode_utf8;

/// The UTF-8 bytes a backend sorts under: the encoding of its hostname,
/// the order `BTreeMap<String, _>` would use.
pub open spec fn host_key(b: BackendV) -> Seq<u8> {
    encode_utf8(b.hostname)
}

/// Strict lexicographic order on byte sequences: a proper prefix comes
/// first, otherwise the first differing byte decides.
pub open spec fn lex_lt(a: Seq<u8>, b: Seq<u8>) -> bool
    decreases a.len(),
{
    if b.len() == 0 {
        false
    } else if a.len() == 0 {
        true
    } else if a[0] < b[0] {
        true
    } else if a[0] > b[0] {
        false
    } else {
        lex_lt(a.drop_first(), b.drop_first())
    }
}

/// Lexicographic order never relates a sequence to itself.
pub proof fn lemma_lex_lt_irrefl(a: Seq<u8>)
    ensures
        !lex_lt(a, a),
    decreases a.len(),
{
    if a.len() > 0 {
        lemma_lex_lt_irrefl(a.drop_first());
    }
}

/// Lexicographic order is transitive.
pub proof fn lemma_lex_lt_trans(a: Seq<u8>, b: Seq<u8>, c: Seq<u8>)
    requires
        lex_lt(a, b),
        lex_lt(b, c),
    ensures
        lex_lt(a, c),
    decreases a.len(),
{
    if a.len() > 0 && b.len() > 0 && c.len() > 0 && a[0] == b[0] && b[0] == c[0] {
        lemma_lex_lt_trans(a.drop_first(), b.drop_first(), c.drop_first());
    }
}

/// Two sequences that neither order relates are equal.
pub proof fn lemma_lex_lt_trichotomy(a: Seq<u8>, b: Seq<u8>)
    requires
        !lex_lt(a, b),
        !lex_lt(b, a),
    ensures
        a == b,
    decreases a.len(),
{
    if a.len() == 0 || b.len() == 0 {
        assert(a =~= b);
    } else {
        lemma_lex_lt_trichotomy(a.drop_first(), b.drop_first());
        assert forall|i: int| 0 <= i < a.len() implies a[i] == b[i] by {
            if i > 0 {
                assert(a[i] == a.drop_first()[i - 1]);
                assert(b[i] == b.drop_first()[i - 1]);
            }
        }
        assert(a =~= b);
    }
}

/// Lexicographic order is asymmetric.
pub proof fn lemma_lex_lt_asym(a: Seq<u8>, b: Seq<u8>)
    requires
        lex_lt(a, b),
    ensures
        !lex_lt(b, a),
{
    if lex_lt(b, a) {
        lemma_lex_lt_trans(a, b, a);
        lemma_lex_lt_irrefl(a);
    }
}

/// A sequence that neither equals nor precedes another follows it.
pub proof fn lemma_lex_lt_total(a: Seq<u8>, b: Seq<u8>)
    requires
        !lex_lt(a, b),
        a != b,
    ensures
        lex_lt(b, a),
{
    if !lex_lt(b, a) {
        lemma_lex_lt_trichotomy(a, b);
    }
}

/// Equal encodings come from equal strings: UTF-8 encoding is injective.
pub proof fn lemma_encode_utf8_injective(a: Seq<char>, b: Seq<char>)
    requires
        encode_utf8(a) == encode_utf8(b),
    ensures
        a == b,
{
    broadcast use vstd::utf8::encode_utf8_decode_utf8;

    assert(vstd::utf8::decode_utf8(encode_utf8(a)) == a);
    assert(vstd::utf8::decode_utf8(encode_utf8(b)) == b);
}

/// Entries strictly ascending by hostname key: sorted, and in particular
/// at most one entry per hostname.
pub open spec fn sorted_unique(s: Seq<BackendV>) -> bool {
    forall|i: int, j: int|
        0 <= i < j < s.len() ==> #[trigger] lex_lt(host_key(s[i]), host_key(s[j]))
}

/// The first entry for hostname `h`, scanning front to back.
pub open spec fn spec_lookup(s: Seq<BackendV>, h: Seq<char>) -> Option<BackendV>
    decreases s.len(),
{
    if s.len() == 0 {
        None
    } else if s[0].hostname == h {
        Some(s[0])
    } else {
        spec_lookup(s.drop_first(), h)
    }
}

/// The table after a put: `b` in its sorted place, replacing the entry
/// with its hostname if one is there.
pub open spec fn spec_put(s: Seq<BackendV>, b: BackendV) -> Seq<BackendV>
    decreases s.len(),
{
    if s.len() == 0 {
        seq![b]
    } else if lex_lt(host_key(b), host_key(s[0])) {
        seq![b] + s
    } else if host_key(b) == host_key(s[0]) {
        seq![b] + s.drop_first()
    } else {
        seq![s[0]] + spec_put(s.drop_first(), b)
    }
}

/// The table after a delete: the first entry for `h` removed, the rest
/// untouched; no change when `h` has no entry.
pub open spec fn spec_delete(s: Seq<BackendV>, h: Seq<char>) -> Seq<BackendV>
    decreases s.len(),
{
    if s.len() == 0 {
        s
    } else if s[0].hostname == h {
        s.drop_first()
    } else {
        seq![s[0]] + spec_delete(s.drop_first(), h)
    }
}

/// A put leaves the table sorted, and adds no hostname but `b`'s.
pub proof fn lemma_put_sorted(s: Seq<BackendV>, b: BackendV)
    requires
        sorted_unique(s),
    ensures
        sorted_unique(spec_put(s, b)),
        forall|k: int|
            0 <= k < spec_put(s, b).len() ==> host_key(#[trigger] spec_put(s, b)[k]) == host_key(b)
                || (exists|j: int| 0 <= j < s.len() && spec_put(s, b)[k] == s[j]),
    decreases s.len(),
{
    let t = spec_put(s, b);
    if s.len() == 0 {
    } else if lex_lt(host_key(b), host_key(s[0])) {
        assert forall|i: int, j: int| 0 <= i < j < t.len() implies #[trigger] lex_lt(
            host_key(t[i]),
            host_key(t[j]),
        ) by {
            if i == 0 && j > 1 {
                lemma_lex_lt_trans(host_key(b), host_key(s[0]), host_key(s[j - 1]));
            }
        }
        assert forall|k: int| 0 <= k < t.len() implies host_key(#[trigger] t[k]) == host_key(b)
            || (exists|j: int| 0 <= j < s.len() && t[k] == s[j]) by {
            if k > 0 {
                assert(t[k] == s[k - 1]);
            }
        }
    } else if host_key(b) == host_key(s[0]) {
        assert forall|i: int, j: int| 0 <= i < j < t.len() implies #[trigger] lex_lt(
            host_key(t[i]),
            host_key(t[j]),
        ) by {
            assert(t[j] == s[j]);
            if i > 0 {
                assert(t[i] == s[i]);
            }
        }
        assert forall|k: int| 0 <= k < t.len() implies host_key(#[trigger] t[k]) == host_key(b)
            || (exists|j: int| 0 <= j < s.len() && t[k] == s[j]) by {
            if k > 0 {
                assert(t[k] == s[k]);
            }
        }
    } else {
        lemma_lex_lt_total(host_key(b), host_key(s[0]));
        let rest = s.drop_first();
        assert(sorted_unique(rest)) by {
            assert(forall|i: int, j: int|
                0 <= i < j < rest.len() ==> rest[i] == s[i + 1] && rest[j] == s[j + 1]);
        }
        lemma_put_sorted(rest, b);
        let tr = spec_put(rest, b);
        assert forall|i: int, j: int| 0 <= i < j < t.len() implies #[trigger] lex_lt(
            host_key(t[i]),
            host_key(t[j]),
        ) by {
            if i == 0 {
                assert(t[j] == tr[j - 1]);
                if host_key(tr[j - 1]) == host_key(b) {
                    assert(lex_lt(host_key(s[0]), host_key(b)));
                } else {
                    let w = choose|w: int| 0 <= w < rest.len() && tr[j - 1] == rest[w];
                    assert(rest[w] == s[w + 1]);
                    assert(lex_lt(host_key(s[0]), host_key(s[w + 1])));
                }
            } else {
                assert(t[i] == tr[i - 1] && t[j] == tr[j - 1]);
            }
        }
        assert forall|k: int| 0 <= k < t.len() implies host_key(#[trigger] t[k]) == host_key(b)
            || (exists|j: int| 0 <= j < s.len() && t[k] == s[j]) by {
            if k == 0 {
                assert(t[0] == s[0]);
            } else {
                assert(t[k] == tr[k - 1]);
                if host_key(tr[k - 1]) != host_key(b) {
                    let w = choose|w: int| 0 <= w < rest.len() && tr[k - 1] == rest[w];
                    assert(t[k] == s[w + 1]);
                }
            }
        }
    }
}

/// Law: a put is found by a get for its hostname, whole and unchanged.
pub proof fn lemma_put_then_get(s: Seq<BackendV>, b: BackendV)
    ensures
        spec_lookup(spec_put(s, b), b.hostname) == Some(b),
    decreases s.len(),
{
    if s.len() > 0 && !lex_lt(host_key(b), host_key(s[0])) && host_key(b) != host_key(s[0]) {
        assert(s[0].hostname != b.hostname);
        lemma_put_then_get(s.drop_first(), b);
        assert((seq![s[0]] + spec_put(s.drop_first(), b)).drop_first() =~= spec_put(
            s.drop_first(),
            b,
        ));
    } else if s.len() > 0 && !lex_lt(host_key(b), host_key(s[0])) {
        assert((seq![b] + s.drop_first())[0] == b);
    }
}

/// Law: a put changes no other hostname's entry.
pub proof fn lemma_put_get_other(s: Seq<BackendV>, b: BackendV, h: Seq<char>)
    requires
        h != b.hostname,
    ensures
        spec_lookup(spec_put(s, b), h) == spec_lookup(s, h),
    decreases s.len(),
{
    if s.len() == 0 {
        assert(seq![b].drop_first() =~= s);
    } else if lex_lt(host_key(b), host_key(s[0])) {
        assert((seq![b] + s).drop_first() =~= s);
    } else if host_key(b) == host_key(s[0]) {
        lemma_encode_utf8_injective(b.hostname, s[0].hostname);
        assert((seq![b] + s.drop_first()).drop_first() =~= s.drop_first());
    } else {
        lemma_put_get_other(s.drop_first(), b, h);
        assert((seq![s[0]] + spec_put(s.drop_first(), b)).drop_first() =~= spec_put(
            s.drop_first(),
            b,
        ));
    }
}

/// No entry for `h` anywhere: a get for `h` finds nothing.
pub proof fn lemma_lookup_absent(s: Seq<BackendV>, h: Seq<char>)
    requires
        forall|j: int| 0 <= j < s.len() ==> (#[trigger] s[j]).hostname != h,
    ensures
        spec_lookup(s, h) is None,
    decreases s.len(),
{
    if s.len() > 0 {
        lemma_lookup_absent(s.drop_first(), h);
    }
}

/// A delete leaves the table sorted.
pub proof fn lemma_delete_sorted(s: Seq<BackendV>, h: Seq<char>)
    requires
        sorted_unique(s),
    ensures
        sorted_unique(spec_delete(s, h)),
        spec_delete(s, h).len() <= s.len(),
        forall|k: int|
            0 <= k < spec_delete(s, h).len() ==> exists|j: int|
                0 <= j < s.len() && #[trigger] spec_delete(s, h)[k] == s[j] && k <= j,
    decreases s.len(),
{
    let t = spec_delete(s, h);
    if s.len() == 0 {
    } else if s[0].hostname == h {
        assert(forall|k: int| 0 <= k < t.len() ==> #[trigger] t[k] == s[k + 1]);
    } else {
        let rest = s.drop_first();
        assert(sorted_unique(rest)) by {
            assert(forall|i: int, j: int|
                0 <= i < j < rest.len() ==> rest[i] == s[i + 1] && rest[j] == s[j + 1]);
        }
        lemma_delete_sorted(rest, h);
        let tr = spec_delete(rest, h);
        assert forall|k: int| 0 <= k < t.len() implies exists|j: int|
            0 <= j < s.len() && #[trigger] t[k] == s[j] && k <= j by {
            if k == 0 {
                assert(t[0] == s[0]);
            } else {
                assert(t[k] == tr[k - 1]);
                let w = choose|w: int| 0 <= w < rest.len() && tr[k - 1] == rest[w] && k - 1 <= w;
                assert(t[k] == s[w + 1]);
            }
        }
        assert forall|i: int, j: int| 0 <= i < j < t.len() implies #[trigger] lex_lt(
            host_key(t[i]),
            host_key(t[j]),
        ) by {
            if i == 0 {
                let w = choose|w: int| 0 <= w < s.len() && t[j] == s[w] && j <= w;
                assert(lex_lt(host_key(s[0]), host_key(s[w])));
            } else {
                assert(t[i] == tr[i - 1] && t[j] == tr[j - 1]);
            }
        }
    }
}

/// Law: after a delete for `h`, a get for `h` finds nothing (the table
/// being sorted, `h` had at most one entry).
pub proof fn lemma_delete_then_get(s: Seq<BackendV>, h: Seq<char>)
    requires
        sorted_unique(s),
    ensures
        spec_lookup(spec_delete(s, h), h) is None,
    decreases s.len(),
{
    let rest = s.drop_first();
    if s.len() > 0 {
        assert(sorted_unique(rest)) by {
            assert(forall|i: int, j: int|
                0 <= i < j < rest.len() ==> rest[i] == s[i + 1] && rest[j] == s[j + 1]);
        }
        if s[0].hostname == h {
            assert forall|j: int| 0 <= j < rest.len() implies (#[trigger] rest[j]).hostname
                != h by {
                assert(rest[j] == s[j + 1]);
                assert(lex_lt(host_key(s[0]), host_key(s[j + 1])));
                if rest[j].hostname == h {
                    lemma_lex_lt_irrefl(host_key(s[0]));
                }
            }
            lemma_lookup_absent(rest, h);
        } else {
            lemma_delete_then_get(rest, h);
            assert((seq![s[0]] + spec_delete(rest, h)).drop_first() =~= spec_delete(rest, h));
        }
    }
}

/// Law: a delete changes no other hostname's entry.
pub proof fn lemma_delete_get_other(s: Seq<BackendV>, h: Seq<char>, other: Seq<char>)
    requires
        other != h,
    ensures
        spec_lookup(spec_delete(s, h), other) == spec_lookup(s, other),
    decreases s.len(),
{
    if s.len() > 0 {
        if s[0].hostname == h {
        } else {
            lemma_delete_get_other(s.drop_first(), h, other);
            assert((seq![s[0]] + spec_delete(s.drop_first(), h)).drop_first() =~= spec_delete(
                s.drop_first(),
                h,
            ));
        }
    }
}

proof fn lemma_put_is_insert(s: Seq<BackendV>, b: BackendV, i: int)
    requires
        0 <= i <= s.len(),
        forall|j: int| 0 <= j < i ==> lex_lt(host_key(#[trigger] s[j]), host_key(b)),
        i < s.len() ==> lex_lt(host_key(b), host_key(s[i])),
    ensures
        spec_put(s, b) == s.insert(i, b),
    decreases s.len(),
{
    if s.len() == 0 {
        assert(spec_put(s, b) =~= s.insert(0, b));
    } else if i == 0 {
        assert(seq![b] + s =~= s.insert(0, b));
    } else {
        assert(lex_lt(host_key(s[0]), host_key(b)));
        lemma_lex_lt_asym(host_key(s[0]), host_key(b));
        if host_key(b) == host_key(s[0]) {
            lemma_lex_lt_irrefl(host_key(s[0]));
        }
        let rest = s.drop_first();
        assert(forall|j: int| 0 <= j < i - 1 ==> #[trigger] rest[j] == s[j + 1]);
        if i - 1 < rest.len() {
            assert(rest[i - 1] == s[i]);
        }
        lemma_put_is_insert(rest, b, i - 1);
        assert(seq![s[0]] + rest.insert(i - 1, b) =~= s.insert(i, b));
    }
}

proof fn lemma_put_is_update(s: Seq<BackendV>, b: BackendV, i: int)
    requires
        0 <= i < s.len(),
        forall|j: int| 0 <= j < i ==> lex_lt(host_key(#[trigger] s[j]), host_key(b)),
        host_key(s[i]) == host_key(b),
    ensures
        spec_put(s, b) == s.update(i, b),
    decreases s.len(),
{
    if i == 0 {
        lemma_lex_lt_irrefl(host_key(s[0]));
        assert(seq![b] + s.drop_first() =~= s.update(0, b));
    } else {
        assert(lex_lt(host_key(s[0]), host_key(b)));
        lemma_lex_lt_asym(host_key(s[0]), host_key(b));
        if host_key(b) == host_key(s[0]) {
            lemma_lex_lt_irrefl(host_key(s[0]));
        }
        let rest = s.drop_first();
        assert(forall|j: int| 0 <= j < i - 1 ==> #[trigger] rest[j] == s[j + 1]);
        assert(rest[i - 1] == s[i]);
        lemma_put_is_update(rest, b, i - 1);
        assert(seq![s[0]] + rest.update(i - 1, b) =~= s.update(i, b));
    }
}

proof fn lemma_delete_is_remove(s: Seq<BackendV>, h: Seq<char>, i: int)
    requires
        0 <= i < s.len(),
        s[i].hostname == h,
        forall|j: int| 0 <= j < i ==> (#[trigger] s[j]).hostname != h,
    ensures
        spec_delete(s, h) == s.remove(i),
    decreases s.len(),
{
    if i == 0 {
        assert(s.drop_first() =~= s.remove(0));
    } else {
        let rest = s.drop_first();
        assert(forall|j: int| 0 <= j < i - 1 ==> rest[j] == s[j + 1]);
        assert(rest[i - 1] == s[i]);
        lemma_delete_is_remove(rest, h, i - 1);
        assert(seq![s[0]] + rest.remove(i - 1) =~= s.remove(i));
    }
}

proof fn lemma_delete_is_noop(s: Seq<BackendV>, h: Seq<char>)
    requires
        forall|j: int| 0 <= j < s.len() ==> (#[trigger] s[j]).hostname != h,
    ensures
        spec_delete(s, h) == s,
    decreases s.len(),
{
    if s.len() > 0 {
        lemma_delete_is_noop(s.drop_first(), h);
        assert(seq![s[0]] + s.drop_first() =~= s);
    }
}

proof fn lemma_lookup_found(s: Seq<BackendV>, h: Seq<char>, i: int)
    requires
        0 <= i < s.len(),
        s[i].hostname == h,
        forall|j: int| 0 <= j < i ==> (#[trigger] s[j]).hostname != h,
    ensures
        spec_lookup(s, h) == Some(s[i]),
    decreases s.len(),
{
    if i > 0 {
        let rest = s.drop_first();
        assert(forall|j: int| 0 <= j < i - 1 ==> rest[j] == s[j + 1]);
        assert(rest[i - 1] == s[i]);
        lemma_lookup_found(rest, h, i - 1);
    }
}

fn bytes_eq(a: &[u8], b: &[u8]) -> (r: bool)
    ensures
        r == (a@ == b@),
{
    if a.len() != b.len() {
        return false;
    }
    let mut i: usize = 0;
    while i < a.len()
        invariant
            i <= a@.len(),
            a@.len() == b@.len(),
            forall|j: int| 0 <= j < i ==> a@[j] == b@[j],
        decreases a@.len() - i,
    {
        if a[i] != b[i] {
            return false;
        }
        i += 1;
    }
    proof {
        assert(a@ =~= b@);
    }
    true
}

fn bytes_lt_from(a: &[u8], b: &[u8], i: usize) -> (r: bool)
    requires
        i <= a@.len(),
        i <= b@.len(),
    ensures
        r == lex_lt(a@.skip(i as int), b@.skip(i as int)),
    decreases a@.len() - i,
{
    proof {
        if i < a@.len() && i < b@.len() {
            assert(a@.skip(i as int).drop_first() =~= a@.skip(i as int + 1));
            assert(b@.skip(i as int).drop_first() =~= b@.skip(i as int + 1));
        }
    }
    if i == b.len() {
        false
    } else if i == a.len() {
        true
    } else if a[i] < b[i] {
        true
    } else if a[i] > b[i] {
        false
    } else {
        bytes_lt_from(a, b, i + 1)
    }
}

/// Compares two strings the way their UTF-8 encodings sort.
fn str_lt(a: &str, b: &str) -> (r: bool)
    ensures
        r == lex_lt(encode_utf8(a@), encode_utf8(b@)),
{
    let r = bytes_lt_from(a.as_bytes(), b.as_bytes(), 0);
    proof {
        assert(encode_utf8(a@).skip(0) =~= encode_utf8(a@));
        assert(encode_utf8(b@).skip(0) =~= encode_utf8(b@));
    }
    r
}

/// Decides whether two strings hold the same characters.
fn str_eq(a: &str, b: &str) -> (r: bool)
    ensures
        r == (a@ == b@),
{
    let r = bytes_eq(a.as_bytes(), b.as_bytes());
    proof {
        if encode_utf8(a@) == encode_utf8(b@) {
            lemma_encode_utf8_injective(a@, b@);
        }
    }
    r
}

/// The routing table: its view is the sorted sequence of its records.
#[derive(Debug)]
pub struct Storage {
    backends: Vec<Backend>,
}

impl View for Storage {
    type V = Seq<BackendV>;

    closed spec fn view(&self) -> Seq<BackendV> {
        self.backends@.map_values(|b: Backend| b@)
    }
}

impl Default for Storage {
    /// An empty routing table.
    fn default() -> (r: Self)
        ensures
            r@ == Seq::<BackendV>::empty(),
    {
        let r = Storage { backends: Vec::new() };
        proof {
            assert(r@ =~= Seq::<BackendV>::empty());
        }
        r
    }
}

fn lower_bound(v: &Vec<Backend>, key: &str) -> (i: usize)
    ensures
        i <= v@.len(),
        forall|j: int| 0 <= j < i ==> lex_lt(encode_utf8((#[trigger] v@[j])@.hostname), encode_utf8(key@)),
        i < v@.len() ==> !lex_lt(encode_utf8(v@[i as int]@.hostname), encode_utf8(key@)),
{
    let mut i: usize = 0;
    while i < v.len()
        invariant
            i <= v@.len(),
            forall|j: int|
                0 <= j < i ==> lex_lt(
                    encode_utf8((#[trigger] v@[j])@.hostname),
                    encode_utf8(key@),
                ),
        decreases v@.len() - i,
    {
        let e: &Backend = &v[i];
        if !str_lt(e.hostname(), key) {
            return i;
        }
        i += 1;
    }
    i
}

fn find_index(v: &Vec<Backend>, key: &str) -> (r: Option<usize>)
    ensures
        match r {
            Some(i) => {
                &&& i < v@.len()
                &&& v@[i as int]@.hostname == key@
                &&& forall|j: int| 0 <= j < i ==> (#[trigger] v@[j])@.hostname != key@
            },
            None => forall|j: int| 0 <= j < v@.len() ==> (#[trigger] v@[j])@.hostname != key@,
        },
{
    let mut i: usize = 0;
    while i < v.len()
        invariant
            i <= v@.len(),
            forall|j: int| 0 <= j < i ==> (#[trigger] v@[j])@.hostname != key@,
        decreases v@.len() - i,
    {
        let e: &Backend = &v[i];
        if str_eq(e.hostname(), key) {
            return Some(i);
        }
        i += 1;
    }
    None
}

impl Storage {
    /// Whether the table's entries are strictly sorted by hostname: the
    /// invariant every operation keeps.
    pub open spec fn wf(&self) -> bool {
        sorted_unique(self@)
    }

    /// An empty routing table.
    pub fn new() -> (r: Self)
        ensures
            r@ == Seq::<BackendV>::empty(),
            r.wf(),
    {
        Self::default()
    }

    /// Inserts a backend under its hostname, overwriting any entry that
    /// hostname had.  Always succeeds.
    pub fn add_backend(&mut self, backend: Backend)
        requires
            old(self).wf(),
        ensures
            final(self).wf(),
            final(self)@ == spec_put(old(self)@, backend@),
    {
        let ghost s = self@;
        proof {
            lemma_put_sorted(s, backend@);
        }
        let i = lower_bound(&self.backends, backend.hostname());
        if i < self.backends.len() {
            let same = {
                let e: &Backend = &self.backends[i];
                str_eq(e.hostname(), backend.hostname())
            };
            if same {
                proof {
                    lemma_put_is_update(s, backend@, i as int);
                }
                self.backends.remove(i);
                self.backends.insert(i, backend);
                proof {
                    assert(self@ =~= spec_put(s, backend@));
                }
                return;
            }
            proof {
                if host_key(s[i as int]) == host_key(backend@) {
                    lemma_encode_utf8_injective(s[i as int].hostname, backend@.hostname);
                }
                lemma_lex_lt_total(host_key(s[i as int]), host_key(backend@));
                lemma_put_is_insert(s, backend@, i as int);
            }
            self.backends.insert(i, backend);
            proof {
                assert(self@ =~= spec_put(s, backend@));
            }
            return;
        }
        proof {
            lemma_put_is_insert(s, backend@, i as int);
        }
        self.backends.insert(i, backend);
        proof {
            assert(self@ =~= spec_put(s, backend@));
        }
    }

    /// Removes the entry for `host`; removing an absent hostname is a
    /// no-op.  Always succeeds.
    pub fn remove_backend(&mut self, host: &str)
        requires
            old(self).wf(),
        ensures
            final(self).wf(),
            final(self)@ == spec_delete(old(self)@, host@),
    {
        let ghost s = self@;
        proof {
            lemma_delete_sorted(s, host@);
        }
        match find_index(&self.backends, host) {
            Some(i) => {
                proof {
                    lemma_delete_is_remove(s, host@, i as int);
                }
                self.backends.remove(i);
                proof {
                    assert(self@ =~= spec_delete(s, host@));
                }
            },
            None => {
                proof {
                    lemma_delete_is_noop(s, host@);
                }
            },
        }
    }

    /// The entry for `host`, cloned out whole: an atomic snapshot of the
    /// record, usable after any lock on the table is gone.
    pub fn get_backend(&self, host: &str) -> (r: Option<Backend>)
        ensures
            match r {
                Some(b) => spec_lookup(self@, host@) == Some(b@),
                None => spec_lookup(self@, host@) is None,
            },
    {
        match find_index(&self.backends, host) {
            Some(i) => {
                proof {
                    lemma_lookup_found(self@, host@, i as int);
                }
                let e: &Backend = &self.backends[i];
                Some(e.clone())
            },
            None => {
                proof {
                    lemma_lookup_absent(self@, host@);
                }
                None
            },
        }
    }

    /// All entries, ascending by hostname.
    pub fn get_backends(&self) -> (r: &Vec<Backend>)
        ensures
            r@.len() == self@.len(),
            forall|i: int| 0 <= i < self@.len() ==> (#[trigger] r@[i])@ == self@[i],
    {
        &self.backends
    }
}

} // verus!
