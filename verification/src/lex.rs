//! Lexicographic order on byte strings and on lists of them, and a stable sort
//! by keys made of a number and such a list.

use vstd::prelude::*;

verus! {

/// Is `lt` a strict total order: irreflexive, transitive, and relating any two
/// different values one way or the other?
pub open spec fn strict_total<T>(lt: spec_fn(T, T) -> bool) -> bool {
    &&& forall|a: T| !(#[trigger] lt(a, a))
    &&& forall|a: T, b: T, c: T| #[trigger] lt(a, b) && #[trigger] lt(b, c) ==> lt(a, c)
    &&& forall|a: T, b: T| a != b ==> #[trigger] lt(a, b) || lt(b, a)
}

/// Lexicographic order by `lt`: the first place where the two differ decides,
/// and a proper prefix comes first.
pub open spec fn lex_lt<T>(a: Seq<T>, b: Seq<T>, lt: spec_fn(T, T) -> bool) -> bool
    decreases a.len(),
{
    if a.len() == 0 {
        b.len() > 0
    } else if b.len() == 0 {
        false
    } else if lt(a[0], b[0]) {
        true
    } else if a[0] == b[0] {
        lex_lt(a.drop_first(), b.drop_first(), lt)
    } else {
        false
    }
}

/// The order of bytes by value.
pub open spec fn byte_order() -> spec_fn(u8, u8) -> bool {
    |x: u8, y: u8| x < y
}

/// The order of byte strings, as `String` and `[u8]` compare: byte by byte.
pub open spec fn text_order() -> spec_fn(Seq<u8>, Seq<u8>) -> bool {
    |x: Seq<u8>, y: Seq<u8>| lex_lt(x, y, byte_order())
}

/// A lexicographic order over a strict total order is one too.
pub proof fn lemma_lex_strict_total<T>(a: Seq<T>, b: Seq<T>, c: Seq<T>, lt: spec_fn(T, T) -> bool)
    requires
        strict_total(lt),
    ensures
        !lex_lt(a, a, lt),
        lex_lt(a, b, lt) && lex_lt(b, c, lt) ==> lex_lt(a, c, lt),
        a != b ==> lex_lt(a, b, lt) || lex_lt(b, a, lt),
    decreases a.len(),
{
    if a.len() > 0 {
        assert(!lt(a[0], a[0]));
        lemma_lex_strict_total(a.drop_first(), a.drop_first(), a.drop_first(), lt);
    }
    if a.len() > 0 && b.len() > 0 {
        let c2 = if c.len() > 0 { c.drop_first() } else { c };
        lemma_lex_strict_total(a.drop_first(), b.drop_first(), c2, lt);
        if a[0] != b[0] {
            assert(lt(a[0], b[0]) || lt(b[0], a[0]));
        } else if a != b {
            if a.drop_first() == b.drop_first() {
                assert(a =~= b) by {
                    assert forall|i: int| 0 <= i < a.len() implies a[i] == b[i] by {
                        if i > 0 {
                            assert(a[i] == a.drop_first()[i - 1]);
                            assert(b[i] == b.drop_first()[i - 1]);
                        }
                    }
                }
            }
        }
        if c.len() > 0 && lex_lt(a, b, lt) && lex_lt(b, c, lt) {
            if lt(a[0], b[0]) {
                if lt(b[0], c[0]) {
                    assert(lt(a[0], c[0]));
                }
            } else if lt(b[0], c[0]) {
                assert(a[0] == b[0]);
            }
        }
    }
    if a.len() == 0 && b.len() == 0 && a != b {
        assert(a =~= b);
    }
}

/// Bytes by value form a strict total order.
pub proof fn lemma_byte_order_total()
    ensures
        strict_total(byte_order()),
{
}

/// Byte strings compared byte by byte form a strict total order.
pub proof fn lemma_text_order_total()
    ensures
        strict_total(text_order()),
{
    lemma_byte_order_total();
    assert forall|a: Seq<u8>| !(#[trigger] text_order()(a, a)) by {
        lemma_lex_strict_total(a, a, a, byte_order());
    }
    assert forall|a: Seq<u8>, b: Seq<u8>, c: Seq<u8>|
        #[trigger] text_order()(a, b) && #[trigger] text_order()(b, c) implies text_order()(a, c) by {
        lemma_lex_strict_total(a, b, c, byte_order());
    }
    assert forall|a: Seq<u8>, b: Seq<u8>| a != b implies #[trigger] text_order()(a, b) || text_order()(b, a) by {
        lemma_lex_strict_total(a, b, a, byte_order());
    }
}

/// How two values compare.
#[derive(Debug, PartialEq, Eq, Structural, Clone, Copy)]
pub enum Cmp {
    Less,
    Equal,
    Greater,
}

/// One step of a lexicographic comparison: where the first elements are equal,
/// the order is that of the rests.
proof fn lemma_lex_step<T>(a: Seq<T>, b: Seq<T>, i: int, lt: spec_fn(T, T) -> bool)
    requires
        0 <= i < a.len(),
        i < b.len(),
        a[i] == b[i],
        !lt(a[i], a[i]),
    ensures
        lex_lt(a.skip(i), b.skip(i), lt) == lex_lt(a.skip(i + 1), b.skip(i + 1), lt),
        lex_lt(b.skip(i), a.skip(i), lt) == lex_lt(b.skip(i + 1), a.skip(i + 1), lt),
        (a.skip(i) == b.skip(i)) == (a.skip(i + 1) == b.skip(i + 1)),
{
    assert(a.skip(i).drop_first() =~= a.skip(i + 1));
    assert(b.skip(i).drop_first() =~= b.skip(i + 1));
    if a.skip(i + 1) == b.skip(i + 1) {
        assert(a.skip(i) =~= b.skip(i)) by {
            assert forall|k: int| 0 <= k < a.skip(i).len() implies a.skip(i)[k] == b.skip(i)[k] by {
                if k > 0 {
                    assert(a.skip(i)[k] == a.skip(i + 1)[k - 1]);
                    assert(b.skip(i)[k] == b.skip(i + 1)[k - 1]);
                }
            }
        }
    }
}

/// Compares two byte strings byte by byte.
pub fn compare_bytes(a: &[u8], b: &[u8]) -> (c: Cmp)
    ensures
        (c == Cmp::Less) == lex_lt(a@, b@, byte_order()),
        (c == Cmp::Equal) == (a@ == b@),
        (c == Cmp::Greater) == lex_lt(b@, a@, byte_order()),
{
    let mut i: usize = 0;
    assert(a@.skip(0) =~= a@ && b@.skip(0) =~= b@);
    while i < a.len() && i < b.len()
        invariant
            i <= a@.len(),
            i <= b@.len(),
            lex_lt(a@, b@, byte_order()) == lex_lt(a@.skip(i as int), b@.skip(i as int), byte_order()),
            lex_lt(b@, a@, byte_order()) == lex_lt(b@.skip(i as int), a@.skip(i as int), byte_order()),
            (a@ == b@) == (a@.skip(i as int) == b@.skip(i as int)),
        decreases a@.len() - i,
    {
        let x = a[i];
        let y = b[i];
        if x < y {
            return Cmp::Less;
        }
        if y < x {
            return Cmp::Greater;
        }
        proof {
            lemma_lex_step(a@, b@, i as int, byte_order());
        }
        i = i + 1;
    }
    if i < b.len() {
        Cmp::Less
    } else if i < a.len() {
        Cmp::Greater
    } else {
        assert(a@.skip(i as int) =~= b@.skip(i as int));
        Cmp::Equal
    }
}

/// The bytes of each text.
pub open spec fn texts_view(v: Seq<Vec<u8>>) -> Seq<Seq<u8>> {
    v.map_values(|t: Vec<u8>| t@)
}

/// Compares two lists of byte strings, text by text.
pub fn compare_texts(a: &Vec<Vec<u8>>, b: &Vec<Vec<u8>>) -> (c: Cmp)
    ensures
        (c == Cmp::Less) == lex_lt(texts_view(a@), texts_view(b@), text_order()),
        (c == Cmp::Equal) == (texts_view(a@) == texts_view(b@)),
        (c == Cmp::Greater) == lex_lt(texts_view(b@), texts_view(a@), text_order()),
{
    let ghost va = texts_view(a@);
    let ghost vb = texts_view(b@);
    proof {
        lemma_text_order_total();
    }
    let mut i: usize = 0;
    assert(va.skip(0) =~= va && vb.skip(0) =~= vb);
    while i < a.len() && i < b.len()
        invariant
            va == texts_view(a@),
            vb == texts_view(b@),
            strict_total(text_order()),
            i <= a@.len(),
            i <= b@.len(),
            lex_lt(va, vb, text_order()) == lex_lt(va.skip(i as int), vb.skip(i as int), text_order()),
            lex_lt(vb, va, text_order()) == lex_lt(vb.skip(i as int), va.skip(i as int), text_order()),
            (va == vb) == (va.skip(i as int) == vb.skip(i as int)),
        decreases a@.len() - i,
    {
        let c = compare_bytes(a[i].as_slice(), b[i].as_slice());
        assert(va[i as int] == a@[i as int]@ && vb[i as int] == b@[i as int]@);
        match c {
            Cmp::Less => {
                assert(va.skip(i as int)[0] == va[i as int] && vb.skip(i as int)[0] == vb[i as int]);
                return Cmp::Less;
            },
            Cmp::Greater => {
                assert(va.skip(i as int)[0] == va[i as int] && vb.skip(i as int)[0] == vb[i as int]);
                return Cmp::Greater;
            },
            Cmp::Equal => {},
        }
        proof {
            assert(!text_order()(va[i as int], va[i as int]));
            lemma_lex_step(va, vb, i as int, text_order());
        }
        i = i + 1;
    }
    if i < b.len() {
        Cmp::Less
    } else if i < a.len() {
        Cmp::Greater
    } else {
        assert(va.skip(i as int) =~= vb.skip(i as int));
        Cmp::Equal
    }
}

/// A sort key: a number first, then a list of texts.
pub struct SortKey {
    pub primary: u64,
    pub texts: Vec<Vec<u8>>,
}

/// A sort key as a number and a list of byte strings.
pub open spec fn key_view(k: SortKey) -> (int, Seq<Seq<u8>>) {
    (k.primary as int, texts_view(k.texts@))
}

/// The order of sort keys: by number, then by texts.
pub open spec fn key_order() -> spec_fn((int, Seq<Seq<u8>>), (int, Seq<Seq<u8>>)) -> bool {
    |a: (int, Seq<Seq<u8>>), b: (int, Seq<Seq<u8>>)| a.0 < b.0 || (a.0 == b.0 && lex_lt(a.1, b.1, text_order()))
}

/// Sort keys are in a strict total order.
pub proof fn lemma_key_order_total()
    ensures
        strict_total(key_order()),
{
    lemma_text_order_total();
    assert forall|a: (int, Seq<Seq<u8>>)| !(#[trigger] key_order()(a, a)) by {
        lemma_lex_strict_total(a.1, a.1, a.1, text_order());
    }
    assert forall|a: (int, Seq<Seq<u8>>), b: (int, Seq<Seq<u8>>), c: (int, Seq<Seq<u8>>)|
        #[trigger] key_order()(a, b) && #[trigger] key_order()(b, c) implies key_order()(a, c) by {
        lemma_lex_strict_total(a.1, b.1, c.1, text_order());
    }
    assert forall|a: (int, Seq<Seq<u8>>), b: (int, Seq<Seq<u8>>)|
        a != b implies #[trigger] key_order()(a, b) || key_order()(b, a) by {
        lemma_lex_strict_total(a.1, b.1, a.1, text_order());
    }
}

/// Does position `x` come before position `y` when sorting `keys` stably by `lt`:
/// a smaller key first, and equal keys in the order given?
pub open spec fn comes_before<K>(keys: Seq<K>, lt: spec_fn(K, K) -> bool, x: int, y: int) -> bool {
    lt(keys[x], keys[y]) || (keys[x] == keys[y] && x < y)
}

/// Is `order` the positions of `keys`, each once, sorted stably by `lt`?
pub open spec fn stably_sorted<K>(keys: Seq<K>, lt: spec_fn(K, K) -> bool, order: Seq<usize>) -> bool {
    &&& order.len() == keys.len()
    &&& forall|k: int| 0 <= k < order.len() ==> (#[trigger] order[k]) < keys.len()
    &&& forall|i: usize| i < keys.len() ==> #[trigger] order.contains(i)
    &&& forall|a: int, b: int|
        0 <= a < b < order.len() ==> comes_before(keys, lt, #[trigger] order[a] as int, #[trigger] order[b] as int)
}

/// The keys as numbers and lists of byte strings.
pub open spec fn keys_view(keys: Seq<SortKey>) -> Seq<(int, Seq<Seq<u8>>)> {
    keys.map_values(|k: SortKey| key_view(k))
}

/// Is key `a` smaller than key `b`?
pub fn key_less(a: &SortKey, b: &SortKey) -> (r: bool)
    ensures
        r == key_order()(key_view(*a), key_view(*b)),
{
    if a.primary != b.primary {
        a.primary < b.primary
    } else {
        compare_texts(&a.texts, &b.texts) == Cmp::Less
    }
}

/// The positions of `keys` sorted by key, equal keys in the order given, as a
/// stable sort leaves them.
pub fn stable_order(keys: &Vec<SortKey>) -> (order: Vec<usize>)
    ensures
        stably_sorted(keys_view(keys@), key_order(), order@),
{
    let ghost kv = keys_view(keys@);
    proof {
        lemma_key_order_total();
    }
    let mut order: Vec<usize> = Vec::new();
    let mut j: usize = 0;
    while j < keys.len()
        invariant
            kv == keys_view(keys@),
            strict_total(key_order()),
            j <= keys@.len(),
            order@.len() == j,
            forall|k: int| 0 <= k < order@.len() ==> (#[trigger] order@[k]) < j,
            forall|i: usize| i < j ==> #[trigger] order@.contains(i),
            forall|a: int, b: int|
                0 <= a < b < order@.len() ==> comes_before(kv, key_order(), #[trigger] order@[a] as int, #[trigger] order@[b] as int),
        decreases keys@.len() - j,
    {
        let mut p: usize = 0;
        while p < order.len() && !key_less(&keys[j], &keys[order[p]])
            invariant
                kv == keys_view(keys@),
                j < keys@.len(),
                p <= order@.len(),
                forall|k: int| 0 <= k < order@.len() ==> (#[trigger] order@[k]) < j,
                forall|q: int| 0 <= q < p ==> !key_order()(kv[j as int], kv[#[trigger] order@[q] as int]),
            decreases order@.len() - p,
        {
            p = p + 1;
        }
        let ghost old_order = order@;
        order.insert(p, j);
        proof {
            assert forall|a: int, b: int| 0 <= a < b < order@.len() implies comes_before(
                kv,
                key_order(),
                #[trigger] order@[a] as int,
                #[trigger] order@[b] as int,
            ) by {
                if b < p {
                    assert(order@[a] == old_order[a] && order@[b] == old_order[b]);
                } else if b == p {
                    assert(order@[a] == old_order[a]);
                    let x = old_order[a] as int;
                    assert(!key_order()(kv[j as int], kv[x]));
                    if kv[x] != kv[j as int] {
                        assert(key_order()(kv[x], kv[j as int]) || key_order()(kv[j as int], kv[x]));
                    }
                } else if a == p {
                    assert(order@[b] == old_order[b - 1]);
                    let y = old_order[p as int] as int;
                    assert(key_order()(kv[j as int], kv[y]));
                    if b - 1 > p {
                        assert(comes_before(kv, key_order(), y, old_order[b - 1] as int));
                        let z = old_order[b - 1] as int;
                        if key_order()(kv[y], kv[z]) {
                            assert(key_order()(kv[j as int], kv[z]));
                        }
                    }
                } else if a < p {
                    assert(order@[a] == old_order[a] && order@[b] == old_order[b - 1]);
                } else {
                    assert(order@[a] == old_order[a - 1] && order@[b] == old_order[b - 1]);
                }
            }
            assert forall|i: usize| i < j + 1 implies #[trigger] order@.contains(i) by {
                if i == j {
                    assert(order@[p as int] == j);
                } else {
                    assert(old_order.contains(i));
                    let w = choose|w: int| 0 <= w < old_order.len() && old_order[w] == i;
                    if w < p {
                        assert(order@[w] == i);
                    } else {
                        assert(order@[w + 1] == i);
                    }
                }
            }
        }
        j = j + 1;
    }
    order
}

/// A stable order by one key is one by another where the two keys compare and
/// match alike.
pub proof fn lemma_stably_sorted_transfer<K, L>(
    k1: Seq<K>,
    lt1: spec_fn(K, K) -> bool,
    k2: Seq<L>,
    lt2: spec_fn(L, L) -> bool,
    order: Seq<usize>,
)
    requires
        stably_sorted(k1, lt1, order),
        k1.len() == k2.len(),
        forall|x: int, y: int|
            #![trigger k2[x], k2[y]]
            0 <= x < k1.len() && 0 <= y < k1.len() ==> lt1(k1[x], k1[y]) == lt2(k2[x], k2[y])
                && (k1[x] == k1[y]) == (k2[x] == k2[y]),
    ensures
        stably_sorted(k2, lt2, order),
{
    assert forall|a: int, b: int| 0 <= a < b < order.len() implies comes_before(
        k2,
        lt2,
        #[trigger] order[a] as int,
        #[trigger] order[b] as int,
    ) by {
        assert(comes_before(k1, lt1, order[a] as int, order[b] as int));
        let x = order[a] as int;
        let y = order[b] as int;
        assert(k2[x] == k2[x] && k2[y] == k2[y]);
    }
}

} // verus!
