//! The orders in which lists are shown: a key of two numbers (larger first)
//! and a text (ascending or descending, compared character by character as
//! `String`'s `Ord` compares them), and a stable sort by such keys.
use vstd::prelude::*;

verus! {

/// Text order: character by character, a proper prefix first. (For UTF-8
/// strings this is the order of their bytes, which `String` uses.)
pub open spec fn text_lt(a: Seq<char>, b: Seq<char>) -> bool
    decreases a.len(),
{
    if a.len() == 0 {
        b.len() > 0
    } else if b.len() == 0 {
        false
    } else if a[0] != b[0] {
        a[0] < b[0]
    } else {
        text_lt(a.drop_first(), b.drop_first())
    }
}

/// No text comes before itself.
pub proof fn lemma_text_lt_irreflexive(a: Seq<char>)
    ensures
        !text_lt(a, a),
    decreases a.len(),
{
    if a.len() > 0 {
        lemma_text_lt_irreflexive(a.drop_first());
    }
}

/// Text order is transitive.
pub proof fn lemma_text_lt_transitive(a: Seq<char>, b: Seq<char>, c: Seq<char>)
    requires
        text_lt(a, b),
        text_lt(b, c),
    ensures
        text_lt(a, c),
    decreases a.len(),
{
    if a.len() > 0 && b.len() > 0 && c.len() > 0 && a[0] == b[0] && b[0] == c[0] {
        lemma_text_lt_transitive(a.drop_first(), b.drop_first(), c.drop_first());
    }
}

/// Of two different texts, one comes before the other.
pub proof fn lemma_text_lt_total(a: Seq<char>, b: Seq<char>)
    requires
        a != b,
    ensures
        text_lt(a, b) || text_lt(b, a),
    decreases a.len(),
{
    if a.len() > 0 && b.len() > 0 && a[0] == b[0] {
        if a.drop_first() == b.drop_first() {
            assert(a =~= seq![a[0]] + a.drop_first());
            assert(b =~= seq![b[0]] + b.drop_first());
        }
        lemma_text_lt_total(a.drop_first(), b.drop_first());
    } else if a.len() == 0 && b.len() == 0 {
        assert(a =~= b);
    }
}

fn seq_equal(a: &Vec<char>, b: &Vec<char>) -> (r: bool)
    ensures
        r == (a@ == b@),
{
    if a.len() != b.len() {
        return false;
    }
    let mut i: usize = 0;
    while i < a.len()
        invariant
            i <= a.len(),
            a.len() == b.len(),
            forall|k: int| 0 <= k < i ==> a@[k] == b@[k],
        decreases a.len() - i,
    {
        if a[i] != b[i] {
            return false;
        }
        i += 1;
    }
    assert(a@ =~= b@);
    true
}

fn text_less(a: &Vec<char>, b: &Vec<char>) -> (r: bool)
    ensures
        r == text_lt(a@, b@),
{
    let mut i: usize = 0;
    assert(a@.skip(0) =~= a@ && b@.skip(0) =~= b@);
    while i < a.len() && i < b.len() && a[i] == b[i]
        invariant
            i <= a.len(),
            i <= b.len(),
            forall|k: int| 0 <= k < i ==> a@[k] == b@[k],
            text_lt(a@, b@) == text_lt(a@.skip(i as int), b@.skip(i as int)),
        decreases a.len() - i,
    {
        proof {
            let sa = a@.skip(i as int);
            let sb = b@.skip(i as int);
            assert(sa.drop_first() =~= a@.skip(i + 1));
            assert(sb.drop_first() =~= b@.skip(i + 1));
        }
        i += 1;
    }
    if i == a.len() {
        i < b.len()
    } else if i == b.len() {
        false
    } else {
        a[i] < b[i]
    }
}

/// A sort key: two numbers compared larger first, then two texts compared
/// in turn, ascending, or both descending when `text_desc` is set.
pub struct SortKey {
    pub first: i64,
    pub second: i64,
    pub text: Vec<char>,
    pub text2: Vec<char>,
    pub text_desc: bool,
}

/// A sort key as values.
pub struct KeyView {
    pub first: i64,
    pub second: i64,
    pub text: Seq<char>,
    pub text2: Seq<char>,
    pub text_desc: bool,
}

impl DeepView for SortKey {
    type V = KeyView;

    open spec fn deep_view(&self) -> KeyView {
        KeyView { first: self.first, second: self.second, text: self.text@, text2: self.text2@, text_desc: self.text_desc }
    }
}

/// Order of text pairs: by the first text, then by the second.
pub open spec fn pair_lt(a1: Seq<char>, a2: Seq<char>, b1: Seq<char>, b2: Seq<char>) -> bool {
    text_lt(a1, b1) || (a1 == b1 && text_lt(a2, b2))
}

proof fn lemma_pair_lt_irreflexive(a1: Seq<char>, a2: Seq<char>)
    ensures
        !pair_lt(a1, a2, a1, a2),
{
    lemma_text_lt_irreflexive(a1);
    lemma_text_lt_irreflexive(a2);
}

proof fn lemma_pair_lt_transitive(a1: Seq<char>, a2: Seq<char>, b1: Seq<char>, b2: Seq<char>, c1: Seq<char>, c2: Seq<char>)
    requires
        pair_lt(a1, a2, b1, b2),
        pair_lt(b1, b2, c1, c2),
    ensures
        pair_lt(a1, a2, c1, c2),
{
    if text_lt(a1, b1) && text_lt(b1, c1) {
        lemma_text_lt_transitive(a1, b1, c1);
    } else if a1 == b1 && b1 == c1 {
        lemma_text_lt_transitive(a2, b2, c2);
    }
}

proof fn lemma_pair_lt_total(a1: Seq<char>, a2: Seq<char>, b1: Seq<char>, b2: Seq<char>)
    requires
        a1 != b1 || a2 != b2,
    ensures
        pair_lt(a1, a2, b1, b2) || pair_lt(b1, b2, a1, a2),
{
    if a1 != b1 {
        lemma_text_lt_total(a1, b1);
    } else {
        lemma_text_lt_total(a2, b2);
    }
}

/// Whether key `a` comes strictly before key `b` (keys of one list share
/// `text_desc`).
pub open spec fn key_lt(a: KeyView, b: KeyView) -> bool {
    if a.first != b.first {
        a.first > b.first
    } else if a.second != b.second {
        a.second > b.second
    } else if a.text_desc {
        pair_lt(b.text, b.text2, a.text, a.text2)
    } else {
        pair_lt(a.text, a.text2, b.text, b.text2)
    }
}

/// Whether the entry at position `i` comes before the one at `j`: by key,
/// and by position when the keys tie (the sort is stable).
pub open spec fn entry_before(keys: Seq<KeyView>, i: int, j: int) -> bool {
    key_lt(keys[i], keys[j]) || (!key_lt(keys[j], keys[i]) && i < j)
}

/// All keys of a list compare texts the same way.
pub open spec fn uniform_keys(keys: Seq<KeyView>) -> bool {
    forall|i: int, j: int| 0 <= i < keys.len() && 0 <= j < keys.len() ==> (#[trigger] keys[i]).text_desc == (#[trigger] keys[j]).text_desc
}

proof fn lemma_key_lt_asymmetric(a: KeyView, b: KeyView)
    requires
        a.text_desc == b.text_desc,
    ensures
        !(key_lt(a, b) && key_lt(b, a)),
{
    if a.first == b.first && a.second == b.second && key_lt(a, b) && key_lt(b, a) {
        if a.text_desc {
            lemma_pair_lt_transitive(b.text, b.text2, a.text, a.text2, b.text, b.text2);
            lemma_pair_lt_irreflexive(b.text, b.text2);
        } else {
            lemma_pair_lt_transitive(a.text, a.text2, b.text, b.text2, a.text, a.text2);
            lemma_pair_lt_irreflexive(a.text, a.text2);
        }
    }
}

proof fn lemma_key_lt_transitive(a: KeyView, b: KeyView, c: KeyView)
    requires
        a.text_desc == b.text_desc,
        b.text_desc == c.text_desc,
        key_lt(a, b),
        key_lt(b, c),
    ensures
        key_lt(a, c),
{
    if a.first == b.first && b.first == c.first && a.second == b.second && b.second == c.second {
        if a.text_desc {
            lemma_pair_lt_transitive(c.text, c.text2, b.text, b.text2, a.text, a.text2);
        } else {
            lemma_pair_lt_transitive(a.text, a.text2, b.text, b.text2, c.text, c.text2);
        }
    }
}

proof fn lemma_key_not_lt_transitive(a: KeyView, b: KeyView, c: KeyView)
    requires
        a.text_desc == b.text_desc,
        b.text_desc == c.text_desc,
        !key_lt(b, a),
        !key_lt(c, b),
    ensures
        !key_lt(c, a),
{
    if a.first == b.first && b.first == c.first && a.second == b.second && b.second == c.second {
        if a.text != b.text || a.text2 != b.text2 {
            lemma_pair_lt_total(a.text, a.text2, b.text, b.text2);
        }
        if b.text != c.text || b.text2 != c.text2 {
            lemma_pair_lt_total(b.text, b.text2, c.text, c.text2);
        }
        if a.text_desc {
            if pair_lt(a.text, a.text2, c.text, c.text2) {
                if a.text == b.text && a.text2 == b.text2 {
                } else {
                    lemma_pair_lt_transitive(b.text, b.text2, a.text, a.text2, c.text, c.text2);
                }
            }
        } else {
            if pair_lt(c.text, c.text2, a.text, a.text2) {
                if a.text == b.text && a.text2 == b.text2 {
                } else {
                    lemma_pair_lt_transitive(c.text, c.text2, a.text, a.text2, b.text, b.text2);
                }
            }
        }
    }
}

/// Whether positions are in sorted order.
pub open spec fn sorted_by(keys: Seq<KeyView>, order: Seq<usize>) -> bool {
    forall|a: int, b: int| 0 <= a < b < order.len() ==> entry_before(keys, #[trigger] order[a] as int, #[trigger] order[b] as int)
}

/// Whether `order` lists each position below `n` exactly once.
pub open spec fn is_permutation(order: Seq<usize>, n: nat) -> bool {
    &&& order.len() == n
    &&& forall|a: int| 0 <= a < order.len() ==> #[trigger] order[a] < n
    &&& forall|a: int, b: int| 0 <= a < b < order.len() ==> #[trigger] order[a] != #[trigger] order[b]
    &&& forall|v: usize| v < n ==> #[trigger] order.contains(v)
}

fn key_less(a: &SortKey, b: &SortKey) -> (r: bool)
    ensures
        r == key_lt(a.deep_view(), b.deep_view()),
{
    if a.first != b.first {
        a.first > b.first
    } else if a.second != b.second {
        a.second > b.second
    } else if a.text_desc {
        text_less(&b.text, &a.text) || (seq_equal(&b.text, &a.text) && text_less(&b.text2, &a.text2))
    } else {
        text_less(&a.text, &b.text) || (seq_equal(&a.text, &b.text) && text_less(&a.text2, &b.text2))
    }
}

/// The positions of a list in sorted order: by key, ties in list order.
pub fn sorted_order(keys: &Vec<SortKey>) -> (r: Vec<usize>)
    requires
        uniform_keys(keys.deep_view()),
    ensures
        is_permutation(r@, keys.len() as nat),
        sorted_by(keys.deep_view(), r@),
{
    let ghost kv = keys.deep_view();
    let mut out: Vec<usize> = Vec::new();
    let mut i: usize = 0;
    while i < keys.len()
        invariant
            i <= keys.len(),
            kv == keys.deep_view(),
            uniform_keys(kv),
            is_permutation(out@, i as nat),
            sorted_by(kv, out@),
        decreases keys.len() - i,
    {
        // The first position whose entry comes after entry `i`.
        let mut pos: usize = 0;
        while pos < out.len() && !key_less(&keys[i], &keys[out[pos]])
            invariant
                pos <= out.len(),
                i < keys.len(),
                kv == keys.deep_view(),
                is_permutation(out@, i as nat),
                forall|a: int| 0 <= a < pos ==> !key_lt(kv[i as int], #[trigger] kv[out@[a] as int]),
            decreases out.len() - pos,
        {
            assert(kv[out@[pos as int] as int] == keys[out@[pos as int] as int].deep_view());
            assert(kv[i as int] == keys[i as int].deep_view());
            pos += 1;
        }
        proof {
            if pos < out.len() {
                assert(kv[out@[pos as int] as int] == keys[out@[pos as int] as int].deep_view());
                assert(kv[i as int] == keys[i as int].deep_view());
                assert(key_lt(kv[i as int], kv[out@[pos as int] as int]));
            }
        }
        let ghost before = out@;
        out.insert(pos, i);
        proof {
            assert(out@ == before.insert(pos as int, i));
            lemma_insert_sorted(kv, before, i as int, pos as int);
        }
        i += 1;
    }
    out
}

/// Inserting the next position where the first entry after it stands keeps
/// a sorted order sorted.
proof fn lemma_insert_sorted(kv: Seq<KeyView>, before: Seq<usize>, i: int, pos: int)
    requires
        uniform_keys(kv),
        kv.len() <= usize::MAX,
        0 <= i < kv.len(),
        is_permutation(before, i as nat),
        sorted_by(kv, before),
        0 <= pos <= before.len(),
        forall|a: int| 0 <= a < pos ==> !key_lt(kv[i], #[trigger] kv[before[a] as int]),
        pos < before.len() ==> key_lt(kv[i], kv[before[pos] as int]),
    ensures
        is_permutation(before.insert(pos, i as usize), (i + 1) as nat),
        sorted_by(kv, before.insert(pos, i as usize)),
{
    let ins = before.insert(pos, i as usize);
    assert forall|a: int| 0 <= a < ins.len() implies #[trigger] ins[a] < i + 1 by {}
    assert forall|v: usize| v < i + 1 implies #[trigger] ins.contains(v) by {
        if v == i {
            assert(ins[pos] == i);
        } else {
            assert(before.contains(v));
            let a = choose|a: int| 0 <= a < before.len() && before[a] == v;
            if a < pos {
                assert(ins[a] == v);
            } else {
                assert(ins[a + 1] == v);
            }
        }
    }
    assert forall|a: int, b: int| 0 <= a < b < ins.len() implies #[trigger] ins[a] != #[trigger] ins[b] by {
        if a < pos && b > pos {
            assert(ins[b] == before[b - 1]);
        } else if a == pos {
            assert(ins[b] == before[b - 1]);
        } else if b == pos {
        } else if a > pos {
            assert(ins[a] == before[a - 1] && ins[b] == before[b - 1]);
        }
    }
    assert forall|a: int, b: int| 0 <= a < b < ins.len() implies entry_before(kv, #[trigger] ins[a] as int, #[trigger] ins[b] as int) by {
        let ii = i;
        if b < pos {
            assert(ins[a] == before[a] && ins[b] == before[b]);
        } else if a > pos {
            assert(ins[a] == before[a - 1] && ins[b] == before[b - 1]);
        } else if a < pos && b > pos {
            assert(ins[a] == before[a] && ins[b] == before[b - 1]);
            assert(entry_before(kv, before[a] as int, before[b - 1] as int));
        } else if a == pos {
            // entry `i` before the ones after it: they come after it by key.
            let j = before[b - 1] as int;
            assert(ins[b] == before[b - 1]);
            assert(key_lt(kv[ii], kv[before[pos] as int]));
            if b - 1 > pos {
                let p = before[pos] as int;
                assert(entry_before(kv, p, j));
                assert(kv[ii].text_desc == kv[p].text_desc);
                assert(kv[p].text_desc == kv[j].text_desc);
                if key_lt(kv[p], kv[j]) {
                    lemma_key_lt_transitive(kv[ii], kv[p], kv[j]);
                } else {
                    assert(!key_lt(kv[j], kv[p]));
                    if key_lt(kv[j], kv[ii]) {
                        lemma_key_lt_transitive(kv[j], kv[ii], kv[p]);
                    }
                    assert(!key_lt(kv[j], kv[ii]));
                    if !key_lt(kv[ii], kv[j]) {
                        // keys tie with p's key ordering; i comes after j in the list
                        lemma_key_not_lt_transitive(kv[p], kv[j], kv[ii]);
                    }
                }
            }
            assert(key_lt(kv[ii], kv[j]));
        } else {
            // b == pos: the ones before entry `i` do not come after it.
            let j = before[a] as int;
            assert(ins[a] == before[a]);
            assert(!key_lt(kv[ii], kv[j]));
            assert(j < ii);
        }
    }
}

proof fn lemma_scan_pos(kv: Seq<KeyView>, o: Seq<usize>, i: int, p: int) -> (pos: int)
    requires
        0 <= i < kv.len(),
        is_permutation(o, i as nat),
        0 <= p <= o.len(),
        forall|a: int| 0 <= a < p ==> !key_lt(kv[i], #[trigger] kv[o[a] as int]),
    ensures
        p <= pos <= o.len(),
        forall|a: int| 0 <= a < pos ==> !key_lt(kv[i], #[trigger] kv[o[a] as int]),
        pos < o.len() ==> key_lt(kv[i], kv[o[pos] as int]),
    decreases o.len() - p,
{
    if p < o.len() && !key_lt(kv[i], kv[o[p] as int]) {
        lemma_scan_pos(kv, o, i, p + 1)
    } else {
        p
    }
}

proof fn lemma_sorted_prefix(kv: Seq<KeyView>, n: int) -> (o: Seq<usize>)
    requires
        uniform_keys(kv),
        kv.len() <= usize::MAX,
        0 <= n <= kv.len(),
    ensures
        is_permutation(o, n as nat),
        sorted_by(kv, o),
    decreases n,
{
    if n == 0 {
        Seq::empty()
    } else {
        let before = lemma_sorted_prefix(kv, n - 1);
        let pos = lemma_scan_pos(kv, before, n - 1, 0);
        lemma_insert_sorted(kv, before, n - 1, pos);
        before.insert(pos, (n - 1) as usize)
    }
}

/// Keys always have a sorted order, so `the_sorted_order` is one.
pub proof fn lemma_sorted_order_exists(keys: Seq<KeyView>)
    requires
        uniform_keys(keys),
        keys.len() <= usize::MAX,
    ensures
        is_sorted_order(keys, the_sorted_order(keys)),
{
    let o = lemma_sorted_prefix(keys, keys.len() as int);
    assert(is_sorted_order(keys, o));
}

/// Listing entries in their sorted order keeps every entry: the list has as
/// many entries, and each entry of the original shows up in it.
pub proof fn lemma_sorted_reorder_keeps<A>(s: Seq<A>, keys: Seq<KeyView>, v: int)
    requires
        uniform_keys(keys),
        keys.len() == s.len(),
        s.len() <= usize::MAX,
        0 <= v < s.len(),
    ensures
        reorder(s, the_sorted_order(keys)).len() == s.len(),
        reorder(s, the_sorted_order(keys)).contains(s[v]),
{
    lemma_sorted_order_exists(keys);
    let o = the_sorted_order(keys);
    let vu = v as usize;
    assert(vu < keys.len());
    assert(o.contains(vu));
    let a = choose|a: int| 0 <= a < o.len() && o[a] == vu;
    assert(reorder(s, o)[a] == s[o[a] as int]);
}

/// Whether `o` is the sorted order of the keys.
pub open spec fn is_sorted_order(keys: Seq<KeyView>, o: Seq<usize>) -> bool {
    is_permutation(o, keys.len()) && sorted_by(keys, o)
}

/// The entries of a list in the given order.
pub open spec fn reorder<A>(s: Seq<A>, o: Seq<usize>) -> Seq<A> {
    o.map_values(|i: usize| s[i as int])
}

/// The sorted order of keys (there is exactly one, see
/// `lemma_sorted_order_unique`).
pub open spec fn the_sorted_order(keys: Seq<KeyView>) -> Seq<usize> {
    choose|o: Seq<usize>| is_sorted_order(keys, o)
}

proof fn lemma_entry_before_asymmetric(keys: Seq<KeyView>, i: int, j: int)
    requires
        uniform_keys(keys),
        0 <= i < keys.len(),
        0 <= j < keys.len(),
        entry_before(keys, i, j),
    ensures
        !entry_before(keys, j, i),
{
    lemma_key_lt_asymmetric(keys[i], keys[j]);
}

/// Keys have one sorted order: two orders that both list each position once
/// and both keep the keys sorted (ties by position) are the same.
pub proof fn lemma_sorted_order_unique(keys: Seq<KeyView>, o1: Seq<usize>, o2: Seq<usize>)
    requires
        uniform_keys(keys),
        is_sorted_order(keys, o1),
        is_sorted_order(keys, o2),
    ensures
        o1 == o2,
{
    if o1.len() > 0 {
        lemma_prefix_equal(keys, o1, o2, o1.len() - 1);
    }
    assert(o1 =~= o2);
}

proof fn lemma_prefix_equal(keys: Seq<KeyView>, o1: Seq<usize>, o2: Seq<usize>, a: int)
    requires
        uniform_keys(keys),
        is_sorted_order(keys, o1),
        is_sorted_order(keys, o2),
        0 <= a < o1.len(),
    ensures
        forall|b: int| 0 <= b <= a ==> o1[b] == o2[b],
    decreases a,
{
    if a > 0 {
        lemma_prefix_equal(keys, o1, o2, a - 1);
    }
    let x = o1[a];
    let y = o2[a];
    if x != y {
        assert(o1.contains(y));
        let b = choose|b: int| 0 <= b < o1.len() && o1[b] == y;
        assert(o2.contains(x));
        let c = choose|c: int| 0 <= c < o2.len() && o2[c] == x;
        if b < a {
            assert(o2[b] == y);
        }
        if c < a {
            assert(o1[c] == x);
        }
        assert(b > a && c > a);
        assert(entry_before(keys, o1[a] as int, o1[b] as int));
        assert(entry_before(keys, o2[a] as int, o2[c] as int));
        lemma_entry_before_asymmetric(keys, x as int, y as int);
    }
}

/// A sorted order is the sorted order.
pub proof fn lemma_is_the_sorted_order(keys: Seq<KeyView>, o: Seq<usize>)
    requires
        uniform_keys(keys),
        is_sorted_order(keys, o),
    ensures
        the_sorted_order(keys) == o,
{
    let c = the_sorted_order(keys);
    assert(is_sorted_order(keys, c));
    lemma_sorted_order_unique(keys, c, o);
}

} // verus!
