use vstd::prelude::*;

verus! {

/// Strict lexicographic order on integer sequences: a proper prefix comes first.
pub open spec fn lex_lt(a: Seq<int>, b: Seq<int>) -> bool
    decreases a.len(),
{
    if a.len() == 0 {
        b.len() > 0
    } else if b.len() == 0 {
        false
    } else if a[0] != b[0] {
        a[0] < b[0]
    } else {
        lex_lt(a.drop_first(), b.drop_first())
    }
}

/// A value whose view has a sort key. Sorting compares keys in `lex_lt` order.
pub trait Keyed: View + Sized {
    spec fn key_of(v: Self::V) -> Seq<int>;

    fn sort_key(&self) -> (r: Vec<u64>)
        ensures
            keys_int(r@) == Self::key_of(self@),
    ;
}

pub open spec fn keys_int(v: Seq<u64>) -> Seq<int> {
    v.map_values(|x: u64| x as int)
}

pub open spec fn key_fn<T: Keyed>() -> spec_fn(T::V) -> Seq<int> {
    |v: T::V| T::key_of(v)
}

pub open spec fn views<T: View>(s: Seq<T>) -> Seq<T::V> {
    s.map_values(|x: T| x@)
}

/// The position at which a stable insertion puts `x` into `s`: before the first element whose
/// key is greater than `x`'s.
pub open spec fn insert_pos<V>(s: Seq<V>, x: V, key: spec_fn(V) -> Seq<int>) -> int
    decreases s.len(),
{
    if s.len() == 0 {
        0
    } else if lex_lt(key(x), key(s[0])) {
        0
    } else {
        1 + insert_pos(s.drop_first(), x, key)
    }
}

/// `s` sorted by `key`; elements with equal keys keep their order.
pub open spec fn stable_sort<V>(s: Seq<V>, key: spec_fn(V) -> Seq<int>) -> Seq<V>
    decreases s.len(),
{
    if s.len() == 0 {
        s
    } else {
        let r = stable_sort(s.drop_last(), key);
        r.insert(insert_pos(r, s.last(), key), s.last())
    }
}

/// Whether `a` comes strictly before `b`.
pub fn key_lt(a: &Vec<u64>, b: &Vec<u64>) -> (r: bool)
    ensures
        r == lex_lt(keys_int(a@), keys_int(b@)),
{
    let mut k: usize = 0;
    assert(keys_int(a@).skip(0) =~= keys_int(a@));
    assert(keys_int(b@).skip(0) =~= keys_int(b@));
    while k < a.len() && k < b.len() && a[k] == b[k]
        invariant
            k <= a.len(),
            k <= b.len(),
            lex_lt(keys_int(a@), keys_int(b@)) == lex_lt(
                keys_int(a@).skip(k as int),
                keys_int(b@).skip(k as int),
            ),
        decreases a.len() - k,
    {
        assert(keys_int(a@).skip(k as int).drop_first() =~= keys_int(a@).skip(k + 1));
        assert(keys_int(b@).skip(k as int).drop_first() =~= keys_int(b@).skip(k + 1));
        k = k + 1;
    }
    if k == a.len() {
        k < b.len()
    } else if k == b.len() {
        false
    } else {
        a[k] < b[k]
    }
}

fn find_insert_pos<T: Keyed>(s: &Vec<T>, x: &T) -> (r: usize)
    ensures
        r == insert_pos(views(s@), x@, key_fn::<T>()),
        r <= s.len(),
{
    let kx = x.sort_key();
    let ghost vs = views(s@);
    let mut k: usize = 0;
    assert(vs.skip(0) =~= vs);
    while k < s.len()
        invariant
            k <= s.len(),
            vs == views(s@),
            keys_int(kx@) == T::key_of(x@),
            insert_pos(vs, x@, key_fn::<T>()) == k + insert_pos(vs.skip(k as int), x@, key_fn::<T>()),
        decreases s.len() - k,
    {
        assert(vs.skip(k as int).drop_first() =~= vs.skip(k + 1));
        let ks = s[k].sort_key();
        assert(vs.skip(k as int)[0] == s@[k as int]@);
        if key_lt(&kx, &ks) {
            return k;
        }
        k = k + 1;
    }
    k
}

/// Sorts `v` by key, keeping the order of elements with equal keys.
pub fn sort_stable<T: Keyed>(v: Vec<T>) -> (r: Vec<T>)
    ensures
        views(r@) == stable_sort(views(v@), key_fn::<T>()),
{
    let ghost orig = views(v@);
    let mut rest = v;
    let n = rest.len();
    let mut out: Vec<T> = Vec::new();
    let mut k: usize = 0;
    assert(orig.take(0) =~= Seq::<T::V>::empty());
    assert(views(out@) =~= Seq::<T::V>::empty());
    assert(views(rest@) =~= orig.skip(0));
    while rest.len() > 0
        invariant
            k <= orig.len(),
            orig.len() == n,
            k + rest.len() == orig.len(),
            views(rest@) == orig.skip(k as int),
            views(out@) == stable_sort(orig.take(k as int), key_fn::<T>()),
        decreases rest.len(),
    {
        let ghost rest0 = rest@;
        let x = rest.remove(0);
        assert(orig.take(k + 1).drop_last() =~= orig.take(k as int));
        assert(orig.take(k + 1).last() == x@) by {
            assert(views(rest0)[0] == x@);
        }
        assert(views(rest@) =~= orig.skip(k + 1)) by {
            assert(views(rest0) == orig.skip(k as int));
            assert forall|i: int| 0 <= i < views(rest@).len() implies views(rest@)[i] == orig.skip(
                k + 1,
            )[i] by {
                assert(rest@[i] == rest0[i + 1]);
                assert(views(rest0)[i + 1] == rest0[i + 1]@);
            }
        }
        let p = find_insert_pos(&out, &x);
        let ghost out0 = out@;
        out.insert(p, x);
        assert(views(out@) =~= views(out0).insert(p as int, x@));
        k = k + 1;
    }
    assert(orig.take(k as int) =~= orig);
    out
}

/// Appends the separator between fields of a key.
pub fn push_sep(out: &mut Vec<u64>)
    ensures
        keys_int(final(out)@) == keys_int(old(out)@) + seq![0int],
{
    out.push(0);
    assert(keys_int(out@) =~= keys_int(old(out)@) + seq![0int]);
}

/// Appends the key of a text field: each character's code plus 2.
pub fn push_text_key(out: &mut Vec<u64>, s: &Vec<char>)
    ensures
        keys_int(final(out)@) == keys_int(old(out)@) + text_key(s@),
{
    let ghost start = keys_int(out@);
    let mut k: usize = 0;
    while k < s.len()
        invariant
            k <= s.len(),
            keys_int(out@) == start + text_key(s@.take(k as int)),
        decreases s.len() - k,
    {
        let c = s[k] as u32;
        let ghost prev = out@;
        out.push(c as u64 + 2);
        assert(keys_int(out@) =~= keys_int(prev).push(c as int + 2));
        assert(text_key(s@.take(k + 1)) =~= text_key(s@.take(k as int)).push(c as int + 2));
        assert(keys_int(out@) =~= start + text_key(s@.take(k + 1)));
        k = k + 1;
    }
    assert(s@.take(k as int) =~= s@);
}

/// Appends the key of a path field: `/` as 1 and any other character as its code plus 2, so
/// that paths order component by component.
pub fn push_path_key(out: &mut Vec<u64>, s: &Vec<char>)
    ensures
        keys_int(final(out)@) == keys_int(old(out)@) + path_key(s@),
{
    let ghost start = keys_int(out@);
    let mut k: usize = 0;
    while k < s.len()
        invariant
            k <= s.len(),
            keys_int(out@) == start + path_key(s@.take(k as int)),
        decreases s.len() - k,
    {
        let c = s[k];
        let u = c as u32;
        let ghost prev = out@;
        out.push(if c == '/' { 1 } else { u as u64 + 2 });
        assert(keys_int(out@) =~= keys_int(prev).push(path_code(c)));
        assert(path_key(s@.take(k + 1)) =~= path_key(s@.take(k as int)).push(path_code(c)));
        assert(keys_int(out@) =~= start + path_key(s@.take(k + 1)));
        k = k + 1;
    }
    assert(s@.take(k as int) =~= s@);
}

/// The key of a text field: each character's code plus 2, so that 0 can separate fields and a
/// shorter text sorts before its extensions.
pub open spec fn text_key(s: Seq<char>) -> Seq<int> {
    s.map_values(|c: char| (c as u32) as int + 2)
}

pub open spec fn path_code(c: char) -> int {
    if c == '/' {
        1
    } else {
        (c as u32) as int + 2
    }
}

pub open spec fn path_key(s: Seq<char>) -> Seq<int> {
    s.map_values(|c: char| path_code(c))
}

pub proof fn lemma_lex_irreflexive(a: Seq<int>)
    ensures
        !lex_lt(a, a),
    decreases a.len(),
{
    if a.len() > 0 {
        lemma_lex_irreflexive(a.drop_first());
    }
}

pub proof fn lemma_lex_transitive(a: Seq<int>, b: Seq<int>, c: Seq<int>)
    requires
        lex_lt(a, b),
        lex_lt(b, c),
    ensures
        lex_lt(a, c),
    decreases a.len(),
{
    if a.len() > 0 && b.len() > 0 && c.len() > 0 && a[0] == b[0] && b[0] == c[0] {
        lemma_lex_transitive(a.drop_first(), b.drop_first(), c.drop_first());
    }
}

pub proof fn lemma_lex_total(a: Seq<int>, b: Seq<int>)
    requires
        a != b,
    ensures
        lex_lt(a, b) || lex_lt(b, a),
    decreases a.len(),
{
    if a.len() == 0 {
        if b.len() == 0 {
            assert(a =~= b);
        }
    } else if b.len() > 0 && a[0] == b[0] {
        if a.drop_first() == b.drop_first() {
            assert(a =~= b) by {
                assert(a.drop_first().len() == b.drop_first().len());
                assert(a.len() == b.len());
                assert forall|i: int| 0 <= i < a.len() implies a[i] == b[i] by {
                    if i > 0 {
                        assert(a[i] == a.drop_first()[i - 1]);
                        assert(b[i] == b.drop_first()[i - 1]);
                    }
                }
            }
        }
        lemma_lex_total(a.drop_first(), b.drop_first());
    }
}

pub proof fn lemma_lex_asymmetric(a: Seq<int>, b: Seq<int>)
    requires
        lex_lt(a, b),
    ensures
        !lex_lt(b, a),
{
    if lex_lt(b, a) {
        lemma_lex_transitive(a, b, a);
        lemma_lex_irreflexive(a);
    }
}

/// No element's key is smaller than that of an element before it.
pub open spec fn sorted_by<V>(s: Seq<V>, key: spec_fn(V) -> Seq<int>) -> bool {
    forall|i: int, j: int| 0 <= i < j < s.len() ==> !lex_lt(#[trigger] key(s[j]), #[trigger] key(s[i]))
}

pub proof fn lemma_insert_pos<V>(r: Seq<V>, x: V, key: spec_fn(V) -> Seq<int>)
    ensures
        0 <= insert_pos(r, x, key) <= r.len(),
        forall|j: int| 0 <= j < insert_pos(r, x, key) ==> !lex_lt(key(x), #[trigger] key(r[j])),
        insert_pos(r, x, key) < r.len() ==> lex_lt(key(x), key(r[insert_pos(r, x, key)])),
    decreases r.len(),
{
    if r.len() > 0 && !lex_lt(key(x), key(r[0])) {
        lemma_insert_pos(r.drop_first(), x, key);
        let p = insert_pos(r, x, key);
        assert forall|j: int| 0 <= j < p implies !lex_lt(key(x), #[trigger] key(r[j])) by {
            if j > 0 {
                assert(r[j] == r.drop_first()[j - 1]);
            }
        }
        if p < r.len() {
            assert(r[p] == r.drop_first()[p - 1]);
        }
    }
}

/// `s` sorted by `key` is ordered by key and has the same length.
#[verifier::rlimit(30)]
pub proof fn lemma_stable_sort_sorted<V>(s: Seq<V>, key: spec_fn(V) -> Seq<int>)
    ensures
        sorted_by(stable_sort(s, key), key),
        stable_sort(s, key).len() == s.len(),
    decreases s.len(),
{
    if s.len() > 0 {
        let r = stable_sort(s.drop_last(), key);
        let x = s.last();
        lemma_stable_sort_sorted(s.drop_last(), key);
        lemma_insert_pos(r, x, key);
        let p = insert_pos(r, x, key);
        let t = r.insert(p, x);
        assert forall|i: int, j: int| 0 <= i < j < t.len() implies !lex_lt(#[trigger] key(t[j]), #[trigger] key(t[i])) by {
            if j < p {
                assert(t[i] == r[i] && t[j] == r[j]);
            } else if j == p {
                assert(t[i] == r[i]);
            } else if i == p {
                assert(t[j] == r[j - 1]);
                // key(x) < key(r[p]) <= key(r[j - 1])
                lex_after_insert_point(r, x, key, p, j - 1);
            } else if i < p {
                assert(t[j] == r[j - 1] && t[i] == r[i]);
            } else {
                assert(t[j] == r[j - 1] && t[i] == r[i - 1]);
            }
        }
    }
}

proof fn lex_after_insert_point<V>(r: Seq<V>, x: V, key: spec_fn(V) -> Seq<int>, p: int, j: int)
    requires
        sorted_by(r, key),
        p == insert_pos(r, x, key),
        p <= j < r.len(),
    ensures
        !lex_lt(key(r[j]), key(x)),
        lex_lt(key(x), key(r[j])),
{
    lemma_insert_pos(r, x, key);
    if j > p {
        assert(!lex_lt(key(r[j]), key(r[p])));
        if key(r[j]) != key(r[p]) {
            lemma_lex_total(key(r[j]), key(r[p]));
            lemma_lex_transitive(key(x), key(r[p]), key(r[j]));
        }
    }
    lemma_lex_asymmetric(key(x), key(r[j]));
}

/// Sorting keeps every element, as often as it occurs.
#[verifier::rlimit(30)]
pub proof fn lemma_stable_sort_permutes<V>(s: Seq<V>, key: spec_fn(V) -> Seq<int>)
    ensures
        stable_sort(s, key).to_multiset() == s.to_multiset(),
    decreases s.len(),
{
    broadcast use vstd::seq_lib::group_to_multiset_ensures;
    if s.len() > 0 {
        let r = stable_sort(s.drop_last(), key);
        let x = s.last();
        lemma_stable_sort_permutes(s.drop_last(), key);
        lemma_stable_sort_sorted(s.drop_last(), key);
        lemma_insert_pos(r, x, key);
        let p = insert_pos(r, x, key);
        let t = r.insert(p, x);
        assert(t.remove(p) =~= r);
        assert(t[p] == x);
        assert(t.remove(p).to_multiset() =~= t.to_multiset().remove(x));
        assert(s.drop_last().push(x) =~= s);
        assert(s.to_multiset() =~= s.drop_last().to_multiset().insert(x));
        assert(t.to_multiset().count(x) > 0) by {
            assert(t.contains(x));
        }
        assert(t.to_multiset() =~= r.to_multiset().insert(x));
    }
}

/// Sorting a list that is already ordered by key changes nothing.
pub proof fn lemma_stable_sort_sorted_unchanged<V>(s: Seq<V>, key: spec_fn(V) -> Seq<int>)
    requires
        sorted_by(s, key),
    ensures
        stable_sort(s, key) == s,
    decreases s.len(),
{
    if s.len() > 0 {
        let x = s.last();
        let init = s.drop_last();
        assert(sorted_by(init, key)) by {
            assert forall|i: int, j: int| 0 <= i < j < init.len() implies !lex_lt(#[trigger] key(init[j]), #[trigger] key(init[i])) by {
                assert(init[i] == s[i] && init[j] == s[j]);
            }
        }
        lemma_stable_sort_sorted_unchanged(init, key);
        lemma_insert_pos(init, x, key);
        let p = insert_pos(init, x, key);
        if p < init.len() {
            assert(!lex_lt(key(s[s.len() - 1]), key(s[p])));
            assert(init[p] == s[p]);
        }
        assert(p == init.len());
        assert(init.insert(p, x) =~= s);
    }
}

/// Sorting keeps the order of the elements that share a key.
#[verifier::rlimit(30)]
pub proof fn lemma_stable_sort_stable<V>(s: Seq<V>, key: spec_fn(V) -> Seq<int>, k: Seq<int>)
    ensures
        stable_sort(s, key).filter(|v: V| key(v) == k) == s.filter(|v: V| key(v) == k),
    decreases s.len(),
{
    let pred = |v: V| key(v) == k;
    if s.len() > 0 {
        let r = stable_sort(s.drop_last(), key);
        let x = s.last();
        lemma_stable_sort_stable(s.drop_last(), key, k);
        lemma_stable_sort_sorted(s.drop_last(), key);
        lemma_insert_pos(r, x, key);
        let p = insert_pos(r, x, key);
        let t = r.insert(p, x);
        let before = r.take(p);
        let after = r.skip(p);
        assert(r =~= before + after);
        assert(t =~= before.push(x) + after);
        Seq::filter_distributes_over_add(before.push(x), after, pred);
        Seq::filter_distributes_over_add(before, after, pred);
        assert(before.push(x).filter(pred) == if pred(x) {
            before.filter(pred).push(x)
        } else {
            before.filter(pred)
        }) by {
            before.lemma_filter_push(x, pred);
        }
        assert(s =~= s.drop_last().push(x));
        s.drop_last().lemma_filter_push(x, pred);
        if pred(x) {
            assert forall|j: int| 0 <= j < after.len() implies !pred(after[j]) by {
                lex_after_insert_point(r, x, key, p, p + j);
                lemma_lex_irreflexive(key(x));
                assert(after[j] == r[p + j]);
            }
            assert(after.all(|v: V| !pred(v)));
            after.lemma_all_neg_filter_empty(pred);
            assert(after.filter(pred) =~= Seq::<V>::empty());
            assert(t.filter(pred) =~= before.filter(pred).push(x));
            assert(r.filter(pred) =~= before.filter(pred));
        } else {
            assert(t.filter(pred) =~= before.filter(pred) + after.filter(pred));
        }
    }
}

} // verus!
