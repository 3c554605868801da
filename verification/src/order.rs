//! Order of texts and stable sorting.

use vstd::prelude::*;

use crate::text;

verus! {

/// Whether `a` comes before `b`: by the first character in which they differ,
/// a text before those that continue it.
pub open spec fn text_before(a: Seq<char>, b: Seq<char>) -> bool
    decreases a.len(),
{
    if b.len() == 0 {
        false
    } else if a.len() == 0 {
        true
    } else if a[0] != b[0] {
        a[0] < b[0]
    } else {
        text_before(a.drop_first(), b.drop_first())
    }
}

/// Of two texts, one comes before the other or they are the same.
pub proof fn lemma_text_before_total(a: Seq<char>, b: Seq<char>)
    ensures
        text_before(a, b) || text_before(b, a) || a == b,
        !(text_before(a, b) && text_before(b, a)),
        a == b ==> !text_before(a, b),
    decreases a.len(),
{
    if a.len() > 0 && b.len() > 0 {
        lemma_text_before_total(a.drop_first(), b.drop_first());
        if a[0] == b[0] && a.drop_first() == b.drop_first() {
            assert(a =~= seq![a[0]] + a.drop_first());
            assert(b =~= seq![b[0]] + b.drop_first());
        }
    } else if a.len() == 0 && b.len() == 0 {
        assert(a =~= b);
    }
}

/// The order of texts is transitive.
pub proof fn lemma_text_before_transitive(a: Seq<char>, b: Seq<char>, c: Seq<char>)
    requires
        text_before(a, b),
        text_before(b, c),
    ensures
        text_before(a, c),
    decreases a.len(),
{
    if a.len() > 0 && b.len() > 0 && c.len() > 0 && a[0] == b[0] && b[0] == c[0] {
        lemma_text_before_transitive(a.drop_first(), b.drop_first(), c.drop_first());
    }
}

/// A sort key: two texts, the second of which breaks ties.
pub type Key = (Seq<char>, Seq<char>);

/// Whether the key `a` comes before `b`.
pub open spec fn key_before(a: Key, b: Key) -> bool {
    text_before(a.0, b.0) || (a.0 == b.0 && text_before(a.1, b.1))
}

/// Of two keys, one comes before the other or they are the same.
proof fn lemma_key_before_total(a: Key, b: Key)
    ensures
        key_before(a, b) || key_before(b, a) || a == b,
        !(key_before(a, b) && key_before(b, a)),
        a == b ==> !key_before(a, b),
{
    lemma_text_before_total(a.0, b.0);
    lemma_text_before_total(a.1, b.1);
}

/// The order of keys is transitive.
proof fn lemma_key_before_transitive(a: Key, b: Key, c: Key)
    requires
        key_before(a, b),
        key_before(b, c),
    ensures
        key_before(a, c),
{
    if text_before(a.0, b.0) && text_before(b.0, c.0) {
        lemma_text_before_transitive(a.0, b.0, c.0);
    }
    if text_before(a.1, b.1) && text_before(b.1, c.1) {
        lemma_text_before_transitive(a.1, b.1, c.1);
    }
}

/// Decides whether `a` comes before `b`.
pub fn is_text_before(a: &str, b: &str) -> (r: bool)
    ensures
        r == text_before(a@, b@),
{
    let x: Vec<char> = text::chars_of(a);
    let y: Vec<char> = text::chars_of(b);
    let mut i: usize = 0;
    assert(x@.skip(0) =~= x@);
    assert(y@.skip(0) =~= y@);
    while i < x.len() && i < y.len()
        invariant
            x@ == a@,
            y@ == b@,
            i <= x@.len(),
            i <= y@.len(),
            text_before(x@, y@) == text_before(x@.skip(i as int), y@.skip(i as int)),
        decreases x@.len() - i,
    {
        if x[i] != y[i] {
            return x[i] < y[i];
        }
        assert(x@.skip(i as int).drop_first() =~= x@.skip(i + 1));
        assert(y@.skip(i as int).drop_first() =~= y@.skip(i + 1));
        i = i + 1;
    }
    i < y.len()
}

/// Decides whether the key `a` comes before `b`.
fn is_key_before(a: &(String, String), b: &(String, String)) -> (r: bool)
    ensures
        r == key_before((a.0@, a.1@), (b.0@, b.1@)),
{
    is_text_before(a.0.as_str(), b.0.as_str()) || (text::same_text(a.0.as_str(), b.0.as_str())
        && is_text_before(a.1.as_str(), b.1.as_str()))
}

/// An item that lists can be sorted by.
pub trait Sortable: Sized {
    /// The key of the item.
    spec fn key(self) -> Key;

    /// Computes the key.
    fn sort_key(&self) -> (r: (String, String))
        ensures
            (r.0@, r.1@) == self.key(),
    ;
}

/// The items of `s` with the key `k`, in their order.
pub open spec fn with_key<T: Sortable>(s: Seq<T>, k: Key) -> Seq<T>
    decreases s.len(),
{
    if s.len() == 0 {
        Seq::empty()
    } else if s[0].key() == k {
        seq![s[0]] + with_key(s.drop_first(), k)
    } else {
        with_key(s.drop_first(), k)
    }
}

/// Whether no item of `s` has a smaller key than an earlier one.
pub open spec fn is_sorted<T: Sortable>(s: Seq<T>) -> bool {
    forall|i: int, j: int|
        0 <= i < j < s.len() ==> !key_before((#[trigger] s[j]).key(), (#[trigger] s[i]).key())
}

/// Whether `after` is `before` sorted by key, items with the same key keeping
/// their order.
pub open spec fn is_stable_sort<T: Sortable>(before: Seq<T>, after: Seq<T>) -> bool {
    &&& is_sorted(after)
    &&& after.len() == before.len()
    &&& forall|k: Key| #[trigger] with_key(after, k) == with_key(before, k)
}

/// `with_key` goes over concatenation.
proof fn lemma_with_key_concat<T: Sortable>(a: Seq<T>, b: Seq<T>, k: Key)
    ensures
        with_key(a + b, k) == with_key(a, k) + with_key(b, k),
    decreases a.len(),
{
    if a.len() == 0 {
        assert(a + b =~= b);
        assert(with_key(a, k) + with_key(b, k) =~= with_key(b, k));
    } else {
        assert((a + b).drop_first() =~= a.drop_first() + b);
        lemma_with_key_concat(a.drop_first(), b, k);
        assert(with_key(a + b, k) =~= with_key(a, k) + with_key(b, k));
    }
}

/// No item with another key is found.
proof fn lemma_with_key_none<T: Sortable>(s: Seq<T>, k: Key)
    requires
        forall|i: int| 0 <= i < s.len() ==> (#[trigger] s[i]).key() != k,
    ensures
        with_key(s, k) == Seq::<T>::empty(),
    decreases s.len(),
{
    if s.len() > 0 {
        assert(s[0].key() != k);
        assert forall|i: int| 0 <= i < s.drop_first().len() implies (
        #[trigger] s.drop_first()[i]).key() != k by {
            assert(s.drop_first()[i] == s[i + 1]);
        }
        lemma_with_key_none(s.drop_first(), k);
    }
}

/// What is found with a key has that key and is part of the list.
proof fn lemma_with_key_member<T: Sortable>(s: Seq<T>, k: Key, i: int)
    requires
        0 <= i < with_key(s, k).len(),
    ensures
        with_key(s, k)[i].key() == k,
        s.contains(with_key(s, k)[i]),
    decreases s.len(),
{
    if s[0].key() == k {
        if i > 0 {
            lemma_with_key_member(s.drop_first(), k, i - 1);
            let x = with_key(s, k)[i];
            assert(x == with_key(s.drop_first(), k)[i - 1]);
            let j = choose|j: int| 0 <= j < s.drop_first().len() && s.drop_first()[j] == x;
            assert(s[j + 1] == x);
        } else {
            assert(s[0] == with_key(s, k)[0]);
        }
    } else {
        lemma_with_key_member(s.drop_first(), k, i);
        let x = with_key(s, k)[i];
        let j = choose|j: int| 0 <= j < s.drop_first().len() && s.drop_first()[j] == x;
        assert(s[j + 1] == x);
    }
}

/// A list with items has the first of them under its key.
proof fn lemma_with_key_found<T: Sortable>(s: Seq<T>, i: int)
    requires
        0 <= i < s.len(),
    ensures
        with_key(s, s[i].key()).len() > 0,
    decreases s.len(),
{
    if s[0].key() != s[i].key() {
        lemma_with_key_found(s.drop_first(), i - 1);
        assert(s.drop_first()[i - 1] == s[i]);
    }
}

/// The stable sort of a list is unique: two lists that both are it are equal.
pub proof fn law_stable_sort_is_unique<T: Sortable>(before: Seq<T>, a: Seq<T>, b: Seq<T>)
    requires
        is_stable_sort(before, a),
        is_stable_sort(before, b),
    ensures
        a == b,
{
    assert forall|k: Key| #[trigger] with_key(a, k) == with_key(b, k) by {
        assert(with_key(a, k) == with_key(before, k));
        assert(with_key(b, k) == with_key(before, k));
    }
    lemma_sorted_unique(a, b);
}

/// Two sorted lists with the same items under every key are equal.
proof fn lemma_sorted_unique<T: Sortable>(a: Seq<T>, b: Seq<T>)
    requires
        is_sorted(a),
        is_sorted(b),
        a.len() == b.len(),
        forall|k: Key| #[trigger] with_key(a, k) == with_key(b, k),
    ensures
        a == b,
    decreases a.len(),
{
    if a.len() == 0 {
        assert(a =~= b);
    } else {
        let ka = a[0].key();
        let kb = b[0].key();
        lemma_with_key_found(a, 0);
        lemma_with_key_found(b, 0);
        assert(with_key(a, kb) == with_key(b, kb));
        assert(with_key(a, ka) == with_key(b, ka));
        lemma_with_key_member(a, kb, 0);
        lemma_with_key_member(b, ka, 0);
        let x = with_key(a, kb)[0];
        let i = choose|i: int| 0 <= i < a.len() && a[i] == x;
        let y = with_key(b, ka)[0];
        let j = choose|j: int| 0 <= j < b.len() && b[j] == y;
        lemma_key_before_total(ka, kb);
        assert(ka == kb) by {
            if i > 0 {
                assert(!key_before(a[i].key(), a[0].key()));
            }
            if j > 0 {
                assert(!key_before(b[j].key(), b[0].key()));
            }
        }
        assert(with_key(a, ka)[0] == a[0]);
        assert(with_key(b, ka)[0] == b[0]);
        let ta = a.drop_first();
        let tb = b.drop_first();
        assert forall|k: Key| #[trigger] with_key(ta, k) == with_key(tb, k) by {
            assert(with_key(a, k) == with_key(b, k));
            if k == ka {
                assert(with_key(ta, k) =~= with_key(a, k).drop_first());
                assert(with_key(tb, k) =~= with_key(b, k).drop_first());
            }
        }
        assert(is_sorted(ta)) by {
            assert forall|p: int, q: int| 0 <= p < q < ta.len() implies !key_before(
                (#[trigger] ta[q]).key(),
                (#[trigger] ta[p]).key(),
            ) by {
                assert(ta[q] == a[q + 1] && ta[p] == a[p + 1]);
            }
        }
        assert(is_sorted(tb)) by {
            assert forall|p: int, q: int| 0 <= p < q < tb.len() implies !key_before(
                (#[trigger] tb[q]).key(),
                (#[trigger] tb[p]).key(),
            ) by {
                assert(tb[q] == b[q + 1] && tb[p] == b[p + 1]);
            }
        }
        lemma_sorted_unique(ta, tb);
        assert(a =~= seq![a[0]] + ta);
        assert(b =~= seq![b[0]] + tb);
    }
}

/// Not having a greater key is transitive.
proof fn lemma_not_after_transitive(a: Key, b: Key, c: Key)
    requires
        !key_before(b, a),
        !key_before(c, b),
    ensures
        !key_before(c, a),
{
    lemma_key_before_total(a, b);
    lemma_key_before_total(b, c);
    lemma_key_before_total(a, c);
    if key_before(a, b) && key_before(b, c) {
        lemma_key_before_transitive(a, b, c);
    }
}

/// Whether no item of `low` has a greater key than an item of `high`.
spec fn none_after<T: Sortable>(low: Seq<T>, high: Seq<T>) -> bool {
    forall|i: int, j: int|
        0 <= i < low.len() && 0 <= j < high.len() ==> !key_before(
            (#[trigger] high[j]).key(),
            (#[trigger] low[i]).key(),
        )
}

/// Whether the items under every key are those of `a`, then those of `b`, then those
/// of `c`.
spec fn is_spread<T: Sortable>(all: Seq<T>, a: Seq<T>, b: Seq<T>, c: Seq<T>) -> bool {
    forall|k: Key| #[trigger]
        with_key(all, k) == with_key(a, k) + with_key(b, k) + with_key(c, k)
}

/// What holds while two sorted lists are merged from their ends: `a` and `b` are left,
/// and `tail` is done.
spec fn is_merging<T: Sortable>(all: Seq<T>, a: Seq<T>, b: Seq<T>, tail: Seq<T>) -> bool {
    &&& is_sorted(a)
    &&& is_sorted(b)
    &&& is_sorted(tail)
    &&& none_after(a, tail)
    &&& none_after(b, tail)
    &&& all.len() == a.len() + b.len() + tail.len()
    &&& is_spread(all, a, b, tail)
}

/// A sorted list without its last item is sorted, and none of its items is after the last.
proof fn lemma_sorted_init<T: Sortable>(s: Seq<T>)
    requires
        is_sorted(s),
        s.len() > 0,
    ensures
        is_sorted(s.drop_last()),
        none_after(s.drop_last(), seq![s.last()]),
{
    let short = s.drop_last();
    assert forall|i: int, j: int| 0 <= i < j < short.len() implies !key_before(
        (#[trigger] short[j]).key(),
        (#[trigger] short[i]).key(),
    ) by {
        assert(short[i] == s[i] && short[j] == s[j]);
    }
    assert forall|i: int, j: int|
        0 <= i < short.len() && 0 <= j < seq![s.last()].len() implies !key_before(
        (#[trigger] seq![s.last()][j]).key(),
        (#[trigger] short[i]).key(),
    ) by {
        assert(short[i] == s[i]);
        assert(!key_before(s[s.len() - 1].key(), s[i].key()));
    }
}

/// An item that is not after those done goes in front of them.
proof fn lemma_tail_grows<T: Sortable>(a: Seq<T>, x: T, tail: Seq<T>)
    requires
        is_sorted(tail),
        none_after(a, tail),
        none_after(a, seq![x]),
        none_after(seq![x], tail),
    ensures
        is_sorted(seq![x] + tail),
        none_after(a, seq![x] + tail),
{
    let grown = seq![x] + tail;
    assert(seq![x][0] == x);
    assert forall|i: int, j: int| 0 <= i < j < grown.len() implies !key_before(
        (#[trigger] grown[j]).key(),
        (#[trigger] grown[i]).key(),
    ) by {
        assert(grown[j] == tail[j - 1]);
        if i == 0 {
            assert(!key_before(tail[j - 1].key(), seq![x][0].key()));
        } else {
            assert(grown[i] == tail[i - 1]);
        }
    }
    assert forall|i: int, j: int| 0 <= i < a.len() && 0 <= j < grown.len() implies !key_before(
        (#[trigger] grown[j]).key(),
        (#[trigger] a[i]).key(),
    ) by {
        if j == 0 {
            assert(!key_before(seq![x][0].key(), a[i].key()));
        } else {
            assert(grown[j] == tail[j - 1]);
        }
    }
}

/// Taking the last item of the first list, where it is after all of the second.
proof fn lemma_merge_first<T: Sortable>(all: Seq<T>, a: Seq<T>, b: Seq<T>, tail: Seq<T>)
    requires
        is_merging(all, a, b, tail),
        a.len() > 0,
        b.len() > 0 ==> key_before(b.last().key(), a.last().key()),
    ensures
        is_merging(all, a.drop_last(), b, seq![a.last()] + tail),
{
    let x = a.last();
    let one = seq![x];
    let short = a.drop_last();
    assert(one[0] == x);
    lemma_sorted_init(a);
    assert forall|i: int| 0 <= i < b.len() implies key_before(
        (#[trigger] b[i]).key(),
        x.key(),
    ) by {
        if i < b.len() - 1 {
            assert(!key_before(b[b.len() - 1].key(), b[i].key()));
            lemma_key_before_total(b[i].key(), b.last().key());
            if key_before(b[i].key(), b.last().key()) {
                lemma_key_before_transitive(b[i].key(), b.last().key(), x.key());
            }
        }
    }
    assert(none_after(b, one)) by {
        assert forall|i: int, j: int| 0 <= i < b.len() && 0 <= j < one.len() implies !key_before(
            (#[trigger] one[j]).key(),
            (#[trigger] b[i]).key(),
        ) by {
            lemma_key_before_total(b[i].key(), x.key());
        }
    }
    assert(none_after(one, tail)) by {
        assert forall|i: int, j: int|
            0 <= i < one.len() && 0 <= j < tail.len() implies !key_before(
            (#[trigger] tail[j]).key(),
            (#[trigger] one[i]).key(),
        ) by {
            assert(!key_before(tail[j].key(), a[a.len() - 1].key()));
        }
    }
    assert(none_after(short, tail)) by {
        assert forall|i: int, j: int|
            0 <= i < short.len() && 0 <= j < tail.len() implies !key_before(
            (#[trigger] tail[j]).key(),
            (#[trigger] short[i]).key(),
        ) by {
            assert(short[i] == a[i]);
        }
    }
    lemma_tail_grows(short, x, tail);
    lemma_tail_grows(b, x, tail);
    assert forall|k: Key| #[trigger]
        with_key(all, k) == with_key(short, k) + with_key(b, k) + with_key(
            one + tail,
            k,
        ) by {
        assert(a =~= short + one);
        lemma_with_key_concat(short, one, k);
        lemma_with_key_concat(one, tail, k);
        assert(with_key(all, k) == with_key(a, k) + with_key(b, k) + with_key(tail, k));
        if k == x.key() {
            assert forall|i: int| 0 <= i < b.len() implies (#[trigger] b[i]).key() != k by {
                lemma_key_before_total(b[i].key(), x.key());
            }
            lemma_with_key_none(b, k);
        } else {
            lemma_with_key_none(one, k);
        }
        assert(with_key(all, k) =~= with_key(short, k) + with_key(b, k) + with_key(one + tail, k));
    }
}

/// Taking the last item of the second list, where none of the first is after it.
proof fn lemma_merge_second<T: Sortable>(all: Seq<T>, a: Seq<T>, b: Seq<T>, tail: Seq<T>)
    requires
        is_merging(all, a, b, tail),
        b.len() > 0,
        a.len() > 0 ==> !key_before(b.last().key(), a.last().key()),
    ensures
        is_merging(all, a, b.drop_last(), seq![b.last()] + tail),
{
    let x = b.last();
    let one = seq![x];
    let short = b.drop_last();
    assert(one[0] == x);
    lemma_sorted_init(b);
    assert(none_after(a, one)) by {
        assert forall|i: int, j: int| 0 <= i < a.len() && 0 <= j < one.len() implies !key_before(
            (#[trigger] one[j]).key(),
            (#[trigger] a[i]).key(),
        ) by {
            if i < a.len() - 1 {
                assert(!key_before(a[a.len() - 1].key(), a[i].key()));
                lemma_not_after_transitive(a[i].key(), a.last().key(), x.key());
            }
        }
    }
    assert(none_after(one, tail)) by {
        assert forall|i: int, j: int|
            0 <= i < one.len() && 0 <= j < tail.len() implies !key_before(
            (#[trigger] tail[j]).key(),
            (#[trigger] one[i]).key(),
        ) by {
            assert(!key_before(tail[j].key(), b[b.len() - 1].key()));
        }
    }
    assert(none_after(short, tail)) by {
        assert forall|i: int, j: int|
            0 <= i < short.len() && 0 <= j < tail.len() implies !key_before(
            (#[trigger] tail[j]).key(),
            (#[trigger] short[i]).key(),
        ) by {
            assert(short[i] == b[i]);
        }
    }
    lemma_tail_grows(short, x, tail);
    lemma_tail_grows(a, x, tail);
    assert forall|k: Key| #[trigger]
        with_key(all, k) == with_key(a, k) + with_key(short, k) + with_key(
            one + tail,
            k,
        ) by {
        assert(b =~= short + one);
        lemma_with_key_concat(short, one, k);
        lemma_with_key_concat(one, tail, k);
        assert(with_key(all, k) == with_key(a, k) + with_key(b, k) + with_key(tail, k));
        assert(with_key(all, k) =~= with_key(a, k) + with_key(short, k) + with_key(one + tail, k));
    }
}

/// Two sorted lists, and nothing done yet.
proof fn lemma_merge_start<T: Sortable>(x: Seq<T>, y: Seq<T>, a: Seq<T>, b: Seq<T>)
    requires
        is_stable_sort(x, a),
        is_stable_sort(y, b),
    ensures
        is_merging(x + y, a, b, Seq::empty()),
{
    assert forall|k: Key| #[trigger]
        with_key(x + y, k) == with_key(a, k) + with_key(b, k) + with_key(
            Seq::<T>::empty(),
            k,
        ) by {
        lemma_with_key_concat(x, y, k);
        assert(with_key(a, k) == with_key(x, k));
        assert(with_key(b, k) == with_key(y, k));
        assert(with_key(x + y, k) =~= with_key(a, k) + with_key(b, k) + with_key(
            Seq::<T>::empty(),
            k,
        ));
    }
}

/// Nothing left, and all done.
proof fn lemma_merge_end<T: Sortable>(all: Seq<T>, a: Seq<T>, b: Seq<T>, tail: Seq<T>)
    requires
        is_merging(all, a, b, tail),
        a.len() == 0,
        b.len() == 0,
    ensures
        is_stable_sort(all, tail),
{
    assert forall|k: Key| #[trigger] with_key(tail, k) == with_key(all, k) by {
        assert(with_key(all, k) == with_key(a, k) + with_key(b, k) + with_key(tail, k));
        assert(with_key(all, k) =~= with_key(tail, k));
    }
}

/// Turns a list round.
fn reversed<T>(items: Vec<T>) -> (r: Vec<T>)
    ensures
        r@ == items@.reverse(),
{
    let ghost all = items@;
    let mut left: Vec<T> = items;
    let mut out: Vec<T> = Vec::new();
    while left.len() > 0
        invariant
            left@.len() <= all.len(),
            left@ == all.take(left@.len() as int),
            out@ == all.reverse().take(all.len() - left@.len()),
        decreases left@.len(),
    {
        let ghost n = left@.len() as int;
        let x: T = left.pop().unwrap();
        out.push(x);
        assert(left@ =~= all.take(n - 1));
        assert(out@ =~= all.reverse().take(all.len() - (n - 1)));
    }
    assert(out@ =~= all.reverse());
    out
}

/// Merges two sorted lists; of items with the same key, those of the first come first.
fn merge<T: Sortable>(a: Vec<T>, b: Vec<T>, Ghost(all): Ghost<Seq<T>>) -> (r: Vec<T>)
    requires
        is_merging(all, a@, b@, Seq::empty()),
    ensures
        is_stable_sort(all, r@),
{
    let mut a: Vec<T> = a;
    let mut b: Vec<T> = b;
    let mut out: Vec<T> = Vec::new();
    assert(out@.reverse() =~= Seq::<T>::empty());
    while a.len() > 0 || b.len() > 0
        invariant
            is_merging(all, a@, b@, out@.reverse()),
        decreases a@.len() + b@.len(),
    {
        let ghost tail = out@.reverse();
        let from_first: bool = if a.len() == 0 {
            false
        } else if b.len() == 0 {
            true
        } else {
            is_key_before(&b[b.len() - 1].sort_key(), &a[a.len() - 1].sort_key())
        };
        if from_first {
            proof {
                lemma_merge_first(all, a@, b@, tail);
            }
            let x: T = a.pop().unwrap();
            out.push(x);
            assert(out@.reverse() =~= seq![x] + tail);
        } else {
            proof {
                lemma_merge_second(all, a@, b@, tail);
            }
            let x: T = b.pop().unwrap();
            out.push(x);
            assert(out@.reverse() =~= seq![x] + tail);
        }
    }
    proof {
        lemma_merge_end(all, a@, b@, out@.reverse());
    }
    reversed(out)
}

/// Sorts a list by key; items with the same key keep their order.
pub fn stable_sort<T: Sortable>(items: Vec<T>) -> (r: Vec<T>)
    ensures
        is_stable_sort(items@, r@),
    decreases items@.len(),
{
    if items.len() < 2 {
        return items;
    }
    let ghost all = items@;
    let mut low: Vec<T> = items;
    let half: usize = low.len() / 2;
    let high: Vec<T> = low.split_off(half);
    assert(low@ + high@ =~= all);
    let ghost x = low@;
    let ghost y = high@;
    let a: Vec<T> = stable_sort(low);
    let b: Vec<T> = stable_sort(high);
    proof {
        lemma_merge_start(x, y, a@, b@);
    }
    merge(a, b, Ghost(all))
}

/// Of two texts the one with the smaller character comes first, where they differ for the
/// first time, and of a text and one that goes on behind it the shorter one.
pub proof fn law_first_difference_decides(a: Seq<char>, b: Seq<char>, i: int)
    requires
        0 <= i <= a.len(),
        i < b.len(),
        forall|j: int| 0 <= j < i ==> a[j] == #[trigger] b[j],
        i < a.len() ==> a[i] < b[i],
    ensures
        text_before(a, b),
        !text_before(b, a),
    decreases i,
{
    if i > 0 {
        assert(a[0] == b[0]);
        assert forall|j: int| 0 <= j < i - 1 implies a.drop_first()[j] == #[trigger] b.drop_first()[j] by {
            assert(a[j + 1] == b[j + 1]);
        }
        law_first_difference_decides(a.drop_first(), b.drop_first(), i - 1);
    }
}

/// The first texts of two keys decide, and the second ones only where those are the same.
pub proof fn law_second_text_breaks_ties(a: Key, b: Key)
    ensures
        text_before(a.0, b.0) ==> key_before(a, b),
        text_before(b.0, a.0) ==> !key_before(a, b),
        a.0 == b.0 ==> key_before(a, b) == text_before(a.1, b.1),
{
    lemma_text_before_total(a.0, b.0);
}

/// The items with the key of `x` hold it as often as the whole list does.
proof fn lemma_with_key_counts<T: Sortable>(s: Seq<T>, x: T)
    ensures
        s.to_multiset().count(x) == with_key(s, x.key()).to_multiset().count(x),
    decreases s.len(),
{
    broadcast use vstd::seq_lib::group_to_multiset_ensures;

    if s.len() > 0 {
        let rest = s.drop_first();
        lemma_with_key_counts(rest, x);
        assert(s =~= seq![s[0]] + rest);
        vstd::seq_lib::lemma_multiset_commutative(seq![s[0]], rest);
        if s[0].key() == x.key() {
            vstd::seq_lib::lemma_multiset_commutative(seq![s[0]], with_key(rest, x.key()));
        } else {
            lemma_single_count(s[0], x);
        }
    }
}

proof fn lemma_single_count<T: Sortable>(y: T, x: T)
    requires
        y.key() != x.key(),
    ensures
        seq![y].to_multiset().count(x) == 0,
{
    broadcast use vstd::seq_lib::group_to_multiset_ensures;

    assert(seq![y] =~= Seq::<T>::empty().push(y));
}

/// Sorting loses nothing and adds nothing: the sorted list holds every item as often as
/// before. In it nothing comes before an earlier item, and items with the same key keep
/// their order.
pub proof fn law_sorting_keeps_every_item<T: Sortable>(before: Seq<T>, after: Seq<T>, i: int, j: int)
    requires
        is_stable_sort(before, after),
    ensures
        before.to_multiset() == after.to_multiset(),
        0 <= i < j < after.len() ==> !key_before(after[j].key(), after[i].key()),
{
    assert forall|x: T| before.to_multiset().count(x) == after.to_multiset().count(x) by {
        lemma_with_key_counts(before, x);
        lemma_with_key_counts(after, x);
        assert(with_key(after, x.key()) == with_key(before, x.key()));
    }
    assert(before.to_multiset() =~= after.to_multiset());
}

} // verus!
