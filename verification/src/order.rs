//! Sorting texts.

use vstd::prelude::*;

use crate::text::{chars_of, texts};

verus! {

/// Whether a text does not come after another one, in the order of the code points.
pub open spec fn text_le(a: Seq<char>, b: Seq<char>) -> bool
    decreases a.len(),
{
    if a.len() == 0 {
        true
    } else if b.len() == 0 {
        false
    } else if a[0] == b[0] {
        text_le(a.drop_first(), b.drop_first())
    } else {
        a[0] < b[0]
    }
}

/// Whether several texts are in order.
pub open spec fn in_order(list: Seq<Seq<char>>) -> bool {
    forall|i: int, j: int|
        0 <= i < j < list.len() ==> text_le(#[trigger] list[i], #[trigger] list[j])
}

/// Two texts are in order one way or the other.
pub proof fn lemma_text_le_total(a: Seq<char>, b: Seq<char>)
    ensures
        text_le(a, b) || text_le(b, a),
    decreases a.len(),
{
    if a.len() > 0 && b.len() > 0 && a[0] == b[0] {
        lemma_text_le_total(a.drop_first(), b.drop_first());
    }
}

/// The order of texts is transitive.
pub proof fn lemma_text_le_transitive(a: Seq<char>, b: Seq<char>, c: Seq<char>)
    requires
        text_le(a, b),
        text_le(b, c),
    ensures
        text_le(a, c),
    decreases a.len(),
{
    if a.len() > 0 && b.len() > 0 && c.len() > 0 && a[0] == b[0] && b[0] == c[0] {
        lemma_text_le_transitive(a.drop_first(), b.drop_first(), c.drop_first());
    }
}

/// Two texts that are in order both ways are the same.
pub proof fn lemma_text_le_antisymmetric(a: Seq<char>, b: Seq<char>)
    requires
        text_le(a, b),
        text_le(b, a),
    ensures
        a == b,
    decreases a.len(),
{
    if a.len() == 0 || b.len() == 0 {
        assert(a =~= b);
    } else {
        assert(a[0] == b[0]);
        lemma_text_le_antisymmetric(a.drop_first(), b.drop_first());
        assert(a =~= seq![a[0]] + a.drop_first());
        assert(b =~= seq![b[0]] + b.drop_first());
    }
}

/// Whether a text does not come after another one.
pub fn not_after(a: &str, b: &str) -> (result: bool)
    ensures
        result == text_le(a@, b@),
{
    let x: Vec<char> = chars_of(a);
    let y: Vec<char> = chars_of(b);
    let n: usize = x.len();
    let m: usize = y.len();
    let mut i: usize = 0;
    assert(a@.skip(0) =~= a@);
    assert(b@.skip(0) =~= b@);
    while i < n && i < m && x[i] == y[i]
        invariant
            x@ == a@,
            y@ == b@,
            n == a@.len(),
            m == b@.len(),
            i <= n,
            i <= m,
            text_le(a@, b@) == text_le(a@.skip(i as int), b@.skip(i as int)),
        decreases n - i,
    {
        assert(a@.skip(i as int).drop_first() =~= a@.skip(i + 1));
        assert(b@.skip(i as int).drop_first() =~= b@.skip(i + 1));
        i += 1;
    }
    if i == n {
        true
    } else if i == m {
        false
    } else {
        x[i] < y[i]
    }
}

/// Puts one more text into a sorted list.
fn insert_sorted(list: &mut Vec<String>, t: String)
    requires
        in_order(texts(old(list)@)),
    ensures
        in_order(texts(final(list)@)),
        texts(final(list)@).to_multiset() == texts(old(list)@).to_multiset().insert(t@),
{
    let ghost before = texts(list@);
    let n: usize = list.len();
    let mut i: usize = 0;
    while i < n && not_after(list[i].as_str(), t.as_str())
        invariant
            n == list@.len(),
            before == texts(list@),
            i <= n,
            forall|j: int| 0 <= j < i ==> text_le(#[trigger] before[j], t@),
        decreases n - i,
    {
        assert(before[i as int] == list@[i as int]@);
        i += 1;
    }
    let ghost new_text = t@;
    proof {
        assert forall|j: int| i <= j < n implies text_le(new_text, #[trigger] before[j]) by {
            lemma_text_le_total(new_text, before[i as int]);
            assert(before[i as int] == list@[i as int]@);
            if j > i {
                lemma_text_le_transitive(new_text, before[i as int], before[j]);
            }
        }
    }
    list.insert(i, t);
    proof {
        let now = texts(list@);
        assert(now =~= before.insert(i as int, new_text));
        assert(now.remove(i as int) =~= before);
        now.to_multiset_ensures();
        assert(now[i as int] == new_text);
        assert(now.to_multiset() =~= before.to_multiset().insert(new_text));
        assert forall|j: int, k: int| 0 <= j < k < now.len() implies text_le(
            #[trigger] now[j],
            #[trigger] now[k],
        ) by {
            if j < i {
                assert(now[j] == before[j]);
            } else if j > i {
                assert(now[j] == before[j - 1]);
            }
            if k < i {
                assert(now[k] == before[k]);
            } else if k > i {
                assert(now[k] == before[k - 1]);
            }
        }
    }
}

/// Sorts texts in the order of their code points.
pub fn sort(list: Vec<String>) -> (result: Vec<String>)
    ensures
        in_order(texts(result@)),
        texts(result@).to_multiset() == texts(list@).to_multiset(),
{
    let ghost all = texts(list@);
    let mut result: Vec<String> = Vec::new();
    let mut i: usize = 0;
    assert(all.take(0) =~= Seq::empty());
    assert(texts(result@) =~= Seq::empty());
    while i < list.len()
        invariant
            i <= list@.len(),
            all == texts(list@),
            in_order(texts(result@)),
            texts(result@).to_multiset() == all.take(i as int).to_multiset(),
        decreases list@.len() - i,
    {
        proof {
            assert(all.take(i + 1) =~= all.take(i as int).push(all[i as int]));
            broadcast use vstd::seq_lib::group_to_multiset_ensures;

        }
        insert_sorted(&mut result, list[i].clone());
        i += 1;
    }
    assert(all.take(i as int) =~= all);
    result
}

/// The last of several texts in order does not come before any of them.
proof fn lemma_last_is_greatest(list: Seq<Seq<char>>, t: Seq<char>)
    requires
        in_order(list),
        list.contains(t),
    ensures
        text_le(t, list.last()),
{
    let k = choose|k: int| 0 <= k < list.len() && list[k] == t;
    if k < list.len() - 1 {
        assert(text_le(list[k], list[list.len() - 1]));
    } else {
        lemma_text_le_total(t, t);
    }
}

/// Sorting leaves no choice: two lists in order that hold the same texts, each as
/// often, are the same.
pub proof fn law_order_is_unique(a: Seq<Seq<char>>, b: Seq<Seq<char>>)
    requires
        in_order(a),
        in_order(b),
        a.to_multiset() == b.to_multiset(),
    ensures
        a == b,
    decreases a.len(),
{
    a.to_multiset_ensures();
    b.to_multiset_ensures();
    assert(a.len() == b.len());
    if a.len() > 0 {
        let x = a.last();
        let y = b.last();
        assert(a.contains(x) && b.contains(y));
        assert(a.to_multiset().count(x) > 0);
        assert(b.to_multiset().count(y) > 0);
        assert(b.contains(x) && a.contains(y));
        lemma_last_is_greatest(b, x);
        lemma_last_is_greatest(a, y);
        lemma_text_le_antisymmetric(x, y);
        let n = a.len() - 1;
        assert(a.remove(n) =~= a.drop_last());
        assert(b.remove(n) =~= b.drop_last());
        assert forall|i: int, j: int| 0 <= i < j < a.drop_last().len() implies text_le(
            #[trigger] a.drop_last()[i],
            #[trigger] a.drop_last()[j],
        ) by {
            assert(text_le(a[i], a[j]));
        }
        assert forall|i: int, j: int| 0 <= i < j < b.drop_last().len() implies text_le(
            #[trigger] b.drop_last()[i],
            #[trigger] b.drop_last()[j],
        ) by {
            assert(text_le(b[i], b[j]));
        }
        law_order_is_unique(a.drop_last(), b.drop_last());
        assert(a =~= a.drop_last().push(x));
        assert(b =~= b.drop_last().push(y));
    } else {
        assert(a =~= b);
    }
}

/// Texts are in alphabetical order: the first character in which they differ decides, and
/// a text comes before any longer one that starts with it.
pub proof fn law_alphabetical_order(p: Seq<char>, x: char, a: Seq<char>, y: char, b: Seq<char>)
    ensures
        x < y ==> text_le(p.push(x) + a, p.push(y) + b),
        x > y ==> !text_le(p.push(x) + a, p.push(y) + b),
        text_le(p, p + a),
        text_le(p + a, p) ==> a.len() == 0,
    decreases p.len(),
{
    let s = p.push(x) + a;
    let t = p.push(y) + b;
    if p.len() > 0 {
        let q = p.drop_first();
        law_alphabetical_order(q, x, a, y, b);
        assert(s[0] == p[0] && t[0] == p[0]);
        assert(s.drop_first() =~= q.push(x) + a);
        assert(t.drop_first() =~= q.push(y) + b);
        assert((p + a)[0] == p[0]);
        assert((p + a).drop_first() =~= q + a);
    } else {
        assert(s[0] == x && t[0] == y);
        assert(p + a =~= a);
    }
}

} // verus!
