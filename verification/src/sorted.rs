//! Lists of `(key, value)` pairs kept sorted by key, each key once: the
//! shape an ordered map iterates in.

use crate::search::rank::{
    chars_before, chars_lt, lemma_chars_before_asym, lemma_chars_before_total,
    lemma_chars_before_trans,
};
use crate::text::chars_of;
use vstd::prelude::*;

verus! {

/// Every key is before every later key, so keys are strictly ascending and
/// no key occurs twice.
pub open spec fn keys_sorted<V>(s: Seq<(Seq<char>, V)>) -> bool {
    forall|i: int, j: int| 0 <= i < j < s.len() ==> chars_before(#[trigger] s[i].0, #[trigger] s[j].0)
}

/// The map a list of pairs describes, a later pair overriding an earlier
/// one with the same key.
pub open spec fn pairs_map<V>(s: Seq<(Seq<char>, V)>) -> Map<Seq<char>, V>
    decreases s.len(),
{
    if s.len() == 0 {
        Map::empty()
    } else {
        pairs_map(s.drop_last()).insert(s.last().0, s.last().1)
    }
}

/// In a sorted list each key is found at its own index.
pub proof fn lemma_sorted_lookup<V>(s: Seq<(Seq<char>, V)>)
    requires
        keys_sorted(s),
    ensures
        forall|i: int|
            0 <= i < s.len() ==> #[trigger] pairs_map(s).contains_key(s[i].0) && pairs_map(s)[s[i].0]
                == s[i].1,
        forall|k: Seq<char>| #[trigger]
            pairs_map(s).contains_key(k) ==> exists|i: int| 0 <= i < s.len() && s[i].0 == k,
    decreases s.len(),
{
    if s.len() > 0 {
        let t = s.drop_last();
        assert(keys_sorted(t)) by {
            assert forall|i: int, j: int| 0 <= i < j < t.len() implies chars_before(#[trigger] t[i].0, #[trigger] t[j].0) by {
                assert(t[i] == s[i]);
                assert(t[j] == s[j]);
            }
        }
        lemma_sorted_lookup(t);
        assert forall|i: int| 0 <= i < s.len() implies #[trigger] pairs_map(s).contains_key(s[i].0)
            && pairs_map(s)[s[i].0] == s[i].1 by {
            if i < s.len() - 1 {
                assert(t[i] == s[i]);
                assert(chars_before(s[i].0, s[s.len() - 1].0));
                lemma_chars_before_asym(s[i].0, s[s.len() - 1].0);
                assert(s[i].0 != s.last().0);
                assert(pairs_map(t).contains_key(t[i].0) && pairs_map(t)[t[i].0] == t[i].1);
            }
        }
        assert forall|k: Seq<char>| #[trigger] pairs_map(s).contains_key(k) implies exists|i: int|
            0 <= i < s.len() && s[i].0 == k by {
            if k != s.last().0 {
                assert(pairs_map(t).contains_key(k));
                let i = choose|i: int| 0 <= i < t.len() && t[i].0 == k;
                assert(s[i].0 == k);
            } else {
                assert(s[s.len() - 1].0 == k);
            }
        }
    }
}

/// Where `key` belongs in a sorted list: the first index whose key is not
/// before it, and whether that key is `key` itself.
fn find_slot<V>(v: &Vec<(String, V)>, key: &Vec<char>) -> (r: (usize, bool))
    requires
        keys_sorted(v@.map_values(|p: (String, V)| (p.0@, p.1))),
    ensures
        r.0 <= v@.len(),
        forall|i: int| 0 <= i < r.0 ==> chars_before(#[trigger] v@[i].0@, key@),
        r.0 < v@.len() ==> !chars_before(v@[r.0 as int].0@, key@),
        r.1 == (r.0 < v@.len() && v@[r.0 as int].0@ == key@),
{
    let mut i: usize = 0;
    while i < v.len()
        invariant
            i <= v@.len(),
            forall|k: int| 0 <= k < i ==> chars_before(#[trigger] v@[k].0@, key@),
        decreases v.len() - i,
    {
        let k = chars_of(v[i].0.as_str());
        if !chars_lt(&k, key) {
            let same = k.len() == key.len() && crate::text::seq_starts_with(&k, key);
            proof {
                if same {
                    assert(k@.subrange(0, key@.len() as int) =~= k@);
                }
                if k@ == key@ {
                    assert(k@.subrange(0, key@.len() as int) =~= k@);
                }
            }
            return (i, same);
        }
        i += 1;
    }
    (i, false)
}

/// Puts `(key, value)` into a sorted list: replacing the pair with that key,
/// or inserted where it keeps the list sorted.
pub fn insert_sorted<V>(v: &mut Vec<(String, V)>, key: String, value: V)
    requires
        keys_sorted(old(v)@.map_values(|p: (String, V)| (p.0@, p.1))),
    ensures
        keys_sorted(final(v)@.map_values(|p: (String, V)| (p.0@, p.1))),
        pairs_map(final(v)@.map_values(|p: (String, V)| (p.0@, p.1))) == pairs_map(
            old(v)@.map_values(|p: (String, V)| (p.0@, p.1)),
        ).insert(key@, value),
{
    let ghost before = v@.map_values(|p: (String, V)| (p.0@, p.1));
    let kv = chars_of(key.as_str());
    let (slot, found) = find_slot(v, &kv);
    if found {
        v.remove(slot);
    }
    v.insert(slot, (key, value));
    let ghost after = v@.map_values(|p: (String, V)| (p.0@, p.1));
    proof {
        assert(forall|i: int| 0 <= i < before.len() ==> #[trigger] before[i] == (old(v)@[i].0@, old(v)@[i].1));
        assert(forall|i: int| 0 <= i < after.len() ==> #[trigger] after[i] == (v@[i].0@, v@[i].1));
        let k = key@;
        // The new list: the old one with `slot` replaced or opened up.
        assert forall|i: int| 0 <= i < after.len() && i != slot implies #[trigger] after[i]
            == before[if i < slot || found { i } else { i - 1 }] by {}
        assert(after[slot as int] == (k, value));
        assert(after.len() == if found { before.len() } else { before.len() + 1 });
        // Sortedness: everything before `slot` is before `k`, everything
        // after it is after `k`.
        assert forall|i: int| slot < i < after.len() implies chars_before(k, #[trigger] after[i].0) by {
            let oi = if found { i } else { i - 1 };
            let s0 = before[slot as int].0;
            lemma_chars_before_total(s0, k);
            if found {
                assert(chars_before(s0, before[oi].0));
            } else if oi == slot {
                assert(!chars_before(s0, k));
            } else {
                assert(chars_before(s0, before[oi].0));
                lemma_chars_before_trans(k, s0, before[oi].0);
            }
        }
        assert forall|i: int, j: int| 0 <= i < j < after.len() implies chars_before(#[trigger] after[i].0, #[trigger] after[j].0) by {
            if i == slot {
            } else if j == slot {
            } else {
                let oi = if i < slot || found { i } else { i - 1 };
                let oj = if j < slot || found { j } else { j - 1 };
                assert(after[i] == before[oi] && after[j] == before[oj]);
                if i < slot && j > slot {
                    assert(chars_before(after[i].0, k));
                    assert(chars_before(k, after[j].0));
                    lemma_chars_before_trans(after[i].0, k, after[j].0);
                }
            }
        }
        lemma_sorted_lookup(before);
        lemma_sorted_lookup(after);
        let m0 = pairs_map(before).insert(k, value);
        let m1 = pairs_map(after);
        assert forall|x: Seq<char>| m1.contains_key(x) <==> m0.contains_key(x) by {
            if m1.contains_key(x) {
                let i = choose|i: int| 0 <= i < after.len() && after[i].0 == x;
                if i != slot {
                    let oi = if i < slot || found { i } else { i - 1 };
                    assert(before[oi].0 == x);
                    assert(pairs_map(before).contains_key(before[oi].0));
                }
            }
            if m0.contains_key(x) && x != k {
                assert(pairs_map(before).contains_key(x));
                let i = choose|i: int| 0 <= i < before.len() && before[i].0 == x;
                let ni = if i < slot || found { i } else { i + 1 };
                if found && i == slot {
                    assert(false);
                }
                assert(after[ni] == before[i]);
                assert(m1.contains_key(after[ni].0));
            }
            if x == k {
                assert(m1.contains_key(after[slot as int].0));
            }
        }
        assert forall|x: Seq<char>| #[trigger] m1.contains_key(x) implies m1[x] == m0[x] by {
            let i = choose|i: int| 0 <= i < after.len() && after[i].0 == x;
            if i != slot {
                let oi = if i < slot || found { i } else { i - 1 };
                assert(before[oi] == after[i]);
                lemma_chars_before_asym(k, k);
            }
        }
        assert(m1 =~= m0);
    }
}

} // verus!
