//! Remapping a chain that does not start at a root onto the expected chains of
//! its end point.
//!
//! An expected chain matches when the observed chain is its tail. With one
//! match the observed chain becomes the expected one; with two, the first is
//! taken if its leaf flag is that of the observed chain, else the second; with
//! none, or with three or more, the chain stays as it is. That three or more
//! expected chains match is noted in the details of the report.

use crate::call::CallView;
use crate::chain_key::{chain_view, clone_chain, key_text, CChainStatsKey, CallChain, KeyView};
use crate::report::{chapter_index, with_message, Chapter, Report};
use crate::text::{chars_of, decimal, push_decimal, push_str_chars, string_of};
use vstd::prelude::*;

verus! {

/// The plain values of a list of keys.
pub open spec fn keys_view(keys: Seq<CChainStatsKey>) -> Seq<KeyView> {
    keys.map_values(|k: CChainStatsKey| k@)
}

/// Whether `chain` is what `longer` ends in.
pub open spec fn is_tail_of(chain: Seq<CallView>, longer: Seq<CallView>) -> bool {
    chain.len() <= longer.len() && longer.skip(longer.len() - chain.len()) == chain
}

/// The indices of the expected chains that end in `chain`, in ascending order.
pub open spec fn tail_matches(chain: Seq<CallView>, expected: Seq<KeyView>) -> Seq<int>
    decreases expected.len(),
{
    if expected.len() == 0 {
        Seq::<int>::empty()
    } else {
        let front = tail_matches(chain, expected.drop_last());
        if is_tail_of(chain, expected.last().chain) {
            front.push(expected.len() - 1)
        } else {
            front
        }
    }
}

/// The index of the expected chain that `k` is remapped to, if any.
pub open spec fn remap_choice(k: KeyView, expected: Seq<KeyView>) -> Option<int> {
    let m = tail_matches(k.chain, expected);
    if m.len() == 1 {
        Some(m[0])
    } else if m.len() == 2 {
        if expected[m[0]].is_leaf == k.is_leaf {
            Some(m[0])
        } else {
            Some(m[1])
        }
    } else {
        None
    }
}

/// The key after remapping: chain and leaf flag of the chosen expected chain,
/// the caching label as it was; or the key unchanged where none is chosen.
pub open spec fn remapped(k: KeyView, expected: Seq<KeyView>) -> KeyView {
    match remap_choice(k, expected) {
        Some(i) => KeyView {
            chain: expected[i].chain,
            caching_process: k.caching_process,
            is_leaf: expected[i].is_leaf,
        },
        None => k,
    }
}

/// The note on a chain that stays where it is because three or more
/// expected chains end in it.
pub open spec fn no_fix_text(matches: nat, key: Seq<char>) -> Seq<char> {
    "NO FIX: "@ + decimal(matches) + " matches found for non-rooted '"@ + key + "'"@
}

/// The report after a key was held against the expected chains: with a
/// note in the details where three or more of them end in its chain, else
/// as it was.
pub open spec fn with_remap_note(
    chapters: Seq<Seq<Seq<char>>>,
    k: KeyView,
    expected: Seq<KeyView>,
) -> Seq<Seq<Seq<char>>> {
    let n = tail_matches(k.chain, expected).len();
    if n >= 3 {
        with_message(
            chapters,
            chapter_index(Chapter::Details),
            no_fix_text(n, key_text(k.chain, k.caching_process, k.is_leaf)),
        )
    } else {
        chapters
    }
}

/// Whether a second remapping moves the key again: the remapped chain is the
/// tail of exactly two expected chains, and the first of them is another
/// chain with the same leaf flag.
pub open spec fn remap_unstable(k: KeyView, expected: Seq<KeyView>) -> bool {
    let r = remapped(k, expected);
    let m = tail_matches(r.chain, expected);
    m.len() == 2 && expected[m[0]].is_leaf == r.is_leaf && expected[m[0]].chain != r.chain
}

/// The matches are the indices of the chains that end in `chain`, each once
/// and in ascending order.
pub proof fn lemma_tail_matches(chain: Seq<CallView>, expected: Seq<KeyView>)
    ensures
        forall|x: int|
            0 <= x < tail_matches(chain, expected).len() ==> 0 <= #[trigger] tail_matches(
                chain,
                expected,
            )[x] < expected.len() && is_tail_of(
                chain,
                expected[tail_matches(chain, expected)[x]].chain,
            ),
        forall|x: int, y: int|
            0 <= x < y < tail_matches(chain, expected).len() ==> tail_matches(chain, expected)[x]
                < tail_matches(chain, expected)[y],
        forall|j: int|
            0 <= j < expected.len() && is_tail_of(chain, #[trigger] expected[j].chain)
                ==> tail_matches(chain, expected).contains(j),
        tail_matches(chain, expected).len() <= expected.len(),
    decreases expected.len(),
{
    if expected.len() > 0 {
        let front_keys = expected.drop_last();
        lemma_tail_matches(chain, front_keys);
        let front = tail_matches(chain, front_keys);
        let m = tail_matches(chain, expected);
        assert forall|j: int|
            0 <= j < expected.len() && is_tail_of(chain, #[trigger] expected[j].chain) implies m.contains(
            j,
        ) by {
            if j < expected.len() - 1 {
                assert(front_keys[j] == expected[j]);
                assert(front.contains(j));
                let x = choose|x: int| 0 <= x < front.len() && front[x] == j;
                assert(m[x] == j);
            } else {
                assert(m[m.len() - 1] == j);
            }
        }
        assert forall|x: int| 0 <= x < m.len() implies 0 <= #[trigger] m[x] < expected.len()
            && is_tail_of(chain, expected[m[x]].chain) by {
            if x < front.len() {
                assert(front_keys[front[x]] == expected[front[x]]);
            }
        }
    }
}

/// A second remapping leaves the key as the first one made it, except where
/// `remap_unstable` holds, and there it does not.
pub proof fn lemma_remap_twice(k: KeyView, expected: Seq<KeyView>)
    ensures
        remapped(remapped(k, expected), expected) == remapped(k, expected) <==> !remap_unstable(
            k,
            expected,
        ),
{
    let r = remapped(k, expected);
    lemma_tail_matches(k.chain, expected);
    lemma_tail_matches(r.chain, expected);
    let m2 = tail_matches(r.chain, expected);
    match remap_choice(k, expected) {
        None => {},
        Some(i) => {
            let m1 = tail_matches(k.chain, expected);
            assert(0 <= i < expected.len()) by {
                if m1.len() == 1 {
                    assert(i == m1[0]);
                } else {
                    assert(i == m1[0] || i == m1[1]);
                }
            }
            assert(expected[i].chain.skip(0) =~= expected[i].chain);
            assert(is_tail_of(r.chain, expected[i].chain));
            assert(m2.contains(i));
            let x = choose|x: int| 0 <= x < m2.len() && m2[x] == i;
            if m2.len() == 2 {
                if expected[m2[0]].is_leaf != r.is_leaf {
                    assert(x == 1);
                }
            }
        },
    }
}

/// Whether `chain` is what `longer` ends in.
pub fn is_tail(chain: &CallChain, longer: &CallChain) -> (r: bool)
    ensures
        r == is_tail_of(chain_view(chain@), chain_view(longer@)),
{
    if chain.len() > longer.len() {
        return false;
    }
    let off = longer.len() - chain.len();
    let ghost tail = chain_view(longer@).skip(off as int);
    let mut j: usize = 0;
    while j < chain.len()
        invariant
            j <= chain.len(),
            off + chain.len() == longer.len(),
            tail == chain_view(longer@).skip(off as int),
            forall|x: int| 0 <= x < j ==> chain@[x]@ == longer@[off + x]@,
        decreases chain.len() - j,
    {
        if !(chain[j] == longer[off + j]) {
            assert(tail[j as int] != chain_view(chain@)[j as int]);
            return false;
        }
        j += 1;
    }
    assert(tail =~= chain_view(chain@));
    true
}

/// The positions in `expected` of the chains that end in `chain`.
pub fn find_tail_matches(chain: &CallChain, expected: &Vec<CChainStatsKey>) -> (r: Vec<usize>)
    ensures
        r@.map_values(|i: usize| i as int) == tail_matches(
            chain_view(chain@),
            keys_view(expected@),
        ),
        forall|x: int| 0 <= x < r.len() ==> r[x] < expected.len(),
{
    let mut r: Vec<usize> = Vec::new();
    let mut i: usize = 0;
    let ghost keys = keys_view(expected@);
    assert(keys.take(0) =~= Seq::<KeyView>::empty());
    while i < expected.len()
        invariant
            i <= expected.len(),
            keys == keys_view(expected@),
            r@.map_values(|i: usize| i as int) == tail_matches(
                chain_view(chain@),
                keys.take(i as int),
            ),
            forall|x: int| 0 <= x < r.len() ==> r[x] < expected.len(),
        decreases expected.len() - i,
    {
        proof {
            assert(keys.take(i + 1).drop_last() =~= keys.take(i as int));
            assert(keys.take(i + 1).last() == expected@[i as int]@);
        }
        let ghost before = r@.map_values(|i: usize| i as int);
        if is_tail(chain, &expected[i].call_chain) {
            r.push(i);
            assert(r@.map_values(|i: usize| i as int) =~= before.push(i as int));
        }
        i += 1;
    }
    assert(keys.take(expected.len() as int) =~= keys);
    r
}

impl CChainStatsKey {
    /// How many of the expected chains end in this chain.
    pub fn count_tail_matches(&self, expected_cc: &Vec<CChainStatsKey>) -> (n: usize)
        ensures
            n == tail_matches(self@.chain, keys_view(expected_cc@)).len(),
    {
        let m = find_tail_matches(&self.call_chain, expected_cc);
        assert(m@.map_values(|i: usize| i as int).len() == m.len());
        m.len()
    }

    /// Remaps the chain onto the expected chains of its end point, and tells
    /// whether it did. Where three or more expected chains end in the chain,
    /// it stays as it is and that is noted in the details of the report.
    pub fn remap_callchain(&mut self, expected_cc: &Vec<CChainStatsKey>, report: &mut Report) -> (done:
        bool)
        ensures
            final(self)@ == remapped(old(self)@, keys_view(expected_cc@)),
            done == remap_choice(old(self)@, keys_view(expected_cc@)).is_some(),
            final(report)@ == with_remap_note(old(report)@, old(self)@, keys_view(expected_cc@)),
    {
        let m = find_tail_matches(&self.call_chain, expected_cc);
        let ghost ms = m@.map_values(|i: usize| i as int);
        assert(ms.len() == m.len());
        let pick: Option<usize> = if m.len() == 1 {
            assert(ms[0] == m[0]);
            Some(m[0])
        } else if m.len() == 2 {
            assert(ms[0] == m[0]);
            assert(ms[1] == m[1]);
            if expected_cc[m[0]].is_leaf == self.is_leaf {
                Some(m[0])
            } else {
                Some(m[1])
            }
        } else {
            if m.len() >= 3 {
                let mut note = chars_of("NO FIX: ");
                push_decimal(&mut note, m.len());
                push_str_chars(&mut note, " matches found for non-rooted '");
                push_str_chars(&mut note, self.call_chain_key().as_str());
                push_str_chars(&mut note, "'");
                report.report(Chapter::Details, string_of(&note));
            }
            None
        };
        match pick {
            Some(i) => {
                self.is_leaf = expected_cc[i].is_leaf;
                self.call_chain = clone_chain(&expected_cc[i].call_chain);
                true
            },
            None => false,
        }
    }
}

} // verus!
