//! Texts in the order of a dictionary, and lists of texts kept in that order.
//!
//! Characters are ordered by their code point, which is the order that Rust
//! gives to strings.

use crate::text::{chars_of, string_views};
use vstd::prelude::*;

verus! {

/// Whether `a` stands before `b`.
pub open spec fn lex_lt(a: Seq<char>, b: Seq<char>) -> bool
    decreases a.len(),
{
    if b.len() == 0 {
        false
    } else if a.len() == 0 {
        true
    } else if (a[0] as u32) < (b[0] as u32) {
        true
    } else if (a[0] as u32) > (b[0] as u32) {
        false
    } else {
        lex_lt(a.drop_first(), b.drop_first())
    }
}

/// Each text stands before the next one, so that none stands twice.
pub open spec fn strictly_sorted(s: Seq<Seq<char>>) -> bool {
    forall|i: int, j: int| 0 <= i < j < s.len() ==> lex_lt(s[i], s[j])
}

/// Characters with the same code point are the same character.
pub proof fn lemma_same_code(a: char, b: char)
    ensures
        (a as u32) == (b as u32) ==> a == b,
{
    vstd::utf8::char_u32_cast(a, a as u32);
    vstd::utf8::char_u32_cast(b, b as u32);
}

pub proof fn lemma_lex_irreflexive(a: Seq<char>)
    ensures
        !lex_lt(a, a),
    decreases a.len(),
{
    if a.len() > 0 {
        lemma_lex_irreflexive(a.drop_first());
    }
}

pub proof fn lemma_lex_transitive(a: Seq<char>, b: Seq<char>, c: Seq<char>)
    requires
        lex_lt(a, b),
        lex_lt(b, c),
    ensures
        lex_lt(a, c),
    decreases a.len(),
{
    if a.len() > 0 && b.len() > 0 && c.len() > 0 {
        if (a[0] as u32) == (b[0] as u32) && (b[0] as u32) == (c[0] as u32) {
            lemma_lex_transitive(a.drop_first(), b.drop_first(), c.drop_first());
        }
    }
}

/// Of two different texts one stands before the other.
pub proof fn lemma_lex_total(a: Seq<char>, b: Seq<char>)
    ensures
        lex_lt(a, b) || lex_lt(b, a) || a == b,
    decreases a.len(),
{
    if a.len() > 0 && b.len() > 0 {
        lemma_same_code(a[0], b[0]);
        if a[0] == b[0] {
            lemma_lex_total(a.drop_first(), b.drop_first());
            if a.drop_first() == b.drop_first() {
                assert(a =~= seq![a[0]] + a.drop_first());
                assert(b =~= seq![b[0]] + b.drop_first());
            }
        }
    } else if a.len() == 0 && b.len() == 0 {
        assert(a =~= b);
    }
}

/// A common start does not decide the order.
proof fn lemma_lex_skip(a: Seq<char>, b: Seq<char>, n: int)
    requires
        0 <= n <= a.len(),
        n <= b.len(),
        a.take(n) == b.take(n),
    ensures
        lex_lt(a, b) == lex_lt(a.skip(n), b.skip(n)),
    decreases n,
{
    if n == 0 {
        assert(a.skip(0) =~= a);
        assert(b.skip(0) =~= b);
    } else {
        assert(a[0] == a.take(n)[0]);
        assert(b[0] == b.take(n)[0]);
        let a1 = a.drop_first();
        let b1 = b.drop_first();
        assert(a1.take(n - 1) =~= a.take(n).drop_first());
        assert(b1.take(n - 1) =~= b.take(n).drop_first());
        lemma_lex_skip(a1, b1, n - 1);
        assert(a1.skip(n - 1) =~= a.skip(n));
        assert(b1.skip(n - 1) =~= b.skip(n));
    }
}

/// Two strictly sorted lists with the same texts are the same list.
pub proof fn lemma_sorted_same(x: Seq<Seq<char>>, y: Seq<Seq<char>>)
    requires
        strictly_sorted(x),
        strictly_sorted(y),
        forall|t: Seq<char>|
            #![trigger x.contains(t)]
            #![trigger y.contains(t)]
            x.contains(t) <==> y.contains(t),
    ensures
        x == y,
    decreases x.len(),
{
    if x.len() == 0 {
        if y.len() > 0 {
            assert(y.contains(y[0]));
        }
        assert(x =~= y);
    } else {
        assert(x.contains(x[0]));
        assert(y.len() > 0);
        assert(y.contains(y[0]));
        // the two first texts are the least of the same texts
        let i = choose|i: int| 0 <= i < y.len() && y[i] == x[0];
        let j = choose|j: int| 0 <= j < x.len() && x[j] == y[0];
        if i > 0 {
            // y[0] < y[i] == x[0] <= x[j] == y[0]
            if j > 0 {
                lemma_lex_transitive(y[0], x[0], x[j]);
            }
            lemma_lex_irreflexive(y[0]);
            assert(false);
        }
        let xr = x.drop_first();
        let yr = y.drop_first();
        assert forall|t: Seq<char>|
            #![trigger xr.contains(t)]
            #![trigger yr.contains(t)]
            xr.contains(t) <==> yr.contains(t) by {
            if xr.contains(t) {
                let p = choose|p: int| 0 <= p < xr.len() && xr[p] == t;
                assert(x[p + 1] == t);
                assert(x.contains(t));
                let q = choose|q: int| 0 <= q < y.len() && y[q] == t;
                if q == 0 {
                    lemma_lex_irreflexive(t);
                    assert(false);
                }
                assert(yr[q - 1] == t);
            }
            if yr.contains(t) {
                let p = choose|p: int| 0 <= p < yr.len() && yr[p] == t;
                assert(y[p + 1] == t);
                assert(y.contains(t));
                let q = choose|q: int| 0 <= q < x.len() && x[q] == t;
                if q == 0 {
                    lemma_lex_irreflexive(t);
                    assert(false);
                }
                assert(xr[q - 1] == t);
            }
        }
        assert(strictly_sorted(xr)) by {
            assert forall|a: int, b: int| 0 <= a < b < xr.len() implies lex_lt(xr[a], xr[b]) by {
                assert(xr[a] == x[a + 1] && xr[b] == x[b + 1]);
            }
        }
        assert(strictly_sorted(yr)) by {
            assert forall|a: int, b: int| 0 <= a < b < yr.len() implies lex_lt(yr[a], yr[b]) by {
                assert(yr[a] == y[a + 1] && yr[b] == y[b + 1]);
            }
        }
        lemma_sorted_same(xr, yr);
        assert(x =~= seq![x[0]] + xr);
        assert(y =~= seq![y[0]] + yr);
    }
}

/// Whether `a` stands before `b`.
pub fn text_before(a: &Vec<char>, b: &Vec<char>) -> (r: bool)
    ensures
        r == lex_lt(a@, b@),
{
    let mut i: usize = 0;
    while i < a.len() && i < b.len() && a[i] == b[i]
        invariant
            i <= a.len(),
            i <= b.len(),
            a@.take(i as int) == b@.take(i as int),
        decreases a.len() - i,
    {
        assert(a@.take(i + 1) =~= a@.take(i as int).push(a@[i as int]));
        assert(b@.take(i + 1) =~= b@.take(i as int).push(b@[i as int]));
        i += 1;
    }
    proof {
        lemma_lex_skip(a@, b@, i as int);
    }
    if i >= b.len() {
        false
    } else if i >= a.len() {
        true
    } else {
        let x: u32 = a[i] as u32;
        let y: u32 = b[i] as u32;
        proof {
            let ar = a@.skip(i as int);
            let br = b@.skip(i as int);
            assert(ar[0] == a@[i as int]);
            assert(br[0] == b@[i as int]);
            lemma_same_code(a@[i as int], b@[i as int]);
        }
        x < y
    }
}

/// Puts `name` at its place in a strictly sorted list, unless it is there.
pub fn insert_sorted(list: &mut Vec<String>, name: &str)
    requires
        strictly_sorted(string_views(old(list)@)),
    ensures
        strictly_sorted(string_views(final(list)@)),
        forall|t: Seq<char>|
            #[trigger] string_views(final(list)@).contains(t) <==> string_views(
                old(list)@,
            ).contains(t) || t == name@,
        final(list).len() == old(list).len() + if string_views(old(list)@).contains(name@) {
            0int
        } else {
            1int
        },
{
    let wanted = chars_of(name);
    let ghost before = string_views(list@);
    let mut p: usize = 0;
    while p < list.len() && text_before(&chars_of(list[p].as_str()), &wanted)
        invariant
            p <= list.len(),
            wanted@ == name@,
            before == string_views(list@),
            forall|q: int| 0 <= q < p ==> lex_lt(before[q], name@),
        decreases list.len() - p,
    {
        p += 1;
    }
    if p < list.len() && crate::text::same_chars(&chars_of(list[p].as_str()), &wanted) {
        assert(before[p as int] == name@);
        return ;
    }
    proof {
        assert forall|q: int| p <= q < before.len() implies lex_lt(name@, before[q]) by {
            lemma_lex_total(name@, before[p as int]);
            if q > p {
                lemma_lex_transitive(name@, before[p as int], before[q]);
            }
        }
        assert(!before.contains(name@)) by {
            if before.contains(name@) {
                let q = choose|q: int| 0 <= q < before.len() && before[q] == name@;
                lemma_lex_irreflexive(name@);
            }
        }
    }
    list.insert(p, crate::text::string_of(&wanted));
    proof {
        let after = string_views(list@);
        assert(after =~= before.insert(p as int, name@));
        assert forall|i: int, j: int| 0 <= i < j < after.len() implies lex_lt(after[i], after[j]) by {
            if j < p {
            } else if j == p {
            } else if i < p {
                assert(after[j] == before[j - 1]);
                if j - 1 == i {
                } else {
                }
                lemma_lex_transitive(after[i], name@, after[j]);
            } else if i == p {
                assert(after[j] == before[j - 1]);
            } else {
                assert(after[i] == before[i - 1]);
                assert(after[j] == before[j - 1]);
            }
        }
        assert forall|t: Seq<char>| after.contains(t) <==> before.contains(t) || t == name@ by {
            if after.contains(t) {
                let q = choose|q: int| 0 <= q < after.len() && after[q] == t;
                if q < p {
                    assert(before[q] == t);
                } else if q > p {
                    assert(before[q - 1] == t);
                }
            }
            if before.contains(t) {
                let q = choose|q: int| 0 <= q < before.len() && before[q] == t;
                if q < p {
                    assert(after[q] == t);
                } else {
                    assert(after[q + 1] == t);
                }
            }
            if t == name@ {
                assert(after[p as int] == t);
            }
        }
    }
}

} // verus!
