//! Reading a key back gives the chain it was written from.

use crate::call::{
    call_text, direction_text, lemma_direction_names, process_method_text, CallDirection,
    CallView,
};
use crate::chain_key::{
    call_separator, call_texts, caching_field, chain_text, key_text, leaf_field, leaf_label,
    parse_call, parse_calls, parse_key, KeyView, ParseError,
};
use crate::text::{
    is_space, is_trimmed, lemma_concat_lacks, lemma_index_of, lemma_index_of_at,
    lemma_split_concat, lemma_split_none, lemma_split_push, lemma_trim_padded,
    lemma_trim_push_space, lemma_trim_trimmed, split,
};
use vstd::prelude::*;

verus! {

/// A call that can be read back from its text: process and method carry no
/// white space at either end, the process holds none of `/`, `|`, `&`, and
/// the method none of `[`, `|`, `&`.
pub open spec fn call_well_formed(c: CallView) -> bool {
    &&& is_trimmed(c.process)
    &&& !c.process.contains('/')
    &&& !c.process.contains('|')
    &&& !c.process.contains('&')
    &&& is_trimmed(c.method)
    &&& !c.method.contains('[')
    &&& !c.method.contains('|')
    &&& !c.method.contains('&')
}

/// A key that can be read back from its text: at least one call, every call
/// well formed, and a caching label without `&` or white space at its ends.
pub open spec fn key_well_formed(k: KeyView) -> bool {
    &&& k.chain.len() > 0
    &&& forall|i: int| 0 <= i < k.chain.len() ==> call_well_formed(#[trigger] k.chain[i])
    &&& is_trimmed(k.caching_process)
    &&& !k.caching_process.contains('&')
}

proof fn lemma_direction_text_chars(d: CallDirection)
    ensures
        direction_text(d).len() > 0,
        !direction_text(d).contains('|'),
        !direction_text(d).contains('&'),
{
    reveal_strlit("Inbound");
    reveal_strlit("Outbound");
    reveal_strlit("Unknown");
    let t = direction_text(d);
    assert forall|i: int| 0 <= i < t.len() implies t[i] != '|' && t[i] != '&' by {
        match d {
            CallDirection::Inbound => {
                assert(t =~= seq!['I', 'n', 'b', 'o', 'u', 'n', 'd']);
            },
            CallDirection::Outbound => {
                assert(t =~= seq!['O', 'u', 't', 'b', 'o', 'u', 'n', 'd']);
            },
            CallDirection::Unknown => {
                assert(t =~= seq!['U', 'n', 'k', 'n', 'o', 'w', 'n']);
            },
        }
    }
}

proof fn lemma_single_lacks(x: char, c: char)
    requires
        x != c,
    ensures
        !seq![x].contains(c),
{
}

proof fn lemma_process_method_shape(c: CallView)
    requires
        call_well_formed(c),
    ensures
        process_method_text(c).len() > 0,
        !is_space(process_method_text(c)[0]),
        !is_space(process_method_text(c).last()),
        !process_method_text(c).contains('|'),
        !process_method_text(c).contains('&'),
{
    let t = process_method_text(c);
    lemma_single_lacks('/', '|');
    lemma_single_lacks('/', '&');
    lemma_concat_lacks(c.process, seq!['/'], '|');
    lemma_concat_lacks(c.process + seq!['/'], c.method, '|');
    lemma_concat_lacks(c.process, seq!['/'], '&');
    lemma_concat_lacks(c.process + seq!['/'], c.method, '&');
    if c.process.len() > 0 {
        assert(t[0] == c.process[0]);
    } else {
        assert(t[0] == '/');
    }
    if c.method.len() > 0 {
        assert(t.last() == c.method.last());
    } else {
        assert(t.last() == '/');
    }
}

/// The text of a well-formed call is trimmed and free of the separators.
pub proof fn lemma_call_text_shape(c: CallView)
    requires
        call_well_formed(c),
    ensures
        call_text(c).len() > 0,
        is_trimmed(call_text(c)),
        !call_text(c).contains('|'),
        !call_text(c).contains('&'),
{
    lemma_process_method_shape(c);
    let pm = process_method_text(c);
    let t = call_text(c);
    match c.direction {
        CallDirection::Unknown => {},
        _ => {
            let name = direction_text(c.direction);
            lemma_direction_text_chars(c.direction);
            assert(t == pm + seq![' ', '['] + name + seq![']']);
            assert(t[0] == pm[0]);
            assert(t.last() == ']');
            assert forall|i: int| 0 <= i < t.len() implies t[i] != '|' && t[i] != '&' by {
                if i < pm.len() {
                    assert(pm.contains(pm[i]));
                } else if i < pm.len() + 2 {
                } else if i < pm.len() + 2 + name.len() {
                    assert(name.contains(name[i - pm.len() - 2]));
                } else {
                }
            }
        },
    }
}

/// A well-formed call is read back from its text, with or without white
/// space around it.
pub proof fn lemma_parse_call_text(c: CallView, pre: Seq<char>, post: Seq<char>)
    requires
        call_well_formed(c),
        forall|j: int| 0 <= j < pre.len() ==> is_space(#[trigger] pre[j]),
        forall|j: int| 0 <= j < post.len() ==> is_space(#[trigger] post[j]),
    ensures
        parse_call(pre + call_text(c) + post) == Ok::<CallView, ParseError>(c),
{
    lemma_call_text_shape(c);
    let t = call_text(c);
    lemma_trim_padded(pre, t, post);
    let i = c.process.len() as int;
    assert forall|j: int| 0 <= j < i implies t[j] != '/' by {
        assert(c.process.contains(c.process[j]));
    }
    assert(t[i] == '/');
    lemma_index_of_at(t, '/', i);
    assert(t.take(i) =~= c.process);
    lemma_trim_trimmed(c.process);
    let rest = t.skip(i + 1);
    match c.direction {
        CallDirection::Unknown => {
            assert(rest =~= c.method);
            lemma_index_of(rest, '[');
            lemma_trim_trimmed(c.method);
        },
        _ => {
            let name = direction_text(c.direction);
            lemma_direction_text_chars(c.direction);
            lemma_direction_names();
            assert(rest =~= c.method + seq![' ', '['] + name + seq![']']);
            let j = c.method.len() as int + 1;
            assert forall|x: int| 0 <= x < j implies rest[x] != '[' by {
                if x < c.method.len() {
                    assert(c.method.contains(c.method[x]));
                }
            }
            assert(rest[j] == '[');
            lemma_index_of_at(rest, '[', j);
            assert(rest.take(j) =~= Seq::<char>::empty() + c.method + seq![' ']);
            lemma_trim_padded(Seq::<char>::empty(), c.method, seq![' ']);
            assert(rest.subrange(j + 1, rest.len() - 1) =~= name);
        },
    }
}

/// The text of a chain of well-formed calls is trimmed and free of `&`, and
/// its pieces are read back as the chain.
pub proof fn lemma_parse_chain_text(chain: Seq<CallView>)
    requires
        chain.len() > 0,
        forall|i: int| 0 <= i < chain.len() ==> call_well_formed(#[trigger] chain[i]),
    ensures
        chain_text(chain).len() > 0,
        is_trimmed(chain_text(chain)),
        !chain_text(chain).contains('&'),
        parse_calls(split(chain_text(chain), '|')) == Ok::<Seq<CallView>, ParseError>(chain),
    decreases chain.len(),
{
    let e = Seq::<char>::empty();
    let last = chain.last();
    let tn = call_text(last);
    lemma_call_text_shape(last);
    if chain.len() == 1 {
        assert(chain_text(chain) == tn);
        lemma_split_none(tn, '|');
        assert(e + tn + e =~= tn);
        lemma_parse_call_text(last, e, e);
        let pieces = seq![tn];
        assert(pieces.drop_last() =~= Seq::<Seq<char>>::empty());
        assert(parse_calls(pieces.drop_last()) == Ok::<Seq<CallView>, ParseError>(
            Seq::<CallView>::empty(),
        ));
        assert(pieces.last() == tn);
        assert(Seq::<CallView>::empty().push(last) =~= chain);
        assert(parse_calls(pieces) == Ok::<Seq<CallView>, ParseError>(chain));
    } else {
        let front = chain.drop_last();
        lemma_parse_chain_text(front);
        let tf = chain_text(front);
        assert(call_texts(chain).drop_last() =~= call_texts(front));
        let t = chain_text(chain);
        assert(t == tf + call_separator() + tn);
        let left = tf.push(' ');
        let right = seq![' '] + tn;
        assert(t =~= left + seq!['|'] + right);
        lemma_split_concat(left, right, '|');
        lemma_single_lacks(' ', '|');
        lemma_concat_lacks(seq![' '], tn, '|');
        lemma_split_none(right, '|');
        lemma_split_push(tf, ' ', '|');
        let x = split(tf, '|');
        let xs = x.drop_last().push(x.last().push(' '));
        let pieces = split(t, '|');
        assert(pieces =~= xs + seq![right]);
        assert(pieces.drop_last() =~= xs);
        assert(xs.drop_last() =~= x.drop_last());
        lemma_trim_push_space(x.last(), ' ');
        assert(parse_call(xs.last()) == parse_call(x.last()));
        assert(parse_calls(xs) == parse_calls(x));
        assert(right =~= seq![' '] + tn + e);
        lemma_parse_call_text(last, seq![' '], e);
        assert(front.push(last) =~= chain);
        assert(pieces.last() == right);
        assert(parse_calls(pieces) == Ok::<Seq<CallView>, ParseError>(chain));
        assert(t[0] == tf[0]);
        assert(t.last() == tn.last());
        lemma_single_lacks(' ', '&');
        lemma_single_lacks('|', '&');
        assert forall|i: int| 0 <= i < t.len() implies t[i] != '&' by {
            if i < tf.len() {
                assert(tf.contains(tf[i]));
            } else if i < tf.len() + 3 {
            } else {
                assert(tn.contains(tn[i - tf.len() - 3]));
            }
        }
    }
}

/// Reading the text of a well-formed key gives the key back.
pub proof fn lemma_parse_key_text(k: KeyView)
    requires
        key_well_formed(k),
    ensures
        parse_key(key_text(k.chain, k.caching_process, k.is_leaf)) == Ok::<KeyView, ParseError>(k),
{
    let e = Seq::<char>::empty();
    let t = chain_text(k.chain);
    lemma_parse_chain_text(k.chain);
    let leaf = if k.is_leaf {
        seq![' '] + leaf_label()
    } else {
        e
    };
    let s = key_text(k.chain, k.caching_process, k.is_leaf);
    let f0 = t.push(' ');
    let f1 = k.caching_process.push(' ');
    assert(s =~= f0 + seq!['&'] + (f1 + seq!['&'] + leaf));
    lemma_split_concat(f0, f1 + seq!['&'] + leaf, '&');
    lemma_split_concat(f1, leaf, '&');
    lemma_single_lacks(' ', '&');
    lemma_concat_lacks(t, seq![' '], '&');
    assert(f0 =~= t + seq![' ']);
    lemma_concat_lacks(k.caching_process, seq![' '], '&');
    assert(f1 =~= k.caching_process + seq![' ']);
    assert forall|i: int| 0 <= i < leaf.len() implies leaf[i] != '&' by {}
    lemma_split_none(f0, '&');
    lemma_split_none(f1, '&');
    lemma_split_none(leaf, '&');
    let fields = split(s, '&');
    assert(fields =~= seq![f0, f1, leaf]);
    assert(f0 =~= e + t + seq![' ']);
    lemma_trim_padded(e, t, seq![' ']);
    assert(f1 =~= e + k.caching_process + seq![' ']);
    lemma_trim_padded(e, k.caching_process, seq![' ']);
    if k.is_leaf {
        assert(leaf =~= seq![' '] + leaf_label() + e);
        lemma_trim_padded(seq![' '], leaf_label(), e);
    } else {
        lemma_trim_trimmed(e);
    }
    assert(leaf_field(fields) == if k.is_leaf {
        leaf_label()
    } else {
        e
    });
    assert(caching_field(fields) == k.caching_process);
}

} // verus!
