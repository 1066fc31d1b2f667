//! The canonical key of a call chain: how it is written and how it is read.
//!
//! A key is `c1 | c2 | … | cN &caching &leaf`, with `&` between its three
//! fields. The caching field is empty or a label in square brackets after a
//! space; the leaf field is empty or ` *LEAF*`.

use crate::call::{call_text, direction_of, Call, CallDirection, CallView};
use crate::text::{
    chars_of, find_char, index_of, join, push_chars, push_str_chars, same_chars, slice_chars,
    split, split_chars, string_of, trim, trim_chars, views,
};
use vstd::prelude::*;
use vstd::std_specs::cmp::PartialEqSpecImpl;

verus! {

/// An ordered sequence of calls from the root toward a leaf.
pub type CallChain = Vec<Call>;

/// The label of a leaf chain, as it stands in a key.
pub const LEAF_LABEL: &'static str = "*LEAF*";

/// The characters of the leaf label.
pub open spec fn leaf_label() -> Seq<char> {
    seq!['*', 'L', 'E', 'A', 'F', '*']
}

/// What stands between two calls of a chain.
pub open spec fn call_separator() -> Seq<char> {
    seq![' ', '|', ' ']
}

/// What stands before the caching field and before the leaf field.
pub open spec fn field_separator() -> Seq<char> {
    seq![' ', '&']
}

/// The plain values of the calls of a chain.
pub open spec fn chain_view(chain: Seq<Call>) -> Seq<CallView> {
    chain.map_values(|c: Call| c@)
}

/// The texts of the calls of a chain.
pub open spec fn call_texts(chain: Seq<CallView>) -> Seq<Seq<char>> {
    chain.map_values(|c: CallView| call_text(c))
}

/// The calls of a chain, written one after the other with ` | ` between them.
pub open spec fn chain_text(chain: Seq<CallView>) -> Seq<char> {
    join(call_texts(chain), call_separator())
}

/// The key of a chain with the given caching label and leaf flag.
pub open spec fn key_text(chain: Seq<CallView>, caching: Seq<char>, is_leaf: bool) -> Seq<char> {
    chain_text(chain) + field_separator() + caching + field_separator() + if is_leaf {
        seq![' '] + leaf_label()
    } else {
        Seq::<char>::empty()
    }
}

/// Why a text is not a chain key.
#[derive(Clone, Copy, Debug, PartialEq, Eq, Structural)]
pub enum ParseError {
    /// A call holds no `/` between process and method.
    MissingSlash,
    /// A call ends in `[`, with no direction behind it.
    EmptyDirection,
    /// The third field is neither empty nor the leaf label.
    UnknownLeafLabel,
}

/// The call that one piece of a chain stands for. The piece is trimmed; the
/// process ends at the first `/`; a `[` in what follows starts the direction,
/// which ends one character before the end of the piece.
pub open spec fn parse_call(piece: Seq<char>) -> Result<CallView, ParseError> {
    let t = trim(piece);
    let i = index_of(t, '/');
    if i >= t.len() {
        Err(ParseError::MissingSlash)
    } else {
        let rest = t.skip(i + 1);
        let j = index_of(rest, '[');
        if j >= rest.len() {
            Ok(CallView { process: trim(t.take(i)), method: trim(rest), direction: CallDirection::Unknown })
        } else if j + 1 == rest.len() {
            Err(ParseError::EmptyDirection)
        } else {
            Ok(
                CallView {
                    process: trim(t.take(i)),
                    method: trim(rest.take(j)),
                    direction: direction_of(rest.subrange(j + 1, rest.len() - 1)),
                },
            )
        }
    }
}

/// The calls that the pieces stand for, or the error of the first piece that
/// is no call.
pub open spec fn parse_calls(pieces: Seq<Seq<char>>) -> Result<Seq<CallView>, ParseError>
    decreases pieces.len(),
{
    if pieces.len() == 0 {
        Ok(Seq::<CallView>::empty())
    } else {
        match parse_calls(pieces.drop_last()) {
            Err(e) => Err(e),
            Ok(calls) => match parse_call(pieces.last()) {
                Err(e) => Err(e),
                Ok(c) => Ok(calls.push(c)),
            },
        }
    }
}

/// What a chain key holds, as plain values.
pub struct KeyView {
    pub chain: Seq<CallView>,
    pub caching_process: Seq<char>,
    pub is_leaf: bool,
}

/// The third field of a key, trimmed; empty where the key has fewer fields.
pub open spec fn leaf_field(fields: Seq<Seq<char>>) -> Seq<char> {
    if fields.len() > 2 {
        trim(fields[2])
    } else {
        Seq::<char>::empty()
    }
}

/// The second field of a key, trimmed; empty where the key has one field.
pub open spec fn caching_field(fields: Seq<Seq<char>>) -> Seq<char> {
    if fields.len() > 1 {
        trim(fields[1])
    } else {
        Seq::<char>::empty()
    }
}

/// The key that a text stands for. The text is cut at each `&`; the first
/// field holds the calls, cut at each `|`; fields after the third are ignored.
pub open spec fn parse_key(s: Seq<char>) -> Result<KeyView, ParseError> {
    let fields = split(s, '&');
    let leaf = leaf_field(fields);
    if leaf != leaf_label() && leaf.len() != 0 {
        Err(ParseError::UnknownLeafLabel)
    } else {
        match parse_calls(split(trim(fields[0]), '|')) {
            Err(e) => Err(e),
            Ok(chain) => Ok(
                KeyView {
                    chain,
                    caching_process: caching_field(fields),
                    is_leaf: leaf == leaf_label(),
                },
            ),
        }
    }
}

/// Once a piece fails, the whole chain fails with the same error.
pub proof fn lemma_parse_calls_error_stays(pieces: Seq<Seq<char>>, n: int)
    requires
        0 <= n <= pieces.len(),
        parse_calls(pieces.take(n)) is Err,
    ensures
        parse_calls(pieces) == parse_calls(pieces.take(n)),
    decreases pieces.len() - n,
{
    if n == pieces.len() {
        assert(pieces.take(n) =~= pieces);
    } else {
        assert(pieces.take(n + 1).drop_last() =~= pieces.take(n));
        lemma_parse_calls_error_stays(pieces, n + 1);
    }
}

/// Reads one call of a chain.
pub fn parse_call_chars(piece: &Vec<char>) -> (r: Result<Call, ParseError>)
    ensures
        match r {
            Ok(c) => parse_call(piece@) == Ok::<CallView, ParseError>(c@),
            Err(e) => parse_call(piece@) == Err::<CallView, ParseError>(e),
        },
{
    let t = trim_chars(piece);
    let i = find_char(&t, '/');
    if i >= t.len() {
        return Err(ParseError::MissingSlash);
    }
    let process = trim_chars(&slice_chars(&t, 0, i));
    let rest = slice_chars(&t, i + 1, t.len());
    let j = find_char(&rest, '[');
    assert(t@.subrange(0, i as int) == t@.take(i as int));
    assert(rest@ == t@.skip(i + 1));
    if j >= rest.len() {
        let method = trim_chars(&rest);
        Ok(
            Call {
                process: string_of(&process),
                method: string_of(&method),
                call_direction: CallDirection::Unknown,
            },
        )
    } else if j + 1 == rest.len() {
        Err(ParseError::EmptyDirection)
    } else {
        let method = trim_chars(&slice_chars(&rest, 0, j));
        let name = slice_chars(&rest, j + 1, rest.len() - 1);
        assert(rest@.subrange(0, j as int) == rest@.take(j as int));
        Ok(
            Call {
                process: string_of(&process),
                method: string_of(&method),
                call_direction: CallDirection::from_chars(&name),
            },
        )
    }
}

/// Reads the calls of a chain from its pieces.
pub fn parse_call_pieces(pieces: &Vec<Vec<char>>) -> (r: Result<CallChain, ParseError>)
    ensures
        match r {
            Ok(chain) => parse_calls(views(pieces@)) == Ok::<Seq<CallView>, ParseError>(
                chain_view(chain@),
            ),
            Err(e) => parse_calls(views(pieces@)) == Err::<Seq<CallView>, ParseError>(e),
        },
{
    let mut chain: Vec<Call> = Vec::new();
    let mut i: usize = 0;
    let ghost all = views(pieces@);
    assert(all.take(0) =~= Seq::<Seq<char>>::empty());
    assert(chain_view(chain@) =~= Seq::<CallView>::empty());
    while i < pieces.len()
        invariant
            i <= pieces.len(),
            all == views(pieces@),
            parse_calls(all.take(i as int)) == Ok::<Seq<CallView>, ParseError>(chain_view(chain@)),
        decreases pieces.len() - i,
    {
        proof {
            assert(all.take(i + 1).drop_last() =~= all.take(i as int));
            assert(all.take(i + 1).last() == pieces@[i as int]@);
        }
        match parse_call_chars(&pieces[i]) {
            Err(e) => {
                proof {
                    lemma_parse_calls_error_stays(all, i + 1);
                }
                return Err(e);
            },
            Ok(c) => {
                let ghost before = chain@;
                chain.push(c);
                assert(chain_view(chain@) =~= chain_view(before).push(c@));
            },
        }
        i += 1;
    }
    assert(all.take(pieces.len() as int) =~= all);
    Ok(chain)
}

/// The calls of a chain, written one after the other with ` | ` between them.
pub fn chain_chars(call_chain: &CallChain) -> (buf: Vec<char>)
    ensures
        buf@ == chain_text(chain_view(call_chain@)),
{
    let mut buf: Vec<char> = Vec::new();
    let mut i: usize = 0;
    let ghost texts = call_texts(chain_view(call_chain@));
    assert(texts.take(0) =~= Seq::<Seq<char>>::empty());
    while i < call_chain.len()
        invariant
            i <= call_chain.len(),
            texts == call_texts(chain_view(call_chain@)),
            buf@ == join(texts.take(i as int), call_separator()),
        decreases call_chain.len() - i,
    {
        proof {
            assert(texts.take(i + 1).drop_last() =~= texts.take(i as int));
            assert(texts.take(i + 1).last() == call_text(call_chain@[i as int]@));
        }
        if i > 0 {
            buf.push(' ');
            buf.push('|');
            buf.push(' ');
        }
        let t = call_chain[i].to_chars();
        push_chars(&mut buf, &t);
        proof {
            if i > 0 {
                assert(buf@ =~= join(texts.take(i as int), call_separator()) + call_separator()
                    + t@);
            } else {
                assert(buf@ =~= t@);
            }
        }
        i += 1;
    }
    assert(texts.take(call_chain.len() as int) =~= texts);
    buf
}

/// Writes the key of a chain with the given caching label and leaf flag.
pub fn call_chain_key(call_chain: &CallChain, caching_process: &str, is_leaf: bool) -> (r: String)
    ensures
        r@ == key_text(chain_view(call_chain@), caching_process@, is_leaf),
{
    let mut buf = chain_chars(call_chain);
    let ghost chain_part = buf@;
    buf.push(' ');
    buf.push('&');
    push_str_chars(&mut buf, caching_process);
    buf.push(' ');
    buf.push('&');
    if is_leaf {
        buf.push(' ');
        push_str_chars(&mut buf, LEAF_LABEL);
        proof {
            reveal_strlit("*LEAF*");
            assert(LEAF_LABEL@ =~= leaf_label());
            assert(buf@ =~= chain_part + field_separator() + caching_process@ + field_separator()
                + (seq![' '] + leaf_label()));
        }
    } else {
        assert(buf@ =~= chain_part + field_separator() + caching_process@ + field_separator()
            + Seq::<char>::empty());
    }
    string_of(&buf)
}

/// The key of a call chain: the calls, the label of the caching processes on
/// it, and whether the chain ends in a leaf.
#[derive(Debug, Hash, PartialOrd, Ord)]
pub struct CChainStatsKey {
    pub call_chain: CallChain,
    /// Empty, or one or more caching processes between square brackets.
    pub caching_process: String,
    pub is_leaf: bool,
}

impl View for CChainStatsKey {
    type V = KeyView;

    open spec fn view(&self) -> KeyView {
        KeyView {
            chain: chain_view(self.call_chain@),
            caching_process: self.caching_process@,
            is_leaf: self.is_leaf,
        }
    }
}

/// A copy of a chain.
pub fn clone_chain(chain: &CallChain) -> (r: CallChain)
    ensures
        chain_view(r@) == chain_view(chain@),
        r.len() == chain.len(),
{
    let mut r: Vec<Call> = Vec::new();
    let mut i: usize = 0;
    while i < chain.len()
        invariant
            i <= chain.len(),
            r.len() == i,
            chain_view(r@) == chain_view(chain@).take(i as int),
        decreases chain.len() - i,
    {
        r.push(chain[i].clone());
        assert(chain_view(r@) =~= chain_view(chain@).take(i + 1));
        i += 1;
    }
    assert(chain_view(chain@).take(chain.len() as int) =~= chain_view(chain@));
    r
}

/// Whether two chains hold the same calls in the same order.
pub fn same_chain(a: &CallChain, b: &CallChain) -> (r: bool)
    ensures
        r == (chain_view(a@) == chain_view(b@)),
{
    if a.len() != b.len() {
        assert(chain_view(a@).len() != chain_view(b@).len());
        return false;
    }
    let mut i: usize = 0;
    while i < a.len()
        invariant
            i <= a.len(),
            a.len() == b.len(),
            forall|j: int| 0 <= j < i ==> a@[j]@ == b@[j]@,
        decreases a.len() - i,
    {
        if !(a[i] == b[i]) {
            assert(chain_view(a@)[i as int] != chain_view(b@)[i as int]);
            return false;
        }
        i += 1;
    }
    assert(chain_view(a@) =~= chain_view(b@));
    true
}

impl Clone for CChainStatsKey {
    fn clone(&self) -> (r: Self)
        ensures
            r@ == self@,
    {
        CChainStatsKey {
            call_chain: clone_chain(&self.call_chain),
            caching_process: self.caching_process.clone(),
            is_leaf: self.is_leaf,
        }
    }
}

impl PartialEq for CChainStatsKey {
    fn eq(&self, other: &Self) -> (r: bool) {
        self.same_key(other)
    }
}

impl Eq for CChainStatsKey {

}

impl PartialEqSpecImpl for CChainStatsKey {
    open spec fn obeys_eq_spec() -> bool {
        true
    }

    open spec fn eq_spec(&self, other: &Self) -> bool {
        self@ == other@
    }
}

impl CChainStatsKey {
    /// Whether two keys are the same key.
    pub fn same_key(&self, other: &Self) -> (r: bool)
        ensures
            r == (self@ == other@),
    {
        self.is_leaf == other.is_leaf && self.caching_process == other.caching_process
            && same_chain(&self.call_chain, &other.call_chain)
    }

    /// The method of the last call of the chain.
    pub fn get_method(&self) -> (r: &str)
        requires
            self.call_chain.len() > 0,
        ensures
            r@ == self@.chain.last().method,
    {
        self.call_chain[self.call_chain.len() - 1].method.as_str()
    }

    /// The textual key of the chain, with the caching label and the leaf label.
    pub fn call_chain_key(&self) -> (r: String)
        ensures
            r@ == key_text(self@.chain, self@.caching_process, self@.is_leaf),
    {
        call_chain_key(&self.call_chain, self.caching_process.as_str(), self.is_leaf)
    }

    /// The end point at which the chain starts, as `process/method`.
    pub fn get_endpoint(&self) -> (r: String)
        requires
            self.call_chain.len() > 0,
        ensures
            r@ == crate::call::process_method_text(self@.chain.first()),
    {
        self.call_chain[0].get_process_method()
    }

    /// The call in which the chain ends, as `process/method`.
    pub fn get_leaf(&self) -> (r: String)
        requires
            self.call_chain.len() > 0,
        ensures
            r@ == crate::call::process_method_text(self@.chain.last()),
    {
        self.call_chain[self.call_chain.len() - 1].get_process_method()
    }

    /// The process in which the chain ends.
    pub fn get_leaf_process(&self) -> (r: String)
        requires
            self.call_chain.len() > 0,
        ensures
            r@ == self@.chain.last().process,
    {
        self.call_chain[self.call_chain.len() - 1].get_process()
    }

    /// Reads a key written by `call_chain_key`.
    pub fn parse(cchain_str: &str) -> (r: Result<Self, ParseError>)
        ensures
            match r {
                Ok(k) => parse_key(cchain_str@) == Ok::<KeyView, ParseError>(k@),
                Err(e) => parse_key(cchain_str@) == Err::<KeyView, ParseError>(e),
            },
    {
        let text = chars_of(cchain_str);
        Self::parse_chars(&text)
    }

    /// Reads a key from its characters.
    pub fn parse_chars(text: &Vec<char>) -> (r: Result<Self, ParseError>)
        ensures
            match r {
                Ok(k) => parse_key(text@) == Ok::<KeyView, ParseError>(k@),
                Err(e) => parse_key(text@) == Err::<KeyView, ParseError>(e),
            },
    {
        let fields = split_chars(text, '&');
        let ghost fs = views(fields@);
        let leaf = if fields.len() > 2 {
            trim_chars(&fields[2])
        } else {
            Vec::new()
        };
        assert(leaf@ == leaf_field(fs));
        let label = chars_of(LEAF_LABEL);
        proof {
            reveal_strlit("*LEAF*");
            assert(label@ =~= leaf_label());
        }
        let is_leaf = same_chars(&leaf, &label);
        if !is_leaf && leaf.len() != 0 {
            return Err(ParseError::UnknownLeafLabel);
        }
        let caching = if fields.len() > 1 {
            trim_chars(&fields[1])
        } else {
            Vec::new()
        };
        assert(caching@ == caching_field(fs));
        let pieces = split_chars(&trim_chars(&fields[0]), '|');
        match parse_call_pieces(&pieces) {
            Err(e) => Err(e),
            Ok(call_chain) => Ok(
                CChainStatsKey { call_chain, caching_process: string_of(&caching), is_leaf },
            ),
        }
    }
}

} // verus!
