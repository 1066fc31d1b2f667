//! The paths that lead to the service in focus, and how a chain lies in
//! them.

use crate::call::{Call, CallView};
use crate::chain_key::{chain_view, CallChain};
use crate::mermaid::trace_data::{path_chains, paths_view, TraceData};
use crate::text::{chars_of, find_char, slice_chars, string_of};
use vstd::prelude::*;

verus! {

/// The service in focus, and the operation where one is given.
pub struct Focus {
    pub service: String,
    pub operation: Option<String>,
}

/// A focus as plain values.
pub struct FocusView {
    pub service: Seq<char>,
    pub operation: Option<Seq<char>>,
}

impl View for Focus {
    type V = FocusView;

    open spec fn view(&self) -> FocusView {
        FocusView {
            service: self.service@,
            operation: match self.operation {
                Some(o) => Some(o@),
                None => None,
            },
        }
    }
}

/// The focus that `service/operation`, or `service` alone, names: the text
/// before the first `/` is the service, what follows it the operation.
pub open spec fn focus_of(service_oper: Seq<char>) -> FocusView {
    let i = crate::text::index_of(service_oper, '/');
    if i >= service_oper.len() {
        FocusView { service: service_oper, operation: None }
    } else {
        FocusView { service: service_oper.take(i), operation: Some(service_oper.skip(i + 1)) }
    }
}

/// Whether a call is a call of the focus.
pub open spec fn in_focus(f: FocusView, c: CallView) -> bool {
    c.process == f.service && match f.operation {
        Some(o) => c.method == o,
        None => true,
    }
}

/// Whether some call of the chain at or behind `from` is a call of the focus.
pub open spec fn reaches_from(f: FocusView, chain: Seq<CallView>, from: int) -> bool {
    exists|k: int| from <= k < chain.len() && 0 <= k && in_focus(f, #[trigger] chain[k])
}

/// Whether the chain holds a call of the focus.
pub open spec fn reaches(f: FocusView, chain: Seq<CallView>) -> bool {
    reaches_from(f, chain, 0)
}

/// Whether `a` is what `b` starts with; `a` may be all of `b`.
pub open spec fn is_prefix_of(a: Seq<CallView>, b: Seq<CallView>) -> bool {
    a.len() <= b.len() && b.take(a.len() as int) == a
}

/// How a chain lies in the forest of the paths that lead to the focus.
#[derive(Clone, Copy, Debug, PartialEq, Eq, Structural)]
pub enum EmbeddingKind {
    /// The chain does not reach the focus and is on no path to it.
    Unrelated,
    /// The chain is a path of the forest, or the start of one.
    Embedded,
    /// The chain goes on behind the focus.
    Extended,
}

/// The paths that lead to the focus: every start of a chain that ends in a
/// call of the focus.
pub struct TraceForrest {
    pub paths: Vec<CallChain>,
}

/// The plain values of a list of chains.
pub open spec fn chains_view(chains: Seq<CallChain>) -> Seq<Seq<CallView>> {
    chains.map_values(|c: CallChain| chain_view(c@))
}

/// The starts of `chain` that end in a call of the focus, shortest first,
/// up to the length `upto`.
pub open spec fn focus_prefixes(f: FocusView, chain: Seq<CallView>, upto: int) -> Seq<Seq<CallView>>
    decreases upto,
{
    if upto <= 0 {
        Seq::<Seq<CallView>>::empty()
    } else {
        let shorter = focus_prefixes(f, chain, upto - 1);
        if upto <= chain.len() && in_focus(f, chain[upto - 1]) {
            shorter.push(chain.take(upto))
        } else {
            shorter
        }
    }
}

/// The paths of the forest of the given chains, chain after chain.
pub open spec fn forest_paths(f: FocusView, chains: Seq<Seq<CallView>>) -> Seq<Seq<CallView>>
    decreases chains.len(),
{
    if chains.len() == 0 {
        Seq::<Seq<CallView>>::empty()
    } else {
        forest_paths(f, chains.drop_last()) + focus_prefixes(
            f,
            chains.last(),
            chains.last().len() as int,
        )
    }
}

/// Whether the chain is a path of the forest or the start of one.
pub open spec fn is_embedded(forest: Seq<Seq<CallView>>, chain: Seq<CallView>) -> bool {
    exists|i: int| 0 <= i < forest.len() && is_prefix_of(chain, #[trigger] forest[i])
}

/// Whether the chain starts with a path of the forest and goes on behind it.
pub open spec fn is_extended(forest: Seq<Seq<CallView>>, chain: Seq<CallView>) -> bool {
    exists|i: int|
        0 <= i < forest.len() && is_prefix_of(#[trigger] forest[i], chain) && forest[i].len()
            < chain.len()
}

/// How the chain lies in the forest.
pub open spec fn embedding_of(forest: Seq<Seq<CallView>>, chain: Seq<CallView>) -> EmbeddingKind {
    if is_embedded(forest, chain) {
        EmbeddingKind::Embedded
    } else if is_extended(forest, chain) {
        EmbeddingKind::Extended
    } else {
        EmbeddingKind::Unrelated
    }
}

/// Every start of a chain that ends in a call of the focus is a start of
/// that chain and holds a call of the focus.
pub proof fn lemma_focus_prefixes(f: FocusView, chain: Seq<CallView>, upto: int)
    requires
        upto <= chain.len(),
    ensures
        forall|i: int|
            0 <= i < focus_prefixes(f, chain, upto).len() ==> {
                let p = #[trigger] focus_prefixes(f, chain, upto)[i];
                &&& is_prefix_of(p, chain)
                &&& p.len() > 0
                &&& in_focus(f, p.last())
            },
    decreases upto,
{
    if upto > 0 {
        lemma_focus_prefixes(f, chain, upto - 1);
        let shorter = focus_prefixes(f, chain, upto - 1);
        let all = focus_prefixes(f, chain, upto);
        assert forall|i: int| 0 <= i < all.len() implies {
            let p = #[trigger] all[i];
            &&& is_prefix_of(p, chain)
            &&& p.len() > 0
            &&& in_focus(f, p.last())
        } by {
            if i < shorter.len() {
                assert(all[i] == shorter[i]);
            } else {
                let p = chain.take(upto);
                assert(all[i] == p);
                assert(chain.take(p.len() as int) == p);
            }
        }
    }
}

/// Every path of the forest is the start of one of the chains and ends in a
/// call of the focus.
pub proof fn lemma_forest_paths(f: FocusView, chains: Seq<Seq<CallView>>)
    ensures
        forall|i: int|
            0 <= i < forest_paths(f, chains).len() ==> {
                let p = #[trigger] forest_paths(f, chains)[i];
                &&& p.len() > 0
                &&& in_focus(f, p.last())
                &&& exists|d: int| 0 <= d < chains.len() && is_prefix_of(p, #[trigger] chains[d])
            },
    decreases chains.len(),
{
    if chains.len() > 0 {
        let front = chains.drop_last();
        lemma_forest_paths(f, front);
        let last = chains.last();
        lemma_focus_prefixes(f, last, last.len() as int);
        let a = forest_paths(f, front);
        let b = focus_prefixes(f, last, last.len() as int);
        assert forall|i: int| 0 <= i < forest_paths(f, chains).len() implies {
            let p = #[trigger] forest_paths(f, chains)[i];
            &&& p.len() > 0
            &&& in_focus(f, p.last())
            &&& exists|d: int| 0 <= d < chains.len() && is_prefix_of(p, #[trigger] chains[d])
        } by {
            let p = forest_paths(f, chains)[i];
            if i < a.len() {
                assert(p == a[i]);
                let d = choose|d: int| 0 <= d < front.len() && is_prefix_of(p, #[trigger] front[d]);
                assert(chains[d] == front[d]);
            } else {
                assert(p == b[i - a.len()]);
                assert(is_prefix_of(p, chains[chains.len() - 1]));
            }
        }
    }
}

/// Splits `service/operation`, or `service` alone, into a focus.
pub fn split_service_operation(service_oper: &str) -> (r: Focus)
    ensures
        r@ == focus_of(service_oper@),
{
    let text = chars_of(service_oper);
    let i = find_char(&text, '/');
    if i >= text.len() {
        Focus { service: string_of(&text), operation: None }
    } else {
        let service = slice_chars(&text, 0, i);
        let operation = slice_chars(&text, i + 1, text.len());
        assert(text@.subrange(0, i as int) == text@.take(i as int));
        assert(text@.subrange(i + 1, text.len() as int) == text@.skip(i + 1));
        Focus { service: string_of(&service), operation: Some(string_of(&operation)) }
    }
}

impl Focus {
    /// Whether a call is a call of the focus.
    pub fn holds(&self, call: &Call) -> (r: bool)
        ensures
            r == in_focus(self@, call@),
    {
        if !(call.process == self.service) {
            return false;
        }
        match &self.operation {
            Some(o) => call.method == *o,
            None => true,
        }
    }
}

/// Whether `a` is what `b` starts with.
pub fn is_chain_prefix(a: &CallChain, b: &CallChain) -> (r: bool)
    ensures
        r == is_prefix_of(chain_view(a@), chain_view(b@)),
{
    if a.len() > b.len() {
        return false;
    }
    let ghost head = chain_view(b@).take(a.len() as int);
    let mut j: usize = 0;
    while j < a.len()
        invariant
            j <= a.len(),
            a.len() <= b.len(),
            head == chain_view(b@).take(a.len() as int),
            forall|x: int| 0 <= x < j ==> a@[x]@ == b@[x]@,
        decreases a.len() - j,
    {
        if !(a[j] == b[j]) {
            assert(head[j as int] != chain_view(a@)[j as int]);
            return false;
        }
        j += 1;
    }
    assert(head =~= chain_view(a@));
    true
}

/// The first `n` calls of a chain.
pub fn chain_prefix(chain: &CallChain, n: usize) -> (r: CallChain)
    requires
        n <= chain.len(),
    ensures
        chain_view(r@) == chain_view(chain@).take(n as int),
{
    let mut r: Vec<Call> = Vec::new();
    let mut i: usize = 0;
    while i < n
        invariant
            i <= n <= chain.len(),
            r.len() == i,
            chain_view(r@) == chain_view(chain@).take(i as int),
        decreases n - i,
    {
        r.push(chain[i].clone());
        assert(chain_view(r@) =~= chain_view(chain@).take(i + 1));
        i += 1;
    }
    r
}

impl TraceForrest {
    /// The forest of the paths that lead to the focus through the given
    /// chains.
    pub fn build_trace_forrest(paths: &Vec<TraceData>, focus: &Focus) -> (r: Self)
        ensures
            chains_view(r.paths@) == forest_paths(focus@, path_chains(paths_view(paths@))),
    {
        let mut found: Vec<CallChain> = Vec::new();
        let ghost all = path_chains(paths_view(paths@));
        let mut i: usize = 0;
        assert(all.take(0) =~= Seq::<Seq<CallView>>::empty());
        assert(chains_view(found@) =~= Seq::<Seq<CallView>>::empty());
        while i < paths.len()
            invariant
                i <= paths.len(),
                all == path_chains(paths_view(paths@)),
                chains_view(found@) == forest_paths(focus@, all.take(i as int)),
            decreases paths.len() - i,
        {
            let chain = &paths[i].trace_path.call_chain;
            let ghost cv = chain_view(chain@);
            let ghost done = chains_view(found@);
            proof {
                assert(all.take(i + 1).drop_last() =~= all.take(i as int));
                assert(all.take(i + 1).last() == cv);
            }
            let mut k: usize = 0;
            assert(chains_view(found@) =~= done + focus_prefixes(focus@, cv, 0));
            while k < chain.len()
                invariant
                    k <= chain.len(),
                    cv == chain_view(chain@),
                    chains_view(found@) == done + focus_prefixes(focus@, cv, k as int),
                decreases chain.len() - k,
            {
                if focus.holds(&chain[k]) {
                    let ghost before = found@;
                    let p = chain_prefix(chain, k + 1);
                    found.push(p);
                    assert(chains_view(found@) =~= chains_view(before).push(cv.take(k + 1)));
                    assert(chains_view(found@) =~= done + focus_prefixes(focus@, cv, k + 1));
                }
                k += 1;
            }
            i += 1;
        }
        assert(all.take(paths.len() as int) =~= all);
        TraceForrest { paths: found }
    }

    /// How a chain lies in the forest.
    pub fn embedding(&self, chain: &CallChain) -> (r: EmbeddingKind)
        ensures
            r == embedding_of(chains_view(self.paths@), chain_view(chain@)),
    {
        let ghost forest = chains_view(self.paths@);
        let ghost cv = chain_view(chain@);
        let mut extended = false;
        let mut i: usize = 0;
        while i < self.paths.len()
            invariant
                i <= self.paths.len(),
                forest == chains_view(self.paths@),
                cv == chain_view(chain@),
                forall|x: int| 0 <= x < i ==> !is_prefix_of(cv, #[trigger] forest[x]),
                extended <==> exists|x: int|
                    0 <= x < i && is_prefix_of(#[trigger] forest[x], cv) && forest[x].len()
                        < cv.len(),
            decreases self.paths.len() - i,
        {
            let p = &self.paths[i];
            assert(forest[i as int] == chain_view(p@));
            if is_chain_prefix(chain, p) {
                return EmbeddingKind::Embedded;
            }
            if p.len() < chain.len() && is_chain_prefix(p, chain) {
                extended = true;
            }
            i += 1;
        }
        if extended {
            EmbeddingKind::Extended
        } else {
            EmbeddingKind::Unrelated
        }
    }
}

} // verus!
