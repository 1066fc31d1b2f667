//! The projection of the chains of a data set onto the graph around one
//! service.
//!
//! The forest holds the paths that lead to the focus. A chain that is on
//! such a path gives the call it ends in as an inbound link; a chain that
//! goes on behind the focus gives it as an outbound link; any other chain
//! gives nothing.

use crate::call::CallView;
use crate::chain_key::{chain_text, chain_view, CChainStatsKey, CallChain};
use crate::mermaid::scope::{MermaidScope, Position, ServiceOperationType};
use crate::mermaid::service_oper_graph::{
    connected, drawn, ends_of, lemma_full_scope_names_all, link_ends, node_names,
    with_chain_marked, with_focus_type, with_inbound_path, GraphView, LinkView, NodeView,
    ServiceOperGraph,
};
use crate::mermaid::trace_data::{path_chains, paths_view, TraceDataView, TracePaths};
use crate::mermaid::trace_forrest::{
    chain_prefix, chains_view, embedding_of, focus_of, forest_paths, in_focus, is_embedded,
    is_extended, is_prefix_of, lemma_forest_paths, reaches, split_service_operation,
    EmbeddingKind, Focus, FocusView, TraceForrest,
};
use crate::report::{chapter_index, with_message, Chapter, Report};
use crate::text::{chars_of, push_str_chars, string_of};
use vstd::prelude::*;

verus! {

/// Why no graph can be made.
#[derive(Debug)]
pub enum ProjectError {
    /// No chain of the data set holds a call of the service, which is named
    /// here.
    NoSuchService(String),
}

/// The position that the nodes of a chain get where their service is not
/// the one in focus.
pub open spec fn default_position(e: EmbeddingKind) -> Position {
    match e {
        EmbeddingKind::Extended => Position::Outbound,
        _ => Position::Inbound,
    }
}

/// The graph after the first `n` chains: each chain of two or more calls
/// that lies in the forest gives the call it ends in.
pub open spec fn projected(
    paths: Seq<TraceDataView>,
    forest: Seq<Seq<CallView>>,
    focus_service: Seq<char>,
    n: int,
) -> GraphView
    decreases n,
{
    if n <= 0 {
        GraphView { nodes: Seq::<NodeView>::empty(), links: Seq::<LinkView>::empty() }
    } else {
        let g = projected(paths, forest, focus_service, n - 1);
        let c = paths[n - 1].key.chain;
        let e = embedding_of(forest, c);
        if e != EmbeddingKind::Unrelated && c.len() >= 2 {
            connected(
                g,
                c[c.len() - 2],
                c[c.len() - 1],
                (n - 1) as usize,
                focus_service,
                default_position(e),
            )
        } else {
            g
        }
    }
}

/// The note on a chain that gives no link because it has a single call.
pub open spec fn skip_text(full_key: Seq<char>) -> Seq<char> {
    "Skipping call-chain as it consists of a single step '"@ + full_key + "' (no link)"@
}

/// The report after the first `n` chains were projected: with a note in
/// the details for each chain that lies in the forest and has fewer than
/// two calls.
pub open spec fn with_skip_notes(
    chapters: Seq<Seq<Seq<char>>>,
    paths: Seq<TraceDataView>,
    forest: Seq<Seq<CallView>>,
    n: int,
) -> Seq<Seq<Seq<char>>>
    decreases n,
{
    if n <= 0 {
        chapters
    } else {
        let before = with_skip_notes(chapters, paths, forest, n - 1);
        let p = paths[n - 1];
        if embedding_of(forest, p.key.chain) != EmbeddingKind::Unrelated && p.key.chain.len() < 2 {
            with_message(before, chapter_index(Chapter::Details), skip_text(p.full_key))
        } else {
            before
        }
    }
}

/// Whether `prefix` is what `text` starts with.
pub open spec fn starts_with(text: Seq<char>, prefix: Seq<char>) -> bool {
    prefix.len() <= text.len() && text.take(prefix.len() as int) == prefix
}

/// The index of the first call of the focus in the chain, or the length of
/// the chain where there is none.
pub open spec fn first_in_focus(f: FocusView, chain: Seq<CallView>) -> int
    decreases chain.len(),
{
    if chain.len() == 0 {
        0
    } else if in_focus(f, chain[0]) {
        0
    } else {
        1 + first_in_focus(f, chain.drop_first())
    }
}

/// The text of the selected chain up to its first call of the focus, if it
/// has one.
pub open spec fn chain_prefix_text(f: FocusView, chain: Seq<CallView>) -> Option<Seq<char>> {
    let k = first_in_focus(f, chain);
    if k < chain.len() {
        Some(chain_text(chain.take(k + 1)))
    } else {
        None
    }
}

/// The graph after the first `n` chains were looked at for the selected
/// path: each chain of two or more calls whose key starts with `prefix` is
/// counted on the link of the call it ends in.
pub open spec fn counted_downstream(
    g: GraphView,
    paths: Seq<TraceDataView>,
    prefix: Seq<char>,
    n: int,
) -> GraphView
    decreases n,
{
    if n <= 0 {
        g
    } else {
        let h = counted_downstream(g, paths, prefix, n - 1);
        let p = paths[n - 1];
        let c = p.key.chain;
        if starts_with(p.full_key, prefix) && c.len() >= 2 {
            with_inbound_path(h, ends_of(c[c.len() - 2], c[c.len() - 1]), (n - 1) as usize)
        } else {
            h
        }
    }
}

/// The report after the first `n` chains were looked at for the selected
/// path: with a note in the details for each chain whose key starts with
/// `prefix` and that has fewer than two calls.
pub open spec fn with_downstream_skip_notes(
    chapters: Seq<Seq<Seq<char>>>,
    paths: Seq<TraceDataView>,
    prefix: Seq<char>,
    n: int,
) -> Seq<Seq<Seq<char>>>
    decreases n,
{
    if n <= 0 {
        chapters
    } else {
        let before = with_downstream_skip_notes(chapters, paths, prefix, n - 1);
        let p = paths[n - 1];
        if starts_with(p.full_key, prefix) && p.key.chain.len() < 2 {
            with_message(before, chapter_index(Chapter::Details), skip_text(p.full_key))
        } else {
            before
        }
    }
}

/// The report after the chains were looked at for the selected chain, if
/// one is selected and holds a call of the focus.
pub open spec fn with_selection_notes(
    chapters: Seq<Seq<Seq<char>>>,
    paths: Seq<TraceDataView>,
    f: FocusView,
    selected: Option<Seq<CallView>>,
) -> Seq<Seq<Seq<char>>> {
    match selected {
        Some(chain) => match chain_prefix_text(f, chain) {
            Some(prefix) => with_downstream_skip_notes(chapters, paths, prefix, paths.len() as int),
            None => chapters,
        },
        None => chapters,
    }
}

/// The report after a diagram was made: with the notes on the chains that
/// were skipped when the graph was projected, and then on those that were
/// skipped when the chains behind the selected path were counted.
pub open spec fn with_diagram_notes(
    chapters: Seq<Seq<Seq<char>>>,
    paths: Seq<TraceDataView>,
    f: FocusView,
    selected: Option<Seq<CallView>>,
) -> Seq<Seq<Seq<char>>> {
    with_selection_notes(
        with_skip_notes(
            chapters,
            paths,
            forest_paths(f, path_chains(paths)),
            paths.len() as int,
        ),
        paths,
        f,
        selected,
    )
}

/// Whether some chain holds a call of the service.
pub open spec fn service_known(paths: Seq<TraceDataView>, service: Seq<char>) -> bool {
    exists|i: int|
        0 <= i < paths.len() && reaches(
            FocusView { service, operation: None },
            (#[trigger] paths[i]).key.chain,
        )
}

/// The graph around the focus with the selected chain marked, before the
/// scope is applied.
pub open spec fn marked_graph(
    paths: Seq<TraceDataView>,
    f: FocusView,
    selected: Option<Seq<CallView>>,
) -> GraphView {
    let forest = forest_paths(f, path_chains(paths));
    let g = projected(paths, forest, f.service, paths.len() as int);
    let h = match selected {
        Some(chain) => {
            let counted = match chain_prefix_text(f, chain) {
                Some(prefix) => counted_downstream(g, paths, prefix, paths.len() as int),
                None => g,
            };
            with_chain_marked(counted, chain)
        },
        None => g,
    };
    with_focus_type(h, f, ServiceOperationType::Emphasized)
}

/// The graph that is drawn: the marked graph cut down to the scope, with
/// the operations of each service taken together where that is asked for.
pub open spec fn diagram_of(
    paths: Seq<TraceDataView>,
    f: FocusView,
    selected: Option<Seq<CallView>>,
    scope: MermaidScope,
    compact: bool,
) -> GraphView {
    drawn(marked_graph(paths, f, selected), scope, compact)
}

/// Whatever is selected and however the diagram is drawn, the diagram of
/// the full scope names every node that the diagram of any scope names.
pub proof fn lemma_full_diagram_names_all(
    paths: Seq<TraceDataView>,
    f: FocusView,
    selected: Option<Seq<CallView>>,
    scope: MermaidScope,
    compact: bool,
)
    ensures
        forall|name: (Seq<char>, Seq<char>)|
            node_names(diagram_of(paths, f, selected, scope, compact).nodes).contains(name)
                ==> #[trigger] node_names(
                diagram_of(paths, f, selected, MermaidScope::Full, compact).nodes,
            ).contains(name),
{
    lemma_full_scope_names_all(marked_graph(paths, f, selected), scope, compact);
}

/// Counting the chains behind the selected path leaves the ends of the
/// links as they are.
proof fn lemma_counted_ends(g: GraphView, paths: Seq<TraceDataView>, prefix: Seq<char>, n: int)
    ensures
        link_ends(counted_downstream(g, paths, prefix, n).links) == link_ends(g.links),
    decreases n,
{
    if n > 0 {
        lemma_counted_ends(g, paths, prefix, n - 1);
        let h = counted_downstream(g, paths, prefix, n - 1);
        let p = paths[n - 1];
        let c = p.key.chain;
        if starts_with(p.full_key, prefix) && c.len() >= 2 {
            let ends = ends_of(c[c.len() - 2], c[c.len() - 1]);
            let after = with_inbound_path(h, ends, (n - 1) as usize);
            crate::text::lemma_index_of(link_ends(h.links), ends);
            assert(link_ends(after.links) =~= link_ends(h.links));
        }
    }
}

/// Every link of the full diagram, drawn with its operations, is a call of
/// a chain of the data set that holds a call of the focus.
pub proof fn lemma_diagram_on_focus_chains(
    paths: Seq<TraceDataView>,
    f: FocusView,
    selected: Option<Seq<CallView>>,
    scope: MermaidScope,
)
    requires
        paths.len() <= usize::MAX,
    ensures
        forall|i: int|
            0 <= i < diagram_of(paths, f, selected, scope, false).links.len() ==> {
                let l = #[trigger] diagram_of(paths, f, selected, scope, false).links[i];
                exists|d: int, j: int|
                    0 <= d < paths.len() && 0 <= j && j + 1 < paths[d].key.chain.len() && ends_of(
                        #[trigger] paths[d].key.chain[j],
                        paths[d].key.chain[j + 1],
                    ) == l.ends && reaches(f, paths[d].key.chain)
            },
{
    let forest = forest_paths(f, path_chains(paths));
    let g = projected(paths, forest, f.service, paths.len() as int);
    let marked = marked_graph(paths, f, selected);
    let drawn = diagram_of(paths, f, selected, scope, false);
    lemma_links_on_focus_chains(paths, f);
    // marking and counting change no end of a link
    assert(link_ends(marked.links) == link_ends(g.links)) by {
        match selected {
            Some(chain) => {
                let counted = match chain_prefix_text(f, chain) {
                    Some(prefix) => counted_downstream(g, paths, prefix, paths.len() as int),
                    None => g,
                };
                if chain_prefix_text(f, chain) is Some {
                    lemma_counted_ends(g, paths, chain_prefix_text(f, chain)->0, paths.len() as int);
                }
                assert(link_ends(with_chain_marked(counted, chain).links) =~= link_ends(
                    counted.links,
                ));
            },
            None => {},
        }
    }
    crate::mermaid::service_oper_graph::lemma_kept_links(marked.links, drawn.nodes);
    assert forall|i: int| 0 <= i < drawn.links.len() implies {
        let l = #[trigger] drawn.links[i];
        exists|d: int, j: int|
            0 <= d < paths.len() && 0 <= j && j + 1 < paths[d].key.chain.len() && ends_of(
                #[trigger] paths[d].key.chain[j],
                paths[d].key.chain[j + 1],
            ) == l.ends && reaches(f, paths[d].key.chain)
    } by {
        let l = drawn.links[i];
        assert(marked.links.contains(l));
        let x = choose|x: int| 0 <= x < marked.links.len() && marked.links[x] == l;
        assert(link_ends(marked.links).len() == marked.links.len());
        assert(link_ends(g.links).len() == g.links.len());
        assert(link_ends(marked.links)[x] == l.ends);
        assert(link_ends(g.links)[x] == g.links[x].ends);
        let found = g.links[x];
        assert(found.ends == l.ends);
        let (d, j) = choose|d: int, j: int|
            0 <= d < paths.len() && 0 <= j && j + 1 < paths[d].key.chain.len() && ends_of(
                #[trigger] paths[d].key.chain[j],
                paths[d].key.chain[j + 1],
            ) == found.ends && reaches(f, paths[d].key.chain);
        assert(ends_of(paths[d].key.chain[j], paths[d].key.chain[j + 1]) == l.ends);
    }
}

/// Every link of the projected graph comes from at least one chain, and
/// each chain that it comes from lies in the forest and ends in the call of
/// the link.
pub proof fn lemma_projected_sources(
    paths: Seq<TraceDataView>,
    forest: Seq<Seq<CallView>>,
    focus_service: Seq<char>,
    n: int,
)
    requires
        n <= paths.len(),
        n <= usize::MAX,
    ensures
        forall|i: int|
            0 <= i < projected(paths, forest, focus_service, n).links.len() ==> {
                let l = #[trigger] projected(paths, forest, focus_service, n).links[i];
                &&& l.sources.len() > 0
                &&& forall|x: int|
                    0 <= x < l.sources.len() ==> {
                        let s = #[trigger] l.sources[x] as int;
                        let c = paths[s].key.chain;
                        &&& 0 <= s < n
                        &&& c.len() >= 2
                        &&& embedding_of(forest, c) != EmbeddingKind::Unrelated
                        &&& ends_of(c[c.len() - 2], c[c.len() - 1]) == l.ends
                    }
            },
    decreases n,
{
    if n > 0 {
        lemma_projected_sources(paths, forest, focus_service, n - 1);
        let g = projected(paths, forest, focus_service, n - 1);
        let after = projected(paths, forest, focus_service, n);
        let c = paths[n - 1].key.chain;
        let e = embedding_of(forest, c);
        if e != EmbeddingKind::Unrelated && c.len() >= 2 {
            let ends = ends_of(c[c.len() - 2], c[c.len() - 1]);
            let at = crate::mermaid::service_oper_graph::link_index(g.links, ends);
            crate::text::lemma_index_of(link_ends(g.links), ends);
            assert forall|i: int| 0 <= i < after.links.len() implies {
                let l = #[trigger] after.links[i];
                &&& l.sources.len() > 0
                &&& forall|x: int|
                    0 <= x < l.sources.len() ==> {
                        let s = #[trigger] l.sources[x] as int;
                        let c = paths[s].key.chain;
                        &&& 0 <= s < n
                        &&& c.len() >= 2
                        &&& embedding_of(forest, c) != EmbeddingKind::Unrelated
                        &&& ends_of(c[c.len() - 2], c[c.len() - 1]) == l.ends
                    }
            } by {
                let l = after.links[i];
                if at < g.links.len() {
                    if i == at {
                        assert(link_ends(g.links)[at] == ends);
                        assert(g.links[at].ends == ends);
                        assert(l.sources == g.links[at].sources.push((n - 1) as usize));
                        assert forall|x: int| 0 <= x < l.sources.len() implies {
                            let s = #[trigger] l.sources[x] as int;
                            let c = paths[s].key.chain;
                            &&& 0 <= s < n
                            &&& c.len() >= 2
                            &&& embedding_of(forest, c) != EmbeddingKind::Unrelated
                            &&& ends_of(c[c.len() - 2], c[c.len() - 1]) == l.ends
                        } by {
                            if x < g.links[at].sources.len() {
                                assert(l.sources[x] == g.links[at].sources[x]);
                            }
                        }
                    } else {
                        assert(l == g.links[i]);
                    }
                } else {
                    if i < g.links.len() {
                        assert(l == g.links[i]);
                    } else {
                        assert(l.sources =~= seq![(n - 1) as usize]);
                    }
                }
            }
        }
    }
}

/// Every link of the projected graph is a call of a chain of the data set
/// that holds a call of the focus.
pub proof fn lemma_links_on_focus_chains(paths: Seq<TraceDataView>, f: FocusView)
    requires
        paths.len() <= usize::MAX,
    ensures
        forall|i: int|
            0 <= i < projected(
                paths,
                forest_paths(f, path_chains(paths)),
                f.service,
                paths.len() as int,
            ).links.len() ==> {
                let l = #[trigger] projected(
                    paths,
                    forest_paths(f, path_chains(paths)),
                    f.service,
                    paths.len() as int,
                ).links[i];
                exists|d: int, j: int|
                    0 <= d < paths.len() && 0 <= j && j + 1 < paths[d].key.chain.len() && ends_of(
                        #[trigger] paths[d].key.chain[j],
                        paths[d].key.chain[j + 1],
                    ) == l.ends && reaches(f, paths[d].key.chain)
            },
{
    let chains = path_chains(paths);
    let forest = forest_paths(f, chains);
    let g = projected(paths, forest, f.service, paths.len() as int);
    lemma_projected_sources(paths, forest, f.service, paths.len() as int);
    lemma_forest_paths(f, chains);
    assert forall|i: int| 0 <= i < g.links.len() implies {
        let l = #[trigger] g.links[i];
        exists|d: int, j: int|
            0 <= d < paths.len() && 0 <= j && j + 1 < paths[d].key.chain.len() && ends_of(
                #[trigger] paths[d].key.chain[j],
                paths[d].key.chain[j + 1],
            ) == l.ends && reaches(f, paths[d].key.chain)
    } by {
        let l = g.links[i];
        let s = l.sources[0] as int;
        let c = paths[s].key.chain;
        let j = c.len() - 2;
        if is_embedded(forest, c) {
            let p = choose|p: int| 0 <= p < forest.len() && is_prefix_of(c, #[trigger] forest[p]);
            let path = forest[p];
            let d = choose|d: int| 0 <= d < chains.len() && is_prefix_of(path, #[trigger] chains[d]);
            let dc = paths[d].key.chain;
            assert(chains[d] == dc);
            assert(dc.take(path.len() as int)[j] == dc[j]);
            assert(path.take(c.len() as int)[j] == path[j]);
            assert(dc.take(path.len() as int)[j + 1] == dc[j + 1]);
            assert(path.take(c.len() as int)[j + 1] == path[j + 1]);
            assert(dc.take(path.len() as int)[path.len() - 1] == dc[path.len() - 1]);
            assert(in_focus(f, dc[path.len() - 1]));
            assert(reaches(f, dc));
            assert(ends_of(paths[d].key.chain[j], paths[d].key.chain[j + 1]) == l.ends);
        } else {
            assert(is_extended(forest, c));
            let p = choose|p: int|
                0 <= p < forest.len() && is_prefix_of(#[trigger] forest[p], c) && forest[p].len()
                    < c.len();
            let path = forest[p];
            assert(c.take(path.len() as int)[path.len() - 1] == c[path.len() - 1]);
            assert(in_focus(f, c[path.len() - 1]));
            assert(reaches(f, c));
            assert(ends_of(paths[s].key.chain[j], paths[s].key.chain[j + 1]) == l.ends);
        }
    }
}

/// Notes in the details of the report that a chain gives no link.
pub fn report_skipped(report: &mut Report, full_key: &str)
    ensures
        final(report)@ == with_message(
            old(report)@,
            chapter_index(Chapter::Details),
            skip_text(full_key@),
        ),
{
    let mut note = chars_of("Skipping call-chain as it consists of a single step '");
    push_str_chars(&mut note, full_key);
    push_str_chars(&mut note, "' (no link)");
    report.report(Chapter::Details, string_of(&note));
}

impl TracePaths {
    /// Whether some chain holds a call of the service.
    pub fn knows_service(&self, service: &String) -> (r: bool)
        ensures
            r == service_known(paths_view(self.0@), service@),
    {
        let ghost f = FocusView { service: service@, operation: None };
        let ghost pv = paths_view(self.0@);
        let mut i: usize = 0;
        while i < self.0.len()
            invariant
                i <= self.0.len(),
                pv == paths_view(self.0@),
                f == (FocusView { service: service@, operation: None }),
                forall|x: int| 0 <= x < i ==> !reaches(f, (#[trigger] pv[x]).key.chain),
            decreases self.0.len() - i,
        {
            let chain = &self.0[i].trace_path.call_chain;
            let ghost cv = chain_view(chain@);
            assert(pv[i as int].key.chain == cv);
            let mut k: usize = 0;
            while k < chain.len()
                invariant
                    k <= chain.len(),
                    i < self.0.len(),
                    pv == paths_view(self.0@),
                    pv[i as int].key.chain == cv,
                    cv == chain_view(chain@),
                    f == (FocusView { service: service@, operation: None }),
                    forall|y: int| 0 <= y < k ==> !in_focus(f, #[trigger] cv[y]),
                decreases chain.len() - k,
            {
                if chain[k].process == *service {
                    assert(in_focus(f, cv[k as int]));
                    assert(reaches(f, pv[i as int].key.chain));
                    return true;
                }
                k += 1;
            }
            i += 1;
        }
        false
    }

    /// The forest of the paths that lead to the focus.
    pub fn build_trace_forrest(&self, focus: &Focus) -> (r: TraceForrest)
        requires
            service_known(paths_view(self.0@), focus@.service),
        ensures
            chains_view(r.paths@) == forest_paths(focus@, path_chains(paths_view(self.0@))),
    {
        TraceForrest::build_trace_forrest(&self.0, focus)
    }

    /// The graph of the calls in which the chains of the forest end. A
    /// chain of the forest that has a single call gives no link, which is
    /// noted in the details of the report.
    pub fn build_serv_oper_graph(&self, focus: &Focus, report: &mut Report) -> (r: ServiceOperGraph)
        requires
            service_known(paths_view(self.0@), focus@.service),
        ensures
            r@ == projected(
                paths_view(self.0@),
                forest_paths(focus@, path_chains(paths_view(self.0@))),
                focus@.service,
                self.0.len() as int,
            ),
            final(report)@ == with_skip_notes(
                old(report)@,
                paths_view(self.0@),
                forest_paths(focus@, path_chains(paths_view(self.0@))),
                self.0.len() as int,
            ),
    {
        let trace_forrest = self.build_trace_forrest(focus);
        let ghost pv = paths_view(self.0@);
        let ghost forest = chains_view(trace_forrest.paths@);
        let mut sog = ServiceOperGraph::new();
        let mut i: usize = 0;
        assert(sog@.nodes =~= Seq::<NodeView>::empty());
        assert(sog@.links =~= Seq::<LinkView>::empty());
        while i < self.0.len()
            invariant
                i <= self.0.len(),
                pv == paths_view(self.0@),
                forest == chains_view(trace_forrest.paths@),
                sog@ == projected(pv, forest, focus@.service, i as int),
                report@ == with_skip_notes(old(report)@, pv, forest, i as int),
            decreases self.0.len() - i,
        {
            let call_chain = &self.0[i].trace_path.call_chain;
            assert(pv[i as int].key.chain == chain_view(call_chain@));
            assert(pv[i as int].full_key == self.0@[i as int].full_key@);
            let embedding = trace_forrest.embedding(call_chain);
            if call_chain.len() >= 2 {
                let from = &call_chain[call_chain.len() - 2];
                let to = &call_chain[call_chain.len() - 1];
                match embedding {
                    EmbeddingKind::Unrelated => {},
                    EmbeddingKind::Embedded => {
                        sog.add_connection(from, to, i, focus.service.as_str(), Position::Inbound);
                    },
                    EmbeddingKind::Extended => {
                        sog.add_connection(from, to, i, focus.service.as_str(), Position::Outbound);
                    },
                }
            } else {
                match embedding {
                    EmbeddingKind::Unrelated => {},
                    _ => {
                        report_skipped(report, self.0[i].full_key.as_str());
                    },
                }
            }
            i += 1;
        }
        sog
    }

    /// The text of the selected chain up to its first call of the focus.
    pub fn get_call_chain_prefix(focus: &Focus, chain: &CallChain) -> (r: Option<Vec<char>>)
        ensures
            match r {
                Some(t) => chain_prefix_text(focus@, chain_view(chain@)) == Some(t@),
                None => chain_prefix_text(focus@, chain_view(chain@)) is None,
            },
    {
        let ghost cv = chain_view(chain@);
        let mut k: usize = 0;
        while k < chain.len() && !focus.holds(&chain[k])
            invariant
                k <= chain.len(),
                cv == chain_view(chain@),
                forall|y: int| 0 <= y < k ==> !in_focus(focus@, #[trigger] cv[y]),
            decreases chain.len() - k,
        {
            k += 1;
        }
        proof {
            lemma_first_in_focus(focus@, cv, k as int);
        }
        if k >= chain.len() {
            return None;
        }
        let head = chain_prefix(chain, k + 1);
        let key = crate::chain_key::chain_chars(&head);
        Some(key)
    }

    /// Counts, on the links of the graph, the chains that lie behind the
    /// selected path.
    pub fn mark_and_count_downstream(
        &self,
        sog: &mut ServiceOperGraph,
        focus: &Focus,
        selected: &CallChain,
        report: &mut Report,
    )
        ensures
            final(report)@ == with_selection_notes(
                old(report)@,
                paths_view(self.0@),
                focus@,
                Some(chain_view(selected@)),
            ),
            final(sog)@ == match chain_prefix_text(focus@, chain_view(selected@)) {
                Some(prefix) => counted_downstream(
                    old(sog)@,
                    paths_view(self.0@),
                    prefix,
                    self.0.len() as int,
                ),
                None => old(sog)@,
            },
    {
        let prefix = match Self::get_call_chain_prefix(focus, selected) {
            Some(p) => p,
            None => {
                return ;
            },
        };
        let ghost pv = paths_view(self.0@);
        let mut i: usize = 0;
        while i < self.0.len()
            invariant
                i <= self.0.len(),
                pv == paths_view(self.0@),
                sog@ == counted_downstream(old(sog)@, pv, prefix@, i as int),
                report@ == with_downstream_skip_notes(old(report)@, pv, prefix@, i as int),
            decreases self.0.len() - i,
        {
            let ccd = &self.0[i];
            let call_chain = &ccd.trace_path.call_chain;
            assert(pv[i as int].key.chain == chain_view(call_chain@));
            assert(pv[i as int].full_key == ccd.full_key@);
            if text_starts_with(&chars_of(ccd.full_key.as_str()), &prefix) {
                if call_chain.len() >= 2 {
                    let from = &call_chain[call_chain.len() - 2];
                    let to = &call_chain[call_chain.len() - 1];
                    sog.update_inbound_path_count(from, to, i);
                } else {
                    report_skipped(report, ccd.full_key.as_str());
                }
            }
            i += 1;
        }
    }

    /// The graph around `service_oper`, with the selected chain marked,
    /// cut down to the scope, and with the operations of each service taken
    /// together where `compact` holds; or the name of the service where no
    /// chain holds a call of it. The chains that give no link because they
    /// have a single call are noted in the details of the report.
    pub fn get_diagram(
        &self,
        service_oper: &str,
        call_chain_key: Option<&CChainStatsKey>,
        scope: MermaidScope,
        compact: bool,
        report: &mut Report,
    ) -> (r: Result<ServiceOperGraph, ProjectError>)
        ensures
            final(report)@ == if r is Ok {
                with_diagram_notes(
                    old(report)@,
                    paths_view(self.0@),
                    focus_of(service_oper@),
                    match call_chain_key {
                        Some(k) => Some(k@.chain),
                        None => None,
                    },
                )
            } else {
                old(report)@
            },
            match r {
                Ok(g) => service_known(paths_view(self.0@), focus_of(service_oper@).service) && g@
                    == diagram_of(
                    paths_view(self.0@),
                    focus_of(service_oper@),
                    match call_chain_key {
                        Some(k) => Some(k@.chain),
                        None => None,
                    },
                    scope,
                    compact,
                ),
                Err(ProjectError::NoSuchService(name)) => !service_known(
                    paths_view(self.0@),
                    focus_of(service_oper@).service,
                ) && name@ == focus_of(service_oper@).service,
            },
    {
        let focus = split_service_operation(service_oper);
        if !self.knows_service(&focus.service) {
            return Err(ProjectError::NoSuchService(focus.service.clone()));
        }
        let mut sog = self.build_serv_oper_graph(&focus, report);
        match call_chain_key {
            Some(key) => {
                self.mark_and_count_downstream(&mut sog, &focus, &key.call_chain, report);
                sog.mark_selected_call_chain(&key.call_chain);
            },
            None => {},
        }
        sog.update_service_operation_type(&focus, ServiceOperationType::Emphasized);
        let drawn = sog.scoped_graph(scope);
        if compact {
            Ok(drawn.compact_graph())
        } else {
            Ok(drawn)
        }
    }
}

/// The first call of the focus is where no call before it is one.
pub proof fn lemma_first_in_focus(f: FocusView, chain: Seq<CallView>, k: int)
    requires
        0 <= k <= chain.len(),
        forall|y: int| 0 <= y < k ==> !in_focus(f, #[trigger] chain[y]),
        k < chain.len() ==> in_focus(f, chain[k]),
    ensures
        first_in_focus(f, chain) == k,
    decreases k,
{
    if k > 0 {
        let rest = chain.drop_first();
        assert forall|y: int| 0 <= y < k - 1 implies !in_focus(f, #[trigger] rest[y]) by {
            assert(rest[y] == chain[y + 1]);
        }
        if k < chain.len() {
            assert(rest[k - 1] == chain[k]);
        }
        assert(!in_focus(f, chain[0]));
        lemma_first_in_focus(f, rest, k - 1);
    }
}

/// Whether `prefix` is what `text` starts with.
pub fn text_starts_with(text: &Vec<char>, prefix: &Vec<char>) -> (r: bool)
    ensures
        r == starts_with(text@, prefix@),
{
    if prefix.len() > text.len() {
        return false;
    }
    let ghost head = text@.take(prefix.len() as int);
    let mut i: usize = 0;
    while i < prefix.len()
        invariant
            i <= prefix.len() <= text.len(),
            head == text@.take(prefix.len() as int),
            forall|j: int| 0 <= j < i ==> text@[j] == prefix@[j],
        decreases prefix.len() - i,
    {
        if text[i] != prefix[i] {
            assert(head[i as int] != prefix@[i as int]);
            return false;
        }
        i += 1;
    }
    assert(head =~= prefix@);
    true
}

} // verus!
