//! The graph of services and operations: nodes with a position and a type,
//! and links that remember the chains they come from.

use crate::call::{Call, CallView};
use crate::chain_key::{chain_view, CallChain};
use crate::mermaid::trace_forrest::{Focus, FocusView};
use crate::mermaid::scope::{
    merged_link_type, scope_keeps, LinkType, MermaidScope, Position, ServiceOperationType,
};
use crate::text::{index_of, lemma_index_of_at};
use vstd::prelude::*;

verus! {

/// An operation of a service, as a node of the graph.
#[derive(Debug)]
pub struct ServiceOperation {
    pub service: String,
    pub operation: String,
    pub position: Position,
    pub serv_oper_type: ServiceOperationType,
}

/// A node as plain values.
pub struct NodeView {
    pub service: Seq<char>,
    pub operation: Seq<char>,
    pub position: Position,
    pub serv_oper_type: ServiceOperationType,
}

impl View for ServiceOperation {
    type V = NodeView;

    open spec fn view(&self) -> NodeView {
        NodeView {
            service: self.service@,
            operation: self.operation@,
            position: self.position,
            serv_oper_type: self.serv_oper_type,
        }
    }
}

/// A call from one operation to another, as a link of the graph.
#[derive(Debug)]
pub struct Link {
    pub from_service: String,
    pub from_operation: String,
    pub to_service: String,
    pub to_operation: String,
    /// The chains that end in this call, by their place in the data set.
    pub sources: Vec<usize>,
    /// The chains behind the selected path that end in this call.
    pub inbound_sources: Vec<usize>,
    pub link_type: LinkType,
}

/// The two ends of a link.
pub struct Ends {
    pub from_service: Seq<char>,
    pub from_operation: Seq<char>,
    pub to_service: Seq<char>,
    pub to_operation: Seq<char>,
}

/// A link as plain values.
pub struct LinkView {
    pub ends: Ends,
    pub sources: Seq<usize>,
    pub inbound_sources: Seq<usize>,
    pub link_type: LinkType,
}

impl View for Link {
    type V = LinkView;

    open spec fn view(&self) -> LinkView {
        LinkView {
            ends: Ends {
                from_service: self.from_service@,
                from_operation: self.from_operation@,
                to_service: self.to_service@,
                to_operation: self.to_operation@,
            },
            sources: self.sources@,
            inbound_sources: self.inbound_sources@,
            link_type: self.link_type,
        }
    }
}

/// The graph of services and operations.
#[derive(Debug)]
pub struct ServiceOperGraph {
    pub nodes: Vec<ServiceOperation>,
    pub links: Vec<Link>,
}

/// A graph as plain values.
pub struct GraphView {
    pub nodes: Seq<NodeView>,
    pub links: Seq<LinkView>,
}

impl View for ServiceOperGraph {
    type V = GraphView;

    open spec fn view(&self) -> GraphView {
        GraphView {
            nodes: self.nodes@.map_values(|n: ServiceOperation| n@),
            links: self.links@.map_values(|l: Link| l@),
        }
    }
}

/// The names of the nodes, as pairs of service and operation.
pub open spec fn node_names(nodes: Seq<NodeView>) -> Seq<(Seq<char>, Seq<char>)> {
    nodes.map_values(|n: NodeView| (n.service, n.operation))
}

/// The ends of the links.
pub open spec fn link_ends(links: Seq<LinkView>) -> Seq<Ends> {
    links.map_values(|l: LinkView| l.ends)
}

/// The place of the node of an operation, or the number of nodes where
/// there is none.
pub open spec fn node_index(nodes: Seq<NodeView>, service: Seq<char>, operation: Seq<char>) -> int {
    index_of(node_names(nodes), (service, operation))
}

/// The place of the link between the given ends, or the number of links
/// where there is none.
pub open spec fn link_index(links: Seq<LinkView>, ends: Ends) -> int {
    index_of(link_ends(links), ends)
}

/// The ends of the link from one call to another.
pub open spec fn ends_of(from: CallView, to: CallView) -> Ends {
    Ends {
        from_service: from.process,
        from_operation: from.method,
        to_service: to.process,
        to_operation: to.method,
    }
}

/// The graph with a node for the call. A new node is at the center where
/// its service is the one in focus, else at the given position; a node that
/// is there stays as it is.
pub open spec fn with_node(
    g: GraphView,
    call: CallView,
    focus_service: Seq<char>,
    default_pos: Position,
) -> GraphView {
    if node_index(g.nodes, call.process, call.method) < g.nodes.len() {
        g
    } else {
        GraphView {
            nodes: g.nodes.push(
                NodeView {
                    service: call.process,
                    operation: call.method,
                    position: if call.process == focus_service {
                        Position::Center
                    } else {
                        default_pos
                    },
                    serv_oper_type: ServiceOperationType::Default,
                },
            ),
            links: g.links,
        }
    }
}

/// The graph with the chain `source` counted on the link between the ends:
/// on the link that is there, or on a new one.
pub open spec fn with_link(g: GraphView, ends: Ends, source: usize) -> GraphView {
    let i = link_index(g.links, ends);
    if i < g.links.len() {
        GraphView {
            nodes: g.nodes,
            links: g.links.update(
                i,
                LinkView {
                    ends: g.links[i].ends,
                    sources: g.links[i].sources.push(source),
                    inbound_sources: g.links[i].inbound_sources,
                    link_type: g.links[i].link_type,
                },
            ),
        }
    } else {
        GraphView {
            nodes: g.nodes,
            links: g.links.push(
                LinkView {
                    ends,
                    sources: seq![source],
                    inbound_sources: Seq::<usize>::empty(),
                    link_type: LinkType::Default,
                },
            ),
        }
    }
}

/// The graph with the call from `from` to `to` of the chain `source`.
pub open spec fn connected(
    g: GraphView,
    from: CallView,
    to: CallView,
    source: usize,
    focus_service: Seq<char>,
    default_pos: Position,
) -> GraphView {
    with_link(
        with_node(with_node(g, from, focus_service, default_pos), to, focus_service, default_pos),
        ends_of(from, to),
        source,
    )
}

/// The graph with the chain `source` counted as reaching the link between
/// the ends behind the selected path; unchanged where there is no such link.
pub open spec fn with_inbound_path(g: GraphView, ends: Ends, source: usize) -> GraphView {
    let i = link_index(g.links, ends);
    if i < g.links.len() {
        GraphView {
            nodes: g.nodes,
            links: g.links.update(
                i,
                LinkView {
                    ends: g.links[i].ends,
                    sources: g.links[i].sources,
                    inbound_sources: g.links[i].inbound_sources.push(source),
                    link_type: g.links[i].link_type,
                },
            ),
        }
    } else {
        g
    }
}

/// The node, emphasized where `hit` holds.
pub open spec fn emphasized_if(n: NodeView, hit: bool) -> NodeView {
    NodeView {
        service: n.service,
        operation: n.operation,
        position: n.position,
        serv_oper_type: if hit {
            ServiceOperationType::Emphasized
        } else {
            n.serv_oper_type
        },
    }
}

/// Whether a node is the node of a call of the focus.
pub open spec fn node_in_focus(f: FocusView, n: NodeView) -> bool {
    n.service == f.service && match f.operation {
        Some(o) => n.operation == o,
        None => true,
    }
}

/// The graph with the given type on the nodes of the focus.
pub open spec fn with_focus_type(g: GraphView, f: FocusView, kind: ServiceOperationType) -> GraphView {
    GraphView {
        nodes: g.nodes.map_values(
            |n: NodeView|
                NodeView {
                    service: n.service,
                    operation: n.operation,
                    position: n.position,
                    serv_oper_type: if node_in_focus(f, n) {
                        kind
                    } else {
                        n.serv_oper_type
                    },
                },
        ),
        links: g.links,
    }
}

/// Whether some call of the chain is a call of the operation.
pub open spec fn on_chain(chain: Seq<CallView>, service: Seq<char>, operation: Seq<char>) -> bool {
    exists|k: int|
        0 <= k < chain.len() && (#[trigger] chain[k]).process == service && chain[k].method
            == operation
}

/// Whether two calls of the chain that follow each other have the given
/// ends.
pub open spec fn link_on_chain(chain: Seq<CallView>, ends: Ends) -> bool {
    exists|k: int| 0 <= k < chain.len() - 1 && #[trigger] ends_of(chain[k], chain[k + 1]) == ends
}

/// The graph with the nodes and the links of the chain emphasized.
pub open spec fn with_chain_marked(g: GraphView, chain: Seq<CallView>) -> GraphView {
    GraphView {
        nodes: g.nodes.map_values(
            |n: NodeView| emphasized_if(n, on_chain(chain, n.service, n.operation)),
        ),
        links: g.links.map_values(
            |l: LinkView|
                LinkView {
                    ends: l.ends,
                    sources: l.sources,
                    inbound_sources: l.inbound_sources,
                    link_type: if link_on_chain(chain, l.ends) {
                        LinkType::Emphasized
                    } else {
                        l.link_type
                    },
                },
        ),
    }
}

/// The nodes that the scope keeps, in their order.
pub open spec fn kept_nodes(nodes: Seq<NodeView>, scope: MermaidScope) -> Seq<NodeView>
    decreases nodes.len(),
{
    if nodes.len() == 0 {
        Seq::<NodeView>::empty()
    } else {
        let front = kept_nodes(nodes.drop_last(), scope);
        if scope_keeps(scope, nodes.last().position) {
            front.push(nodes.last())
        } else {
            front
        }
    }
}

/// Whether both ends of a link are among the nodes.
pub open spec fn ends_among(nodes: Seq<NodeView>, ends: Ends) -> bool {
    node_index(nodes, ends.from_service, ends.from_operation) < nodes.len() && node_index(
        nodes,
        ends.to_service,
        ends.to_operation,
    ) < nodes.len()
}

/// The links whose two ends are among the nodes, in their order.
pub open spec fn kept_links(links: Seq<LinkView>, nodes: Seq<NodeView>) -> Seq<LinkView>
    decreases links.len(),
{
    if links.len() == 0 {
        Seq::<LinkView>::empty()
    } else {
        let front = kept_links(links.drop_last(), nodes);
        if ends_among(nodes, links.last().ends) {
            front.push(links.last())
        } else {
            front
        }
    }
}

/// The part of the graph that the scope keeps: the nodes at the positions
/// of the scope, and the links between them.
pub open spec fn scoped(g: GraphView, scope: MermaidScope) -> GraphView {
    GraphView {
        nodes: kept_nodes(g.nodes, scope),
        links: kept_links(g.links, kept_nodes(g.nodes, scope)),
    }
}

/// The nodes with the node taken in as the node of its service: a service
/// that has a node keeps it, emphasized if the node is; a new service gets
/// a node without an operation, at the position and of the type of the node.
pub open spec fn with_service_node(nodes: Seq<NodeView>, n: NodeView) -> Seq<NodeView> {
    let i = node_index(nodes, n.service, Seq::<char>::empty());
    if i < nodes.len() {
        nodes.update(
            i,
            emphasized_if(nodes[i], n.serv_oper_type == ServiceOperationType::Emphasized),
        )
    } else {
        nodes.push(
            NodeView {
                service: n.service,
                operation: Seq::<char>::empty(),
                position: n.position,
                serv_oper_type: n.serv_oper_type,
            },
        )
    }
}

/// The ends of a link between services, without operations.
pub open spec fn service_ends(ends: Ends) -> Ends {
    Ends {
        from_service: ends.from_service,
        from_operation: Seq::<char>::empty(),
        to_service: ends.to_service,
        to_operation: Seq::<char>::empty(),
    }
}

/// The links with the link taken in as a link between services: on the
/// link between the two services that is there, which then has the chains
/// of both and is emphasized if either is, or as a new link.
pub open spec fn with_service_link(links: Seq<LinkView>, l: LinkView) -> Seq<LinkView> {
    let ends = service_ends(l.ends);
    let i = link_index(links, ends);
    if i < links.len() {
        links.update(
            i,
            LinkView {
                ends,
                sources: links[i].sources + l.sources,
                inbound_sources: links[i].inbound_sources + l.inbound_sources,
                link_type: merged_link_type(links[i].link_type, l.link_type),
            },
        )
    } else {
        links.push(
            LinkView {
                ends,
                sources: l.sources,
                inbound_sources: l.inbound_sources,
                link_type: l.link_type,
            },
        )
    }
}

/// The nodes of the services of the first `n` nodes.
pub open spec fn service_nodes(nodes: Seq<NodeView>, n: int) -> Seq<NodeView>
    decreases n,
{
    if n <= 0 {
        Seq::<NodeView>::empty()
    } else {
        with_service_node(service_nodes(nodes, n - 1), nodes[n - 1])
    }
}

/// The links between services of the first `n` links.
pub open spec fn service_links(links: Seq<LinkView>, n: int) -> Seq<LinkView>
    decreases n,
{
    if n <= 0 {
        Seq::<LinkView>::empty()
    } else {
        with_service_link(service_links(links, n - 1), links[n - 1])
    }
}

/// The graph with the operations of each service taken together into one
/// node, and the links between the same two services into one link.
pub open spec fn compacted(g: GraphView) -> GraphView {
    GraphView {
        nodes: service_nodes(g.nodes, g.nodes.len() as int),
        links: service_links(g.links, g.links.len() as int),
    }
}

/// What is drawn of a graph: the part that the scope keeps, with the
/// operations of each service taken together where `compact` holds.
pub open spec fn drawn(g: GraphView, scope: MermaidScope, compact: bool) -> GraphView {
    if compact {
        compacted(scoped(g, scope))
    } else {
        scoped(g, scope)
    }
}

/// The nodes of the services stand for the services of the nodes: each has
/// no operation and the service of one of the nodes, and each of the nodes
/// has its service among them.
pub proof fn lemma_service_nodes(nodes: Seq<NodeView>, n: int)
    requires
        0 <= n <= nodes.len(),
    ensures
        forall|i: int|
            0 <= i < service_nodes(nodes, n).len() ==> (#[trigger] service_nodes(
                nodes,
                n,
            )[i]).operation == Seq::<char>::empty() && exists|j: int|
                0 <= j < n && (#[trigger] nodes[j]).service == service_nodes(nodes, n)[i].service,
        forall|j: int|
            0 <= j < n ==> node_names(service_nodes(nodes, n)).contains(
                ((#[trigger] nodes[j]).service, Seq::<char>::empty()),
            ),
    decreases n,
{
    if n > 0 {
        lemma_service_nodes(nodes, n - 1);
        let prev = service_nodes(nodes, n - 1);
        let sn = service_nodes(nodes, n);
        let last = nodes[n - 1];
        let e = Seq::<char>::empty();
        let at = node_index(prev, last.service, e);
        crate::text::lemma_index_of(node_names(prev), (last.service, e));
        assert forall|i: int| 0 <= i < sn.len() implies (#[trigger] sn[i]).operation == e
            && exists|j: int| 0 <= j < n && (#[trigger] nodes[j]).service == sn[i].service by {
            if i < prev.len() {
                assert(sn[i].service == prev[i].service && sn[i].operation == prev[i].operation);
                let j = choose|j: int|
                    0 <= j < n - 1 && (#[trigger] nodes[j]).service == prev[i].service;
                assert(nodes[j].service == sn[i].service);
            } else {
                assert(nodes[n - 1].service == sn[i].service);
            }
        }
        assert forall|j: int| 0 <= j < n implies node_names(sn).contains(
            ((#[trigger] nodes[j]).service, e),
        ) by {
            let name = (nodes[j].service, e);
            if j < n - 1 {
                assert(node_names(prev).contains(name));
                let i = choose|i: int| 0 <= i < node_names(prev).len() && node_names(prev)[i] == name;
                assert(sn[i].service == prev[i].service && sn[i].operation == prev[i].operation);
                assert(node_names(sn)[i] == name);
            } else if at < prev.len() {
                assert(node_names(prev)[at] == name);
                assert(node_names(sn)[at] == name);
            } else {
                assert(node_names(sn)[sn.len() - 1] == name);
            }
        }
    }
}

/// Whatever is drawn, the full scope names every node that any scope
/// names. Where the operations of a service are taken together, the node
/// of a service can stand at another position in the full scope than in a
/// narrower one; it is the same node by its name.
pub proof fn lemma_full_scope_names_all(g: GraphView, scope: MermaidScope, compact: bool)
    ensures
        forall|name: (Seq<char>, Seq<char>)|
            node_names(drawn(g, scope, compact).nodes).contains(name) ==> #[trigger] node_names(
                drawn(g, MermaidScope::Full, compact).nodes,
            ).contains(name),
{
    let some = kept_nodes(g.nodes, scope);
    let full = kept_nodes(g.nodes, MermaidScope::Full);
    lemma_kept_nodes(g.nodes, scope);
    lemma_kept_nodes(g.nodes, MermaidScope::Full);
    let ds = drawn(g, scope, compact).nodes;
    let df = drawn(g, MermaidScope::Full, compact).nodes;
    assert forall|name: (Seq<char>, Seq<char>)| node_names(ds).contains(name) implies #[trigger] node_names(
        df,
    ).contains(name) by {
        let i = choose|i: int| 0 <= i < node_names(ds).len() && node_names(ds)[i] == name;
        if compact {
            lemma_service_nodes(some, some.len() as int);
            lemma_service_nodes(full, full.len() as int);
            assert(ds[i].operation == Seq::<char>::empty());
            let j = choose|j: int|
                0 <= j < some.len() && (#[trigger] some[j]).service == ds[i].service;
            assert(some.contains(some[j]));
            assert(full.contains(some[j]));
            let k = choose|k: int| 0 <= k < full.len() && full[k] == some[j];
            assert(node_names(df).contains((full[k].service, Seq::<char>::empty())));
        } else {
            assert(some.contains(ds[i]));
            assert(full.contains(ds[i]));
            let k = choose|k: int| 0 <= k < full.len() && full[k] == ds[i];
            assert(node_names(df)[k] == name);
        }
    }
}

/// The ends of the links that are kept are ends of links of the graph.
pub proof fn lemma_kept_links(links: Seq<LinkView>, nodes: Seq<NodeView>)
    ensures
        forall|i: int|
            0 <= i < kept_links(links, nodes).len() ==> links.contains(
                #[trigger] kept_links(links, nodes)[i],
            ),
    decreases links.len(),
{
    if links.len() > 0 {
        let front = links.drop_last();
        lemma_kept_links(front, nodes);
        let kf = kept_links(front, nodes);
        let k = kept_links(links, nodes);
        assert forall|i: int| 0 <= i < k.len() implies links.contains(#[trigger] k[i]) by {
            if i < kf.len() {
                assert(k[i] == kf[i]);
                let j = choose|j: int| 0 <= j < front.len() && front[j] == kf[i];
                assert(links[j] == k[i]);
            } else {
                assert(links[links.len() - 1] == k[i]);
            }
        }
    }
}

/// The nodes that a scope keeps are the nodes at its positions.
pub proof fn lemma_kept_nodes(nodes: Seq<NodeView>, scope: MermaidScope)
    ensures
        forall|n: NodeView|
            #![trigger kept_nodes(nodes, scope).contains(n)]
            kept_nodes(nodes, scope).contains(n) <==> nodes.contains(n) && scope_keeps(
                scope,
                n.position,
            ),
        kept_nodes(nodes, scope).len() <= nodes.len(),
    decreases nodes.len(),
{
    if nodes.len() > 0 {
        let front = nodes.drop_last();
        lemma_kept_nodes(front, scope);
        let kf = kept_nodes(front, scope);
        let k = kept_nodes(nodes, scope);
        assert forall|n: NodeView| #![trigger k.contains(n)] k.contains(n) <==> nodes.contains(n)
            && scope_keeps(scope, n.position) by {
            if k.contains(n) {
                let i = choose|i: int| 0 <= i < k.len() && k[i] == n;
                if i < kf.len() {
                    assert(kf[i] == n);
                    assert(kf.contains(n));
                    let j = choose|j: int| 0 <= j < front.len() && front[j] == n;
                    assert(nodes[j] == n);
                } else {
                    assert(nodes[nodes.len() - 1] == n);
                }
            }
            if nodes.contains(n) && scope_keeps(scope, n.position) {
                let j = choose|j: int| 0 <= j < nodes.len() && nodes[j] == n;
                if j < front.len() {
                    assert(front[j] == n);
                    assert(front.contains(n));
                    assert(kf.contains(n));
                    let i = choose|i: int| 0 <= i < kf.len() && kf[i] == n;
                    assert(k[i] == n);
                } else {
                    assert(k[k.len() - 1] == n);
                }
            }
        }
    }
}

/// The full scope holds every node that any scope holds.
pub proof fn lemma_full_scope_holds_all(g: GraphView, scope: MermaidScope)
    ensures
        forall|n: NodeView|
            scoped(g, scope).nodes.contains(n) ==> #[trigger] scoped(
                g,
                MermaidScope::Full,
            ).nodes.contains(n),
{
    lemma_kept_nodes(g.nodes, scope);
    lemma_kept_nodes(g.nodes, MermaidScope::Full);
}

impl Clone for ServiceOperation {
    fn clone(&self) -> (r: Self)
        ensures
            r@ == self@,
    {
        ServiceOperation {
            service: self.service.clone(),
            operation: self.operation.clone(),
            position: self.position,
            serv_oper_type: self.serv_oper_type,
        }
    }
}

impl Clone for Link {
    fn clone(&self) -> (r: Self)
        ensures
            r@ == self@,
    {
        Link {
            from_service: self.from_service.clone(),
            from_operation: self.from_operation.clone(),
            to_service: self.to_service.clone(),
            to_operation: self.to_operation.clone(),
            sources: self.sources.clone(),
            inbound_sources: self.inbound_sources.clone(),
            link_type: self.link_type,
        }
    }
}

/// Whether some call of the chain is a call of the operation.
pub fn chain_calls(chain: &CallChain, service: &String, operation: &String) -> (r: bool)
    ensures
        r == on_chain(chain_view(chain@), service@, operation@),
{
    let mut k: usize = 0;
    while k < chain.len()
        invariant
            k <= chain.len(),
            forall|x: int|
                0 <= x < k ==> !((#[trigger] chain_view(chain@)[x]).process == service@
                    && chain_view(chain@)[x].method == operation@),
        decreases chain.len() - k,
    {
        if chain[k].process == *service && chain[k].method == *operation {
            assert(chain_view(chain@)[k as int].process == service@);
            return true;
        }
        k += 1;
    }
    false
}

/// Whether two calls of the chain that follow each other are the ends of
/// the link.
pub fn chain_links(chain: &CallChain, link: &Link) -> (r: bool)
    ensures
        r == link_on_chain(chain_view(chain@), link@.ends),
{
    let ghost cv = chain_view(chain@);
    if chain.len() < 2 {
        return false;
    }
    let mut k: usize = 0;
    while k < chain.len() - 1
        invariant
            k <= chain.len() - 1,
            chain.len() >= 2,
            cv == chain_view(chain@),
            forall|x: int| 0 <= x < k ==> #[trigger] ends_of(cv[x], cv[x + 1]) != link@.ends,
        decreases chain.len() - k,
    {
        if chain[k].process == link.from_service && chain[k].method == link.from_operation
            && chain[k + 1].process == link.to_service && chain[k + 1].method
            == link.to_operation {
            assert(ends_of(cv[k as int], cv[k + 1]) == link@.ends);
            return true;
        }
        k += 1;
    }
    false
}

impl ServiceOperGraph {
    /// Gives the nodes of the focus the given type.
    pub fn update_service_operation_type(&mut self, focus: &Focus, kind: ServiceOperationType)
        ensures
            final(self)@ == with_focus_type(old(self)@, focus@, kind),
    {
        let ghost target = with_focus_type(old(self)@, focus@, kind);
        let mut i: usize = 0;
        while i < self.nodes.len()
            invariant
                i <= self.nodes.len(),
                self.nodes.len() == old(self).nodes.len(),
                self@.links == old(self)@.links,
                target == with_focus_type(old(self)@, focus@, kind),
                forall|j: int| 0 <= j < i ==> self@.nodes[j] == target.nodes[j],
                forall|j: int| i <= j < self.nodes.len() ==> self@.nodes[j] == old(self)@.nodes[j],
            decreases self.nodes.len() - i,
        {
            let hit = self.nodes[i].service == focus.service && match &focus.operation {
                Some(o) => self.nodes[i].operation == *o,
                None => true,
            };
            if hit {
                self.nodes[i].serv_oper_type = kind;
            }
            assert(self@.links =~= old(self)@.links);
            i += 1;
        }
        assert(self@.nodes =~= target.nodes);
    }

    /// Emphasizes the nodes and the links of the chain.
    pub fn mark_selected_call_chain(&mut self, chain: &CallChain)
        ensures
            final(self)@ == with_chain_marked(old(self)@, chain_view(chain@)),
    {
        let ghost target = with_chain_marked(old(self)@, chain_view(chain@));
        let mut i: usize = 0;
        while i < self.nodes.len()
            invariant
                i <= self.nodes.len(),
                self.nodes.len() == old(self).nodes.len(),
                self@.links == old(self)@.links,
                target == with_chain_marked(old(self)@, chain_view(chain@)),
                forall|j: int| 0 <= j < i ==> self@.nodes[j] == target.nodes[j],
                forall|j: int| i <= j < self.nodes.len() ==> self@.nodes[j] == old(self)@.nodes[j],
            decreases self.nodes.len() - i,
        {
            if chain_calls(chain, &self.nodes[i].service, &self.nodes[i].operation) {
                self.nodes[i].serv_oper_type = ServiceOperationType::Emphasized;
            }
            assert(self@.links =~= old(self)@.links);
            i += 1;
        }
        assert(self@.nodes =~= target.nodes);
        let mut i: usize = 0;
        while i < self.links.len()
            invariant
                i <= self.links.len(),
                self.links.len() == old(self).links.len(),
                self@.nodes == target.nodes,
                target == with_chain_marked(old(self)@, chain_view(chain@)),
                forall|j: int| 0 <= j < i ==> self@.links[j] == target.links[j],
                forall|j: int| i <= j < self.links.len() ==> self@.links[j] == old(self)@.links[j],
            decreases self.links.len() - i,
        {
            if chain_links(chain, &self.links[i]) {
                self.links[i].link_type = LinkType::Emphasized;
            }
            assert(self@.nodes =~= target.nodes);
            i += 1;
        }
        assert(self@.links =~= target.links);
    }

    /// The part of the graph that the scope keeps.
    pub fn scoped_graph(&self, scope: MermaidScope) -> (r: Self)
        ensures
            r@ == scoped(self@, scope),
    {
        let mut r = ServiceOperGraph::new();
        let ghost nodes = self@.nodes;
        let mut i: usize = 0;
        assert(nodes.take(0) =~= Seq::<NodeView>::empty());
        assert(r@.nodes =~= Seq::<NodeView>::empty());
        while i < self.nodes.len()
            invariant
                i <= self.nodes.len(),
                nodes == self@.nodes,
                r@.links.len() == 0,
                r@.nodes == kept_nodes(nodes.take(i as int), scope),
            decreases self.nodes.len() - i,
        {
            proof {
                assert(nodes.take(i + 1).drop_last() =~= nodes.take(i as int));
                assert(nodes.take(i + 1).last() == self.nodes@[i as int]@);
            }
            if scope.keeps(self.nodes[i].position) {
                let ghost before = r@;
                r.nodes.push(self.nodes[i].clone());
                assert(r@.nodes =~= before.nodes.push(self.nodes@[i as int]@));
                assert(r@.links =~= before.links);
            }
            i += 1;
        }
        assert(nodes.take(self.nodes.len() as int) =~= nodes);
        let ghost kept = r@.nodes;
        let ghost links = self@.links;
        let mut i: usize = 0;
        assert(links.take(0) =~= Seq::<LinkView>::empty());
        assert(r@.links =~= Seq::<LinkView>::empty());
        while i < self.links.len()
            invariant
                i <= self.links.len(),
                links == self@.links,
                r@.nodes == kept,
                r@.links == kept_links(links.take(i as int), kept),
            decreases self.links.len() - i,
        {
            proof {
                assert(links.take(i + 1).drop_last() =~= links.take(i as int));
                assert(links.take(i + 1).last() == self.links@[i as int]@);
            }
            let link = &self.links[i];
            if r.find_node(&link.from_service, &link.from_operation) < r.nodes.len() && r.find_node(
                &link.to_service,
                &link.to_operation,
            ) < r.nodes.len() {
                let ghost before = r@;
                r.links.push(link.clone());
                assert(r@.links =~= before.links.push(link@));
                assert(r@.nodes =~= before.nodes);
            }
            i += 1;
        }
        assert(links.take(self.links.len() as int) =~= links);
        r
    }

    /// The graph with the operations of each service taken together.
    pub fn compact_graph(&self) -> (r: Self)
        ensures
            r@ == compacted(self@),
    {
        let mut r = ServiceOperGraph::new();
        let ghost nodes = self@.nodes;
        let ghost links = self@.links;
        let empty = String::new();
        let mut i: usize = 0;
        assert(r@.nodes =~= Seq::<NodeView>::empty());
        assert(r@.links =~= Seq::<LinkView>::empty());
        while i < self.nodes.len()
            invariant
                i <= self.nodes.len(),
                nodes == self@.nodes,
                empty@ == Seq::<char>::empty(),
                r@.links.len() == 0,
                r@.nodes == service_nodes(nodes, i as int),
            decreases self.nodes.len() - i,
        {
            let node = &self.nodes[i];
            assert(nodes[i as int] == node@);
            let ghost before = r@;
            let at = r.find_node(&node.service, &empty);
            if at < r.nodes.len() {
                match node.serv_oper_type {
                    ServiceOperationType::Emphasized => {
                        r.nodes[at].serv_oper_type = ServiceOperationType::Emphasized;
                    },
                    ServiceOperationType::Default => {},
                }
                assert(r@.nodes =~= before.nodes.update(
                    at as int,
                    emphasized_if(
                        before.nodes[at as int],
                        node.serv_oper_type == ServiceOperationType::Emphasized,
                    ),
                ));
            } else {
                let fresh = ServiceOperation {
                    service: node.service.clone(),
                    operation: String::new(),
                    position: node.position,
                    serv_oper_type: node.serv_oper_type,
                };
                r.nodes.push(fresh);
                assert(r@.nodes =~= before.nodes.push(fresh@));
            }
            assert(r@.links =~= before.links);
            i += 1;
        }
        let ghost kept = r@.nodes;
        let mut i: usize = 0;
        while i < self.links.len()
            invariant
                i <= self.links.len(),
                links == self@.links,
                empty@ == Seq::<char>::empty(),
                r@.nodes == kept,
                r@.links == service_links(links, i as int),
            decreases self.links.len() - i,
        {
            let link = &self.links[i];
            assert(links[i as int] == link@);
            let ghost before = r@;
            let from = Call {
                process: link.from_service.clone(),
                method: String::new(),
                call_direction: crate::call::CallDirection::Unknown,
            };
            let to = Call {
                process: link.to_service.clone(),
                method: String::new(),
                call_direction: crate::call::CallDirection::Unknown,
            };
            assert(ends_of(from@, to@) == service_ends(link@.ends));
            let at = r.find_link(&from, &to);
            if at < r.links.len() {
                let ghost old_link = r.links@[at as int]@;
                crate::cchain_stats::append_places(&mut r.links[at].sources, &link.sources);
                crate::cchain_stats::append_places(
                    &mut r.links[at].inbound_sources,
                    &link.inbound_sources,
                );
                let merged = r.links[at].link_type.merge(link.link_type);
                r.links[at].link_type = merged;
                proof {
                    assert(old_link.ends == service_ends(link@.ends)) by {
                        crate::text::lemma_index_of(
                            link_ends(before.links),
                            service_ends(link@.ends),
                        );
                        assert(link_ends(before.links)[at as int] == before.links[at as int].ends);
                    }
                    assert(r@.links =~= before.links.update(
                        at as int,
                        LinkView {
                            ends: service_ends(link@.ends),
                            sources: old_link.sources + link@.sources,
                            inbound_sources: old_link.inbound_sources + link@.inbound_sources,
                            link_type: merged_link_type(old_link.link_type, link@.link_type),
                        },
                    ));
                }
            } else {
                let fresh = Link {
                    from_service: link.from_service.clone(),
                    from_operation: String::new(),
                    to_service: link.to_service.clone(),
                    to_operation: String::new(),
                    sources: link.sources.clone(),
                    inbound_sources: link.inbound_sources.clone(),
                    link_type: link.link_type,
                };
                r.links.push(fresh);
                assert(r@.links =~= before.links.push(fresh@));
            }
            assert(r@.nodes =~= before.nodes);
            i += 1;
        }
        r
    }

    /// A graph without nodes.
    pub fn new() -> (r: Self)
        ensures
            r@.nodes.len() == 0,
            r@.links.len() == 0,
    {
        ServiceOperGraph { nodes: Vec::new(), links: Vec::new() }
    }

    /// The place of the node of an operation, or the number of nodes.
    pub fn find_node(&self, service: &String, operation: &String) -> (i: usize)
        ensures
            i == node_index(self@.nodes, service@, operation@),
            i <= self.nodes.len(),
    {
        let mut i: usize = 0;
        while i < self.nodes.len() && !(self.nodes[i].service == *service
            && self.nodes[i].operation == *operation)
            invariant
                i <= self.nodes.len(),
                forall|j: int|
                    0 <= j < i ==> node_names(self@.nodes)[j] != (service@, operation@),
            decreases self.nodes.len() - i,
        {
            i += 1;
        }
        proof {
            lemma_index_of_at(node_names(self@.nodes), (service@, operation@), i as int);
        }
        i
    }

    /// The place of the link from one operation to another, or the number
    /// of links.
    pub fn find_link(&self, from: &Call, to: &Call) -> (i: usize)
        ensures
            i == link_index(self@.links, ends_of(from@, to@)),
            i <= self.links.len(),
    {
        let mut i: usize = 0;
        while i < self.links.len() && !(self.links[i].from_service == from.process
            && self.links[i].from_operation == from.method && self.links[i].to_service
            == to.process && self.links[i].to_operation == to.method)
            invariant
                i <= self.links.len(),
                forall|j: int| 0 <= j < i ==> link_ends(self@.links)[j] != ends_of(from@, to@),
            decreases self.links.len() - i,
        {
            i += 1;
        }
        proof {
            lemma_index_of_at(link_ends(self@.links), ends_of(from@, to@), i as int);
        }
        i
    }

    /// Makes sure that the call has a node.
    pub fn add_node(&mut self, call: &Call, service: &str, default_pos: Position)
        ensures
            final(self)@ == with_node(old(self)@, call@, service@, default_pos),
    {
        if self.find_node(&call.process, &call.method) < self.nodes.len() {
            return ;
        }
        let focus = service.to_owned();
        let position = if call.process == focus {
            Position::Center
        } else {
            default_pos
        };
        let node = ServiceOperation {
            service: call.process.clone(),
            operation: call.method.clone(),
            position,
            serv_oper_type: ServiceOperationType::Default,
        };
        self.nodes.push(node);
        assert(self@.nodes =~= old(self)@.nodes.push(node@));
        assert(self@.links =~= old(self)@.links);
    }

    /// Takes in the call from `from` to `to` with which the chain `source`
    /// ends.
    pub fn add_connection(
        &mut self,
        from: &Call,
        to: &Call,
        source: usize,
        service: &str,
        default_pos: Position,
    )
        ensures
            final(self)@ == connected(old(self)@, from@, to@, source, service@, default_pos),
    {
        self.add_node(from, service, default_pos);
        self.add_node(to, service, default_pos);
        let ghost mid = self@;
        let i = self.find_link(from, to);
        if i < self.links.len() {
            self.links[i].sources.push(source);
            assert(self@.links =~= mid.links.update(
                i as int,
                LinkView {
                    ends: mid.links[i as int].ends,
                    sources: mid.links[i as int].sources.push(source),
                    inbound_sources: mid.links[i as int].inbound_sources,
                    link_type: mid.links[i as int].link_type,
                },
            ));
            assert(self@.nodes =~= mid.nodes);
        } else {
            let mut sources: Vec<usize> = Vec::new();
            sources.push(source);
            let link = Link {
                from_service: from.process.clone(),
                from_operation: from.method.clone(),
                to_service: to.process.clone(),
                to_operation: to.method.clone(),
                sources,
                inbound_sources: Vec::new(),
                link_type: LinkType::Default,
            };
            self.links.push(link);
            assert(link@.sources =~= seq![source]);
            assert(self@.links =~= mid.links.push(link@));
            assert(self@.nodes =~= mid.nodes);
        }
    }

    /// Counts the chain `source` as reaching the link from `from` to `to`
    /// behind the selected path.
    pub fn update_inbound_path_count(&mut self, from: &Call, to: &Call, source: usize)
        ensures
            final(self)@ == with_inbound_path(old(self)@, ends_of(from@, to@), source),
    {
        let i = self.find_link(from, to);
        if i < self.links.len() {
            self.links[i].inbound_sources.push(source);
            assert(self@.links =~= old(self)@.links.update(
                i as int,
                LinkView {
                    ends: old(self)@.links[i as int].ends,
                    sources: old(self)@.links[i as int].sources,
                    inbound_sources: old(self)@.links[i as int].inbound_sources.push(source),
                    link_type: old(self)@.links[i as int].link_type,
                },
            ));
            assert(self@.nodes =~= old(self)@.nodes);
        }
    }
}

} // verus!
