//! The graph of the records that a domain's policy reaches through
//! `include` and `redirect`.

use vstd::prelude::*;
use crate::dns::{
    ask, lemma_record, Channel, DnsSnapshot, DnsView, Question, QuestionView, RecordKind, Reply,
    ReplyView,
};
use crate::spf::evaluate::{bump, count_lookup, select_spf_record, selected_record, MAX_DEPTH};
use crate::spf::record::{parse_spf, parsed_spf, MechanismView, ModifierView};
use crate::text::str_eq;

verus! {

/// A domain that the walk has visited, with the text of its policy where it
/// publishes one.
#[derive(Debug)]
pub struct SPFGraphNode {
    pub domain: String,
    pub txt: Option<String>,
}

/// The mathematical content of an [`SPFGraphNode`].
pub struct NodeView {
    pub domain: Seq<char>,
    pub txt: Option<Seq<char>>,
}

impl DeepView for SPFGraphNode {
    type V = NodeView;

    open spec fn deep_view(&self) -> NodeView {
        NodeView { domain: self.domain@, txt: self.txt.deep_view() }
    }
}

impl View for SPFGraphNode {
    type V = NodeView;

    open spec fn view(&self) -> NodeView {
        self.deep_view()
    }
}

/// A reference from one domain's policy to another domain; the type is
/// `include` or `redirect`.
#[derive(Debug)]
pub struct SPFGraphEdge {
    pub from: String,
    pub to: String,
    pub edge_type: String,
}

/// The mathematical content of an [`SPFGraphEdge`].
pub struct EdgeView {
    pub from: Seq<char>,
    pub to: Seq<char>,
    pub edge_type: Seq<char>,
}

impl DeepView for SPFGraphEdge {
    type V = EdgeView;

    open spec fn deep_view(&self) -> EdgeView {
        EdgeView { from: self.from@, to: self.to@, edge_type: self.edge_type@ }
    }
}

impl View for SPFGraphEdge {
    type V = EdgeView;

    open spec fn view(&self) -> EdgeView {
        self.deep_view()
    }
}

/// The nodes in the order first visited, the edges in the order met, the
/// number of records fetched, and whether a reference led back to a domain
/// already visited.
#[derive(Debug)]
pub struct SPFGraph {
    pub nodes: Vec<SPFGraphNode>,
    pub edges: Vec<SPFGraphEdge>,
    pub lookups: u32,
    pub cyclic: bool,
}

/// The mathematical content of an [`SPFGraph`].
pub struct GraphView {
    pub nodes: Seq<NodeView>,
    pub edges: Seq<EdgeView>,
    pub lookups: u32,
    pub cyclic: bool,
}

impl DeepView for SPFGraph {
    type V = GraphView;

    open spec fn deep_view(&self) -> GraphView {
        GraphView {
            nodes: self.nodes.deep_view(),
            edges: self.edges.deep_view(),
            lookups: self.lookups,
            cyclic: self.cyclic,
        }
    }
}

impl View for SPFGraph {
    type V = GraphView;

    open spec fn view(&self) -> GraphView {
        self.deep_view()
    }
}

/// How far a walk got with the answers at hand.
#[derive(Debug)]
pub enum GraphProgress {
    /// The answer to this question is needed next.
    Need(Question),
    /// The walk is complete.
    Done(SPFGraph),
}

/// The mathematical content of a [`GraphProgress`].
pub enum WalkView {
    Need(QuestionView),
    Done(GraphView),
}

impl DeepView for GraphProgress {
    type V = WalkView;

    open spec fn deep_view(&self) -> WalkView {
        match self {
            GraphProgress::Need(q) => WalkView::Need(q@),
            GraphProgress::Done(g) => WalkView::Done(g@),
        }
    }
}

impl View for GraphProgress {
    type V = WalkView;

    open spec fn view(&self) -> WalkView {
        self.deep_view()
    }
}

/// A domain that a record refers to, and how.
pub struct Target {
    pub to: String,
    pub edge_type: String,
}

/// The mathematical content of a [`Target`].
pub struct TargetView {
    pub to: Seq<char>,
    pub edge_type: Seq<char>,
}

impl DeepView for Target {
    type V = TargetView;

    open spec fn deep_view(&self) -> TargetView {
        TargetView { to: self.to@, edge_type: self.edge_type@ }
    }
}

impl View for Target {
    type V = TargetView;

    open spec fn view(&self) -> TargetView {
        self.deep_view()
    }
}

/// Whether one of `nodes` stands for `domain`.
pub open spec fn visited(nodes: Seq<NodeView>, domain: Seq<char>) -> bool {
    exists|i: int| 0 <= i < nodes.len() && (#[trigger] nodes[i]).domain == domain
}

/// Whether no two of `nodes` stand for the same domain.
pub open spec fn distinct_domains(nodes: Seq<NodeView>) -> bool {
    forall|i: int, j: int|
        0 <= i < j < nodes.len() ==> (#[trigger] nodes[i]).domain != (#[trigger] nodes[j]).domain
}

/// The targets of the `include` mechanisms that carry a value, in order.
pub open spec fn include_targets(mechanisms: Seq<MechanismView>) -> Seq<TargetView>
    decreases mechanisms.len(),
{
    if mechanisms.len() == 0 {
        Seq::empty()
    } else {
        let m = mechanisms.last();
        let before = include_targets(mechanisms.drop_last());
        if m.mechanism == "include"@ && m.value is Some {
            before.push(TargetView { to: m.value->0, edge_type: "include"@ })
        } else {
            before
        }
    }
}

/// The targets of the `redirect` modifiers whose value is not empty, in
/// order.
pub open spec fn redirect_targets(modifiers: Seq<ModifierView>) -> Seq<TargetView>
    decreases modifiers.len(),
{
    if modifiers.len() == 0 {
        Seq::empty()
    } else {
        let m = modifiers.last();
        let before = redirect_targets(modifiers.drop_last());
        if m.key == "redirect"@ && m.value.len() > 0 {
            before.push(TargetView { to: m.value, edge_type: "redirect"@ })
        } else {
            before
        }
    }
}

/// The domains that the policy text `txt` refers to: first those it
/// includes, then those it redirects to.
pub open spec fn targets_of(txt: Option<Seq<char>>) -> Seq<TargetView> {
    match txt {
        Some(text) => match parsed_spf(text) {
            Some(record) => include_targets(record.mechanisms) + redirect_targets(
                record.modifiers,
            ),
            None => Seq::empty(),
        },
        None => Seq::empty(),
    }
}

/// `graph` with one more node.
pub open spec fn with_node(graph: GraphView, domain: Seq<char>, txt: Option<Seq<char>>) -> GraphView {
    GraphView {
        nodes: graph.nodes.push(NodeView { domain, txt }),
        edges: graph.edges,
        lookups: bump(graph.lookups),
        cyclic: graph.cyclic,
    }
}

/// `graph` with one more edge.
pub open spec fn with_edge(graph: GraphView, from: Seq<char>, target: TargetView) -> GraphView {
    GraphView {
        nodes: graph.nodes,
        edges: graph.edges.push(EdgeView { from, to: target.to, edge_type: target.edge_type }),
        lookups: graph.lookups,
        cyclic: graph.cyclic,
    }
}

/// `graph` marked as cyclic.
pub open spec fn marked_cyclic(graph: GraphView) -> GraphView {
    GraphView { nodes: graph.nodes, edges: graph.edges, lookups: graph.lookups, cyclic: true }
}

/// The graph without nodes and edges.
pub open spec fn empty_graph() -> GraphView {
    GraphView { nodes: Seq::empty(), edges: Seq::empty(), lookups: 0, cyclic: false }
}

/// Follows the references of `from`'s record from position `index` on: each
/// adds an edge and, unless the depth is used up, a walk from its target.
pub open spec fn walk_targets(
    dns: DnsView,
    from: Seq<char>,
    targets: Seq<TargetView>,
    index: nat,
    graph: GraphView,
    depth: nat,
) -> WalkView
    decreases MAX_DEPTH + 1 - depth, 0nat, targets.len() - index,
{
    if index >= targets.len() {
        WalkView::Done(graph)
    } else {
        let target = targets[index as int];
        let linked = with_edge(graph, from, target);
        let walked = if depth >= MAX_DEPTH {
            WalkView::Done(linked)
        } else {
            walk(dns, target.to, linked, depth + 1)
        };
        match walked {
            WalkView::Need(q) => WalkView::Need(q),
            WalkView::Done(next) => walk_targets(dns, from, targets, index + 1, next, depth),
        }
    }
}

/// Visits `domain` at depth `depth`, depth first. A domain that has a node
/// already is not visited again: the graph is marked cyclic and the walk goes
/// no further there. Otherwise the domain's record is fetched, which counts
/// one lookup, the domain gets its node, with the policy text where the
/// answer holds one, and the walk follows the references of that policy.
pub open spec fn walk(dns: DnsView, domain: Seq<char>, graph: GraphView, depth: nat) -> WalkView
    decreases MAX_DEPTH + 1 - depth, 1nat, 0nat,
{
    if depth > MAX_DEPTH {
        WalkView::Done(graph)
    } else if visited(graph.nodes, domain) {
        WalkView::Done(marked_cyclic(graph))
    } else {
        match dns.answer(ask(RecordKind::Txt, domain)) {
            None => WalkView::Need(ask(RecordKind::Txt, domain)),
            Some(reply) => {
                let txt = selected_record(reply.values());
                walk_targets(dns, domain, targets_of(txt), 0, with_node(graph, domain, txt), depth)
            },
        }
    }
}

/// Tells whether one of `nodes` stands for `domain`.
pub fn is_visited(nodes: &Vec<SPFGraphNode>, domain: &str) -> (r: bool)
    ensures
        r == visited(nodes.deep_view(), domain@),
{
    let ghost all = nodes.deep_view();
    let mut i: usize = 0;
    while i < nodes.len()
        invariant
            i <= nodes@.len(),
            all == nodes.deep_view(),
            forall|k: int| 0 <= k < i ==> (#[trigger] all[k]).domain != domain@,
        decreases nodes@.len() - i,
    {
        if str_eq(nodes[i].domain.as_str(), domain) {
            proof {
                assert(all[i as int].domain == domain@);
            }
            return true;
        }
        i += 1;
    }
    false
}

/// Lists the domains that a policy text refers to: first the targets of its
/// `include` mechanisms that carry a value, then the targets of its
/// `redirect` modifiers whose value is not empty.
pub fn record_targets(txt: &Option<String>) -> (r: Vec<Target>)
    ensures
        r.deep_view() == targets_of(txt.deep_view()),
{
    let mut out: Vec<Target> = Vec::new();
    let record = match txt {
        Some(text) => match parse_spf(text.as_str()) {
            Some(record) => record,
            None => {
                return out;
            },
        },
        None => {
            return out;
        },
    };
    let ghost mechanisms = record@.mechanisms;
    let ghost modifiers = record@.modifiers;
    let mut i: usize = 0;
    while i < record.mechanisms.len()
        invariant
            i <= record.mechanisms@.len(),
            mechanisms == record.mechanisms.deep_view(),
            out.deep_view() == include_targets(mechanisms.take(i as int)),
        decreases record.mechanisms@.len() - i,
    {
        let m = &record.mechanisms[i];
        proof {
            assert(mechanisms.take(i + 1).drop_last() =~= mechanisms.take(i as int));
        }
        if str_eq(m.mechanism.as_str(), "include") {
            match &m.value {
                Some(value) => {
                    out.push(Target { to: value.clone(), edge_type: String::from_str("include") });
                },
                None => {},
            }
        }
        i += 1;
    }
    let ghost included = out.deep_view();
    let mut j: usize = 0;
    proof {
        assert(mechanisms.take(record.mechanisms@.len() as int) =~= mechanisms);
    }
    while j < record.modifiers.len()
        invariant
            j <= record.modifiers@.len(),
            modifiers == record.modifiers.deep_view(),
            included == include_targets(mechanisms),
            out.deep_view() == included + redirect_targets(modifiers.take(j as int)),
        decreases record.modifiers@.len() - j,
    {
        let m = &record.modifiers[j];
        let ghost before = redirect_targets(modifiers.take(j as int));
        proof {
            assert(modifiers.take(j + 1).drop_last() =~= modifiers.take(j as int));
        }
        if str_eq(m.key.as_str(), "redirect") && m.value.as_str().unicode_len() > 0 {
            out.push(Target { to: m.value.clone(), edge_type: String::from_str("redirect") });
            proof {
                let added = TargetView { to: m.value@, edge_type: "redirect"@ };
                assert(out.deep_view() =~= (included + before).push(added));
            }
        }
        j += 1;
    }
    proof {
        assert(modifiers.take(record.modifiers@.len() as int) =~= modifiers);
    }
    out
}

/// Follows the references in `targets`, which are those of `from`'s record.
pub fn walk_links(
    dns: &DnsSnapshot,
    from: &str,
    targets: &Vec<Target>,
    graph: SPFGraph,
    depth: u32,
) -> (r: GraphProgress)
    requires
        depth <= MAX_DEPTH,
    ensures
        r@ == walk_targets(dns@, from@, targets.deep_view(), 0, graph@, depth as nat),
    decreases MAX_DEPTH + 1 - depth, 0nat, 0nat,
{
    let ghost all = targets.deep_view();
    let mut current = graph;
    let mut i: usize = 0;
    while i < targets.len()
        invariant
            i <= targets@.len(),
            depth <= MAX_DEPTH,
            all == targets.deep_view(),
            walk_targets(dns@, from@, all, 0, graph@, depth as nat) == walk_targets(
                dns@,
                from@,
                all,
                i as nat,
                current@,
                depth as nat,
            ),
        decreases targets@.len() - i,
    {
        let target = &targets[i];
        let ghost before = current@;
        current.edges.push(
            SPFGraphEdge {
                from: String::from_str(from),
                to: target.to.clone(),
                edge_type: target.edge_type.clone(),
            },
        );
        proof {
            assert(current@.edges =~= with_edge(before, from@, target@).edges);
        }
        if depth < MAX_DEPTH {
            match walk_domain(dns, target.to.as_str(), current, depth + 1) {
                GraphProgress::Need(q) => {
                    return GraphProgress::Need(q);
                },
                GraphProgress::Done(next) => {
                    current = next;
                },
            }
        }
        i += 1;
    }
    GraphProgress::Done(current)
}

/// Visits `domain` at depth `depth` and goes on from there.
pub fn walk_domain(dns: &DnsSnapshot, domain: &str, graph: SPFGraph, depth: u32) -> (r:
    GraphProgress)
    requires
        depth <= MAX_DEPTH + 1,
    ensures
        r@ == walk(dns@, domain@, graph@, depth as nat),
    decreases MAX_DEPTH + 1 - depth, 1nat, 0nat,
{
    if depth > MAX_DEPTH {
        return GraphProgress::Done(graph);
    }
    if is_visited(&graph.nodes, domain) {
        let mut marked = graph;
        marked.cyclic = true;
        return GraphProgress::Done(marked);
    }
    match dns.find(RecordKind::Txt, Channel::Resolver, domain) {
        None => GraphProgress::Need(Question::new(RecordKind::Txt, domain)),
        Some(reply) => {
            let txt: Option<String> = match reply {
                Reply::Records(values) => match select_spf_record(values) {
                    Some(text) => Some(text.clone()),
                    None => None,
                },
                Reply::Failed(_) => None,
            };
            let targets = record_targets(&txt);
            let ghost found = txt.deep_view();
            let mut grown = graph;
            grown.lookups = count_lookup(grown.lookups);
            grown.nodes.push(SPFGraphNode { domain: String::from_str(domain), txt });
            proof {
                assert(grown@.nodes =~= with_node(graph@, domain@, found).nodes);
            }
            walk_links(dns, domain, &targets, grown, depth)
        },
    }
}

/// Whether `later` is `earlier` grown: it keeps the nodes and edges of
/// `earlier` at their places and is cyclic if `earlier` is.
pub open spec fn grown_from(later: GraphView, earlier: GraphView) -> bool {
    &&& later.nodes.len() >= earlier.nodes.len()
    &&& later.nodes.take(earlier.nodes.len() as int) == earlier.nodes
    &&& later.edges.len() >= earlier.edges.len()
    &&& later.edges.take(earlier.edges.len() as int) == earlier.edges
    &&& earlier.cyclic ==> later.cyclic
    &&& distinct_domains(earlier.nodes) ==> distinct_domains(later.nodes)
}

/// A graph grown from a graph that has grown from a third has grown from
/// the third.
pub proof fn lemma_grown_from_chain(a: GraphView, b: GraphView, c: GraphView)
    requires
        grown_from(b, a),
        grown_from(c, b),
    ensures
        grown_from(c, a),
{
    assert(c.nodes.take(a.nodes.len() as int) =~= b.nodes.take(a.nodes.len() as int)) by {
        assert forall|i: int| 0 <= i < a.nodes.len() implies c.nodes[i] == b.nodes[i] by {
            assert(c.nodes.take(b.nodes.len() as int)[i] == b.nodes[i]);
        }
    }
    assert(c.edges.take(a.edges.len() as int) =~= b.edges.take(a.edges.len() as int)) by {
        assert forall|i: int| 0 <= i < a.edges.len() implies c.edges[i] == b.edges[i] by {
            assert(c.edges.take(b.edges.len() as int)[i] == b.edges[i]);
        }
    }
}

/// A domain that has a node keeps it as the graph grows.
pub proof fn lemma_visited_stays(later: GraphView, earlier: GraphView, domain: Seq<char>)
    requires
        grown_from(later, earlier),
        visited(earlier.nodes, domain),
    ensures
        visited(later.nodes, domain),
{
    let i = choose|i: int| 0 <= i < earlier.nodes.len() && (#[trigger] earlier.nodes[i]).domain
        == domain;
    assert(later.nodes.take(earlier.nodes.len() as int)[i] == later.nodes[i]);
    assert(later.nodes[i].domain == domain);
}

/// Following references only adds to the graph.
pub proof fn lemma_walk_targets_grows(
    dns: DnsView,
    from: Seq<char>,
    targets: Seq<TargetView>,
    index: nat,
    graph: GraphView,
    depth: nat,
)
    ensures
        walk_targets(dns, from, targets, index, graph, depth) matches WalkView::Done(g)
            ==> grown_from(g, graph),
    decreases MAX_DEPTH + 1 - depth, 0nat, targets.len() - index,
{
    if index >= targets.len() {
        assert(graph.nodes.take(graph.nodes.len() as int) =~= graph.nodes);
        assert(graph.edges.take(graph.edges.len() as int) =~= graph.edges);
    } else {
        let target = targets[index as int];
        let linked = with_edge(graph, from, target);
        assert(grown_from(linked, graph)) by {
            assert(linked.nodes.take(graph.nodes.len() as int) =~= graph.nodes);
            assert(linked.edges.take(graph.edges.len() as int) =~= graph.edges);
        }
        let walked = if depth >= MAX_DEPTH {
            WalkView::Done(linked)
        } else {
            walk(dns, target.to, linked, depth + 1)
        };
        if depth < MAX_DEPTH {
            lemma_walk_grows(dns, target.to, linked, depth + 1);
        } else {
            assert(linked.nodes.take(linked.nodes.len() as int) =~= linked.nodes);
            assert(linked.edges.take(linked.edges.len() as int) =~= linked.edges);
        }
        match walked {
            WalkView::Need(q) => {},
            WalkView::Done(next) => {
                lemma_grown_from_chain(graph, linked, next);
                lemma_walk_targets_grows(dns, from, targets, index + 1, next, depth);
                match walk_targets(dns, from, targets, index + 1, next, depth) {
                    WalkView::Done(g) => {
                        lemma_grown_from_chain(graph, next, g);
                    },
                    _ => {},
                }
            },
        }
    }
}

/// A walk only adds to the graph: the nodes and edges it found stay where
/// they are, a graph once cyclic stays cyclic, and no domain gets a second
/// node. A domain visited within the depth has a node afterwards.
pub proof fn lemma_walk_grows(dns: DnsView, domain: Seq<char>, graph: GraphView, depth: nat)
    ensures
        walk(dns, domain, graph, depth) matches WalkView::Done(g) ==> grown_from(g, graph) && (
        depth <= MAX_DEPTH ==> visited(g.nodes, domain)),
    decreases MAX_DEPTH + 1 - depth, 1nat, 0nat,
{
    assert(graph.nodes.take(graph.nodes.len() as int) =~= graph.nodes);
    assert(graph.edges.take(graph.edges.len() as int) =~= graph.edges);
    if depth > MAX_DEPTH {
    } else if visited(graph.nodes, domain) {
    } else {
        match dns.answer(ask(RecordKind::Txt, domain)) {
            None => {},
            Some(reply) => {
                let txt = selected_record(reply.values());
                let added = with_node(graph, domain, txt);
                assert(grown_from(added, graph)) by {
                    assert(added.nodes.take(graph.nodes.len() as int) =~= graph.nodes);
                    if distinct_domains(graph.nodes) {
                        assert forall|i: int, j: int| 0 <= i < j < added.nodes.len() implies (
                        #[trigger] added.nodes[i]).domain != (#[trigger] added.nodes[j]).domain by {
                            if j < graph.nodes.len() {
                                assert(added.nodes[i] == graph.nodes[i]);
                                assert(added.nodes[j] == graph.nodes[j]);
                            } else {
                                assert(added.nodes[i] == graph.nodes[i]);
                            }
                        }
                    }
                }
                assert(visited(added.nodes, domain)) by {
                    assert(added.nodes[graph.nodes.len() as int].domain == domain);
                }
                lemma_walk_targets_grows(dns, domain, targets_of(txt), 0, added, depth);
                match walk_targets(dns, domain, targets_of(txt), 0, added, depth) {
                    WalkView::Done(g) => {
                        lemma_grown_from_chain(graph, added, g);
                        lemma_visited_stays(g, added, domain);
                    },
                    _ => {},
                }
            },
        }
    }
}

/// Where one of the references from position `index` on leads to a domain
/// that has a node already, following them leaves the graph cyclic.
pub proof fn lemma_reference_back(
    dns: DnsView,
    from: Seq<char>,
    targets: Seq<TargetView>,
    index: nat,
    graph: GraphView,
    depth: nat,
    back: int,
)
    requires
        depth < MAX_DEPTH,
        index <= back < targets.len(),
        visited(graph.nodes, targets[back].to),
    ensures
        walk_targets(dns, from, targets, index, graph, depth) matches WalkView::Done(g)
            ==> g.cyclic,
    decreases targets.len() - index,
{
    let target = targets[index as int];
    let linked = with_edge(graph, from, target);
    assert(linked.nodes == graph.nodes);
    lemma_walk_grows(dns, target.to, linked, depth + 1);
    match walk(dns, target.to, linked, depth + 1) {
        WalkView::Need(q) => {},
        WalkView::Done(next) => {
            lemma_walk_targets_grows(dns, from, targets, index + 1, next, depth);
            if index == back {
                assert(next.cyclic);
            } else {
                lemma_visited_stays(next, linked, targets[back].to);
                lemma_reference_back(dns, from, targets, index + 1, next, depth, back);
            }
        },
    }
}

/// A walk from a domain whose own policy refers back to it ends with a graph
/// that is cyclic and holds exactly one node for that domain.
pub proof fn lemma_self_reference(dns: DnsView, domain: Seq<char>, back: int, g: GraphView)
    requires
        dns.answer(ask(RecordKind::Txt, domain)) is Some,
        0 <= back < targets_of(
            selected_record(dns.answer(ask(RecordKind::Txt, domain))->0.values()),
        ).len(),
        targets_of(selected_record(dns.answer(ask(RecordKind::Txt, domain))->0.values()))[back].to
            == domain,
        walk(dns, domain, empty_graph(), 0) == WalkView::Done(g),
    ensures
        g.cyclic,
        g.nodes.len() > 0,
        g.nodes[0].domain == domain,
        forall|i: int| 0 < i < g.nodes.len() ==> (#[trigger] g.nodes[i]).domain != domain,
{
    let txt = selected_record(dns.answer(ask(RecordKind::Txt, domain))->0.values());
    let first = with_node(empty_graph(), domain, txt);
    assert(!visited(empty_graph().nodes, domain));
    assert(first.nodes[0].domain == domain);
    assert(visited(first.nodes, domain));
    assert(distinct_domains(first.nodes));
    lemma_reference_back(dns, domain, targets_of(txt), 0, first, 0, back);
    lemma_walk_targets_grows(dns, domain, targets_of(txt), 0, first, 0);
    assert(g.nodes.take(1)[0] == g.nodes[0]);
}

/// Builds the graph of the policies that `domain`'s policy reaches, as far as
/// the answers in `dns` allow: `Need` with the first record on the way that
/// `dns` does not hold, else the finished graph.
///
/// The walk is depth first from `domain` and goes at most [`MAX_DEPTH`]
/// references deep. A lookup that failed counts like an answer without a
/// policy. In the finished graph the root comes first and no domain has two
/// nodes.
pub fn build_spf_graph(dns: &DnsSnapshot, domain: &str) -> (r: GraphProgress)
    ensures
        r@ == walk(dns@, domain@, empty_graph(), 0),
        r matches GraphProgress::Done(g) ==> {
            &&& distinct_domains(g@.nodes)
            &&& g@.nodes.len() > 0
            &&& g@.nodes[0].domain == domain@
            &&& counts_nodes(g@)
            &&& edges_from_nodes(g@)
        },
{
    let graph = SPFGraph { nodes: Vec::new(), edges: Vec::new(), lookups: 0, cyclic: false };
    proof {
        assert(graph@.nodes =~= empty_graph().nodes);
        assert(graph@.edges =~= empty_graph().edges);
        lemma_walk_grows(dns@, domain@, empty_graph(), 0);
        lemma_root_first(dns@, domain@);
        lemma_walk_counts(dns@, domain@, empty_graph(), 0);
    }
    walk_domain(dns, domain, graph, 0)
}

/// The finished graph begins with the node of the domain that the walk
/// started from.
pub proof fn lemma_root_first(dns: DnsView, domain: Seq<char>)
    ensures
        walk(dns, domain, empty_graph(), 0) matches WalkView::Done(g) ==> g.nodes.len() > 0
            && g.nodes[0].domain == domain,
{
    assert(!visited(empty_graph().nodes, domain));
    match dns.answer(ask(RecordKind::Txt, domain)) {
        None => {},
        Some(reply) => {
            let txt = selected_record(reply.values());
            let first = with_node(empty_graph(), domain, txt);
            lemma_walk_targets_grows(dns, domain, targets_of(txt), 0, first, 0);
            match walk_targets(dns, domain, targets_of(txt), 0, first, 0) {
                WalkView::Done(g) => {
                    assert(g.nodes.take(1)[0] == g.nodes[0]);
                    assert(first.nodes[0].domain == domain);
                },
                _ => {},
            }
        },
    }
}

/// A question that following references asks has no answer.
pub proof fn lemma_walk_targets_asks_new(
    dns: DnsView,
    from: Seq<char>,
    targets: Seq<TargetView>,
    index: nat,
    graph: GraphView,
    depth: nat,
)
    ensures
        walk_targets(dns, from, targets, index, graph, depth) matches WalkView::Need(q)
            ==> dns.answer(q) is None,
    decreases MAX_DEPTH + 1 - depth, 0nat, targets.len() - index,
{
    if index < targets.len() {
        let target = targets[index as int];
        let linked = with_edge(graph, from, target);
        if depth < MAX_DEPTH {
            lemma_walk_asks_new(dns, target.to, linked, depth + 1);
        }
        let walked = if depth >= MAX_DEPTH {
            WalkView::Done(linked)
        } else {
            walk(dns, target.to, linked, depth + 1)
        };
        match walked {
            WalkView::Done(next) => {
                lemma_walk_targets_asks_new(dns, from, targets, index + 1, next, depth);
            },
            _ => {},
        }
    }
}

/// A walk asks only for what the snapshot cannot answer: recording the reply
/// to the question it names always takes it further.
pub proof fn lemma_walk_asks_new(dns: DnsView, domain: Seq<char>, graph: GraphView, depth: nat)
    ensures
        walk(dns, domain, graph, depth) matches WalkView::Need(q) ==> dns.answer(q) is None,
    decreases MAX_DEPTH + 1 - depth, 1nat, 0nat,
{
    if depth <= MAX_DEPTH && !visited(graph.nodes, domain) {
        match dns.answer(ask(RecordKind::Txt, domain)) {
            Some(reply) => {
                let txt = selected_record(reply.values());
                lemma_walk_targets_asks_new(
                    dns,
                    domain,
                    targets_of(txt),
                    0,
                    with_node(graph, domain, txt),
                    depth,
                );
            },
            None => {},
        }
    }
}

/// References that have been followed to the end lead to the same graph
/// whatever is recorded afterwards.
pub proof fn lemma_walk_targets_settled(
    dns: DnsView,
    question: QuestionView,
    reply: ReplyView,
    from: Seq<char>,
    targets: Seq<TargetView>,
    index: nat,
    graph: GraphView,
    depth: nat,
)
    ensures
        walk_targets(dns, from, targets, index, graph, depth) is Done ==> walk_targets(
            dns.with(question, reply),
            from,
            targets,
            index,
            graph,
            depth,
        ) == walk_targets(dns, from, targets, index, graph, depth),
    decreases MAX_DEPTH + 1 - depth, 0nat, targets.len() - index,
{
    if index < targets.len() {
        let target = targets[index as int];
        let linked = with_edge(graph, from, target);
        if depth < MAX_DEPTH {
            lemma_walk_settled(dns, question, reply, target.to, linked, depth + 1);
        }
        let walked = if depth >= MAX_DEPTH {
            WalkView::Done(linked)
        } else {
            walk(dns, target.to, linked, depth + 1)
        };
        match walked {
            WalkView::Done(next) => {
                lemma_walk_targets_settled(
                    dns,
                    question,
                    reply,
                    from,
                    targets,
                    index + 1,
                    next,
                    depth,
                );
            },
            _ => {},
        }
    }
}

/// A walk that has ended ends with the same graph whatever is recorded
/// afterwards.
pub proof fn lemma_walk_settled(
    dns: DnsView,
    question: QuestionView,
    reply: ReplyView,
    domain: Seq<char>,
    graph: GraphView,
    depth: nat,
)
    ensures
        walk(dns, domain, graph, depth) is Done ==> walk(
            dns.with(question, reply),
            domain,
            graph,
            depth,
        ) == walk(dns, domain, graph, depth),
    decreases MAX_DEPTH + 1 - depth, 1nat, 0nat,
{
    if depth <= MAX_DEPTH && !visited(graph.nodes, domain) {
        lemma_record(dns, question, reply, ask(RecordKind::Txt, domain));
        match dns.answer(ask(RecordKind::Txt, domain)) {
            Some(found) => {
                let txt = selected_record(found.values());
                lemma_walk_targets_settled(
                    dns,
                    question,
                    reply,
                    domain,
                    targets_of(txt),
                    0,
                    with_node(graph, domain, txt),
                    depth,
                );
            },
            None => {},
        }
    }
}

/// Whether every edge of `graph` starts at a domain that has a node.
pub open spec fn edges_from_nodes(graph: GraphView) -> bool {
    forall|i: int| 0 <= i < graph.edges.len() ==> visited(graph.nodes, (#[trigger] graph.edges[i]).from)
}

/// Whether the count of lookups is the number of nodes, as far as the count
/// can hold it.
pub open spec fn counts_nodes(graph: GraphView) -> bool {
    graph.lookups == if graph.nodes.len() <= u32::MAX {
        graph.nodes.len() as u32
    } else {
        u32::MAX
    }
}

/// Following references counts one lookup for each node that it adds, and
/// every edge that it adds starts at a node.
pub proof fn lemma_walk_targets_counts(
    dns: DnsView,
    from: Seq<char>,
    targets: Seq<TargetView>,
    index: nat,
    graph: GraphView,
    depth: nat,
)
    requires
        counts_nodes(graph),
        edges_from_nodes(graph),
        visited(graph.nodes, from),
    ensures
        walk_targets(dns, from, targets, index, graph, depth) matches WalkView::Done(g)
            ==> counts_nodes(g) && edges_from_nodes(g),
    decreases MAX_DEPTH + 1 - depth, 0nat, targets.len() - index,
{
    if index < targets.len() {
        let target = targets[index as int];
        let linked = with_edge(graph, from, target);
        assert(edges_from_nodes(linked)) by {
            assert forall|i: int| 0 <= i < linked.edges.len() implies visited(
                linked.nodes,
                (#[trigger] linked.edges[i]).from,
            ) by {
                if i < graph.edges.len() {
                    assert(linked.edges[i] == graph.edges[i]);
                }
            }
        }
        if depth < MAX_DEPTH {
            lemma_walk_counts(dns, target.to, linked, depth + 1);
            lemma_walk_grows(dns, target.to, linked, depth + 1);
        }
        let walked = if depth >= MAX_DEPTH {
            WalkView::Done(linked)
        } else {
            walk(dns, target.to, linked, depth + 1)
        };
        match walked {
            WalkView::Done(next) => {
                if depth < MAX_DEPTH {
                    lemma_visited_stays(next, linked, from);
                }
                lemma_walk_targets_counts(dns, from, targets, index + 1, next, depth);
            },
            _ => {},
        }
    }
}

/// A walk counts one lookup for each node that it adds, and every edge that
/// it adds starts at a node.
pub proof fn lemma_walk_counts(dns: DnsView, domain: Seq<char>, graph: GraphView, depth: nat)
    requires
        counts_nodes(graph),
        edges_from_nodes(graph),
    ensures
        walk(dns, domain, graph, depth) matches WalkView::Done(g) ==> counts_nodes(g)
            && edges_from_nodes(g),
    decreases MAX_DEPTH + 1 - depth, 1nat, 0nat,
{
    if depth <= MAX_DEPTH && !visited(graph.nodes, domain) {
        match dns.answer(ask(RecordKind::Txt, domain)) {
            Some(reply) => {
                let txt = selected_record(reply.values());
                let added = with_node(graph, domain, txt);
                assert(visited(added.nodes, domain)) by {
                    assert(added.nodes[graph.nodes.len() as int].domain == domain);
                }
                assert(edges_from_nodes(added)) by {
                    assert forall|i: int| 0 <= i < added.edges.len() implies visited(
                        added.nodes,
                        (#[trigger] added.edges[i]).from,
                    ) by {
                        let k = choose|k: int|
                            0 <= k < graph.nodes.len() && (#[trigger] graph.nodes[k]).domain
                                == graph.edges[i].from;
                        assert(added.nodes[k] == graph.nodes[k]);
                    }
                }
                lemma_walk_targets_counts(dns, domain, targets_of(txt), 0, added, depth);
            },
            None => {},
        }
    }
}

} // verus!
