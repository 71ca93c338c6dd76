//! The filter graph: building, configuring, and running a directed graph
//! of media-transform nodes.
//!
//! A graph is built by instantiating filters as nodes and linking their
//! pads, or by parsing a textual filter chain into nodes plus records of
//! its unconnected pads, which the caller then links to its own boundary
//! nodes. `config` validates the whole graph — it must be non-empty, every
//! pad of every node connected exactly once, every node fed from a source
//! whose declared pixel format the node accepts — and propagates each
//! source's format and hardware-frame-pool attachment downstream; only a
//! configured graph moves frames. Frames enter at source nodes and leave
//! at sink nodes in order, with explicit would-block backpressure, and the
//! graph takes its own reference to each injected frame's payload so the
//! caller's handle stays valid.

use vstd::prelude::*;

use crate::buffer::{AVBufferRef, BufferArena};
use crate::codec::AVPixelFormat;
use crate::codec_context::{AVFrame, FrameData, PullResult, PushResult};
use crate::dict::{copy_range, AVDictionary, AV_DICT_MULTIKEY};
use crate::errors::AVERROR_EINVAL;
use crate::hw::{contains_format, copy_formats, AVHWDeviceContext, AVHWFramesContext};

verus! {

/// How many injected frames one source node buffers before `add_frame`
/// answers WouldBlock.
pub const FILTER_QUEUE_CAPACITY: usize = 16;

/// An immutable filter descriptor, looked up by name from the filter
/// registry.
pub struct AVFilter {
    pub name: Vec<u8>,
    pub n_in_pads: usize,
    pub n_out_pads: usize,
    /// The pixel formats the filter declares it accepts; empty means any.
    pub supported_formats: Vec<AVPixelFormat>,
}

/// The registry of filter descriptors.
pub struct FilterRegistry {
    pub filters: Vec<AVFilter>,
}

/// Index of the first registered filter with this name at or after `i`,
/// or `s.len()` if there is none.
pub open spec fn find_filter(s: Seq<AVFilter>, name: Seq<u8>, i: int) -> int
    decreases s.len() - i,
{
    if 0 <= i < s.len() {
        if s[i].name@ == name {
            i
        } else {
            find_filter(s, name, i + 1)
        }
    } else {
        s.len() as int
    }
}

/// Bounds and meaning of `find_filter`.
pub proof fn lemma_find_filter_props(s: Seq<AVFilter>, name: Seq<u8>, i: int)
    requires
        0 <= i <= s.len(),
    ensures
        i <= find_filter(s, name, i) <= s.len(),
        find_filter(s, name, i) < s.len() ==> s[find_filter(s, name, i)].name@ == name,
        forall|j: int| i <= j < find_filter(s, name, i) ==> (#[trigger] s[j]).name@ != name,
    decreases s.len() - i,
{
    if i < s.len() && s[i].name@ != name {
        lemma_find_filter_props(s, name, i + 1);
    }
}

/// `find_filter` is pinned down by any witness to a first hit.
proof fn lemma_find_filter_pin(s: Seq<AVFilter>, name: Seq<u8>, from: int, i: int)
    requires
        0 <= from <= i <= s.len(),
        forall|j: int| from <= j < i ==> (#[trigger] s[j]).name@ != name,
        i < s.len() ==> s[i].name@ == name,
    ensures
        find_filter(s, name, from) == i,
    decreases i - from,
{
    if from < i {
        lemma_find_filter_pin(s, name, from + 1, i);
    }
}

impl AVFilter {
    /// The first registered filter with this name, as an owned descriptor,
    /// or an error when the registry has none.
    pub fn get_by_name(registry: &FilterRegistry, name: &[u8]) -> (r: Result<AVFilter, ()>)
        ensures
            ({
                let m = find_filter(registry.filters@, name@, 0);
                match r {
                    Ok(f) => m < registry.filters@.len() && f.name@ == registry.filters@[m].name@
                        && f.n_in_pads == registry.filters@[m].n_in_pads && f.n_out_pads
                        == registry.filters@[m].n_out_pads && f.supported_formats@
                        == registry.filters@[m].supported_formats@,
                    Err(_) => m == registry.filters@.len(),
                }
            }),
    {
        let n = registry.filters.len();
        let mut i: usize = 0;
        while i < n
            invariant
                n == registry.filters@.len(),
                0 <= i <= n,
                forall|j: int| 0 <= j < i ==> (#[trigger] registry.filters@[j]).name@ != name@,
            decreases n - i,
        {
            if crate::dict::bytes_eq(registry.filters[i].name.as_slice(), name) {
                proof {
                    lemma_find_filter_pin(registry.filters@, name@, 0, i as int);
                }
                let f = &registry.filters[i];
                return Ok(
                    AVFilter {
                        name: copy_range(f.name.as_slice(), 0, f.name.len()),
                        n_in_pads: f.n_in_pads,
                        n_out_pads: f.n_out_pads,
                        supported_formats: copy_formats(&f.supported_formats),
                    },
                );
            }
            i += 1;
        }
        proof {
            lemma_find_filter_pin(registry.filters@, name@, 0, n as int);
        }
        Err(())
    }
}

/// One unconnected pad produced by parsing a filter chain: the node, the
/// pad index on it, and a label.
pub struct FilterPad {
    pub name: Vec<u8>,
    pub filter_ctx: usize,
    pub pad_idx: usize,
}

/// The transient records of unconnected pads between `parse_str` and the
/// caller's linking.
pub struct AVFilterInOut {
    pub pads: Vec<FilterPad>,
}

impl AVFilterInOut {
    /// An empty record list.
    pub fn new() -> (r: Self)
        ensures
            r.pads@.len() == 0,
    {
        AVFilterInOut { pads: Vec::new() }
    }
}

/// A handle to one node inside a filter graph.
pub struct AVFilterContext {
    pub node: usize,
}

/// One instantiated node: the descriptor data it was created from, its
/// instance name and argument text, and whether it has been detached.
pub struct FilterNode {
    pub name: Vec<u8>,
    pub filter_name: Vec<u8>,
    pub n_in_pads: usize,
    pub n_out_pads: usize,
    pub supported_formats: Vec<AVPixelFormat>,
    pub args: Vec<u8>,
    pub removed: bool,
}

/// A directed connection from one node's output pad to another node's
/// input pad.
#[derive(Clone, Copy, PartialEq, Eq, Structural)]
pub struct FilterEdge {
    pub src: usize,
    pub src_pad: usize,
    pub dst: usize,
    pub dst_pad: usize,
}

/// The graph's build states.
#[derive(Clone, Copy, PartialEq, Eq, Structural, Debug)]
pub enum GraphState {
    /// Nodes and edges may still change; no frame moves.
    Built,
    /// Validated and negotiated; frames may move.
    Configured,
}

/// Whether an edge connects existing pads of existing, attached nodes.
pub open spec fn edge_valid(nodes: Seq<FilterNode>, e: FilterEdge) -> bool {
    &&& e.src < nodes.len()
    &&& e.dst < nodes.len()
    &&& !nodes[e.src as int].removed
    &&& !nodes[e.dst as int].removed
    &&& e.src_pad < nodes[e.src as int].n_out_pads
    &&& e.dst_pad < nodes[e.dst as int].n_in_pads
}

/// How many edges enter pad `pad` of node `v`.
pub open spec fn count_in(edges: Seq<FilterEdge>, v: int, pad: int) -> int
    decreases edges.len(),
{
    if edges.len() == 0 {
        0
    } else {
        (if edges[0].dst == v && edges[0].dst_pad == pad {
            1int
        } else {
            0int
        }) + count_in(edges.drop_first(), v, pad)
    }
}

/// How many edges leave pad `pad` of node `v`.
pub open spec fn count_out(edges: Seq<FilterEdge>, v: int, pad: int) -> int
    decreases edges.len(),
{
    if edges.len() == 0 {
        0
    } else {
        (if edges[0].src == v && edges[0].src_pad == pad {
            1int
        } else {
            0int
        }) + count_out(edges.drop_first(), v, pad)
    }
}

/// Index of the first edge entering input pad zero of node `v`, or
/// `edges.len()` if there is none.
pub open spec fn first_in_edge(edges: Seq<FilterEdge>, v: int, i: int) -> int
    decreases edges.len() - i,
{
    if 0 <= i < edges.len() {
        if edges[i].dst == v && edges[i].dst_pad == 0 {
            i
        } else {
            first_in_edge(edges, v, i + 1)
        }
    } else {
        edges.len() as int
    }
}

/// Bounds and meaning of `first_in_edge`.
pub proof fn lemma_first_in_edge_props(edges: Seq<FilterEdge>, v: int, i: int)
    requires
        0 <= i <= edges.len(),
    ensures
        i <= first_in_edge(edges, v, i) <= edges.len(),
        first_in_edge(edges, v, i) < edges.len() ==> {
            let k = first_in_edge(edges, v, i);
            edges[k].dst == v && edges[k].dst_pad == 0
        },
        forall|j: int|
            i <= j < first_in_edge(edges, v, i) ==> !((#[trigger] edges[j]).dst == v
                && edges[j].dst_pad == 0),
    decreases edges.len() - i,
{
    if i < edges.len() && !(edges[i].dst == v && edges[i].dst_pad == 0) {
        lemma_first_in_edge_props(edges, v, i + 1);
    }
}

/// `first_in_edge` is pinned down by any witness to a first hit.
proof fn lemma_first_in_edge_pin(edges: Seq<FilterEdge>, v: int, from: int, i: int)
    requires
        0 <= from <= i <= edges.len(),
        forall|j: int| from <= j < i ==> !((#[trigger] edges[j]).dst == v && edges[j].dst_pad == 0),
        i < edges.len() ==> edges[i].dst == v && edges[i].dst_pad == 0,
    ensures
        first_in_edge(edges, v, from) == i,
    decreases i - from,
{
    if from < i {
        lemma_first_in_edge_pin(edges, v, from + 1, i);
    }
}

/// The source node that feeds node `v`, found by walking input pad zero
/// upstream: a node without input pads is its own source; the walk gives
/// up when it runs out of fuel (a cycle) or hits an unconnected pad.
pub open spec fn origin_of(nodes: Seq<FilterNode>, edges: Seq<FilterEdge>, v: int, fuel: nat) -> Option<
    int,
>
    decreases fuel,
{
    if !(0 <= v < nodes.len()) {
        None
    } else if nodes[v].n_in_pads == 0 {
        Some(v)
    } else if fuel == 0 {
        None
    } else {
        let k = first_in_edge(edges, v, 0);
        if k == edges.len() {
            None
        } else {
            origin_of(nodes, edges, edges[k].src as int, (fuel - 1) as nat)
        }
    }
}

/// Whether a node accepts frames of format `f`: its declared constraint
/// list is empty (any format) or contains `f`.
pub open spec fn format_compatible(node: FilterNode, f: AVPixelFormat) -> bool {
    node.supported_formats@.len() == 0 || node.supported_formats@.contains(f)
}

/// Whether the whole graph configures: it has at least one attached node;
/// every pad of every attached node is connected exactly once; and every
/// attached node is fed from a source that declared a pixel format the
/// node accepts.
pub open spec fn graph_config_ok(
    nodes: Seq<FilterNode>,
    edges: Seq<FilterEdge>,
    formats: Seq<i32>,
) -> bool {
    &&& exists|v: int| 0 <= v < nodes.len() && !(#[trigger] nodes[v]).removed
    &&& forall|v: int, pad: int|
        0 <= v < nodes.len() && !nodes[v].removed && 0 <= pad < nodes[v].n_in_pads ==> #[trigger] count_in(
            edges,
            v,
            pad,
        ) == 1
    &&& forall|v: int, pad: int|
        0 <= v < nodes.len() && !nodes[v].removed && 0 <= pad < nodes[v].n_out_pads
            ==> #[trigger] count_out(edges, v, pad) == 1
    &&& forall|v: int|
        0 <= v < nodes.len() && !(#[trigger] nodes[v]).removed ==> {
            let o = origin_of(nodes, edges, v, nodes.len());
            &&& o is Some
            &&& formats[o.unwrap()] >= 0
            &&& format_compatible(nodes[v], formats[o.unwrap()])
        }
}

/// A graph that holds no attached node never configures.
pub proof fn lemma_config_fails_on_empty(
    nodes: Seq<FilterNode>,
    edges: Seq<FilterEdge>,
    formats: Seq<i32>,
)
    requires
        forall|v: int| 0 <= v < nodes.len() ==> (#[trigger] nodes[v]).removed,
    ensures
        !graph_config_ok(nodes, edges, formats),
{
}

/// A graph with any unconnected pad never configures: one attached node
/// with an output pad no edge leaves, or an input pad no edge enters, is
/// enough to fail it.
pub proof fn lemma_config_fails_unconnected(
    nodes: Seq<FilterNode>,
    edges: Seq<FilterEdge>,
    formats: Seq<i32>,
    v: int,
    pad: int,
)
    requires
        0 <= v < nodes.len(),
        !nodes[v].removed,
        (0 <= pad < nodes[v].n_out_pads && count_out(edges, v, pad) != 1) || (0 <= pad
            < nodes[v].n_in_pads && count_in(edges, v, pad) != 1),
    ensures
        !graph_config_ok(nodes, edges, formats),
{
}

/// Hardware parameters attached to a source node before configuration:
/// the declared frame format, dimensions, and the frame pool the frames
/// will live in.
pub struct AVBufferSrcParameters {
    pub format: AVPixelFormat,
    pub width: i32,
    pub height: i32,
    pub hw_frames_ctx: Option<usize>,
}

impl AVBufferSrcParameters {
    /// Fresh parameters with nothing set.
    pub fn new() -> (p: Self)
        ensures
            p.format == -1,
            p.width == 0,
            p.height == 0,
            p.hw_frames_ctx is None,
    {
        AVBufferSrcParameters { format: -1, width: 0, height: 0, hw_frames_ctx: None }
    }

    /// Attaches a frame pool: frames injected at the source will live in
    /// the pool behind this reference.
    pub fn set_hw_frames_context(&mut self, buf: &AVBufferRef<AVHWFramesContext>)
        ensures
            final(self).hw_frames_ctx == Some(buf.slot),
            final(self).format == old(self).format,
            final(self).width == old(self).width,
            final(self).height == old(self).height,
    {
        self.hw_frames_ctx = Some(buf.slot);
    }
}

/// One frame in flight inside a configured graph: the source node it was
/// injected at, its timestamp, and the shared payload slot the graph holds
/// a reference to.
#[derive(Clone, Copy, PartialEq, Eq, Structural)]
pub struct PendingFrame {
    pub node: usize,
    pub pts: i64,
    pub payload_slot: Option<usize>,
}

/// The edges that remain when node `v` is detached: every edge not
/// touching `v`, in order.
pub open spec fn drop_edges(s: Seq<FilterEdge>, v: int) -> Seq<FilterEdge>
    decreases s.len(),
{
    if s.len() == 0 {
        Seq::empty()
    } else if s[0].src == v || s[0].dst == v {
        drop_edges(s.drop_first(), v)
    } else {
        seq![s[0]] + drop_edges(s.drop_first(), v)
    }
}

/// How many pending frames sit at source node `v`.
pub open spec fn count_node(pending: Seq<PendingFrame>, v: int) -> int
    decreases pending.len(),
{
    if pending.len() == 0 {
        0
    } else {
        (if pending[0].node == v {
            1int
        } else {
            0int
        }) + count_node(pending.drop_first(), v)
    }
}

/// Index of the oldest pending frame at source node `v`, or
/// `pending.len()` if there is none.
pub open spec fn first_pending(pending: Seq<PendingFrame>, v: int, i: int) -> int
    decreases pending.len() - i,
{
    if 0 <= i < pending.len() {
        if pending[i].node == v {
            i
        } else {
            first_pending(pending, v, i + 1)
        }
    } else {
        pending.len() as int
    }
}

/// `first_pending` is pinned down by any witness to a first hit.
proof fn lemma_first_pending_pin(pending: Seq<PendingFrame>, v: int, from: int, i: int)
    requires
        0 <= from <= i <= pending.len(),
        forall|j: int| from <= j < i ==> (#[trigger] pending[j]).node != v,
        i < pending.len() ==> pending[i].node == v,
    ensures
        first_pending(pending, v, from) == i,
    decreases i - from,
{
    if from < i {
        lemma_first_pending_pin(pending, v, from + 1, i);
    }
}

/// The walk behind `origin_of` only ever stops at a source: a node that
/// exists and has no input pads.
pub proof fn lemma_origin_is_source(
    nodes: Seq<FilterNode>,
    edges: Seq<FilterEdge>,
    v: int,
    fuel: nat,
)
    ensures
        origin_of(nodes, edges, v, fuel) matches Some(s) ==> 0 <= s < nodes.len() && nodes[
            s
        ].n_in_pads == 0,
    decreases fuel,
{
    if 0 <= v < nodes.len() && nodes[v].n_in_pads != 0 && fuel > 0 {
        lemma_first_in_edge_props(edges, v, 0);
        let k = first_in_edge(edges, v, 0);
        if k < edges.len() {
            lemma_origin_is_source(nodes, edges, edges[k].src as int, (fuel - 1) as nat);
            assert(origin_of(nodes, edges, v, fuel) == origin_of(
                nodes,
                edges,
                edges[k].src as int,
                (fuel - 1) as nat,
            ));
        }
    }
}

/// A mutable directed graph of filter nodes, the frames in flight through
/// it, and its build state.
pub struct AVFilterGraph {
    nodes: Vec<FilterNode>,
    edges: Vec<FilterEdge>,
    formats: Vec<i32>,
    hw_slots: Vec<Option<usize>>,
    device_slots: Vec<Option<usize>>,
    finished: Vec<bool>,
    origins: Vec<usize>,
    pending: Vec<PendingFrame>,
    state: GraphState,
}

impl AVFilterGraph {
    /// The nodes, by index.
    pub closed spec fn nodes(&self) -> Seq<FilterNode> {
        self.nodes@
    }

    /// The pad connections.
    pub closed spec fn edges(&self) -> Seq<FilterEdge> {
        self.edges@
    }

    /// Each node's declared (before `config`) or negotiated (after) pixel
    /// format; -1 when unset.
    pub closed spec fn formats(&self) -> Seq<i32> {
        self.formats@
    }

    /// Each node's attached or propagated frame pool slot.
    pub closed spec fn hw_slots(&self) -> Seq<Option<usize>> {
        self.hw_slots@
    }

    /// Each node's attached device connection slot.
    pub closed spec fn device_slots(&self) -> Seq<Option<usize>> {
        self.device_slots@
    }

    /// Whether each source node has been told no more frames will come.
    pub closed spec fn finished(&self) -> Seq<bool> {
        self.finished@
    }

    /// After `config`: the source node feeding each node.
    pub closed spec fn origins(&self) -> Seq<usize> {
        self.origins@
    }

    /// The frames in flight, oldest first.
    pub closed spec fn pending(&self) -> Seq<PendingFrame> {
        self.pending@
    }

    /// The graph's build state.
    pub closed spec fn state(&self) -> GraphState {
        self.state
    }

    /// Well-formed: the per-node columns agree in length, every edge
    /// connects existing pads of attached nodes, every pending frame names
    /// an existing node, and a configured graph knows an existing origin
    /// for every node.
    pub open spec fn wf(&self) -> bool {
        &&& self.formats().len() == self.nodes().len()
        &&& self.hw_slots().len() == self.nodes().len()
        &&& self.device_slots().len() == self.nodes().len()
        &&& self.finished().len() == self.nodes().len()
        &&& self.origins().len() == self.nodes().len()
        &&& forall|k: int|
            0 <= k < self.edges().len() ==> edge_valid(self.nodes(), #[trigger] self.edges()[k])
        &&& forall|k: int|
            0 <= k < self.pending().len() ==> (#[trigger] self.pending()[k]).node
                < self.nodes().len()
        &&& (self.state() == GraphState::Configured ==> forall|v: int|
            0 <= v < self.nodes().len() ==> (#[trigger] self.origins()[v]) < self.nodes().len())
    }

    /// A new, empty graph in the Built state.
    pub fn new() -> (g: Self)
        ensures
            g.wf(),
            g.nodes().len() == 0,
            g.edges().len() == 0,
            g.pending().len() == 0,
            g.state() == GraphState::Built,
    {
        AVFilterGraph {
            nodes: Vec::new(),
            edges: Vec::new(),
            formats: Vec::new(),
            hw_slots: Vec::new(),
            device_slots: Vec::new(),
            finished: Vec::new(),
            origins: Vec::new(),
            pending: Vec::new(),
            state: GraphState::Built,
        }
    }

    /// Instantiates a filter as a new node and returns its handle. The
    /// node takes the descriptor's pads and format constraints, the given
    /// instance name (the filter's own name when none is given) and the
    /// given argument text, whose format is filter-specific and opaque to
    /// this layer: only NUL bytes are rejected, with `AVERROR_EINVAL`, as
    /// is a graph already configured. On failure nothing changes.
    pub fn create_filter(
        &mut self,
        filter: &AVFilter,
        name: Option<&[u8]>,
        args: Option<&[u8]>,
    ) -> (r: Result<AVFilterContext, i32>)
        requires
            old(self).wf(),
        ensures
            final(self).wf(),
            ({
                let bad = old(self).state() != GraphState::Built || (name matches Some(n)
                    && n@.contains(0u8)) || (args matches Some(a) && a@.contains(0u8));
                if bad {
                    r == Err::<AVFilterContext, i32>(AVERROR_EINVAL) && *final(self) == *old(self)
                } else {
                    &&& r matches Ok(ctx) && ctx.node == old(self).nodes().len()
                    &&& final(self).nodes().len() == old(self).nodes().len() + 1
                    &&& forall|i: int|
                        0 <= i < old(self).nodes().len() ==> final(self).nodes()[i] == old(
                            self,
                        ).nodes()[i]
                    &&& ({
                        let node = final(self).nodes().last();
                        &&& node.filter_name@ == filter.name@
                        &&& node.name@ == (match name {
                            Some(n) => n@,
                            None => filter.name@,
                        })
                        &&& node.args@ == (match args {
                            Some(a) => a@,
                            None => Seq::<u8>::empty(),
                        })
                        &&& node.n_in_pads == filter.n_in_pads
                        &&& node.n_out_pads == filter.n_out_pads
                        &&& node.supported_formats@ == filter.supported_formats@
                        &&& !node.removed
                    })
                    &&& final(self).edges() == old(self).edges()
                    &&& final(self).formats() == old(self).formats().push(-1i32)
                    &&& final(self).hw_slots() == old(self).hw_slots().push(None)
                    &&& final(self).device_slots() == old(self).device_slots().push(None)
                    &&& final(self).finished() == old(self).finished().push(false)
                    &&& final(self).pending() == old(self).pending()
                    &&& final(self).state() == GraphState::Built
                }
            }),
    {
        let built = match self.state {
            GraphState::Built => true,
            GraphState::Configured => false,
        };
        if !built {
            return Err(AVERROR_EINVAL);
        }
        let node_name = match name {
            Some(n) => {
                if crate::dict::contains_nul(n) {
                    return Err(AVERROR_EINVAL);
                }
                copy_range(n, 0, n.len())
            },
            None => copy_range(filter.name.as_slice(), 0, filter.name.len()),
        };
        let node_args = match args {
            Some(a) => {
                if crate::dict::contains_nul(a) {
                    return Err(AVERROR_EINVAL);
                }
                copy_range(a, 0, a.len())
            },
            None => Vec::new(),
        };
        let v = self.nodes.len();
        self.nodes.push(
            FilterNode {
                name: node_name,
                filter_name: copy_range(filter.name.as_slice(), 0, filter.name.len()),
                n_in_pads: filter.n_in_pads,
                n_out_pads: filter.n_out_pads,
                supported_formats: copy_formats(&filter.supported_formats),
                args: node_args,
                removed: false,
            },
        );
        self.formats.push(-1);
        self.hw_slots.push(None);
        self.device_slots.push(None);
        self.finished.push(false);
        self.origins.push(0);
        proof {
            assert forall|k: int| 0 <= k < self.edges@.len() implies edge_valid(
                self.nodes@,
                #[trigger] self.edges@[k],
            ) by {
                let e = old(self).edges()[k];
                assert(edge_valid(old(self).nodes(), e));
                assert(self.edges@[k] == e);
                assert(self.nodes@[e.src as int] == old(self).nodes()[e.src as int]);
                assert(self.nodes@[e.dst as int] == old(self).nodes()[e.dst as int]);
            }
        }
        Ok(AVFilterContext { node: v })
    }

    /// Connects an output pad of one node to an input pad of another.
    /// Succeeds exactly when the graph is still being built and both pads
    /// exist on attached nodes; otherwise fails with `AVERROR_EINVAL`,
    /// changing nothing.
    pub fn link(
        &mut self,
        src: &AVFilterContext,
        src_pad: usize,
        dst: &AVFilterContext,
        dst_pad: usize,
    ) -> (r: Result<(), i32>)
        requires
            old(self).wf(),
        ensures
            final(self).wf(),
            ({
                let e = FilterEdge { src: src.node, src_pad, dst: dst.node, dst_pad };
                if old(self).state() == GraphState::Built && edge_valid(old(self).nodes(), e) {
                    &&& r == Ok::<(), i32>(())
                    &&& final(self).edges() == old(self).edges().push(e)
                    &&& final(self).nodes() == old(self).nodes()
                    &&& final(self).formats() == old(self).formats()
                    &&& final(self).hw_slots() == old(self).hw_slots()
                    &&& final(self).device_slots() == old(self).device_slots()
                    &&& final(self).finished() == old(self).finished()
                    &&& final(self).pending() == old(self).pending()
                    &&& final(self).state() == GraphState::Built
                    &&& final(self).origins() == old(self).origins()
                } else {
                    r == Err::<(), i32>(AVERROR_EINVAL) && *final(self) == *old(self)
                }
            }),
    {
        let built = match self.state {
            GraphState::Built => true,
            GraphState::Configured => false,
        };
        let n = self.nodes.len();
        if !built || src.node >= n || dst.node >= n {
            return Err(AVERROR_EINVAL);
        }
        if self.nodes[src.node].removed || self.nodes[dst.node].removed {
            return Err(AVERROR_EINVAL);
        }
        if src_pad >= self.nodes[src.node].n_out_pads || dst_pad >= self.nodes[dst.node].n_in_pads {
            return Err(AVERROR_EINVAL);
        }
        self.edges.push(FilterEdge { src: src.node, src_pad, dst: dst.node, dst_pad });
        proof {
            assert forall|k: int| 0 <= k < self.edges@.len() implies edge_valid(
                self.nodes@,
                #[trigger] self.edges@[k],
            ) by {
                if k < old(self).edges().len() {
                    assert(self.edges@[k] == old(self).edges()[k]);
                    assert(edge_valid(old(self).nodes(), old(self).edges()[k]));
                }
            }
        }
        Ok(())
    }

    /// Detaches a node, consuming its handle: the node is marked removed
    /// and every edge touching it disappears. On a configured graph or an
    /// unknown or already removed node, nothing changes.
    pub fn remove_from_graph(&mut self, ctx: AVFilterContext)
        requires
            old(self).wf(),
        ensures
            final(self).wf(),
            ({
                let v = ctx.node as int;
                if old(self).state() == GraphState::Built && ctx.node < old(self).nodes().len()
                    && !old(self).nodes()[v].removed {
                    &&& final(self).nodes().len() == old(self).nodes().len()
                    &&& forall|i: int|
                        0 <= i < old(self).nodes().len() && i != v ==> final(self).nodes()[i]
                            == old(self).nodes()[i]
                    &&& final(self).nodes()[v].removed
                    &&& final(self).nodes()[v].n_in_pads == old(self).nodes()[v].n_in_pads
                    &&& final(self).nodes()[v].n_out_pads == old(self).nodes()[v].n_out_pads
                    &&& final(self).edges() == drop_edges(old(self).edges(), v)
                    &&& final(self).formats() == old(self).formats()
                    &&& final(self).hw_slots() == old(self).hw_slots()
                    &&& final(self).device_slots() == old(self).device_slots()
                    &&& final(self).finished() == old(self).finished()
                    &&& final(self).origins() == old(self).origins()
                    &&& final(self).pending() == old(self).pending()
                    &&& final(self).state() == GraphState::Built
                } else {
                    *final(self) == *old(self)
                }
            }),
    {
        let built = match self.state {
            GraphState::Built => true,
            GraphState::Configured => false,
        };
        let v = ctx.node;
        if !built || v >= self.nodes.len() || self.nodes[v].removed {
            return ;
        }
        let n_edges = self.edges.len();
        let mut kept: Vec<FilterEdge> = Vec::new();
        let mut i: usize = 0;
        proof {
            assert(self.edges@.skip(0) =~= self.edges@);
        }
        while i < n_edges
            invariant
                n_edges == self.edges@.len(),
                0 <= i <= n_edges,
                kept@ + drop_edges(self.edges@.skip(i as int), v as int) == drop_edges(
                    self.edges@,
                    v as int,
                ),
                forall|k: int|
                    0 <= k < kept@.len() ==> (#[trigger] kept@[k]).src != v && kept@[k].dst != v
                        && self.edges@.contains(kept@[k]),
            decreases n_edges - i,
        {
            let e = self.edges[i];
            proof {
                assert(self.edges@.skip(i as int)[0] == e);
                assert(self.edges@.skip(i as int).drop_first() =~= self.edges@.skip(i + 1));
            }
            if e.src != v && e.dst != v {
                kept.push(e);
                proof {
                    assert(self.edges@.contains(e)) by {
                        assert(self.edges@[i as int] == e);
                    }
                    assert(kept@ + drop_edges(self.edges@.skip(i + 1), v as int) =~= drop_edges(
                        self.edges@,
                        v as int,
                    ));
                }
            }
            i += 1;
        }
        proof {
            assert(self.edges@.skip(n_edges as int) =~= Seq::<FilterEdge>::empty());
            assert(kept@ =~= drop_edges(self.edges@, v as int));
        }
        let old_node = &self.nodes[v];
        let new_node = FilterNode {
            name: copy_range(old_node.name.as_slice(), 0, old_node.name.len()),
            filter_name: copy_range(old_node.filter_name.as_slice(), 0, old_node.filter_name.len()),
            n_in_pads: old_node.n_in_pads,
            n_out_pads: old_node.n_out_pads,
            supported_formats: copy_formats(&old_node.supported_formats),
            args: copy_range(old_node.args.as_slice(), 0, old_node.args.len()),
            removed: true,
        };
        self.nodes.set(v, new_node);
        self.edges = kept;
        proof {
            assert forall|k: int| 0 <= k < self.edges@.len() implies edge_valid(
                self.nodes@,
                #[trigger] self.edges@[k],
            ) by {
                let e = self.edges@[k];
                assert(old(self).edges().contains(e));
                let j = choose|j: int|
                    0 <= j < old(self).edges().len() && old(self).edges()[j] == e;
                assert(edge_valid(old(self).nodes(), e));
            }
        }
    }

    /// Attaches declared frame parameters to a source node before
    /// configuration: its pixel format and, for accelerator frames, the
    /// frame pool negotiation must resolve. Fails with `AVERROR_EINVAL`,
    /// changing nothing, on a configured graph or a node that is missing,
    /// removed, or not a source.
    pub fn buffersrc_set(&mut self, ctx: &AVFilterContext, par: &AVBufferSrcParameters) -> (r:
        Result<(), i32>)
        requires
            old(self).wf(),
        ensures
            final(self).wf(),
            ({
                let v = ctx.node as int;
                if old(self).state() == GraphState::Built && ctx.node < old(self).nodes().len()
                    && !old(self).nodes()[v].removed && old(self).nodes()[v].n_in_pads == 0 {
                    &&& r == Ok::<(), i32>(())
                    &&& final(self).formats() == old(self).formats().update(v, par.format)
                    &&& final(self).hw_slots() == old(self).hw_slots().update(v, par.hw_frames_ctx)
                    &&& final(self).nodes() == old(self).nodes()
                    &&& final(self).edges() == old(self).edges()
                    &&& final(self).device_slots() == old(self).device_slots()
                    &&& final(self).finished() == old(self).finished()
                    &&& final(self).pending() == old(self).pending()
                    &&& final(self).state() == old(self).state()
                    &&& final(self).origins() == old(self).origins()
                } else {
                    r == Err::<(), i32>(AVERROR_EINVAL) && *final(self) == *old(self)
                }
            }),
    {
        let built = match self.state {
            GraphState::Built => true,
            GraphState::Configured => false,
        };
        let v = ctx.node;
        if !built || v >= self.nodes.len() || self.nodes[v].removed || self.nodes[v].n_in_pads != 0 {
            return Err(AVERROR_EINVAL);
        }
        self.formats.set(v, par.format);
        self.hw_slots.set(v, par.hw_frames_ctx);
        proof {
            assert forall|k: int| 0 <= k < self.edges@.len() implies edge_valid(
                self.nodes@,
                #[trigger] self.edges@[k],
            ) by {
                assert(self.edges@[k] == old(self).edges()[k]);
                assert(edge_valid(old(self).nodes(), old(self).edges()[k]));
            }
        }
        Ok(())
    }
}

/// The walk behind `origin_of` only ever stops at an attached node when
/// every edge is valid and the walk starts at one.
pub proof fn lemma_origin_active(
    nodes: Seq<FilterNode>,
    edges: Seq<FilterEdge>,
    v: int,
    fuel: nat,
)
    requires
        forall|k: int| 0 <= k < edges.len() ==> edge_valid(nodes, #[trigger] edges[k]),
        0 <= v < nodes.len(),
        !nodes[v].removed,
    ensures
        origin_of(nodes, edges, v, fuel) matches Some(s) ==> !nodes[s].removed,
    decreases fuel,
{
    if nodes[v].n_in_pads != 0 && fuel > 0 {
        lemma_first_in_edge_props(edges, v, 0);
        let k = first_in_edge(edges, v, 0);
        if k < edges.len() {
            assert(edge_valid(nodes, edges[k]));
            lemma_origin_active(nodes, edges, edges[k].src as int, (fuel - 1) as nat);
        }
    }
}

impl AVFilterGraph {
    /// How many edges enter pad `pad` of node `v`, counted at run time.
    fn count_in_exec(&self, v: usize, pad: usize) -> (c: usize)
        ensures
            c == count_in(self.edges(), v as int, pad as int),
    {
        let n = self.edges.len();
        let mut i: usize = 0;
        let mut c: usize = 0;
        proof {
            assert(self.edges@.skip(0) =~= self.edges@);
        }
        while i < n
            invariant
                n == self.edges@.len(),
                0 <= i <= n,
                c <= i,
                c + count_in(self.edges@.skip(i as int), v as int, pad as int) == count_in(
                    self.edges@,
                    v as int,
                    pad as int,
                ),
            decreases n - i,
        {
            proof {
                assert(self.edges@.skip(i as int)[0] == self.edges@[i as int]);
                assert(self.edges@.skip(i as int).drop_first() =~= self.edges@.skip(i + 1));
            }
            let e = self.edges[i];
            if e.dst == v && e.dst_pad == pad {
                c += 1;
            }
            i += 1;
        }
        proof {
            assert(self.edges@.skip(n as int) =~= Seq::<FilterEdge>::empty());
        }
        c
    }

    /// How many edges leave pad `pad` of node `v`, counted at run time.
    fn count_out_exec(&self, v: usize, pad: usize) -> (c: usize)
        ensures
            c == count_out(self.edges(), v as int, pad as int),
    {
        let n = self.edges.len();
        let mut i: usize = 0;
        let mut c: usize = 0;
        proof {
            assert(self.edges@.skip(0) =~= self.edges@);
        }
        while i < n
            invariant
                n == self.edges@.len(),
                0 <= i <= n,
                c <= i,
                c + count_out(self.edges@.skip(i as int), v as int, pad as int) == count_out(
                    self.edges@,
                    v as int,
                    pad as int,
                ),
            decreases n - i,
        {
            proof {
                assert(self.edges@.skip(i as int)[0] == self.edges@[i as int]);
                assert(self.edges@.skip(i as int).drop_first() =~= self.edges@.skip(i + 1));
            }
            let e = self.edges[i];
            if e.src == v && e.src_pad == pad {
                c += 1;
            }
            i += 1;
        }
        proof {
            assert(self.edges@.skip(n as int) =~= Seq::<FilterEdge>::empty());
        }
        c
    }

    /// The first edge entering input pad zero of node `v`, at run time.
    fn first_in_edge_exec(&self, v: usize) -> (k: usize)
        ensures
            k == first_in_edge(self.edges(), v as int, 0),
    {
        let n = self.edges.len();
        let mut i: usize = 0;
        while i < n
            invariant
                n == self.edges@.len(),
                0 <= i <= n,
                forall|j: int|
                    0 <= j < i ==> !((#[trigger] self.edges@[j]).dst == v && self.edges@[
                        j
                    ].dst_pad == 0),
            decreases n - i,
        {
            let e = self.edges[i];
            if e.dst == v && e.dst_pad == 0 {
                proof {
                    lemma_first_in_edge_pin(self.edges@, v as int, 0, i as int);
                }
                return i;
            }
            i += 1;
        }
        proof {
            lemma_first_in_edge_pin(self.edges@, v as int, 0, n as int);
        }
        n
    }

    /// Walks input pad zero upstream from `cur` with the given fuel,
    /// mirroring `origin_of`.
    fn walk_origin(&self, cur: usize, fuel: usize) -> (r: Option<usize>)
        requires
            self.wf(),
        ensures
            ({
                let o = origin_of(self.nodes(), self.edges(), cur as int, fuel as nat);
                match r {
                    Some(s) => o == Some(s as int),
                    None => o is None,
                }
            }),
        decreases fuel,
    {
        let n = self.nodes.len();
        if cur >= n {
            return None;
        }
        if self.nodes[cur].n_in_pads == 0 {
            return Some(cur);
        }
        if fuel == 0 {
            return None;
        }
        let k = self.first_in_edge_exec(cur);
        proof {
            lemma_first_in_edge_props(self.edges@, cur as int, 0);
        }
        if k == self.edges.len() {
            return None;
        }
        let next = self.edges[k].src;
        self.walk_origin(next, fuel - 1)
    }

    /// Validates the graph and negotiates every edge. Succeeds exactly
    /// when the graph is still in the Built state and `graph_config_ok`
    /// holds of it: it has a node, every pad of every attached node is
    /// connected exactly once, and every attached node is fed from a
    /// source whose declared pixel format it accepts. On success the graph
    /// becomes Configured: each node records the source feeding it and
    /// takes over that source's pixel format and frame pool attachment —
    /// the hardware-frame-context propagates from the source to every
    /// downstream node. On failure it returns `AVERROR_EINVAL` and changes
    /// nothing.
    #[verifier::rlimit(30)]
    pub fn config(&mut self) -> (r: Result<(), i32>)
        requires
            old(self).wf(),
        ensures
            final(self).wf(),
            r == Ok::<(), i32>(()) <==> (old(self).state() == GraphState::Built
                && graph_config_ok(old(self).nodes(), old(self).edges(), old(self).formats())),
            r.is_err() ==> r == Err::<(), i32>(AVERROR_EINVAL) && *final(self) == *old(self),
            r.is_ok() ==> ({
                &&& final(self).state() == GraphState::Configured
                &&& final(self).nodes() == old(self).nodes()
                &&& final(self).edges() == old(self).edges()
                &&& final(self).device_slots() == old(self).device_slots()
                &&& final(self).finished() == old(self).finished()
                &&& final(self).pending() == old(self).pending()
                &&& forall|v: int|
                    0 <= v < old(self).nodes().len() && !old(self).nodes()[v].removed ==> ({
                        let s = origin_of(
                            old(self).nodes(),
                            old(self).edges(),
                            v,
                            old(self).nodes().len() as nat,
                        ).unwrap();
                        &&& (#[trigger] final(self).origins()[v]) == s
                        &&& final(self).formats()[v] == old(self).formats()[s]
                        &&& final(self).hw_slots()[v] == old(self).hw_slots()[s]
                    })
                &&& forall|v: int|
                    0 <= v < old(self).nodes().len() && old(self).nodes()[v].removed ==> ((
                    #[trigger] final(self).origins()[v]) == v && final(self).formats()[v] == old(
                        self,
                    ).formats()[v] && final(self).hw_slots()[v] == old(self).hw_slots()[v])
            }),
    {
        let built = match self.state {
            GraphState::Built => true,
            GraphState::Configured => false,
        };
        if !built {
            return Err(AVERROR_EINVAL);
        }
        let n = self.nodes.len();
        let ghost nodes0 = self.nodes@;
        let ghost edges0 = self.edges@;
        let ghost formats0 = self.formats@;
        // The graph must hold at least one attached node.
        let mut any: bool = false;
        let ghost mut witness: int = 0;
        let mut v: usize = 0;
        while v < n
            invariant
                n == nodes0.len(),
                0 <= v <= n,
                *self == *old(self),
                self.nodes@ == nodes0,
                !any ==> forall|j: int| 0 <= j < v ==> (#[trigger] nodes0[j]).removed,
                any ==> 0 <= witness < n && !nodes0[witness].removed,
            decreases n - v,
        {
            if !self.nodes[v].removed {
                if !any {
                    proof {
                        witness = v as int;
                    }
                }
                any = true;
            }
            v += 1;
        }
        if !any {
            proof {
                assert(!graph_config_ok(nodes0, edges0, formats0)) by {
                    if graph_config_ok(nodes0, edges0, formats0) {
                        let w = choose|w: int| 0 <= w < nodes0.len() && !(#[trigger] nodes0[w]).removed;
                    }
                }
            }
            return Err(AVERROR_EINVAL);
        }
        // Every pad of every attached node must be connected exactly once.
        let mut v: usize = 0;
        while v < n
            invariant
                n == nodes0.len(),
                0 <= v <= n,
                *self == *old(self),
                old(self).wf(),
                self.nodes@ == nodes0,
                self.edges@ == edges0,
                forall|u: int, pad: int|
                    0 <= u < v && !nodes0[u].removed && 0 <= pad < nodes0[u].n_in_pads
                        ==> #[trigger] count_in(edges0, u, pad) == 1,
                forall|u: int, pad: int|
                    0 <= u < v && !nodes0[u].removed && 0 <= pad < nodes0[u].n_out_pads
                        ==> #[trigger] count_out(edges0, u, pad) == 1,
            decreases n - v,
        {
            if !self.nodes[v].removed {
                let n_in = self.nodes[v].n_in_pads;
                let mut pad: usize = 0;
                while pad < n_in
                    invariant
                        n_in == nodes0[v as int].n_in_pads,
                        0 <= pad <= n_in,
                        v < n == nodes0.len(),
                        *self == *old(self),
                        old(self).wf(),
                        !nodes0[v as int].removed,
                        self.nodes@ == nodes0,
                        self.edges@ == edges0,
                        forall|p: int| 0 <= p < pad ==> #[trigger] count_in(edges0, v as int, p) == 1,
                    decreases n_in - pad,
                {
                    if self.count_in_exec(v, pad) != 1 {
                        proof {
                            assert(!graph_config_ok(nodes0, edges0, formats0)) by {
                                if graph_config_ok(nodes0, edges0, formats0) {
                                    assert(count_in(edges0, v as int, pad as int) == 1);
                                }
                            }
                        }
                        return Err(AVERROR_EINVAL);
                    }
                    pad += 1;
                }
                let n_out = self.nodes[v].n_out_pads;
                let mut pad: usize = 0;
                while pad < n_out
                    invariant
                        n_out == nodes0[v as int].n_out_pads,
                        0 <= pad <= n_out,
                        v < n == nodes0.len(),
                        *self == *old(self),
                        old(self).wf(),
                        !nodes0[v as int].removed,
                        self.nodes@ == nodes0,
                        self.edges@ == edges0,
                        forall|p: int| 0 <= p < pad ==> #[trigger] count_out(edges0, v as int, p)
                            == 1,
                    decreases n_out - pad,
                {
                    if self.count_out_exec(v, pad) != 1 {
                        proof {
                            assert(!graph_config_ok(nodes0, edges0, formats0)) by {
                                if graph_config_ok(nodes0, edges0, formats0) {
                                    assert(count_out(edges0, v as int, pad as int) == 1);
                                }
                            }
                        }
                        return Err(AVERROR_EINVAL);
                    }
                    pad += 1;
                }
            }
            v += 1;
        }
        // Every attached node must be fed from a source with a declared,
        // acceptable format.
        let mut org: Vec<usize> = Vec::new();
        let mut v: usize = 0;
        while v < n
            invariant
                n == nodes0.len(),
                0 <= v <= n,
                *self == *old(self),
                old(self).wf(),
                self.nodes@ == nodes0,
                self.edges@ == edges0,
                self.formats@ == formats0,
                org@.len() == v,
                forall|j: int|
                    0 <= j < v && (#[trigger] nodes0[j]).removed ==> org@[j] == j,
                forall|j: int|
                    0 <= j < v && !(#[trigger] nodes0[j]).removed ==> ({
                        let s = org@[j] as int;
                        &&& origin_of(nodes0, edges0, j, n as nat) == Some(s)
                        &&& 0 <= s < n
                        &&& !nodes0[s].removed
                        &&& nodes0[s].n_in_pads == 0
                        &&& formats0[s] >= 0
                        &&& format_compatible(nodes0[j], formats0[s])
                    }),
            decreases n - v,
        {
            if self.nodes[v].removed {
                org.push(v);
            } else {
                match self.walk_origin(v, n) {
                    None => {
                        proof {
                            assert(!graph_config_ok(nodes0, edges0, formats0));
                        }
                        return Err(AVERROR_EINVAL);
                    },
                    Some(s) => {
                        proof {
                            lemma_origin_is_source(nodes0, edges0, v as int, n as nat);
                            lemma_origin_active(nodes0, edges0, v as int, n as nat);
                        }
                        if self.formats[s] < 0 {
                            proof {
                                assert(!graph_config_ok(nodes0, edges0, formats0));
                            }
                            return Err(AVERROR_EINVAL);
                        }
                        let node_sup_len = self.nodes[v].supported_formats.len();
                        if node_sup_len > 0 && !contains_format(
                            &self.nodes[v].supported_formats,
                            self.formats[s],
                        ) {
                            proof {
                                assert(!format_compatible(nodes0[v as int], formats0[s as int]));
                                assert(!graph_config_ok(nodes0, edges0, formats0));
                            }
                            return Err(AVERROR_EINVAL);
                        }
                        org.push(s);
                    },
                }
            }
            v += 1;
        }
        proof {
            assert(graph_config_ok(nodes0, edges0, formats0)) by {
                assert(0 <= witness < nodes0.len() && !nodes0[witness].removed);
            }
        }
        // Commit: every node records its source and takes over that
        // source's format and frame pool attachment.
        let ghost hw0 = self.hw_slots@;
        let mut v: usize = 0;
        while v < n
            invariant
                n == nodes0.len(),
                0 <= v <= n,
                old(self).wf(),
                self.nodes@ == nodes0,
                self.edges@ == edges0,
                self.hw_slots@.len() == n,
                self.formats@.len() == n,
                self.origins@.len() == n,
                self.pending@ == old(self).pending(),
                self.finished@ == old(self).finished(),
                self.device_slots@ == old(self).device_slots(),
                self.state == GraphState::Built,
                org@.len() == n,
                nodes0 == old(self).nodes(),
                edges0 == old(self).edges(),
                formats0 == old(self).formats(),
                hw0 == old(self).hw_slots(),
                formats0.len() == n,
                hw0.len() == n,
                forall|j: int|
                    0 <= j < n && (#[trigger] nodes0[j]).removed ==> org@[j] == j,
                forall|j: int|
                    0 <= j < n && !(#[trigger] nodes0[j]).removed ==> ({
                        let s = org@[j] as int;
                        &&& origin_of(nodes0, edges0, j, n as nat) == Some(s)
                        &&& 0 <= s < n
                        &&& !nodes0[s].removed
                        &&& nodes0[s].n_in_pads == 0
                    }),
                forall|j: int|
                    0 <= j < v ==> (#[trigger] self.origins@[j]) == org@[j],
                forall|j: int|
                    v <= j < n ==> (#[trigger] self.formats@[j]) == formats0[j]
                        && self.hw_slots@[j] == hw0[j],
                forall|j: int|
                    0 <= j < v ==> (#[trigger] self.formats@[j]) == formats0[org@[j] as int]
                        && self.hw_slots@[j] == hw0[org@[j] as int],
            decreases n - v,
        {
            let s = org[v];
            proof {
                if !self.nodes@[v as int].removed {
                    assert(nodes0[s as int].n_in_pads == 0);
                    assert(origin_of(nodes0, edges0, s as int, n as nat) == Some(s as int));
                    assert(org@[s as int] == s);
                }
            }
            if self.nodes[v].removed {
                proof {
                    assert(org@[v as int] == v as int);
                }
                self.origins.set(v, v);
            } else {
                let f = self.formats[s];
                let h = self.hw_slots[s];
                proof {
                    if s < v {
                        assert(self.formats@[s as int] == formats0[org@[s as int] as int]);
                        assert(self.formats@[s as int] == formats0[s as int]);
                        assert(self.hw_slots@[s as int] == hw0[org@[s as int] as int]);
                        assert(self.hw_slots@[s as int] == hw0[s as int]);
                    } else {
                        assert(self.formats@[s as int] == formats0[s as int]);
                        assert(self.hw_slots@[s as int] == hw0[s as int]);
                    }
                }
                self.formats.set(v, f);
                self.hw_slots.set(v, h);
                self.origins.set(v, s);
            }
            proof {
                assert(self.formats@[v as int] == formats0[org@[v as int] as int]);
                assert(self.hw_slots@[v as int] == hw0[org@[v as int] as int]);
                assert(self.origins@[v as int] == org@[v as int]);
                assert forall|j: int| v + 1 <= j < n implies (#[trigger] self.formats@[j])
                    == formats0[j] && self.hw_slots@[j] == hw0[j] by {
                    assert(self.formats@[j] == formats0[j]);
                }
                assert forall|j: int| 0 <= j < v + 1 implies (#[trigger] self.formats@[j])
                    == formats0[org@[j] as int] && self.hw_slots@[j] == hw0[org@[j] as int] by {
                    if nodes0[j].removed {
                        assert(org@[j] == j);
                    } else {
                        assert(0 <= org@[j] < n);
                    }
                    if j < v {
                        assert(self.formats@[j] == formats0[org@[j] as int]);
                    }
                }
            }
            v += 1;
        }
        self.state = GraphState::Configured;
        proof {
            assert forall|k: int| 0 <= k < self.edges@.len() implies edge_valid(
                self.nodes@,
                #[trigger] self.edges@[k],
            ) by {
                assert(edge_valid(old(self).nodes(), old(self).edges()[k]));
            }
            assert forall|u: int|
                0 <= u < nodes0.len() && !nodes0[u].removed implies ({
                let s = origin_of(nodes0, edges0, u, nodes0.len() as nat).unwrap();
                &&& (#[trigger] self.origins@[u]) == s
                &&& self.formats@[u] == formats0[s]
                &&& self.hw_slots@[u] == hw0[s]
            }) by {
                assert(self.origins@[u] == org@[u]);
            }
        }
        Ok(())
    }
}

impl AVFilterGraph {
    /// How many frames wait at source node `v`, counted at run time.
    fn count_node_exec(&self, v: usize) -> (c: usize)
        ensures
            c == count_node(self.pending(), v as int),
    {
        let n = self.pending.len();
        let mut i: usize = 0;
        let mut c: usize = 0;
        proof {
            assert(self.pending@.skip(0) =~= self.pending@);
        }
        while i < n
            invariant
                n == self.pending@.len(),
                0 <= i <= n,
                c <= i,
                c + count_node(self.pending@.skip(i as int), v as int) == count_node(
                    self.pending@,
                    v as int,
                ),
            decreases n - i,
        {
            proof {
                assert(self.pending@.skip(i as int)[0] == self.pending@[i as int]);
                assert(self.pending@.skip(i as int).drop_first() =~= self.pending@.skip(i + 1));
            }
            if self.pending[i].node == v {
                c += 1;
            }
            i += 1;
        }
        proof {
            assert(self.pending@.skip(n as int) =~= Seq::<PendingFrame>::empty());
        }
        c
    }

    /// Injects one frame at a source node of a configured graph, or marks
    /// the source finished when no frame is handed in. The graph takes an
    /// independent reference to the frame's payload, so the caller's
    /// handle stays valid. A finished source accepts nothing more and
    /// answers EndOfStream; a source whose queue is full answers
    /// WouldBlock and the caller must drain the sinks first. A graph not
    /// yet configured, or a node that is missing, removed or not a source,
    /// fails hard with `AVERROR_EINVAL`. Nothing changes except as each
    /// answer says.
    pub fn add_frame_flags(
        &mut self,
        payloads: &mut BufferArena<FrameData>,
        ctx: &AVFilterContext,
        frame: Option<&AVFrame>,
        flags: i32,
    ) -> (r: PushResult)
        requires
            old(self).wf(),
            old(payloads).wf(),
            frame matches Some(f) ==> (f.buf matches Some(b) ==> old(payloads).live(b) && old(
                payloads,
            ).counts()[b.slot as int] < u64::MAX),
        ensures
            final(self).wf(),
            final(payloads).wf(),
            ({
                let v = ctx.node as int;
                if old(self).state() != GraphState::Configured || ctx.node >= old(
                    self,
                ).nodes().len() || old(self).nodes()[v].removed || old(self).nodes()[v].n_in_pads
                    != 0 {
                    &&& r == PushResult::Error(AVERROR_EINVAL)
                    &&& *final(self) == *old(self)
                    &&& *final(payloads) == *old(payloads)
                } else if frame is None {
                    &&& r == PushResult::Accepted
                    &&& final(self).finished() == old(self).finished().update(v, true)
                    &&& final(self).pending() == old(self).pending()
                    &&& final(self).nodes() == old(self).nodes()
                    &&& final(self).state() == old(self).state()
                    &&& *final(payloads) == *old(payloads)
                } else if old(self).finished()[v] {
                    &&& r == PushResult::EndOfStream
                    &&& *final(self) == *old(self)
                    &&& *final(payloads) == *old(payloads)
                } else if count_node(old(self).pending(), v) >= FILTER_QUEUE_CAPACITY {
                    &&& r == PushResult::WouldBlock
                    &&& *final(self) == *old(self)
                    &&& *final(payloads) == *old(payloads)
                } else {
                    &&& r == PushResult::Accepted
                    &&& final(self).pending() == old(self).pending().push(
                        PendingFrame {
                            node: ctx.node,
                            pts: frame.unwrap().pts,
                            payload_slot: match frame.unwrap().buf {
                                Some(b) => Some(b.slot),
                                None => None,
                            },
                        },
                    )
                    &&& final(self).nodes() == old(self).nodes()
                    &&& final(self).edges() == old(self).edges()
                    &&& final(self).formats() == old(self).formats()
                    &&& final(self).hw_slots() == old(self).hw_slots()
                    &&& final(self).origins() == old(self).origins()
                    &&& final(self).finished() == old(self).finished()
                    &&& final(self).state() == old(self).state()
                    &&& (match frame.unwrap().buf {
                        Some(b) => {
                            &&& final(payloads).counts() == old(payloads).counts().update(
                                b.slot as int,
                                (old(payloads).counts()[b.slot as int] + 1) as u64,
                            )
                            &&& final(payloads).freed() == old(payloads).freed()
                            &&& final(payloads).payloads() == old(payloads).payloads()
                            &&& final(payloads).n_slots() == old(payloads).n_slots()
                        },
                        None => *final(payloads) == *old(payloads),
                    })
                }
            }),
    {
        let configured = match self.state {
            GraphState::Built => false,
            GraphState::Configured => true,
        };
        let v = ctx.node;
        if !configured || v >= self.nodes.len() || self.nodes[v].removed || self.nodes[v].n_in_pads
            != 0 {
            return PushResult::Error(AVERROR_EINVAL);
        }
        let f = match frame {
            None => {
                self.finished.set(v, true);
            proof {
                assert forall|k: int| 0 <= k < self.edges@.len() implies edge_valid(
                    self.nodes@,
                    #[trigger] self.edges@[k],
                ) by {
                    assert(edge_valid(old(self).nodes(), old(self).edges()[k]));
                }
                assert forall|k: int| 0 <= k < self.pending@.len() implies (
                #[trigger] self.pending@[k]).node < self.nodes@.len() by {
                    assert(self.pending@[k] == old(self).pending()[k]);
                }
                assert forall|u: int| 0 <= u < self.nodes@.len() implies (
                #[trigger] self.origins@[u]) < self.nodes@.len() by {
                    assert(self.origins@[u] == old(self).origins()[u]);
                }
            }
                return PushResult::Accepted;
            },
            Some(f) => f,
        };
        if self.finished[v] {
            return PushResult::EndOfStream;
        }
        if self.count_node_exec(v) >= FILTER_QUEUE_CAPACITY {
            return PushResult::WouldBlock;
        }
        let payload_slot = match &f.buf {
            Some(b) => {
                let held = payloads.buffer_ref(b);
                Some(held.slot)
            },
            None => None,
        };
        self.pending.push(PendingFrame { node: v, pts: f.pts, payload_slot });
        proof {
            assert forall|k: int| 0 <= k < self.pending@.len() implies (
            #[trigger] self.pending@[k]).node < self.nodes@.len() by {
                if k < old(self).pending().len() {
                    assert(self.pending@[k] == old(self).pending()[k]);
                }
            }
            assert forall|k: int| 0 <= k < self.edges@.len() implies edge_valid(
                self.nodes@,
                #[trigger] self.edges@[k],
            ) by {
                assert(edge_valid(old(self).nodes(), old(self).edges()[k]));
            }
            assert forall|u: int| 0 <= u < self.nodes@.len() implies (
            #[trigger] self.origins@[u]) < self.nodes@.len() by {
                assert(self.origins@[u] == old(self).origins()[u]);
            }
        }
        PushResult::Accepted
    }

    /// Drains one filtered frame at a sink node of a configured graph: the
    /// oldest frame injected at the source feeding this sink, with its
    /// timestamp, the sink's negotiated pixel format and the shared
    /// payload handle the graph held. With no frame in flight, a sink
    /// whose source is finished reaches EndOfStream; otherwise it answers
    /// WouldBlock and the caller must feed the source first. A graph not
    /// yet configured, or a node that is missing, removed or not a sink,
    /// fails hard with `AVERROR_EINVAL`.
    pub fn get_frame_flags(&mut self, ctx: &AVFilterContext, frame: &mut AVFrame, flags: i32) -> (r:
        PullResult)
        requires
            old(self).wf(),
        ensures
            final(self).wf(),
            ({
                let v = ctx.node as int;
                if old(self).state() != GraphState::Configured || ctx.node >= old(
                    self,
                ).nodes().len() || old(self).nodes()[v].removed || old(self).nodes()[v].n_out_pads
                    != 0 {
                    &&& r == PullResult::Error(AVERROR_EINVAL)
                    &&& *final(self) == *old(self)
                    &&& *final(frame) == *old(frame)
                } else {
                    let s = old(self).origins()[v] as int;
                    let k = first_pending(old(self).pending(), s, 0);
                    if k < old(self).pending().len() {
                        &&& r == PullResult::Produced
                        &&& final(self).pending() == old(self).pending().remove(k)
                        &&& final(self).nodes() == old(self).nodes()
                        &&& final(self).edges() == old(self).edges()
                        &&& final(self).formats() == old(self).formats()
                        &&& final(self).hw_slots() == old(self).hw_slots()
                        &&& final(self).origins() == old(self).origins()
                        &&& final(self).finished() == old(self).finished()
                        &&& final(self).state() == old(self).state()
                        &&& final(frame).pts == old(self).pending()[k].pts
                        &&& final(frame).format == old(self).formats()[v]
                        &&& final(frame).width == old(frame).width
                        &&& final(frame).height == old(frame).height
                        &&& (match old(self).pending()[k].payload_slot {
                            Some(slot) => final(frame).buf matches Some(b) && b.slot == slot,
                            None => final(frame).buf is None,
                        })
                    } else if old(self).finished()[s] {
                        &&& r == PullResult::EndOfStream
                        &&& *final(self) == *old(self)
                        &&& *final(frame) == *old(frame)
                    } else {
                        &&& r == PullResult::WouldBlock
                        &&& *final(self) == *old(self)
                        &&& *final(frame) == *old(frame)
                    }
                }
            }),
    {
        let configured = match self.state {
            GraphState::Built => false,
            GraphState::Configured => true,
        };
        let v = ctx.node;
        if !configured || v >= self.nodes.len() || self.nodes[v].removed
            || self.nodes[v].n_out_pads != 0 {
            return PullResult::Error(AVERROR_EINVAL);
        }
        let s = self.origins[v];
        let n = self.pending.len();
        let mut k: usize = 0;
        while k < n
            invariant
                n == self.pending@.len(),
                0 <= k <= n,
                s < self.nodes@.len(),
                v < self.nodes@.len(),
                v == ctx.node,
                s == self.origins@[v as int],
                !self.nodes@[v as int].removed,
                self.nodes@[v as int].n_out_pads == 0,
                self.state == GraphState::Configured,
                *self == *old(self),
                *frame == *old(frame),
                old(self).wf(),
                forall|j: int| 0 <= j < k ==> (#[trigger] self.pending@[j]).node != s,
            decreases n - k,
        {
            if self.pending[k].node == s {
                proof {
                    lemma_first_pending_pin(self.pending@, s as int, 0, k as int);
                }
                let entry = self.pending.remove(k);
                frame.pts = entry.pts;
                frame.format = self.formats[v];
                frame.buf = match entry.payload_slot {
                    Some(slot) => Some(AVBufferRef { slot, tag: core::marker::PhantomData }),
                    None => None,
                };
                proof {
                    assert forall|j: int| 0 <= j < self.pending@.len() implies (
                    #[trigger] self.pending@[j]).node < self.nodes@.len() by {
                        if j < k {
                            assert(self.pending@[j] == old(self).pending()[j]);
                        } else {
                            assert(self.pending@[j] == old(self).pending()[j + 1]);
                        }
                    }
                    assert forall|j: int| 0 <= j < self.edges@.len() implies edge_valid(
                        self.nodes@,
                        #[trigger] self.edges@[j],
                    ) by {
                        assert(edge_valid(old(self).nodes(), old(self).edges()[j]));
                    }
                    assert forall|u: int| 0 <= u < self.nodes@.len() implies (
                    #[trigger] self.origins@[u]) < self.nodes@.len() by {
                        assert(self.origins@[u] == old(self).origins()[u]);
                    }
                    assert(self.pending@ =~= old(self).pending().remove(k as int));
                }
                return PullResult::Produced;
            }
            k += 1;
        }
        proof {
            lemma_first_pending_pin(self.pending@, s as int, 0, n as int);
        }
        if self.finished[s] {
            PullResult::EndOfStream
        } else {
            PullResult::WouldBlock
        }
    }

    /// The frame pool that negotiation attached to a sink node: a new
    /// reference to the pool the sink's source declared. Fails with
    /// `AVERROR_EINVAL`, changing nothing, on an unconfigured graph, a
    /// node that is missing, removed or not a sink, a sink without an
    /// attached pool, or a pool reference that is no longer live or whose
    /// count is saturated.
    pub fn buffersink_get_hw_frames_ctx(
        &self,
        ctx: &AVFilterContext,
        frames: &mut BufferArena<AVHWFramesContext>,
    ) -> (r: Result<AVBufferRef<AVHWFramesContext>, i32>)
        requires
            self.wf(),
            old(frames).wf(),
        ensures
            final(frames).wf(),
            ({
                let v = ctx.node as int;
                let usable = self.state() == GraphState::Configured && ctx.node
                    < self.nodes().len() && !self.nodes()[v].removed && self.nodes()[v].n_out_pads
                    == 0 && (self.hw_slots()[v] matches Some(slot) && slot < old(frames).n_slots()
                    && old(frames).counts()[slot as int] >= 1 && old(frames).counts()[slot as int]
                    < u64::MAX);
                if usable {
                    let slot = self.hw_slots()[v].unwrap() as int;
                    &&& r matches Ok(h) && h.slot == slot
                    &&& final(frames).counts() == old(frames).counts().update(
                        slot,
                        (old(frames).counts()[slot] + 1) as u64,
                    )
                    &&& final(frames).freed() == old(frames).freed()
                    &&& final(frames).payloads() == old(frames).payloads()
                    &&& final(frames).n_slots() == old(frames).n_slots()
                } else {
                    &&& r == Err::<AVBufferRef<AVHWFramesContext>, i32>(AVERROR_EINVAL)
                    &&& *final(frames) == *old(frames)
                }
            }),
    {
        let configured = match self.state {
            GraphState::Built => false,
            GraphState::Configured => true,
        };
        let v = ctx.node;
        if !configured || v >= self.nodes.len() || self.nodes[v].removed
            || self.nodes[v].n_out_pads != 0 {
            return Err(AVERROR_EINVAL);
        }
        let slot = match self.hw_slots[v] {
            Some(slot) => slot,
            None => {
                return Err(AVERROR_EINVAL);
            },
        };
        let probe = AVBufferRef { slot, tag: core::marker::PhantomData };
        if !frames.is_live(&probe) {
            return Err(AVERROR_EINVAL);
        }
        if frames.ref_count(&probe) == u64::MAX {
            return Err(AVERROR_EINVAL);
        }
        Ok(frames.buffer_ref(&probe))
    }
}

/// Whether a parsed chain can be instantiated against a filter registry:
/// it names at least one filter, every name is registered, and every
/// filter that is not the chain's head has exactly one input pad while
/// every filter that is not its tail has exactly one output pad, so the
/// chain links in sequence.
pub open spec fn chain_ok(reg: Seq<AVFilter>, chain: crate::dict::DictEntries) -> bool {
    &&& chain.len() >= 1
    &&& forall|k: int|
        0 <= k < chain.len() ==> find_filter(reg, (#[trigger] chain[k]).0, 0) < reg.len()
    &&& forall|k: int|
        0 < k < chain.len() ==> reg[find_filter(reg, (#[trigger] chain[k]).0, 0)].n_in_pads == 1
    &&& forall|k: int|
        0 <= k < chain.len() - 1 ==> reg[find_filter(
            reg,
            (#[trigger] chain[k]).0,
            0,
        )].n_out_pads == 1
}

/// Whether `node` instantiates the chain element `entry` against `reg`:
/// it carries the registered filter's pads and format constraints, the
/// filter name as its names, and the element's argument text.
pub open spec fn node_matches(node: FilterNode, entry: (Seq<u8>, Seq<u8>), reg: Seq<AVFilter>) -> bool {
    let m = find_filter(reg, entry.0, 0);
    &&& m < reg.len()
    &&& node.filter_name@ == entry.0
    &&& node.name@ == entry.0
    &&& node.args@ == entry.1
    &&& node.n_in_pads == reg[m].n_in_pads
    &&& node.n_out_pads == reg[m].n_out_pads
    &&& node.supported_formats@ == reg[m].supported_formats@
    &&& !node.removed
}

impl AVFilterGraph {
    /// Parses a textual filter chain — filters separated by commas, each
    /// `name` or `name=args` — into new nodes linked in sequence, and
    /// fills `inputs` and `outputs` with records of the chain's
    /// unconnected input and output pads, which the caller links into its
    /// own boundary nodes before `config`. The chain text is the native
    /// grammar and each filter's argument text stays opaque to this layer:
    /// only NUL bytes are rejected at the boundary. Fails with
    /// `AVERROR_EINVAL`, changing nothing, on a configured graph, text
    /// holding a NUL byte or naming no filter, an unregistered filter
    /// name, or a chain whose filters cannot link in sequence.
    pub fn parse_str(
        &mut self,
        registry: &FilterRegistry,
        filters: &[u8],
        inputs: &mut AVFilterInOut,
        outputs: &mut AVFilterInOut,
    ) -> (r: Result<(), i32>)
        requires
            old(self).wf(),
        ensures
            final(self).wf(),
            ({
                let chain = crate::dict::parse_pairs(filters@, 61u8, 44u8);
                let ok = old(self).state() == GraphState::Built && !filters@.contains(0u8)
                    && chain_ok(registry.filters@, chain);
                let base = old(self).nodes().len() as int;
                if !ok {
                    &&& r == Err::<(), i32>(AVERROR_EINVAL)
                    &&& *final(self) == *old(self)
                    &&& *final(inputs) == *old(inputs)
                    &&& *final(outputs) == *old(outputs)
                } else {
                    &&& r == Ok::<(), i32>(())
                    &&& final(self).state() == GraphState::Built
                    &&& final(self).pending() == old(self).pending()
                    &&& final(self).nodes().len() == base + chain.len()
                    &&& forall|i: int|
                        0 <= i < base ==> final(self).nodes()[i] == old(self).nodes()[i]
                    &&& forall|k: int|
                        0 <= k < chain.len() ==> node_matches(
                            #[trigger] final(self).nodes()[base + k],
                            chain[k],
                            registry.filters@,
                        )
                    &&& final(self).edges().len() == old(self).edges().len() + chain.len() - 1
                    &&& forall|i: int|
                        0 <= i < old(self).edges().len() ==> final(self).edges()[i] == old(
                            self,
                        ).edges()[i]
                    &&& forall|k: int|
                        0 <= k < chain.len() - 1 ==> (#[trigger] final(self).edges()[old(
                            self,
                        ).edges().len() + k]) == (FilterEdge {
                            src: (base + k) as usize,
                            src_pad: 0,
                            dst: (base + k + 1) as usize,
                            dst_pad: 0,
                        })
                    &&& forall|k: int|
                        0 <= k < chain.len() ==> (#[trigger] final(self).formats()[base + k])
                            == -1 && final(self).hw_slots()[base + k] is None && !final(self).finished()[base + k]
                    &&& final(inputs).pads@.len() == final(self).nodes()[base].n_in_pads
                    &&& forall|p: int|
                        0 <= p < final(inputs).pads@.len() ==> (#[trigger] final(inputs).pads@[p]).filter_ctx == base && final(inputs).pads@[p].pad_idx == p
                    &&& final(outputs).pads@.len() == final(self).nodes()[base + chain.len()
                        - 1].n_out_pads
                    &&& forall|p: int|
                        0 <= p < final(outputs).pads@.len() ==> (#[trigger] final(outputs).pads@[p]).filter_ctx == base + chain.len() - 1 && final(outputs).pads@[p].pad_idx == p
                }
            }),
    {
        let built = match self.state {
            GraphState::Built => true,
            GraphState::Configured => false,
        };
        if !built {
            return Err(AVERROR_EINVAL);
        }
        let ghost reg = registry.filters@;
        let ghost chain = crate::dict::parse_pairs(filters@, 61u8, 44u8);
        let mut d = AVDictionary::new();
        let mut kv_sep: Vec<u8> = Vec::new();
        kv_sep.push(61);
        let mut pr_sep: Vec<u8> = Vec::new();
        pr_sep.push(44);
        proof {
            assert(kv_sep@ =~= seq![61u8]);
            assert(pr_sep@ =~= seq![44u8]);
        }
        let parsed = d.parse_str(filters, kv_sep.as_slice(), pr_sep.as_slice(), AV_DICT_MULTIKEY);
        if parsed.is_err() {
            return Err(AVERROR_EINVAL);
        }
        proof {
            assert(AV_DICT_MULTIKEY & crate::dict::AV_DICT_MULTIKEY != 0) by (bit_vector);
            crate::dict::lemma_set_all_multikey(Seq::empty(), chain, AV_DICT_MULTIKEY);
            assert(Seq::<(Seq<u8>, Seq<u8>)>::empty() + chain =~= chain);
            assert(d@ == chain);
        }
        let cnt = d.len();
        if cnt == 0 {
            return Err(AVERROR_EINVAL);
        }
        // Resolve every chain element against the registry and check that
        // the chain links in sequence, before anything changes.
        let mut descs: Vec<AVFilter> = Vec::new();
        let mut k: usize = 0;
        while k < cnt
            invariant
                cnt == chain.len(),
                0 <= k <= cnt,
                chain == crate::dict::parse_pairs(filters@, 61u8, 44u8),
                d@ == chain,
                d.wf(),
                reg == registry.filters@,
                *self == *old(self),
                old(self).wf(),
                *inputs == *old(inputs),
                *outputs == *old(outputs),
                descs@.len() == k,
                forall|j: int|
                    0 <= j < k ==> ({
                        let m = find_filter(reg, (#[trigger] chain[j]).0, 0);
                        &&& m < reg.len()
                        &&& descs@[j].name@ == chain[j].0
                        &&& descs@[j].n_in_pads == reg[m].n_in_pads
                        &&& descs@[j].n_out_pads == reg[m].n_out_pads
                        &&& descs@[j].supported_formats@ == reg[m].supported_formats@
                        &&& (j > 0 ==> descs@[j].n_in_pads == 1)
                        &&& (j < cnt - 1 ==> descs@[j].n_out_pads == 1)
                    }),
            decreases cnt - k,
        {
            let e = d.entry(k);
            match AVFilter::get_by_name(registry, e.key.as_slice()) {
                Err(_) => {
                    proof {
                        assert(e.key@ == chain[k as int].0);
                        assert(find_filter(reg, chain[k as int].0, 0) == reg.len());
                        assert(!chain_ok(reg, chain)) by {
                            if chain_ok(reg, chain) {
                                assert(find_filter(reg, (#[trigger] chain[k as int]).0, 0)
                                    < reg.len());
                                assert(false);
                            }
                        }
                        assert(!chain_ok(registry.filters@, chain));
                    }
                    return Err(AVERROR_EINVAL);
                },
                Ok(f) => {
                    proof {
                        lemma_find_filter_props(reg, chain[k as int].0, 0);
                        assert(f.n_in_pads == reg[find_filter(reg, chain[k as int].0, 0)].n_in_pads);
                        assert(f.n_out_pads == reg[find_filter(
                            reg,
                            chain[k as int].0,
                            0,
                        )].n_out_pads);
                    }
                    if k > 0 && f.n_in_pads != 1 {
                        proof {
                            assert(!chain_ok(reg, chain)) by {
                                if chain_ok(reg, chain) {
                                    assert(reg[find_filter(reg, chain[k as int].0, 0)].n_in_pads
                                        == 1);
                                    assert(false);
                                }
                            }
                        }
                        return Err(AVERROR_EINVAL);
                    }
                    if k + 1 < cnt && f.n_out_pads != 1 {
                        proof {
                            assert(!chain_ok(reg, chain)) by {
                                if chain_ok(reg, chain) {
                                    assert(reg[find_filter(reg, chain[k as int].0, 0)].n_out_pads
                                        == 1);
                                    assert(false);
                                }
                            }
                        }
                        return Err(AVERROR_EINVAL);
                    }
                    proof {
                        lemma_find_filter_props(reg, chain[k as int].0, 0);
                        assert(reg[find_filter(reg, chain[k as int].0, 0)].name@ == chain[
                            k as int
                        ].0);
                    }
                    descs.push(f);
                    proof {
                        let j = k as int;
                        let m = find_filter(reg, chain[j].0, 0);
                        assert(descs@[j].name@ == chain[j].0);
                        assert(descs@[j].n_in_pads == reg[m].n_in_pads);
                        assert(descs@[j].n_out_pads == reg[m].n_out_pads);
                        assert(descs@[j].supported_formats@ == reg[m].supported_formats@);
                    }
                },
            }
            k += 1;
        }
        proof {
            assert(chain_ok(reg, chain));
        }
        // Instantiate the chain's nodes.
        let base = self.nodes.len();
        let ghost edges0 = self.edges@;
        let mut k: usize = 0;
        while k < cnt
            invariant
                cnt == chain.len(),
                0 <= k <= cnt,
                chain == crate::dict::parse_pairs(filters@, 61u8, 44u8),
                d@ == chain,
                d.wf(),
                reg == registry.filters@,
                old(self).wf(),
                self.wf(),
                base == old(self).nodes().len(),
                self.nodes@.len() == base + k,
                forall|i: int| 0 <= i < base ==> self.nodes@[i] == old(self).nodes()[i],
                forall|j: int|
                    0 <= j < k ==> node_matches(
                        #[trigger] self.nodes@[base + j],
                        chain[j],
                        reg,
                    ),
                self.edges@ == edges0,
                edges0 == old(self).edges(),
                self.formats@.len() == base + k,
                forall|i: int| 0 <= i < base ==> self.formats@[i] == old(self).formats()[i],
                self.hw_slots@.len() == base + k,
                self.finished@.len() == base + k,
                forall|j: int|
                    0 <= j < k ==> (#[trigger] self.formats@[base + j]) == -1 && self.hw_slots@[
                        base + j
                    ] is None && !self.finished@[base + j],
                self.pending@ == old(self).pending(),
                self.state == GraphState::Built,
                *inputs == *old(inputs),
                *outputs == *old(outputs),
                descs@.len() == cnt,
                forall|j: int|
                    0 <= j < cnt ==> ({
                        let m = find_filter(reg, (#[trigger] chain[j]).0, 0);
                        &&& m < reg.len()
                        &&& descs@[j].name@ == chain[j].0
                        &&& descs@[j].n_in_pads == reg[m].n_in_pads
                        &&& descs@[j].n_out_pads == reg[m].n_out_pads
                        &&& descs@[j].supported_formats@ == reg[m].supported_formats@
                        &&& (j > 0 ==> descs@[j].n_in_pads == 1)
                        &&& (j < cnt - 1 ==> descs@[j].n_out_pads == 1)
                    }),
            decreases cnt - k,
        {
            let e = d.entry(k);
            proof {
                assert(!chain[k as int].0.contains(0u8) && !chain[k as int].1.contains(0u8));
            }
            let created = self.create_filter(
                &descs[k],
                Some(e.key.as_slice()),
                Some(e.val.as_slice()),
            );
            proof {
                if created is Err {
                    assert(false);
                }
            }
            k += 1;
        }
        // Link consecutive chain nodes.
        let total = self.nodes.len();
        let mut k: usize = 0;
        while k < cnt - 1
            invariant
                cnt == chain.len(),
                0 <= k <= cnt - 1,
                cnt >= 1,
                total == base + cnt,
                chain == crate::dict::parse_pairs(filters@, 61u8, 44u8),
                d@ == chain,
                reg == registry.filters@,
                old(self).wf(),
                self.wf(),
                base == old(self).nodes().len(),
                self.nodes@.len() == base + cnt,
                forall|i: int| 0 <= i < base ==> self.nodes@[i] == old(self).nodes()[i],
                forall|j: int|
                    0 <= j < cnt ==> node_matches(
                        #[trigger] self.nodes@[base + j],
                        chain[j],
                        reg,
                    ),
                forall|j: int|
                    0 < j < cnt ==> (#[trigger] self.nodes@[base + j]).n_in_pads == 1,
                forall|j: int|
                    0 <= j < cnt - 1 ==> (#[trigger] self.nodes@[base + j]).n_out_pads == 1,
                self.edges@.len() == edges0.len() + k,
                edges0 == old(self).edges(),
                forall|i: int| 0 <= i < edges0.len() ==> self.edges@[i] == edges0[i],
                forall|j: int|
                    0 <= j < k ==> (#[trigger] self.edges@[edges0.len() + j]) == (FilterEdge {
                        src: (base + j) as usize,
                        src_pad: 0,
                        dst: (base + j + 1) as usize,
                        dst_pad: 0,
                    }),
                self.formats@.len() == base + cnt,
                forall|i: int| 0 <= i < base ==> self.formats@[i] == old(self).formats()[i],
                self.hw_slots@.len() == base + cnt,
                self.finished@.len() == base + cnt,
                forall|j: int|
                    0 <= j < cnt ==> (#[trigger] self.formats@[base + j]) == -1 && self.hw_slots@[
                        base + j
                    ] is None && !self.finished@[base + j],
                self.pending@ == old(self).pending(),
                self.state == GraphState::Built,
                *inputs == *old(inputs),
                *outputs == *old(outputs),
            decreases cnt - k,
        {
            proof {
                assert(base + k < base + cnt == total);
                let j1 = k as int;
                let j2 = k as int + 1;
                assert(node_matches(self.nodes@[base + j1], chain[j1], reg));
                assert(node_matches(self.nodes@[base + j2], chain[j2], reg));
                assert((#[trigger] self.nodes@[base + j1]).n_out_pads == 1);
                assert((#[trigger] self.nodes@[base + j2]).n_in_pads == 1);
            }
            let src = AVFilterContext { node: base + k };
            let dst = AVFilterContext { node: src.node + 1 };
            proof {
                assert(edge_valid(
                    self.nodes@,
                    (FilterEdge { src: src.node, src_pad: 0, dst: dst.node, dst_pad: 0 }),
                ));
            }
            let linked = self.link(&src, 0, &dst, 0);
            proof {
                if linked is Err {
                    assert(false);
                }
            }
            k += 1;
        }
        // Record the chain's unconnected boundary pads.
        let head = d.entry(0);
        let tail = d.entry(cnt - 1);
        let n_in = self.nodes[base].n_in_pads;
        let mut in_pads: Vec<FilterPad> = Vec::new();
        let mut p: usize = 0;
        while p < n_in
            invariant
                0 <= p <= n_in,
                in_pads@.len() == p,
                cnt == chain.len(),
                cnt >= 1,
                chain == crate::dict::parse_pairs(filters@, 61u8, 44u8),
                head.key@ == chain[0].0,
                forall|q: int|
                    0 <= q < p ==> (#[trigger] in_pads@[q]).filter_ctx == base && in_pads@[
                        q
                    ].pad_idx == q,
            decreases n_in - p,
        {
            in_pads.push(
                FilterPad {
                    name: copy_range(head.key.as_slice(), 0, head.key.len()),
                    filter_ctx: base,
                    pad_idx: p,
                },
            );
            p += 1;
        }
        let last = self.nodes.len() - 1;
        let n_out = self.nodes[last].n_out_pads;
        let mut out_pads: Vec<FilterPad> = Vec::new();
        let mut p: usize = 0;
        while p < n_out
            invariant
                0 <= p <= n_out,
                out_pads@.len() == p,
                cnt == chain.len(),
                cnt >= 1,
                chain == crate::dict::parse_pairs(filters@, 61u8, 44u8),
                tail.key@ == chain[cnt - 1].0,
                forall|q: int|
                    0 <= q < p ==> (#[trigger] out_pads@[q]).filter_ctx == last && out_pads@[
                        q
                    ].pad_idx == q,
            decreases n_out - p,
        {
            out_pads.push(
                FilterPad {
                    name: copy_range(tail.key.as_slice(), 0, tail.key.len()),
                    filter_ctx: last,
                    pad_idx: p,
                },
            );
            p += 1;
        }
        *inputs = AVFilterInOut { pads: in_pads };
        *outputs = AVFilterInOut { pads: out_pads };
        Ok(())
    }
}

impl AVFilterContext {
    /// Attaches a device connection to this node, for filters that work on
    /// accelerator memory. Fails with `AVERROR_EINVAL`, changing nothing,
    /// on a configured graph or a node that is missing or removed.
    pub fn set_hw_device_ctx(
        &self,
        graph: &mut AVFilterGraph,
        device_ref: &AVBufferRef<AVHWDeviceContext>,
    ) -> (r: Result<(), i32>)
        requires
            old(graph).wf(),
        ensures
            final(graph).wf(),
            ({
                let v = self.node as int;
                if old(graph).state() == GraphState::Built && self.node < old(
                    graph,
                ).nodes().len() && !old(graph).nodes()[v].removed {
                    &&& r == Ok::<(), i32>(())
                    &&& final(graph).device_slots() == old(graph).device_slots().update(
                        v,
                        Some(device_ref.slot),
                    )
                    &&& final(graph).nodes() == old(graph).nodes()
                    &&& final(graph).edges() == old(graph).edges()
                    &&& final(graph).formats() == old(graph).formats()
                    &&& final(graph).hw_slots() == old(graph).hw_slots()
                    &&& final(graph).finished() == old(graph).finished()
                    &&& final(graph).pending() == old(graph).pending()
                    &&& final(graph).state() == old(graph).state()
                } else {
                    r == Err::<(), i32>(AVERROR_EINVAL) && *final(graph) == *old(graph)
                }
            }),
    {
        let built = match graph.state {
            GraphState::Built => true,
            GraphState::Configured => false,
        };
        let v = self.node;
        if !built || v >= graph.nodes.len() || graph.nodes[v].removed {
            return Err(AVERROR_EINVAL);
        }
        graph.device_slots.set(v, Some(device_ref.slot));
        proof {
            assert forall|k: int| 0 <= k < graph.edges@.len() implies edge_valid(
                graph.nodes@,
                #[trigger] graph.edges@[k],
            ) by {
                assert(graph.edges@[k] == old(graph).edges()[k]);
                assert(edge_valid(old(graph).nodes(), old(graph).edges()[k]));
            }
        }
        Ok(())
    }
}

} // verus!
