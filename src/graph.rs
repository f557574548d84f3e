//! The arena that owns every storage, tensor, version counter and backward
//! node of one computation, addressed by integer handles, together with the
//! grad-mode switch that decides whether forward operations are recorded.
use crate::autograd_meta::AutogradMeta;
use crate::device::{Device, ScalarType, TypeMeta};
use crate::error::AutogradError;
use crate::node::{Edge, Node, NodeKind, Tensor, grad_sum, grad_sum_exec, kind_ok, num_outputs};
use crate::shape::{extent, prod, strides_fit};
use crate::storage::Storage;
use crate::tensor_impl::TensorImpl;
use crate::version::{TensorVersion, VersionCounter};
use vstd::prelude::*;

verus! {

/// An edge of node `n` is sound when it leads to an earlier node, at one of
/// that node's input slots.
pub open spec fn edge_ok(ns: Seq<Node>, n: int, e: Edge) -> bool {
    e.function is Some ==> (e.function->0 < n && e.input_nr < ns[e.function->0 as int].input_metadata@.len())
}

/// Node `n` is sound: its edges are, it has one edge per gradient it hands
/// on, and an accumulator names an existing tensor and has one input slot.
pub open spec fn node_ok(ns: Seq<Node>, ntensors: nat, n: int) -> bool {
    &&& forall|i: int| 0 <= i < ns[n].next_edges@.len() ==> edge_ok(ns, n, #[trigger] ns[n].next_edges@[i])
    &&& ns[n].next_edges@.len() == num_outputs(ns[n].kind)
    &&& kind_ok(ns[n].kind)
    &&& (ns[n].kind is AccumulateGrad ==> ns[n].kind->variable.id < ntensors && ns[n].input_metadata@.len() == 1)
}

/// The handles held by tensor `t`'s autograd record are sound.
pub open spec fn meta_ok(ns: Seq<Node>, t: int, m: AutogradMeta) -> bool {
    &&& m.grad_fn is Some ==> (m.grad_fn->0 < ns.len() && m.output_nr < ns[m.grad_fn->0 as int].input_metadata@.len())
    &&& m.grad_accumulator is Some ==> (m.grad_accumulator->0 < ns.len()
        && ns[m.grad_accumulator->0 as int].kind == (NodeKind::AccumulateGrad { variable: Tensor { id: t as usize } }))
}

/// The arena of one computation.
pub struct Graph {
    tensors: Vec<TensorImpl>,
    values: Vec<Vec<i64>>,
    storages: Vec<Storage>,
    versions: Vec<VersionCounter>,
    nodes: Vec<Node>,
    grad_mode: bool,
}

impl Graph {
    pub closed spec fn tensors_spec(&self) -> Seq<TensorImpl> {
        self.tensors@
    }

    /// The elements of each tensor, in row-major order.
    pub closed spec fn values_spec(&self) -> Seq<Seq<i64>> {
        Seq::new(self.values@.len(), |i: int| self.values@[i]@)
    }

    pub closed spec fn storages_spec(&self) -> Seq<Storage> {
        self.storages@
    }

    pub closed spec fn versions_spec(&self) -> Seq<VersionCounter> {
        self.versions@
    }

    pub closed spec fn nodes_spec(&self) -> Seq<Node> {
        self.nodes@
    }

    pub closed spec fn grad_mode_spec(&self) -> bool {
        self.grad_mode
    }

    /// Every handle is in range, every tensor's caches are fresh, and every
    /// edge leads to an earlier node, so the graph is acyclic.
    pub open spec fn wf(&self) -> bool {
        let ts = self.tensors_spec();
        let ns = self.nodes_spec();
        &&& self.values_spec().len() == ts.len()
        &&& forall|t: int| 0 <= t < ts.len() ==> (#[trigger] ts[t]).wf()
            && ts[t].storage_spec() < self.storages_spec().len()
            && ts[t].version_spec().id < self.versions_spec().len()
            && (ts[t].meta_spec() is Some ==> meta_ok(ns, t, ts[t].meta_spec()->0))
        &&& forall|n: int| 0 <= n < ns.len() ==> node_ok(ns, ts.len(), n)
    }

    /// Well-formedness survives a change that keeps tensors and nodes and
    /// does not shrink the storage and counter tables.
    pub proof fn lemma_wf_frame(old_g: &Graph, new_g: &Graph)
        requires
            old_g.wf(),
            new_g.tensors_spec() == old_g.tensors_spec(),
            new_g.values_spec().len() == old_g.values_spec().len(),
            new_g.nodes_spec() == old_g.nodes_spec(),
            new_g.storages_spec().len() >= old_g.storages_spec().len(),
            new_g.versions_spec().len() >= old_g.versions_spec().len(),
        ensures
            new_g.wf(),
    {
        let ts = new_g.tensors_spec();
        let ns = new_g.nodes_spec();
        assert forall|t: int| 0 <= t < ts.len() implies (#[trigger] ts[t]).wf()
            && ts[t].storage_spec() < new_g.storages_spec().len()
            && ts[t].version_spec().id < new_g.versions_spec().len()
            && (ts[t].meta_spec() is Some ==> meta_ok(ns, t, ts[t].meta_spec()->0)) by {
            assert(old_g.tensors_spec()[t] == ts[t]);
        }
        assert forall|n: int| 0 <= n < ns.len() implies node_ok(ns, ts.len(), n) by {
            assert(node_ok(old_g.nodes_spec(), old_g.tensors_spec().len(), n));
        }
    }

    /// `self` is `old` with possibly more nodes appended and accumulators
    /// recorded on leaves that had none; nothing else differs.
    pub open spec fn extends(&self, old: &Graph) -> bool {
        &&& self.nodes_spec().len() >= old.nodes_spec().len()
        &&& forall|n: int| 0 <= n < old.nodes_spec().len() ==> #[trigger] self.nodes_spec()[n] == old.nodes_spec()[n]
        &&& self.tensors_spec().len() == old.tensors_spec().len()
        &&& self.values_spec() == old.values_spec()
        &&& self.storages_spec() == old.storages_spec()
        &&& self.versions_spec() == old.versions_spec()
        &&& self.grad_mode_spec() == old.grad_mode_spec()
        &&& forall|t: int| 0 <= t < old.tensors_spec().len() ==> {
            &&& (#[trigger] self.tensors_spec()[t]).same_layout(&old.tensors_spec()[t])
            &&& self.tensors_spec()[t].version_spec() == old.tensors_spec()[t].version_spec()
            &&& (old.tensors_spec()[t].meta_spec() is None ==> self.tensors_spec()[t].meta_spec() is None)
            &&& (old.tensors_spec()[t].meta_spec() is Some ==> self.tensors_spec()[t].meta_spec() is Some
                && self.tensors_spec()[t].meta_spec()->0 == (AutogradMeta {
                    grad_accumulator: self.tensors_spec()[t].meta_spec()->0.grad_accumulator,
                    ..old.tensors_spec()[t].meta_spec()->0
                })
                && (old.tensors_spec()[t].meta_spec()->0.grad_accumulator is Some
                    ==> self.tensors_spec()[t].meta_spec()->0.grad_accumulator == old.tensors_spec()[t].meta_spec()->0.grad_accumulator))
        }
    }

    pub proof fn lemma_extends_refl(&self)
        ensures
            self.extends(self),
    {
    }

    pub proof fn lemma_extends_trans(a: &Graph, b: &Graph, c: &Graph)
        requires
            b.extends(a),
            c.extends(b),
        ensures
            c.extends(a),
    {
        assert forall|n: int| 0 <= n < a.nodes_spec().len() implies #[trigger] c.nodes_spec()[n] == a.nodes_spec()[n] by {
            assert(b.nodes_spec()[n] == a.nodes_spec()[n]);
        }
        assert forall|t: int| 0 <= t < a.tensors_spec().len() implies {
            &&& (#[trigger] c.tensors_spec()[t]).same_layout(&a.tensors_spec()[t])
            &&& c.tensors_spec()[t].version_spec() == a.tensors_spec()[t].version_spec()
            &&& (a.tensors_spec()[t].meta_spec() is None ==> c.tensors_spec()[t].meta_spec() is None)
            &&& (a.tensors_spec()[t].meta_spec() is Some ==> c.tensors_spec()[t].meta_spec() is Some
                && c.tensors_spec()[t].meta_spec()->0 == (AutogradMeta {
                    grad_accumulator: c.tensors_spec()[t].meta_spec()->0.grad_accumulator,
                    ..a.tensors_spec()[t].meta_spec()->0
                })
                && (a.tensors_spec()[t].meta_spec()->0.grad_accumulator is Some
                    ==> c.tensors_spec()[t].meta_spec()->0.grad_accumulator == a.tensors_spec()[t].meta_spec()->0.grad_accumulator))
        } by {
            assert(b.tensors_spec()[t].same_layout(&a.tensors_spec()[t]));
            assert(c.tensors_spec()[t].same_layout(&b.tensors_spec()[t]));
        }
    }

    /// An edge that is sound in a graph stays sound as the graph grows.
    pub proof fn lemma_edge_extends(a: &Graph, b: &Graph, e: Edge)
        requires
            b.extends(a),
            edge_ok(a.nodes_spec(), a.nodes_spec().len() as int, e),
        ensures
            edge_ok(b.nodes_spec(), b.nodes_spec().len() as int, e),
    {
        if e.function is Some {
            assert(b.nodes_spec()[e.function->0 as int] == a.nodes_spec()[e.function->0 as int]);
        }
    }

    /// Tensor handles fit in `usize`.
    pub proof fn lemma_tensors_len(&self)
        ensures
            self.tensors_spec().len() <= usize::MAX,
    {
        broadcast use vstd::std_specs::vec::axiom_spec_len;
        assert(self.tensors.len() == self.tensors@.len());
    }

    /// The autograd record of tensor `t`, if it has one.
    pub open spec fn meta_of(&self, t: Tensor) -> Option<AutogradMeta> {
        self.tensors_spec()[t.id as int].meta_spec()
    }

    pub open spec fn valid_tensor(&self, t: Tensor) -> bool {
        t.id < self.tensors_spec().len()
    }

    /// Whether `t` requires gradients.
    pub open spec fn requires_grad_spec(&self, t: Tensor) -> bool {
        self.meta_of(t) is Some && self.meta_of(t)->0.requires_grad
    }

    /// The node that produced `t`, if any.
    pub open spec fn grad_fn_spec(&self, t: Tensor) -> Option<usize> {
        if self.meta_of(t) is Some {
            self.meta_of(t)->0.grad_fn
        } else {
            None
        }
    }

    /// An empty graph with the given grad mode.
    pub fn new(grad_mode: bool) -> (r: Graph)
        ensures
            r.wf(),
            r.tensors_spec().len() == 0,
            r.nodes_spec().len() == 0,
            r.storages_spec().len() == 0,
            r.versions_spec().len() == 0,
            r.grad_mode_spec() == grad_mode,
    {
        let r = Graph {
            tensors: Vec::new(),
            values: Vec::new(),
            storages: Vec::new(),
            versions: Vec::new(),
            nodes: Vec::new(),
            grad_mode,
        };
        proof {
            assert(r.values_spec().len() == 0);
        }
        r
    }

    /// Whether forward operations are recorded for differentiation.
    pub fn is_grad_enabled(&self) -> (r: bool)
        ensures
            r == self.grad_mode_spec(),
    {
        self.grad_mode
    }

    /// Switches recording on or off and returns the previous setting, so
    /// that a scope can put it back.
    pub fn set_grad_enabled(&mut self, enabled: bool) -> (r: bool)
        ensures
            r == old(self).grad_mode_spec(),
            final(self).grad_mode_spec() == enabled,
            final(self).tensors_spec() == old(self).tensors_spec(),
            final(self).values_spec() == old(self).values_spec(),
            final(self).storages_spec() == old(self).storages_spec(),
            final(self).versions_spec() == old(self).versions_spec(),
            final(self).nodes_spec() == old(self).nodes_spec(),
    {
        let prev = self.grad_mode;
        self.grad_mode = enabled;
        prev
    }

    pub fn num_tensors(&self) -> (r: usize)
        ensures
            r == self.tensors_spec().len(),
    {
        self.tensors.len()
    }

    pub fn num_nodes(&self) -> (r: usize)
        ensures
            r == self.nodes_spec().len(),
    {
        self.nodes.len()
    }

    pub fn tensor_impl(&self, t: Tensor) -> (r: &TensorImpl)
        requires
            self.valid_tensor(t),
        ensures
            *r == self.tensors_spec()[t.id as int],
    {
        &self.tensors[t.id]
    }

    /// The elements of `t`.
    pub fn values(&self, t: Tensor) -> (r: &Vec<i64>)
        requires
            self.wf(),
            self.valid_tensor(t),
        ensures
            r@ == self.values_spec()[t.id as int],
    {
        &self.values[t.id]
    }

    pub fn node(&self, n: usize) -> (r: &Node)
        requires
            n < self.nodes_spec().len(),
        ensures
            *r == self.nodes_spec()[n as int],
    {
        &self.nodes[n]
    }

    pub fn storage(&self, s: usize) -> (r: &Storage)
        requires
            s < self.storages_spec().len(),
        ensures
            *r == self.storages_spec()[s as int],
    {
        &self.storages[s]
    }

    pub fn version(&self, v: TensorVersion) -> (r: VersionCounter)
        requires
            v.id < self.versions_spec().len(),
        ensures
            r == self.versions_spec()[v.id as int],
    {
        self.versions[v.id]
    }

    /// Adds a version counter and returns its handle.
    pub fn new_version_counter(&mut self, version: u32) -> (r: TensorVersion)
        requires
            old(self).wf(),
        ensures
            final(self).wf(),
            r.id == old(self).versions_spec().len(),
            final(self).versions_spec() == old(self).versions_spec().push(VersionCounter { version }),
            final(self).tensors_spec() == old(self).tensors_spec(),
            final(self).values_spec() == old(self).values_spec(),
            final(self).storages_spec() == old(self).storages_spec(),
            final(self).nodes_spec() == old(self).nodes_spec(),
            final(self).grad_mode_spec() == old(self).grad_mode_spec(),
    {
        let id = self.versions.len();
        self.versions.push(VersionCounter::new(version));
        proof {
            Graph::lemma_wf_frame(old(self), self);
        }
        TensorVersion { id }
    }

    /// Bumps a version counter by one, wrapping at 2^32.
    pub fn bump_version_counter(&mut self, v: TensorVersion)
        requires
            old(self).wf(),
            v.id < old(self).versions_spec().len(),
        ensures
            final(self).wf(),
            final(self).versions_spec() == old(self).versions_spec().update(
                v.id as int,
                VersionCounter { version: old(self).versions_spec()[v.id as int].version.wrapping_add(1) },
            ),
            final(self).tensors_spec() == old(self).tensors_spec(),
            final(self).values_spec() == old(self).values_spec(),
            final(self).storages_spec() == old(self).storages_spec(),
            final(self).nodes_spec() == old(self).nodes_spec(),
            final(self).grad_mode_spec() == old(self).grad_mode_spec(),
    {
        let cur = self.versions[v.id].version;
        self.versions.set(v.id, VersionCounter::new(cur.wrapping_add(1)));
        proof {
            Graph::lemma_wf_frame(old(self), self);
        }
    }

    /// Adds a storage and returns its handle.
    pub fn add_storage(&mut self, s: Storage) -> (r: usize)
        requires
            old(self).wf(),
        ensures
            final(self).wf(),
            r == old(self).storages_spec().len(),
            final(self).storages_spec() == old(self).storages_spec().push(s),
            final(self).tensors_spec() == old(self).tensors_spec(),
            final(self).values_spec() == old(self).values_spec(),
            final(self).versions_spec() == old(self).versions_spec(),
            final(self).nodes_spec() == old(self).nodes_spec(),
            final(self).grad_mode_spec() == old(self).grad_mode_spec(),
    {
        let id = self.storages.len();
        self.storages.push(s);
        proof {
            Graph::lemma_wf_frame(old(self), self);
        }
        id
    }

    /// Resizes a storage in place; see `Storage::resize_bytes`.
    pub fn resize_storage(&mut self, s: usize, size_bytes: usize) -> (r: Result<(), AutogradError>)
        requires
            old(self).wf(),
            s < old(self).storages_spec().len(),
        ensures
            final(self).wf(),
            r is Ok <==> old(self).storages_spec()[s as int].is_resizable(),
            r is Err ==> r == Err::<(), AutogradError>(AutogradError::NonResizableStorage) && *final(self) == *old(self),
            r is Ok ==> final(self).storages_spec()[s as int].bytes().len() == size_bytes
                && (forall|i: int| 0 <= i < old(self).storages_spec()[s as int].bytes().len() && i < size_bytes
                    ==> final(self).storages_spec()[s as int].bytes()[i] == old(self).storages_spec()[s as int].bytes()[i]),
            r is Ok ==> final(self).storages_spec()[s as int].is_resizable()
                && final(self).storages_spec()[s as int].device_spec() == old(self).storages_spec()[s as int].device_spec()
                && (forall|i: int| old(self).storages_spec()[s as int].bytes().len() <= i < size_bytes
                    ==> final(self).storages_spec()[s as int].bytes()[i] == 0u8),
            final(self).storages_spec().len() == old(self).storages_spec().len(),
            forall|k: int| 0 <= k < old(self).storages_spec().len() && k != s ==> final(self).storages_spec()[k] == old(self).storages_spec()[k],
            final(self).tensors_spec() == old(self).tensors_spec(),
            final(self).values_spec() == old(self).values_spec(),
            final(self).versions_spec() == old(self).versions_spec(),
            final(self).nodes_spec() == old(self).nodes_spec(),
            final(self).grad_mode_spec() == old(self).grad_mode_spec(),
    {
        if !self.storages[s].resizable() {
            return Err(AutogradError::NonResizableStorage);
        }
        let r = self.storages[s].resize_bytes(size_bytes);
        proof {
            Graph::lemma_wf_frame(old(self), self);
        }
        r
    }

    /// Adds a tensor with the given metadata and elements.
    pub fn add_tensor(&mut self, t: TensorImpl, values: Vec<i64>) -> (r: Tensor)
        requires
            old(self).wf(),
            t.wf(),
            t.storage_spec() < old(self).storages_spec().len(),
            t.version_spec().id < old(self).versions_spec().len(),
            t.meta_spec() is Some ==> meta_ok(old(self).nodes_spec(), old(self).tensors_spec().len() as int, t.meta_spec()->0),
        ensures
            final(self).wf(),
            r.id == old(self).tensors_spec().len(),
            final(self).tensors_spec() == old(self).tensors_spec().push(t),
            final(self).values_spec() == old(self).values_spec().push(values@),
            final(self).storages_spec() == old(self).storages_spec(),
            final(self).versions_spec() == old(self).versions_spec(),
            final(self).nodes_spec() == old(self).nodes_spec(),
            final(self).grad_mode_spec() == old(self).grad_mode_spec(),
    {
        let id = self.tensors.len();
        let ghost ns = self.nodes@;
        self.tensors.push(t);
        self.values.push(values);
        proof {
            assert(self.values_spec() =~= old(self).values_spec().push(values@));
            assert forall|n: int| 0 <= n < ns.len() implies node_ok(ns, self.tensors_spec().len(), n) by {
                assert(node_ok(old(self).nodes_spec(), old(self).tensors_spec().len(), n));
            }
        }
        Tensor { id }
    }

    /// A new contiguous tensor of 64-bit integers with the given sizes and
    /// elements, over a fresh resizable CPU storage of exactly its size and
    /// a fresh version counter. Fails when the element count differs from
    /// the product of the sizes or the byte size does not fit the machine.
    pub fn new_tensor(&mut self, sizes: &[usize], values: Vec<i64>, requires_grad: bool) -> (r: Result<Tensor, AutogradError>)
        requires
            old(self).wf(),
        ensures
            final(self).wf(),
            r is Ok <==> (sizes@.len() <= i64::MAX && strides_fit(sizes@) && values@.len() == prod(sizes@)
                && prod(sizes@) * 8 <= usize::MAX),
            r is Err ==> r == Err::<Tensor, AutogradError>(AutogradError::ShapeMismatch) && *final(self) == *old(self),
            r is Ok ==> ({
                let t = r->Ok_0;
                &&& t.id == old(self).tensors_spec().len()
                &&& final(self).tensors_spec().len() == old(self).tensors_spec().len() + 1
                &&& final(self).tensors_spec()[t.id as int].sizes_spec() == sizes@
                &&& final(self).values_spec()[t.id as int] == values@
                &&& final(self).requires_grad_spec(t) == requires_grad
                &&& final(self).grad_fn_spec(t) is None
                &&& final(self).meta_of(t) is Some
                &&& final(self).meta_of(t)->0.grad is None
                &&& final(self).meta_of(t)->0.grad_accumulator is None
                &&& forall|k: int| 0 <= k < old(self).tensors_spec().len() ==> final(self).tensors_spec()[k] == old(self).tensors_spec()[k]
                &&& forall|k: int| 0 <= k < old(self).tensors_spec().len() ==> final(self).values_spec()[k] == old(self).values_spec()[k]
                &&& final(self).nodes_spec() == old(self).nodes_spec()
                &&& final(self).grad_mode_spec() == old(self).grad_mode_spec()
            }),
    {
        if sizes.len() as u128 > i64::MAX as u128 {
            return Err(AutogradError::ShapeMismatch);
        }
        if extent(sizes).is_none() {
            return Err(AutogradError::ShapeMismatch);
        }
        let numel = crate::shape::numel_of(sizes);
        if values.len() != numel {
            return Err(AutogradError::ShapeMismatch);
        }
        let nbytes = match numel.checked_mul(8) {
            Some(b) => b,
            None => {
                return Err(AutogradError::ShapeMismatch);
            },
        };
        let sid = self.add_storage(Storage::new(nbytes, true, Device::cpu()));
        let vid = self.new_version_counter(0);
        let mut ti = TensorImpl::new(sid, TypeMeta::new(ScalarType::Long), Some(Device::cpu()), vid);
        ti.set_sizes_contiguous(sizes);
        ti.set_requires_grad(requires_grad);
        let ghost before = self.tensors@;
        let ghost vbefore = self.values_spec();
        let t = self.add_tensor(ti, values);
        assert(forall|k: int| 0 <= k < before.len() ==> self.tensors@[k] == before[k]);
        assert(forall|k: int| 0 <= k < vbefore.len() ==> self.values_spec()[k] == vbefore[k]);
        Ok(t)
    }

    /// Adds a node after every existing one and returns its handle.
    pub fn add_node(&mut self, node: Node) -> (r: usize)
        requires
            old(self).wf(),
            node.next_edges@.len() == num_outputs(node.kind),
            kind_ok(node.kind),
            forall|i: int| 0 <= i < node.next_edges@.len() ==> edge_ok(old(self).nodes_spec(), old(self).nodes_spec().len() as int, #[trigger] node.next_edges@[i]),
            node.kind is AccumulateGrad ==> node.kind->variable.id < old(self).tensors_spec().len() && node.input_metadata@.len() == 1,
        ensures
            final(self).wf(),
            r == old(self).nodes_spec().len(),
            final(self).nodes_spec() == old(self).nodes_spec().push(node),
            final(self).tensors_spec() == old(self).tensors_spec(),
            final(self).values_spec() == old(self).values_spec(),
            final(self).storages_spec() == old(self).storages_spec(),
            final(self).versions_spec() == old(self).versions_spec(),
            final(self).grad_mode_spec() == old(self).grad_mode_spec(),
    {
        let id = self.nodes.len();
        let ghost old_ns = self.nodes@;
        self.nodes.push(node);
        proof {
            let ns = self.nodes@;
            assert forall|n: int| 0 <= n < ns.len() implies node_ok(ns, self.tensors_spec().len(), n) by {
                if n < old_ns.len() {
                    assert(node_ok(old(self).nodes_spec(), old(self).tensors_spec().len(), n));
                    assert forall|i: int| 0 <= i < ns[n].next_edges@.len() implies edge_ok(ns, n, #[trigger] ns[n].next_edges@[i]) by {
                        assert(edge_ok(old_ns, n, old_ns[n].next_edges@[i]));
                    }
                } else {
                    assert forall|i: int| 0 <= i < ns[n].next_edges@.len() implies edge_ok(ns, n, #[trigger] ns[n].next_edges@[i]) by {
                        assert(edge_ok(old_ns, old_ns.len() as int, node.next_edges@[i]));
                    }
                }
            }
            assert forall|t: int| 0 <= t < self.tensors@.len() && (#[trigger] self.tensors@[t]).meta_spec() is Some implies meta_ok(ns, t, self.tensors@[t].meta_spec()->0) by {
                assert(meta_ok(old_ns, t, self.tensors@[t].meta_spec()->0));
            }
        }
        id
    }

    /// Replaces the autograd record of `t`.
    pub fn set_meta(&mut self, t: Tensor, m: AutogradMeta)
        requires
            old(self).wf(),
            old(self).valid_tensor(t),
            meta_ok(old(self).nodes_spec(), t.id as int, m),
        ensures
            final(self).wf(),
            final(self).tensors_spec().len() == old(self).tensors_spec().len(),
            final(self).meta_of(t) == Some(m),
            final(self).tensors_spec()[t.id as int].same_layout(&old(self).tensors_spec()[t.id as int]),
            final(self).tensors_spec()[t.id as int].version_spec() == old(self).tensors_spec()[t.id as int].version_spec(),
            forall|k: int| 0 <= k < old(self).tensors_spec().len() && k != t.id ==> final(self).tensors_spec()[k] == old(self).tensors_spec()[k],
            final(self).values_spec() == old(self).values_spec(),
            final(self).storages_spec() == old(self).storages_spec(),
            final(self).versions_spec() == old(self).versions_spec(),
            final(self).nodes_spec() == old(self).nodes_spec(),
            final(self).grad_mode_spec() == old(self).grad_mode_spec(),
    {
        self.tensors[t.id].set_autograd_meta(Some(m));
        proof {
            let ts = self.tensors_spec();
            let ns = self.nodes_spec();
            assert forall|k: int| 0 <= k < ts.len() implies (#[trigger] ts[k]).wf()
                && ts[k].storage_spec() < self.storages_spec().len()
                && ts[k].version_spec().id < self.versions_spec().len()
                && (ts[k].meta_spec() is Some ==> meta_ok(ns, k, ts[k].meta_spec()->0)) by {
                assert(old(self).tensors_spec()[k].wf());
            }
            assert forall|n: int| 0 <= n < ns.len() implies node_ok(ns, ts.len(), n) by {
                assert(node_ok(old(self).nodes_spec(), old(self).tensors_spec().len(), n));
            }
        }
    }

    /// Records (or clears) the accumulator of `t`.
    pub fn set_accumulator(&mut self, t: Tensor, acc: Option<usize>)
        requires
            old(self).wf(),
            old(self).valid_tensor(t),
            acc is Some ==> acc->0 < old(self).nodes_spec().len()
                && old(self).nodes_spec()[acc->0 as int].kind == (NodeKind::AccumulateGrad { variable: t }),
        ensures
            final(self).wf(),
            final(self).tensors_spec().len() == old(self).tensors_spec().len(),
            final(self).meta_of(t) is Some,
            old(self).meta_of(t) is Some ==> final(self).meta_of(t)->0 == (AutogradMeta { grad_accumulator: acc, ..old(self).meta_of(t)->0 }),
            old(self).meta_of(t) is None ==> final(self).meta_of(t)->0 == (AutogradMeta {
                requires_grad: false, grad: None, grad_fn: None, output_nr: 0, grad_accumulator: acc }),
            final(self).tensors_spec()[t.id as int].same_layout(&old(self).tensors_spec()[t.id as int]),
            final(self).tensors_spec()[t.id as int].version_spec() == old(self).tensors_spec()[t.id as int].version_spec(),
            forall|k: int| 0 <= k < old(self).tensors_spec().len() && k != t.id ==> final(self).tensors_spec()[k] == old(self).tensors_spec()[k],
            final(self).values_spec() == old(self).values_spec(),
            final(self).storages_spec() == old(self).storages_spec(),
            final(self).versions_spec() == old(self).versions_spec(),
            final(self).nodes_spec() == old(self).nodes_spec(),
            final(self).grad_mode_spec() == old(self).grad_mode_spec(),
    {
        self.tensors[t.id].set_grad_accumulator(acc);
        proof {
            let ts = self.tensors_spec();
            let ns = self.nodes_spec();
            assert forall|k: int| 0 <= k < ts.len() implies (#[trigger] ts[k]).wf()
                && ts[k].storage_spec() < self.storages_spec().len()
                && ts[k].version_spec().id < self.versions_spec().len()
                && (ts[k].meta_spec() is Some ==> meta_ok(ns, k, ts[k].meta_spec()->0)) by {
                assert(old(self).tensors_spec()[k].wf());
                if k == t.id && old(self).meta_of(t) is Some {
                    assert(meta_ok(ns, k, old(self).meta_of(t)->0));
                }
            }
            assert forall|n: int| 0 <= n < ns.len() implies node_ok(ns, ts.len(), n) by {
                assert(node_ok(old(self).nodes_spec(), old(self).tensors_spec().len(), n));
            }
        }
    }

    /// Makes `t` the output `input_nr` of node `function`.
    pub fn set_edge_of(&mut self, t: Tensor, function: Option<usize>, input_nr: usize)
        requires
            old(self).wf(),
            old(self).valid_tensor(t),
            function is Some,
            function->0 < old(self).nodes_spec().len(),
            input_nr < old(self).nodes_spec()[function->0 as int].input_metadata@.len(),
        ensures
            final(self).wf(),
            final(self).tensors_spec().len() == old(self).tensors_spec().len(),
            final(self).meta_of(t) is Some,
            old(self).meta_of(t) is Some ==> final(self).meta_of(t)->0 == (AutogradMeta { grad_fn: function, output_nr: input_nr, ..old(self).meta_of(t)->0 }),
            old(self).meta_of(t) is None ==> final(self).meta_of(t)->0 == (AutogradMeta {
                requires_grad: false, grad: None, grad_fn: function, output_nr: input_nr, grad_accumulator: None }),
            final(self).tensors_spec()[t.id as int].same_layout(&old(self).tensors_spec()[t.id as int]),
            final(self).tensors_spec()[t.id as int].version_spec() == old(self).tensors_spec()[t.id as int].version_spec(),
            forall|k: int| 0 <= k < old(self).tensors_spec().len() && k != t.id ==> final(self).tensors_spec()[k] == old(self).tensors_spec()[k],
            final(self).values_spec() == old(self).values_spec(),
            final(self).storages_spec() == old(self).storages_spec(),
            final(self).versions_spec() == old(self).versions_spec(),
            final(self).nodes_spec() == old(self).nodes_spec(),
            final(self).grad_mode_spec() == old(self).grad_mode_spec(),
    {
        self.tensors[t.id].set_grad_fn(function);
        self.tensors[t.id].set_output_nr(input_nr);
        proof {
            let ts = self.tensors_spec();
            let ns = self.nodes_spec();
            assert forall|k: int| 0 <= k < ts.len() implies (#[trigger] ts[k]).wf()
                && ts[k].storage_spec() < self.storages_spec().len()
                && ts[k].version_spec().id < self.versions_spec().len()
                && (ts[k].meta_spec() is Some ==> meta_ok(ns, k, ts[k].meta_spec()->0)) by {
                assert(old(self).tensors_spec()[k].wf());
                if k == t.id && old(self).meta_of(t) is Some {
                    assert(meta_ok(ns, k, old(self).meta_of(t)->0));
                }
            }
            assert forall|n: int| 0 <= n < ns.len() implies node_ok(ns, ts.len(), n) by {
                assert(node_ok(old(self).nodes_spec(), old(self).tensors_spec().len(), n));
            }
        }
    }

    /// Gives `t` the sizes `size` with row-major strides.
    pub fn set_sizes_contiguous_of(&mut self, t: Tensor, size: &[usize])
        requires
            old(self).wf(),
            old(self).valid_tensor(t),
            strides_fit(size@),
            size@.len() <= i64::MAX,
        ensures
            final(self).wf(),
            final(self).tensors_spec().len() == old(self).tensors_spec().len(),
            final(self).tensors_spec()[t.id as int].sizes_spec() == size@,
            final(self).tensors_spec()[t.id as int].strides_spec() == crate::shape::contiguous_strides(size@),
            final(self).tensors_spec()[t.id as int].numel_spec() == prod(size@),
            final(self).tensors_spec()[t.id as int].storage_spec() == old(self).tensors_spec()[t.id as int].storage_spec(),
            final(self).tensors_spec()[t.id as int].offset_spec() == old(self).tensors_spec()[t.id as int].offset_spec(),
            final(self).tensors_spec()[t.id as int].dtype_spec() == old(self).tensors_spec()[t.id as int].dtype_spec(),
            final(self).meta_of(t) == old(self).meta_of(t),
            forall|k: int| 0 <= k < old(self).tensors_spec().len() && k != t.id ==> final(self).tensors_spec()[k] == old(self).tensors_spec()[k],
            final(self).values_spec() == old(self).values_spec(),
            final(self).storages_spec() == old(self).storages_spec(),
            final(self).versions_spec() == old(self).versions_spec(),
            final(self).nodes_spec() == old(self).nodes_spec(),
            final(self).grad_mode_spec() == old(self).grad_mode_spec(),
    {
        self.tensors[t.id].set_sizes_contiguous(size);
        proof {
            let ts = self.tensors_spec();
            let ns = self.nodes_spec();
            assert forall|k: int| 0 <= k < ts.len() implies (#[trigger] ts[k]).wf()
                && ts[k].storage_spec() < self.storages_spec().len()
                && ts[k].version_spec().id < self.versions_spec().len()
                && (ts[k].meta_spec() is Some ==> meta_ok(ns, k, ts[k].meta_spec()->0)) by {
                assert(old(self).tensors_spec()[k].wf());
            }
            assert forall|n: int| 0 <= n < ns.len() implies node_ok(ns, ts.len(), n) by {
                assert(node_ok(old(self).nodes_spec(), old(self).tensors_spec().len(), n));
            }
        }
    }

    /// Bumps the version counter of `t`.
    pub fn bump_version(&mut self, t: Tensor)
        requires
            old(self).wf(),
            old(self).valid_tensor(t),
        ensures
            final(self).wf(),
            final(self).versions_spec() == old(self).versions_spec().update(
                old(self).tensors_spec()[t.id as int].version_spec().id as int,
                VersionCounter {
                    version: old(self).versions_spec()[old(self).tensors_spec()[t.id as int].version_spec().id as int].version.wrapping_add(1),
                },
            ),
            final(self).tensors_spec() == old(self).tensors_spec(),
            final(self).nodes_spec() == old(self).nodes_spec(),
    {
        let v = self.tensors[t.id].version_counter();
        self.bump_version_counter(v);
    }

    /// Replaces the elements of `t`.
    pub fn set_values(&mut self, t: Tensor, values: Vec<i64>)
        requires
            old(self).wf(),
            old(self).valid_tensor(t),
        ensures
            final(self).wf(),
            final(self).values_spec() == old(self).values_spec().update(t.id as int, values@),
            final(self).tensors_spec() == old(self).tensors_spec(),
            final(self).storages_spec() == old(self).storages_spec(),
            final(self).versions_spec() == old(self).versions_spec(),
            final(self).nodes_spec() == old(self).nodes_spec(),
            final(self).grad_mode_spec() == old(self).grad_mode_spec(),
    {
        let ghost vv = values@;
        self.values.set(t.id, values);
        proof {
            assert(self.values_spec() =~= old(self).values_spec().update(t.id as int, vv));
            Graph::lemma_wf_frame(old(self), self);
        }
    }

    /// Sets every element of the gradient of `t`, if it has one, to zero.
    pub fn zero_grad_of(&mut self, t: Tensor)
        requires
            old(self).wf(),
            old(self).valid_tensor(t),
        ensures
            final(self).wf(),
            final(self).tensors_spec().len() == old(self).tensors_spec().len(),
            old(self).meta_of(t) is Some && old(self).meta_of(t)->0.grad is Some ==> final(self).meta_of(t) is Some
                && final(self).meta_of(t)->0.grad is Some
                && final(self).meta_of(t)->0.grad->0@ == Seq::new(old(self).meta_of(t)->0.grad->0@.len(), |i: int| 0i64),
            old(self).meta_of(t) is Some && old(self).meta_of(t)->0.grad is Some ==> final(self).meta_of(t)->0.grad_fn == old(self).meta_of(t)->0.grad_fn
                && final(self).meta_of(t)->0.requires_grad == old(self).meta_of(t)->0.requires_grad
                && final(self).meta_of(t)->0.grad_accumulator == old(self).meta_of(t)->0.grad_accumulator
                && final(self).tensors_spec()[t.id as int].same_layout(&old(self).tensors_spec()[t.id as int]),
            !(old(self).meta_of(t) is Some && old(self).meta_of(t)->0.grad is Some) ==> *final(self) == *old(self),
            forall|k: int| 0 <= k < old(self).tensors_spec().len() && k != t.id ==> final(self).tensors_spec()[k] == old(self).tensors_spec()[k],
            final(self).nodes_spec() == old(self).nodes_spec(),
            final(self).values_spec() == old(self).values_spec(),
    {
        let n = match self.tensors[t.id].grad() {
            Some(v) => v.len(),
            None => {
                return;
            },
        };
        let zeros: Vec<i64> = vec![0i64; n];
        proof {
            assert(zeros@ =~= Seq::new(n as nat, |i: int| 0i64));
        }
        self.tensors[t.id].set_grad(zeros);
        proof {
            let ts = self.tensors_spec();
            let ns = self.nodes_spec();
            assert forall|k: int| 0 <= k < ts.len() implies (#[trigger] ts[k]).wf()
                && ts[k].storage_spec() < self.storages_spec().len()
                && ts[k].version_spec().id < self.versions_spec().len()
                && (ts[k].meta_spec() is Some ==> meta_ok(ns, k, ts[k].meta_spec()->0)) by {
                assert(old(self).tensors_spec()[k].wf());
                if k == t.id {
                    assert(meta_ok(ns, k, old(self).meta_of(t)->0));
                }
            }
            assert forall|m: int| 0 <= m < ns.len() implies node_ok(ns, ts.len(), m) by {
                assert(node_ok(old(self).nodes_spec(), old(self).tensors_spec().len(), m));
            }
        }
    }

    /// Gives `t` another version counter.
    pub fn set_tensor_version(&mut self, t: Tensor, v: TensorVersion)
        requires
            old(self).wf(),
            old(self).valid_tensor(t),
            v.id < old(self).versions_spec().len(),
        ensures
            final(self).wf(),
            final(self).tensors_spec().len() == old(self).tensors_spec().len(),
            final(self).tensors_spec()[t.id as int].version_spec() == v,
            final(self).meta_of(t) == old(self).meta_of(t),
            final(self).tensors_spec()[t.id as int].same_layout(&old(self).tensors_spec()[t.id as int]),
            forall|k: int| 0 <= k < old(self).tensors_spec().len() && k != t.id ==> final(self).tensors_spec()[k] == old(self).tensors_spec()[k],
            final(self).values_spec() == old(self).values_spec(),
            final(self).storages_spec() == old(self).storages_spec(),
            final(self).versions_spec() == old(self).versions_spec(),
            final(self).nodes_spec() == old(self).nodes_spec(),
            final(self).grad_mode_spec() == old(self).grad_mode_spec(),
    {
        self.tensors[t.id].set_version_counter(v);
        proof {
            let ts = self.tensors_spec();
            let ns = self.nodes_spec();
            assert forall|k: int| 0 <= k < ts.len() implies (#[trigger] ts[k]).wf()
                && ts[k].storage_spec() < self.storages_spec().len()
                && ts[k].version_spec().id < self.versions_spec().len()
                && (ts[k].meta_spec() is Some ==> meta_ok(ns, k, ts[k].meta_spec()->0)) by {
                assert(old(self).tensors_spec()[k].wf());
            }
            assert forall|n: int| 0 <= n < ns.len() implies node_ok(ns, ts.len(), n) by {
                assert(node_ok(old(self).nodes_spec(), old(self).tensors_spec().len(), n));
            }
        }
    }

    /// Adds `grad` into the gradient of leaf `t` (an empty gradient takes
    /// it as it is).
    pub fn accumulate_grad(&mut self, t: Tensor, grad: &Vec<i64>)
        requires
            old(self).wf(),
            old(self).valid_tensor(t),
        ensures
            final(self).wf(),
            final(self).tensors_spec().len() == old(self).tensors_spec().len(),
            final(self).meta_of(t) is Some,
            old(self).meta_of(t) is Some && old(self).meta_of(t)->0.grad is Some ==> final(self).meta_of(t)->0.grad is Some
                && final(self).meta_of(t)->0.grad->0@ == grad_sum(old(self).meta_of(t)->0.grad->0@, grad@),
            !(old(self).meta_of(t) is Some && old(self).meta_of(t)->0.grad is Some) ==> final(self).meta_of(t)->0.grad is Some
                && final(self).meta_of(t)->0.grad->0@ == grad@,
            final(self).meta_of(t)->0.grad_fn == (if old(self).meta_of(t) is Some { old(self).meta_of(t)->0.grad_fn } else { None }),
            final(self).meta_of(t)->0.requires_grad == old(self).requires_grad_spec(t),
            final(self).tensors_spec()[t.id as int].same_layout(&old(self).tensors_spec()[t.id as int]),
            forall|k: int| 0 <= k < old(self).tensors_spec().len() && k != t.id ==> final(self).tensors_spec()[k] == old(self).tensors_spec()[k],
            final(self).values_spec() == old(self).values_spec(),
            final(self).storages_spec() == old(self).storages_spec(),
            final(self).versions_spec() == old(self).versions_spec(),
            final(self).nodes_spec() == old(self).nodes_spec(),
            final(self).grad_mode_spec() == old(self).grad_mode_spec(),
    {
        let mut m = match self.tensors[t.id].get_autogradmeta() {
            Some(m) => m.clone_meta(),
            None => AutogradMeta::new(),
        };
        let next = match &m.grad {
            Some(old_grad) => grad_sum_exec(old_grad, grad),
            None => crate::node::copy_grad(grad),
        };
        m.grad = Some(next);
        self.set_meta(t, m);
    }

    /// Registers a forward output of `numel` elements with node `n` and
    /// returns its input slot.
    pub fn add_input_metadata(&mut self, n: usize, numel: usize) -> (r: Option<usize>)
        requires
            old(self).wf(),
            n < old(self).nodes_spec().len(),
        ensures
            final(self).wf(),
            r is None <==> (old(self).nodes_spec()[n as int].kind is AccumulateGrad
                || old(self).nodes_spec()[n as int].input_metadata@.len() == usize::MAX),
            r is None ==> *final(self) == *old(self),
            r is Some ==> r->0 == old(self).nodes_spec()[n as int].input_metadata@.len()
                && final(self).nodes_spec() == old(self).nodes_spec().update(n as int, Node {
                    input_metadata: final(self).nodes_spec()[n as int].input_metadata,
                    ..old(self).nodes_spec()[n as int]
                })
                && final(self).nodes_spec()[n as int].input_metadata@ == old(self).nodes_spec()[n as int].input_metadata@.push(numel),
            final(self).tensors_spec() == old(self).tensors_spec(),
            final(self).values_spec() == old(self).values_spec(),
            final(self).storages_spec() == old(self).storages_spec(),
            final(self).versions_spec() == old(self).versions_spec(),
            final(self).grad_mode_spec() == old(self).grad_mode_spec(),
    {
        if self.nodes[n].input_metadata.len() == usize::MAX {
            return None;
        }
        if let NodeKind::AccumulateGrad { .. } = self.nodes[n].kind {
            return None;
        }
        let ghost old_ns = self.nodes@;
        let slot = self.nodes[n].add_input_metadata(numel);
        proof {
            let ns = self.nodes@;
            assert forall|m: int| 0 <= m < ns.len() implies node_ok(ns, self.tensors_spec().len(), m) by {
                assert(node_ok(old(self).nodes_spec(), old(self).tensors_spec().len(), m));
                assert forall|i: int| 0 <= i < ns[m].next_edges@.len() implies edge_ok(ns, m, #[trigger] ns[m].next_edges@[i]) by {
                    assert(edge_ok(old_ns, m, old_ns[m].next_edges@[i]));
                }
            }
            assert forall|t: int| 0 <= t < self.tensors@.len() && (#[trigger] self.tensors@[t]).meta_spec() is Some implies meta_ok(ns, t, self.tensors@[t].meta_spec()->0) by {
                assert(meta_ok(old_ns, t, self.tensors@[t].meta_spec()->0));
            }
            assert(ns =~= old_ns.update(n as int, Node { input_metadata: ns[n as int].input_metadata, ..old_ns[n as int] }));
        }
        Some(slot)
    }
}

} // verus!
