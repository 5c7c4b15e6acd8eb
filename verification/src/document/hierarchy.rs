//! Group and clipping structure of a layer stack: every reference resolves, parents are
//! groups, the render dependencies form no cycle, nesting stays shallow and clip bases are
//! lower siblings that can supply alpha.
use crate::document::TargetId;
use crate::error::{ErrorCode, PicError};
use crate::limits::ResourceLimits;
use vstd::prelude::*;

verus! {

pub const MAX_GROUP_DEPTH: usize = 32;

/// What a layer is, as far as the structure of the stack is concerned.
#[derive(Debug, Clone, Copy, PartialEq, Eq, Structural)]
pub enum LayerKind {
    Raster,
    Group,
    Text,
    Adjustment,
}

/// What the structural checks read of one layer.
pub struct LayerLinks {
    pub id: TargetId,
    pub kind: LayerKind,
    pub parent: Option<TargetId>,
    pub clip: Option<TargetId>,
    /// Whether the layer's composed transform to the canvas is finite and reliably invertible.
    pub mapping_ok: bool,
    pub visible: bool,
    /// The layer raster's local dimensions.
    pub width: u32,
    pub height: u32,
    /// Whether the layer has a coverage mask, which always has the layer's local dimensions.
    pub has_mask: bool,
}

pub open spec fn id_view(t: Option<TargetId>) -> Option<Seq<char>> {
    match t {
        Some(t) => Some(t.0@),
        None => None,
    }
}

/// `i` is the last layer whose ID is `id`: the layer a reference to `id` resolves to.
pub open spec fn is_last(s: Seq<LayerLinks>, id: Seq<char>, i: int) -> bool {
    &&& 0 <= i < s.len()
    &&& s[i].id.0@ == id
    &&& forall|j: int| i < j < s.len() ==> (#[trigger] s[j]).id.0@ != id
}

pub open spec fn lookup(s: Seq<LayerLinks>, id: Seq<char>) -> Option<int> {
    if exists|i: int| is_last(s, id, i) {
        Some(choose|i: int| is_last(s, id, i))
    } else {
        None
    }
}

pub open spec fn parent_of(s: Seq<LayerLinks>, v: int) -> Option<int> {
    match s[v].parent {
        Some(p) => lookup(s, p.0@),
        None => None,
    }
}

pub open spec fn clip_of(s: Seq<LayerLinks>, v: int) -> Option<int> {
    match s[v].clip {
        Some(c) => lookup(s, c.0@),
        None => None,
    }
}

/// The first failure among the references of layer `i`: its parent must exist and be a
/// group, and its clip base must exist.
pub open spec fn reference_error(s: Seq<LayerLinks>, i: int) -> Option<ErrorCode> {
    let clip_error = match s[i].clip {
        Some(c) => if lookup(s, c.0@) is None {
            Some(ErrorCode::InvalidTarget)
        } else {
            None
        },
        None => None,
    };
    match s[i].parent {
        Some(p) => match lookup(s, p.0@) {
            None => Some(ErrorCode::InvalidTarget),
            Some(q) => if s[q].kind != LayerKind::Group {
                Some(ErrorCode::InvalidHierarchy)
            } else {
                clip_error
            },
        },
        None => clip_error,
    }
}

pub open spec fn first_reference_error(s: Seq<LayerLinks>, k: nat) -> Option<ErrorCode>
    decreases k,
{
    if k == 0 {
        None
    } else {
        match first_reference_error(s, (k - 1) as nat) {
            Some(e) => Some(e),
            None => reference_error(s, k - 1),
        }
    }
}

/// `u` must be rendered before `v` is complete: a group reads its children and a clipped
/// layer reads its base.
pub open spec fn edge(s: Seq<LayerLinks>, u: int, v: int) -> bool {
    parent_of(s, v) == Some(u) || clip_of(s, u) == Some(v)
}

/// `rank` orders the layers so that every dependency points forward.
pub open spec fn ranked(s: Seq<LayerLinks>, rank: Seq<int>) -> bool {
    &&& rank.len() == s.len()
    &&& forall|u: int, v: int|
        0 <= u < s.len() && 0 <= v < s.len() && #[trigger] edge(s, u, v) ==> rank[u] < rank[v]
}

/// The render dependencies contain no cycle.
pub open spec fn acyclic(s: Seq<LayerLinks>) -> bool {
    exists|rank: Seq<int>| ranked(s, rank)
}

/// Layer `i` has more than `k` ancestors.
pub open spec fn too_deep(s: Seq<LayerLinks>, i: int, k: nat) -> bool
    decreases k,
{
    match parent_of(s, i) {
        None => false,
        Some(q) => if k == 0 {
            true
        } else {
            too_deep(s, q, (k - 1) as nat)
        },
    }
}

/// The first failure of layer `i` once the stack is known to be acyclic.
pub open spec fn layer_error(s: Seq<LayerLinks>, i: int) -> Option<ErrorCode> {
    if too_deep(s, i, MAX_GROUP_DEPTH as nat) {
        Some(ErrorCode::ResourceLimit)
    } else if !s[i].mapping_ok {
        Some(ErrorCode::InvalidHierarchy)
    } else {
        match clip_of(s, i) {
            Some(b) => if b >= i || id_view(s[b].parent) != id_view(s[i].parent) || s[b].kind
                == LayerKind::Adjustment {
                Some(ErrorCode::InvalidHierarchy)
            } else {
                None
            },
            None => None,
        }
    }
}

pub open spec fn first_layer_error(s: Seq<LayerLinks>, k: nat) -> Option<ErrorCode>
    decreases k,
{
    if k == 0 {
        None
    } else {
        match first_layer_error(s, (k - 1) as nat) {
            Some(e) => Some(e),
            None => layer_error(s, k - 1),
        }
    }
}

/// The verdict on a layer stack: `None` when it is well formed, else the code of the first
/// failure in the order references, cycles, per-layer checks.
pub open spec fn hierarchy_error(s: Seq<LayerLinks>) -> Option<ErrorCode> {
    match first_reference_error(s, s.len()) {
        Some(e) => Some(e),
        None => if !acyclic(s) {
            Some(ErrorCode::DependencyCycle)
        } else {
            first_layer_error(s, s.len())
        },
    }
}

proof fn lemma_lookup_is(s: Seq<LayerLinks>, id: Seq<char>, i: int)
    requires
        is_last(s, id, i),
    ensures
        lookup(s, id) == Some(i),
{
    let c = choose|j: int| is_last(s, id, j);
    assert(is_last(s, id, c));
    if c < i {
        assert(s[i].id.0@ != id);
    } else if c > i {
        assert(s[c].id.0@ != id);
    }
}

proof fn lemma_first_reference_sticky(s: Seq<LayerLinks>, i: nat, k: nat)
    requires
        i <= k,
        first_reference_error(s, i) is Some,
    ensures
        first_reference_error(s, k) == first_reference_error(s, i),
    decreases k - i,
{
    if i < k {
        lemma_first_reference_sticky(s, i, (k - 1) as nat);
    }
}

proof fn lemma_first_layer_sticky(s: Seq<LayerLinks>, i: nat, k: nat)
    requires
        i <= k,
        first_layer_error(s, i) is Some,
    ensures
        first_layer_error(s, k) == first_layer_error(s, i),
    decreases k - i,
{
    if i < k {
        lemma_first_layer_sticky(s, i, (k - 1) as nat);
    }
}

proof fn lemma_references_hold(s: Seq<LayerLinks>, k: nat, i: int)
    requires
        first_reference_error(s, k) is None,
        0 <= i < k,
    ensures
        reference_error(s, i) is None,
    decreases k,
{
    if i < k - 1 {
        lemma_references_hold(s, (k - 1) as nat, i);
    }
}

/// The last layer whose ID equals `id`.
fn find(layers: &Vec<LayerLinks>, id: &TargetId) -> (r: Option<usize>)
    ensures
        match r {
            Some(i) => lookup(layers@, id.0@) == Some(i as int),
            None => lookup(layers@, id.0@) is None,
        },
{
    let mut k = layers.len();
    while k > 0
        invariant
            k <= layers@.len(),
            forall|j: int| k <= j < layers@.len() ==> (#[trigger] layers@[j]).id.0@ != id.0@,
        decreases k,
    {
        k -= 1;
        if layers[k].id.0 == id.0 {
            proof {
                lemma_lookup_is(layers@, id.0@, k as int);
            }
            return Some(k);
        }
    }
    assert(!exists|i: int| is_last(layers@, id.0@, i)) by {
        assert forall|i: int| !is_last(layers@, id.0@, i) by {
            if 0 <= i < layers@.len() {
                assert(layers@[i].id.0@ != id.0@);
            }
        }
    }
    None
}

fn same_target(a: &Option<TargetId>, b: &Option<TargetId>) -> (r: bool)
    ensures
        r == (id_view(*a) == id_view(*b)),
{
    match (a, b) {
        (Some(x), Some(y)) => x.0 == y.0,
        (None, None) => true,
        _ => false,
    }
}

fn missing_dependency(id: &TargetId) -> (e: PicError)
    ensures
        e.code == ErrorCode::InvalidTarget,
{
    let mut message = String::from_str("dependency '");
    message.append(id.0.as_str());
    message.append("' does not exist");
    PicError::new(ErrorCode::InvalidTarget, message.as_str())
}

pub open spec fn as_index(o: Option<usize>) -> Option<int> {
    match o {
        Some(i) => Some(i as int),
        None => None,
    }
}

pub open spec fn none_done(n: nat) -> Seq<bool> {
    Seq::new(n, |j: int| false)
}

/// `u` is unfinished and clips to `v`.
pub open spec fn clipper(s: Seq<LayerLinks>, done: Seq<bool>, u: int, v: int) -> bool {
    !done[u] && clip_of(s, u) == Some(v)
}

/// The unfinished layers below `k` that clip to `v`.
pub open spec fn clip_count(s: Seq<LayerLinks>, done: Seq<bool>, v: int, k: nat) -> nat
    decreases k,
{
    if k == 0 {
        0
    } else {
        clip_count(s, done, v, (k - 1) as nat) + if clipper(s, done, k - 1, v) {
            1nat
        } else {
            0nat
        }
    }
}

pub open spec fn parent_pending(s: Seq<LayerLinks>, done: Seq<bool>, v: int) -> nat {
    match parent_of(s, v) {
        Some(p) => if !done[p] {
            1nat
        } else {
            0nat
        },
        None => 0nat,
    }
}

/// The dependencies into `v` from layers not yet finished.
pub open spec fn pending(s: Seq<LayerLinks>, done: Seq<bool>, v: int) -> nat {
    parent_pending(s, done, v) + clip_count(s, done, v, s.len())
}

pub open spec fn count_done(done: Seq<bool>, k: nat) -> nat
    decreases k,
{
    if k == 0 {
        0
    } else {
        count_done(done, (k - 1) as nat) + if done[k - 1] {
            1nat
        } else {
            0nat
        }
    }
}

proof fn lemma_clip_count_bound(s: Seq<LayerLinks>, done: Seq<bool>, v: int, k: nat)
    ensures
        clip_count(s, done, v, k) <= k,
    decreases k,
{
    if k > 0 {
        lemma_clip_count_bound(s, done, v, (k - 1) as nat);
    }
}

proof fn lemma_clip_count_zero(s: Seq<LayerLinks>, done: Seq<bool>, v: int, k: nat)
    ensures
        clip_count(s, done, v, k) == 0 <==> forall|u: int| 0 <= u < k ==> !clipper(s, done, u, v),
    decreases k,
{
    if k > 0 {
        lemma_clip_count_zero(s, done, v, (k - 1) as nat);
    }
}

proof fn lemma_clip_count_finish(s: Seq<LayerLinks>, done: Seq<bool>, x: int, v: int, k: nat)
    requires
        0 <= x < done.len(),
        !done[x],
        k <= done.len(),
    ensures
        clip_count(s, done.update(x, true), v, k) + (if x < k && clip_of(s, x) == Some(v) {
            1int
        } else {
            0int
        }) == clip_count(s, done, v, k),
    decreases k,
{
    if k > 0 {
        lemma_clip_count_finish(s, done, x, v, (k - 1) as nat);
        assert(done.update(x, true)[k - 1] == (if k - 1 == x { true } else { done[k - 1] }));
    }
}

proof fn lemma_count_done_finish(done: Seq<bool>, x: int, k: nat)
    requires
        0 <= x < done.len(),
        !done[x],
        k <= done.len(),
    ensures
        count_done(done.update(x, true), k) == count_done(done, k) + if x < k {
            1int
        } else {
            0int
        },
    decreases k,
{
    if k > 0 {
        lemma_count_done_finish(done, x, (k - 1) as nat);
        assert(done.update(x, true)[k - 1] == (if k - 1 == x { true } else { done[k - 1] }));
    }
}

proof fn lemma_count_done_bound(done: Seq<bool>, k: nat)
    requires
        k <= done.len(),
    ensures
        count_done(done, k) <= k,
        count_done(done, k) == k <==> forall|j: int| 0 <= j < k ==> done[j],
        (forall|j: int| 0 <= j < k ==> !done[j]) ==> count_done(done, k) == 0,
    decreases k,
{
    if k > 0 {
        lemma_count_done_bound(done, (k - 1) as nat);
    }
}

/// The unfinished layer of least rank below `k`.
pub open spec fn least_unfinished(done: Seq<bool>, rank: Seq<int>, k: nat) -> Option<int>
    decreases k,
{
    if k == 0 {
        None
    } else {
        let prev = least_unfinished(done, rank, (k - 1) as nat);
        if done[k - 1] {
            prev
        } else {
            match prev {
                None => Some(k - 1),
                Some(m) => if rank[k - 1] < rank[m] {
                    Some(k - 1)
                } else {
                    Some(m)
                },
            }
        }
    }
}

proof fn lemma_least_unfinished(done: Seq<bool>, rank: Seq<int>, k: nat)
    ensures
        match least_unfinished(done, rank, k) {
            None => forall|j: int| 0 <= j < k ==> done[j],
            Some(m) => 0 <= m < k && !done[m] && forall|j: int|
                0 <= j < k && !done[j] ==> rank[m] <= rank[j],
        },
    decreases k,
{
    if k > 0 {
        lemma_least_unfinished(done, rank, (k - 1) as nat);
    }
}

/// Unfinished layers that each depend on another unfinished layer cannot be ranked.
proof fn lemma_stuck_is_cyclic(s: Seq<LayerLinks>, done: Seq<bool>, x: int)
    requires
        done.len() == s.len(),
        0 <= x < s.len(),
        !done[x],
        forall|v: int|
            0 <= v < s.len() && !done[v] ==> exists|u: int|
                0 <= u < s.len() && !done[u] && #[trigger] edge(s, u, v),
    ensures
        !acyclic(s),
{
    if acyclic(s) {
        let rank = choose|rank: Seq<int>| ranked(s, rank);
        lemma_least_unfinished(done, rank, s.len());
        let m = least_unfinished(done, rank, s.len())->0;
        let u = choose|u: int| 0 <= u < s.len() && !done[u] && #[trigger] edge(s, u, m);
        assert(rank[u] < rank[m]);
    }
}

proof fn lemma_layers_hold(s: Seq<LayerLinks>, k: nat, i: int)
    requires
        first_layer_error(s, k) is None,
        0 <= i < k,
    ensures
        layer_error(s, i) is None,
    decreases k,
{
    if i < k - 1 {
        lemma_layers_hold(s, (k - 1) as nat, i);
    }
}

proof fn lemma_first_reference(s: Seq<LayerLinks>, k: nat, i: int)
    requires
        0 <= i < k <= s.len(),
        forall|j: int| 0 <= j < i ==> #[trigger] reference_error(s, j) is None,
        reference_error(s, i) is Some,
    ensures
        first_reference_error(s, k) == reference_error(s, i),
    decreases k,
{
    if k - 1 > i {
        lemma_first_reference(s, (k - 1) as nat, i);
    } else {
        lemma_no_reference(s, (k - 1) as nat);
    }
}

proof fn lemma_no_reference(s: Seq<LayerLinks>, k: nat)
    requires
        k <= s.len(),
        forall|j: int| 0 <= j < k ==> #[trigger] reference_error(s, j) is None,
    ensures
        first_reference_error(s, k) is None,
    decreases k,
{
    if k > 0 {
        lemma_no_reference(s, (k - 1) as nat);
    }
}

proof fn lemma_first_layer(s: Seq<LayerLinks>, k: nat, i: int)
    requires
        0 <= i < k <= s.len(),
        forall|j: int| 0 <= j < i ==> #[trigger] layer_error(s, j) is None,
        layer_error(s, i) is Some,
    ensures
        first_layer_error(s, k) == layer_error(s, i),
    decreases k,
{
    if k - 1 > i {
        lemma_first_layer(s, (k - 1) as nat, i);
    } else {
        lemma_no_layer(s, (k - 1) as nat);
    }
}

proof fn lemma_no_layer(s: Seq<LayerLinks>, k: nat)
    requires
        k <= s.len(),
        forall|j: int| 0 <= j < k ==> #[trigger] layer_error(s, j) is None,
    ensures
        first_layer_error(s, k) is None,
    decreases k,
{
    if k > 0 {
        lemma_no_layer(s, (k - 1) as nat);
    }
}

/// Which code each defect of a layer stack gets, checked in order: references first (the
/// first layer whose parent is missing or whose clip base is missing gets `InvalidTarget`,
/// whose parent is not a group `InvalidHierarchy`); then, with every reference resolved, a
/// parent/clip cycle gets `DependencyCycle`; then, without a cycle, the first layer with
/// more than the group depth limit of ancestors gets `ResourceLimit`, and one whose clip
/// base is not a lower sibling, or is an adjustment layer, `InvalidHierarchy`. A stack
/// without any of these defects is accepted.
pub proof fn hierarchy_defects_get_their_codes(s: Seq<LayerLinks>, i: int)
    ensures
        0 <= i < s.len() && (forall|j: int| 0 <= j < i ==> #[trigger] reference_error(s, j) is None)
            && reference_error(s, i) is Some ==> hierarchy_error(s) == reference_error(s, i),
        0 <= i < s.len() && (forall|j: int| 0 <= j < i ==> #[trigger] reference_error(s, j) is None)
            && s[i].parent is Some && lookup(s, (s[i].parent->0).0@) is Some && s[lookup(
            s,
            (s[i].parent->0).0@,
        )->0].kind != LayerKind::Group ==> hierarchy_error(s) == Some(ErrorCode::InvalidHierarchy),
        (forall|j: int| 0 <= j < s.len() ==> #[trigger] reference_error(s, j) is None) && !acyclic(s)
            ==> hierarchy_error(s) == Some(ErrorCode::DependencyCycle),
        0 <= i < s.len() && (forall|j: int| 0 <= j < s.len() ==> #[trigger] reference_error(s, j) is None)
            && acyclic(s) && (forall|j: int| 0 <= j < i ==> #[trigger] layer_error(s, j) is None)
            && layer_error(s, i) is Some ==> hierarchy_error(s) == layer_error(s, i),
        (forall|j: int| 0 <= j < s.len() ==> #[trigger] reference_error(s, j) is None) && acyclic(s) && (
        forall|j: int| 0 <= j < s.len() ==> #[trigger] layer_error(s, j) is None) ==> hierarchy_error(s) is None,
{
    if 0 <= i < s.len() && (forall|j: int| 0 <= j < i ==> #[trigger] reference_error(s, j) is None)
        && reference_error(s, i) is Some {
        lemma_first_reference(s, s.len(), i);
    }
    if (forall|j: int| 0 <= j < s.len() ==> #[trigger] reference_error(s, j) is None) {
        lemma_no_reference(s, s.len());
        if acyclic(s) {
            if 0 <= i < s.len() && (forall|j: int| 0 <= j < i ==> #[trigger] layer_error(s, j) is None)
                && layer_error(s, i) is Some {
                lemma_first_layer(s, s.len(), i);
            }
            if forall|j: int| 0 <= j < s.len() ==> #[trigger] layer_error(s, j) is None {
                lemma_no_layer(s, s.len());
            }
        }
    }
}

/// What a checked stack guarantees its renderer: an order in which every group comes after
/// its children and every clipped layer after its base; parents that are groups; clip bases
/// that are lower siblings able to supply alpha; at most `MAX_GROUP_DEPTH` enclosing groups.
pub proof fn checked_stack_is_renderable(s: Seq<LayerLinks>)
    requires
        hierarchy_error(s) is None,
    ensures
        exists|rank: Seq<int>| ranked(s, rank),
        forall|i: int|
            0 <= i < s.len() && #[trigger] parent_of(s, i) is Some ==> s[parent_of(s, i)->0].kind
                == LayerKind::Group,
        forall|i: int|
            0 <= i < s.len() && #[trigger] clip_of(s, i) is Some ==> ({
                let b = clip_of(s, i)->0;
                b < i && id_view(s[b].parent) == id_view(s[i].parent) && s[b].kind != LayerKind::Adjustment
            }),
        forall|i: int| 0 <= i < s.len() ==> !#[trigger] too_deep(s, i, MAX_GROUP_DEPTH as nat),
{
    assert forall|i: int| 0 <= i < s.len() && #[trigger] parent_of(s, i) is Some implies s[parent_of(
        s,
        i,
    )->0].kind == LayerKind::Group by {
        lemma_references_hold(s, s.len(), i);
    }
    assert forall|i: int| 0 <= i < s.len() && #[trigger] clip_of(s, i) is Some implies ({
        let b = clip_of(s, i)->0;
        b < i && id_view(s[b].parent) == id_view(s[i].parent) && s[b].kind != LayerKind::Adjustment
    }) by {
        lemma_layers_hold(s, s.len(), i);
    }
    assert forall|i: int| 0 <= i < s.len() implies !#[trigger] too_deep(s, i, MAX_GROUP_DEPTH as nat) by {
        lemma_layers_hold(s, s.len(), i);
    }
}

/// Whether the render dependencies admit an order: layers are finished once nothing
/// unfinished feeds them, and the stack is acyclic exactly when every layer finishes.
fn dependencies_acyclic(
    layers: &Vec<LayerLinks>,
    par: &Vec<Option<usize>>,
    clp: &Vec<Option<usize>>,
    incoming: Vec<usize>,
) -> (r: bool)
    requires
        par@.len() == layers@.len(),
        clp@.len() == layers@.len(),
        incoming@.len() == layers@.len(),
        forall|v: int| 0 <= v < layers@.len() ==> as_index(#[trigger] par@[v]) == parent_of(layers@, v),
        forall|v: int| 0 <= v < layers@.len() ==> as_index(#[trigger] clp@[v]) == clip_of(layers@, v),
        forall|v: int|
            0 <= v < layers@.len() ==> #[trigger] incoming@[v] == pending(
                layers@,
                none_done(layers@.len()),
                v,
            ),
    ensures
        r == acyclic(layers@),
{
    let ghost s = layers@;
    let n = layers.len();
    let mut incoming = incoming;
    let mut done: Vec<bool> = Vec::new();
    let mut ready: Vec<usize> = Vec::new();
    let mut k: usize = 0;
    while k < n
        invariant
            n == s.len(),
            s == layers@,
            k <= n,
            incoming@.len() == n,
            forall|v: int|
                0 <= v < n ==> #[trigger] incoming@[v] == pending(s, none_done(n as nat), v),
            done@.len() == k,
            forall|j: int| 0 <= j < k ==> !done@[j],
            ready@.len() <= k,
            forall|a: int| 0 <= a < ready@.len() ==> #[trigger] ready@[a] < k && incoming@[ready@[a] as int] == 0,
            forall|a: int, b: int| 0 <= a < b < ready@.len() ==> ready@[a] < ready@[b],
            forall|v: int|
                0 <= v < k && incoming@[v] == 0 ==> exists|a: int| 0 <= a < ready@.len() && ready@[a] == v,
        decreases n - k,
    {
        done.push(false);
        if incoming[k] == 0 {
            let ghost earlier = ready@;
            ready.push(k);
            proof {
                assert forall|v: int| 0 <= v < k + 1 && incoming@[v] == 0 implies exists|a: int|
                    0 <= a < ready@.len() && ready@[a] == v by {
                    if v == k {
                        assert(ready@[earlier.len() as int] == v);
                    } else {
                        let a = choose|a: int| 0 <= a < earlier.len() && earlier[a] == v;
                        assert(ready@[a] == v);
                    }
                }
            }
        }
        k += 1;
    }
    assert(done@ =~= none_done(n as nat));
    proof {
        lemma_count_done_bound(done@, n as nat);
    }
    let mut visited: usize = 0;
    let ghost mut rank: Seq<int> = Seq::new(n as nat, |j: int| 0);
    while ready.len() > 0
        invariant
            n == s.len(),
            s == layers@,
            par@.len() == n,
            clp@.len() == n,
            forall|v: int| 0 <= v < n ==> as_index(#[trigger] par@[v]) == parent_of(s, v),
            forall|v: int| 0 <= v < n ==> as_index(#[trigger] clp@[v]) == clip_of(s, v),
            done@.len() == n,
            incoming@.len() == n,
            rank.len() == n,
            forall|v: int| 0 <= v < n ==> #[trigger] incoming@[v] == pending(s, done@, v),
            forall|a: int|
                0 <= a < ready@.len() ==> #[trigger] ready@[a] < n && !done@[ready@[a] as int]
                    && incoming@[ready@[a] as int] == 0,
            forall|a: int, b: int| 0 <= a < b < ready@.len() ==> ready@[a] != ready@[b],
            forall|v: int|
                0 <= v < n && !done@[v] && incoming@[v] == 0 ==> exists|a: int|
                    0 <= a < ready@.len() && ready@[a] == v,
            visited == count_done(done@, n as nat),
            forall|v: int| 0 <= v < n && done@[v] ==> rank[v] < visited,
            forall|u: int, v: int|
                0 <= u < n && 0 <= v < n && done@[v] && #[trigger] edge(s, u, v) ==> done@[u] && rank[u]
                    < rank[v],
        decreases n - visited,
    {
        proof {
            lemma_count_done_bound(done@, n as nat);
        }
        let ghost queued = ready@;
        let x = ready.pop().unwrap();
        let ghost before = done@;
        assert(!before[x as int]);
        proof {
            lemma_clip_count_zero(s, before, x as int, n as nat);
            lemma_count_done_finish(before, x as int, n as nat);
            lemma_count_done_bound(before.update(x as int, true), n as nat);
            assert forall|u: int| 0 <= u < n && #[trigger] edge(s, u, x as int) implies before[u] by {
                if clip_of(s, u) == Some(x as int) && !before[u] {
                    assert(clipper(s, before, u, x as int));
                }
            }
            rank = rank.update(x as int, visited as int);
        }
        done.set(x, true);
        visited += 1;
        let ghost finished = done@;
        assert(finished == before.update(x as int, true));
        proof {
            assert forall|v: int| 0 <= v < n && !finished[v] && incoming@[v] == 0 implies exists|a: int|
                0 <= a < ready@.len() && ready@[a] == v by {
                let a = choose|a: int| 0 <= a < queued.len() && queued[a] == v;
                assert(a != queued.len() - 1);
                assert(ready@[a] == v);
            }
            assert forall|v: int| 0 <= v < n && finished[v] implies !#[trigger] edge(s, x as int, v) by {
                if v == x {
                    if clip_of(s, x as int) == Some(x as int) {
                        assert(clipper(s, before, x as int, x as int));
                    }
                } else {
                    assert(before[v]);
                }
            }
            assert forall|v: int| 0 <= v < n implies pending(s, finished, v) + (if parent_of(s, v)
                == Some(x as int) { 1int } else { 0int }) + (if clip_of(s, x as int) == Some(v) {
                1int
            } else {
                0int
            }) == pending(s, before, v) by {
                lemma_clip_count_finish(s, before, x as int, v, n as nat);
            }
        }
        let mut i: usize = 0;
        while i < n
            invariant
                n == s.len(),
                s == layers@,
                par@.len() == n,
                clp@.len() == n,
                forall|v: int| 0 <= v < n ==> as_index(#[trigger] par@[v]) == parent_of(s, v),
                forall|v: int| 0 <= v < n ==> as_index(#[trigger] clp@[v]) == clip_of(s, v),
                done@ == finished,
                incoming@.len() == n,
                i <= n,
                x < n,
                finished[x as int],
                forall|v: int| 0 <= v < n && finished[v] ==> !#[trigger] edge(s, x as int, v),
                forall|v: int|
                    0 <= v < n ==> #[trigger] incoming@[v] == pending(s, finished, v) + (if i <= v
                        && parent_of(s, v) == Some(x as int) {
                        1int
                    } else {
                        0int
                    }) + (if clip_of(s, x as int) == Some(v) {
                        1int
                    } else {
                        0int
                    }),
                forall|a: int|
                    0 <= a < ready@.len() ==> #[trigger] ready@[a] < n && !finished[ready@[a] as int]
                        && incoming@[ready@[a] as int] == 0,
                forall|a: int, b: int| 0 <= a < b < ready@.len() ==> ready@[a] != ready@[b],
                forall|v: int|
                    0 <= v < n && !finished[v] && incoming@[v] == 0 ==> exists|a: int|
                        0 <= a < ready@.len() && ready@[a] == v,
            decreases n - i,
        {
            let child = match par[i] {
                Some(q) => q == x,
                None => false,
            };
            if child {
                assert(parent_of(s, i as int) == Some(x as int));
                proof {
                    lemma_clip_count_bound(s, finished, i as int, n as nat);
                }
                incoming.set(i, incoming[i] - 1);
                if incoming[i] == 0 {
                    assert(!finished[i as int]) by {
                        if finished[i as int] {
                            assert(edge(s, x as int, i as int));
                        }
                    }
                    let ghost earlier = ready@;
                    ready.push(i);
                    proof {
                        assert forall|v: int| 0 <= v < n && !finished[v] && incoming@[v] == 0 implies exists|a: int|
                            0 <= a < ready@.len() && ready@[a] == v by {
                            if v == i {
                                assert(ready@[earlier.len() as int] == v);
                            } else {
                                let a = choose|a: int| 0 <= a < earlier.len() && earlier[a] == v;
                                assert(ready@[a] == v);
                            }
                        }
                    }
                }
            }
            i += 1;
        }
        match clp[x] {
            Some(b) => {
                assert(clip_of(s, x as int) == Some(b as int));
                incoming.set(b, incoming[b] - 1);
                if incoming[b] == 0 {
                    assert(!finished[b as int]) by {
                        if finished[b as int] {
                            assert(edge(s, x as int, b as int));
                        }
                    }
                    let ghost earlier = ready@;
                    ready.push(b);
                    proof {
                        assert forall|v: int| 0 <= v < n && !finished[v] && incoming@[v] == 0 implies exists|a: int|
                            0 <= a < ready@.len() && ready@[a] == v by {
                            if v == b {
                                assert(ready@[earlier.len() as int] == v);
                            } else {
                                let a = choose|a: int| 0 <= a < earlier.len() && earlier[a] == v;
                                assert(ready@[a] == v);
                            }
                        }
                    }
                }
            },
            None => {},
        }
        proof {
            assert forall|u: int, v: int|
                0 <= u < n && 0 <= v < n && done@[v] && #[trigger] edge(s, u, v) implies done@[u]
                    && rank[u] < rank[v] by {
                if v != x {
                    assert(before[v]);
                }
            }
        }
    }
    proof {
        lemma_count_done_bound(done@, n as nat);
    }
    if visited == n {
        proof {
            assert(ranked(s, rank));
        }
        true
    } else {
        proof {
            lemma_least_unfinished(done@, rank, n as nat);
            let x = least_unfinished(done@, rank, n as nat)->0;
            assert forall|v: int| 0 <= v < n && !done@[v] implies exists|u: int|
                0 <= u < n && !done@[u] && #[trigger] edge(s, u, v) by {
                lemma_clip_count_zero(s, done@, v, n as nat);
                if parent_pending(s, done@, v) == 1 {
                    let p = parent_of(s, v).unwrap();
                    assert(edge(s, p, v));
                } else {
                    let u = choose|u: int| 0 <= u < n && clipper(s, done@, u, v);
                    assert(edge(s, u, v));
                }
            }
            lemma_stuck_is_cyclic(s, done@, x);
        }
        false
    }
}

/// Check the group and clipping structure of a layer stack, bottom layer first: every
/// parent and clip base exists (a reference names the last layer with that ID) and every
/// parent is a group; the render dependencies have no cycle; no layer is nested more than
/// `MAX_GROUP_DEPTH` groups deep; each layer's composed mapping is valid; a clip base is a
/// lower sibling that is not an adjustment layer.
pub fn check_hierarchy(layers: &Vec<LayerLinks>) -> (r: Result<(), PicError>)
    requires
        layers@.len() < usize::MAX,
    ensures
        match r {
            Ok(()) => hierarchy_error(layers@) is None,
            Err(e) => hierarchy_error(layers@) == Some(e.code),
        },
{
    let ghost s = layers@;
    let n = layers.len();
    let mut par: Vec<Option<usize>> = Vec::new();
    let mut clp: Vec<Option<usize>> = Vec::new();
    let mut incoming: Vec<usize> = Vec::new();
    let mut k: usize = 0;
    while k < n
        invariant
            k <= n,
            n == s.len(),
            incoming@.len() == k,
            forall|v: int| 0 <= v < k ==> incoming@[v] == 0,
        decreases n - k,
    {
        incoming.push(0);
        k += 1;
    }
    let mut i: usize = 0;
    while i < n
        invariant
            n == s.len(),
            n < usize::MAX,
            s == layers@,
            i <= n,
            par@.len() == i,
            clp@.len() == i,
            incoming@.len() == n,
            first_reference_error(s, i as nat) is None,
            forall|v: int| 0 <= v < i ==> as_index(#[trigger] par@[v]) == parent_of(s, v),
            forall|v: int| 0 <= v < i ==> as_index(#[trigger] clp@[v]) == clip_of(s, v),
            forall|v: int|
                0 <= v < n ==> #[trigger] incoming@[v] == (if v < i {
                    parent_pending(s, none_done(n as nat), v)
                } else {
                    0
                }) + clip_count(s, none_done(n as nat), v, i as nat),
        decreases n - i,
    {
        let layer = &layers[i];
        let mut p: Option<usize> = None;
        match &layer.parent {
            Some(id) => match find(layers, id) {
                None => {
                    proof {
                        lemma_first_reference_sticky(s, (i + 1) as nat, n as nat);
                    }
                    return Err(missing_dependency(id));
                },
                Some(q) => {
                    if layers[q].kind != LayerKind::Group {
                        proof {
                            lemma_first_reference_sticky(s, (i + 1) as nat, n as nat);
                        }
                        return Err(PicError::new(ErrorCode::InvalidHierarchy, "a parent must be a group"));
                    }
                    p = Some(q);
                },
            },
            None => {},
        }
        let mut c: Option<usize> = None;
        match &layer.clip {
            Some(id) => match find(layers, id) {
                None => {
                    proof {
                        lemma_first_reference_sticky(s, (i + 1) as nat, n as nat);
                    }
                    return Err(missing_dependency(id));
                },
                Some(b) => {
                    c = Some(b);
                },
            },
            None => {},
        }
        proof {
            assert forall|v: int| 0 <= v < n implies #[trigger] clip_count(s, none_done(n as nat), v, i as nat)
                <= i by {
                lemma_clip_count_bound(s, none_done(n as nat), v, i as nat);
            }
        }
        if p.is_some() {
            incoming.set(i, incoming[i] + 1);
        }
        match c {
            Some(b) => {
                incoming.set(b, incoming[b] + 1);
            },
            None => {},
        }
        par.push(p);
        clp.push(c);
        i += 1;
    }
    assert forall|v: int| 0 <= v < n implies #[trigger] incoming@[v] == pending(s, none_done(n as nat), v) by {}
    if !dependencies_acyclic(layers, &par, &clp, incoming) {
        return Err(PicError::new(ErrorCode::DependencyCycle, "group/clipping dependency cycle"));
    }
    let mut i: usize = 0;
    while i < n
        invariant
            n == s.len(),
            s == layers@,
            i <= n,
            par@.len() == n,
            clp@.len() == n,
            forall|v: int| 0 <= v < n ==> as_index(#[trigger] par@[v]) == parent_of(s, v),
            forall|v: int| 0 <= v < n ==> as_index(#[trigger] clp@[v]) == clip_of(s, v),
            first_reference_error(s, n as nat) is None,
            acyclic(s),
            first_layer_error(s, i as nat) is None,
        decreases n - i,
    {
        let mut depth: usize = 0;
        let mut current: usize = i;
        loop
            invariant
                n == s.len(),
                par@.len() == n,
                forall|v: int| 0 <= v < n ==> as_index(#[trigger] par@[v]) == parent_of(s, v),
                current < n,
                i < n,
                s == layers@,
                first_reference_error(s, n as nat) is None,
                acyclic(s),
                first_layer_error(s, i as nat) is None,
                depth <= MAX_GROUP_DEPTH,
                too_deep(s, i as int, MAX_GROUP_DEPTH as nat) == too_deep(
                    s,
                    current as int,
                    (MAX_GROUP_DEPTH - depth) as nat,
                ),
            ensures
                !too_deep(s, i as int, MAX_GROUP_DEPTH as nat),
            decreases MAX_GROUP_DEPTH - depth,
        {
            match par[current] {
                None => {
                    break ;
                },
                Some(q) => {
                    if depth == MAX_GROUP_DEPTH {
                        proof {
                            lemma_first_layer_sticky(s, (i + 1) as nat, n as nat);
                        }
                        return Err(
                            PicError::new(ErrorCode::ResourceLimit, "group nesting exceeds 32 levels"),
                        );
                    }
                    depth += 1;
                    current = q;
                },
            }
        }
        if !layers[i].mapping_ok {
            proof {
                lemma_first_layer_sticky(s, (i + 1) as nat, n as nat);
            }
            return Err(
                PicError::new(
                    ErrorCode::InvalidHierarchy,
                    "composed group transform has no reliable finite inverse (determinant overflow, underflow or precision loss)",
                ),
            );
        }
        match clp[i] {
            Some(b) => {
                if b >= i || !same_target(&layers[b].parent, &layers[i].parent) || layers[b].kind
                    == LayerKind::Adjustment {
                    proof {
                        lemma_first_layer_sticky(s, (i + 1) as nat, n as nat);
                    }
                    return Err(
                        PicError::new(
                            ErrorCode::InvalidHierarchy,
                            "clip base must be a lower sibling raster, text or group; adjustment layers cannot supply independent alpha",
                        ),
                    );
                }
            },
            None => {},
        }
        i += 1;
    }
    Ok(())
}

/// `x`, or `u64::MAX` when it is larger.
pub open spec fn sat(x: int) -> int {
    if x > u64::MAX {
        u64::MAX as int
    } else {
        x
    }
}

fn sat_mul(a: u64, b: u64) -> (r: u64)
    ensures
        r == sat(a * b),
{
    match a.checked_mul(b) {
        Some(v) => v,
        None => u64::MAX,
    }
}

pub(crate) fn area_of(width: u32, height: u32) -> (r: u64)
    ensures
        r == width * height,
{
    assert(width as u64 * height as u64 <= u32::MAX as u64 * u32::MAX as u64) by (nonlinear_arith)
        requires
            width <= u32::MAX,
            height <= u32::MAX,
    ;
    width as u64 * height as u64
}

pub(crate) fn sat_add(a: u64, b: u64) -> (r: u64)
    ensures
        r == sat(a + b),
{
    a.saturating_add(b)
}

/// Layer `i` sits directly in the scope `parent` (`None` is the canvas).
pub open spec fn in_scope(s: Seq<LayerLinks>, i: int, parent: Option<Seq<char>>) -> bool {
    id_view(s[i].parent) == parent
}

/// Layer `i` is the first in scope `parent` to clip to its base.
pub open spec fn first_of_base(s: Seq<LayerLinks>, i: int, parent: Option<Seq<char>>) -> bool {
    &&& in_scope(s, i, parent)
    &&& s[i].clip is Some
    &&& forall|j: int|
        0 <= j < i && in_scope(s, j, parent) && #[trigger] s[j].clip is Some ==> id_view(s[j].clip)
            != id_view(s[i].clip)
}

/// The number of distinct clip bases among the layers below `k` in scope `parent`.
pub open spec fn base_count(s: Seq<LayerLinks>, parent: Option<Seq<char>>, k: nat) -> nat
    decreases k,
{
    if k == 0 {
        0
    } else {
        base_count(s, parent, (k - 1) as nat) + if first_of_base(s, k - 1, parent) {
            1nat
        } else {
            0nat
        }
    }
}

/// Some visible adjustment layer sits in scope `parent`.
pub open spec fn has_visible_adjustment(s: Seq<LayerLinks>, parent: Option<Seq<char>>) -> bool {
    exists|i: int|
        0 <= i < s.len() && in_scope(s, i, parent) && #[trigger] s[i].visible && s[i].kind
            == LayerKind::Adjustment
}

/// A visible group in scope `parent`, which renders its own scope offscreen.
pub open spec fn visible_group(s: Seq<LayerLinks>, i: int, parent: Option<Seq<char>>) -> bool {
    in_scope(s, i, parent) && s[i].visible && s[i].kind == LayerKind::Group
}

/// The most RGBA32F scratch bytes alive while rendering scope `parent` at `width` x
/// `height`: three planes (four with a visible adjustment layer) plus one coverage plane per
/// distinct clip base, or, for each visible group, one back plane while its own scope
/// renders, then three planes and its offscreen raster while it composites. Every sum and
/// product saturates at `u64::MAX`. `fuel` bounds the nesting followed.
pub open spec fn scope_scratch(s: Seq<LayerLinks>, parent: Option<Seq<char>>, width: u32, height: u32, fuel: nat) -> int
    decreases fuel, s.len() + 1,
{
    let area = width * height;
    let coverage = sat(sat(area * 4) * base_count(s, parent, s.len()));
    let planes = if has_visible_adjustment(s, parent) {
        64int
    } else {
        48int
    };
    groups_peak(s, parent, area, coverage, fuel, s.len(), sat(sat(area * planes) + coverage))
}

/// `peak` raised by the visible groups below `k` in scope `parent`.
pub open spec fn groups_peak(
    s: Seq<LayerLinks>,
    parent: Option<Seq<char>>,
    area: int,
    coverage: int,
    fuel: nat,
    k: nat,
    peak: int,
) -> int
    decreases fuel, k,
{
    if k == 0 || k > s.len() {
        peak
    } else {
        let before = groups_peak(s, parent, area, coverage, fuel, (k - 1) as nat, peak);
        let g = s[k - 1];
        if visible_group(s, k - 1, parent) {
            let inner = if fuel == 0 {
                0
            } else {
                scope_scratch(s, Some(g.id.0@), g.width, g.height, (fuel - 1) as nat)
            };
            let recursive = sat(sat(sat(area * 16) + coverage) + inner);
            let composite = sat(sat(sat(area * 48) + coverage) + sat(g.width * g.height * 16));
            let m = if before < recursive {
                recursive
            } else {
                before
            };
            if m < composite {
                composite
            } else {
                m
            }
        } else {
            before
        }
    }
}

/// Nesting followed when sizing render scratch: the canvas scope and every group level.
pub const SCRATCH_FUEL: usize = 34;

fn scope_matches(layer: &LayerLinks, parent: Option<&TargetId>) -> (r: bool)
    ensures
        r == (id_view(layer.parent) == match parent {
            Some(t) => Some(t.0@),
            None => None::<Seq<char>>,
        }),
{
    match (&layer.parent, parent) {
        (Some(a), Some(b)) => a.0 == b.0,
        (None, None) => true,
        _ => false,
    }
}

fn count_bases(layers: &Vec<LayerLinks>, parent: Option<&TargetId>) -> (r: u64)
    ensures
        r == base_count(layers@, scope_view(parent), layers@.len() as nat),
{
    let ghost s = layers@;
    let ghost p = scope_view(parent);
    let mut count: u64 = 0;
    let mut i: usize = 0;
    while i < layers.len()
        invariant
            s == layers@,
            p == scope_view(parent),
            i <= s.len(),
            count == base_count(s, p, i as nat),
            count <= i,
        decreases s.len() - i,
    {
        let mut first = false;
        if scope_matches(&layers[i], parent) {
            match &layers[i].clip {
                Some(base) => {
                    first = true;
                    let mut j: usize = 0;
                    while j < i
                        invariant
                            s == layers@,
                            p == scope_view(parent),
                            i < s.len(),
                            j <= i,
                            in_scope(s, i as int, p),
                            layers@[i as int].clip == Some(*base),
                            first == forall|m: int|
                                0 <= m < j && in_scope(s, m, p) && #[trigger] s[m].clip is Some
                                    ==> id_view(s[m].clip) != id_view(s[i as int].clip),
                        decreases i - j,
                    {
                        if scope_matches(&layers[j], parent) {
                            match &layers[j].clip {
                                Some(other) => {
                                    if other.0 == base.0 {
                                        first = false;
                                    }
                                },
                                None => {},
                            }
                        }
                        j += 1;
                    }
                },
                None => {},
            }
        }
        assert(first == first_of_base(s, i as int, p));
        if first {
            count += 1;
        }
        i += 1;
    }
    count
}

pub open spec fn scope_view(parent: Option<&TargetId>) -> Option<Seq<char>> {
    match parent {
        Some(t) => Some(t.0@),
        None => None,
    }
}

fn visible_adjustment(layers: &Vec<LayerLinks>, parent: Option<&TargetId>) -> (r: bool)
    ensures
        r == has_visible_adjustment(layers@, scope_view(parent)),
{
    let mut i: usize = 0;
    while i < layers.len()
        invariant
            i <= layers@.len(),
            forall|j: int|
                0 <= j < i ==> !(in_scope(layers@, j, scope_view(parent)) && #[trigger] layers@[j].visible
                    && layers@[j].kind == LayerKind::Adjustment),
        decreases layers@.len() - i,
    {
        if scope_matches(&layers[i], parent) && layers[i].visible && layers[i].kind == LayerKind::Adjustment {
            return true;
        }
        i += 1;
    }
    false
}

/// Scratch bytes for rendering scope `parent` at `width` x `height`; see `scope_scratch`.
pub fn render_scratch(layers: &Vec<LayerLinks>, parent: Option<&TargetId>, width: u32, height: u32, fuel: usize) -> (r:
    u64)
    ensures
        r == scope_scratch(layers@, scope_view(parent), width, height, fuel as nat),
    decreases fuel,
{
    let ghost s = layers@;
    let ghost p = scope_view(parent);
    let area = area_of(width, height);
    let coverage = sat_mul(sat_mul(area, 4), count_bases(layers, parent));
    let planes: u64 = if visible_adjustment(layers, parent) {
        64
    } else {
        48
    };
    let mut peak = sat_add(sat_mul(area, planes), coverage);
    let ghost start = peak as int;
    let mut i: usize = 0;
    while i < layers.len()
        invariant
            s == layers@,
            p == scope_view(parent),
            i <= s.len(),
            area == width * height,
            peak == groups_peak(s, p, area as int, coverage as int, fuel as nat, i as nat, start),
        decreases s.len() - i,
    {
        let g = &layers[i];
        if scope_matches(g, parent) && g.visible && g.kind == LayerKind::Group {
            let inner = if fuel == 0 {
                0
            } else {
                render_scratch(layers, Some(&g.id), g.width, g.height, fuel - 1)
            };
            let recursive = sat_add(sat_add(sat_mul(area, 16), coverage), inner);
            let own = sat_mul(area_of(g.width, g.height), 16);
            let composite = sat_add(sat_add(sat_mul(area, 48), coverage), own);
            if peak < recursive {
                peak = recursive;
            }
            if peak < composite {
                peak = composite;
            }
        }
        i += 1;
    }
    peak
}

/// Check a layered stack's memory: the stored layer and mask pixels (`memory_bytes`) plus
/// the scratch of rendering the canvas must fit the buffer budget. A single-raster canvas
/// is not checked here.
pub fn check_render_memory(
    layers: &Vec<LayerLinks>,
    layered: bool,
    width: u32,
    height: u32,
    memory_bytes: u64,
    limits: &ResourceLimits,
) -> (r: Result<(), PicError>)
    ensures
        r is Err <==> layered && sat(memory_bytes + scope_scratch(layers@, None, width, height, SCRATCH_FUEL as nat))
            > limits.max_buffer_bytes,
        r matches Err(e) ==> e.code == ErrorCode::ResourceLimit,
{
    if layered && sat_add(memory_bytes, render_scratch(layers, None, width, height, SCRATCH_FUEL))
        > limits.max_buffer_bytes {
        return Err(
            PicError::new(
                ErrorCode::ResourceLimit,
                "group/clip/adjustment render buffers exceed memory budget",
            ),
        );
    }
    Ok(())
}

/// The whole structural check of a stack: `check_hierarchy`, then, for a layered document
/// of `width` x `height` whose layers and masks store `memory_bytes`, `check_render_memory`.
pub fn validate_hierarchy(
    layers: &Vec<LayerLinks>,
    layered: bool,
    width: u32,
    height: u32,
    memory_bytes: u64,
    limits: &ResourceLimits,
) -> (r: Result<(), PicError>)
    requires
        layers@.len() < usize::MAX,
    ensures
        match r {
            Ok(()) => hierarchy_error(layers@) is None && !(layered && sat(
                memory_bytes + scope_scratch(layers@, None, width, height, SCRATCH_FUEL as nat),
            ) > limits.max_buffer_bytes),
            Err(e) => match hierarchy_error(layers@) {
                Some(c) => e.code == c,
                None => e.code == ErrorCode::ResourceLimit && layered && sat(
                    memory_bytes + scope_scratch(layers@, None, width, height, SCRATCH_FUEL as nat),
                ) > limits.max_buffer_bytes,
            },
        },
{
    check_hierarchy(layers)?;
    check_render_memory(layers, layered, width, height, memory_bytes, limits)
}

} // verus!
