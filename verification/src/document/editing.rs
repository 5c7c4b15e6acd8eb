//! The structural edits of a layer stack: adding layers under fresh IDs, moving them among
//! siblings or into another group, clipping, hiding, masking, removing, and choosing the
//! coordinate space of the selection; the structural validation of a document; and the
//! canvas steps of a layered document. Pixels, mask coverage, transforms and text stay with
//! the renderer; the stack holds what these decisions read.
use crate::document::hierarchy::{
    area_of, hierarchy_error, id_view, sat, sat_add, scope_scratch, validate_hierarchy, LayerKind, LayerLinks,
    SCRATCH_FUEL,
};
use crate::document::stack::{
    id_option, lemma_found, move_outcome, move_places_layer_below, plan_move, plan_remove, plan_reorder, position, position_of,
    remove_outcome, reorder_outcome,
};
use crate::document::{canvas_text, TargetId};
use crate::error::{ErrorCode, PicError};
use crate::limits::ResourceLimits;
use crate::operation::geometry::{CanvasParams, CropParams};
use crate::operation::grid::canvas_offset;
use crate::operation::layers::{id_byte, is_layer_id, valid_id};
use crate::text::text_eq;
use vstd::prelude::*;
use vstd::utf8::{encode_utf8, is_ascii_chars, is_ascii_chars_encode_utf8};

verus! {

/// The ID of the layer that a single-raster canvas starts with.
pub const BASE_LAYER_ID: &'static str = "base";

pub open spec fn base_text() -> Seq<char> {
    seq!['b', 'a', 's', 'e']
}

/// One structural edit, addressed to a target layer where it needs one.
pub enum StackEdit {
    /// Put a new layer (raster, group, text or adjustment) on top of the stack.
    Insert(LayerLinks),
    /// Make the target a child of `parent` (a root layer with `None`), just below `before`
    /// or on top of its new siblings.
    Parent { parent: Option<TargetId>, before: Option<TargetId> },
    /// Clip the target to the layer `base`, or detach it with `None`.
    Clip(Option<TargetId>),
    /// Show or hide the target.
    Visible(bool),
    /// Move the target just below its sibling `before`, or on top.
    Reorder(Option<TargetId>),
    /// Remove the target, which nothing may depend on.
    Remove,
    /// Give the target a coverage mask of `width` x `height`, which must be its own size.
    MaskSet { width: u32, height: u32 },
    /// Drop the target's mask, if it has one.
    MaskRemove,
    /// Select in the coordinate space of `canvas` or of a layer.
    SelectionSet(TargetId),
    SelectionClear,
}

/// What the structural decisions of layer editing read: the layers, the IDs this history
/// has used, and the space of the selection.
pub struct LayerStack {
    pub layers: Vec<LayerLinks>,
    /// Every layer ID that this history has used, in order of first use.
    pub used: Vec<String>,
    /// The coordinate space of the selection, when there is one.
    pub selection: Option<TargetId>,
    /// Whether a layer or selection edit has happened since the canvas was one raster.
    pub layered: bool,
}

pub open spec fn names(v: Seq<String>) -> Seq<Seq<char>> {
    v.map_values(|s: String| s@)
}

pub open spec fn unique_ids(s: Seq<LayerLinks>) -> bool {
    forall|i: int, j: int| 0 <= i < j < s.len() ==> (#[trigger] s[i]).id.0@ != (#[trigger] s[j]).id.0@
}

/// Every layer ID is well formed, unique in the stack and registered as used.
pub open spec fn registered(s: Seq<LayerLinks>, used: Seq<Seq<char>>) -> bool {
    &&& unique_ids(s)
    &&& forall|i: int|
        0 <= i < s.len() ==> is_layer_id((#[trigger] s[i]).id.0@) && used.contains(s[i].id.0@)
}

pub open spec fn with_parent(l: LayerLinks, parent: Option<TargetId>) -> LayerLinks {
    LayerLinks { parent: parent, ..l }
}

pub open spec fn with_clip(l: LayerLinks, clip: Option<TargetId>) -> LayerLinks {
    LayerLinks { clip: clip, ..l }
}

pub open spec fn with_visible(l: LayerLinks, visible: bool) -> LayerLinks {
    LayerLinks { visible: visible, ..l }
}

pub open spec fn with_mask(l: LayerLinks, has_mask: bool) -> LayerLinks {
    LayerLinks { has_mask: has_mask, ..l }
}

pub open spec fn refusal_of(r: Result<(int, int), ErrorCode>) -> Option<ErrorCode> {
    match r {
        Ok(_) => None,
        Err(c) => Some(c),
    }
}

/// Why the stack refuses `edit` of `target`, if it does. A new layer needs a well-formed ID
/// that this history has never used; the other layer edits need the target to exist.
pub open spec fn edit_refusal(
    s: Seq<LayerLinks>,
    used: Seq<Seq<char>>,
    target: Seq<char>,
    edit: StackEdit,
) -> Option<ErrorCode> {
    match edit {
        StackEdit::Insert(l) => if !is_layer_id(l.id.0@) || used.contains(l.id.0@) {
            Some(ErrorCode::InvalidTarget)
        } else {
            None
        },
        StackEdit::Parent { parent, before } => refusal_of(
            move_outcome(s, target, id_view(parent), id_view(before)),
        ),
        StackEdit::Reorder(before) => refusal_of(reorder_outcome(s, target, id_view(before))),
        StackEdit::Remove => match remove_outcome(s, target) {
            Ok(_) => None,
            Err(c) => Some(c),
        },
        StackEdit::Clip(_) => if position_of(s, target) is None {
            Some(ErrorCode::InvalidTarget)
        } else {
            None
        },
        StackEdit::Visible(_) => if position_of(s, target) is None {
            Some(ErrorCode::InvalidTarget)
        } else {
            None
        },
        StackEdit::MaskSet { width, height } => match position_of(s, target) {
            None => Some(ErrorCode::InvalidTarget),
            Some(i) => if s[i].width != width || s[i].height != height {
                Some(ErrorCode::InvalidMask)
            } else {
                None
            },
        },
        StackEdit::MaskRemove => if position_of(s, target) is None {
            Some(ErrorCode::InvalidTarget)
        } else {
            None
        },
        StackEdit::SelectionSet(space) => if space.0@ != canvas_text() && position_of(s, space.0@) is None {
            Some(ErrorCode::InvalidTarget)
        } else {
            None
        },
        StackEdit::SelectionClear => None,
    }
}

/// The layers after an accepted `edit` of `target`.
pub open spec fn edited_layers(s: Seq<LayerLinks>, target: Seq<char>, edit: StackEdit) -> Seq<LayerLinks> {
    match edit {
        StackEdit::Insert(l) => s.push(l),
        StackEdit::Parent { parent, before } => {
            let (from, to) = move_outcome(s, target, id_view(parent), id_view(before))->Ok_0;
            s.remove(from).insert(to, with_parent(s[from], parent))
        },
        StackEdit::Reorder(before) => {
            let (from, to) = reorder_outcome(s, target, id_view(before))->Ok_0;
            s.remove(from).insert(to, s[from])
        },
        StackEdit::Remove => s.remove(remove_outcome(s, target)->Ok_0),
        StackEdit::Clip(clip) => {
            let i = position_of(s, target)->0;
            s.update(i, with_clip(s[i], clip))
        },
        StackEdit::Visible(visible) => {
            let i = position_of(s, target)->0;
            s.update(i, with_visible(s[i], visible))
        },
        StackEdit::MaskSet { .. } => {
            let i = position_of(s, target)->0;
            s.update(i, with_mask(s[i], true))
        },
        StackEdit::MaskRemove => {
            let i = position_of(s, target)->0;
            s.update(i, with_mask(s[i], false))
        },
        StackEdit::SelectionSet(_) => s,
        StackEdit::SelectionClear => s,
    }
}

/// The used IDs after an accepted edit: only a new layer adds one, and none is ever dropped.
pub open spec fn edited_used(used: Seq<Seq<char>>, edit: StackEdit) -> Seq<Seq<char>> {
    match edit {
        StackEdit::Insert(l) => used.push(l.id.0@),
        _ => used,
    }
}

/// The selection's space after an accepted edit: removing the layer it lives in clears it.
pub open spec fn edited_selection(selection: Option<Seq<char>>, target: Seq<char>, edit: StackEdit) -> Option<
    Seq<char>,
> {
    match edit {
        StackEdit::Remove => if selection == Some(target) {
            None
        } else {
            selection
        },
        StackEdit::SelectionSet(space) => Some(space.0@),
        StackEdit::SelectionClear => None,
        _ => selection,
    }
}

/// Where item `k` of `s.remove(from).insert(to, x)` comes from in `s`.
spec fn moved_source(from: int, to: int, k: int) -> int {
    if k == to {
        from
    } else {
        let r = if k < to {
            k
        } else {
            k - 1
        };
        if r < from {
            r
        } else {
            r + 1
        }
    }
}

proof fn lemma_moved_registered(s: Seq<LayerLinks>, used: Seq<Seq<char>>, from: int, to: int, x: LayerLinks)
    requires
        registered(s, used),
        0 <= from < s.len(),
        0 <= to < s.len(),
        x.id == s[from].id,
    ensures
        registered(s.remove(from).insert(to, x), used),
{
    let m = s.remove(from).insert(to, x);
    assert forall|k: int| 0 <= k < m.len() implies 0 <= #[trigger] moved_source(from, to, k) < s.len()
        && m[k].id == s[moved_source(from, to, k)].id by {}
    assert forall|a: int, b: int| 0 <= a < b < m.len() implies (#[trigger] m[a]).id.0@ != (
    #[trigger] m[b]).id.0@ by {
        let sa = moved_source(from, to, a);
        let sb = moved_source(from, to, b);
        assert(0 <= sa < s.len() && m[a].id == s[sa].id);
        assert(0 <= sb < s.len() && m[b].id == s[sb].id);
        assert(sa != sb);
        if sa < sb {
            assert(s[sa].id.0@ != s[sb].id.0@);
        } else {
            assert(s[sb].id.0@ != s[sa].id.0@);
        }
    }
    assert forall|k: int| 0 <= k < m.len() implies is_layer_id((#[trigger] m[k]).id.0@) && used.contains(
        m[k].id.0@,
    ) by {
        let sk = moved_source(from, to, k);
        assert(0 <= sk < s.len() && m[k].id == s[sk].id);
        assert(is_layer_id(s[sk].id.0@) && used.contains(s[sk].id.0@));
    }
}

proof fn lemma_removed_registered(s: Seq<LayerLinks>, used: Seq<Seq<char>>, i: int)
    requires
        registered(s, used),
        0 <= i < s.len(),
    ensures
        registered(s.remove(i), used),
{
    let r = s.remove(i);
    assert forall|a: int, b: int| 0 <= a < b < r.len() implies (#[trigger] r[a]).id.0@ != (
    #[trigger] r[b]).id.0@ by {
        let sa = if a < i {
            a
        } else {
            a + 1
        };
        let sb = if b < i {
            b
        } else {
            b + 1
        };
        assert(r[a] == s[sa] && r[b] == s[sb] && sa < sb);
    }
    assert forall|k: int| 0 <= k < r.len() implies is_layer_id((#[trigger] r[k]).id.0@) && used.contains(
        r[k].id.0@,
    ) by {
        let sk = if k < i {
            k
        } else {
            k + 1
        };
        assert(r[k] == s[sk]);
    }
}

proof fn lemma_updated_registered(s: Seq<LayerLinks>, used: Seq<Seq<char>>, i: int, x: LayerLinks)
    requires
        registered(s, used),
        0 <= i < s.len(),
        x.id == s[i].id,
    ensures
        registered(s.update(i, x), used),
{
    let u = s.update(i, x);
    assert forall|k: int| 0 <= k < u.len() implies (#[trigger] u[k]).id == s[k].id by {}
    assert forall|a: int, b: int| 0 <= a < b < u.len() implies (#[trigger] u[a]).id.0@ != (
    #[trigger] u[b]).id.0@ by {
        assert(u[a].id == s[a].id && u[b].id == s[b].id);
        assert(s[a].id.0@ != s[b].id.0@);
    }
    assert forall|k: int| 0 <= k < u.len() implies is_layer_id((#[trigger] u[k]).id.0@) && used.contains(
        u[k].id.0@,
    ) by {
        assert(u[k].id == s[k].id);
        assert(is_layer_id(s[k].id.0@) && used.contains(s[k].id.0@));
    }
}

proof fn lemma_base_is_layer_id()
    ensures
        is_layer_id(base_text()),
{
    let t = base_text();
    assert(is_ascii_chars(t));
    is_ascii_chars_encode_utf8(t);
    let bytes = encode_utf8(t);
    assert(bytes.len() == 4);
    assert(bytes[0] == 98u8 && bytes[1] == 97u8 && bytes[2] == 115u8 && bytes[3] == 101u8) by {
        assert(t[0] as u8 == bytes[0]);
        assert(t[1] as u8 == bytes[1]);
        assert(t[2] as u8 == bytes[2]);
        assert(t[3] as u8 == bytes[3]);
    }
    assert forall|i: int| 0 <= i < bytes.len() implies id_byte(#[trigger] bytes[i]) by {}
    assert(t != canvas_text()) by {
        assert(t.len() != canvas_text().len());
    }
}

proof fn lemma_names_push(v: Seq<String>, s: String)
    ensures
        names(v.push(s)) == names(v).push(s@),
{
    assert(names(v.push(s)) =~= names(v).push(s@));
}

/// An ID leaves the stack with its layer but stays used: adding a layer under the ID of a
/// removed layer is refused.
pub proof fn removed_layer_id_is_never_reused(
    s: Seq<LayerLinks>,
    used: Seq<Seq<char>>,
    target: Seq<char>,
    layer: LayerLinks,
)
    requires
        registered(s, used),
        edit_refusal(s, used, target, StackEdit::Remove) is None,
        layer.id.0@ == target,
    ensures
        edit_refusal(
            edited_layers(s, target, StackEdit::Remove),
            edited_used(used, StackEdit::Remove),
            target,
            StackEdit::Insert(layer),
        ) == Some(ErrorCode::InvalidTarget),
{
    lemma_found(s, target);
    let i = position_of(s, target)->0;
    assert(s[i].id.0@ == target);
    assert(used.contains(s[i].id.0@));
}

/// A step addressed to the canvas of a layered document.
pub enum CanvasStep {
    Identity,
    Crop(CropParams),
    Canvas(CanvasParams),
    /// Any other operation: pixel edits of a layered document address a layer instead.
    Other,
}

/// How the canvas of a layered document changes: the root layers, and a selection made in
/// canvas space, move by `(dx, dy)`, and the canvas becomes `width` x `height`.
#[derive(Debug, Clone, Copy, PartialEq, Eq)]
pub struct CanvasShift {
    pub dx: i64,
    pub dy: i64,
    pub width: u32,
    pub height: u32,
}

/// The shift and size a canvas step gives a layered `width` x `height` document: a crop
/// must lie inside the canvas and moves everything up and left by its origin; a canvas
/// resize pads only with transparent black and places the content at its anchor.
pub open spec fn canvas_step_outcome(step: CanvasStep, width: u32, height: u32) -> Result<
    (int, int, u32, u32),
    ErrorCode,
> {
    match step {
        CanvasStep::Identity => Ok((0, 0, width, height)),
        CanvasStep::Crop(p) => if !p.inside(width, height) {
            Err(ErrorCode::InvalidArgument)
        } else {
            Ok((-p.x, -p.y, p.width, p.height))
        },
        CanvasStep::Canvas(p) => if p.background.0[0] != 0 || p.background.0[1] != 0
            || p.background.0[2] != 0 || p.background.0[3] != 0 {
            Err(ErrorCode::InvalidArgument)
        } else {
            Ok((canvas_offset(p, width, height).0, canvas_offset(p, width, height).1, p.width, p.height))
        },
        CanvasStep::Other => Err(ErrorCode::InvalidTarget),
    }
}

/// Decide a canvas step of a layered `width` x `height` document.
pub fn layered_canvas_step(step: &CanvasStep, width: u32, height: u32) -> (r: Result<CanvasShift, PicError>)
    ensures
        match r {
            Ok(c) => canvas_step_outcome(*step, width, height) == Ok::<(int, int, u32, u32), ErrorCode>(
                (c.dx as int, c.dy as int, c.width, c.height),
            ),
            Err(e) => canvas_step_outcome(*step, width, height) == Err::<(int, int, u32, u32), ErrorCode>(
                e.code,
            ),
        },
{
    match step {
        CanvasStep::Identity => Ok(CanvasShift { dx: 0, dy: 0, width, height }),
        CanvasStep::Crop(p) => {
            if p.x as u64 + p.width as u64 > width as u64 || p.y as u64 + p.height as u64 > height as u64 {
                return Err(PicError::new(ErrorCode::InvalidArgument, "crop rectangle must lie inside canvas"));
            }
            Ok(CanvasShift { dx: -(p.x as i64), dy: -(p.y as i64), width: p.width, height: p.height })
        },
        CanvasStep::Canvas(p) => {
            let b = p.background.0;
            if b[0] != 0 || b[1] != 0 || b[2] != 0 || b[3] != 0 {
                return Err(
                    PicError::new(
                        ErrorCode::InvalidArgument,
                        "layered canvas padding requires transparent black; use a background layer for color",
                    ),
                );
            }
            let (dx, dy) = p.anchor.offset(p.width as i64 - width as i64, p.height as i64 - height as i64);
            Ok(CanvasShift { dx, dy, width: p.width, height: p.height })
        },
        CanvasStep::Other => Err(
            PicError::new(
                ErrorCode::InvalidTarget,
                "layered canvas supports identity/crop/transparent canvas only; select a stable layer ID for pixel edits, or use layer_transform",
            ),
        ),
    }
}

/// The bytes that a layer and its mask store: 16 for each RGBA32F pixel.
pub open spec fn layer_bytes(l: LayerLinks) -> nat {
    ((l.width as nat) * (l.height as nat) * (if l.has_mask { 2nat } else { 1nat }) * 16) as nat
}

/// The bytes that all layers and masks of the stack store.
pub open spec fn stored_bytes(s: Seq<LayerLinks>) -> nat
    decreases s.len(),
{
    if s.len() == 0 {
        0
    } else {
        stored_bytes(s.drop_last()) + layer_bytes(s.last())
    }
}

/// Why layer `k` of the stack is refused, if it is: its ID must be well formed, differ from
/// every earlier layer's and be used by this history, and its size must be admissible.
pub open spec fn entry_refusal(s: Seq<LayerLinks>, used: Seq<Seq<char>>, limits: ResourceLimits, k: int) -> Option<
    ErrorCode,
> {
    if !is_layer_id(s[k].id.0@) || (exists|j: int| 0 <= j < k && #[trigger] s[j].id.0@ == s[k].id.0@)
        || !used.contains(s[k].id.0@) {
        Some(ErrorCode::InvalidTarget)
    } else {
        limits.dimensions_refusal(s[k].width, s[k].height)
    }
}

/// The refusal of the first of layers `0..k` that is refused, if any.
pub open spec fn first_entry_refusal(s: Seq<LayerLinks>, used: Seq<Seq<char>>, limits: ResourceLimits, k: nat) -> Option<
    ErrorCode,
>
    decreases k,
{
    if k == 0 {
        None
    } else {
        match first_entry_refusal(s, used, limits, (k - 1) as nat) {
            Some(c) => Some(c),
            None => entry_refusal(s, used, limits, k - 1),
        }
    }
}

/// A single-raster canvas: just the visible root raster layer `base`, unmasked and of the
/// canvas size, with nothing selected.
pub open spec fn legacy_shape(s: Seq<LayerLinks>, selection: Option<Seq<char>>, width: u32, height: u32) -> bool {
    &&& s.len() == 1
    &&& s[0].id.0@ == base_text()
    &&& s[0].parent is None
    &&& s[0].clip is None
    &&& s[0].visible
    &&& s[0].kind == LayerKind::Raster
    &&& !s[0].has_mask
    &&& s[0].width == width
    &&& s[0].height == height
    &&& selection is None
}

/// Why a `width` x `height` document with this stack is refused, if it is, in the order
/// the checks run: the canvas size; the stored and render buffers of a layered document;
/// each layer's ID and size; the hierarchy and its render scratch; the selection's space;
/// and, before any layer or selection edit, the single-raster shape.
pub open spec fn stack_refusal(
    s: Seq<LayerLinks>,
    used: Seq<Seq<char>>,
    selection: Option<Seq<char>>,
    layered: bool,
    width: u32,
    height: u32,
    limits: ResourceLimits,
) -> Option<ErrorCode> {
    if limits.dimensions_refusal(width, height) is Some {
        limits.dimensions_refusal(width, height)
    } else if layered && sat(stored_bytes(s) + width * height * 32) > limits.max_buffer_bytes {
        Some(ErrorCode::ResourceLimit)
    } else if first_entry_refusal(s, used, limits, s.len()) is Some {
        first_entry_refusal(s, used, limits, s.len())
    } else if hierarchy_error(s) is Some {
        hierarchy_error(s)
    } else if layered && sat(sat(stored_bytes(s) as int) + scope_scratch(s, None, width, height, SCRATCH_FUEL as nat))
        > limits.max_buffer_bytes {
        Some(ErrorCode::ResourceLimit)
    } else if selection matches Some(space) && space != canvas_text() && position_of(s, space) is None {
        Some(ErrorCode::InvalidTarget)
    } else if !layered && !legacy_shape(s, selection, width, height) {
        Some(ErrorCode::InvalidProject)
    } else {
        None
    }
}

proof fn lemma_first_entry_stable(s: Seq<LayerLinks>, used: Seq<Seq<char>>, limits: ResourceLimits, n: nat, m: nat)
    requires
        n <= m,
        first_entry_refusal(s, used, limits, n) is Some,
    ensures
        first_entry_refusal(s, used, limits, m) == first_entry_refusal(s, used, limits, n),
    decreases m,
{
    if m > n {
        lemma_first_entry_stable(s, used, limits, n, (m - 1) as nat);
    }
}

proof fn lemma_first_entry_none(s: Seq<LayerLinks>, used: Seq<Seq<char>>, limits: ResourceLimits, n: nat)
    requires
        first_entry_refusal(s, used, limits, n) is None,
    ensures
        forall|k: int| 0 <= k < n ==> #[trigger] entry_refusal(s, used, limits, k) is None,
    decreases n,
{
    if n > 0 {
        lemma_first_entry_none(s, used, limits, (n - 1) as nat);
    }
}

proof fn lemma_entries_registered(s: Seq<LayerLinks>, used: Seq<Seq<char>>, limits: ResourceLimits)
    requires
        first_entry_refusal(s, used, limits, s.len()) is None,
    ensures
        registered(s, used),
{
    lemma_first_entry_none(s, used, limits, s.len());
    assert forall|a: int, b: int| 0 <= a < b < s.len() implies (#[trigger] s[a]).id.0@ != (
    #[trigger] s[b]).id.0@ by {
        assert(entry_refusal(s, used, limits, b) is None);
    }
    assert forall|k: int| 0 <= k < s.len() implies is_layer_id((#[trigger] s[k]).id.0@) && used.contains(
        s[k].id.0@,
    ) by {
        assert(entry_refusal(s, used, limits, k) is None);
    }
}

/// What an edit did: it was accepted exactly when nothing refuses it; then the layers, the
/// used IDs and the selection changed as the edit says, else nothing changed at all; and
/// registered IDs stay registered.
pub open spec fn edit_effect(
    before: LayerStack,
    after: LayerStack,
    target: Seq<char>,
    edit: StackEdit,
    r: Result<(), PicError>,
) -> bool {
    let refusal = edit_refusal(before.layers@, names(before.used@), target, edit);
    &&& (r is Ok <==> refusal is None)
    &&& match r {
        Ok(()) => {
            &&& after.layers@ == edited_layers(before.layers@, target, edit)
            &&& names(after.used@) == edited_used(names(before.used@), edit)
            &&& id_view(after.selection) == edited_selection(id_view(before.selection), target, edit)
        },
        Err(e) => Some(e.code) == refusal && after == before,
    }
    &&& registered(before.layers@, names(before.used@)) ==> registered(after.layers@, names(after.used@))
}

impl LayerStack {
    /// The stack of a single-raster canvas: one visible root raster layer `base` of the
    /// canvas size, with nothing selected.
    pub fn from_base(width: u32, height: u32) -> (s: Self)
        ensures
            s.layers@.len() == 1,
            s.layers@[0].id.0@ == base_text(),
            s.layers@[0].kind == LayerKind::Raster,
            s.layers@[0].parent is None,
            s.layers@[0].clip is None,
            s.layers@[0].mapping_ok,
            s.layers@[0].visible,
            s.layers@[0].width == width,
            s.layers@[0].height == height,
            !s.layers@[0].has_mask,
            names(s.used@) == seq![base_text()],
            s.selection is None,
            !s.layered,
            registered(s.layers@, names(s.used@)),
    {
        proof {
            reveal_strlit("base");
        }
        assert(BASE_LAYER_ID@ =~= base_text());
        let base = LayerLinks {
            id: TargetId(String::from_str(BASE_LAYER_ID)),
            kind: LayerKind::Raster,
            parent: None,
            clip: None,
            mapping_ok: true,
            visible: true,
            width,
            height,
            has_mask: false,
        };
        proof {
            lemma_base_is_layer_id();
        }
        let mut layers: Vec<LayerLinks> = Vec::new();
        layers.push(base);
        let mut used: Vec<String> = Vec::new();
        used.push(String::from_str(BASE_LAYER_ID));
        let s = LayerStack { layers, used, selection: None, layered: false };
        assert(names(s.used@) =~= seq![base_text()]);
        assert(names(s.used@).contains(base_text())) by {
            assert(names(s.used@)[0] == base_text());
        }
        s
    }

    fn flag_mask(&mut self, i: usize, has_mask: bool)
        requires
            i < old(self).layers@.len(),
        ensures
            final(self).layers@ == old(self).layers@.update(i as int, with_mask(old(self).layers@[i as int], has_mask)),
            final(self).used == old(self).used,
            final(self).selection == old(self).selection,
            final(self).layered == old(self).layered,
            registered(old(self).layers@, names(old(self).used@)) ==> registered(
                final(self).layers@,
                names(final(self).used@),
            ),
    {
        let ghost s = self.layers@;
        let mut layer = self.layers.remove(i);
        layer.has_mask = has_mask;
        assert(layer == with_mask(s[i as int], has_mask));
        self.layers.insert(i, layer);
        assert(self.layers@ =~= s.update(i as int, with_mask(s[i as int], has_mask)));
        proof {
            if registered(s, names(self.used@)) {
                lemma_updated_registered(s, names(self.used@), i as int, with_mask(s[i as int], has_mask));
            }
        }
    }

    /// Whether this history has used the ID of `id`.
    pub fn is_used(&self, id: &TargetId) -> (r: bool)
        ensures
            r == names(self.used@).contains(id.0@),
    {
        let mut i: usize = 0;
        while i < self.used.len()
            invariant
                i <= self.used@.len(),
                forall|j: int| 0 <= j < i ==> (#[trigger] self.used@[j])@ != id.0@,
            decreases self.used@.len() - i,
        {
            if self.used[i] == id.0 {
                assert(names(self.used@)[i as int] == id.0@);
                return true;
            }
            i += 1;
        }
        assert forall|j: int| 0 <= j < names(self.used@).len() implies #[trigger] names(self.used@)[j]
            != id.0@ by {
            assert(names(self.used@)[j] == self.used@[j]@);
        }
        false
    }

    /// Check that every layer ID is well formed, unique in the stack and used by this
    /// history.
    pub fn check_ids(&self) -> (r: Result<(), PicError>)
        ensures
            r is Ok <==> registered(self.layers@, names(self.used@)),
            r matches Err(e) ==> e.code == ErrorCode::InvalidTarget,
    {
        let n = self.layers.len();
        let mut i: usize = 0;
        while i < n
            invariant
                n == self.layers@.len(),
                i <= n,
                forall|a: int, b: int|
                    0 <= a < b < n && a < i ==> (#[trigger] self.layers@[a]).id.0@ != (
                    #[trigger] self.layers@[b]).id.0@,
                forall|k: int|
                    0 <= k < i ==> is_layer_id((#[trigger] self.layers@[k]).id.0@) && names(
                        self.used@,
                    ).contains(self.layers@[k].id.0@),
            decreases n - i,
        {
            let layer = &self.layers[i];
            if valid_id(&layer.id).is_err() {
                assert(!is_layer_id(self.layers@[i as int].id.0@));
                return Err(PicError::new(ErrorCode::InvalidTarget, "duplicate or unregistered layer ID"));
            }
            if !self.is_used(&layer.id) {
                return Err(PicError::new(ErrorCode::InvalidTarget, "duplicate or unregistered layer ID"));
            }
            let mut j: usize = i + 1;
            while j < n
                invariant
                    n == self.layers@.len(),
                    i < n,
                    i + 1 <= j <= n,
                    layer == self.layers@[i as int],
                    forall|b: int| i < b < j ==> self.layers@[i as int].id.0@ != (
                    #[trigger] self.layers@[b]).id.0@,
                decreases n - j,
            {
                if self.layers[j].id.0 == layer.id.0 {
                    assert(self.layers@[i as int].id.0@ == self.layers@[j as int].id.0@);
                    return Err(
                        PicError::new(ErrorCode::InvalidTarget, "duplicate or unregistered layer ID"),
                    );
                }
                j += 1;
            }
            i += 1;
        }
        Ok(())
    }

    /// The bytes that the layers and masks store, or `u64::MAX` when that is larger.
    pub fn memory_bytes(&self) -> (n: u64)
        ensures
            n == sat(stored_bytes(self.layers@) as int),
    {
        let mut total: u64 = 0;
        let mut k: usize = 0;
        while k < self.layers.len()
            invariant
                k <= self.layers@.len(),
                total == sat(stored_bytes(self.layers@.take(k as int)) as int),
            decreases self.layers@.len() - k,
        {
            let layer = &self.layers[k];
            let area = area_of(layer.width, layer.height);
            let planes: u64 = if layer.has_mask {
                32
            } else {
                16
            };
            let bytes = match area.checked_mul(planes) {
                Some(b) => b,
                None => u64::MAX,
            };
            let ghost before = stored_bytes(self.layers@.take(k as int));
            assert(self.layers@.take(k as int + 1).drop_last() =~= self.layers@.take(k as int));
            assert(self.layers@.take(k as int + 1).last() == self.layers@[k as int]);
            assert(bytes == sat(layer_bytes(self.layers@[k as int]) as int)) by (nonlinear_arith)
                requires
                    area == layer.width * layer.height,
                    planes == (if layer.has_mask { 32int } else { 16int }),
                    bytes == (if area * planes > u64::MAX { u64::MAX as int } else { area * planes }),
                    layer_bytes(self.layers@[k as int]) == (layer.width as nat) * (layer.height as nat) * (
                    if layer.has_mask { 2nat } else { 1nat }) * 16,
            ;
            total = sat_add(total, bytes);
            k += 1;
        }
        assert(self.layers@.take(self.layers@.len() as int) =~= self.layers@);
        total
    }

    /// Check layers `0..` in order: each ID well formed, new and used, each size admissible.
    fn check_entries(&self, limits: &ResourceLimits) -> (r: Result<(), PicError>)
        ensures
            match r {
                Ok(()) => first_entry_refusal(self.layers@, names(self.used@), *limits, self.layers@.len())
                    is None,
                Err(e) => first_entry_refusal(self.layers@, names(self.used@), *limits, self.layers@.len())
                    == Some(e.code),
            },
    {
        let ghost s = self.layers@;
        let ghost used = names(self.used@);
        let n = self.layers.len();
        let mut k: usize = 0;
        while k < n
            invariant
                n == s.len(),
                s == self.layers@,
                used == names(self.used@),
                k <= n,
                first_entry_refusal(s, used, *limits, k as nat) is None,
            decreases n - k,
        {
            let layer = &self.layers[k];
            let mut fresh = true;
            let mut j: usize = 0;
            while j < k
                invariant
                    n == s.len(),
                    s == self.layers@,
                    k < n,
                    layer == s[k as int],
                    j <= k,
                    fresh == forall|i: int| 0 <= i < j ==> #[trigger] s[i].id.0@ != s[k as int].id.0@,
                decreases k - j,
            {
                if self.layers[j].id.0 == layer.id.0 {
                    fresh = false;
                }
                j += 1;
            }
            let ok_id = valid_id(&layer.id).is_ok() && fresh && self.is_used(&layer.id);
            assert(ok_id == !(!is_layer_id(s[k as int].id.0@) || (exists|i: int|
                0 <= i < k && #[trigger] s[i].id.0@ == s[k as int].id.0@) || !used.contains(
                s[k as int].id.0@,
            )));
            if !ok_id {
                proof {
                    lemma_first_entry_stable(s, used, *limits, k as nat + 1, n as nat);
                }
                return Err(PicError::new(ErrorCode::InvalidTarget, "duplicate or unregistered layer ID"));
            }
            match limits.check_dimensions(layer.width, layer.height) {
                Ok(_) => {},
                Err(e) => {
                    proof {
                        lemma_first_entry_stable(s, used, *limits, k as nat + 1, n as nat);
                    }
                    return Err(e);
                },
            }
            k += 1;
        }
        Ok(())
    }

    /// Validate a `width` x `height` document with this stack: what `stack_refusal` checks,
    /// in its order. Transforms, opacities, masks' pixels and text boxes are checked by
    /// their owners.
    pub fn validate(&self, width: u32, height: u32, limits: &ResourceLimits) -> (r: Result<(), PicError>)
        requires
            self.layers@.len() < usize::MAX,
        ensures
            match r {
                Ok(()) => stack_refusal(
                    self.layers@,
                    names(self.used@),
                    id_view(self.selection),
                    self.layered,
                    width,
                    height,
                    *limits,
                ) is None,
                Err(e) => stack_refusal(
                    self.layers@,
                    names(self.used@),
                    id_view(self.selection),
                    self.layered,
                    width,
                    height,
                    *limits,
                ) == Some(e.code),
            },
            r is Ok ==> registered(self.layers@, names(self.used@)),
    {
        match limits.check_dimensions(width, height) {
            Ok(_) => {},
            Err(e) => return Err(e),
        }
        let memory = self.memory_bytes();
        if self.layered {
            let render = area_of(width, height) * 32;
            if sat_add(memory, render) > limits.max_buffer_bytes {
                return Err(
                    PicError::new(
                        ErrorCode::ResourceLimit,
                        "document layers, masks and render buffers exceed memory budget",
                    ),
                );
            }
        }
        match self.check_entries(limits) {
            Ok(()) => {},
            Err(e) => return Err(e),
        }
        proof {
            lemma_entries_registered(self.layers@, names(self.used@), *limits);
        }
        match validate_hierarchy(&self.layers, self.layered, width, height, memory, limits) {
            Ok(()) => {},
            Err(e) => return Err(e),
        }
        proof {
            reveal_strlit("canvas");
            reveal_strlit("base");
        }
        assert("canvas"@ =~= canvas_text());
        assert(BASE_LAYER_ID@ =~= base_text());
        match &self.selection {
            Some(space) => {
                if !text_eq(space.0.as_str(), "canvas") && position(self.layers.as_slice(), space).is_none() {
                    return Err(PicError::new(ErrorCode::InvalidTarget, "selection space layer does not exist"));
                }
            },
            None => {},
        }
        if !self.layered {
            let shaped = self.layers.len() == 1 && text_eq(self.layers[0].id.0.as_str(), BASE_LAYER_ID)
                && self.layers[0].parent.is_none() && self.layers[0].clip.is_none() && self.layers[0].visible
                && self.layers[0].kind == LayerKind::Raster && !self.layers[0].has_mask && self.layers[0].width
                == width && self.layers[0].height == height && self.selection.is_none();
            if !shaped {
                return Err(PicError::new(ErrorCode::InvalidProject, "invalid legacy canvas state"));
            }
        }
        Ok(())
    }

    /// Apply one structural edit of `target`. A refused edit leaves the stack unchanged; an
    /// accepted one marks it layered. Every edit keeps the layer IDs registered.
    pub fn apply(&mut self, target: &TargetId, edit: StackEdit) -> (r: Result<(), PicError>)
        ensures
            r is Ok <==> edit_refusal(old(self).layers@, names(old(self).used@), target.0@, edit) is None,
            match r {
                Ok(()) => {
                    &&& final(self).layers@ == edited_layers(old(self).layers@, target.0@, edit)
                    &&& names(final(self).used@) == edited_used(names(old(self).used@), edit)
                    &&& id_view(final(self).selection) == edited_selection(
                        id_view(old(self).selection),
                        target.0@,
                        edit,
                    )
                    &&& final(self).layered
                },
                Err(e) => {
                    &&& Some(e.code) == edit_refusal(
                        old(self).layers@,
                        names(old(self).used@),
                        target.0@,
                        edit,
                    )
                    &&& *final(self) == *old(self)
                },
            },
            registered(old(self).layers@, names(old(self).used@)) ==> registered(
                final(self).layers@,
                names(final(self).used@),
            ),
    {
        let r = match edit {
            StackEdit::Insert(layer) => self.insert_layer(layer),
            StackEdit::Parent { parent, before } => self.move_layer(target, parent, before),
            StackEdit::Reorder(before) => self.reorder_layer(target, before),
            StackEdit::Remove => self.remove_layer(target),
            StackEdit::Clip(clip) => self.set_clip(target, clip),
            StackEdit::Visible(visible) => self.set_visible(target, visible),
            StackEdit::MaskSet { width, height } => self.set_mask(target, width, height),
            StackEdit::MaskRemove => self.remove_mask(target),
            StackEdit::SelectionSet(space) => self.select(space),
            StackEdit::SelectionClear => {
                self.selection = None;
                Ok(())
            },
        };
        if r.is_ok() {
            self.layered = true;
        }
        r
    }

    fn insert_layer(&mut self, layer: LayerLinks) -> (r: Result<(), PicError>)
        ensures
            edit_effect(*old(self), *final(self), Seq::empty(), StackEdit::Insert(layer), r),
            final(self).layered == old(self).layered,
    {
        let ghost s = self.layers@;
        let ghost used = names(self.used@);
        if valid_id(&layer.id).is_err() {
            return Err(
                PicError::new(
                    ErrorCode::InvalidTarget,
                    "layer ID must contain 1..128 ASCII letters, digits, '_' or '-', and cannot be 'canvas'",
                ),
            );
        }
        if self.is_used(&layer.id) {
            return Err(PicError::new(ErrorCode::InvalidTarget, "layer ID has already been used in this history"));
        }
        let name = layer.id.0.clone();
        let ghost fresh = layer.id.0@;
        proof {
            lemma_names_push(self.used@, name);
        }
        self.used.push(name);
        self.layers.push(layer);
        proof {
            let t = self.layers@;
            let u = names(self.used@);
            assert(u == used.push(fresh));
            if registered(s, used) {
                assert forall|k: int| 0 <= k < t.len() implies is_layer_id((#[trigger] t[k]).id.0@)
                    && u.contains(t[k].id.0@) by {
                    if k < s.len() {
                        assert(t[k] == s[k]);
                        assert(used.contains(s[k].id.0@));
                        let w = choose|w: int| 0 <= w < used.len() && used[w] == s[k].id.0@;
                        assert(u[w] == used[w]);
                    } else {
                        assert(u[used.len() as int] == fresh);
                    }
                }
                assert forall|a: int, b: int| 0 <= a < b < t.len() implies (#[trigger] t[a]).id.0@ != (
                #[trigger] t[b]).id.0@ by {
                    assert(t[a] == s[a]);
                    if b < s.len() {
                        assert(t[b] == s[b]);
                    } else {
                        assert(used.contains(s[a].id.0@));
                    }
                }
            }
        }
        Ok(())
    }

    fn move_layer(&mut self, target: &TargetId, parent: Option<TargetId>, before: Option<TargetId>) -> (r:
        Result<(), PicError>)
        ensures
            edit_effect(*old(self), *final(self), target.0@, StackEdit::Parent { parent, before }, r),
            final(self).layered == old(self).layered,
    {
        let ghost s = self.layers@;
        let ghost used = names(self.used@);
        let parent_ref = parent.as_ref();
        let before_ref = before.as_ref();
        assert(id_option(parent_ref) == id_view(parent) && id_option(before_ref) == id_view(before));
        let (from, to) = match plan_move(&self.layers, target, parent_ref, before_ref) {
            Ok(p) => p,
            Err(e) => return Err(e),
        };
        proof {
            move_places_layer_below(s, target.0@, id_view(parent), id_view(before));
        }
        let mut layer = self.layers.remove(from);
        let ghost moved = layer;
        layer.parent = parent;
        assert(layer == with_parent(moved, parent));
        self.layers.insert(to, layer);
        proof {
            if registered(s, used) {
                lemma_moved_registered(s, used, from as int, to as int, with_parent(moved, parent));
            }
        }
        Ok(())
    }

    fn reorder_layer(&mut self, target: &TargetId, before: Option<TargetId>) -> (r: Result<(), PicError>)
        ensures
            edit_effect(*old(self), *final(self), target.0@, StackEdit::Reorder(before), r),
            final(self).layered == old(self).layered,
    {
        let ghost s = self.layers@;
        let ghost used = names(self.used@);
        let before_ref = before.as_ref();
        assert(id_option(before_ref) == id_view(before));
        let (from, to) = match plan_reorder(&self.layers, target, before_ref) {
            Ok(p) => p,
            Err(e) => return Err(e),
        };
        proof {
            lemma_found(s, target.0@);
            move_places_layer_below(s, target.0@, id_view(s[from as int].parent), id_view(before));
        }
        let layer = self.layers.remove(from);
        self.layers.insert(to, layer);
        proof {
            if registered(s, used) {
                lemma_moved_registered(s, used, from as int, to as int, s[from as int]);
            }
        }
        Ok(())
    }

    fn remove_layer(&mut self, target: &TargetId) -> (r: Result<(), PicError>)
        ensures
            edit_effect(*old(self), *final(self), target.0@, StackEdit::Remove, r),
            final(self).layered == old(self).layered,
    {
        let ghost s = self.layers@;
        let ghost used = names(self.used@);
        let i = match plan_remove(&self.layers, target) {
            Ok(i) => i,
            Err(e) => return Err(e),
        };
        self.layers.remove(i);
        let clear = match &self.selection {
            Some(space) => space.0 == target.0,
            None => false,
        };
        if clear {
            self.selection = None;
        }
        proof {
            if registered(s, used) {
                lemma_removed_registered(s, used, i as int);
            }
        }
        Ok(())
    }

    /// The index of `target`, or the refusal of a missing layer.
    fn find_layer(&self, target: &TargetId) -> (r: Result<usize, PicError>)
        ensures
            match r {
                Ok(i) => position_of(self.layers@, target.0@) == Some(i as int) && i < self.layers@.len(),
                Err(e) => position_of(self.layers@, target.0@) is None && e.code == ErrorCode::InvalidTarget,
            },
    {
        match position(self.layers.as_slice(), target) {
            Some(i) => {
                proof {
                    lemma_found(self.layers@, target.0@);
                }
                Ok(i)
            },
            None => Err(PicError::new(ErrorCode::InvalidTarget, "layer does not exist at this revision")),
        }
    }

    fn set_clip(&mut self, target: &TargetId, clip: Option<TargetId>) -> (r: Result<(), PicError>)
        ensures
            edit_effect(*old(self), *final(self), target.0@, StackEdit::Clip(clip), r),
            final(self).layered == old(self).layered,
    {
        let i = match self.find_layer(target) {
            Ok(i) => i,
            Err(e) => return Err(e),
        };
        let ghost s = self.layers@;
        let mut layer = self.layers.remove(i);
        layer.clip = clip;
        assert(layer == with_clip(s[i as int], clip));
        self.layers.insert(i, layer);
        assert(self.layers@ =~= s.update(i as int, with_clip(s[i as int], clip)));
        proof {
            if registered(s, names(self.used@)) {
                lemma_updated_registered(s, names(self.used@), i as int, with_clip(s[i as int], clip));
            }
        }
        Ok(())
    }

    fn set_visible(&mut self, target: &TargetId, visible: bool) -> (r: Result<(), PicError>)
        ensures
            edit_effect(*old(self), *final(self), target.0@, StackEdit::Visible(visible), r),
            final(self).layered == old(self).layered,
    {
        let i = match self.find_layer(target) {
            Ok(i) => i,
            Err(e) => return Err(e),
        };
        let ghost s = self.layers@;
        let mut layer = self.layers.remove(i);
        layer.visible = visible;
        assert(layer == with_visible(s[i as int], visible));
        self.layers.insert(i, layer);
        assert(self.layers@ =~= s.update(i as int, with_visible(s[i as int], visible)));
        proof {
            if registered(s, names(self.used@)) {
                lemma_updated_registered(s, names(self.used@), i as int, with_visible(s[i as int], visible));
            }
        }
        Ok(())
    }

    fn set_mask(&mut self, target: &TargetId, width: u32, height: u32) -> (r: Result<(), PicError>)
        ensures
            edit_effect(*old(self), *final(self), target.0@, StackEdit::MaskSet { width, height }, r),
            final(self).layered == old(self).layered,
    {
        let i = match self.find_layer(target) {
            Ok(i) => i,
            Err(e) => return Err(e),
        };
        if self.layers[i].width != width || self.layers[i].height != height {
            return Err(
                PicError::new(
                    ErrorCode::InvalidMask,
                    "mask dimensions must match the layer's local pixel dimensions after EXIF normalization",
                ),
            );
        }
        self.flag_mask(i, true);
        Ok(())
    }

    fn remove_mask(&mut self, target: &TargetId) -> (r: Result<(), PicError>)
        ensures
            edit_effect(*old(self), *final(self), target.0@, StackEdit::MaskRemove, r),
            final(self).layered == old(self).layered,
    {
        let i = match self.find_layer(target) {
            Ok(i) => i,
            Err(e) => return Err(e),
        };
        self.flag_mask(i, false);
        Ok(())
    }

    fn select(&mut self, space: TargetId) -> (r: Result<(), PicError>)
        ensures
            edit_effect(*old(self), *final(self), Seq::empty(), StackEdit::SelectionSet(space), r),
            final(self).layered == old(self).layered,
    {
        let canvas = text_eq(space.0.as_str(), "canvas");
        proof {
            reveal_strlit("canvas");
        }
        assert("canvas"@ =~= canvas_text());
        if !canvas && position(self.layers.as_slice(), &space).is_none() {
            return Err(PicError::new(ErrorCode::InvalidTarget, "selection space layer does not exist"));
        }
        self.selection = Some(space);
        Ok(())
    }
}

} // verus!
