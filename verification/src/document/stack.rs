//! Edits of the layer order: moving a layer among its siblings and removing a layer that
//! nothing depends on. The decisions are made on the stack's links; the caller moves its own
//! layers with `move_item`.
use crate::document::hierarchy::{id_view, LayerLinks};
use crate::document::TargetId;
use crate::error::{ErrorCode, PicError};
use vstd::prelude::*;

verus! {

/// `i` is the first layer whose ID is `id`: the layer an edit of `id` addresses.
pub open spec fn is_first(s: Seq<LayerLinks>, id: Seq<char>, i: int) -> bool {
    &&& 0 <= i < s.len()
    &&& s[i].id.0@ == id
    &&& forall|j: int| 0 <= j < i ==> (#[trigger] s[j]).id.0@ != id
}

pub open spec fn position_of(s: Seq<LayerLinks>, id: Seq<char>) -> Option<int> {
    if exists|i: int| is_first(s, id, i) {
        Some(choose|i: int| is_first(s, id, i))
    } else {
        None
    }
}

proof fn lemma_position_is(s: Seq<LayerLinks>, id: Seq<char>, i: int)
    requires
        is_first(s, id, i),
    ensures
        position_of(s, id) == Some(i),
{
    let c = choose|j: int| is_first(s, id, j);
    assert(is_first(s, id, c));
    if c < i {
        assert(s[c].id.0@ != id);
    } else if c > i {
        assert(s[i].id.0@ != id);
    }
}

/// What `position_of` finds is the first layer with that ID.
pub(crate) proof fn lemma_found(s: Seq<LayerLinks>, id: Seq<char>)
    ensures
        position_of(s, id) matches Some(i) ==> is_first(s, id, i),
{
    if exists|i: int| is_first(s, id, i) {
        let c = choose|i: int| is_first(s, id, i);
        assert(is_first(s, id, c));
    }
}

proof fn lemma_no_position(s: Seq<LayerLinks>, id: Seq<char>)
    requires
        forall|j: int| 0 <= j < s.len() ==> (#[trigger] s[j]).id.0@ != id,
    ensures
        position_of(s, id) is None,
{
}

/// The first layer whose ID equals `id`.
pub fn position(layers: &[LayerLinks], id: &TargetId) -> (r: Option<usize>)
    ensures
        match r {
            Some(i) => position_of(layers@, id.0@) == Some(i as int),
            None => position_of(layers@, id.0@) is None,
        },
{
    let mut i: usize = 0;
    while i < layers.len()
        invariant
            i <= layers@.len(),
            forall|j: int| 0 <= j < i ==> (#[trigger] layers@[j]).id.0@ != id.0@,
        decreases layers@.len() - i,
    {
        if layers[i].id.0 == id.0 {
            proof {
                lemma_position_is(layers@, id.0@, i as int);
            }
            return Some(i);
        }
        i += 1;
    }
    proof {
        lemma_no_position(layers@, id.0@);
    }
    None
}

fn missing_layer(id: &TargetId) -> (e: PicError)
    ensures
        e.code == ErrorCode::InvalidTarget,
{
    let mut message = String::from_str("layer '");
    message.append(id.0.as_str());
    message.append("' does not exist at this revision");
    PicError::new(ErrorCode::InvalidTarget, message.as_str())
}

/// Where moving `target` under the parent `parent` takes it from and where it puts it, if
/// it is allowed: the target must exist, `before` must differ from it and, when given, name
/// an existing layer whose parent is `parent`; the layer then goes just below `before`, or on
/// top without it.
pub open spec fn move_outcome(
    s: Seq<LayerLinks>,
    target: Seq<char>,
    parent: Option<Seq<char>>,
    before: Option<Seq<char>>,
) -> Result<(int, int), ErrorCode> {
    match position_of(s, target) {
        None => Err(ErrorCode::InvalidTarget),
        Some(index) => match before {
            None => Ok((index, s.len() - 1)),
            Some(b) => if b == target {
                Err(ErrorCode::InvalidTarget)
            } else {
                match position_of(s, b) {
                    None => Err(ErrorCode::InvalidTarget),
                    Some(j) => if id_view(s[j].parent) != parent {
                        Err(ErrorCode::InvalidHierarchy)
                    } else {
                        Ok((index, position_of(s.remove(index), b)->0))
                    },
                }
            },
        },
    }
}

/// A reorder moves `target` among its own siblings: under the parent it already has.
pub open spec fn reorder_outcome(s: Seq<LayerLinks>, target: Seq<char>, before: Option<Seq<char>>) -> Result<
    (int, int),
    ErrorCode,
> {
    match position_of(s, target) {
        None => Err(ErrorCode::InvalidTarget),
        Some(index) => move_outcome(s, target, id_view(s[index].parent), before),
    }
}

/// Plan moving `target` just below `before` (or to the top) as a child of `parent`: the
/// index to take it from and the index to insert it at once it has been taken out.
pub fn plan_move(
    layers: &Vec<LayerLinks>,
    target: &TargetId,
    parent: Option<&TargetId>,
    before: Option<&TargetId>,
) -> (r: Result<(usize, usize), PicError>)
    ensures
        match r {
            Ok((from, to)) => move_outcome(layers@, target.0@, id_option(parent), id_option(before))
                == Ok::<(int, int), ErrorCode>((from as int, to as int)),
            Err(e) => move_outcome(layers@, target.0@, id_option(parent), id_option(before)) == Err::<
                (int, int),
                ErrorCode,
            >(e.code),
        },
{
    let index = match position(layers.as_slice(), target) {
        Some(i) => i,
        None => return Err(missing_layer(target)),
    };
    match before {
        None => Ok((index, layers.len() - 1)),
        Some(b) => {
            if b.0 == target.0 {
                return Err(
                    PicError::new(ErrorCode::InvalidTarget, "cannot reorder a layer relative to itself"),
                );
            }
            let j = match position(layers.as_slice(), b) {
                Some(j) => j,
                None => return Err(missing_layer(b)),
            };
            let same = match (&layers[j].parent, parent) {
                (Some(x), Some(y)) => x.0 == y.0,
                (None, None) => true,
                _ => false,
            };
            if !same {
                return Err(
                    PicError::new(
                        ErrorCode::InvalidHierarchy,
                        "before must name a sibling in the destination group",
                    ),
                );
            }
            let ghost rest = layers@.remove(index as int);
            let to = if j < index {
                j
            } else {
                j - 1
            };
            proof {
                assert(is_first(layers@, b.0@, j as int));
                assert(j != index);
                assert forall|m: int| 0 <= m < to implies (#[trigger] rest[m]).id.0@ != b.0@ by {
                    if m < index {
                        assert(rest[m] == layers@[m]);
                    } else {
                        assert(rest[m] == layers@[m + 1]);
                    }
                }
                assert(rest[to as int] == layers@[j as int]);
                lemma_position_is(rest, b.0@, to as int);
            }
            Ok((index, to))
        },
    }
}

/// Plan moving `target` just below its sibling `before` (or to the top): the index to take
/// it from and the index to insert it at once it has been taken out.
pub fn plan_reorder(layers: &Vec<LayerLinks>, target: &TargetId, before: Option<&TargetId>) -> (r: Result<
    (usize, usize),
    PicError,
>)
    ensures
        match r {
            Ok((from, to)) => reorder_outcome(layers@, target.0@, id_option(before)) == Ok::<
                (int, int),
                ErrorCode,
            >((from as int, to as int)),
            Err(e) => reorder_outcome(layers@, target.0@, id_option(before)) == Err::<
                (int, int),
                ErrorCode,
            >(e.code),
        },
{
    let index = match position(layers.as_slice(), target) {
        Some(i) => i,
        None => return Err(missing_layer(target)),
    };
    let parent = layers[index].parent.as_ref();
    assert(id_option(parent) == id_view(layers@[index as int].parent));
    plan_move(layers, target, parent, before)
}

pub open spec fn id_option(t: Option<&TargetId>) -> Option<Seq<char>> {
    match t {
        Some(t) => Some(t.0@),
        None => None,
    }
}

/// Removing `target` is allowed when it exists and no layer names it as parent or clip base;
/// the result is its index.
pub open spec fn remove_outcome(s: Seq<LayerLinks>, target: Seq<char>) -> Result<int, ErrorCode> {
    match position_of(s, target) {
        None => Err(ErrorCode::InvalidTarget),
        Some(i) => if exists|j: int|
            0 <= j < s.len() && (id_view(#[trigger] s[j].parent) == Some(target) || id_view(s[j].clip)
                == Some(target)) {
            Err(ErrorCode::InvalidHierarchy)
        } else {
            Ok(i)
        },
    }
}

/// Plan removing `target`: its index, once no child or clipped layer depends on it.
pub fn plan_remove(layers: &Vec<LayerLinks>, target: &TargetId) -> (r: Result<usize, PicError>)
    ensures
        match r {
            Ok(i) => remove_outcome(layers@, target.0@) == Ok::<int, ErrorCode>(i as int),
            Err(e) => remove_outcome(layers@, target.0@) == Err::<int, ErrorCode>(e.code),
        },
{
    let index = match position(layers.as_slice(), target) {
        Some(i) => i,
        None => return Err(missing_layer(target)),
    };
    let mut k: usize = 0;
    while k < layers.len()
        invariant
            k <= layers@.len(),
            position_of(layers@, target.0@) == Some(index as int),
            forall|j: int|
                0 <= j < k ==> !(id_view(#[trigger] layers@[j].parent) == Some(target.0@) || id_view(
                    layers@[j].clip,
                ) == Some(target.0@)),
        decreases layers@.len() - k,
    {
        let child = match &layers[k].parent {
            Some(p) => p.0 == target.0,
            None => false,
        };
        let clipped = match &layers[k].clip {
            Some(c) => c.0 == target.0,
            None => false,
        };
        if child || clipped {
            assert(id_view(layers@[k as int].parent) == Some(target.0@) || id_view(layers@[k as int].clip)
                == Some(target.0@));
            return Err(
                PicError::new(
                    ErrorCode::InvalidHierarchy,
                    "reparent children and detach clipping dependents before removing their target",
                ),
            );
        }
        k += 1;
    }
    Ok(index)
}

/// A permitted move keeps the number of layers and puts the moved layer immediately below
/// `before` (so `before` is the next layer up), or on top when no `before` is given.
pub proof fn move_places_layer_below(
    s: Seq<LayerLinks>,
    target: Seq<char>,
    parent: Option<Seq<char>>,
    before: Option<Seq<char>>,
)
    requires
        move_outcome(s, target, parent, before) is Ok,
    ensures
        ({
            let (from, to) = move_outcome(s, target, parent, before)->Ok_0;
            let moved = s.remove(from).insert(to, s[from]);
            &&& 0 <= from < s.len()
            &&& 0 <= to < s.len()
            &&& s[from].id.0@ == target
            &&& moved.len() == s.len()
            &&& moved[to].id.0@ == target
            &&& match before {
                Some(b) => to + 1 < moved.len() && moved[to + 1].id.0@ == b,
                None => to == s.len() - 1,
            }
        }),
{
    let index = position_of(s, target)->0;
    assert(is_first(s, target, index)) by {
        let c = choose|i: int| is_first(s, target, i);
        assert(is_first(s, target, c));
    }
    let rest = s.remove(index);
    match before {
        None => {},
        Some(b) => {
            let j = position_of(s, b)->0;
            assert(is_first(s, b, j)) by {
                let c = choose|i: int| is_first(s, b, i);
                assert(is_first(s, b, c));
            }
            assert(j != index);
            let t = if j < index { j } else { j - 1 };
            assert forall|m: int| 0 <= m < t implies (#[trigger] rest[m]).id.0@ != b by {
                if m < index {
                    assert(rest[m] == s[m]);
                } else {
                    assert(rest[m] == s[m + 1]);
                }
            }
            assert(rest[t] == s[j]);
            lemma_position_is(rest, b, t);
            let moved = rest.insert(t, s[index]);
            assert(moved[t + 1] == rest[t]);
        },
    }
}

/// A permitted reorder keeps the number of layers and puts the moved layer immediately
/// below `before` (so `before` is the next layer up), or on top when no `before` is given.
pub proof fn reorder_places_layer_below(s: Seq<LayerLinks>, target: Seq<char>, before: Option<Seq<char>>)
    requires
        reorder_outcome(s, target, before) is Ok,
    ensures
        ({
            let (from, to) = reorder_outcome(s, target, before)->Ok_0;
            let moved = s.remove(from).insert(to, s[from]);
            &&& moved.len() == s.len()
            &&& moved[to].id.0@ == target
            &&& match before {
                Some(b) => to + 1 < moved.len() && moved[to + 1].id.0@ == b,
                None => to == s.len() - 1,
            }
        }),
{
    let index = position_of(s, target)->0;
    move_places_layer_below(s, target, id_view(s[index].parent), before);
}

/// Take the item at `from` out and insert it at `to` of what remains.
pub fn move_item<T>(items: &mut Vec<T>, from: usize, to: usize)
    requires
        from < old(items)@.len(),
        to < old(items)@.len(),
    ensures
        final(items)@ == old(items)@.remove(from as int).insert(to as int, old(items)@[from as int]),
{
    let item = items.remove(from);
    items.insert(to, item);
}

} // verus!
