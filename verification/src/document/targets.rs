//! What a render or preview target names in a layer stack: the canvas, a layer, or a layer's
//! mask (`mask:<id>`); and, inside a group scope, which child leads down to a chosen layer.
use crate::document::editing::unique_ids;
use crate::document::hierarchy::{
    checked_stack_is_renderable, hierarchy_error, id_view, is_last, lookup, parent_of, too_deep, LayerLinks,
    MAX_GROUP_DEPTH,
};
use crate::document::stack::{is_first, lemma_found, position, position_of};
use crate::document::{canvas_text, TargetId};
use crate::error::{ErrorCode, PicError};
use crate::text::text_eq;
use vstd::prelude::*;

verus! {

/// What a target resolves to.
#[derive(Debug, Clone, Copy, PartialEq, Eq)]
pub enum RenderTarget {
    Canvas,
    /// The layer at this index.
    Layer(usize),
    /// The coverage mask of the layer at this index.
    Mask(usize),
}

pub open spec fn mask_prefix() -> Seq<char> {
    seq!['m', 'a', 's', 'k', ':']
}

pub open spec fn has_mask_prefix(t: Seq<char>) -> bool {
    t.len() >= 5 && t.take(5) == mask_prefix()
}

/// Resolve `target`: `mask:<id>` names the mask of layer `<id>`, which must have one;
/// `canvas` names the canvas; anything else names the first layer with that ID.
pub fn resolve_target(layers: &Vec<LayerLinks>, target: &TargetId) -> (r: Result<RenderTarget, PicError>)
    ensures
        match r {
            Ok(RenderTarget::Canvas) => !has_mask_prefix(target.0@) && target.0@ == canvas_text(),
            Ok(RenderTarget::Layer(i)) => !has_mask_prefix(target.0@) && target.0@ != canvas_text()
                && position_of(layers@, target.0@) == Some(i as int),
            Ok(RenderTarget::Mask(i)) => has_mask_prefix(target.0@) && position_of(layers@, target.0@.skip(5))
                == Some(i as int) && layers@[i as int].has_mask,
            Err(e) => e.code == ErrorCode::InvalidTarget && if has_mask_prefix(target.0@) {
                match position_of(layers@, target.0@.skip(5)) {
                    None => true,
                    Some(i) => !layers@[i].has_mask,
                }
            } else {
                target.0@ != canvas_text() && position_of(layers@, target.0@) is None
            },
        },
{
    let text = target.0.as_str();
    let n = text.unicode_len();
    let mut prefixed = n >= 5;
    if prefixed {
        let mut i: usize = 0;
        while i < 5
            invariant
                n == text@.len(),
                n >= 5,
                i <= 5,
                prefixed == forall|j: int| 0 <= j < i ==> text@[j] == #[trigger] mask_prefix()[j],
            decreases 5 - i,
        {
            let c = text.get_char(i);
            let expected = match i {
                0 => 'm',
                1 => 'a',
                2 => 's',
                3 => 'k',
                _ => ':',
            };
            assert(mask_prefix()[i as int] == expected);
            prefixed = prefixed && c == expected;
            i += 1;
        }
        assert(prefixed ==> text@.take(5) =~= mask_prefix());
        assert(text@.take(5) == mask_prefix() ==> prefixed) by {
            if text@.take(5) == mask_prefix() {
                assert forall|j: int| 0 <= j < 5 implies text@[j] == #[trigger] mask_prefix()[j] by {
                    assert(text@.take(5)[j] == text@[j]);
                }
            }
        }
    }
    assert(prefixed == has_mask_prefix(target.0@));
    if prefixed {
        let id = TargetId(String::from_str(text.substring_char(5, n)));
        return match position(layers.as_slice(), &id) {
            Some(i) => {
                if layers[i].has_mask {
                    Ok(RenderTarget::Mask(i))
                } else {
                    Err(PicError::new(ErrorCode::InvalidTarget, "layer has no mask"))
                }
            },
            None => Err(PicError::new(ErrorCode::InvalidTarget, "layer does not exist at this revision")),
        };
    }
    proof {
        reveal_strlit("canvas");
    }
    assert("canvas"@ =~= canvas_text());
    if text_eq(text, "canvas") {
        return Ok(RenderTarget::Canvas);
    }
    match position(layers.as_slice(), target) {
        Some(i) => Ok(RenderTarget::Layer(i)),
        None => Err(PicError::new(ErrorCode::InvalidTarget, "layer does not exist at this revision")),
    }
}

/// Climb from layer `i` towards the root until a layer directly in the scope `scope` (the
/// canvas when `None`): that layer's index, or why there is none. At most `fuel` parents are
/// followed; a checked stack never has more than `MAX_GROUP_DEPTH`.
pub open spec fn climb(s: Seq<LayerLinks>, i: int, scope: Option<Seq<char>>, fuel: nat) -> Result<int, ErrorCode>
    decreases fuel,
{
    if id_view(s[i].parent) == scope {
        Ok(i)
    } else {
        match s[i].parent {
            None => Err(ErrorCode::InvalidHierarchy),
            Some(p) => match position_of(s, p.0@) {
                None => Err(ErrorCode::InvalidTarget),
                Some(j) => if fuel == 0 {
                    Err(ErrorCode::InvalidHierarchy)
                } else {
                    climb(s, j, scope, (fuel - 1) as nat)
                },
            },
        }
    }
}

/// With unique IDs, `position_of` and `lookup` find the same layer.
proof fn lemma_unique_lookup(s: Seq<LayerLinks>, id: Seq<char>)
    requires
        unique_ids(s),
    ensures
        position_of(s, id) == lookup(s, id),
{
    lemma_found(s, id);
    if exists|i: int| is_last(s, id, i) {
        let c = choose|i: int| is_last(s, id, i);
        assert(is_last(s, id, c));
        match position_of(s, id) {
            Some(p) => {
                if p != c {
                    if p < c {
                        assert(s[p].id.0@ != s[c].id.0@);
                    } else {
                        assert(s[c].id.0@ != s[p].id.0@);
                    }
                }
            },
            None => {
                assert(is_first(s, id, c)) by {
                    assert forall|j: int| 0 <= j < c implies (#[trigger] s[j]).id.0@ != id by {
                        assert(s[j].id.0@ != s[c].id.0@);
                    }
                }
            },
        }
    } else {
        if let Some(p) = position_of(s, id) {
            assert(is_last(s, id, p)) by {
                assert forall|j: int| p < j < s.len() implies (#[trigger] s[j]).id.0@ != id by {
                    assert(s[p].id.0@ != s[j].id.0@);
                }
            }
        }
    }
}

proof fn lemma_climb_stable(s: Seq<LayerLinks>, i: int, scope: Option<Seq<char>>, k: nat, m: nat)
    requires
        unique_ids(s),
        0 <= i < s.len(),
        !too_deep(s, i, k),
    ensures
        climb(s, i, scope, k) == climb(s, i, scope, k + m),
    decreases k,
{
    if id_view(s[i].parent) != scope {
        match s[i].parent {
            None => {},
            Some(p) => {
                lemma_unique_lookup(s, p.0@);
                lemma_found(s, p.0@);
                match position_of(s, p.0@) {
                    None => {},
                    Some(j) => {
                        assert(parent_of(s, i) == Some(j));
                        assert(k > 0);
                        lemma_climb_stable(s, j, scope, (k - 1) as nat, m);
                        assert((k - 1) as nat + m == (k + m - 1) as nat);
                    },
                }
            },
        }
    }
}

/// In a checked stack with unique IDs no layer is nested deeper than `MAX_GROUP_DEPTH`, so
/// the depth limit of a climb is never what decides it: following more parents gives the
/// same answer.
pub proof fn checked_climb_ignores_depth_limit(s: Seq<LayerLinks>, i: int, scope: Option<Seq<char>>, m: nat)
    requires
        hierarchy_error(s) is None,
        unique_ids(s),
        0 <= i < s.len(),
    ensures
        climb(s, i, scope, MAX_GROUP_DEPTH as nat) == climb(s, i, scope, MAX_GROUP_DEPTH as nat + m),
{
    checked_stack_is_renderable(s);
    assert(!too_deep(s, i, MAX_GROUP_DEPTH as nat));
    lemma_climb_stable(s, i, scope, MAX_GROUP_DEPTH as nat, m);
}

/// Within the scope `scope`, the child that leads down to the chosen layer: none without a
/// chosen layer; else the chosen layer's first match, climbed up to the scope.
pub fn selected_child(layers: &Vec<LayerLinks>, scope: Option<&TargetId>, chosen: Option<&TargetId>) -> (r: Result<
    Option<usize>,
    PicError,
>)
    requires
        hierarchy_error(layers@) is None,
        unique_ids(layers@),
    ensures
        match chosen {
            None => r matches Ok(None),
            Some(c) => match position_of(layers@, c.0@) {
                None => r matches Err(e) && e.code == ErrorCode::InvalidTarget,
                Some(i) => match climb(layers@, i, scope_of(scope), MAX_GROUP_DEPTH as nat) {
                    Ok(j) => r matches Ok(Some(k)) && k == j,
                    Err(code) => r matches Err(e) && e.code == code,
                },
            },
        },
{
    let c = match chosen {
        None => return Ok(None),
        Some(c) => c,
    };
    let mut i = match position(layers.as_slice(), c) {
        Some(i) => i,
        None => return Err(PicError::new(ErrorCode::InvalidTarget, "layer does not exist at this revision")),
    };
    proof {
        lemma_found(layers@, c.0@);
    }
    let ghost start = i as int;
    let ghost want = climb(layers@, start, scope_of(scope), MAX_GROUP_DEPTH as nat);
    let mut fuel: usize = MAX_GROUP_DEPTH;
    loop
        invariant
            chosen == Some(c),
            position_of(layers@, c.0@) == Some(start),
            want == climb(layers@, start, scope_of(scope), MAX_GROUP_DEPTH as nat),
            i < layers@.len(),
            fuel <= MAX_GROUP_DEPTH,
            climb(layers@, i as int, scope_of(scope), fuel as nat) == want,
        decreases fuel,
    {
        let here = match (&layers[i].parent, scope) {
            (Some(p), Some(s)) => p.0 == s.0,
            (None, None) => true,
            _ => false,
        };
        assert(here == (id_view(layers@[i as int].parent) == scope_of(scope)));
        if here {
            return Ok(Some(i));
        }
        let p = match &layers[i].parent {
            Some(p) => p,
            None => return Err(PicError::new(ErrorCode::InvalidHierarchy, "preview target outside scope")),
        };
        let j = match position(layers.as_slice(), p) {
            Some(j) => j,
            None => return Err(PicError::new(ErrorCode::InvalidTarget, "layer does not exist at this revision")),
        };
        proof {
            lemma_found(layers@, p.0@);
        }
        if fuel == 0 {
            return Err(PicError::new(ErrorCode::InvalidHierarchy, "preview target outside scope"));
        }
        i = j;
        fuel = fuel - 1;
    }
}

pub open spec fn scope_of(scope: Option<&TargetId>) -> Option<Seq<char>> {
    match scope {
        Some(t) => Some(t.0@),
        None => None,
    }
}

} // verus!
