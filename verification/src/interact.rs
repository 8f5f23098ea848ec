//! Plain state for the interactive editor layer.
//!
//! The host owns the cursor, the camera and the physics queries; this module
//! holds the results as plain values and makes the selection decision, which
//! is the part with actual rules: interactive widgets win over module bodies,
//! and the first hit in hover order wins within a class.

use vstd::prelude::*;

use crate::entity::EntityId;

verus! {

/// The kinds of interactive widget that can be attached to a selected module.
#[derive(Clone, Copy, Debug, PartialEq, Eq, Structural)]
pub enum Interactive {
    /// Rotates the whole module.
    Rotation,
    /// Rotates a single input or output port.
    IORotation,
    /// Deletes the module.
    Delete,
}

/// The interactive widget currently grabbed by the cursor, if any.
#[derive(Clone, Copy, Debug, PartialEq, Eq, Structural)]
pub struct InteractiveSelected(pub Option<EntityId>);

/// The entity currently marked with the hover ring, if any.
#[derive(Clone, Copy, Debug, PartialEq, Eq, Structural)]
pub struct HoverEntity(pub EntityId);

/// The entities under the cursor this tick, in the order the physics layer
/// reported them.
#[derive(Debug)]
pub struct HoveredEntities(pub Vec<EntityId>);

impl HoveredEntities {
    /// An empty hover list.
    pub fn new() -> (r: Self)
        ensures
            r.0@ == Seq::<EntityId>::empty(),
    {
        HoveredEntities(Vec::new())
    }
}

/// Refill the hover list with the entities the physics layer found under the
/// cursor this tick, replacing last tick's.
pub fn get_hovered_entities(hovered: &mut HoveredEntities, found: &Vec<EntityId>)
    ensures
        final(hovered).0@ == found@,
{
    hovered.0.clear();
    let n = found.len();
    for k in 0..n
        invariant
            n == found@.len(),
            hovered.0@ == found@.take(k as int),
    {
        hovered.0.push(found[k]);
        proof {
            assert(hovered.0@ =~= found@.take(k + 1));
        }
    }
    proof {
        assert(found@.take(n as int) =~= found@);
    }
}

/// What a click should select.
#[derive(Clone, Copy, Debug, PartialEq, Eq, Structural)]
pub enum SelectTarget {
    /// An interactive widget was hit.
    Widget(EntityId),
    /// A module body was hit.
    ModuleBody(EntityId),
}

/// Whether an id occurs in a list of entity handles.
fn id_among(v: &Vec<EntityId>, e: EntityId) -> (r: bool)
    ensures
        r == v@.contains(e),
{
    let n = v.len();
    for k in 0..n
        invariant
            n == v@.len(),
            forall|kk: int| 0 <= kk < k ==> v@[kk] != e,
    {
        if v[k] == e {
            return true;
        }
    }
    false
}

/// Decide what the cursor is pointing at: the first hovered entity that is an
/// interactive widget; failing that, the first that is a module body;
/// failing that, nothing.
pub fn select_target(
    hovered: &HoveredEntities,
    widgets: &Vec<EntityId>,
    bodies: &Vec<EntityId>,
) -> (r: Option<SelectTarget>)
    ensures
        match r {
            Some(SelectTarget::Widget(e)) => exists|x: int|
                0 <= x < hovered.0@.len() && hovered.0@[x] == e && widgets@.contains(e) && (
                forall|xx: int| 0 <= xx < x ==> !widgets@.contains(#[trigger] hovered.0@[xx])),
            Some(SelectTarget::ModuleBody(e)) => (forall|x: int| 0 <= x < hovered.0@.len()
                ==> !widgets@.contains(#[trigger] hovered.0@[x])) && exists|x: int|
                0 <= x < hovered.0@.len() && hovered.0@[x] == e && bodies@.contains(e) && (
                forall|xx: int| 0 <= xx < x ==> !bodies@.contains(#[trigger] hovered.0@[xx])),
            None => forall|x: int| 0 <= x < hovered.0@.len() ==> !widgets@.contains(
                #[trigger] hovered.0@[x],
            ) && !bodies@.contains(hovered.0@[x]),
        },
{
    let n = hovered.0.len();
    for x in 0..n
        invariant
            n == hovered.0@.len(),
            forall|xx: int| 0 <= xx < x ==> !widgets@.contains(#[trigger] hovered.0@[xx]),
    {
        if id_among(widgets, hovered.0[x]) {
            return Some(SelectTarget::Widget(hovered.0[x]));
        }
    }
    for x in 0..n
        invariant
            n == hovered.0@.len(),
            forall|xx: int| 0 <= xx < n ==> !widgets@.contains(#[trigger] hovered.0@[xx]),
            forall|xx: int| 0 <= xx < x ==> !bodies@.contains(#[trigger] hovered.0@[xx]),
    {
        if id_among(bodies, hovered.0[x]) {
            return Some(SelectTarget::ModuleBody(hovered.0[x]));
        }
    }
    None
}

} // verus!
