//! Orbital hierarchy: a forest of bodies, each either a fixed root or a body
//! that circles another one, updated once per tick behind a snapshot barrier.
//!
//! The table of bodies is a list of rows. A row holds the body's entity
//! identifier, its place in the hierarchy and its transform. The transform is
//! a value of the caller's choosing: this module never looks inside it, it only
//! decides which transform is read for which body and which rows are rewritten.
//! Where the new transform of an orbiting body comes from (the rotation by the
//! orbital phase and the sum with the parent's translation) is the caller's
//! `place` function.

use vstd::prelude::*;

verus! {

/// A node in an orbital system.
#[derive(Clone, Copy, Debug, PartialEq, Eq, Structural)]
pub enum OrbitalNode {
    /// A root of the system: its transform is never rewritten here.
    Root,
    /// A body that circles the body whose entity identifier is `parent_node`.
    Intermediate { parent_node: u64 },
}

/// One row of the table of bodies.
#[derive(Clone, Copy, Debug)]
pub struct OrbitalRow<T> {
    /// The body's transform, opaque to this module.
    pub transform: T,
    /// The body's place in the hierarchy.
    pub node: OrbitalNode,
    /// The body's identifier.
    pub entity: u64,
}

/// A malformed hierarchy.
#[derive(Clone, Copy, Debug, PartialEq, Eq, Structural)]
pub enum OrbitalError {
    /// The body `entity` circles `parent_node`, which no row of the table holds.
    MissingParent { entity: u64, parent_node: u64 },
}

/// The snapshot of a table: the transform of each entity, keyed by entity.
/// Rows are entered in order, so of two rows with one entity the later one
/// is kept.
pub open spec fn snapshot<T>(rows: Seq<OrbitalRow<T>>) -> Map<u64, T>
    decreases rows.len(),
{
    if rows.len() == 0 {
        Map::empty()
    } else {
        snapshot(rows.drop_last()).insert(rows.last().entity, rows.last().transform)
    }
}

/// The position in the table of each entity's row, keyed by entity. Of two
/// rows with one entity the later one is kept.
pub open spec fn positions<T>(rows: Seq<OrbitalRow<T>>) -> Map<u64, usize>
    decreases rows.len(),
{
    if rows.len() == 0 {
        Map::empty()
    } else {
        positions(rows.drop_last()).insert(rows.last().entity, (rows.len() - 1) as usize)
    }
}

/// Whether some row of the table holds the entity.
pub open spec fn has_entity<T>(rows: Seq<OrbitalRow<T>>, entity: u64) -> bool {
    exists|j: int| 0 <= j < rows.len() && (#[trigger] rows[j]).entity == entity
}

/// Whether row `i` can be resolved: it is a root, or its parent is in the
/// snapshot.
pub open spec fn parent_present<T>(rows: Seq<OrbitalRow<T>>, i: int) -> bool {
    match rows[i].node {
        OrbitalNode::Root => true,
        OrbitalNode::Intermediate { parent_node } => snapshot(rows).contains_key(parent_node),
    }
}

/// Whether every row of the table can be resolved.
pub open spec fn all_parents_present<T>(rows: Seq<OrbitalRow<T>>) -> bool {
    forall|i: int| 0 <= i < rows.len() ==> parent_present(rows, i)
}

/// The error that a table is refused with: the one of its first row whose
/// parent is missing.
pub open spec fn refusal<T>(rows: Seq<OrbitalRow<T>>, error: OrbitalError) -> bool {
    exists|i: int|
        0 <= i < rows.len() && !(#[trigger] parent_present(rows, i)) && (forall|k: int|
            0 <= k < i ==> parent_present(rows, k)) && rows[i].node == (OrbitalNode::Intermediate {
            parent_node: error->parent_node,
        }) && rows[i].entity == error->entity
}

/// Where the parent of row `i` stands in the table: nowhere for a root.
pub open spec fn parent_position<T>(rows: Seq<OrbitalRow<T>>, i: int) -> Option<usize> {
    match rows[i].node {
        OrbitalNode::Root => None,
        OrbitalNode::Intermediate { parent_node } => Some(positions(rows)[parent_node]),
    }
}

/// The snapshot holds exactly the entities of the table.
pub proof fn lemma_snapshot_entities<T>(rows: Seq<OrbitalRow<T>>)
    ensures
        forall|e: u64| #[trigger] snapshot(rows).contains_key(e) <==> has_entity(rows, e),
    decreases rows.len(),
{
    if rows.len() > 0 {
        let front = rows.drop_last();
        lemma_snapshot_entities(front);
        assert forall|e: u64| #[trigger] snapshot(rows).contains_key(e) implies has_entity(
            rows,
            e,
        ) by {
            if e == rows.last().entity {
                assert(rows[rows.len() - 1].entity == e);
            } else {
                assert(snapshot(front).contains_key(e));
                let j = choose|j: int| 0 <= j < front.len() && (#[trigger] front[j]).entity == e;
                assert(rows[j].entity == e);
            }
        }
        assert forall|e: u64| has_entity(rows, e) implies #[trigger] snapshot(rows).contains_key(
            e,
        ) by {
            let j = choose|j: int| 0 <= j < rows.len() && (#[trigger] rows[j]).entity == e;
            if j < rows.len() - 1 {
                assert(front[j].entity == e);
                assert(snapshot(front).contains_key(e));
            }
        }
    }
}

/// The snapshot and the positions of a table describe the same rows: they
/// hold the same entities, and the position of an entity is that of a row
/// with this entity and with the snapshot's transform.
pub proof fn lemma_snapshot_positions<T>(rows: Seq<OrbitalRow<T>>)
    requires
        rows.len() <= usize::MAX,
    ensures
        snapshot(rows).dom() == positions(rows).dom(),
        forall|e: u64| #[trigger]
            positions(rows).contains_key(e) ==> {
                &&& positions(rows)[e] < rows.len()
                &&& rows[positions(rows)[e] as int].entity == e
                &&& rows[positions(rows)[e] as int].transform == snapshot(rows)[e]
            },
    decreases rows.len(),
{
    if rows.len() == 0 {
        assert(snapshot(rows).dom() =~= positions(rows).dom());
    } else {
        let front = rows.drop_last();
        lemma_snapshot_positions(front);
        assert(snapshot(rows).dom() =~= positions(rows).dom());
        assert forall|e: u64| #[trigger] positions(rows).contains_key(e) implies {
            &&& positions(rows)[e] < rows.len()
            &&& rows[positions(rows)[e] as int].entity == e
            &&& rows[positions(rows)[e] as int].transform == snapshot(rows)[e]
        } by {
            if e == rows.last().entity {
                assert(positions(rows)[e] == rows.len() - 1);
                assert(snapshot(rows)[e] == rows.last().transform);
            } else {
                assert(positions(front).contains_key(e));
                assert(positions(rows)[e] == positions(front)[e]);
                assert(snapshot(rows)[e] == snapshot(front)[e]);
                assert(front[positions(front)[e] as int] == rows[positions(front)[e] as int]);
            }
        }
    }
}

/// Lookup table from an entity to the position of its row: a hash map of the
/// `hashbrown` crate, as `bevy::utils` hands it on. Nothing inside it is
/// visible to the proofs: they go by what the three functions below state of
/// `position_table_entries`.
#[verifier::external_body]
pub struct PositionTable {
    table: bevy::utils::hashbrown::HashMap<u64, usize>,
}

/// What a position table holds: for each entity that was entered, the
/// position that was entered for it last.
pub uninterp spec fn position_table_entries(table: PositionTable) -> Map<u64, usize>;

/// Calls `hashbrown::HashMap::new`. Not proved here: the new map holds
/// nothing.
#[verifier::external_body]
fn position_table_new() -> (fresh: PositionTable)
    ensures
        position_table_entries(fresh) == (Map::<u64, usize>::empty()),
{
    PositionTable { table: bevy::utils::hashbrown::HashMap::new() }
}

/// Calls `hashbrown::HashMap::insert`. Not proved here: afterwards the map
/// holds `position` for `entity` and what it held before for every other
/// entity, and the position that it held for `entity` before, if any, is
/// handed back.
#[verifier::external_body]
fn position_table_insert(table: &mut PositionTable, entity: u64, position: usize) -> (previous:
    Option<usize>)
    ensures
        position_table_entries(*final(table)) == position_table_entries(*old(table)).insert(
            entity,
            position,
        ),
        previous == (if position_table_entries(*old(table)).contains_key(entity) {
            Some(position_table_entries(*old(table))[entity])
        } else {
            None
        }),
{
    table.table.insert(entity, position)
}

/// Calls `hashbrown::HashMap::get`. Not proved here: the result is the
/// position that the map holds for `entity`, or nothing if it holds none.
#[verifier::external_body]
fn position_table_get(table: &PositionTable, entity: u64) -> (position: Option<usize>)
    ensures
        position == (if position_table_entries(*table).contains_key(entity) {
            Some(position_table_entries(*table)[entity])
        } else {
            None
        }),
{
    table.table.get(&entity).copied()
}

/// Enters every row of the table, in order.
fn index_rows<T>(rows: &Vec<OrbitalRow<T>>) -> (table: PositionTable)
    ensures
        position_table_entries(table) == positions(rows@),
{
    let mut table = position_table_new();
    let mut i: usize = 0;
    while i < rows.len()
        invariant
            i <= rows.len(),
            position_table_entries(table) == positions(rows@.take(i as int)),
        decreases rows.len() - i,
    {
        let _ = position_table_insert(&mut table, rows[i].entity, i);
        proof {
            let next = rows@.take(i + 1);
            assert(next.drop_last() =~= rows@.take(i as int));
            assert(next.last() == rows@[i as int]);
        }
        i = i + 1;
    }
    proof {
        assert(rows@.take(rows.len() as int) =~= rows@);
    }
    table
}

/// Finds, for every row, where its parent stands in the table.
///
/// A table in which some orbiting body's parent is missing is refused, with
/// the first such body named in the error. Otherwise the result has one entry
/// per row: `None` for a root, the parent's position for an orbiting body.
pub fn resolve_parents<T>(rows: &Vec<OrbitalRow<T>>) -> (resolved: Result<
    Vec<Option<usize>>,
    OrbitalError,
>)
    ensures
        resolved is Ok <==> all_parents_present(rows@),
        match resolved {
            Ok(parents) => {
                &&& parents@.len() == rows@.len()
                &&& forall|i: int|
                    0 <= i < rows@.len() ==> #[trigger] parents@[i] == parent_position(rows@, i)
            },
            Err(error) => refusal(rows@, error),
        },
{
    let table = index_rows(rows);
    proof {
        assert(rows@.len() == rows.len());
        lemma_snapshot_positions(rows@);
    }
    let mut parents: Vec<Option<usize>> = Vec::new();
    let mut i: usize = 0;
    while i < rows.len()
        invariant
            i <= rows.len(),
            position_table_entries(table) == positions(rows@),
            snapshot(rows@).dom() == positions(rows@).dom(),
            parents@.len() == i,
            forall|k: int| 0 <= k < i ==> parent_present(rows@, k),
            forall|k: int| 0 <= k < i ==> #[trigger] parents@[k] == parent_position(rows@, k),
        decreases rows.len() - i,
    {
        match rows[i].node {
            OrbitalNode::Root => {
                parents.push(None);
            },
            OrbitalNode::Intermediate { parent_node } => {
                match position_table_get(&table, parent_node) {
                    Some(position) => {
                        assert(snapshot(rows@).dom().contains(parent_node));
                        parents.push(Some(position));
                    },
                    None => {
                        let error = OrbitalError::MissingParent {
                            entity: rows[i].entity,
                            parent_node,
                        };
                        proof {
                            assert(!snapshot(rows@).dom().contains(parent_node));
                            assert(!parent_present(rows@, i as int));
                        }
                        return Err(error);
                    },
                }
            },
        }
        i = i + 1;
    }
    Ok(parents)
}

/// What one tick makes of a table, for a given `place` function.
///
/// Nothing but transforms changes. A root keeps its transform. The transform
/// of an orbiting body is what `place` returns for the body's own transform
/// and its parent's, both taken from the snapshot of the table before the
/// tick, never from a row that the tick has already rewritten.
pub open spec fn is_tick<T, F: Fn(T, T) -> T>(
    before: Seq<OrbitalRow<T>>,
    after: Seq<OrbitalRow<T>>,
    place: F,
) -> bool {
    &&& after.len() == before.len()
    &&& forall|i: int|
        0 <= i < before.len() ==> {
            &&& (#[trigger] after[i]).entity == before[i].entity
            &&& after[i].node == before[i].node
            &&& match before[i].node {
                OrbitalNode::Root => after[i].transform == before[i].transform,
                OrbitalNode::Intermediate { parent_node } => call_ensures(
                    place,
                    (before[i].transform, snapshot(before)[parent_node]),
                    after[i].transform,
                ),
            }
        }
}

/// Advances the table by one tick.
///
/// In a first pass the transform of every body is read into a snapshot. In a
/// second pass every orbiting body is placed by `place`, which is handed the
/// body's own transform and its parent's transform, both as the snapshot has
/// them. Roots are left alone.
///
/// A table in which some orbiting body's parent is missing is refused before
/// any row is written: the table is then left exactly as it was.
pub fn update_orbital_nodes<T: Copy, F: Fn(T, T) -> T>(
    rows: &mut Vec<OrbitalRow<T>>,
    place: F,
) -> (outcome: Result<(), OrbitalError>)
    requires
        forall|own: T, parent: T| call_requires(place, (own, parent)),
    ensures
        outcome is Ok <==> all_parents_present(old(rows)@),
        match outcome {
            Ok(_) => is_tick(old(rows)@, final(rows)@, place),
            Err(error) => final(rows)@ == old(rows)@ && refusal(old(rows)@, error),
        },
{
    let parents = match resolve_parents(rows) {
        Ok(parents) => parents,
        Err(error) => {
            return Err(error);
        },
    };
    let count = rows.len();
    let mut taken: Vec<T> = Vec::new();
    let mut i: usize = 0;
    while i < count
        invariant
            i <= count,
            count == rows.len(),
            taken@.len() == i,
            forall|k: int| 0 <= k < i ==> #[trigger] taken@[k] == rows@[k].transform,
        decreases count - i,
    {
        taken.push(rows[i].transform);
        i = i + 1;
    }
    proof {
        lemma_snapshot_positions(rows@);
    }
    let ghost before = rows@;
    let mut i: usize = 0;
    while i < count
        invariant
            i <= count,
            count == rows.len(),
            count == before.len(),
            before == old(rows)@,
            taken@.len() == count,
            parents@.len() == count,
            all_parents_present(before),
            snapshot(before).dom() == positions(before).dom(),
            forall|own: T, parent: T| call_requires(place, (own, parent)),
            forall|k: int| 0 <= k < count ==> #[trigger] taken@[k] == before[k].transform,
            forall|k: int| 0 <= k < count ==> #[trigger] parents@[k] == parent_position(before, k),
            forall|e: u64| #[trigger]
                positions(before).contains_key(e) ==> {
                    &&& positions(before)[e] < before.len()
                    &&& before[positions(before)[e] as int].transform == snapshot(before)[e]
                },
            forall|k: int| i <= k < count ==> #[trigger] rows@[k] == before[k],
            forall|k: int|
                0 <= k < i ==> {
                    &&& (#[trigger] rows@[k]).entity == before[k].entity
                    &&& rows@[k].node == before[k].node
                    &&& match before[k].node {
                        OrbitalNode::Root => rows@[k].transform == before[k].transform,
                        OrbitalNode::Intermediate { parent_node } => call_ensures(
                            place,
                            (before[k].transform, snapshot(before)[parent_node]),
                            rows@[k].transform,
                        ),
                    }
                },
        decreases count - i,
    {
        match parents[i] {
            Some(position) => {
                proof {
                    assert(parents@[i as int] == parent_position(before, i as int));
                    assert(parent_present(before, i as int));
                    let parent_node = before[i as int].node->parent_node;
                    assert(positions(before).contains_key(parent_node));
                }
                let placed = place(taken[i], taken[position]);
                let row = OrbitalRow { transform: placed, node: rows[i].node, entity: rows[i].entity };
                rows[i] = row;
            },
            None => {
                proof {
                    assert(parents@[i as int] == parent_position(before, i as int));
                }
            },
        }
        i = i + 1;
    }
    Ok(())
}

/// The circle along which one orbiting body moves.
#[derive(Clone, Copy, Debug)]
pub struct OrbitCircle<T> {
    /// Position in the table of the body that moves along the circle.
    pub body: usize,
    /// Transform of the body at the circle's centre: the parent of `body`.
    pub center: T,
}

/// The circles of the first `upto` rows of a table, in the order of the rows:
/// one for each orbiting body, none for a root.
pub open spec fn orbit_circles<T>(rows: Seq<OrbitalRow<T>>, upto: int) -> Seq<OrbitCircle<T>>
    decreases upto,
{
    if upto <= 0 {
        Seq::empty()
    } else {
        let earlier = orbit_circles(rows, upto - 1);
        match rows[upto - 1].node {
            OrbitalNode::Root => earlier,
            OrbitalNode::Intermediate { parent_node } => earlier.push(
                OrbitCircle { body: (upto - 1) as usize, center: snapshot(rows)[parent_node] },
            ),
        }
    }
}

/// Lists the orbit circles of a table, for a debug overlay.
///
/// Each orbiting body contributes one circle, centred on its parent as the
/// table has it; the circle's radius is the body's orbit radius, which the
/// caller holds. A table in which some orbiting body's parent is missing is
/// refused.
pub fn draw_orbit_gizmos<T: Copy>(rows: &Vec<OrbitalRow<T>>) -> (outcome: Result<
    Vec<OrbitCircle<T>>,
    OrbitalError,
>)
    ensures
        outcome is Ok <==> all_parents_present(rows@),
        match outcome {
            Ok(circles) => circles@ == orbit_circles(rows@, rows@.len() as int),
            Err(error) => refusal(rows@, error),
        },
{
    let parents = match resolve_parents(rows) {
        Ok(parents) => parents,
        Err(error) => {
            return Err(error);
        },
    };
    proof {
        assert(rows@.len() == rows.len());
        lemma_snapshot_positions(rows@);
    }
    let mut circles: Vec<OrbitCircle<T>> = Vec::new();
    let mut i: usize = 0;
    while i < rows.len()
        invariant
            i <= rows.len(),
            parents@.len() == rows.len(),
            all_parents_present(rows@),
            snapshot(rows@).dom() == positions(rows@).dom(),
            forall|k: int|
                0 <= k < rows.len() ==> #[trigger] parents@[k] == parent_position(rows@, k),
            forall|e: u64| #[trigger]
                positions(rows@).contains_key(e) ==> {
                    &&& positions(rows@)[e] < rows@.len()
                    &&& rows@[positions(rows@)[e] as int].transform == snapshot(rows@)[e]
                },
            circles@ == orbit_circles(rows@, i as int),
        decreases rows.len() - i,
    {
        proof {
            assert(parents@[i as int] == parent_position(rows@, i as int));
            assert(parent_present(rows@, i as int));
        }
        match parents[i] {
            Some(position) => {
                proof {
                    let parent_node = rows@[i as int].node->parent_node;
                    assert(positions(rows@).contains_key(parent_node));
                }
                circles.push(OrbitCircle { body: i, center: rows[position].transform });
            },
            None => {},
        }
        i = i + 1;
    }
    Ok(circles)
}

/// Whether no two rows of the table hold the same entity.
pub open spec fn distinct_entities<T>(rows: Seq<OrbitalRow<T>>) -> bool {
    forall|i: int, j: int|
        0 <= i < j < rows.len() ==> (#[trigger] rows[i]).entity != (#[trigger] rows[j]).entity
}

/// Whether `place` has one result for each pair of arguments.
pub open spec fn single_valued<T, F: Fn(T, T) -> T>(place: F) -> bool {
    forall|own: T, parent: T, first: T, second: T|
        call_ensures(place, (own, parent), first) && call_ensures(place, (own, parent), second)
            ==> first == second
}

/// In a table with distinct entities the snapshot holds, for the entity of
/// each row, the transform of that row.
pub proof fn lemma_snapshot_of_row<T>(rows: Seq<OrbitalRow<T>>, i: int)
    requires
        distinct_entities(rows),
        0 <= i < rows.len(),
    ensures
        snapshot(rows).contains_key(rows[i].entity),
        snapshot(rows)[rows[i].entity] == rows[i].transform,
    decreases rows.len(),
{
    let front = rows.drop_last();
    if i < rows.len() - 1 {
        assert(distinct_entities(front)) by {
            assert forall|a: int, b: int| 0 <= a < b < front.len() implies (#[trigger] front[a]).entity
                != (#[trigger] front[b]).entity by {
                assert(front[a] == rows[a]);
                assert(front[b] == rows[b]);
            }
        }
        lemma_snapshot_of_row(front, i);
        assert(front[i] == rows[i]);
        assert(rows[i].entity != rows[rows.len() - 1].entity);
    }
}

/// Two tables with distinct entities that hold the same rows in different
/// orders have the same snapshot, and one can be resolved exactly when the
/// other can.
pub proof fn lemma_snapshot_ignores_order<T>(first: Seq<OrbitalRow<T>>, second: Seq<OrbitalRow<T>>)
    requires
        distinct_entities(first),
        distinct_entities(second),
        first.to_multiset() == second.to_multiset(),
    ensures
        snapshot(first) == snapshot(second),
        all_parents_present(first) == all_parents_present(second),
{
    first.to_multiset_ensures();
    second.to_multiset_ensures();
    lemma_snapshot_entities(first);
    lemma_snapshot_entities(second);
    assert forall|e: u64| #[trigger] snapshot(first).contains_key(e) implies snapshot(
        second,
    ).contains_key(e) && snapshot(second)[e] == snapshot(first)[e] by {
        let i = choose|i: int| 0 <= i < first.len() && (#[trigger] first[i]).entity == e;
        assert(first.contains(first[i]));
        assert(second.to_multiset().count(first[i]) > 0);
        assert(second.contains(first[i]));
        let j = choose|j: int| 0 <= j < second.len() && second[j] == first[i];
        lemma_snapshot_of_row(first, i);
        lemma_snapshot_of_row(second, j);
    }
    assert forall|e: u64| #[trigger] snapshot(second).contains_key(e) implies snapshot(
        first,
    ).contains_key(e) by {
        let j = choose|j: int| 0 <= j < second.len() && (#[trigger] second[j]).entity == e;
        assert(second.contains(second[j]));
        assert(first.to_multiset().count(second[j]) > 0);
        assert(first.contains(second[j]));
        let i = choose|i: int| 0 <= i < first.len() && first[i] == second[j];
        lemma_snapshot_of_row(first, i);
    }
    assert(snapshot(first) =~= snapshot(second));
    if all_parents_present(first) {
        assert forall|j: int| 0 <= j < second.len() implies parent_present(second, j) by {
            assert(second.contains(second[j]));
            assert(first.to_multiset().count(second[j]) > 0);
        assert(first.contains(second[j]));
            let i = choose|i: int| 0 <= i < first.len() && first[i] == second[j];
            assert(parent_present(first, i));
        }
    }
    if all_parents_present(second) {
        assert forall|i: int| 0 <= i < first.len() implies parent_present(first, i) by {
            assert(first.contains(first[i]));
            assert(second.to_multiset().count(first[i]) > 0);
        assert(second.contains(first[i]));
            let j = choose|j: int| 0 <= j < second.len() && second[j] == first[i];
            assert(parent_present(second, j));
        }
    }
}

/// A tick does not depend on the order of the rows.
///
/// Take two tables with distinct entities that hold the same rows in
/// different orders, and a `place` function with one result for each pair of
/// arguments. Whatever one tick makes of the first table and of the second,
/// a body has the same row afterwards in both.
pub proof fn lemma_tick_ignores_order<T, F: Fn(T, T) -> T>(
    first: Seq<OrbitalRow<T>>,
    first_after: Seq<OrbitalRow<T>>,
    second: Seq<OrbitalRow<T>>,
    second_after: Seq<OrbitalRow<T>>,
    place: F,
)
    requires
        distinct_entities(first),
        distinct_entities(second),
        first.to_multiset() == second.to_multiset(),
        single_valued(place),
        is_tick(first, first_after, place),
        is_tick(second, second_after, place),
    ensures
        forall|i: int, j: int|
            0 <= i < first.len() && 0 <= j < second.len() && (#[trigger] first[i]).entity == (
            #[trigger] second[j]).entity ==> first_after[i] == second_after[j],
{
    first.to_multiset_ensures();
    second.to_multiset_ensures();
    lemma_snapshot_ignores_order(first, second);
    assert forall|i: int, j: int|
        0 <= i < first.len() && 0 <= j < second.len() && (#[trigger] first[i]).entity == (
        #[trigger] second[j]).entity implies first_after[i] == second_after[j] by {
        assert(first.contains(first[i]));
        assert(second.to_multiset().count(first[i]) > 0);
        assert(second.contains(first[i]));
        let k = choose|k: int| 0 <= k < second.len() && second[k] == first[i];
        assert(k == j);
        assert(first_after[i].entity == second_after[j].entity);
        assert(first_after[i].node == second_after[j].node);
        assert(first_after[i].transform == second_after[j].transform);
    }
}

} // verus!
