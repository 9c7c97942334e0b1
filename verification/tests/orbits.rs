use celestial::orbits::{
    draw_orbit_gizmos, resolve_parents, update_orbital_nodes, OrbitalError, OrbitalNode, OrbitalRow,
};

type Translation = [f64; 3];

fn row(entity: u64, node: OrbitalNode, transform: Translation) -> OrbitalRow<Translation> {
    OrbitalRow { transform, node, entity }
}

fn orbiting(parent_node: u64) -> OrbitalNode {
    OrbitalNode::Intermediate { parent_node }
}

/// A body and the parameters of its orbit, as a caller would hold them.
#[derive(Clone, Copy, Debug, PartialEq)]
struct Body {
    translation: Translation,
    radius: f64,
    period: f64,
}

/// Places a body on its orbit around its parent at the given time: the
/// vector (radius, 0, 0) turned about the vertical axis by the orbital phase.
fn placed_at(time: f64) -> impl Fn(Body, Body) -> Body {
    move |own: Body, parent: Body| {
        let theta = 2.0 * std::f64::consts::PI / own.period * time;
        Body {
            translation: [
                parent.translation[0] + own.radius * theta.cos(),
                parent.translation[1],
                parent.translation[2] - own.radius * theta.sin(),
            ],
            ..own
        }
    }
}

fn sun_planet_moon() -> Vec<OrbitalRow<Body>> {
    vec![
        OrbitalRow {
            transform: Body { translation: [0.0, 0.0, 0.0], radius: 0.0, period: 1.0 },
            node: OrbitalNode::Root,
            entity: 10,
        },
        OrbitalRow {
            transform: Body { translation: [1800.0, 0.0, 0.0], radius: 1800.0, period: 50.0 },
            node: orbiting(10),
            entity: 20,
        },
        OrbitalRow {
            transform: Body { translation: [2100.0, 0.0, 0.0], radius: 300.0, period: 10.0 },
            node: orbiting(20),
            entity: 30,
        },
    ]
}

fn close(a: Translation, b: Translation) -> bool {
    a.iter().zip(b.iter()).all(|(x, y)| (x - y).abs() < 1e-9)
}

#[test]
fn parents_are_found_by_entity() {
    let rows = vec![
        row(7, orbiting(9), [0.0; 3]),
        row(9, OrbitalNode::Root, [0.0; 3]),
        row(3, orbiting(7), [0.0; 3]),
        row(4, orbiting(9), [0.0; 3]),
    ];
    assert_eq!(resolve_parents(&rows), Ok(vec![Some(1), None, Some(0), Some(1)]));
}

#[test]
fn an_empty_table_resolves_to_nothing() {
    let rows: Vec<OrbitalRow<Translation>> = Vec::new();
    assert_eq!(resolve_parents(&rows), Ok(Vec::new()));
    let mut rows = rows;
    assert_eq!(update_orbital_nodes(&mut rows, |own, _| own), Ok(()));
    assert!(rows.is_empty());
}

#[test]
fn a_body_may_circle_itself_in_the_table() {
    // The table is not checked for cycles: the snapshot holds the body itself.
    let rows = vec![row(1, orbiting(1), [0.0; 3])];
    assert_eq!(resolve_parents(&rows), Ok(vec![Some(0)]));
}

#[test]
fn the_first_missing_parent_is_reported() {
    let rows = vec![
        row(1, OrbitalNode::Root, [0.0; 3]),
        row(2, orbiting(1), [0.0; 3]),
        row(3, orbiting(40), [0.0; 3]),
        row(4, orbiting(50), [0.0; 3]),
    ];
    assert_eq!(
        resolve_parents(&rows),
        Err(OrbitalError::MissingParent { entity: 3, parent_node: 40 })
    );
}

#[test]
fn of_two_rows_with_one_entity_the_later_is_the_parent() {
    let rows = vec![
        row(1, OrbitalNode::Root, [1.0, 0.0, 0.0]),
        row(1, OrbitalNode::Root, [2.0, 0.0, 0.0]),
        row(2, orbiting(1), [0.0; 3]),
    ];
    assert_eq!(resolve_parents(&rows), Ok(vec![None, None, Some(1)]));
}

#[test]
fn roots_stay_and_orbiting_bodies_are_placed() {
    let mut rows = vec![
        row(1, OrbitalNode::Root, [5.0, 6.0, 7.0]),
        row(2, orbiting(1), [100.0, 0.0, 0.0]),
    ];
    let outcome =
        update_orbital_nodes(&mut rows, |_own, parent: Translation| {
            [parent[0] + 10.0, parent[1], parent[2]]
        });
    assert_eq!(outcome, Ok(()));
    assert_eq!(rows[0].transform, [5.0, 6.0, 7.0]);
    assert_eq!(rows[1].transform, [15.0, 6.0, 7.0]);
    assert_eq!((rows[0].entity, rows[0].node), (1, OrbitalNode::Root));
    assert_eq!((rows[1].entity, rows[1].node), (2, orbiting(1)));
}

#[test]
fn place_is_handed_the_own_transform_and_the_parents() {
    let mut rows = vec![
        row(1, OrbitalNode::Root, [1.0, 2.0, 3.0]),
        row(2, orbiting(1), [10.0, 20.0, 30.0]),
    ];
    let outcome = update_orbital_nodes(&mut rows, |own: Translation, parent: Translation| {
        [own[0] * 100.0 + parent[0], own[1] * 100.0 + parent[1], own[2] * 100.0 + parent[2]]
    });
    assert_eq!(outcome, Ok(()));
    assert_eq!(rows[1].transform, [1001.0, 2002.0, 3003.0]);
}

#[test]
fn a_moon_reads_the_planet_as_it_was_before_the_tick() {
    // Whether the moon's row comes before or after the planet's, the moon is
    // placed around the planet's translation of before the tick.
    for order in [[0usize, 1, 2], [2, 1, 0], [1, 2, 0], [0, 2, 1]] {
        let all = sun_planet_moon();
        let mut rows: Vec<_> = order.iter().map(|&i| all[i]).collect();
        assert_eq!(update_orbital_nodes(&mut rows, placed_at(12.5)), Ok(()));
        let moon = rows.iter().find(|r| r.entity == 30).unwrap();
        // A quarter of the planet's period, and one and a quarter of the moon's.
        assert!(close(moon.transform.translation, [1800.0, 0.0, -300.0]));
        let planet = rows.iter().find(|r| r.entity == 20).unwrap();
        assert!(close(planet.transform.translation, [0.0, 0.0, -1800.0]));
        let sun = rows.iter().find(|r| r.entity == 10).unwrap();
        assert_eq!(sun.transform.translation, [0.0, 0.0, 0.0]);
    }
}

#[test]
fn a_tick_does_not_depend_on_the_order_of_the_rows() {
    let all = sun_planet_moon();
    let orders: [[usize; 3]; 6] =
        [[0, 1, 2], [0, 2, 1], [1, 0, 2], [1, 2, 0], [2, 0, 1], [2, 1, 0]];
    let mut reference = all.clone();
    assert_eq!(update_orbital_nodes(&mut reference, placed_at(3.75)), Ok(()));
    for order in orders {
        let mut rows: Vec<_> = order.iter().map(|&i| all[i]).collect();
        assert_eq!(update_orbital_nodes(&mut rows, placed_at(3.75)), Ok(()));
        for (place, &from) in order.iter().enumerate() {
            assert_eq!(rows[place].entity, reference[from].entity);
            assert_eq!(rows[place].node, reference[from].node);
            assert_eq!(rows[place].transform, reference[from].transform);
        }
    }
}

#[test]
fn an_orbit_is_periodic() {
    let radius = 7.0;
    let period = 50.0;
    let at = |time: f64| {
        let mut rows = vec![
            OrbitalRow {
                transform: Body { translation: [0.0; 3], radius: 0.0, period: 1.0 },
                node: OrbitalNode::Root,
                entity: 1,
            },
            OrbitalRow {
                transform: Body { translation: [radius, 0.0, 0.0], radius, period },
                node: orbiting(1),
                entity: 2,
            },
        ];
        assert_eq!(update_orbital_nodes(&mut rows, placed_at(time)), Ok(()));
        rows[1].transform.translation
    };
    assert!(close(at(0.0), [radius, 0.0, 0.0]));
    assert!(close(at(period), at(0.0)));
    // A quarter of a period later the offset has turned by a right angle
    // about the vertical axis.
    assert!(close(at(period / 4.0), [0.0, 0.0, -radius]));
    assert!(close(at(period / 2.0), [-radius, 0.0, 0.0]));
}

#[test]
fn a_missing_parent_leaves_the_table_untouched() {
    let before = vec![
        row(1, OrbitalNode::Root, [0.0, 0.0, 0.0]),
        row(2, orbiting(1), [1.0, 0.0, 0.0]),
        row(3, orbiting(99), [2.0, 0.0, 0.0]),
        row(4, orbiting(2), [3.0, 0.0, 0.0]),
    ];
    let mut rows = before.clone();
    let outcome = update_orbital_nodes(&mut rows, |_own, parent: Translation| {
        [parent[0] + 1000.0, parent[1], parent[2]]
    });
    assert_eq!(outcome, Err(OrbitalError::MissingParent { entity: 3, parent_node: 99 }));
    for (now, then) in rows.iter().zip(before.iter()) {
        assert_eq!(now.transform, then.transform);
        assert_eq!(now.node, then.node);
        assert_eq!(now.entity, then.entity);
    }
    assert_eq!(rows.len(), before.len());
}

#[test]
fn place_is_not_called_when_a_parent_is_missing() {
    let calls = std::cell::Cell::new(0u32);
    let mut rows = vec![row(2, orbiting(1), [1.0, 0.0, 0.0]), row(3, orbiting(2), [0.0; 3])];
    let outcome = update_orbital_nodes(&mut rows, |own: Translation, _parent| {
        calls.set(calls.get() + 1);
        own
    });
    assert_eq!(outcome, Err(OrbitalError::MissingParent { entity: 2, parent_node: 1 }));
    assert_eq!(calls.get(), 0);
}

#[test]
fn orbit_circles_are_centred_on_the_parents() {
    let rows = vec![
        row(10, OrbitalNode::Root, [0.0, 0.0, 0.0]),
        row(20, orbiting(10), [1800.0, 0.0, 0.0]),
        row(30, orbiting(20), [2100.0, 0.0, 0.0]),
    ];
    let circles = draw_orbit_gizmos(&rows).expect("circles");
    assert_eq!(circles.len(), 2);
    assert_eq!((circles[0].body, circles[0].center), (1, [0.0, 0.0, 0.0]));
    assert_eq!((circles[1].body, circles[1].center), (2, [1800.0, 0.0, 0.0]));
}

#[test]
fn orbit_circles_need_every_parent() {
    let rows = vec![row(10, OrbitalNode::Root, [0.0; 3]), row(20, orbiting(11), [0.0; 3])];
    assert_eq!(
        draw_orbit_gizmos(&rows).err(),
        Some(OrbitalError::MissingParent { entity: 20, parent_node: 11 })
    );
}

#[test]
fn many_bodies_find_their_parents() {
    // A chain of a thousand bodies, each circling the one before it.
    let mut rows = vec![row(1_000_000, OrbitalNode::Root, [0.0; 3])];
    for k in 1..1000u64 {
        rows.push(row(1_000_000 + k * 7919, orbiting(1_000_000 + (k - 1) * 7919), [k as f64, 0.0, 0.0]));
    }
    let parents = resolve_parents(&rows).expect("parents");
    assert_eq!(parents[0], None);
    for k in 1..1000usize {
        assert_eq!(parents[k], Some(k - 1));
    }
}
