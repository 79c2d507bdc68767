//! Which of the triangles that a ray hits is the one that is seen.

use vstd::prelude::*;

verus! {

/// Hit `i` is the one that is seen: no hit is nearer, and of the hits that are
/// as near it is the first. A distance is given as a number that grows with
/// it; `None` stands for a triangle that the ray misses.
pub open spec fn is_nearest(distances: Seq<Option<u64>>, i: int) -> bool {
    &&& 0 <= i < distances.len()
    &&& distances[i] is Some
    &&& forall|j: int|
        0 <= j < distances.len() && (#[trigger] distances[j]) is Some ==> distances[i].unwrap()
            <= distances[j].unwrap()
    &&& forall|j: int|
        0 <= j < i && (#[trigger] distances[j]) is Some ==> distances[i].unwrap()
            < distances[j].unwrap()
}

/// The ray misses every triangle.
pub open spec fn all_missed(distances: Seq<Option<u64>>) -> bool {
    forall|j: int| 0 <= j < distances.len() ==> (#[trigger] distances[j]) is None
}

/// Finds the hit that is seen among the triangles that a ray was tried on, in
/// the order in which they were tried.
pub fn nearest_hit(distances: &Vec<Option<u64>>) -> (r: Option<usize>)
    ensures
        match r {
            Some(i) => is_nearest(distances@, i as int),
            None => all_missed(distances@),
        },
{
    let mut best: Option<usize> = None;
    let mut distance: u64 = 0;
    let mut i: usize = 0;
    while i < distances.len()
        invariant
            i <= distances.len(),
            match best {
                Some(b) => b < i && distances[b as int] == Some(distance) && is_nearest(
                    distances@.take(i as int),
                    b as int,
                ),
                None => all_missed(distances@.take(i as int)),
            },
        decreases distances.len() - i,
    {
        let ghost before = distances@.take(i as int);
        let ghost after = distances@.take(i + 1);
        proof {
            assert forall|j: int| 0 <= j < i implies after[j] == before[j] by {}
        }
        match distances[i] {
            Some(t) => {
                if best.is_none() || t < distance {
                    proof {
                        assert forall|j: int| 0 <= j < i && (#[trigger] after[j]) is Some implies t
                            < after[j].unwrap() by {
                            assert(before[j] is Some);
                        }
                    }
                    best = Some(i);
                    distance = t;
                } else {
                    proof {
                        let b = best.unwrap() as int;
                        assert(before[b] == Some(distance));
                        assert forall|j: int|
                            0 <= j < after.len() && (#[trigger] after[j]) is Some implies distance
                            <= after[j].unwrap() by {
                            if j < i {
                                assert(before[j] is Some);
                            }
                        }
                        assert forall|j: int| 0 <= j < b && (#[trigger] after[j]) is Some implies distance
                            < after[j].unwrap() by {
                            assert(before[j] is Some);
                        }
                    }
                }
            },
            None => {
                proof {
                    if best is Some {
                        let b = best.unwrap() as int;
                        assert(before[b] == Some(distance));
                        assert forall|j: int|
                            0 <= j < after.len() && (#[trigger] after[j]) is Some implies distance
                            <= after[j].unwrap() by {
                            if j < i {
                                assert(before[j] is Some);
                            }
                        }
                        assert forall|j: int| 0 <= j < b && (#[trigger] after[j]) is Some implies distance
                            < after[j].unwrap() by {
                            assert(before[j] is Some);
                        }
                    } else {
                        assert forall|j: int| 0 <= j < after.len() implies (#[trigger] after[j])
                            is None by {
                            if j < i {
                                assert(before[j] is None);
                            }
                        }
                    }
                }
            },
        }
        i += 1;
    }
    assert(distances@.take(i as int) =~= distances@);
    best
}

/// The distance at which the ray hits triangle `j` of model `g`, where
/// `scene` holds one list of distances for each model.
pub open spec fn hit(scene: Seq<Seq<Option<u64>>>, g: int, j: int) -> Option<u64> {
    scene[g][j]
}

/// `scene` holds triangle `j` of model `g`.
pub open spec fn in_scene(scene: Seq<Seq<Option<u64>>>, g: int, j: int) -> bool {
    0 <= g < scene.len() && 0 <= j < scene[g].len()
}

/// Triangle `j` of model `g` is tried before triangle `i` of model `m`.
pub open spec fn tried_before(g: int, j: int, m: int, i: int) -> bool {
    g < m || (g == m && j < i)
}

/// Among the first `count` models, the hit on triangle `i` of model `m` is
/// the one that is seen: no hit is nearer, and every hit that was tried before
/// it is farther.
pub open spec fn is_nearest_among(scene: Seq<Seq<Option<u64>>>, count: int, m: int, i: int) -> bool {
    &&& m < count <= scene.len()
    &&& in_scene(scene, m, i)
    &&& hit(scene, m, i) is Some
    &&& forall|g: int, j: int|
        g < count && in_scene(scene, g, j) && (#[trigger] hit(scene, g, j)) is Some ==> hit(
            scene,
            m,
            i,
        ).unwrap() <= hit(scene, g, j).unwrap()
    &&& forall|g: int, j: int|
        in_scene(scene, g, j) && tried_before(g, j, m, i) && (#[trigger] hit(scene, g, j)) is Some
            ==> hit(scene, m, i).unwrap() < hit(scene, g, j).unwrap()
}

/// The ray misses every triangle of the first `count` models.
pub open spec fn all_missed_among(scene: Seq<Seq<Option<u64>>>, count: int) -> bool {
    forall|g: int, j: int|
        g < count && in_scene(scene, g, j) ==> (#[trigger] hit(scene, g, j)) is None
}

/// The distances of a scene, one list for each model.
pub open spec fn scene_of(distances: Seq<Vec<Option<u64>>>) -> Seq<Seq<Option<u64>>> {
    Seq::new(distances.len(), |g: int| distances[g]@)
}

/// Finds the hit that is seen among all triangles of all models: the one with
/// the least distance, and of several with the least distance the one that was
/// tried first, models in their order and the triangles of a model in theirs.
/// Returns the model and the triangle, or `None` where the ray misses them all.
pub fn nearest_in_scene(distances: &Vec<Vec<Option<u64>>>) -> (r: Option<(usize, usize)>)
    ensures
        match r {
            Some((m, i)) => is_nearest_among(
                scene_of(distances@),
                distances.len() as int,
                m as int,
                i as int,
            ),
            None => all_missed_among(scene_of(distances@), distances.len() as int),
        },
{
    let ghost scene = scene_of(distances@);
    let mut best: Option<(usize, usize)> = None;
    let mut distance: u64 = 0;
    let mut g: usize = 0;
    while g < distances.len()
        invariant
            g <= distances.len(),
            scene == scene_of(distances@),
            match best {
                Some((m, i)) => is_nearest_among(scene, g as int, m as int, i as int) && hit(
                    scene,
                    m as int,
                    i as int,
                ) == Some(distance),
                None => all_missed_among(scene, g as int),
            },
        decreases distances.len() - g,
    {
        let model = &distances[g];
        assert(scene[g as int] == model@);
        let nearest = nearest_hit(model);
        let candidate = match nearest {
            Some(i) => model[i],
            None => None,
        };
        match candidate {
            Some(t) => {
                let i = nearest.unwrap();
                if best.is_none() || t < distance {
                    proof {
                        assert forall|h: int, j: int|
                            h < g + 1 && in_scene(scene, h, j) && (#[trigger] hit(scene, h, j))
                                is Some implies t <= hit(scene, h, j).unwrap() by {
                            if h == g {
                                assert(model@[j] is Some);
                            }
                        }
                        assert forall|h: int, j: int|
                            in_scene(scene, h, j) && tried_before(h, j, g as int, i as int) && (
                            #[trigger] hit(scene, h, j)) is Some implies t < hit(
                            scene,
                            h,
                            j,
                        ).unwrap() by {
                            if h == g {
                                assert(model@[j] is Some);
                            }
                        }
                    }
                    best = Some((g, i));
                    distance = t;
                } else {
                    proof {
                        assert forall|h: int, j: int|
                            h < g + 1 && in_scene(scene, h, j) && (#[trigger] hit(scene, h, j))
                                is Some implies distance <= hit(scene, h, j).unwrap() by {
                            if h == g {
                                assert(model@[j] is Some);
                            }
                        }
                    }
                }
            },
            None => {
                proof {
                    assert forall|j: int| 0 <= j < model@.len() implies (#[trigger] hit(
                        scene,
                        g as int,
                        j,
                    )) is None by {
                        assert(model@[j] is None);
                    }
                }
            },
        }
        g += 1;
    }
    best
}

} // verus!
