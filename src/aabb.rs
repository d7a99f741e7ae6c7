//! Geometry of an axis-aligned bounding box drawn as six quads.
use vstd::prelude::*;

verus! {

/// A point as its three coordinates.
pub type Point<T> = (T, T, T);

/// For each vertex of the drawn box, whether its x, y and z come from the
/// box's maximum corner (else from its minimum corner). Four vertices per
/// face: front, top, bottom, back, left, right.
pub open spec fn corner_pattern() -> Seq<(bool, bool, bool)> {
    seq![
        (true, true, false), (true, false, false), (false, true, false), (false, false, false),
        (true, true, true), (true, true, false), (false, true, true), (false, true, false),
        (true, false, true), (true, false, false), (false, false, true), (false, false, false),
        (true, true, true), (true, false, true), (false, true, true), (false, false, true),
        (false, true, false), (false, false, false), (false, true, true), (false, false, true),
        (true, true, true), (true, false, true), (true, true, false), (true, false, false),
    ]
}

/// The corner of the box `[min, max]` that a selector picks.
pub open spec fn pick<T>(min: Point<T>, max: Point<T>, c: (bool, bool, bool)) -> Point<T> {
    (
        if c.0 { max.0 } else { min.0 },
        if c.1 { max.1 } else { min.1 },
        if c.2 { max.2 } else { min.2 },
    )
}

/// Index `k` of the box's index list: two triangles per face,
/// `(0, 1, 2)` and `(1, 2, 3)` over the face's four vertices.
pub open spec fn box_index(k: int) -> int {
    let face = k / 6;
    let corner = k % 6;
    let offset: int = if corner == 0 {
        0
    } else if corner == 1 || corner == 3 {
        1
    } else if corner == 2 || corner == 4 {
        2
    } else {
        3
    };
    4 * face + offset
}

fn corner<T: Copy>(min: Point<T>, max: Point<T>, x: bool, y: bool, z: bool) -> (r: Point<T>)
    ensures
        r == pick(min, max, (x, y, z)),
{
    (if x { max.0 } else { min.0 }, if y { max.1 } else { min.1 }, if z { max.2 } else { min.2 })
}

/// Builds the vertex and index lists that draw the box `[min, max]` as six
/// quads, two triangles each.
pub fn gen_vertices<T: Copy>(min: Point<T>, max: Point<T>) -> (r: (Vec<Point<T>>, Vec<u32>))
    ensures
        r.0@ == corner_pattern().map_values(|c: (bool, bool, bool)| pick(min, max, c)),
        r.1@.len() == 36,
        forall|k: int| 0 <= k < 36 ==> #[trigger] r.1@[k] == box_index(k),
{
    let mut v: Vec<Point<T>> = Vec::with_capacity(24);
    // front
    v.push(corner(min, max, true, true, false));
    v.push(corner(min, max, true, false, false));
    v.push(corner(min, max, false, true, false));
    v.push(corner(min, max, false, false, false));
    // top
    v.push(corner(min, max, true, true, true));
    v.push(corner(min, max, true, true, false));
    v.push(corner(min, max, false, true, true));
    v.push(corner(min, max, false, true, false));
    // bottom
    v.push(corner(min, max, true, false, true));
    v.push(corner(min, max, true, false, false));
    v.push(corner(min, max, false, false, true));
    v.push(corner(min, max, false, false, false));
    // back
    v.push(corner(min, max, true, true, true));
    v.push(corner(min, max, true, false, true));
    v.push(corner(min, max, false, true, true));
    v.push(corner(min, max, false, false, true));
    // left
    v.push(corner(min, max, false, true, false));
    v.push(corner(min, max, false, false, false));
    v.push(corner(min, max, false, true, true));
    v.push(corner(min, max, false, false, true));
    // right
    v.push(corner(min, max, true, true, true));
    v.push(corner(min, max, true, false, true));
    v.push(corner(min, max, true, true, false));
    v.push(corner(min, max, true, false, false));
    assert(v@ =~= corner_pattern().map_values(|c: (bool, bool, bool)| pick(min, max, c)));

    let mut i: Vec<u32> = Vec::with_capacity(36);
    let mut face: u32 = 0;
    while face < 6
        invariant
            0 <= face <= 6,
            i@.len() == 6 * face,
            forall|k: int| 0 <= k < 6 * face ==> #[trigger] i@[k] == box_index(k),
        decreases 6 - face,
    {
        let base: u32 = 4 * face;
        i.push(base);
        i.push(base + 1);
        i.push(base + 2);
        i.push(base + 1);
        i.push(base + 2);
        i.push(base + 3);
        assert forall|k: int| 0 <= k < 6 * (face + 1) implies #[trigger] i@[k] == box_index(k) by {
            if k >= 6 * face {
                assert(k / 6 == face as int);
            }
        }
        face = face + 1;
    }
    (v, i)
}

} // verus!
