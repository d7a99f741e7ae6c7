use scenegraph::aabb::gen_vertices;

#[test]
fn box_vertices_pick_corners() {
    let (v, _) = gen_vertices((-1.0f32, -2.0, -3.0), (1.0f32, 2.0, 3.0));
    assert_eq!(v.len(), 24);
    // front face, top right then bottom left
    assert_eq!(v[0], (1.0, 2.0, -3.0));
    assert_eq!(v[3], (-1.0, -2.0, -3.0));
    // back face, top left
    assert_eq!(v[14], (-1.0, 2.0, 3.0));
    // right face, bottom left
    assert_eq!(v[23], (1.0, -2.0, -3.0));
}

#[test]
fn box_indices_two_triangles_per_face() {
    let (_, i) = gen_vertices((0i32, 0, 0), (1i32, 1, 1));
    assert_eq!(i.len(), 36);
    assert_eq!(&i[0..6], &[0, 1, 2, 1, 2, 3]);
    assert_eq!(&i[30..36], &[20, 21, 22, 21, 22, 23]);
}
