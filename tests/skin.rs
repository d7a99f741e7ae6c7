use cgmath::{Matrix4, Quaternion, Rad, Rotation3, SquareMatrix, Vector3};
use scenegraph::hierarchy::build_tree;
use scenegraph::propagation::update_globals;
use scenegraph::skin::{Joint, Skin};

fn close(a: Matrix4<f32>, b: Matrix4<f32>) -> bool {
    let a: &[f32; 16] = a.as_ref();
    let b: &[f32; 16] = b.as_ref();
    a.iter().zip(b.iter()).all(|(x, y)| (x - y).abs() < 1e-5)
}

// A joint bound at its current pose, on a mesh node at the origin, gives
// the identity joint matrix.
#[test]
fn joint_bound_at_current_pose_is_identity() {
    // node 0: mesh node at the origin; node 1: joint node, rotated and moved
    let children = vec![vec![], vec![]];
    let order = build_tree(&children, &vec![0, 1]);
    let locals = vec![
        Matrix4::identity(),
        Matrix4::from_translation(Vector3::new(1.0, 2.0, 3.0))
            * Matrix4::from(Quaternion::from_angle_y(Rad(0.5f32))),
    ];
    let mut globals = vec![Matrix4::identity(); 2];
    update_globals(&order, &locals, &mut globals, Matrix4::identity(), |p: Matrix4<f32>, l: Matrix4<f32>| p * l);

    let skin = Skin { joints: vec![Joint::new(globals[1].invert().unwrap(), 1)] };
    let inverse_mesh = globals[0].invert().unwrap();
    let m = skin.joint_matrices(inverse_mesh, &globals, |a: Matrix4<f32>, g: Matrix4<f32>, b: Matrix4<f32>| a * g * b);
    assert_eq!(m.len(), 1);
    assert!(close(m[0], Matrix4::identity()));
}

#[test]
fn joint_matrices_follow_joint_order() {
    let skin = Skin { joints: vec![Joint::new(1i64, 2), Joint::new(2, 0)] };
    let globals = vec![10i64, 20, 30];
    let m = skin.joint_matrices(100, &globals, |a: i64, g: i64, b: i64| a + g * b);
    assert_eq!(m, vec![130, 120]);
}

#[test]
fn skin_from_parts_pairs_positions() {
    let skin = Skin::from_parts(&vec![7u8, 8, 9], &vec![4, 5]);
    assert_eq!(skin.joints.len(), 2);
    assert_eq!(skin.joints[1].bind_matrix, 8);
    assert_eq!(skin.joints[1].node, 5);
}

#[test]
fn globals_with_matrices() {
    let children = vec![vec![1], vec![]];
    let order = build_tree(&children, &vec![0]);
    let t = Matrix4::from_translation(Vector3::new(1.0f32, 0.0, 0.0));
    let locals = vec![t, t];
    let mut globals = vec![Matrix4::identity(); 2];
    let root = Matrix4::from_scale(2.0f32);
    update_globals(&order, &locals, &mut globals, root, |p: Matrix4<f32>, l: Matrix4<f32>| p * l);
    assert!(close(globals[1], root * t * t));
    let expected = Matrix4::from_translation(Vector3::new(4.0f32, 0.0, 0.0)) * Matrix4::from_scale(2.0);
    assert!(close(globals[1], expected));
}
