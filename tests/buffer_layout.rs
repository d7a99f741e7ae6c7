use scenegraph::buffer_layout::{BufferElement, Layout};

#[test]
fn layout_stride_and_offsets() {
    let mut l = Layout::new();
    l.push::<f32>(3, gl::FLOAT);
    l.push::<f32>(3, gl::FLOAT);
    l.push::<f32>(2, gl::FLOAT);
    assert_eq!(l.stride(), 32);
    assert_eq!(
        l.elements()[2],
        BufferElement { count: 2, ty: gl::FLOAT, size: 4 }
    );
    assert_eq!(l.attribute_offsets(), Some(vec![0, 12, 24]));
}

#[test]
fn layout_empty() {
    let l = Layout::default();
    assert_eq!(l.stride(), 0);
    assert!(l.elements().is_empty());
    assert_eq!(l.attribute_offsets(), Some(vec![]));
}

#[test]
fn layout_offsets_use_own_component_size() {
    let mut l = Layout::new();
    l.push::<u8>(4, gl::UNSIGNED_BYTE);
    l.push::<f64>(2, gl::DOUBLE);
    assert_eq!(l.stride(), 4 + 16);
    assert_eq!(l.attribute_offsets(), Some(vec![0, 32]));
}

#[test]
fn layout_offsets_overflow() {
    let mut l = Layout::new();
    l.push::<u8>(i32::MAX, gl::UNSIGNED_BYTE);
    l.push::<u8>(0, gl::UNSIGNED_BYTE);
    assert_eq!(l.attribute_offsets(), Some(vec![0, i32::MAX as u32]));
    let mut m = Layout::new();
    m.push::<u8>(i32::MAX, gl::UNSIGNED_BYTE);
    m.push::<[u8; 4]>(0, gl::UNSIGNED_BYTE);
    assert_eq!(m.attribute_offsets(), None);
}
