use scenegraph::window::ControlFlow;

#[test]
fn quit_closes_the_window() {
    assert!(ControlFlow::Quit.should_close());
    assert!(!ControlFlow::Continue.should_close());
}
