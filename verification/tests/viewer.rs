use parametric_meshes::viewer::{command_for_key, Command, Key, Viewer};

#[test]
fn keys_map_to_commands() {
    assert_eq!(command_for_key(Key::Escape), Command::Exit);
    assert_eq!(command_for_key(Key::Digit1), Command::SelectShape(0));
    assert_eq!(command_for_key(Key::Digit2), Command::SelectShape(1));
    assert_eq!(command_for_key(Key::Digit3), Command::SelectShape(2));
    assert_eq!(command_for_key(Key::Digit4), Command::SelectShape(3));
    assert_eq!(command_for_key(Key::Equal), Command::Grow);
    assert_eq!(command_for_key(Key::Minus), Command::Shrink);
    assert_eq!(command_for_key(Key::Other), Command::Ignore);
}

#[test]
fn new_viewer_shows_first_mesh() {
    let v = Viewer::new(4);
    assert_eq!(v.current_mesh(), 0);
    assert_eq!(v.mesh_count(), 4);
}

#[test]
fn set_shape_clamps_to_last_mesh() {
    let mut v = Viewer::new(4);
    v.set_shape(2);
    assert_eq!(v.current_mesh(), 2);
    v.set_shape(3);
    assert_eq!(v.current_mesh(), 3);
    v.set_shape(9);
    assert_eq!(v.current_mesh(), 3);
    v.set_shape(0);
    assert_eq!(v.current_mesh(), 0);
}

#[test]
fn set_shape_twice_is_set_shape_once() {
    let mut a = Viewer::new(3);
    let mut b = Viewer::new(3);
    a.set_shape(7);
    b.set_shape(7);
    let once = b.current_mesh();
    b.set_shape(once);
    assert_eq!(a.current_mesh(), b.current_mesh());
}

#[test]
fn handle_key_selects_and_reports() {
    let mut v = Viewer::new(2);
    assert_eq!(v.handle_key(Key::Digit4), Command::SelectShape(3));
    assert_eq!(v.current_mesh(), 1);
    assert_eq!(v.handle_key(Key::Equal), Command::Grow);
    assert_eq!(v.current_mesh(), 1);
    assert_eq!(v.handle_key(Key::Digit1), Command::SelectShape(0));
    assert_eq!(v.current_mesh(), 0);
    assert_eq!(v.handle_key(Key::Escape), Command::Exit);
    assert_eq!(v.current_mesh(), 0);
}
