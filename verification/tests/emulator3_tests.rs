use cadmus::emulator3::script_mgr::ScriptMgr;
use cadmus::emulator3::window::Window;
use cadmus::emulator3::window_mgr::WindowMgr;
use cadmus::emulator3::EmulatorState;

#[test]
fn variables_of_the_innermost_frame() {
    let mut mgr = ScriptMgr::new();
    mgr.variables.push(vec![]);
    assert_eq!(mgr.get_var("$x"), None);
    mgr.set_var("$x", "1".to_string());
    assert_eq!(mgr.get_var("$x"), Some("1".to_string()));
    mgr.set_var("$x", "2".to_string());
    assert_eq!(mgr.get_var("$x"), Some("2".to_string()));
    assert_eq!(mgr.variables[0].len(), 1);
    // A new frame starts without variables; the outer one keeps its own.
    mgr.variables.push(vec![]);
    assert_eq!(mgr.get_var("$x"), None);
    mgr.set_var("$y", "3".to_string());
    assert_eq!(mgr.get_var("$y"), Some("3".to_string()));
    mgr.variables.pop();
    assert_eq!(mgr.get_var("$x"), Some("2".to_string()));
    assert_eq!(mgr.get_var("$y"), None);
    assert!(mgr.globals.is_empty());
}

#[test]
fn window_builder() {
    let w = Window::new().id(3).name("Main".to_string()).database("a.cad".to_string()).layout_id(7);
    assert_eq!(w.id, 3);
    assert_eq!(w.name, "Main");
    assert_eq!(w.database, "a.cad");
    assert_eq!(w.layout_id, 7);
    let mut mgr = WindowMgr::new();
    assert!(mgr.windows.is_empty());
    mgr.windows.insert(w.id, w);
    assert_eq!(mgr.windows.get(&3).unwrap().layout_id, 7);
    let state = EmulatorState::new();
    assert_eq!(state.active_window, 0);
    assert!(state.active_database.is_empty());
}
