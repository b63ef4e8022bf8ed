use std::cell::RefCell;
use std::rc::Rc;
use termfront::overlay::start_overlay;
use termfront::tabs::Tabs;
use termfront::tabs::TerminalState;

fn tabs_of_size(rows: usize, cols: usize) -> Tabs {
    let mut tabs = Tabs::new();
    tabs.push(TerminalState::new(24, 80, 10));
    tabs.push(TerminalState::new(rows, cols, 10));
    tabs
}

#[test]
fn overlay_has_the_size_of_its_tab() {
    let tabs = tabs_of_size(7, 9);
    let (terminal, overlay) = start_overlay(tabs.get(1), |_id: usize, _surface: ()| 0u8, |_id: usize| {});
    assert_eq!((terminal.rows(), terminal.cols()), (7, 9));
    assert_eq!(terminal.scrollback(), 0);
    assert_eq!(terminal.get_title(), "");
    assert_eq!(overlay.tab_id(), 1);
}

#[test]
fn overlay_runs_the_function_then_tells_the_window() {
    let tabs = tabs_of_size(7, 9);
    let log: Rc<RefCell<Vec<String>>> = Rc::new(RefCell::new(Vec::new()));
    let in_func = Rc::clone(&log);
    let in_notify = Rc::clone(&log);
    let (_terminal, overlay) = start_overlay(
        tabs.get(1),
        move |id: usize, surface: &str| {
            in_func.borrow_mut().push(format!("run {} on {}", id, surface));
            id * 10
        },
        move |id: usize| in_notify.borrow_mut().push(format!("done {}", id)),
    );
    assert!(log.borrow().is_empty());
    let result = overlay.run("screen");
    assert_eq!(result, 10);
    assert_eq!(*log.borrow(), vec!["run 1 on screen".to_string(), "done 1".to_string()]);
}

#[test]
fn overlay_tells_the_window_after_a_failure_too() {
    let tabs = tabs_of_size(7, 9);
    let told: Rc<RefCell<Vec<usize>>> = Rc::new(RefCell::new(Vec::new()));
    let in_notify = Rc::clone(&told);
    let (_terminal, overlay) = start_overlay(
        tabs.get(0),
        |_id: usize, _surface: ()| -> Result<u8, String> { Err("no".to_string()) },
        move |id: usize| in_notify.borrow_mut().push(id),
    );
    assert_eq!(overlay.run(()), Err("no".to_string()));
    assert_eq!(*told.borrow(), vec![0]);
}
