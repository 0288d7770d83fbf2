use wifl::menu::{entry_line, list_height, menu_rows, position_line, progress_bar, selection_label, Key, KeyPress, Menu, MenuOutcome, Tui};

fn key(k: Key) -> KeyPress {
    KeyPress { key: k, ctrl: false }
}

fn ctrl(k: Key) -> KeyPress {
    KeyPress { key: k, ctrl: true }
}

#[test]
fn screen_window_size() {
    assert_eq!(Menu::for_screen(10, 24).window, 8);
    assert_eq!(Menu::for_screen(5, 24).window, 5);
    assert_eq!(Menu::for_screen(2, 24).window, 3);
    assert_eq!(Menu::for_screen(10, 6).window, 3);
    let m = Menu::for_screen(10, 24);
    assert_eq!((m.sel, m.top, m.len), (0, 0, 10));
}

#[test]
fn prompt_window_size() {
    assert_eq!(Menu::for_prompt(10, 24).window, 10);
    assert_eq!(Menu::for_prompt(30, 24).window, 18);
    assert_eq!(Menu::for_prompt(3, 4).window, 0);
}

#[test]
fn arrows_and_vi_keys_move() {
    let mut m = Menu::for_screen(10, 24);
    assert_eq!(m.press(key(Key::Down)), MenuOutcome::Continue);
    assert_eq!(m.sel, 1);
    assert_eq!(m.press(key(Key::Char('j'))), MenuOutcome::Continue);
    assert_eq!(m.sel, 2);
    assert_eq!(m.press(key(Key::Char('k'))), MenuOutcome::Continue);
    assert_eq!(m.press(key(Key::Up)), MenuOutcome::Continue);
    assert_eq!(m.sel, 0);
    assert_eq!(m.press(key(Key::Up)), MenuOutcome::Continue);
    assert_eq!(m.sel, 0);
    assert_eq!(m.press(key(Key::Enter)), MenuOutcome::Chosen(0));
}

#[test]
fn window_follows_selection() {
    let mut m = Menu::for_screen(10, 24);
    for _ in 0..8 {
        m.down();
    }
    assert_eq!(m.sel, 8);
    assert_eq!(m.top, 1);
    m.down();
    m.down();
    assert_eq!(m.sel, 9);
    assert_eq!(m.top, 2);
    for _ in 0..9 {
        m.up();
    }
    assert_eq!(m.sel, 0);
    assert_eq!(m.top, 0);
}

#[test]
fn down_then_up_returns() {
    let mut m = Menu::for_screen(4, 24);
    m.down();
    let before = m;
    m.down();
    m.up();
    assert_eq!(m, before);
}

#[test]
fn screen_abort_keys() {
    let mut m = Menu::for_screen(3, 24);
    assert_eq!(m.press(key(Key::Char('q'))), MenuOutcome::Aborted);
    assert_eq!(m.press(key(Key::Esc)), MenuOutcome::Aborted);
    assert_eq!(m.press(ctrl(Key::Char('c'))), MenuOutcome::Aborted);
    assert_eq!(m.press(key(Key::Char('c'))), MenuOutcome::Continue);
    assert_eq!(m.press(key(Key::Other)), MenuOutcome::Continue);
}

#[test]
fn prompt_keys() {
    let mut m = Menu::for_prompt(3, 24);
    assert_eq!(m.press(key(Key::Esc)), MenuOutcome::Aborted);
    assert_eq!(m.press(ctrl(Key::Esc)), MenuOutcome::Aborted);
    assert_eq!(m.press(key(Key::Char('q'))), MenuOutcome::Aborted);
    assert_eq!(m.press(ctrl(Key::Char('c'))), MenuOutcome::Aborted);
    m.press(key(Key::Down));
    assert_eq!(m.press(key(Key::Enter)), MenuOutcome::Chosen(1));
}

#[test]
fn progress_bar_cells() {
    let p = progress_bar(50, 100, 80);
    assert_eq!((p.filled, p.empty, p.percent), (22, 22, 50));
    let p = progress_bar(100, 100, 200);
    assert_eq!((p.filled, p.empty, p.percent), (48, 0, 100));
    let p = progress_bar(1, 3, 20);
    assert_eq!((p.filled, p.empty, p.percent), (4, 8, 33));
    let p = progress_bar(7, 0, 80);
    assert_eq!((p.filled, p.empty, p.percent), (0, 44, 0));
}

#[test]
fn tui_header_and_summary() {
    let mut t = Tui::new("v1.4.0");
    assert_eq!(t.header(), "  wifl  v1.4.0  ·  Windows Image Fetch + Install");
    assert_eq!(t.summary(), "");
    t.record("Select Windows version", "Windows 11");
    t.record("Select build", "build 22631");
    assert_eq!(t.selections.len(), 2);
    assert_eq!(t.summary(), "Windows 11  ·  build 22631");
    assert!(t.in_alt);
    assert_eq!(t.enter_working_mode(), "Windows 11  ·  build 22631");
    assert!(!t.in_alt);
}

#[test]
fn selection_label_padding() {
    assert_eq!(selection_label("Arch"), format!("Arch{}", " ".repeat(20)));
    let long = "Select edition to install now";
    assert_eq!(selection_label(long), long);
}

#[test]
fn menu_lines() {
    assert_eq!(entry_line("Windows 11", true, false), "▶  Windows 11");
    assert_eq!(entry_line("Windows 10", false, false), "   Windows 10");
    assert_eq!(entry_line("x64", true, true), "  > x64\r\n");
    assert_eq!(entry_line("x86", false, true), "    x86\r\n");
    let mut m = Menu::for_screen(12, 24);
    m.down();
    assert_eq!(position_line(m, false), "   ···  2 / 12");
    assert_eq!(position_line(m, true), "  2/12\r\n");
}

#[test]
fn menu_rows_and_height() {
    let items: Vec<String> = ["a", "b", "c", "d", "e"].iter().map(|s| s.to_string()).collect();
    let mut m = Menu::for_prompt(5, 9);
    assert_eq!(m.window, 3);
    m.down();
    assert_eq!(
        menu_rows(&items, m, true),
        vec!["    a\r\n", "  > b\r\n", "    c\r\n", "  2/5\r\n"]
    );
    assert_eq!(list_height(m), 4);
    let short: Vec<String> = vec!["x".to_string()];
    let s = Menu::for_screen(1, 24);
    assert_eq!(menu_rows(&short, s, false), vec!["▶  x", "", ""]);
    let p = Menu::for_prompt(1, 24);
    assert_eq!(list_height(p), 1);
}
