//! The interactive menu: which entry is selected and which part of the
//! list is shown, how keys move them, and the state of the full-screen
//! interface (the choices made so far), plus the download progress bar.
//! Drawing is left to the terminal layer; everything it draws is decided
//! here.

use vstd::prelude::*;
use crate::text::{chars_of, decimal, push_chars, push_decimal, push_str};

verus! {

/// A key as the menus see it.
#[derive(Clone, Copy, Debug, PartialEq, Eq, Structural)]
pub enum Key {
    Up,
    Down,
    Enter,
    Esc,
    Char(char),
    Other,
}

/// A key press: the key, and whether Control was held.
#[derive(Clone, Copy, Debug, PartialEq, Eq, Structural)]
pub struct KeyPress {
    pub key: Key,
    pub ctrl: bool,
}

/// What a menu does after a key.
#[derive(Clone, Copy, Debug, PartialEq, Eq, Structural)]
pub enum MenuOutcome {
    /// Keep asking.
    Continue,
    /// The entry at this position was chosen.
    Chosen(usize),
    /// The user gave up.
    Aborted,
}

/// A menu over `len` entries showing `window` of them from `top`, with
/// `sel` selected.
#[derive(Clone, Copy, Debug, PartialEq, Eq, Structural)]
pub struct Menu {
    pub len: usize,
    pub window: usize,
    pub sel: usize,
    pub top: usize,
}

impl Menu {
    /// The selection is an entry, and when the window shows anything the
    /// selection is inside it.
    pub open spec fn wf(self) -> bool {
        &&& self.sel < self.len
        &&& self.window >= 1 ==> self.top <= self.sel && self.sel < self.top + self.window
    }

    /// The menu after moving up: the entry above becomes selected (none at
    /// the top), and the window follows it.
    pub open spec fn spec_up(self) -> Menu {
        if self.sel > 0 {
            let sel = (self.sel - 1) as usize;
            Menu { sel, top: if sel < self.top { sel } else { self.top }, ..self }
        } else {
            self
        }
    }

    /// The menu after moving down: the entry below becomes selected (none at
    /// the bottom), and the window follows it.
    pub open spec fn spec_down(self) -> Menu {
        if self.sel + 1 < self.len {
            let sel = (self.sel + 1) as usize;
            Menu {
                sel,
                top: if sel >= self.top + self.window {
                    (sel + 1 - self.window) as usize
                } else {
                    self.top
                },
                ..self
            }
        } else {
            self
        }
    }

    /// How a menu reacts to a key: ↑ or `k` moves up, ↓ or `j` moves down,
    /// Enter chooses, `q`, Esc and Control-C give up, other keys change
    /// nothing.
    pub open spec fn spec_press(self, k: KeyPress) -> (Menu, MenuOutcome) {
        match k.key {
            Key::Up => (self.spec_up(), MenuOutcome::Continue),
            Key::Char('k') => (self.spec_up(), MenuOutcome::Continue),
            Key::Down => (self.spec_down(), MenuOutcome::Continue),
            Key::Char('j') => (self.spec_down(), MenuOutcome::Continue),
            Key::Enter => (self, MenuOutcome::Chosen(self.sel)),
            Key::Char('q') => (self, MenuOutcome::Aborted),
            Key::Esc => (self, MenuOutcome::Aborted),
            Key::Char('c') => if k.ctrl {
                (self, MenuOutcome::Aborted)
            } else {
                (self, MenuOutcome::Continue)
            },
            _ => (self, MenuOutcome::Continue),
        }
    }

    /// The full-screen menu over `len` entries on a terminal `height` rows
    /// tall: a third of the height but at least 3 rows and at most the
    /// entries (at least 3 rows even for fewer entries), the first entry
    /// selected.
    pub fn for_screen(len: usize, height: u16) -> (m: Menu)
        requires
            len > 0,
        ensures
            m == (Menu {
                len,
                window: if len < height / 3 {
                    if len < 3 {
                        3
                    } else {
                        len
                    }
                } else if height / 3 < 3 {
                    3
                } else {
                    (height / 3) as usize
                },
                sel: 0,
                top: 0,
            }),
            m.wf(),
    {
        let third = (height / 3) as usize;
        let shown = if len < third {
            len
        } else {
            third
        };
        let window = if shown < 3 {
            3
        } else {
            shown
        };
        Menu { len, window, sel: 0, top: 0 }
    }

    /// The inline prompt over `len` entries on a terminal `height` rows
    /// tall: the entries, but no more than the height less 6 rows, the first
    /// entry selected.
    pub fn for_prompt(len: usize, height: usize) -> (m: Menu)
        requires
            len > 0,
        ensures
            m == (Menu {
                len,
                window: if height < 6 {
                    0
                } else if len < height - 6 {
                    len
                } else {
                    (height - 6) as usize
                },
                sel: 0,
                top: 0,
            }),
            m.wf(),
    {
        let room = if height < 6 {
            0
        } else {
            height - 6
        };
        let window = if len < room {
            len
        } else {
            room
        };
        Menu { len, window, sel: 0, top: 0 }
    }

    /// Moves the selection up.
    pub fn up(&mut self)
        requires
            old(self).wf(),
        ensures
            *final(self) == old(self).spec_up(),
            final(self).wf(),
    {
        if self.sel > 0 {
            self.sel = self.sel - 1;
            if self.sel < self.top {
                self.top = self.sel;
            }
        }
    }

    /// Moves the selection down.
    pub fn down(&mut self)
        requires
            old(self).wf(),
        ensures
            *final(self) == old(self).spec_down(),
            final(self).wf(),
    {
        if self.sel + 1 < self.len {
            self.sel = self.sel + 1;
            if self.window <= self.sel && self.sel - self.window >= self.top {
                self.top = self.sel + 1 - self.window;
            }
        }
    }

    /// Applies a key.
    pub fn press(&mut self, k: KeyPress) -> (o: MenuOutcome)
        requires
            old(self).wf(),
        ensures
            (*final(self), o) == old(self).spec_press(k),
            final(self).wf(),
    {
        match k.key {
            Key::Up => {
                self.up();
                MenuOutcome::Continue
            },
            Key::Down => {
                self.down();
                MenuOutcome::Continue
            },
            Key::Enter => MenuOutcome::Chosen(self.sel),
            Key::Esc => MenuOutcome::Aborted,
            Key::Char(c) => {
                if c == 'k' {
                    self.up();
                    MenuOutcome::Continue
                } else if c == 'j' {
                    self.down();
                    MenuOutcome::Continue
                } else if c == 'q' {
                    MenuOutcome::Aborted
                } else if c == 'c' && k.ctrl {
                    MenuOutcome::Aborted
                } else {
                    MenuOutcome::Continue
                }
            },
            Key::Other => MenuOutcome::Continue,
        }
    }
}

} // verus!

verus! {

/// Moving down and then up comes back to the entry one started on, as long
/// as there was an entry below it.
pub proof fn law_down_then_up(m: Menu)
    requires
        m.wf(),
        m.sel + 1 < m.len,
    ensures
        m.spec_down().spec_up().sel == m.sel,
{
}

/// Moving up and then down comes back to the entry one started on, as long
/// as there was an entry above it.
pub proof fn law_up_then_down(m: Menu)
    requires
        m.wf(),
        m.sel > 0,
    ensures
        m.spec_up().spec_down().sel == m.sel,
{
}

/// Every key keeps the selection on an entry and inside the shown window;
/// what a menu chooses is the selected entry.
pub proof fn law_keys_keep_selection_valid(m: Menu, k: KeyPress)
    requires
        m.wf(),
    ensures
        m.spec_press(k).0.wf(),
        m.spec_press(k).1 matches MenuOutcome::Chosen(i) ==> i == m.sel && i < m.len,
{
}

// ---------------------------------------------------------------------------
// Progress bar
// ---------------------------------------------------------------------------

/// The cells of a progress bar and the percentage beside it.
#[derive(Clone, Copy, Debug, PartialEq, Eq, Structural)]
pub struct Progress {
    pub filled: usize,
    pub empty: usize,
    pub percent: u64,
}

/// The width of the bar on a terminal `width` columns wide: the width less
/// 36 columns, but between 12 and 48 cells.
pub open spec fn bar_width(width: usize) -> usize {
    let w: usize = if width < 36 {
        0
    } else {
        (width - 36) as usize
    };
    if w < 12 {
        12
    } else if w > 48 {
        48
    } else {
        w
    }
}

/// The cells filled for `done` of `total` bytes (none when the total is
/// unknown, that is 0).
pub open spec fn filled_cells(done: u64, total: u64, width: usize) -> int {
    if total > 0 {
        ((done as usize) * bar_width(width)) / ((total as usize) as int)
    } else {
        0
    }
}

/// `done` does not overrun `total` so far that the bar could not be drawn,
/// and the products stay within their machine types.
pub open spec fn progress_drawable(done: u64, total: u64, width: usize) -> bool {
    total > 0 ==> {
        &&& (done as usize) * bar_width(width) <= usize::MAX
        &&& (total as usize) > 0
        &&& filled_cells(done, total, width) <= bar_width(width)
        &&& done * 100 <= u64::MAX
    }
}

/// Whether the progress bar for `done` of `total` bytes can be drawn on a
/// terminal `width` columns wide (see [`progress_drawable`]).
pub fn can_draw_progress(done: u64, total: u64, width: usize) -> (b: bool)
    ensures
        b == progress_drawable(done, total, width),
{
    if total == 0 {
        return true;
    }
    let w = if width < 36 {
        0
    } else {
        width - 36
    };
    let bar_w: usize = if w < 12 {
        12
    } else if w > 48 {
        48
    } else {
        w
    };
    let t = total as usize;
    if t == 0 {
        return false;
    }
    let d = done as usize;
    if d > usize::MAX / bar_w {
        assert(d * bar_w > usize::MAX) by (nonlinear_arith)
            requires
                d > usize::MAX / bar_w,
                bar_w > 0,
        ;
        return false;
    }
    assert(d * bar_w <= usize::MAX) by (nonlinear_arith)
        requires
            d <= usize::MAX / bar_w,
            bar_w > 0,
    ;
    if d * bar_w / t > bar_w {
        return false;
    }
    done <= u64::MAX / 100
}

/// The progress bar for `done` of `total` bytes on a terminal `width`
/// columns wide.
pub fn progress_bar(done: u64, total: u64, width: usize) -> (p: Progress)
    requires
        progress_drawable(done, total, width),
    ensures
        p.filled == filled_cells(done, total, width),
        p.filled + p.empty == bar_width(width),
        p.percent == (if total > 0 {
            (done * 100) / (total as int)
        } else {
            0
        }),
{
    let w = if width < 36 {
        0
    } else {
        width - 36
    };
    let bar_w: usize = if w < 12 {
        12
    } else if w > 48 {
        48
    } else {
        w
    };
    let filled = if total > 0 {
        (done as usize) * bar_w / (total as usize)
    } else {
        0
    };
    let percent = if total > 0 {
        done * 100 / total
    } else {
        0
    };
    Progress { filled, empty: bar_w - filled, percent }
}

/// A drawn bar never has more cells filled than it has, and a finished
/// download fills it: when `done == total` every cell is filled and the
/// percentage is 100.
pub proof fn law_finished_download_fills_bar(total: u64, width: usize)
    requires
        total > 0,
        progress_drawable(total, total, width),
    ensures
        filled_cells(total, total, width) == bar_width(width),
        (total * 100) / (total as int) == 100,
{
    let t = (total as usize) as int;
    let b = bar_width(width) as int;
    assert((t * b) / t == b) by (nonlinear_arith)
        requires
            t > 0,
    ;
    let tt = total as int;
    assert((tt * 100) / tt == 100) by (nonlinear_arith)
        requires
            tt > 0,
    ;
}

// ---------------------------------------------------------------------------
// The full-screen interface
// ---------------------------------------------------------------------------

/// The full-screen interface: the build tag in its header, the choices
/// made so far (a label and the chosen value each), and whether it still
/// holds the alternate screen.
pub struct Tui {
    pub tag: String,
    pub selections: Vec<(String, String)>,
    pub in_alt: bool,
}

/// `vals` joined with `sep` between consecutive ones.
pub open spec fn join(vals: Seq<Seq<char>>, sep: Seq<char>) -> Seq<char>
    decreases vals.len(),
{
    if vals.len() == 0 {
        Seq::empty()
    } else if vals.len() == 1 {
        vals[0]
    } else {
        join(vals.drop_last(), sep) + sep + vals.last()
    }
}

/// The chosen values of the selections, in order.
pub open spec fn chosen_values(sel: Seq<(String, String)>) -> Seq<Seq<char>> {
    sel.map_values(|p: (String, String)| p.1@)
}

/// `s` padded with spaces to `width` characters (`format!("{:<width$}")`).
pub open spec fn pad_right(s: Seq<char>, width: nat) -> Seq<char> {
    if s.len() >= width {
        s
    } else {
        s + Seq::new((width - s.len()) as nat, |i: int| ' ')
    }
}

impl Tui {
    /// A fresh interface for build `tag`, holding the alternate screen, with
    /// nothing chosen yet.
    pub fn new(tag: &str) -> (t: Tui)
        ensures
            t.tag@ == tag@,
            t.selections@.len() == 0,
            t.in_alt,
    {
        Tui { tag: tag.to_owned(), selections: Vec::new(), in_alt: true }
    }

    /// Records that `value` was chosen for the question `label`.
    pub fn record(&mut self, label: &str, value: &str)
        ensures
            final(self).tag == old(self).tag,
            final(self).in_alt == old(self).in_alt,
            final(self).selections@.len() == old(self).selections@.len() + 1,
            forall|i: int|
                0 <= i < old(self).selections@.len() ==> final(self).selections@[i] == old(
                    self,
                ).selections@[i],
            final(self).selections@.last().0@ == label@,
            final(self).selections@.last().1@ == value@,
    {
        self.selections.push((label.to_owned(), value.to_owned()));
    }

    /// The header line: `  wifl  <tag>  ·  Windows Image Fetch + Install`.
    pub fn header(&self) -> (h: String)
        ensures
            h@ == "  wifl  "@ + self.tag@ + "  ·  Windows Image Fetch + Install"@,
    {
        let mut h = String::new();
        push_str(&mut h, "  wifl  ");
        push_str(&mut h, self.tag.as_str());
        push_str(&mut h, "  ·  Windows Image Fetch + Install");
        h
    }

    /// The chosen values, joined with `  ·  `, as shown when the interface
    /// gives the screen back.
    pub fn summary(&self) -> (s: String)
        ensures
            s@ == join(chosen_values(self.selections@), "  ·  "@),
    {
        let sep = chars_of("  ·  ");
        let mut s = String::new();
        let mut i: usize = 0;
        let ghost vals = chosen_values(self.selections@);
        while i < self.selections.len()
            invariant
                sep@ == "  ·  "@,
                vals == chosen_values(self.selections@),
                i <= self.selections@.len(),
                s@ == join(vals.take(i as int), "  ·  "@),
            decreases self.selections@.len() - i,
        {
            assert(vals.take(i + 1).drop_last() =~= vals.take(i as int));
            assert(vals.take(i + 1).last() == self.selections@[i as int].1@);
            if i > 0 {
                push_chars(&mut s, sep.as_slice());
            }
            push_str(&mut s, self.selections[i].1.as_str());
            assert(s@ =~= join(vals.take(i + 1), "  ·  "@));
            i = i + 1;
        }
        assert(vals.take(self.selections@.len() as int) =~= vals);
        s
    }

    /// Gives the screen back for the installation phase and returns the
    /// summary to print.
    pub fn enter_working_mode(&mut self) -> (s: String)
        ensures
            !final(self).in_alt,
            final(self).tag == old(self).tag,
            final(self).selections == old(self).selections,
            s@ == join(chosen_values(old(self).selections@), "  ·  "@),
    {
        self.in_alt = false;
        self.summary()
    }
}

/// A question label padded to 24 characters, as the list of choices shows it.
pub fn selection_label(label: &str) -> (s: String)
    ensures
        s@ == pad_right(label@, 24),
{
    let cs = chars_of(label);
    let mut s = String::new();
    push_chars(&mut s, cs.as_slice());
    let mut n = cs.len();
    let ghost pad = Seq::new((24 - cs@.len()) as nat, |i: int| ' ');
    while n < 24
        invariant
            cs@ == label@,
            cs@.len() <= n <= 24 || n == cs@.len(),
            s@ == cs@ + Seq::new((n - cs@.len()) as nat, |i: int| ' '),
        decreases 24 - n,
    {
        crate::text::push_char(&mut s, ' ');
        assert(s@ =~= cs@ + Seq::new((n + 1 - cs@.len()) as nat, |i: int| ' '));
        n = n + 1;
    }
    if cs.len() >= 24 {
        assert(s@ =~= cs@);
    }
    s
}

} // verus!

verus! {

// ---------------------------------------------------------------------------
// Menu lines
// ---------------------------------------------------------------------------

/// The line of entry `item` in the full-screen menu (`▶  ` marks the
/// selected entry) or in the inline prompt (`  > ` marks it, and the line
/// ends the terminal row).
pub open spec fn spec_entry_line(item: Seq<char>, selected: bool, inline: bool) -> Seq<char> {
    if inline {
        (if selected {
            "  > "@
        } else {
            "    "@
        }) + item + "\r\n"@
    } else {
        (if selected {
            "▶  "@
        } else {
            "   "@
        }) + item
    }
}

/// The line of an entry (see [`spec_entry_line`]).
pub fn entry_line(item: &str, selected: bool, inline: bool) -> (s: String)
    ensures
        s@ == spec_entry_line(item@, selected, inline),
{
    let mut s = String::new();
    if inline {
        if selected {
            push_str(&mut s, "  > ");
        } else {
            push_str(&mut s, "    ");
        }
        push_str(&mut s, item);
        push_str(&mut s, "\r\n");
    } else {
        if selected {
            push_str(&mut s, "▶  ");
        } else {
            push_str(&mut s, "   ");
        }
        push_str(&mut s, item);
    }
    s
}

/// The position line shown below a menu that does not show every entry:
/// the selected entry's number (from 1) and the number of entries.
pub open spec fn spec_position_line(m: Menu, inline: bool) -> Seq<char> {
    if inline {
        "  "@ + decimal((m.sel + 1) as nat) + "/"@ + decimal(m.len as nat) + "\r\n"@
    } else {
        "   ···  "@ + decimal((m.sel + 1) as nat) + " / "@ + decimal(m.len as nat)
    }
}

/// The position line of a menu (see [`spec_position_line`]).
pub fn position_line(m: Menu, inline: bool) -> (s: String)
    requires
        m.wf(),
    ensures
        s@ == spec_position_line(m, inline),
{
    let mut s = String::new();
    if inline {
        push_str(&mut s, "  ");
        push_decimal(&mut s, (m.sel + 1) as u64);
        push_str(&mut s, "/");
        push_decimal(&mut s, m.len as u64);
        push_str(&mut s, "\r\n");
    } else {
        push_str(&mut s, "   ···  ");
        push_decimal(&mut s, (m.sel + 1) as u64);
        push_str(&mut s, " / ");
        push_decimal(&mut s, m.len as u64);
    }
    s
}

} // verus!

verus! {

/// The row shown at position `i` of the window of `m` over `items`: the
/// entry's line, or an empty row past the last entry (in the inline
/// prompt, a bare line break).
pub open spec fn spec_window_row(items: Seq<Seq<char>>, m: Menu, inline: bool, i: int) -> Seq<char> {
    if m.top + i < items.len() {
        spec_entry_line(items[m.top + i], m.top + i == m.sel, inline)
    } else if inline {
        "\r\n"@
    } else {
        Seq::empty()
    }
}

/// The rows a menu draws: one per window position, then the position line
/// when the window does not show every entry.
pub open spec fn spec_menu_rows(items: Seq<Seq<char>>, m: Menu, inline: bool) -> Seq<Seq<char>> {
    Seq::new(m.window as nat, |i: int| spec_window_row(items, m, inline, i)) + (if items.len()
        > m.window {
        seq![spec_position_line(m, inline)]
    } else {
        Seq::empty()
    })
}

/// The rows a menu draws (see [`spec_menu_rows`]).
pub fn menu_rows(items: &[String], m: Menu, inline: bool) -> (r: Vec<String>)
    requires
        m.wf(),
        m.len == items@.len(),
    ensures
        r@.map_values(|s: String| s@) == spec_menu_rows(items@.map_values(|s: String| s@), m, inline),
{
    let ghost iv = items@.map_values(|s: String| s@);
    let mut r: Vec<String> = Vec::new();
    let mut i: usize = 0;
    while i < m.window
        invariant
            m.wf(),
            m.len == items@.len(),
            iv == items@.map_values(|s: String| s@),
            i <= m.window,
            r@.len() == i,
            forall|k: int| 0 <= k < i ==> (#[trigger] r@[k])@ == spec_window_row(iv, m, inline, k),
        decreases m.window - i,
    {
        let row = if i < items.len() - m.top {
            let abs = m.top + i;
            entry_line(items[abs].as_str(), abs == m.sel, inline)
        } else if inline {
            "\r\n".to_owned()
        } else {
            String::new()
        };
        r.push(row);
        i = i + 1;
    }
    if items.len() > m.window {
        r.push(position_line(m, inline));
    }
    assert(r@.map_values(|s: String| s@) =~= spec_menu_rows(iv, m, inline));
    r
}

/// How many rows the inline prompt's list takes, and so how far the cursor
/// moves up to redraw it: the window, and the position line when not every
/// entry is shown.
pub fn list_height(m: Menu) -> (h: usize)
    requires
        m.window < usize::MAX,
    ensures
        h == m.window + (if m.len > m.window {
            1int
        } else {
            0int
        }),
{
    if m.len > m.window {
        m.window + 1
    } else {
        m.window
    }
}

} // verus!

verus! {

/// Row `i` of a menu's window shows entry `top + i`, marked when it is the
/// selected entry (`▶  ` on the full screen, `  > ` inline) and indented
/// otherwise.
pub proof fn law_window_rows_show_entries(items: Seq<Seq<char>>, m: Menu, inline: bool, i: int)
    requires
        m.wf(),
        m.len == items.len(),
        0 <= i < m.window,
        m.top + i < items.len(),
    ensures
        spec_menu_rows(items, m, inline)[i] == (if inline {
            (if m.top + i == m.sel {
                "  > "@
            } else {
                "    "@
            }) + items[m.top + i] + "\r\n"@
        } else {
            (if m.top + i == m.sel {
                "▶  "@
            } else {
                "   "@
            }) + items[m.top + i]
        }),
{
}

/// The selected entry is always drawn, with the marker, in the row of its
/// place in the window.
pub proof fn law_selected_entry_drawn(items: Seq<Seq<char>>, m: Menu)
    requires
        m.wf(),
        m.len == items.len(),
        m.window >= 1,
    ensures
        spec_menu_rows(items, m, false)[m.sel - m.top] == "▶  "@ + items[m.sel as int],
        spec_menu_rows(items, m, true)[m.sel - m.top] == "  > "@ + items[m.sel as int] + "\r\n"@,
{
    law_window_rows_show_entries(items, m, false, m.sel - m.top);
    law_window_rows_show_entries(items, m, true, m.sel - m.top);
}

} // verus!
