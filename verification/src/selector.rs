//! The interactive drive selector: keys move a highlight over the listed
//! drives, Enter chooses, Ctrl+C quits.
use vstd::prelude::*;
use vstd::string::*;
use crate::disk::{disk_row, numbered_disk_row, numbered_row_text, row_text, Disk};
use crate::display::{banner_rule, banner_title, header_lines, push_line, views};

verus! {

broadcast use vstd::string::group_string_axioms;

/// The key of a key event.
#[derive(Clone, Copy, PartialEq, Eq, Debug)]
pub enum KeyCode {
    Up,
    Down,
    Enter,
    Char(char),
    Other,
}

/// A key event: which key, whether it was pressed (rather than released or
/// repeated) and whether Control was held.
#[derive(Clone, Copy, PartialEq, Eq, Debug)]
pub struct KeyInput {
    pub code: KeyCode,
    pub pressed: bool,
    pub ctrl: bool,
}

/// What the selector does with a key.
#[derive(Clone, Copy, PartialEq, Eq, Debug)]
pub enum SelectorOutcome {
    /// Keep listing, with this drive highlighted.
    Stay(usize),
    /// The user chose this drive.
    Chosen(usize),
    /// The user asked to quit.
    Quit,
}

/// Ctrl+C pressed.
pub open spec fn is_interrupt(key: KeyInput) -> bool {
    key.pressed && key.ctrl && key.code == KeyCode::Char('c')
}

/// The highlight after `Up`: the previous drive, from the first to the last.
pub open spec fn up_from(selected: nat, count: nat) -> nat {
    if selected == 0 {
        (count - 1) as nat
    } else {
        (selected - 1) as nat
    }
}

/// The highlight after `Down`: the next drive, from the last to the first.
pub open spec fn down_from(selected: nat, count: nat) -> nat {
    (selected + 1) % count
}

/// The selector's answer to a key, with `selected` highlighted among `count` drives.
pub open spec fn selector_next(selected: usize, count: usize, key: KeyInput) -> SelectorOutcome {
    if !key.pressed {
        SelectorOutcome::Stay(selected)
    } else {
        match key.code {
            KeyCode::Up => SelectorOutcome::Stay(up_from(selected as nat, count as nat) as usize),
            KeyCode::Down => SelectorOutcome::Stay(down_from(selected as nat, count as nat) as usize),
            KeyCode::Enter => SelectorOutcome::Chosen(selected),
            KeyCode::Char(c) => if c == 'c' && key.ctrl {
                SelectorOutcome::Quit
            } else {
                SelectorOutcome::Stay(selected)
            },
            KeyCode::Other => SelectorOutcome::Stay(selected),
        }
    }
}

/// The highlight after `n` presses of `Down`.
pub open spec fn downs(selected: nat, count: nat, n: nat) -> nat
    decreases n,
{
    if n == 0 {
        selected
    } else {
        down_from(downs(selected, count, (n - 1) as nat), count)
    }
}

/// The lines of the selector screen above the drive rows.
pub open spec fn selector_head() -> Seq<Seq<char>> {
    seq![
        banner_rule(),
        banner_title(),
        banner_rule(),
        Seq::empty(),
        "  \x1b[97mSelect a disk to monitor:\x1b[0m"@,
        "  \x1b[90mUse ↑ ↓ to navigate, Enter to confirm.\x1b[0m"@,
        Seq::empty(),
    ]
}

/// The whole selector screen, one row per drive, drive `selected` highlighted;
/// `numbered` rows show Windows disk numbers.
pub open spec fn selector_screen_text(disks: Seq<Disk>, selected: nat, numbered: bool) -> Seq<
    Seq<char>,
> {
    selector_head() + Seq::new(
        disks.len(),
        |i: int|
            if numbered {
                numbered_row_text(disks[i]@, i == selected)
            } else {
                row_text(disks[i]@, i == selected)
            },
    )
}

/// The selector's answer to a key. Released keys change nothing; Up and Down
/// move the highlight, wrapping around; Enter chooses the highlighted drive;
/// Ctrl+C quits.
pub fn selector_step(selected: usize, count: usize, key: KeyInput) -> (r: SelectorOutcome)
    requires
        count > 0,
        selected < count,
    ensures
        r == selector_next(selected, count, key),
        !key.pressed ==> r == SelectorOutcome::Stay(selected),
        r is Chosen ==> key.pressed && key.code == KeyCode::Enter,
        match r {
            SelectorOutcome::Stay(s) => s < count,
            SelectorOutcome::Chosen(s) => s == selected,
            SelectorOutcome::Quit => is_interrupt(key),
        },
{
    if !key.pressed {
        return SelectorOutcome::Stay(selected);
    }
    match key.code {
        KeyCode::Up => SelectorOutcome::Stay(
            if selected == 0 {
                count - 1
            } else {
                selected - 1
            },
        ),
        KeyCode::Down => SelectorOutcome::Stay((selected + 1) % count),
        KeyCode::Enter => SelectorOutcome::Chosen(selected),
        KeyCode::Char(c) => {
            if c == 'c' && key.ctrl {
                SelectorOutcome::Quit
            } else {
                SelectorOutcome::Stay(selected)
            }
        },
        KeyCode::Other => SelectorOutcome::Stay(selected),
    }
}

/// The lines of the selector screen.
pub fn selector_screen(disks: &[Disk], selected: usize, numbered: bool) -> (v: Vec<String>)
    ensures
        views(v@) == selector_screen_text(disks@, selected as nat, numbered),
{
    let mut v = header_lines();
    push_line(&mut v, String::new());
    push_line(&mut v, String::from_str("  \x1b[97mSelect a disk to monitor:\x1b[0m"));
    push_line(&mut v, String::from_str("  \x1b[90mUse ↑ ↓ to navigate, Enter to confirm.\x1b[0m"));
    push_line(&mut v, String::new());
    assert(views(v@) =~= selector_head());
    let mut i: usize = 0;
    while i < disks.len()
        invariant
            i <= disks.len(),
            views(v@) =~= selector_head() + Seq::new(
                i as nat,
                |k: int|
                    if numbered {
                        numbered_row_text(disks@[k]@, k == selected)
                    } else {
                        row_text(disks@[k]@, k == selected)
                    },
            ),
        decreases disks.len() - i,
    {
        let row = if numbered {
            numbered_disk_row(&disks[i], i == selected)
        } else {
            disk_row(&disks[i], i == selected)
        };
        push_line(&mut v, row);
        i = i + 1;
    }
    v
}

// ---------------------------------------------------------------------------
// Laws
// ---------------------------------------------------------------------------

/// Up undoes Down, and Down undoes Up.
pub proof fn law_up_down_inverse(selected: nat, count: nat)
    requires
        selected < count,
    ensures
        up_from(down_from(selected, count), count) == selected,
        down_from(up_from(selected, count), count) == selected,
{
    if selected + 1 == count {
        assert((selected + 1) % count == 0) by (nonlinear_arith)
            requires
                selected + 1 == count,
        ;
    } else {
        assert((selected + 1) % count == selected + 1) by (nonlinear_arith)
            requires
                selected + 1 < count,
        ;
    }
    if selected == 0 {
        assert(count % count == 0) by (nonlinear_arith)
            requires
                count > 0,
        ;
    } else {
        assert(selected % count == selected) by (nonlinear_arith)
            requires
                selected < count,
        ;
    }
}

/// `n` presses of Down move the highlight `n` places, wrapping around.
pub proof fn law_downs_wrap(selected: nat, count: nat, n: nat)
    requires
        selected < count,
    ensures
        downs(selected, count, n) == (selected + n) % count,
    decreases n,
{
    if n > 0 {
        law_downs_wrap(selected, count, (n - 1) as nat);
        let a: int = selected + n - 1;
        let c: int = count as int;
        vstd::arithmetic::div_mod::lemma_add_mod_noop_right(1, a, c);
        assert(((a % c) + 1) % c == (a + 1) % c);
    } else {
        vstd::arithmetic::div_mod::lemma_small_mod(selected, count);
    }
}

/// As many presses of Down as there are drives bring the highlight back.
pub proof fn law_downs_cycle(selected: nat, count: nat)
    requires
        selected < count,
    ensures
        downs(selected, count, count) == selected,
{
    law_downs_wrap(selected, count, count);
    vstd::arithmetic::div_mod::lemma_mod_add_multiples_vanish(selected as int, count as int);
    vstd::arithmetic::div_mod::lemma_small_mod(selected, count);
}

/// Every key keeps the highlight on a listed drive.
pub proof fn law_selection_stays_listed(selected: usize, count: usize, key: KeyInput)
    requires
        count > 0,
        selected < count,
    ensures
        match selector_next(selected, count, key) {
            SelectorOutcome::Stay(s) => s < count,
            SelectorOutcome::Chosen(s) => s < count,
            SelectorOutcome::Quit => true,
        },
{
    assert((selected + 1) as nat % (count as nat) < count) by (nonlinear_arith)
        requires
            count > 0,
    ;
}

/// What each key does: a key that is not pressed changes nothing; Enter
/// pressed chooses the highlighted drive and is the only way to choose; Ctrl+C
/// pressed is the only way to quit; Down moves to the next drive and from the
/// last to the first; Up moves to the previous drive and from the first to the
/// last; every other key leaves the highlight where it is.
pub proof fn law_selector_keys(selected: usize, count: usize, key: KeyInput)
    requires
        count > 0,
        selected < count,
    ensures
        !key.pressed ==> selector_next(selected, count, key) == SelectorOutcome::Stay(selected),
        key.pressed && key.code == KeyCode::Enter ==> selector_next(selected, count, key)
            == SelectorOutcome::Chosen(selected),
        selector_next(selected, count, key) is Chosen ==> key.pressed && key.code == KeyCode::Enter,
        selector_next(selected, count, key) is Quit <==> (key.pressed && key.ctrl && key.code
            == KeyCode::Char('c')),
        key.pressed && key.code == KeyCode::Down && selected + 1 < count ==> selector_next(
            selected,
            count,
            key,
        ) == SelectorOutcome::Stay((selected + 1) as usize),
        key.pressed && key.code == KeyCode::Down && selected + 1 == count ==> selector_next(
            selected,
            count,
            key,
        ) == SelectorOutcome::Stay(0),
        key.pressed && key.code == KeyCode::Up && selected > 0 ==> selector_next(selected, count, key)
            == SelectorOutcome::Stay((selected - 1) as usize),
        key.pressed && key.code == KeyCode::Up && selected == 0 ==> selector_next(selected, count, key)
            == SelectorOutcome::Stay((count - 1) as usize),
        key.pressed && (key.code == KeyCode::Other || (key.code matches KeyCode::Char(c) && !(c
            == 'c' && key.ctrl))) ==> selector_next(selected, count, key) == SelectorOutcome::Stay(
            selected,
        ),
{
    if selected + 1 < count {
        vstd::arithmetic::div_mod::lemma_small_mod((selected + 1) as nat, count as nat);
    } else if selected + 1 == count {
        vstd::arithmetic::div_mod::lemma_mod_self_0(count as int);
    }
}

} // verus!
