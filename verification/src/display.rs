//! The texts the monitor writes: the temperature bar, the banner, the status
//! line, the log record and the monitoring screen.
use vstd::prelude::*;
use vstd::string::*;
use crate::text::{center, dec, push_centered, push_decimal, push_repeat, repeat_char};

verus! {

broadcast use vstd::string::group_string_axioms;

/// Number of cells in the temperature bar.
pub const BAR_CELLS: usize = 20;

/// Width of the banner.
pub const BANNER_WIDTH: usize = 54;

/// Color of the bar: green below 40 °C, yellow from 40 to 55 °C, red above.
pub open spec fn temp_color(temp: u8) -> Seq<char> {
    if temp < 40 {
        "\x1b[92m"@
    } else if temp <= 55 {
        "\x1b[93m"@
    } else {
        "\x1b[91m"@
    }
}

/// Filled cells of the bar: one per 5 °C, at most all twenty.
pub open spec fn bar_filled(temp: u8) -> nat {
    let f: nat = (temp as nat * 20) / 100;
    if f < 20 {
        f
    } else {
        20
    }
}

/// The colored temperature bar, e.g. `[████░░…] 38°C`.
pub open spec fn temp_bar(temp: u8) -> Seq<char> {
    temp_color(temp) + "["@ + repeat_char('█', bar_filled(temp)) + repeat_char(
        '░',
        (20 - bar_filled(temp)) as nat,
    ) + "] "@ + dec(temp as nat) + "°C\x1b[0m"@
}

/// The ruled line of the banner.
pub open spec fn banner_rule() -> Seq<char> {
    "\x1b[96m"@ + repeat_char('=', 54) + "\x1b[0m"@
}

/// The title line of the banner.
pub open spec fn banner_title() -> Seq<char> {
    "\x1b[96m\x1b[1m"@ + center("SSD TEMPERATURE MONITOR"@, 54) + "\x1b[0m"@
}

/// The status line shown in place for a new reading.
pub open spec fn status_text(now: Seq<char>, temp: u8) -> Seq<char> {
    "\r  [\x1b[90m"@ + now + "\x1b[0m] "@ + temp_bar(temp) + "\x1b[K"@
}

/// The log record of a new reading.
pub open spec fn log_text(now: Seq<char>, disk_id: Seq<char>, disk_name: Seq<char>, temp: u8) -> Seq<
    char,
> {
    "["@ + now + "] Disk "@ + disk_id + " ("@ + disk_name + ") | Temperature: "@ + dec(temp as nat)
        + "°C"@
}

/// The message shown while no reading has arrived; after the first attempt it
/// also clears the rest of the line.
pub open spec fn waiting_text(first: bool) -> Seq<char> {
    if first {
        "\r  \x1b[90mWaiting for sensor data...\x1b[0m"@
    } else {
        "\r  \x1b[90mWaiting for sensor data...\x1b[0m\x1b[K"@
    }
}

/// The farewell written when monitoring stops.
pub open spec fn goodbye() -> Seq<char> {
    "\r\n\r\n  \x1b[96mMonitor stopped. Goodbye!\x1b[0m\r\n"@
}

/// The lines under the banner of the monitoring screen.
pub open spec fn intro_lines(disk_label: Seq<char>, disk_name: Seq<char>, log_path: Seq<char>) -> Seq<
    Seq<char>,
> {
    seq![
        Seq::empty(),
        "  Monitoring: \x1b[93m"@ + disk_name + "\x1b[0m  \x1b[90m("@ + disk_label + ")\x1b[0m"@,
        "  Log file:   \x1b[93m"@ + log_path + "\x1b[0m"@,
        "  \x1b[90mPress Ctrl+C to quit.\x1b[0m"@,
        Seq::empty(),
    ]
}

/// The views of a vector of strings.
pub open spec fn views(v: Seq<String>) -> Seq<Seq<char>> {
    v.map_values(|s: String| s@)
}

/// Appends a line to a screen.
pub fn push_line(v: &mut Vec<String>, line: String)
    ensures
        views(final(v)@) == views(old(v)@).push(line@),
{
    v.push(line);
    assert(views(v@) =~= views(old(v)@).push(line@));
}

/// The colored temperature bar for `temp` °C: the color of its band, twenty
/// cells of which one per 5 °C is filled, and the temperature.
pub fn build_temp_bar(temp: u8) -> (s: String)
    ensures
        s@ == temp_bar(temp),
{
    let mut s = String::new();
    if temp < 40 {
        s.append("\x1b[92m");
    } else if temp <= 55 {
        s.append("\x1b[93m");
    } else {
        s.append("\x1b[91m");
    }
    let raw: usize = (temp as usize * 20) / 100;
    let filled: usize = if raw < BAR_CELLS {
        raw
    } else {
        BAR_CELLS
    };
    s.append("[");
    push_repeat(&mut s, '█', filled);
    push_repeat(&mut s, '░', BAR_CELLS - filled);
    s.append("] ");
    push_decimal(&mut s, temp as u128);
    s.append("°C\x1b[0m");
    assert(s@ =~= temp_bar(temp));
    s
}

/// The three lines of the banner.
pub fn header_lines() -> (v: Vec<String>)
    ensures
        views(v@) == seq![banner_rule(), banner_title(), banner_rule()],
{
    let mut rule = String::new();
    rule.append("\x1b[96m");
    push_repeat(&mut rule, '=', BANNER_WIDTH);
    rule.append("\x1b[0m");
    let mut title = String::new();
    title.append("\x1b[96m\x1b[1m");
    push_centered(&mut title, "SSD TEMPERATURE MONITOR", BANNER_WIDTH);
    title.append("\x1b[0m");
    let rule2 = rule.clone();
    let v = vec![rule, title, rule2];
    assert(views(v@) =~= seq![banner_rule(), banner_title(), banner_rule()]);
    v
}

/// The status line for a reading taken at `now`.
pub fn status_line(now: &str, temp: u8) -> (s: String)
    ensures
        s@ == status_text(now@, temp),
{
    let mut s = String::new();
    s.append("\r  [\x1b[90m");
    s.append(now);
    s.append("\x1b[0m] ");
    let bar = build_temp_bar(temp);
    s.append(bar.as_str());
    s.append("\x1b[K");
    assert(s@ =~= status_text(now@, temp));
    s
}

/// The log record for a reading taken at `now`.
pub fn log_line(now: &str, disk_id: &str, disk_name: &str, temp: u8) -> (s: String)
    ensures
        s@ == log_text(now@, disk_id@, disk_name@, temp),
{
    let mut s = String::new();
    s.append("[");
    s.append(now);
    s.append("] Disk ");
    s.append(disk_id);
    s.append(" (");
    s.append(disk_name);
    s.append(") | Temperature: ");
    push_decimal(&mut s, temp as u128);
    s.append("°C");
    assert(s@ =~= log_text(now@, disk_id@, disk_name@, temp));
    s
}

/// The waiting message.
pub fn waiting_line(first: bool) -> (s: String)
    ensures
        s@ == waiting_text(first),
{
    if first {
        String::from_str("\r  \x1b[90mWaiting for sensor data...\x1b[0m")
    } else {
        String::from_str("\r  \x1b[90mWaiting for sensor data...\x1b[0m\x1b[K")
    }
}

/// The farewell message.
pub fn goodbye_line() -> (s: String)
    ensures
        s@ == goodbye(),
{
    String::from_str("\r\n\r\n  \x1b[96mMonitor stopped. Goodbye!\x1b[0m\r\n")
}

/// The lines under the banner of the monitoring screen; `disk_label` is the
/// text shown in brackets after the drive's name.
pub fn intro(disk_label: &str, disk_name: &str, log_path: &str) -> (v: Vec<String>)
    ensures
        views(v@) == intro_lines(disk_label@, disk_name@, log_path@),
{
    let mut monitoring = String::new();
    monitoring.append("  Monitoring: \x1b[93m");
    monitoring.append(disk_name);
    monitoring.append("\x1b[0m  \x1b[90m(");
    monitoring.append(disk_label);
    monitoring.append(")\x1b[0m");
    let mut log = String::new();
    log.append("  Log file:   \x1b[93m");
    log.append(log_path);
    log.append("\x1b[0m");
    let quit = String::from_str("  \x1b[90mPress Ctrl+C to quit.\x1b[0m");
    let v = vec![String::new(), monitoring, log, quit, String::new()];
    assert(views(v@) =~= intro_lines(disk_label@, disk_name@, log_path@));
    v
}

/// The bar's color follows the README's bands: green below 40 °C, yellow from
/// 40 to 55 °C, red above 55 °C; the three codes differ.
pub proof fn law_bar_color_bands(temp: u8)
    ensures
        temp < 40 ==> temp_color(temp) == "\x1b[92m"@,
        40 <= temp <= 55 ==> temp_color(temp) == "\x1b[93m"@,
        55 < temp ==> temp_color(temp) == "\x1b[91m"@,
        "\x1b[92m"@ != "\x1b[93m"@ && "\x1b[93m"@ != "\x1b[91m"@ && "\x1b[92m"@ != "\x1b[91m"@,
{
    reveal_strlit("\x1b[92m");
    reveal_strlit("\x1b[93m");
    reveal_strlit("\x1b[91m");
    assert("\x1b[92m"@[3] != "\x1b[93m"@[3]);
    assert("\x1b[93m"@[3] != "\x1b[91m"@[3]);
    assert("\x1b[92m"@[3] != "\x1b[91m"@[3]);
}

/// The bar always has twenty cells, and a hotter drive never shows fewer filled ones.
pub proof fn law_bar_fill(cooler: u8, hotter: u8)
    requires
        cooler <= hotter,
    ensures
        bar_filled(cooler) <= bar_filled(hotter),
        bar_filled(hotter) <= 20,
        repeat_char('█', bar_filled(hotter)).len() + repeat_char('░', (20 - bar_filled(hotter)) as nat).len() == 20,
        hotter >= 100 ==> bar_filled(hotter) == 20,
        hotter < 100 ==> bar_filled(hotter) == hotter / 5,
{
    assert(hotter < 100 ==> (hotter as nat * 20) / 100 == hotter / 5) by (nonlinear_arith);
    assert((cooler as nat * 20) / 100 <= (hotter as nat * 20) / 100) by (nonlinear_arith)
        requires
            cooler <= hotter,
    ;
    assert(hotter >= 100 ==> (hotter as nat * 20) / 100 >= 20) by (nonlinear_arith);
}

} // verus!
