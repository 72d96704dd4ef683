//! The monitoring loop's decisions: when to stop, when to read the sensor,
//! and what a reading changes on screen and in the log. The screen and the
//! log change only when the temperature does.
use vstd::prelude::*;
use vstd::string::*;
use crate::display::{log_line, log_text, status_line, status_text, waiting_line, waiting_text};
use crate::selector::{is_interrupt, KeyCode, KeyInput};

verus! {

broadcast use vstd::string::group_string_axioms;

/// What happened while the monitor waited.
#[derive(Clone, Copy, PartialEq, Eq, Debug)]
pub enum MonitorEvent {
    /// A key event arrived.
    Key(KeyInput),
    /// The polling interval passed without an event.
    Timeout,
}

/// What the monitor does next.
#[derive(Clone, Copy, PartialEq, Eq, Debug)]
pub enum MonitorCommand {
    /// Stop monitoring.
    Stop,
    /// Read the temperature.
    ReadSensor,
    /// Go on waiting.
    Wait,
}

/// A changed reading, as logged and shown: the local time it was taken, the
/// log record and the status line.
pub struct Report {
    pub time: String,
    pub log_line: String,
    pub status_line: String,
}

/// What a sensor reading changes on screen.
pub enum SensorOutcome {
    /// A new temperature: log it and show it.
    Show(Report),
    /// No temperature yet: show this message.
    Waiting(String),
    /// Nothing to change.
    Unchanged,
}

/// The monitor's answer to an event: Ctrl+C stops it, the end of an interval
/// reads the sensor, any other key is ignored.
pub open spec fn command_for(event: MonitorEvent) -> MonitorCommand {
    match event {
        MonitorEvent::Key(k) => if is_interrupt(k) {
            MonitorCommand::Stop
        } else {
            MonitorCommand::Wait
        },
        MonitorEvent::Timeout => MonitorCommand::ReadSensor,
    }
}

/// A reading is news when it differs from the last one shown.
pub open spec fn is_news(last: Option<u8>, temp: u8) -> bool {
    last != Some(temp)
}

/// `s` is a local time `HH:MM:SS`: hour below 24, minute below 60, second up to 60.
pub open spec fn is_clock_time(s: Seq<char>) -> bool {
    &&& s.len() == 8
    &&& s[2] == ':'
    &&& s[5] == ':'
    &&& forall|i: int| 0 <= i < 8 && i != 2 && i != 5 ==> '0' <= #[trigger] s[i] <= '9'
    &&& two_digits(s, 0) < 24
    &&& two_digits(s, 3) < 60
    &&& two_digits(s, 6) <= 60
}

/// The number written by the two digits of `s` at `i`.
pub open spec fn two_digits(s: Seq<char>, i: int) -> int {
    ((s[i] as u32) - ('0' as u32)) * 10 + ((s[i + 1] as u32) - ('0' as u32))
}

/// Calls `chrono::Local::now().format("%H:%M:%S")`: the local time as hour
/// (00 to 23), minute (00 to 59) and second (00 to 60, for a leap second),
/// each zero-padded to two digits. Which time it is, nothing states.
#[verifier::external_body]
fn local_clock_time() -> (s: String)
    ensures
        is_clock_time(s@),
{
    chrono::Local::now().format("%H:%M:%S").to_string()
}

/// The monitor's answer to an event.
pub fn monitor_command(event: MonitorEvent) -> (c: MonitorCommand)
    ensures
        c == command_for(event),
{
    match event {
        MonitorEvent::Key(k) => {
            let is_c = match k.code {
                KeyCode::Char(c) => c == 'c',
                _ => false,
            };
            if k.pressed && k.ctrl && is_c {
                MonitorCommand::Stop
            } else {
                MonitorCommand::Wait
            }
        },
        MonitorEvent::Timeout => MonitorCommand::ReadSensor,
    }
}

/// Records a reading: whether it differs from the last one shown; afterwards
/// it is the last one shown.
pub fn note_reading(temp: u8, last: &mut Option<u8>) -> (news: bool)
    ensures
        news == is_news(*old(last), temp),
        *final(last) == Some(temp),
{
    let news = match *last {
        Some(t) => t != temp,
        None => true,
    };
    *last = Some(temp);
    news
}

/// The report of a reading taken at `time`.
pub fn make_report(time: String, temp: u8, disk_id: &str, disk_name: &str) -> (r: Report)
    ensures
        r.time@ == time@,
        r.log_line@ == log_text(time@, disk_id@, disk_name@, temp),
        r.status_line@ == status_text(time@, temp),
{
    let log = log_line(time.as_str(), disk_id, disk_name, temp);
    let status = status_line(time.as_str(), temp);
    Report { time, log_line: log, status_line: status }
}

/// Records a reading and, when it is news, reports it with the current local time.
pub fn report_reading(temp: u8, last: &mut Option<u8>, disk_id: &str, disk_name: &str) -> (r:
    Option<Report>)
    ensures
        r is Some <==> is_news(*old(last), temp),
        *final(last) == Some(temp),
        match r {
            Some(rep) => {
                &&& is_clock_time(rep.time@)
                &&& rep.log_line@ == log_text(rep.time@, disk_id@, disk_name@, temp)
                &&& rep.status_line@ == status_text(rep.time@, temp)
            },
            None => true,
        },
{
    if note_reading(temp, last) {
        let time = local_clock_time();
        Some(make_report(time, temp, disk_id, disk_name))
    } else {
        None
    }
}

/// What a sensor reading changes. A temperature is shown and logged when it is
/// news; without one, the waiting message is shown on the first attempt and
/// afterwards only as long as no temperature has been shown.
pub fn on_sensor(reading: Option<u8>, first: bool, last: &mut Option<u8>, disk_id: &str, disk_name: &str) -> (o: SensorOutcome)
    ensures
        match reading {
            Some(t) => {
                &&& *final(last) == Some(t)
                &&& match o {
                    SensorOutcome::Show(rep) => {
                        &&& is_news(*old(last), t)
                        &&& is_clock_time(rep.time@)
                        &&& rep.log_line@ == log_text(rep.time@, disk_id@, disk_name@, t)
                        &&& rep.status_line@ == status_text(rep.time@, t)
                    },
                    SensorOutcome::Unchanged => !is_news(*old(last), t),
                    SensorOutcome::Waiting(_) => false,
                }
            },
            None => {
                &&& *final(last) == *old(last)
                &&& match o {
                    SensorOutcome::Waiting(msg) => (first || (*old(last)) is None) && msg@ == waiting_text(first),
                    SensorOutcome::Unchanged => !first && (*old(last)) is Some,
                    SensorOutcome::Show(_) => false,
                }
            },
        },
{
    match reading {
        Some(t) => match report_reading(t, last, disk_id, disk_name) {
            Some(rep) => SensorOutcome::Show(rep),
            None => SensorOutcome::Unchanged,
        },
        None => {
            if first || last.is_none() {
                SensorOutcome::Waiting(waiting_line(first))
            } else {
                SensorOutcome::Unchanged
            }
        },
    }
}

// ---------------------------------------------------------------------------
// Laws
// ---------------------------------------------------------------------------

/// A reading equal to the one just recorded is never news: the same
/// temperature twice in a row changes the screen and the log once at most.
pub proof fn law_repeat_is_quiet(last: Option<u8>, temp: u8)
    ensures
        !is_news(Some(temp), temp),
        is_news(last, temp) <==> last != Some(temp),
{
}

/// Only Ctrl+C stops the monitor, and only the end of an interval reads the sensor.
pub proof fn law_only_interrupt_stops(event: MonitorEvent)
    ensures
        command_for(event) == MonitorCommand::Stop <==> (event matches MonitorEvent::Key(k) && k.pressed
            && k.ctrl && k.code == KeyCode::Char('c')),
        command_for(event) == MonitorCommand::Wait <==> (event matches MonitorEvent::Key(k) && !(
        k.pressed && k.ctrl && k.code == KeyCode::Char('c'))),
        command_for(event) == MonitorCommand::ReadSensor <==> event == MonitorEvent::Timeout,
{
}

} // verus!
