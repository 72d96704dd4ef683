use monitor_ssd::args::{Args, DEFAULT_INTERVAL};
use monitor_ssd::disk::Disk;
use monitor_ssd::monitor::{
    make_report, monitor_command, note_reading, on_sensor, report_reading, MonitorCommand,
    MonitorEvent, SensorOutcome,
};
use monitor_ssd::selector::{selector_screen, selector_step, KeyCode, KeyInput, SelectorOutcome};

fn press(code: KeyCode) -> KeyInput {
    KeyInput { code, pressed: true, ctrl: false }
}

#[test]
fn selector_moves_and_wraps() {
    assert_eq!(selector_step(0, 3, press(KeyCode::Down)), SelectorOutcome::Stay(1));
    assert_eq!(selector_step(2, 3, press(KeyCode::Down)), SelectorOutcome::Stay(0));
    assert_eq!(selector_step(0, 3, press(KeyCode::Up)), SelectorOutcome::Stay(2));
    assert_eq!(selector_step(2, 3, press(KeyCode::Up)), SelectorOutcome::Stay(1));
    assert_eq!(selector_step(0, 1, press(KeyCode::Up)), SelectorOutcome::Stay(0));
}

#[test]
fn selector_choose_quit_and_ignore() {
    assert_eq!(selector_step(1, 3, press(KeyCode::Enter)), SelectorOutcome::Chosen(1));
    let ctrl_c = KeyInput { code: KeyCode::Char('c'), pressed: true, ctrl: true };
    assert_eq!(selector_step(1, 3, ctrl_c), SelectorOutcome::Quit);
    assert_eq!(selector_step(1, 3, press(KeyCode::Char('c'))), SelectorOutcome::Stay(1));
    assert_eq!(selector_step(1, 3, press(KeyCode::Other)), SelectorOutcome::Stay(1));
    let released = KeyInput { code: KeyCode::Down, pressed: false, ctrl: false };
    assert_eq!(selector_step(1, 3, released), SelectorOutcome::Stay(1));
}

#[test]
fn selector_up_undoes_down() {
    for count in 1..6usize {
        for s in 0..count {
            let SelectorOutcome::Stay(d) = selector_step(s, count, press(KeyCode::Down)) else {
                panic!()
            };
            assert_eq!(selector_step(d, count, press(KeyCode::Up)), SelectorOutcome::Stay(s));
        }
    }
}

#[test]
fn selector_downs_cycle() {
    let count = 4;
    let mut s = 2;
    for _ in 0..count {
        let SelectorOutcome::Stay(n) = selector_step(s, count, press(KeyCode::Down)) else {
            panic!()
        };
        s = n;
    }
    assert_eq!(s, 2);
}

#[test]
fn selector_screen_lines() {
    let disks = vec![
        Disk { device_id: "sda".into(), friendly_name: "A".into(), media_type: "SSD".into(), size_bytes: 0 },
        Disk { device_id: "sdb".into(), friendly_name: "B".into(), media_type: "HDD".into(), size_bytes: 0 },
    ];
    let lines = selector_screen(&disks, 1, false);
    assert_eq!(lines.len(), 9);
    assert_eq!(lines[3], "");
    assert_eq!(lines[4], "  \x1b[97mSelect a disk to monitor:\x1b[0m");
    assert_eq!(lines[5], "  \x1b[90mUse \u{2191} \u{2193} to navigate, Enter to confirm.\x1b[0m");
    assert_eq!(lines[6], "");
    assert!(lines[7].starts_with("    \x1b[90msda"));
    assert!(lines[8].starts_with("  \x1b[96m\u{25b6} \x1b[0m\x1b[1m\x1b[97msdb"));
}

#[test]
fn monitor_commands() {
    let ctrl_c = KeyInput { code: KeyCode::Char('c'), pressed: true, ctrl: true };
    assert_eq!(monitor_command(MonitorEvent::Key(ctrl_c)), MonitorCommand::Stop);
    assert_eq!(monitor_command(MonitorEvent::Key(press(KeyCode::Char('q')))), MonitorCommand::Wait);
    let released = KeyInput { code: KeyCode::Char('c'), pressed: false, ctrl: true };
    assert_eq!(monitor_command(MonitorEvent::Key(released)), MonitorCommand::Wait);
    assert_eq!(monitor_command(MonitorEvent::Timeout), MonitorCommand::ReadSensor);
}

#[test]
fn repeated_reading_is_quiet() {
    let mut last = None;
    assert!(note_reading(40, &mut last));
    assert_eq!(last, Some(40));
    assert!(!note_reading(40, &mut last));
    assert!(note_reading(41, &mut last));
    assert_eq!(last, Some(41));
}

#[test]
fn report_only_on_change() {
    let mut last = None;
    let first = report_reading(38, &mut last, "0", "Samsung").expect("first reading is news");
    assert_eq!(first.time.len(), 8);
    assert_eq!(first.log_line, format!("[{}] Disk 0 (Samsung) | Temperature: 38°C", first.time));
    assert!(first.status_line.contains("38°C"));
    assert!(report_reading(38, &mut last, "0", "Samsung").is_none());
    assert!(report_reading(39, &mut last, "0", "Samsung").is_some());
}

#[test]
fn report_text_from_time() {
    let r = make_report("09:31:14".to_string(), 38, "0", "Samsung SSD 980 PRO 1TB");
    assert_eq!(r.log_line, "[09:31:14] Disk 0 (Samsung SSD 980 PRO 1TB) | Temperature: 38°C");
    assert!(r.status_line.starts_with("\r  [\x1b[90m09:31:14\x1b[0m] "));
}

#[test]
fn waiting_message_until_first_reading() {
    let mut last = None;
    match on_sensor(None, true, &mut last, "0", "x") {
        SensorOutcome::Waiting(m) => assert_eq!(m, "\r  \x1b[90mWaiting for sensor data...\x1b[0m"),
        _ => panic!("expected the waiting message"),
    }
    match on_sensor(None, false, &mut last, "0", "x") {
        SensorOutcome::Waiting(m) => assert!(m.ends_with("\x1b[K")),
        _ => panic!("expected the waiting message"),
    }
    assert!(matches!(on_sensor(Some(40), false, &mut last, "0", "x"), SensorOutcome::Show(_)));
    assert!(matches!(on_sensor(Some(40), false, &mut last, "0", "x"), SensorOutcome::Unchanged));
    assert!(matches!(on_sensor(None, false, &mut last, "0", "x"), SensorOutcome::Unchanged));
    assert_eq!(last, Some(40));
}

#[test]
fn args_defaults() {
    let a = Args::default();
    assert!(!a.disk);
    assert_eq!(a.interval, DEFAULT_INTERVAL);
    assert_eq!(a.interval, 3);
    assert_eq!(a.log_path(), "ssd_temp.log");
    let b = Args { disk: true, interval: 5, log: Some("/tmp/t.log".to_string()) };
    assert_eq!(b.log_path(), "/tmp/t.log");
}
