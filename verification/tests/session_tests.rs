use fl_convert::session::{read_report, Action, Event, Session, Task};

const GENE: [u8; 4] = [0x47, 0x65, 0x6E, 0x65];

fn encipher(plain: &[u8]) -> Vec<u8> {
    let mut out = b"FLS1".to_vec();
    for (i, b) in plain.iter().enumerate() {
        out.push(b ^ ((((GENE[i % 4] as usize + i) % 256) as u8) | 0x80));
    }
    out
}

#[test]
fn read_report_success_and_failure() {
    assert_eq!(
        read_report("Save.fl", true),
        "[INFO]: Reading Freelancer save.\r\n[INFO]: Save.fl successfully read.\r\n"
    );
    assert_eq!(
        read_report("Save.fl", false),
        "[INFO]: Reading Freelancer save.\r\n[ERROR]: Save file may be empty or corrupt.\r\n"
    );
}

#[test]
fn convert_flow_backs_up_then_writes() {
    let mut s = Session::new(Task::Convert, encipher(b"MissionNum = 1\r\n"));
    assert!(matches!(s.step(Event::Start), Action::Backup));
    match s.step(Event::BackupDone(true)) {
        Action::Write(text) => assert_eq!(text, "MissionNum = 1\r\n"),
        _ => panic!("expected a write"),
    }
    assert!(s.backed_up);
    assert!(matches!(s.step(Event::WriteDone(true)), Action::Idle));
    assert_eq!(
        s.log,
        "[INFO]: Backing up your Freelancer save.\r\n[INFO]: Backup complete.\r\n[INFO]: New save successfully written."
    );
}

#[test]
fn convert_flow_write_failure_is_logged() {
    let mut s = Session::new(Task::Convert, b"plain".to_vec());
    s.step(Event::Start);
    assert!(matches!(s.step(Event::BackupDone(true)), Action::Write(_)));
    s.step(Event::WriteDone(false));
    assert!(s.log.ends_with("[ERROR]: Failed to write new save file."));
}

#[test]
fn failed_backup_stops_the_conversion() {
    let mut s = Session::new(Task::Convert, encipher(b"x"));
    s.step(Event::Start);
    assert!(matches!(s.step(Event::BackupDone(false)), Action::Idle));
    assert!(!s.backed_up);
    assert_eq!(
        s.log,
        "[INFO]: Backing up your Freelancer save.\r\n[ERROR]: Unable to create backup of save file.\r\n"
    );
    assert!(matches!(s.step(Event::WriteDone(true)), Action::Idle));
    assert!(matches!(s.step(Event::Start), Action::Idle));
}

#[test]
fn fix_flow_backs_up_deciphers_patches_and_writes() {
    let save = b"[Player]\nMissionNum = 5\ndelta_worth = -1.000000\n";
    let mut s = Session::new(Task::Fix, encipher(save));
    assert!(matches!(s.step(Event::Start), Action::Backup));
    match s.step(Event::BackupDone(true)) {
        Action::Write(text) => {
            assert_eq!(text, "[Player]\nMissionNum = 6\ndelta_worth = 1.000000\n")
        }
        _ => panic!("expected a write"),
    }
    assert!(matches!(s.step(Event::WriteDone(true)), Action::Idle));
    assert_eq!(
        s.log,
        "[INFO]: Backing up your Freelancer save.\r\n[INFO]: Backup complete.\r\n[INFO]: New save successfully written."
    );
}

#[test]
fn fix_flow_without_mission_number_stops() {
    let mut s = Session::new(Task::Fix, b"[Player]\nname = Trent\n".to_vec());
    s.step(Event::Start);
    assert!(matches!(s.step(Event::BackupDone(true)), Action::Idle));
    assert!(s.backed_up);
    assert_eq!(
        s.log,
        "[INFO]: Backing up your Freelancer save.\r\n[INFO]: Backup complete.\r\n[ERROR]: Failed to fix save: no mission number to raise.\r\n"
    );
}

#[test]
fn fix_flow_patches_windows_saves() {
    let mut s = Session::new(Task::Fix, b"MissionNum = 12\r\n".to_vec());
    s.step(Event::Start);
    match s.step(Event::BackupDone(true)) {
        Action::Write(text) => assert_eq!(text, "MissionNum = 13\r\n"),
        _ => panic!("expected a write"),
    }
}

#[test]
fn events_out_of_order_change_nothing() {
    let mut s = Session::new(Task::Convert, b"x".to_vec());
    assert!(matches!(s.step(Event::BackupDone(true)), Action::Idle));
    assert!(matches!(s.step(Event::WriteDone(true)), Action::Idle));
    assert_eq!(s.log, "");
    assert!(!s.backed_up);
}
