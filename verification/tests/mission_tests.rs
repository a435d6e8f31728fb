use fl_convert::mission::{find_mission_line, fix_save};
use fl_convert::SaveError;

#[test]
fn fix_increments_mission_and_delta() {
    let save = "[Mission]\nMissionNum = 5\n[Rep]\ndelta_worth = -1.000000\n".to_string();
    assert_eq!(
        fix_save(save).unwrap(),
        "[Mission]\nMissionNum = 6\n[Rep]\ndelta_worth = 1.000000\n"
    );
}

#[test]
fn fix_windows_line_ends() {
    let save = "MissionNum = 5\r\ndelta_worth = -1.000000\r\n".to_string();
    assert_eq!(fix_save(save).unwrap(), "MissionNum = 6\r\ndelta_worth = 1.000000\r\n");
}

#[test]
fn fix_nine_becomes_ten() {
    assert_eq!(fix_save("MissionNum = 9".to_string()).unwrap(), "MissionNum = 10");
}

#[test]
fn fix_raises_the_whole_number_by_one() {
    assert_eq!(fix_save("MissionNum = 19\n".to_string()).unwrap(), "MissionNum = 20\n");
    assert_eq!(fix_save("MissionNum = 55\n".to_string()).unwrap(), "MissionNum = 56\n");
    assert_eq!(fix_save("MissionNum = 11 \t\r\n".to_string()).unwrap(), "MissionNum = 12 \t\r\n");
    assert_eq!(fix_save("MissionNum = 007\n".to_string()).unwrap(), "MissionNum = 8\n");
    assert_eq!(fix_save("MissionNum = -1\n".to_string()).unwrap(), "MissionNum = 0\n");
}

#[test]
fn fix_replaces_every_copy_of_the_line() {
    let save = "MissionNum = 3\nx\nMissionNum = 3\n".to_string();
    assert_eq!(fix_save(save).unwrap(), "MissionNum = 4\nx\nMissionNum = 4\n");
}

#[test]
fn fix_uses_first_matching_line_only() {
    let save = "MissionNum = 2\nMissionNum = 7\n".to_string();
    assert_eq!(fix_save(save).unwrap(), "MissionNum = 3\nMissionNum = 7\n");
}

#[test]
fn fix_skips_key_at_end_of_line() {
    let save = "MissionNum\nMissionNum=4".to_string();
    assert_eq!(fix_save(save).unwrap(), "MissionNum\nMissionNum=5");
}

#[test]
fn fix_all_negative_deltas() {
    let save = "MissionNum 1\ndelta_worth = -1.000000\ndelta_worth = -1.000000\n".to_string();
    assert_eq!(
        fix_save(save).unwrap(),
        "MissionNum 2\ndelta_worth = 1.000000\ndelta_worth = 1.000000\n"
    );
}

#[test]
fn fix_without_mission_line_is_not_found() {
    assert_eq!(fix_save("[Player]\ndelta_worth = -1.000000\n".to_string()), Err(SaveError::NotFound));
    assert_eq!(fix_save("MissionNum".to_string()), Err(SaveError::NotFound));
    assert_eq!(fix_save(String::new()), Err(SaveError::NotFound));
}

#[test]
fn fix_without_a_number_is_invalid() {
    assert_eq!(fix_save("MissionNum = x\n".to_string()), Err(SaveError::InvalidData));
    assert_eq!(fix_save("MissionNum = \r\n".to_string()), Err(SaveError::InvalidData));
    assert_eq!(fix_save("MissionNum = 2147483647\n".to_string()), Err(SaveError::InvalidData));
    assert_eq!(fix_save("MissionNum = 99999999999\n".to_string()), Err(SaveError::InvalidData));
}

#[test]
fn fix_zero_becomes_one_and_keeps_other_text() {
    let save = "[Player]\nname = Trent\nMissionNum = 0\nmoney = 2000\n".to_string();
    assert_eq!(
        fix_save(save).unwrap(),
        "[Player]\nname = Trent\nMissionNum = 1\nmoney = 2000\n"
    );
}

#[test]
fn fix_leaves_positive_delta_alone() {
    let save = "MissionNum = 4\ndelta_worth = 1.000000\ndelta_worth = -0.500000\n".to_string();
    assert_eq!(
        fix_save(save).unwrap(),
        "MissionNum = 5\ndelta_worth = 1.000000\ndelta_worth = -0.500000\n"
    );
}

#[test]
fn mission_line_runs_to_the_end_of_its_line() {
    assert_eq!(find_mission_line("a\nMissionNum = 12\r\nb"), Some("MissionNum = 12\r".to_string()));
    assert_eq!(find_mission_line("MissionNum\nxMissionNumé"), Some("MissionNumé".to_string()));
    assert_eq!(find_mission_line("missionnum = 3"), None);
    assert_eq!(find_mission_line(""), None);
}
