use wmpf_debugger::frida::{
    extract_version, find_most_common_pid, select_target, Process, Target, TargetError,
};

fn p(pid: u32, ppid: u32, name: &str, path: &str) -> Process {
    Process { pid, name: name.to_string(), path: path.to_string(), ppid }
}

const HOST: &str = "WeChatAppEx.exe";
const HOST_PATH: &str =
    "C:\\Users\\me\\AppData\\Roaming\\Tencent\\WeChat\\XPlugin\\Plugins\\RadiumWMPF\\14185\\extracted\\runtime\\WeChatAppEx.exe";

#[test]
fn most_common_parent_is_found() {
    let ps = vec![
        p(10, 1, HOST, ""),
        p(11, 2, HOST, ""),
        p(12, 2, HOST, ""),
        p(13, 0, HOST, ""),
    ];
    assert_eq!(find_most_common_pid(&ps), Some(2));
}

#[test]
fn process_without_parent_counts_as_its_own_group() {
    let ps = vec![p(7, 0, HOST, ""), p(8, 7, HOST, ""), p(9, 3, HOST, "")];
    assert_eq!(find_most_common_pid(&ps), Some(7));
}

#[test]
fn no_process_has_no_parent() {
    assert_eq!(find_most_common_pid(&Vec::new()), None);
}

#[test]
fn version_is_the_last_large_number_in_the_path() {
    let ps = vec![p(5, 2, HOST, HOST_PATH)];
    assert_eq!(extract_version(&ps, 2), Some(14185));
    let ps = vec![p(5, 2, HOST, "C:\\a\\9158\\b\\12\\c999")];
    assert_eq!(extract_version(&ps, 2), Some(9158));
}

#[test]
fn version_skips_numbers_too_large_for_u32() {
    let ps = vec![p(5, 2, HOST, "x\\2001\\y\\99999999999")];
    assert_eq!(extract_version(&ps, 2), Some(2001));
}

#[test]
fn version_comes_from_first_process_of_the_group() {
    let ps = vec![
        p(4, 1, HOST, "C:\\5000\\a"),
        p(5, 2, HOST, "C:\\a"),
        p(6, 2, HOST, "C:\\7777\\a"),
    ];
    assert_eq!(extract_version(&ps, 2), None);
    assert_eq!(extract_version(&ps, 1), Some(5000));
}

#[test]
fn version_missing_without_group_or_number() {
    let ps = vec![p(5, 2, HOST, "C:\\1000\\0\\")];
    assert_eq!(extract_version(&ps, 2), None);
    assert_eq!(extract_version(&ps, 3), None);
    let ps = vec![p(5, 2, HOST, "")];
    assert_eq!(extract_version(&ps, 2), None);
}

#[test]
fn target_is_selected_among_hosts() {
    let ps = vec![
        p(1, 0, "explorer.exe", "C:\\Windows\\99999\\explorer.exe"),
        p(20, 4, HOST, HOST_PATH),
        p(21, 4, HOST, HOST_PATH),
        p(30, 1, "WeChat.exe", "C:\\x"),
        p(31, 30, "WeChat.exe", "C:\\x"),
        p(32, 30, "WeChat.exe", "C:\\x"),
    ];
    assert_eq!(select_target(&ps), Ok(Target { host_count: 2, pid: 4, version: 14185 }));
}

#[test]
fn target_not_found_without_hosts() {
    let ps = vec![p(1, 0, "WeChat.exe", "C:\\12345\\x")];
    assert_eq!(select_target(&ps), Err(TargetError::NotFound));
    assert_eq!(select_target(&Vec::new()), Err(TargetError::NotFound));
}

#[test]
fn target_without_version() {
    let ps = vec![p(20, 4, HOST, "C:\\no\\digits")];
    assert_eq!(select_target(&ps), Err(TargetError::NoVersion { host_count: 1 }));
}
