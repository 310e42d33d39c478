use sonar::panel::{
    cleared, closing, drain_log, drain_servers, is_copied, log, opening, server_text_to_copy,
    stamped, Diagnosis,
};

#[test]
fn message_is_stamped() {
    assert_eq!(stamped("07:05:59", "hello"), "[07:05:59] hello\n");
    assert_eq!(stamped("07:05:59", ""), "[07:05:59] \n");
}

#[test]
fn logged_message_carries_the_time_of_day() {
    let mut buf: Vec<String> = vec![String::from("before")];
    log(&mut buf, "你好");
    assert_eq!(buf.len(), 2);
    assert_eq!(buf[0], "before");
    let line: Vec<char> = buf[1].chars().collect();
    assert_eq!(line.len(), 14);
    let time: String = line[1..9].iter().collect();
    assert_eq!(buf[1], stamped(&time, "你好"));
    for (at, c) in time.chars().enumerate() {
        if at == 2 || at == 5 {
            assert_eq!(c, ':');
        } else {
            assert!(c.is_ascii_digit());
        }
    }
    let hour: u32 = time[0..2].parse().unwrap();
    let minute: u32 = time[3..5].parse().unwrap();
    let second: u32 = time[6..8].parse().unwrap();
    assert!(hour < 24 && minute < 60 && second < 60);
}

#[test]
fn log_is_shown_in_order_and_once() {
    let mut buf: Vec<String> = vec![String::from("b\n"), String::from("c\n")];
    assert_eq!(drain_log("a\n", &mut buf), Some(String::from("a\nb\nc\n")));
    assert_eq!(buf.len(), 0);
    assert_eq!(drain_log("a\nb\nc\n", &mut buf), None);
    buf.push(String::from("d\n"));
    assert_eq!(drain_log("a\nb\nc\n", &mut buf), Some(String::from("a\nb\nc\nd\n")));
}

#[test]
fn servers_are_shown_line_by_line() {
    let mut buf: Vec<String> = Vec::new();
    assert_eq!(drain_servers(&mut buf), None);
    buf.push(String::from("one"));
    assert_eq!(drain_servers(&mut buf), Some(String::from("one")));
    buf.push(String::from("one"));
    buf.push(String::from("two"));
    buf.push(String::from("three"));
    assert_eq!(drain_servers(&mut buf), Some(String::from("one\ntwo\nthree")));
    assert_eq!(buf.len(), 0);
}

#[test]
fn placeholder_is_not_copied() {
    assert_eq!(server_text_to_copy(String::from("（暂无）")), "");
    assert_eq!(server_text_to_copy(String::from("10.0.0.1")), "10.0.0.1");
    assert_eq!(server_text_to_copy(String::new()), "");
    assert_eq!(cleared(), (String::new(), String::from("（暂无）")));
    assert!(is_copied("x"));
    assert!(!is_copied(""));
}

#[test]
fn diagnosis_has_a_title() {
    let rule = "========================================";
    assert_eq!(opening(Diagnosis::FullScan), vec![rule, " 开始全面 DHCP 发现", rule]);
    assert_eq!(opening(Diagnosis::LoopTest), vec![rule, " 网络环路检测开始", rule]);
}

#[test]
fn diagnosis_has_an_end() {
    let rule = "========================================";
    assert_eq!(
        closing(Diagnosis::FullScan, &Ok(())),
        vec!["", rule, " 全面 DHCP 发现扫描完成", rule]
    );
    assert_eq!(
        closing(Diagnosis::LoopTest, &Err(String::from("oops"))),
        vec!["[错误] oops", "", rule, " 网络环路检测完成", rule]
    );
}
