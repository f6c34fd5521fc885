use polite::status::{format_status, oom_score_adj_path, InspectionError};

#[test]
fn reports_niceness_and_adjustment() {
    assert_eq!(format_status(4242, 5, "100"), "PID 4242: niceness=5, oom_score_adj=100");
}

#[test]
fn drops_the_white_space_around_what_the_system_showed() {
    assert_eq!(format_status(4242, 5, "100\n"), "PID 4242: niceness=5, oom_score_adj=100");
    assert_eq!(format_status(1, -20, " -1000 \r\n"), "PID 1: niceness=-20, oom_score_adj=-1000");
    assert_eq!(format_status(1, 0, ""), "PID 1: niceness=0, oom_score_adj=");
    assert_eq!(format_status(1, 0, " \n"), "PID 1: niceness=0, oom_score_adj=");
    assert_eq!(format_status(7, 19, "\u{a0}5 0\t"), "PID 7: niceness=19, oom_score_adj=5 0");
}

#[test]
fn reports_as_the_format_says() {
    for (pid, nice, oom) in [(1, 0, "0\n"), (i32::MAX, 19, "1000\n"), (32768, -20, "-1000\n"), (-1, -1, "x")] {
        assert_eq!(
            format_status(pid, nice, oom),
            format!("PID {}: niceness={}, oom_score_adj={}", pid, nice, oom.trim())
        );
    }
}

#[test]
fn names_the_file_of_the_adjustment() {
    assert_eq!(oom_score_adj_path(1), "/proc/1/oom_score_adj");
    assert_eq!(oom_score_adj_path(4242), "/proc/4242/oom_score_adj");
    assert_eq!(oom_score_adj_path(i32::MAX), "/proc/2147483647/oom_score_adj");
    assert_eq!(oom_score_adj_path(-7), "/proc/-7/oom_score_adj");
}

#[test]
fn inspection_messages_say_which_reading_failed() {
    assert_eq!(InspectionError::Niceness.message("ESRCH: No such process"), "Get nice error: ESRCH: No such process");
    assert_eq!(
        InspectionError::OomScore.message("No such file or directory (os error 2)"),
        "Get oom error: No such file or directory (os error 2)"
    );
    assert_ne!(InspectionError::Niceness.message("x"), InspectionError::OomScore.message("x"));
}
