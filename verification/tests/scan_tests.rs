use mcbbs::chat::{scan_chat, CHAT_PATTERN, SPAN_PATTERN};
use mcbbs::pattern::{captures, compile, Pattern};
use mcbbs::questions::{scan_questions, QuestionLog, QUESTION_PATTERN, SEEN_CAPACITY};
use mcbbs::state::{listener_info, open_info, McbbsData};
use mcbbs::thread::{
    count_from_groups, scan_reply_count, McbbsThreadData, PageOutcome, ReplyChange, ReplyScan,
    REPLY_COUNT_PATTERN,
};
use mcbbs::water::{scan_water, WaterWatch, RECENT_CAPACITY, WATER_PATTERN};

fn lines(v: &[&str]) -> Vec<String> {
    v.iter().map(|s| s.to_string()).collect()
}

fn pat(p: &str) -> Pattern {
    match compile(p) {
        Ok(p) => p,
        Err(_) => panic!("pattern refused"),
    }
}

const MARKER_LINE: &str = r#"<span class="xg1">查看:</span> <span class="xi1">900</span><span class="pipe">|</span><span class="xg1">回复:</span> <span class="xi1">56</span>"#;

#[test]
fn invalid_pattern_is_refused() {
    match compile("foo(bar") {
        Err(e) => assert_eq!(e.pattern, "foo(bar"),
        Ok(_) => panic!("accepted an invalid pattern"),
    }
}

#[test]
fn captures_lists_groups() {
    let p = pat(r"(\w)(\d)?(\w)");
    let c = captures(&p, "AZ").unwrap();
    assert_eq!(c, vec![Some("AZ".to_string()), Some("A".to_string()), None, Some("Z".to_string())]);
    assert_eq!(captures(&p, "!"), None);
}

#[test]
fn reply_count_on_marker_line() {
    let p = pat(REPLY_COUNT_PATTERN);
    let page = lines(&["<html>", MARKER_LINE, "</html>"]);
    assert!(matches!(scan_reply_count(&p, &page), ReplyScan::Count(56)));
}

#[test]
fn reply_count_on_later_line() {
    let p = pat(REPLY_COUNT_PATTERN);
    let page = lines(&[
        r#"<span class="xg1">回复:</span>"#,
        "a",
        "b",
        r#"<span class="xi1">7</span>"#,
        "c",
    ]);
    assert!(matches!(scan_reply_count(&p, &page), ReplyScan::Count(7)));
}

#[test]
fn reply_count_absent_or_broken() {
    let p = pat(REPLY_COUNT_PATTERN);
    assert!(matches!(scan_reply_count(&p, &lines(&["a", "b"])), ReplyScan::NotFound));
    // the marker with fewer than five lines left and no count
    assert!(matches!(
        scan_reply_count(&p, &lines(&[r#"<span class="xg1">回复:</span>"#, "x"])),
        ReplyScan::Malformed
    ));
    // an empty count does not parse
    assert!(matches!(
        scan_reply_count(&p, &lines(&[r#"<span class="xg1">回复 <span class="xi1"></span>"#])),
        ReplyScan::Malformed
    ));
    // a marker whose window has no count, followed by one that has
    let page = lines(&[
        r#"<span class="xg1">回复"#, "1", "2", "3", "4", "5", MARKER_LINE,
    ]);
    assert!(matches!(scan_reply_count(&p, &page), ReplyScan::Count(56)));
}

#[test]
fn count_from_groups_reads_group_one() {
    let g = vec![Some("whole".to_string()), Some("12".to_string())];
    assert!(matches!(count_from_groups(&g), ReplyScan::Count(12)));
    let g = vec![Some("whole".to_string())];
    assert!(matches!(count_from_groups(&g), ReplyScan::Malformed));
    let g = vec![Some("whole".to_string()), Some("99999999999999999999".to_string())];
    assert!(matches!(count_from_groups(&g), ReplyScan::Malformed));
}

#[test]
fn listener_tracks_reply_count() {
    let p = pat(REPLY_COUNT_PATTERN);
    let mut t = McbbsThreadData::new(123, 2000);
    assert!(t.running);
    assert_eq!(t.last_replay, 0);
    let page = lines(&[MARKER_LINE]);
    match t.on_page(&p, &page) {
        PageOutcome::Counted(ReplyChange::Increased { from: 0, to: 56 }) => {},
        _ => panic!("expected an increase"),
    }
    assert_eq!(t.last_replay, 56);
    // the same page again reports nothing
    assert!(matches!(t.on_page(&p, &page), PageOutcome::Counted(ReplyChange::Unchanged)));
    match t.observe(50) {
        ReplyChange::Decreased { from: 56, to: 50 } => {},
        _ => panic!("expected a decrease"),
    }
    assert_eq!(
        t.change_message(ReplyChange::Decreased { from: 56, to: 50 }).unwrap(),
        "https://www.mcbbs.net/thread-123-1-1.html 的回复减少了[56->50]"
    );
    assert_eq!(
        t.change_message(ReplyChange::Increased { from: 1, to: 2 }).unwrap(),
        "https://www.mcbbs.net/thread-123-1-1.html 的回复增加了[1->2]"
    );
    assert!(t.change_message(ReplyChange::Unchanged).is_none());
    assert!(matches!(t.on_page(&p, &lines(&["nothing"])), PageOutcome::NoCount));
    assert_eq!(t.last_replay, 50);
    assert_eq!(t.retry_delay_ms(), Some(5000));
    assert_eq!(McbbsThreadData::new(1, u64::MAX).retry_delay_ms(), None);
    assert_eq!(listener_info(&t), "listening tid 123 interval 2000ms with replay_count: 50");
    t.stop();
    assert!(!t.running);
}

const QUESTION_LINE: &str =
    r#"<a href="thread-1051234-1-1.html" onclick="atarget(this)" class="s xst">Forge crashes</a>"#;

#[test]
fn questions_with_reward_are_found() {
    let p = pat(QUESTION_PATTERN);
    let page = lines(&[
        QUESTION_LINE,
        "<td>",
        r#"<span class="xw1">5</span> 金粒"#,
        "</td>",
        "x",
        "y",
        r#"<a href="thread-1-2-3.html" class="s xst">No reward</a>"#,
        "a",
        "b",
        "c",
        "d",
        "e",
        "f",
    ]);
    let seen = QuestionLog::new();
    let scan = scan_questions(&p, &page, &seen);
    assert!(scan.complete);
    assert_eq!(scan.found.len(), 1);
    let q = &scan.found[0];
    assert_eq!(q.url, "thread-1051234-1-1.html");
    assert_eq!(q.title, "Forge crashes");
    assert_eq!(q.reward, ">5</span> 金粒");
    assert_eq!(q.line, QUESTION_LINE);
    assert_eq!(q.message(), "\"https://www.mcbbs.net/thread-1051234-1-1.html\" Forge crashes >5</span> 金粒");
    assert_eq!(q.page(), "https://www.mcbbs.net/thread-1051234-1-1.html");
}

#[test]
fn reward_without_tag_skips_five_bytes() {
    let p = pat(QUESTION_PATTERN);
    let page = lines(&[QUESTION_LINE, "     悬赏 10 金粒", "", "", "", ""]);
    let scan = scan_questions(&p, &page, &QuestionLog::new());
    assert!(scan.complete);
    assert_eq!(scan.found[0].reward, "悬赏 10 金粒");
    // byte 5 falls inside a character
    let page = lines(&[QUESTION_LINE, "a金粒", "", "", "", ""]);
    let scan = scan_questions(&p, &page, &QuestionLog::new());
    assert!(!scan.complete);
    assert_eq!(scan.found.len(), 0);
}

#[test]
fn questions_near_the_end_break_the_scan() {
    let p = pat(QUESTION_PATTERN);
    let page = lines(&[QUESTION_LINE, "no reward here"]);
    let scan = scan_questions(&p, &page, &QuestionLog::new());
    assert!(!scan.complete);
}

#[test]
fn seen_questions_are_not_reported_again() {
    let p = pat(QUESTION_PATTERN);
    let page = lines(&[QUESTION_LINE, r#""xw1">3 金粒"#, "", "", "", ""]);
    let mut data = McbbsData::with_cookie("c=1".to_string());
    let first = data.take_questions(&p, &page);
    assert_eq!(first.found.len(), 1);
    assert_eq!(data.questions().len(), 1);
    assert!(data.questions().contains(&QUESTION_LINE.to_string()));
    let second = data.take_questions(&p, &page);
    assert!(second.complete);
    assert_eq!(second.found.len(), 0);
    assert_eq!(data.questions().len(), 1);
}

#[test]
fn question_log_keeps_the_newest() {
    let mut log = QuestionLog::new();
    let batch: Vec<String> = (0..300).map(|i| format!("line {}", i)).collect();
    log.record(&batch);
    assert_eq!(log.len(), SEEN_CAPACITY);
    assert!(!log.contains(&"line 50".to_string()));
    assert!(log.contains(&"line 51".to_string()));
    assert!(log.contains(&"line 299".to_string()));
    log.record(&vec!["fresh".to_string()]);
    assert_eq!(log.len(), SEEN_CAPACITY);
    assert!(log.contains(&"fresh".to_string()));
    assert!(!log.contains(&"line 51".to_string()));
}

fn water_line(tid: &str, title: &str) -> String {
    format!(
        r#"<a href="forum.php?mod=viewthread&amp;tid={}&amp;extra=page%3D1" onclick="atarget(this)" class="s xst">{}</a>"#,
        tid, title
    )
}

#[test]
fn water_reports_new_recent_threads_once() {
    let p = pat(WATER_PATTERN);
    let mut w = WaterWatch::new();
    let page = vec![
        water_line("1000123", "Old"),
        water_line("1200000", "New one"),
        "noise".to_string(),
        water_line("99999999999", "Huge id"),
        water_line("1200000", "New one again"),
    ];
    let scan = scan_water(&mut w, &p, &page);
    assert!(scan.complete);
    let tids: Vec<&str> = scan.found.iter().map(|t| t.tid.as_str()).collect();
    assert_eq!(tids, vec!["1000123", "1200000", "99999999999"]);
    assert_eq!(scan.found[1].title, "New one");
    assert_eq!(scan.found[1].message(), "https://www.mcbbs.net/thread-1200000-1-1.html New one");
    assert_eq!(w.len(), 3);
    let again = scan_water(&mut w, &p, &page);
    assert_eq!(again.found.len(), 0);
    assert_eq!(w.len(), 3);
}

#[test]
fn water_skips_low_thread_ids() {
    let p = pat(WATER_PATTERN);
    let mut w = WaterWatch::new();
    let scan = scan_water(&mut w, &p, &vec![water_line("1000000", "Old"), water_line("5", "Older")]);
    assert_eq!(scan.found.len(), 0);
    assert_eq!(w.len(), 0);
}

#[test]
fn water_watch_forgets_the_oldest() {
    let mut w = WaterWatch::new();
    for i in 0..80 {
        assert!(w.observe(&format!("{}", 2000000 + i)));
    }
    assert_eq!(w.len(), RECENT_CAPACITY);
    assert!(w.observe(&"2000000".to_string()));
    assert!(!w.observe(&"2000079".to_string()));
    assert_eq!(w.len(), RECENT_CAPACITY);
}

#[test]
fn chat_entries_take_the_following_span() {
    let p = pat(CHAT_PATTERN);
    let span = pat(SPAN_PATTERN);
    let page = lines(&[
        r#"<a href="thread-1234567-1-1.html" class="s xst">Chat title</a>"#,
        r#"<a href="https://x"><span>skipped</span></a>"#,
        r#"<span title="2020-5-1">3&nbsp;分钟前</span>"#,
        r#"<a href="thread-7654321-1-1.html" class="s xst">No span</a>"#,
    ]);
    let scan = scan_chat(&p, &span, &page);
    assert!(scan.complete);
    assert_eq!(scan.found.len(), 1);
    assert_eq!(scan.found[0].content, "3 分钟前");
    assert_eq!(scan.found[0].tid, "1234567");
    assert_eq!(
        scan.found[0].message(),
        "3 分钟前 https://www.mcbbs.net/thread-1234567-1-1.html Chat title"
    );
}

#[test]
fn state_defaults_and_settings() {
    let mut d = McbbsData::with_cookie("k=v".to_string());
    assert_eq!(d.cookie(), "k=v");
    assert_eq!(d.question_cd(), 5000);
    assert_eq!(d.water_cd(), 15000);
    assert_eq!(d.cd_info(), "water_cd_ms: 15000, question_cd_ms: 5000");
    d.set_cd(mcbbs::command::CdSource::Water, 20000);
    assert_eq!(d.water_cd(), 20000);
    assert_eq!(d.question_retry_delay_ms(), Some(8000));
    assert_eq!(d.water_retry_delay_ms(), Some(30000));
    assert_eq!(open_info(true), "open enabled: true");
    assert_eq!(open_info(false), "open enabled: false");
}

#[test]
fn water_watch_moves_a_seen_id_to_the_back() {
    let mut w = WaterWatch::new();
    for t in ["a", "b", "c", "d"] {
        assert!(w.observe(&t.to_string()));
    }
    assert!(!w.observe(&"b".to_string()));
    assert_eq!(w.ids(), &vec!["a".to_string(), "d".to_string(), "c".to_string(), "b".to_string()]);
    assert!(!w.observe(&"b".to_string()));
    assert_eq!(w.ids(), &vec!["a".to_string(), "d".to_string(), "c".to_string(), "b".to_string()]);
}

#[test]
fn water_rounds_report_each_id_once() {
    let p = pat(WATER_PATTERN);
    let mut w = WaterWatch::new();
    let page1 = vec![water_line("2000001", "A"), water_line("2000002", "B")];
    let page2 = vec![water_line("2000002", "B"), water_line("2000003", "C"), water_line("2000001", "A")];
    let first = scan_water(&mut w, &p, &page1);
    let second = scan_water(&mut w, &p, &page2);
    let third = scan_water(&mut w, &p, &page1);
    let tids: Vec<String> = first
        .found
        .iter()
        .chain(second.found.iter())
        .chain(third.found.iter())
        .map(|t| t.tid.clone())
        .collect();
    assert_eq!(tids, vec!["2000001".to_string(), "2000002".to_string(), "2000003".to_string()]);
}

#[test]
fn water_watch_can_forget_the_last_id_early() {
    // Seeing a remembered id swaps it with the last one, so the id that was last can move
    // to the front and be forgotten after a single new id.
    let mut w = WaterWatch::new();
    for i in 0..70 {
        assert!(w.observe(&format!("{}", 3000000 + i)));
    }
    assert!(!w.observe(&"3000000".to_string()));
    assert!(w.observe(&"new".to_string()));
    assert!(w.observe(&"3000069".to_string()));
}

#[test]
fn chat_entries_at_most_one_per_matching_line() {
    let p = pat(CHAT_PATTERN);
    let span = pat(SPAN_PATTERN);
    let page = lines(&[
        r#"<a href="thread-1-1-1.html" class="s xst">One</a>"#,
        r#"<a href="thread-2-1-1.html" class="s xst">Two</a>"#,
        r#"<span>first</span>"#,
        r#"<span>second</span>"#,
    ]);
    let matching = page.iter().filter(|l| captures(&p, l).is_some()).count();
    let scan = scan_chat(&p, &span, &page);
    assert!(scan.complete);
    assert!(scan.found.len() <= matching);
    // both thread lines take the first span after them
    assert_eq!(scan.found.len(), 2);
    assert_eq!(scan.found[0].content, "first");
    assert_eq!(scan.found[1].content, "first");
}
