use mcbbs::pattern::{compile, Pattern};
use mcbbs::vote::{
    find_vote_link, join, link_from_groups, option_from_groups, page_voters, vote_page, VoteError, VoteLink, VoteSession,
    OPTION_PATTERN, VOTER_PATTERN, VOTE_LINK_PATTERN,
};

fn lines(v: &[&str]) -> Vec<String> {
    v.iter().map(|s| s.to_string()).collect()
}

fn pat(p: &str) -> Pattern {
    match compile(p) {
        Ok(p) => p,
        Err(_) => panic!("pattern refused"),
    }
}

#[test]
fn vote_link_is_found() {
    let p = pat(VOTE_LINK_PATTERN);
    let page = lines(&[
        "<div>",
        r#"<a href="forum.php?mod=misc&amp;action=viewvote&amp;tid=123" onclick="showWindow()">查看投票参与人</a>"#,
    ]);
    match find_vote_link(&p, &page) {
        VoteLink::Found(u) => assert_eq!(u, "https://www.mcbbs.net/forum.php?mod=misc&action=viewvote&tid=123"),
        _ => panic!("expected a link"),
    }
    assert!(matches!(find_vote_link(&p, &lines(&["nothing"])), VoteLink::NotFound));
}

fn first_page() -> Vec<String> {
    let mut v = lines(&[
        "<form>",
        r#"<select class="ps" name="polloptionid">"#,
        r#"<option value="0">全部</option>"#,
        r#"<option value="11">Yes</option>"#,
        r#"<option value="12">No</option>"#,
        "</select>",
    ]);
    for _ in 0..40 {
        v.push("filler".to_string());
    }
    v.push(r#"<ul class="ml mls cl voter">"#.to_string());
    v.push(r#"<li><a href="home.php?mod=space&amp;uid=1">alice</a></li>"#.to_string());
    v.push(r#"<li><a href="home.php?mod=space&amp;uid=2">bob</a></li>"#.to_string());
    v.push("</ul>".to_string());
    v.push(r#"<li><a href="home.php?mod=space&amp;uid=3">carol</a></li>"#.to_string());
    v
}

#[test]
fn vote_page_lists_options_and_voters() {
    let o = pat(OPTION_PATTERN);
    let v = pat(VOTER_PATTERN);
    let (opts, voters) = match vote_page(&o, &v, &first_page()) {
        Ok(x) => x,
        Err(_) => panic!("page refused"),
    };
    assert_eq!(opts, vec![(0, "全部".to_string()), (11, "Yes".to_string()), (12, "No".to_string())]);
    assert_eq!(voters, vec!["alice".to_string(), "bob".to_string()]);
}

#[test]
fn option_window_past_the_end_is_an_error() {
    let o = pat(OPTION_PATTERN);
    let v = pat(VOTER_PATTERN);
    let page = lines(&[r#"<select class="ps">"#, r#"<option value="1">A</option>"#]);
    assert!(matches!(vote_page(&o, &v, &page), Err(VoteError::OptionWindowPastEnd)));
}

#[test]
fn voters_of_an_option_page() {
    let v = pat(VOTER_PATTERN);
    let page = lines(&[
        "x",
        r#"<ul class="voter">"#,
        r#"<a href="u">dave</a>"#,
        "</ul>",
    ]);
    match page_voters(&v, &page) {
        Ok(n) => assert_eq!(n, vec!["dave".to_string()]),
        Err(_) => panic!("page refused"),
    }
    match page_voters(&v, &lines(&["no list"])) {
        Ok(n) => assert!(n.is_empty()),
        Err(_) => panic!("page refused"),
    }
}

#[test]
fn join_matches_std() {
    let v = vec!["a".to_string(), "b".to_string(), "c".to_string()];
    assert_eq!(join(&v, ", "), "a, b, c");
    assert_eq!(join(&Vec::new(), ", "), "");
    assert_eq!(join(&vec!["x".to_string()], ", "), "x");
}

#[test]
fn session_walks_the_options() {
    let opts = vec![(0, "全部".to_string()), (11, "Yes".to_string()), (12, "No".to_string())];
    let url = "https://www.mcbbs.net/forum.php?mod=misc&action=viewvote&tid=123".to_string();
    let mut s = match VoteSession::new(url, opts, vec!["alice".to_string(), "bob".to_string()]) {
        Ok(s) => s,
        Err(_) => panic!("session refused"),
    };
    assert_eq!(
        s.next_request().unwrap(),
        "https://www.mcbbs.net/forum.php?mod=misc&action=viewvote&tid=123&polloptionid=11"
    );
    assert_eq!(s.pending_option(), Some(11));
    s.record(vec!["alice".to_string()]);
    assert_eq!(
        s.next_request().unwrap(),
        "https://www.mcbbs.net/forum.php?mod=misc&action=viewvote&tid=123&polloptionid=12"
    );
    s.record(vec![]);
    assert!(s.next_request().is_none());
    assert_eq!(s.pending_option(), None);
    assert_eq!(s.gathered(), 3);
    assert_eq!(
        s.report(),
        vec![
            "[01] #02 全部: alice, bob".to_string(),
            "[02] #01 Yes: alice".to_string(),
            "[03] #00 No: ".to_string(),
        ]
    );
}

#[test]
fn session_needs_an_option() {
    assert!(matches!(
        VoteSession::new("u".to_string(), vec![], vec![]),
        Err(VoteError::NoOptions)
    ));
}

#[test]
fn groups_of_single_matches() {
    let g = vec![Some("whole".to_string()), Some("a.php?x=1&amp;y=2".to_string())];
    assert_eq!(link_from_groups(&g).unwrap(), "https://www.mcbbs.net/a.php?x=1&y=2");
    assert_eq!(link_from_groups(&vec![Some("w".to_string())]), None);
    let o = vec![Some("w".to_string()), Some("17".to_string()), Some("Yes".to_string())];
    assert_eq!(option_from_groups(&o), Some((17, "Yes".to_string())));
    let bad = vec![Some("w".to_string()), Some("4294967296".to_string()), Some("Yes".to_string())];
    assert_eq!(option_from_groups(&bad), None);
}
