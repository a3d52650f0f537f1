use mcbbs::command::{parse_command, CdRequest, CdSource, Command, Forum, ListenRequest};

#[test]
fn forum_numbers() {
    assert!(matches!(parse_command("1\n"), Command::Questions(Forum::Vanilla)));
    assert!(matches!(parse_command(" 5 "), Command::Questions(Forum::Void)));
    assert!(matches!(parse_command("all"), Command::AllQuestions));
    assert_eq!(Forum::Mod.url(), "https://www.mcbbs.net/forum-modqanda-1.html?mobile=no");
}

#[test]
fn simple_words() {
    assert!(matches!(parse_command("water"), Command::Water));
    assert!(matches!(parse_command("on"), Command::OpenOn));
    assert!(matches!(parse_command("off"), Command::OpenOff));
    assert!(matches!(parse_command("mod"), Command::OpenModForum));
    assert!(matches!(parse_command("live"), Command::OpenLive));
    assert!(matches!(parse_command("code"), Command::CodeTemplate));
    assert!(matches!(parse_command("info"), Command::Info));
    assert!(matches!(parse_command("vw"), Command::ViewWater));
    assert!(matches!(parse_command("stop\r\n"), Command::Stop));
}

#[test]
fn listen_requests() {
    assert!(matches!(
        parse_command("listen 123 2000\n"),
        Command::Listen(ListenRequest::Start { tid: 123, cd: 2000 })
    ));
    assert!(matches!(parse_command("listen 123 999"), Command::Listen(ListenRequest::Stop { tid: 123 })));
    assert!(matches!(parse_command("listen"), Command::Listen(ListenRequest::MissingArgument)));
    assert!(matches!(parse_command("listen 123"), Command::Listen(ListenRequest::Usage)));
    assert!(matches!(parse_command("listen x 2000"), Command::Listen(ListenRequest::NotNumbers)));
    assert!(matches!(parse_command("listen 1 2 3"), Command::Listen(ListenRequest::NotNumbers)));
}

#[test]
fn cd_requests() {
    assert!(matches!(parse_command("cd water 2000"), Command::Cd(CdRequest::Assign(CdSource::Water, 2000))));
    assert!(matches!(
        parse_command("cd question 1000"),
        Command::Cd(CdRequest::Assign(CdSource::Question, 1000))
    ));
    assert!(matches!(parse_command("cd"), Command::Cd(CdRequest::Missing)));
    assert!(matches!(parse_command("cd water"), Command::Cd(CdRequest::Missing)));
    assert!(matches!(parse_command("cd water abc"), Command::Cd(CdRequest::NotNumber)));
    assert!(matches!(parse_command("cd water 999"), Command::Cd(CdRequest::TooShort(999))));
    match parse_command("cd admin 5000") {
        Command::Cd(CdRequest::UnknownSource(s)) => assert_eq!(s, "admin"),
        _ => panic!("expected an unknown source"),
    }
}

#[test]
fn links_and_votes() {
    match parse_command("view 42") {
        Command::View(u) => assert_eq!(u, "https://www.mcbbs.net/home.php?mod=space&uid=42&do=index"),
        _ => panic!("expected view"),
    }
    match parse_command("view") {
        Command::View(u) => assert_eq!(u, "https://www.mcbbs.net/home.php?mod=space&uid={UID}&do=index"),
        _ => panic!("expected view"),
    }
    match parse_command("name bob") {
        Command::Name(u) => assert_eq!(u, "https://www.mcbbs.net/home.php?mod=space&username=bob"),
        _ => panic!("expected name"),
    }
    match parse_command("name") {
        Command::Name(u) => assert_eq!(u, "https://www.mcbbs.net/home.php?mod=space&username="),
        _ => panic!("expected name"),
    }
    match parse_command("vote https://x/y") {
        Command::Vote(Some(u)) => assert_eq!(u, "https://x/y"),
        _ => panic!("expected vote"),
    }
    assert!(matches!(parse_command("vote"), Command::Vote(None)));
}

#[test]
fn other_input() {
    match parse_command("  hello world \n") {
        Command::Other(s) => assert_eq!(s, "hello world"),
        _ => panic!("expected other"),
    }
    match parse_command("") {
        Command::Other(s) => assert_eq!(s, ""),
        _ => panic!("expected other"),
    }
}

#[test]
fn surrounding_whitespace_is_ignored() {
    for line in ["\t cd water 2000 \r\n", "cd water 2000", "\u{3000}cd water 2000\u{a0}"] {
        assert!(matches!(
            parse_command(line),
            Command::Cd(CdRequest::Assign(CdSource::Water, 2000))
        ));
    }
}
