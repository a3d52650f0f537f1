use vstd::prelude::*;
use crate::numbers::{parse_u32, parse_u64, spec_parse_unsigned};
use crate::text::{
    chars_of, is_whitespace, push_all, push_str, spec_split_once, spec_trim, spec_trim_end,
    spec_trim_start, split_once, string_from_chars, trim_chars,
};

verus! {

/// The question forums that can be watched.
pub enum Forum {
    Vanilla,
    Multiplayer,
    Mod,
    Around,
    Void,
}

impl Forum {
    /// The address of the forum's question list.
    pub fn url(&self) -> (r: &'static str)
        ensures
            r@ == spec_forum_url(*self),
    {
        match self {
            Forum::Vanilla => "https://www.mcbbs.net/forum-qanda-1.html?mobile=no",
            Forum::Multiplayer => "https://www.mcbbs.net/forum-multiqanda-1.html?mobile=no",
            Forum::Mod => "https://www.mcbbs.net/forum-modqanda-1.html?mobile=no",
            Forum::Around => "https://www.mcbbs.net/forum-etcqanda-1.html?mobile=no",
            Forum::Void => "https://www.mcbbs.net/forum-peqanda-1.html?mobile=no",
        }
    }
}

/// The address of a forum's question list.
pub open spec fn spec_forum_url(f: Forum) -> Seq<char> {
    match f {
        Forum::Vanilla => "https://www.mcbbs.net/forum-qanda-1.html?mobile=no"@,
        Forum::Multiplayer => "https://www.mcbbs.net/forum-multiqanda-1.html?mobile=no"@,
        Forum::Mod => "https://www.mcbbs.net/forum-modqanda-1.html?mobile=no"@,
        Forum::Around => "https://www.mcbbs.net/forum-etcqanda-1.html?mobile=no"@,
        Forum::Void => "https://www.mcbbs.net/forum-peqanda-1.html?mobile=no"@,
    }
}

/// What `listen <tid> <cd>` asks for.
pub enum ListenRequest {
    /// `listen` with nothing after it; the console stops on it.
    MissingArgument,
    /// Fewer than two arguments.
    Usage,
    /// The thread id is not a `u32` or the interval not a `u64`.
    NotNumbers,
    /// An interval under 1000 ms stops listening to the thread.
    Stop { tid: u32 },
    /// Listen to the thread every `cd` ms.
    Start { tid: u32, cd: u64 },
}

/// Which interval `cd <source> <ms>` sets.
pub enum CdSource {
    Water,
    Question,
}

/// What `cd <source> <ms>` asks for.
pub enum CdRequest {
    /// Fewer than two arguments.
    Missing,
    /// The interval is not a `u64`.
    NotNumber,
    /// The interval is under 1000 ms.
    TooShort(u64),
    Assign(CdSource, u64),
    /// The source is neither `water` nor `question`.
    UnknownSource(String),
}

/// The plain content of a `CdRequest`.
pub enum CdRequestView {
    Missing,
    NotNumber,
    TooShort(u64),
    Assign(CdSource, u64),
    UnknownSource(Seq<char>),
}

/// A command of the console.
pub enum Command {
    /// `1` to `5`: watch one question forum.
    Questions(Forum),
    /// `all`: watch every question forum.
    AllQuestions,
    /// `water`: watch the newest threads.
    Water,
    /// `on` / `off`: open found threads in the browser, or not.
    OpenOn,
    OpenOff,
    /// `mod`: open the mod forum's list.
    OpenModForum,
    /// `live`: open the live page.
    OpenLive,
    /// `code`: print the code block template.
    CodeTemplate,
    /// `info`: print the settings.
    Info,
    Listen(ListenRequest),
    Cd(CdRequest),
    /// `vw`: list the chat forum.
    ViewWater,
    /// `vote <url>`: the voters of a vote; `None` unless there is exactly one argument.
    Vote(Option<String>),
    /// `view [uid]`: the address of a user's page.
    View(String),
    /// `name [name]`: open a user's page by name.
    Name(String),
    /// `stop`: leave.
    Stop,
    /// Anything else, trimmed.
    Other(String),
}

/// The plain content of a `Command`.
pub enum CommandView {
    Questions(Forum),
    AllQuestions,
    Water,
    OpenOn,
    OpenOff,
    OpenModForum,
    OpenLive,
    CodeTemplate,
    Info,
    Listen(ListenRequest),
    Cd(CdRequestView),
    ViewWater,
    Vote(Option<Seq<char>>),
    View(Seq<char>),
    Name(Seq<char>),
    Stop,
    Other(Seq<char>),
}

impl View for CdRequest {
    type V = CdRequestView;

    open spec fn view(&self) -> CdRequestView {
        match self {
            CdRequest::Missing => CdRequestView::Missing,
            CdRequest::NotNumber => CdRequestView::NotNumber,
            CdRequest::TooShort(c) => CdRequestView::TooShort(*c),
            CdRequest::Assign(s, c) => CdRequestView::Assign(*s, *c),
            CdRequest::UnknownSource(s) => CdRequestView::UnknownSource(s@),
        }
    }
}

impl View for Command {
    type V = CommandView;

    open spec fn view(&self) -> CommandView {
        match self {
            Command::Questions(f) => CommandView::Questions(*f),
            Command::AllQuestions => CommandView::AllQuestions,
            Command::Water => CommandView::Water,
            Command::OpenOn => CommandView::OpenOn,
            Command::OpenOff => CommandView::OpenOff,
            Command::OpenModForum => CommandView::OpenModForum,
            Command::OpenLive => CommandView::OpenLive,
            Command::CodeTemplate => CommandView::CodeTemplate,
            Command::Info => CommandView::Info,
            Command::Listen(l) => CommandView::Listen(*l),
            Command::Cd(c) => CommandView::Cd(c@),
            Command::ViewWater => CommandView::ViewWater,
            Command::Vote(u) => CommandView::Vote(
                match u {
                    Some(s) => Some(s@),
                    None => None,
                },
            ),
            Command::View(s) => CommandView::View(s@),
            Command::Name(s) => CommandView::Name(s@),
            Command::Stop => CommandView::Stop,
            Command::Other(s) => CommandView::Other(s@),
        }
    }
}

/// `listen` followed by `rest` (`None` when nothing follows).
pub open spec fn spec_listen(rest: Option<Seq<char>>) -> ListenRequest {
    match rest {
        None => ListenRequest::MissingArgument,
        Some(r) => {
            let args = spec_split_once(r, ' ');
            match args.1 {
                None => ListenRequest::Usage,
                Some(cd_text) => match (
                    spec_parse_unsigned(args.0, u32::MAX as int),
                    spec_parse_unsigned(cd_text, u64::MAX as int),
                ) {
                    (Some(tid), Some(cd)) => if cd < 1000 {
                        ListenRequest::Stop { tid: tid as u32 }
                    } else {
                        ListenRequest::Start { tid: tid as u32, cd: cd as u64 }
                    },
                    _ => ListenRequest::NotNumbers,
                },
            }
        },
    }
}

/// `cd` followed by `rest` (`None` when nothing follows).
pub open spec fn spec_cd(rest: Option<Seq<char>>) -> CdRequestView {
    match rest {
        None => CdRequestView::Missing,
        Some(r) => {
            let args = spec_split_once(r, ' ');
            match args.1 {
                None => CdRequestView::Missing,
                Some(cd_text) => match spec_parse_unsigned(cd_text, u64::MAX as int) {
                    None => CdRequestView::NotNumber,
                    Some(cd) => if cd < 1000 {
                        CdRequestView::TooShort(cd as u64)
                    } else if args.0 == "water"@ {
                        CdRequestView::Assign(CdSource::Water, cd as u64)
                    } else if args.0 == "question"@ {
                        CdRequestView::Assign(CdSource::Question, cd as u64)
                    } else {
                        CdRequestView::UnknownSource(args.0)
                    },
                },
            }
        },
    }
}

/// The command given by an input line: it is trimmed, and its first word (up to the first
/// space) chooses the command, the rest being its argument.
pub open spec fn spec_command(line: Seq<char>) -> CommandView {
    let input = spec_trim(line);
    let parts = spec_split_once(input, ' ');
    let head = parts.0;
    let rest = parts.1;
    if head == "1"@ {
        CommandView::Questions(Forum::Vanilla)
    } else if head == "2"@ {
        CommandView::Questions(Forum::Multiplayer)
    } else if head == "3"@ {
        CommandView::Questions(Forum::Mod)
    } else if head == "4"@ {
        CommandView::Questions(Forum::Around)
    } else if head == "5"@ {
        CommandView::Questions(Forum::Void)
    } else if head == "all"@ {
        CommandView::AllQuestions
    } else if head == "water"@ {
        CommandView::Water
    } else if head == "on"@ {
        CommandView::OpenOn
    } else if head == "off"@ {
        CommandView::OpenOff
    } else if head == "mod"@ {
        CommandView::OpenModForum
    } else if head == "live"@ {
        CommandView::OpenLive
    } else if head == "code"@ {
        CommandView::CodeTemplate
    } else if head == "info"@ {
        CommandView::Info
    } else if head == "listen"@ {
        CommandView::Listen(spec_listen(rest))
    } else if head == "cd"@ {
        CommandView::Cd(spec_cd(rest))
    } else if head == "vw"@ {
        CommandView::ViewWater
    } else if head == "vote"@ {
        CommandView::Vote(rest)
    } else if head == "view"@ {
        CommandView::View(
            "https://www.mcbbs.net/home.php?mod=space&uid="@ + (match rest {
                Some(r) => r,
                None => "{UID}"@,
            }) + "&do=index"@,
        )
    } else if head == "name"@ {
        CommandView::Name(
            "https://www.mcbbs.net/home.php?mod=space&username="@ + (match rest {
                Some(r) => r,
                None => ""@,
            }),
        )
    } else if head == "stop"@ {
        CommandView::Stop
    } else {
        CommandView::Other(input)
    }
}

/// Whether `a` holds exactly the characters of `b`.
pub fn chars_eq(a: &Vec<char>, b: &str) -> (r: bool)
    ensures
        r == (a@ == b@),
{
    let bs = chars_of(b);
    if a.len() != bs.len() {
        return false;
    }
    let mut i: usize = 0;
    while i < a.len()
        invariant
            i <= a.len() == bs.len(),
            bs@ == b@,
            forall|k: int| 0 <= k < i ==> a@[k] == bs@[k],
        decreases a.len() - i,
    {
        if a[i] != bs[i] {
            return false;
        }
        i = i + 1;
    }
    assert(a@ =~= bs@);
    true
}

fn listen_request(rest: &Option<Vec<char>>) -> (r: ListenRequest)
    ensures
        r == spec_listen(
            match rest {
                Some(v) => Some(v@),
                None => None,
            },
        ),
{
    match rest {
        None => ListenRequest::MissingArgument,
        Some(r) => {
            let (a, b) = split_once(r, ' ');
            match b {
                None => ListenRequest::Usage,
                Some(cd_text) => {
                    let tid = parse_u32(string_from_chars(&a).as_str());
                    let cd = parse_u64(string_from_chars(&cd_text).as_str());
                    match (tid, cd) {
                        (Some(tid), Some(cd)) => if cd < 1000 {
                            ListenRequest::Stop { tid }
                        } else {
                            ListenRequest::Start { tid, cd }
                        },
                        _ => ListenRequest::NotNumbers,
                    }
                },
            }
        },
    }
}

fn cd_request(rest: &Option<Vec<char>>) -> (r: CdRequest)
    ensures
        r@ == spec_cd(
            match rest {
                Some(v) => Some(v@),
                None => None,
            },
        ),
{
    match rest {
        None => CdRequest::Missing,
        Some(r) => {
            let (a, b) = split_once(r, ' ');
            match b {
                None => CdRequest::Missing,
                Some(cd_text) => match parse_u64(string_from_chars(&cd_text).as_str()) {
                    None => CdRequest::NotNumber,
                    Some(cd) => if cd < 1000 {
                        CdRequest::TooShort(cd)
                    } else if chars_eq(&a, "water") {
                        CdRequest::Assign(CdSource::Water, cd)
                    } else if chars_eq(&a, "question") {
                        CdRequest::Assign(CdSource::Question, cd)
                    } else {
                        CdRequest::UnknownSource(string_from_chars(&a))
                    },
                },
            }
        },
    }
}

/// Reads a command from an input line.
pub fn parse_command(line: &str) -> (r: Command)
    ensures
        r@ == spec_command(line@),
{
    let cs = chars_of(line);
    let input = trim_chars(&cs);
    let (head, rest) = split_once(&input, ' ');
    let ghost rest_view = match &rest {
        Some(v) => Some(v@),
        None => None::<Seq<char>>,
    };
    assert(rest_view == spec_split_once(spec_trim(line@), ' ').1);
    if chars_eq(&head, "1") {
        Command::Questions(Forum::Vanilla)
    } else if chars_eq(&head, "2") {
        Command::Questions(Forum::Multiplayer)
    } else if chars_eq(&head, "3") {
        Command::Questions(Forum::Mod)
    } else if chars_eq(&head, "4") {
        Command::Questions(Forum::Around)
    } else if chars_eq(&head, "5") {
        Command::Questions(Forum::Void)
    } else if chars_eq(&head, "all") {
        Command::AllQuestions
    } else if chars_eq(&head, "water") {
        Command::Water
    } else if chars_eq(&head, "on") {
        Command::OpenOn
    } else if chars_eq(&head, "off") {
        Command::OpenOff
    } else if chars_eq(&head, "mod") {
        Command::OpenModForum
    } else if chars_eq(&head, "live") {
        Command::OpenLive
    } else if chars_eq(&head, "code") {
        Command::CodeTemplate
    } else if chars_eq(&head, "info") {
        Command::Info
    } else if chars_eq(&head, "listen") {
        Command::Listen(listen_request(&rest))
    } else if chars_eq(&head, "cd") {
        Command::Cd(cd_request(&rest))
    } else if chars_eq(&head, "vw") {
        Command::ViewWater
    } else if chars_eq(&head, "vote") {
        Command::Vote(
            match &rest {
                Some(r) => Some(string_from_chars(r)),
                None => None,
            },
        )
    } else if chars_eq(&head, "view") {
        let mut u = String::new();
        push_str(&mut u, "https://www.mcbbs.net/home.php?mod=space&uid=");
        match &rest {
            Some(r) => push_all(&mut u, r),
            None => push_str(&mut u, "{UID}"),
        }
        push_str(&mut u, "&do=index");
        Command::View(u)
    } else if chars_eq(&head, "name") {
        let mut u = String::new();
        push_str(&mut u, "https://www.mcbbs.net/home.php?mod=space&username=");
        match &rest {
            Some(r) => push_all(&mut u, r),
            None => push_str(&mut u, ""),
        }
        Command::Name(u)
    } else if chars_eq(&head, "stop") {
        Command::Stop
    } else {
        Command::Other(string_from_chars(&input))
    }
}

proof fn lemma_trim_start_shape(s: Seq<char>)
    ensures
        spec_trim_start(s).len() == 0 || !is_whitespace(spec_trim_start(s)[0]),
    decreases s.len(),
{
    if s.len() > 0 && is_whitespace(s[0]) {
        lemma_trim_start_shape(s.skip(1));
    }
}

proof fn lemma_trim_end_shape(s: Seq<char>)
    ensures
        exists|k: int| 0 <= k <= s.len() && spec_trim_end(s) == s.take(k),
        spec_trim_end(s).len() == 0 || !is_whitespace(spec_trim_end(s).last()),
    decreases s.len(),
{
    if s.len() > 0 && is_whitespace(s.last()) {
        lemma_trim_end_shape(s.drop_last());
        let k = choose|k: int|
            0 <= k <= s.drop_last().len() && spec_trim_end(s.drop_last()) == s.drop_last().take(k);
        assert(s.drop_last().take(k) =~= s.take(k));
    } else {
        assert(s.take(s.len() as int) =~= s);
    }
}

/// Trimming twice is trimming once.
pub proof fn law_trim_idempotent(s: Seq<char>)
    ensures
        spec_trim(spec_trim(s)) == spec_trim(s),
{
    let u = spec_trim_start(s);
    let t = spec_trim_end(u);
    lemma_trim_start_shape(s);
    lemma_trim_end_shape(u);
    let k = choose|k: int| 0 <= k <= u.len() && t == u.take(k);
    if t.len() > 0 {
        assert(t[0] == u[0]);
    }
    assert(spec_trim_start(t) == t);
    assert(spec_trim_end(t) == t);
}

/// Whitespace around an input line does not change the command it gives.
pub proof fn law_command_ignores_surrounding_whitespace(line: Seq<char>)
    ensures
        spec_command(spec_trim(line)) == spec_command(line),
{
    law_trim_idempotent(line);
}

/// Each forum number picks its own forum: an input line whose first word is `1`, `2`, `3`,
/// `4` or `5` watches the question list of the vanilla, multiplayer, mod, around-the-game or
/// void forum respectively, whatever follows the number.
pub proof fn law_forum_numbers(line: Seq<char>)
    ensures
        spec_split_once(spec_trim(line), ' ').0 == "1"@ ==> (spec_command(line) matches
            CommandView::Questions(f) && spec_forum_url(f)
            == "https://www.mcbbs.net/forum-qanda-1.html?mobile=no"@),
        spec_split_once(spec_trim(line), ' ').0 == "2"@ ==> (spec_command(line) matches
            CommandView::Questions(f) && spec_forum_url(f)
            == "https://www.mcbbs.net/forum-multiqanda-1.html?mobile=no"@),
        spec_split_once(spec_trim(line), ' ').0 == "3"@ ==> (spec_command(line) matches
            CommandView::Questions(f) && spec_forum_url(f)
            == "https://www.mcbbs.net/forum-modqanda-1.html?mobile=no"@),
        spec_split_once(spec_trim(line), ' ').0 == "4"@ ==> (spec_command(line) matches
            CommandView::Questions(f) && spec_forum_url(f)
            == "https://www.mcbbs.net/forum-etcqanda-1.html?mobile=no"@),
        spec_split_once(spec_trim(line), ' ').0 == "5"@ ==> (spec_command(line) matches
            CommandView::Questions(f) && spec_forum_url(f)
            == "https://www.mcbbs.net/forum-peqanda-1.html?mobile=no"@),
{
    reveal_strlit("1");
    reveal_strlit("2");
    reveal_strlit("3");
    reveal_strlit("4");
    reveal_strlit("5");
    let head = spec_split_once(spec_trim(line), ' ').0;
    assert(head == "2"@ ==> head != "1"@) by {
        if head == "2"@ {
            assert(head[0] != "1"@[0]);
        }
    }
    assert(head == "3"@ ==> head != "1"@ && head != "2"@) by {
        if head == "3"@ {
            assert(head[0] != "1"@[0]);
            assert(head[0] != "2"@[0]);
        }
    }
    assert(head == "4"@ ==> head != "1"@ && head != "2"@ && head != "3"@) by {
        if head == "4"@ {
            assert(head[0] != "1"@[0]);
            assert(head[0] != "2"@[0]);
            assert(head[0] != "3"@[0]);
        }
    }
    assert(head == "5"@ ==> head != "1"@ && head != "2"@ && head != "3"@ && head != "4"@) by {
        if head == "5"@ {
            assert(head[0] != "1"@[0]);
            assert(head[0] != "2"@[0]);
            assert(head[0] != "3"@[0]);
            assert(head[0] != "4"@[0]);
        }
    }
}

/// Each command word picks its own command, whatever follows it: `all` watches every
/// question forum, `water` the water forum, `on` and `off` turn opening pages on and off,
/// `mod` opens the mod forum, `live` the live page, `code` prints the code template, `info`
/// what the console holds, `vw` lists the chat forum, `vote` gathers the voters of the vote
/// at the address that follows it, and `stop` ends the console.
pub proof fn law_command_words(line: Seq<char>)
    ensures
        spec_split_once(spec_trim(line), ' ').0 == "all"@ ==> spec_command(line)
            == CommandView::AllQuestions,
        spec_split_once(spec_trim(line), ' ').0 == "water"@ ==> spec_command(line)
            == CommandView::Water,
        spec_split_once(spec_trim(line), ' ').0 == "on"@ ==> spec_command(line)
            == CommandView::OpenOn,
        spec_split_once(spec_trim(line), ' ').0 == "off"@ ==> spec_command(line)
            == CommandView::OpenOff,
        spec_split_once(spec_trim(line), ' ').0 == "mod"@ ==> spec_command(line)
            == CommandView::OpenModForum,
        spec_split_once(spec_trim(line), ' ').0 == "live"@ ==> spec_command(line)
            == CommandView::OpenLive,
        spec_split_once(spec_trim(line), ' ').0 == "code"@ ==> spec_command(line)
            == CommandView::CodeTemplate,
        spec_split_once(spec_trim(line), ' ').0 == "info"@ ==> spec_command(line)
            == CommandView::Info,
        spec_split_once(spec_trim(line), ' ').0 == "vw"@ ==> spec_command(line)
            == CommandView::ViewWater,
        spec_split_once(spec_trim(line), ' ').0 == "vote"@ ==> spec_command(line)
            == CommandView::Vote(spec_split_once(spec_trim(line), ' ').1),
        spec_split_once(spec_trim(line), ' ').0 == "stop"@ ==> spec_command(line)
            == CommandView::Stop,
{
    reveal_strlit("1");
    reveal_strlit("2");
    reveal_strlit("3");
    reveal_strlit("4");
    reveal_strlit("5");
    reveal_strlit("all");
    reveal_strlit("water");
    reveal_strlit("on");
    reveal_strlit("off");
    reveal_strlit("mod");
    reveal_strlit("live");
    reveal_strlit("code");
    reveal_strlit("info");
    reveal_strlit("listen");
    reveal_strlit("cd");
    reveal_strlit("vw");
    reveal_strlit("vote");
    reveal_strlit("view");
    reveal_strlit("name");
    reveal_strlit("stop");
    assert("1"@.len() == 1);
    assert("2"@.len() == 1);
    assert("3"@.len() == 1);
    assert("4"@.len() == 1);
    assert("5"@.len() == 1);
    assert("all"@.len() == 3);
    assert("water"@.len() == 5);
    assert("on"@.len() == 2);
    assert("off"@.len() == 3);
    assert("mod"@.len() == 3);
    assert("live"@.len() == 4);
    assert("code"@.len() == 4);
    assert("info"@.len() == 4);
    assert("listen"@.len() == 6);
    assert("cd"@.len() == 2);
    assert("vw"@.len() == 2);
    assert("vote"@.len() == 4);
    assert("view"@.len() == 4);
    assert("name"@.len() == 4);
    assert("stop"@.len() == 4);
    let head = spec_split_once(spec_trim(line), ' ').0;
    if head == "off"@ {
        assert(head[0] != "all"@[0]);
    }
    if head == "mod"@ {
        assert(head[0] != "all"@[0]);
        assert(head[0] != "off"@[0]);
    }
    if head == "code"@ {
        assert(head[0] != "live"@[0]);
    }
    if head == "info"@ {
        assert(head[0] != "live"@[0]);
        assert(head[0] != "code"@[0]);
    }
    if head == "vw"@ {
        assert(head[0] != "on"@[0]);
        assert(head[0] != "cd"@[0]);
    }
    if head == "vote"@ {
        assert(head[0] != "live"@[0]);
        assert(head[0] != "code"@[0]);
        assert(head[0] != "info"@[0]);
    }
    if head == "stop"@ {
        assert(head[0] != "live"@[0]);
        assert(head[0] != "code"@[0]);
        assert(head[0] != "info"@[0]);
        assert(head[0] != "vote"@[0]);
        assert(head[0] != "view"@[0]);
        assert(head[0] != "name"@[0]);
    }
}

} // verus!
