use vstd::prelude::*;
use crate::command::CdSource;
use crate::numbers::{push_decimal, spec_decimal};
use crate::pattern::Pattern;
use crate::questions::{
    QuestionLog, QuestionScan, keep_last, question_lines, question_views,
    scan_questions, spec_scan_questions, SEEN_CAPACITY,
};
use crate::text::{push_str, views};
use crate::thread::McbbsThreadData;

verus! {

/// The interval between two fetches of a question forum at start, in ms.
pub const DEFAULT_QUESTION_CD: u64 = 5000;

/// The interval between two fetches of the newest threads at start, in ms.
pub const DEFAULT_WATER_CD: u64 = 15000;

/// The state shared by the watchers: the question lines seen, the two intervals, and the
/// cookie sent with every request.
pub struct McbbsData {
    questions: QuestionLog,
    question_cd: u64,
    water_cd: u64,
    cookie: String,
}

/// The plain content of `McbbsData`.
pub struct McbbsDataView {
    pub questions: Seq<Seq<char>>,
    pub question_cd: u64,
    pub water_cd: u64,
    pub cookie: Seq<char>,
}

impl View for McbbsData {
    type V = McbbsDataView;

    closed spec fn view(&self) -> McbbsDataView {
        McbbsDataView {
            questions: self.questions@,
            question_cd: self.question_cd,
            water_cd: self.water_cd,
            cookie: self.cookie@,
        }
    }
}

/// `water_cd_ms: <water>, question_cd_ms: <question>`.
pub open spec fn spec_cd_info(water: u64, question: u64) -> Seq<char> {
    "water_cd_ms: "@ + spec_decimal(water as nat) + ", question_cd_ms: "@ + spec_decimal(
        question as nat,
    )
}

/// `listening tid <tid> interval <cd>ms with replay_count: <count>`.
pub open spec fn spec_listener_info(t: McbbsThreadData) -> Seq<char> {
    "listening tid "@ + spec_decimal(t.tid as nat) + " interval "@ + spec_decimal(t.cd as nat)
        + "ms with replay_count: "@ + spec_decimal(t.last_replay as nat)
}

/// `open enabled: true` or `open enabled: false`.
pub open spec fn spec_open_info(open: bool) -> Seq<char> {
    "open enabled: "@ + if open {
        "true"@
    } else {
        "false"@
    }
}

impl McbbsData {
    /// A fresh state with the given cookie: no question seen, default intervals.
    pub fn with_cookie(cookie: String) -> (r: Self)
        ensures
            r@ == (McbbsDataView {
                questions: Seq::empty(),
                question_cd: DEFAULT_QUESTION_CD,
                water_cd: DEFAULT_WATER_CD,
                cookie: cookie@,
            }),
    {
        McbbsData {
            questions: QuestionLog::new(),
            question_cd: DEFAULT_QUESTION_CD,
            water_cd: DEFAULT_WATER_CD,
            cookie,
        }
    }

    /// The cookie sent with every request.
    pub fn cookie(&self) -> (r: &String)
        ensures
            r@ == self@.cookie,
    {
        &self.cookie
    }

    /// The interval between two fetches of a question forum, in ms.
    pub fn question_cd(&self) -> (r: u64)
        ensures
            r == self@.question_cd,
    {
        self.question_cd
    }

    /// The interval between two fetches of the newest threads, in ms.
    pub fn water_cd(&self) -> (r: u64)
        ensures
            r == self@.water_cd,
    {
        self.water_cd
    }

    /// The question lines seen.
    pub fn questions(&self) -> (r: &QuestionLog)
        ensures
            r@ == self@.questions,
    {
        &self.questions
    }

    /// Sets one of the two intervals.
    pub fn set_cd(&mut self, source: CdSource, cd: u64)
        ensures
            final(self)@ == (match source {
                CdSource::Water => McbbsDataView { water_cd: cd, ..old(self)@ },
                CdSource::Question => McbbsDataView { question_cd: cd, ..old(self)@ },
            }),
    {
        match source {
            CdSource::Water => self.water_cd = cd,
            CdSource::Question => self.question_cd = cd,
        }
    }

    /// The wait after a failed fetch of a question forum, before the usual one:
    /// `question_cd + 3000`, `None` where that overflows.
    pub fn question_retry_delay_ms(&self) -> (r: Option<u64>)
        ensures
            r matches Some(d) ==> d == self@.question_cd + 3000,
            r is None <==> self@.question_cd + 3000 > u64::MAX,
    {
        self.question_cd.checked_add(3000)
    }

    /// The wait after a failed fetch of the newest threads, before the usual one:
    /// `water_cd + 10000`, `None` where that overflows.
    pub fn water_retry_delay_ms(&self) -> (r: Option<u64>)
        ensures
            r matches Some(d) ==> d == self@.water_cd + 10000,
            r is None <==> self@.water_cd + 10000 > u64::MAX,
    {
        self.water_cd.checked_add(10000)
    }

    /// Reads a question forum page with the question pattern `p`: the new rewarded questions
    /// are returned, and, when the page was read to its end, their lines are remembered as
    /// seen.
    pub fn take_questions(&mut self, p: &Pattern, lines: &Vec<String>) -> (r: QuestionScan)
        ensures
            (question_views(r.found@), r.complete) == spec_scan_questions(
                p@,
                views(lines@),
                old(self)@.questions,
                0,
            ),
            final(self)@ == (if r.complete {
                McbbsDataView {
                    questions: keep_last(
                        old(self)@.questions + question_lines(question_views(r.found@)),
                        SEEN_CAPACITY as int,
                    ),
                    ..old(self)@
                }
            } else {
                old(self)@
            }),
    {
        let scan = scan_questions(p, lines, &self.questions);
        if scan.complete {
            let mut seen: Vec<String> = Vec::new();
            let mut i: usize = 0;
            while i < scan.found.len()
                invariant
                    i <= scan.found.len(),
                    views(seen@) == question_lines(question_views(scan.found@)).take(i as int),
                decreases scan.found.len() - i,
            {
                let ghost before = seen@;
                let l = scan.found[i].line.clone();
                let ghost lv = l@;
                seen.push(l);
                assert(views(seen@) =~= views(before).push(lv));
                assert(question_lines(question_views(scan.found@)).take(i + 1) =~= question_lines(
                    question_views(scan.found@),
                ).take(i as int).push(lv));
                i = i + 1;
            }
            assert(question_lines(question_views(scan.found@)).take(scan.found.len() as int)
                =~= question_lines(question_views(scan.found@)));
            self.questions.record(&seen);
        }
        scan
    }

    /// `water_cd_ms: <water>, question_cd_ms: <question>`.
    pub fn cd_info(&self) -> (r: String)
        ensures
            r@ == spec_cd_info(self@.water_cd, self@.question_cd),
    {
        let mut r = String::new();
        push_str(&mut r, "water_cd_ms: ");
        push_decimal(&mut r, self.water_cd);
        push_str(&mut r, ", question_cd_ms: ");
        push_decimal(&mut r, self.question_cd);
        r
    }
}

/// The settings line of one listener.
pub fn listener_info(t: &McbbsThreadData) -> (r: String)
    ensures
        r@ == spec_listener_info(*t),
{
    let mut r = String::new();
    push_str(&mut r, "listening tid ");
    push_decimal(&mut r, t.tid as u64);
    push_str(&mut r, " interval ");
    push_decimal(&mut r, t.cd);
    push_str(&mut r, "ms with replay_count: ");
    push_decimal(&mut r, t.last_replay);
    r
}

/// Whether found threads are opened in the browser, as a settings line.
pub fn open_info(open: bool) -> (r: String)
    ensures
        r@ == spec_open_info(open),
{
    let mut r = String::new();
    push_str(&mut r, "open enabled: ");
    if open {
        push_str(&mut r, "true");
    } else {
        push_str(&mut r, "false");
    }
    r
}

} // verus!
