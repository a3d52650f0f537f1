use vstd::prelude::*;
use crate::pattern::{Pattern, captures, group, group_text, groups_view, regex_captures};
use crate::text::{
    push_str,
    chars_of, contains_str, find_chars, occurs_at, skip_bytes, spec_contains, spec_find, spec_skip_bytes,
    string_from_chars, string_from_range, views,
};

verus! {

/// The pattern of a line that lists a question: group 1 is the thread address, group 2 the
/// title.
pub const QUESTION_PATTERN: &'static str =
    ".*(?P<url>thread-[0-9]+-[0-9]+-[0-9]+\\.html).*class=\"s xst\">(?P<title>.*)\n*</a>\n*";

/// The text that marks a question with a reward.
pub const REWARD_MARKER: &'static str = "金粒";

/// The tag in front of the reward.
pub const REWARD_TAG: &'static str = "\"xw1\">";

/// How many questions are remembered as seen.
pub const SEEN_CAPACITY: usize = 249;

/// A rewarded question found on a forum page.
pub struct NewQuestion {
    /// The line of the page that lists it.
    pub line: String,
    /// The thread address, relative to the site.
    pub url: String,
    pub title: String,
    /// The text from the reward tag on, of the line that carries the reward marker.
    pub reward: String,
}

/// The plain content of a `NewQuestion`.
pub struct QuestionView {
    pub line: Seq<char>,
    pub url: Seq<char>,
    pub title: Seq<char>,
    pub reward: Seq<char>,
}

impl View for NewQuestion {
    type V = QuestionView;

    open spec fn view(&self) -> QuestionView {
        QuestionView { line: self.line@, url: self.url@, title: self.title@, reward: self.reward@ }
    }
}

/// The reward text of the line `l` that carries the reward marker: from the `>` of the first
/// reward tag on; without a tag, the text after the first five UTF-8 bytes; `None` where byte
/// five falls inside a character or past the end.
pub open spec fn spec_reward_text(l: Seq<char>) -> Option<Seq<char>> {
    match spec_find(l, REWARD_TAG@) {
        Some(k) => Some(l.skip(k + 5)),
        None => spec_skip_bytes(l, 5),
    }
}

/// What one line of a forum page contributes.
pub enum QuestionStep {
    /// Nothing.
    Skip,
    /// A rewarded question not seen before.
    Found(QuestionView),
    /// The page breaks the scan: the lines run out before the reward marker, or the match or
    /// the reward text cannot be read.
    Broken,
}

/// Looking at lines `i + j`, ..., `i + 5` for the reward marker, the question listed on line
/// `i` (whose match has the groups `caps`).
pub open spec fn spec_question_window(
    lines: Seq<Seq<char>>,
    seen: Seq<Seq<char>>,
    caps: Seq<Option<Seq<char>>>,
    i: int,
    j: int,
) -> QuestionStep
    decreases 6 - j,
{
    if j >= 6 || j < 0 {
        QuestionStep::Skip
    } else if i + j >= lines.len() {
        QuestionStep::Broken
    } else if spec_contains(lines[i + j], REWARD_MARKER@) {
        if seen.contains(lines[i]) {
            QuestionStep::Skip
        } else {
            match (group(caps, 1), group(caps, 2), spec_reward_text(lines[i + j])) {
                (Some(url), Some(title), Some(reward)) => QuestionStep::Found(
                    QuestionView { line: lines[i], url, title, reward },
                ),
                _ => QuestionStep::Broken,
            }
        }
    } else {
        spec_question_window(lines, seen, caps, i, j + 1)
    }
}

/// What line `i` of a forum page contributes: a line the question pattern matches, with the
/// reward marker on it or on one of the five lines after it, lists a rewarded question.
pub open spec fn spec_question_at(
    pattern: Seq<char>,
    lines: Seq<Seq<char>>,
    seen: Seq<Seq<char>>,
    i: int,
) -> QuestionStep {
    match regex_captures(pattern, lines[i]) {
        Some(caps) => spec_question_window(lines, seen, caps, i, 0),
        None => QuestionStep::Skip,
    }
}

/// The rewarded questions not in `seen` listed from line `i` on, in page order, and whether
/// the scan reached the end of the page (else it stopped at a broken line).
pub open spec fn spec_scan_questions(
    pattern: Seq<char>,
    lines: Seq<Seq<char>>,
    seen: Seq<Seq<char>>,
    i: int,
) -> (Seq<QuestionView>, bool)
    decreases lines.len() - i,
{
    if i < 0 || i >= lines.len() {
        (Seq::empty(), true)
    } else {
        match spec_question_at(pattern, lines, seen, i) {
            QuestionStep::Skip => spec_scan_questions(pattern, lines, seen, i + 1),
            QuestionStep::Found(q) => {
                let rest = spec_scan_questions(pattern, lines, seen, i + 1);
                (seq![q] + rest.0, rest.1)
            },
            QuestionStep::Broken => (Seq::empty(), false),
        }
    }
}

/// The reward text of a line that carries the reward marker.
pub fn reward_text(line: &str) -> (r: Option<String>)
    ensures
        r is Some <==> spec_reward_text(line@) is Some,
        r matches Some(t) ==> Some(t@) == spec_reward_text(line@),
{
    let cs = chars_of(line);
    let tag = chars_of(REWARD_TAG);
    proof {
        reveal_strlit("\"xw1\">");
    }
    assert(tag@.len() == 6);
    match find_chars(&cs, &tag) {
        Some(k) => {
            assert(occurs_at(cs@, tag@, k as int));
            let n = cs.len();
            assert(k + 6 <= n);
            let t = string_from_range(&cs, k + 5, n);
            assert(t@ =~= line@.skip(k + 5));
            Some(t)
        },
        None => match skip_bytes(&cs, 5) {
            Some(rest) => Some(string_from_chars(&rest)),
            None => None,
        },
    }
}

/// The question listed on line `i`, given the groups `caps` of its match: the window of the
/// line and the five after it is searched for the reward marker.
pub fn question_from_groups(
    lines: &Vec<String>,
    seen: &QuestionLog,
    caps: &Vec<Option<String>>,
    i: usize,
) -> (r: (Option<NewQuestion>, bool))
    requires
        i < lines.len(),
    ensures
        match spec_question_window(views(lines@), seen@, groups_view(caps@), i as int, 0) {
            QuestionStep::Skip => r.0 is None && r.1,
            QuestionStep::Found(q) => r.1 && (r.0 matches Some(n) && n@ == q),
            QuestionStep::Broken => r.0 is None && !r.1,
        },
{
    let ghost ls = views(lines@);
    let ghost g = groups_view(caps@);
    let mut j: usize = 0;
    while j < 6
        invariant
            i < lines.len(),
            j <= 6,
            ls == views(lines@),
            g == groups_view(caps@),
            spec_question_window(ls, seen@, g, i as int, 0) == spec_question_window(
                ls,
                seen@,
                g,
                i as int,
                j as int,
            ),
        decreases 6 - j,
    {
        if j >= lines.len() - i {
            return (None, false);
        }
        if contains_str(lines[i + j].as_str(), REWARD_MARKER) {
            if seen.contains(&lines[i]) {
                return (None, true);
            }
            let url = group_text(caps, 1);
            let title = group_text(caps, 2);
            let reward = reward_text(lines[i + j].as_str());
            match (url, title, reward) {
                (Some(url), Some(title), Some(reward)) => {
                    let q = NewQuestion { line: lines[i].clone(), url, title, reward };
                    return (Some(q), true);
                },
                _ => {
                    return (None, false);
                },
            }
        }
        j = j + 1;
    }
    (None, true)
}

/// The result of scanning a forum page for rewarded questions.
pub struct QuestionScan {
    /// The new rewarded questions, in page order (up to a broken line, if any).
    pub found: Vec<NewQuestion>,
    /// Whether the scan reached the end of the page.
    pub complete: bool,
}

/// The views of a sequence of questions.
pub open spec fn question_views(v: Seq<NewQuestion>) -> Seq<QuestionView> {
    v.map_values(|q: NewQuestion| q@)
}

/// Scans the lines of a forum page, with the question pattern `p`, for rewarded questions
/// that `seen` does not hold.
pub fn scan_questions(p: &Pattern, lines: &Vec<String>, seen: &QuestionLog) -> (r: QuestionScan)
    ensures
        (question_views(r.found@), r.complete) == spec_scan_questions(
            p@,
            views(lines@),
            seen@,
            0,
        ),
{
    let ghost ls = views(lines@);
    let mut found: Vec<NewQuestion> = Vec::new();
    let mut i: usize = 0;
    while i < lines.len()
        invariant
            i <= lines.len(),
            ls == views(lines@),
            spec_scan_questions(p@, ls, seen@, 0) == (
                question_views(found@) + spec_scan_questions(p@, ls, seen@, i as int).0,
                spec_scan_questions(p@, ls, seen@, i as int).1,
            ),
        decreases lines.len() - i,
    {
        match captures(p, lines[i].as_str()) {
            Some(caps) => {
                let (q, ok) = question_from_groups(lines, seen, &caps, i);
                if !ok {
                    return QuestionScan { found, complete: false };
                }
                match q {
                    Some(q) => {
                        let ghost before = found@;
                        found.push(q);
                        assert(question_views(found@) =~= question_views(before) + seq![
                            found@.last()@,
                        ]);
                    },
                    None => {},
                }
            },
            None => {},
        }
        i = i + 1;
    }
    assert(question_views(found@) + Seq::<QuestionView>::empty() =~= question_views(found@));
    QuestionScan { found, complete: true }
}

/// The last `n` elements of `s` (all of them when there are fewer).
pub open spec fn keep_last<A>(s: Seq<A>, n: int) -> Seq<A> {
    if s.len() > n {
        s.skip(s.len() - n)
    } else {
        s
    }
}

/// The question lines seen so far, oldest first, at most `SEEN_CAPACITY` of them.
pub struct QuestionLog {
    items: Vec<String>,
}

impl View for QuestionLog {
    type V = Seq<Seq<char>>;

    closed spec fn view(&self) -> Seq<Seq<char>> {
        views(self.items@)
    }
}

impl QuestionLog {
    #[verifier::type_invariant]
    closed spec fn within_capacity(&self) -> bool {
        self.items.len() <= SEEN_CAPACITY
    }

    /// An empty log.
    pub fn new() -> (r: Self)
        ensures
            r@ == Seq::<Seq<char>>::empty(),
    {
        let r = QuestionLog { items: Vec::new() };
        assert(r@ =~= Seq::<Seq<char>>::empty());
        r
    }

    /// The number of lines held.
    pub fn len(&self) -> (r: usize)
        ensures
            r == self@.len(),
            r <= SEEN_CAPACITY,
    {
        proof {
            use_type_invariant(self);
        }
        self.items.len()
    }

    /// Whether `line` is among the lines held.
    pub fn contains(&self, line: &String) -> (r: bool)
        ensures
            r == self@.contains(line@),
    {
        let mut k: usize = 0;
        while k < self.items.len()
            invariant
                k <= self.items.len(),
                forall|t: int| 0 <= t < k ==> self@[t] != line@,
            decreases self.items.len() - k,
        {
            if self.items[k] == *line {
                assert(self@[k as int] == line@);
                return true;
            }
            k = k + 1;
        }
        false
    }

    /// Appends `lines` in order, then forgets the oldest lines beyond `SEEN_CAPACITY`.
    pub fn record(&mut self, lines: &Vec<String>)
        ensures
            final(self)@ == keep_last(old(self)@ + views(lines@), SEEN_CAPACITY as int),
    {
        proof {
            use_type_invariant(&*self);
        }
        let ghost all = old(self)@ + views(lines@);
        let old_len = self.items.len();
        let total: u128 = old_len as u128 + lines.len() as u128;
        let start: u128 = if total > SEEN_CAPACITY as u128 {
            total - SEEN_CAPACITY as u128
        } else {
            0
        };
        let mut kept: Vec<String> = Vec::new();
        let mut k: u128 = start;
        while k < total
            invariant
                start <= k <= total,
                total == old_len + lines.len(),
                old_len == self.items.len(),
                all == views(self.items@) + views(lines@),
                start == (if total > SEEN_CAPACITY { total - SEEN_CAPACITY } else { 0 }),
                views(kept@) == all.subrange(start as int, k as int),
            decreases total - k,
        {
            let s = if k < old_len as u128 {
                self.items[k as usize].clone()
            } else {
                lines[(k - old_len as u128) as usize].clone()
            };
            assert(s@ == all[k as int]);
            let ghost before = kept@;
            let ghost sv = s@;
            kept.push(s);
            assert(views(kept@) =~= views(before).push(sv));
            assert(views(kept@) =~= all.subrange(start as int, k + 1));
            k = k + 1;
        }
        assert(all.subrange(start as int, total as int) =~= keep_last(all, SEEN_CAPACITY as int));
        self.items = kept;
    }
}

/// The log never holds more than `SEEN_CAPACITY` lines; recording keeps the newest lines in
/// order, so that each recorded line is held afterwards whenever no more than
/// `SEEN_CAPACITY` lines are recorded at once.
pub proof fn law_record_keeps_newest(held: Seq<Seq<char>>, new: Seq<Seq<char>>)
    requires
        held.len() <= SEEN_CAPACITY,
    ensures
        keep_last(held + new, SEEN_CAPACITY as int).len() <= SEEN_CAPACITY,
        new.len() <= SEEN_CAPACITY ==> keep_last(held + new, SEEN_CAPACITY as int)
            =~= keep_last(held, SEEN_CAPACITY - new.len()) + new,
        new.len() <= SEEN_CAPACITY ==> forall|i: int|
            0 <= i < new.len() ==> keep_last(held + new, SEEN_CAPACITY as int).contains(
                #[trigger] new[i],
            ),
{
    let all = held + new;
    let kept = keep_last(all, SEEN_CAPACITY as int);
    if new.len() <= SEEN_CAPACITY {
        assert(kept =~= keep_last(held, SEEN_CAPACITY - new.len()) + new);
        assert forall|i: int| 0 <= i < new.len() implies kept.contains(#[trigger] new[i]) by {
            let k = keep_last(held, SEEN_CAPACITY - new.len()).len() + i;
            assert(kept[k] == new[i]);
        }
    }
}

/// `"https://www.mcbbs.net/<url>" <title> <reward>`, the report of a new question.
pub open spec fn spec_question_message(q: QuestionView) -> Seq<char> {
    "\"https://www.mcbbs.net/"@ + q.url + "\" "@ + q.title + " "@ + q.reward
}

/// `https://www.mcbbs.net/<url>`, the page of a new question.
pub open spec fn spec_question_page(q: QuestionView) -> Seq<char> {
    "https://www.mcbbs.net/"@ + q.url
}

impl NewQuestion {
    /// The report of this question.
    pub fn message(&self) -> (r: String)
        ensures
            r@ == spec_question_message(self@),
    {
        let mut r = String::new();
        push_str(&mut r, "\"https://www.mcbbs.net/");
        push_str(&mut r, self.url.as_str());
        push_str(&mut r, "\" ");
        push_str(&mut r, self.title.as_str());
        push_str(&mut r, " ");
        push_str(&mut r, self.reward.as_str());
        r
    }

    /// The page of this question.
    pub fn page(&self) -> (r: String)
        ensures
            r@ == spec_question_page(self@),
    {
        let mut r = String::new();
        push_str(&mut r, "https://www.mcbbs.net/");
        push_str(&mut r, self.url.as_str());
        r
    }
}

/// The lines that list the questions `q`.
pub open spec fn question_lines(q: Seq<QuestionView>) -> Seq<Seq<char>> {
    q.map_values(|v: QuestionView| v.line)
}

proof fn lemma_window_found(
    lines: Seq<Seq<char>>,
    seen: Seq<Seq<char>>,
    caps: Seq<Option<Seq<char>>>,
    i: int,
    j: int,
)
    requires
        0 <= i,
    ensures
        spec_question_window(lines, seen, caps, i, j) matches QuestionStep::Found(q) ==> {
            &&& 0 <= i < lines.len()
            &&& q.line == lines[i]
            &&& !seen.contains(lines[i])
        },
    decreases 6 - j,
{
    if 0 <= j < 6 && i + j < lines.len() && !spec_contains(lines[i + j], REWARD_MARKER@) {
        lemma_window_found(lines, seen, caps, i, j + 1);
    }
}

/// A window that did not break reads the same, or stays quiet, under a larger set of seen
/// lines that holds the listing line whenever the window found its question.
proof fn lemma_window_rescan(
    lines: Seq<Seq<char>>,
    seen: Seq<Seq<char>>,
    seen2: Seq<Seq<char>>,
    caps: Seq<Option<Seq<char>>>,
    i: int,
    j: int,
)
    requires
        0 <= i,
        !(spec_question_window(lines, seen, caps, i, j) is Broken),
        forall|x: Seq<char>| seen.contains(x) ==> seen2.contains(x),
        spec_question_window(lines, seen, caps, i, j) is Found ==> 0 <= i < lines.len()
            && seen2.contains(lines[i]),
    ensures
        spec_question_window(lines, seen2, caps, i, j) is Skip,
    decreases 6 - j,
{
    if 0 <= j < 6 && i + j < lines.len() && !spec_contains(lines[i + j], REWARD_MARKER@) {
        lemma_window_rescan(lines, seen, seen2, caps, i, j + 1);
    }
}

proof fn lemma_rescan_from(
    pattern: Seq<char>,
    lines: Seq<Seq<char>>,
    seen: Seq<Seq<char>>,
    seen2: Seq<Seq<char>>,
    i: int,
)
    requires
        spec_scan_questions(pattern, lines, seen, i).1,
        forall|x: Seq<char>| seen.contains(x) ==> seen2.contains(x),
        forall|k: int|
            0 <= k < spec_scan_questions(pattern, lines, seen, i).0.len() ==> seen2.contains(
                #[trigger] spec_scan_questions(pattern, lines, seen, i).0[k].line,
            ),
    ensures
        spec_scan_questions(pattern, lines, seen2, i) == (Seq::<QuestionView>::empty(), true),
    decreases lines.len() - i,
{
    if 0 <= i < lines.len() {
        let whole = spec_scan_questions(pattern, lines, seen, i);
        let rest = spec_scan_questions(pattern, lines, seen, i + 1);
        match regex_captures(pattern, lines[i]) {
            None => {
                lemma_rescan_from(pattern, lines, seen, seen2, i + 1);
            },
            Some(caps) => {
                let step = spec_question_window(lines, seen, caps, i, 0);
                lemma_window_found(lines, seen, caps, i, 0);
                match step {
                    QuestionStep::Found(q) => {
                        assert(whole.0 =~= seq![q] + rest.0);
                        assert(whole.0[0] == q);
                        assert forall|k: int| 0 <= k < rest.0.len() implies seen2.contains(
                            #[trigger] rest.0[k].line,
                        ) by {
                            assert(whole.0[k + 1] == rest.0[k]);
                        }
                    },
                    _ => {},
                }
                lemma_window_rescan(lines, seen, seen2, caps, i, 0);
                lemma_rescan_from(pattern, lines, seen, seen2, i + 1);
            },
        }
    }
}

/// A scan reports no question whose line was already seen.
pub proof fn law_found_questions_unseen(
    pattern: Seq<char>,
    lines: Seq<Seq<char>>,
    seen: Seq<Seq<char>>,
    i: int,
)
    ensures
        forall|k: int|
            0 <= k < spec_scan_questions(pattern, lines, seen, i).0.len() ==> !seen.contains(
                #[trigger] spec_scan_questions(pattern, lines, seen, i).0[k].line,
            ),
    decreases lines.len() - i,
{
    if 0 <= i < lines.len() {
        let whole = spec_scan_questions(pattern, lines, seen, i);
        let rest = spec_scan_questions(pattern, lines, seen, i + 1);
        law_found_questions_unseen(pattern, lines, seen, i + 1);
        match regex_captures(pattern, lines[i]) {
            None => {},
            Some(caps) => {
                lemma_window_found(lines, seen, caps, i, 0);
                match spec_question_window(lines, seen, caps, i, 0) {
                    QuestionStep::Found(q) => {
                        assert forall|k: int| 0 <= k < whole.0.len() implies !seen.contains(
                            #[trigger] whole.0[k].line,
                        ) by {
                            if k > 0 {
                                assert(whole.0[k] == rest.0[k - 1]);
                            }
                        }
                    },
                    _ => {},
                }
            },
        }
    }
}

/// Once a page has been read to its end and its new questions recorded, reading the same
/// page again reports nothing, as long as recording forgot no line (the seen lines and the
/// new ones together fit in `SEEN_CAPACITY`).
pub proof fn law_rescan_reports_nothing(pattern: Seq<char>, lines: Seq<Seq<char>>, seen: Seq<Seq<char>>)
    requires
        spec_scan_questions(pattern, lines, seen, 0).1,
        seen.len() + spec_scan_questions(pattern, lines, seen, 0).0.len() <= SEEN_CAPACITY,
    ensures
        spec_scan_questions(
            pattern,
            lines,
            keep_last(
                seen + question_lines(spec_scan_questions(pattern, lines, seen, 0).0),
                SEEN_CAPACITY as int,
            ),
            0,
        ) == (Seq::<QuestionView>::empty(), true),
{
    let found = spec_scan_questions(pattern, lines, seen, 0).0;
    let seen2 = keep_last(seen + question_lines(found), SEEN_CAPACITY as int);
    assert(seen2 == seen + question_lines(found));
    assert forall|x: Seq<char>| seen.contains(x) implies seen2.contains(x) by {
        let a = choose|a: int| 0 <= a < seen.len() && seen[a] == x;
        assert(seen2[a] == x);
    }
    assert forall|k: int| 0 <= k < found.len() implies seen2.contains(#[trigger] found[k].line) by {
        assert(seen2[seen.len() + k] == found[k].line);
    }
    lemma_rescan_from(pattern, lines, seen, seen2, 0);
}

/// Looking from line `k + j0` on, the window of line `k` finds its question on line `k + j`,
/// the first of its window to carry the reward marker.
proof fn lemma_window_reaches(
    lines: Seq<Seq<char>>,
    seen: Seq<Seq<char>>,
    caps: Seq<Option<Seq<char>>>,
    k: int,
    j: int,
    j0: int,
    q: QuestionView,
)
    requires
        0 <= k,
        0 <= j0 <= j < 6,
        k + j < lines.len(),
        spec_contains(lines[k + j], REWARD_MARKER@),
        forall|m: int| 0 <= m < j ==> !spec_contains(#[trigger] lines[k + m], REWARD_MARKER@),
        !seen.contains(lines[k]),
        group(caps, 1) == Some(q.url),
        group(caps, 2) == Some(q.title),
        spec_reward_text(lines[k + j]) == Some(q.reward),
        q.line == lines[k],
    ensures
        spec_question_window(lines, seen, caps, k, j0) == QuestionStep::Found(q),
    decreases j - j0,
{
    if j0 < j {
        assert(!spec_contains(lines[k + j0], REWARD_MARKER@));
        lemma_window_reaches(lines, seen, caps, k, j, j0 + 1, q);
    }
}

/// A scan from line `i` that reads the page to its end reports the question that line `k`
/// (at or after `i`) contributes.
proof fn lemma_scan_reports_line(
    pattern: Seq<char>,
    lines: Seq<Seq<char>>,
    seen: Seq<Seq<char>>,
    i: int,
    k: int,
    q: QuestionView,
)
    requires
        0 <= i <= k < lines.len(),
        spec_scan_questions(pattern, lines, seen, i).1,
        spec_question_at(pattern, lines, seen, k) == QuestionStep::Found(q),
    ensures
        spec_scan_questions(pattern, lines, seen, i).0.contains(q),
    decreases k - i,
{
    let whole = spec_scan_questions(pattern, lines, seen, i);
    let rest = spec_scan_questions(pattern, lines, seen, i + 1);
    if i == k {
        assert(whole.0[0] == q);
    } else {
        match spec_question_at(pattern, lines, seen, i) {
            QuestionStep::Skip => {
                lemma_scan_reports_line(pattern, lines, seen, i + 1, k, q);
            },
            QuestionStep::Found(p) => {
                lemma_scan_reports_line(pattern, lines, seen, i + 1, k, q);
                let a = choose|a: int| 0 <= a < rest.0.len() && rest.0[a] == q;
                assert(whole.0[a + 1] == q);
            },
            QuestionStep::Broken => {},
        }
    }
}

/// A scan that reads the page to its end reports every rewarded question that a line lists
/// and that was not seen before, whatever seen lines stand above it.
pub proof fn law_scan_reports_every_new_question(
    pattern: Seq<char>,
    lines: Seq<Seq<char>>,
    seen: Seq<Seq<char>>,
    k: int,
    q: QuestionView,
)
    requires
        spec_scan_questions(pattern, lines, seen, 0).1,
        lists_new_question(pattern, lines, seen, k, q),
    ensures
        spec_scan_questions(pattern, lines, seen, 0).0.contains(q),
{
    let caps = regex_captures(pattern, lines[k]).unwrap();
    let j = choose|j: int|
        #[trigger] first_reward_line(lines, k, 0, j) && spec_reward_text(lines[k + j]) == Some(
            q.reward,
        );
    lemma_window_reaches(lines, seen, caps, k, j, 0, q);
    lemma_scan_reports_line(pattern, lines, seen, 0, k, q);
}

/// Line `k + j` is the first of lines `k + j0`, ..., `k + 5` to carry the reward marker.
pub open spec fn first_reward_line(lines: Seq<Seq<char>>, k: int, j0: int, j: int) -> bool {
    &&& j0 <= j < 6
    &&& 0 <= k + j < lines.len()
    &&& spec_contains(lines[k + j], REWARD_MARKER@)
    &&& forall|m: int| j0 <= m < j ==> !spec_contains(#[trigger] lines[k + m], REWARD_MARKER@)
}

/// Line `k` lists the rewarded question `q`, not seen before: the pattern matches it with
/// `q`'s url as group 1 and `q`'s title as group 2, and `q`'s reward is the reward text of
/// the first line of its window that carries the reward marker.
pub open spec fn lists_new_question(
    pattern: Seq<char>,
    lines: Seq<Seq<char>>,
    seen: Seq<Seq<char>>,
    k: int,
    q: QuestionView,
) -> bool {
    &&& 0 <= k < lines.len()
    &&& q.line == lines[k]
    &&& !seen.contains(lines[k])
    &&& regex_captures(pattern, lines[k]) matches Some(caps)
    &&& group(caps, 1) == Some(q.url)
    &&& group(caps, 2) == Some(q.title)
    &&& exists|j: int|
        #[trigger] first_reward_line(lines, k, 0, j) && spec_reward_text(lines[k + j]) == Some(
            q.reward,
        )
}

/// Some line from line `i` on lists the rewarded question `q`, not seen before.
pub open spec fn new_question_listed_from(
    pattern: Seq<char>,
    lines: Seq<Seq<char>>,
    seen: Seq<Seq<char>>,
    q: QuestionView,
    i: int,
) -> bool {
    exists|k: int| i <= k && #[trigger] lists_new_question(pattern, lines, seen, k, q)
}

proof fn lemma_window_found_shape(
    lines: Seq<Seq<char>>,
    seen: Seq<Seq<char>>,
    caps: Seq<Option<Seq<char>>>,
    k: int,
    j0: int,
)
    requires
        0 <= k,
        0 <= j0,
    ensures
        spec_question_window(lines, seen, caps, k, j0) matches QuestionStep::Found(q) ==> {
            &&& group(caps, 1) == Some(q.url)
            &&& group(caps, 2) == Some(q.title)
            &&& exists|j: int|
                #[trigger] first_reward_line(lines, k, j0, j) && spec_reward_text(lines[k + j])
                    == Some(q.reward)
        },
    decreases 6 - j0,
{
    if j0 < 6 && k + j0 < lines.len() {
        if spec_contains(lines[k + j0], REWARD_MARKER@) {
            assert(first_reward_line(lines, k, j0, j0));
        } else {
            lemma_window_found_shape(lines, seen, caps, k, j0 + 1);
            if let QuestionStep::Found(q) = spec_question_window(lines, seen, caps, k, j0) {
                let j = choose|j: int|
                    #[trigger] first_reward_line(lines, k, j0 + 1, j) && spec_reward_text(
                        lines[k + j],
                    ) == Some(q.reward);
                assert(first_reward_line(lines, k, j0, j));
            }
        }
    }
}

/// Each question a scan from line `i` reports is a rewarded question, not seen before, that
/// a line of the page at or after `i` lists.
pub proof fn law_scan_reports_only_listed_questions(
    pattern: Seq<char>,
    lines: Seq<Seq<char>>,
    seen: Seq<Seq<char>>,
    i: int,
)
    requires
        0 <= i,
    ensures
        forall|a: int|
            0 <= a < spec_scan_questions(pattern, lines, seen, i).0.len()
                ==> new_question_listed_from(
                pattern,
                lines,
                seen,
                #[trigger] spec_scan_questions(pattern, lines, seen, i).0[a],
                i,
            ),
    decreases lines.len() - i,
{
    if i < lines.len() {
        let found = spec_scan_questions(pattern, lines, seen, i).0;
        let rest = spec_scan_questions(pattern, lines, seen, i + 1).0;
        law_scan_reports_only_listed_questions(pattern, lines, seen, i + 1);
        match spec_question_at(pattern, lines, seen, i) {
            QuestionStep::Skip => {
                assert(found == rest);
                assert forall|a: int| 0 <= a < found.len() implies new_question_listed_from(
                    pattern,
                    lines,
                    seen,
                    #[trigger] found[a],
                    i,
                ) by {
                    assert(new_question_listed_from(pattern, lines, seen, rest[a], i + 1));
                }
            },
            QuestionStep::Found(q) => {
                let caps = regex_captures(pattern, lines[i]).unwrap();
                lemma_window_found(lines, seen, caps, i, 0);
                lemma_window_found_shape(lines, seen, caps, i, 0);
                assert(lists_new_question(pattern, lines, seen, i, q));
                assert(found == seq![q] + rest);
                assert forall|a: int| 0 <= a < found.len() implies new_question_listed_from(
                    pattern,
                    lines,
                    seen,
                    #[trigger] found[a],
                    i,
                ) by {
                    if a == 0 {
                        assert(found[0] == q);
                    } else {
                        assert(found[a] == rest[a - 1]);
                        assert(new_question_listed_from(pattern, lines, seen, rest[a - 1], i + 1));
                    }
                }
            },
            QuestionStep::Broken => {},
        }
    }
}

/// A scan from line `i` reads the page to its end exactly when no line from `i` on breaks it.
pub proof fn law_scan_complete_unless_broken(
    pattern: Seq<char>,
    lines: Seq<Seq<char>>,
    seen: Seq<Seq<char>>,
    i: int,
)
    requires
        0 <= i,
    ensures
        spec_scan_questions(pattern, lines, seen, i).1 <==> forall|b: int|
            i <= b < lines.len() ==> !(#[trigger] spec_question_at(pattern, lines, seen, b) is Broken),
    decreases lines.len() - i,
{
    if i < lines.len() {
        law_scan_complete_unless_broken(pattern, lines, seen, i + 1);
    }
}

} // verus!
