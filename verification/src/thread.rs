use vstd::prelude::*;
use crate::numbers::{lemma_parse_unsigned_range, parse_u64, spec_parse_unsigned, spec_decimal, push_decimal};
use crate::pattern::{
    Pattern, captures, group, group_text, groups_view, regex_captures,
};
use crate::text::{contains_str, push_str, spec_contains, views};

verus! {

/// The text that marks the line near which a thread page shows its reply count.
pub const REPLY_MARKER: &'static str = "<span class=\"xg1\">回复";

/// The pattern whose first group is the reply count.
pub const REPLY_COUNT_PATTERN: &'static str = r##".*<span class="xi1">(?P<num>\d*)</span>.*"##;

/// What a thread page says of its reply count.
pub enum ReplyScan {
    /// No line carries the reply marker, or none of the lines after a marker matched.
    NotFound,
    /// The reply count.
    Count(u64),
    /// The page breaks the scan: a marker too close to the end of the page, or a count that
    /// is not a `u64`.
    Malformed,
}

/// The reply count read from the groups of a match of the count pattern: its first group
/// parsed as a `u64`.
pub open spec fn spec_count_from_groups(caps: Seq<Option<Seq<char>>>) -> ReplyScan {
    match group(caps, 1) {
        Some(num) => match spec_parse_unsigned(num, u64::MAX as int) {
            Some(v) => ReplyScan::Count(v as u64),
            None => ReplyScan::Malformed,
        },
        None => ReplyScan::Malformed,
    }
}

/// The outcome of looking at lines `i + j`, `i + j + 1`, ..., `i + 4` for the reply count:
/// `None` when none of them matches.
pub open spec fn spec_reply_window(
    pattern: Seq<char>,
    lines: Seq<Seq<char>>,
    i: int,
    j: int,
) -> Option<ReplyScan>
    decreases 5 - j,
{
    if j >= 5 || j < 0 {
        None
    } else if j >= lines.len() - i {
        Some(ReplyScan::Malformed)
    } else {
        match regex_captures(pattern, lines[i + j]) {
            Some(caps) => Some(spec_count_from_groups(caps)),
            None => spec_reply_window(pattern, lines, i, j + 1),
        }
    }
}

/// The reply count of a thread page, looking from line `i` on: at each line that carries the
/// marker, the first of that line and the four after it that the count pattern matches gives
/// the count.
pub open spec fn spec_reply_scan_from(pattern: Seq<char>, lines: Seq<Seq<char>>, i: int) -> ReplyScan
    decreases lines.len() - i,
{
    if i < 0 || i >= lines.len() {
        ReplyScan::NotFound
    } else if spec_contains(lines[i], REPLY_MARKER@) {
        match spec_reply_window(pattern, lines, i, 0) {
            Some(r) => r,
            None => spec_reply_scan_from(pattern, lines, i + 1),
        }
    } else {
        spec_reply_scan_from(pattern, lines, i + 1)
    }
}

/// The reply count read from the groups of one match of the count pattern.
pub fn count_from_groups(caps: &Vec<Option<String>>) -> (r: ReplyScan)
    ensures
        r == spec_count_from_groups(groups_view(caps@)),
{
    match group_text(caps, 1) {
        Some(num) => match parse_u64(num.as_str()) {
            Some(v) => ReplyScan::Count(v),
            None => ReplyScan::Malformed,
        },
        None => ReplyScan::Malformed,
    }
}

/// Reads the reply count off the lines of a thread page.
pub fn scan_reply_count(p: &Pattern, lines: &Vec<String>) -> (r: ReplyScan)
    ensures
        r == spec_reply_scan_from(p@, views(lines@), 0),
{
    let ghost ls = views(lines@);
    let mut i: usize = 0;
    while i < lines.len()
        invariant
            i <= lines.len(),
            ls == views(lines@),
            spec_reply_scan_from(p@, ls, 0) == spec_reply_scan_from(p@, ls, i as int),
        decreases lines.len() - i,
    {
        if contains_str(lines[i].as_str(), REPLY_MARKER) {
            let mut j: usize = 0;
            while j < 5
                invariant
                    i < lines.len(),
                    j <= 5,
                    ls == views(lines@),
                    spec_contains(ls[i as int], REPLY_MARKER@),
                    spec_reply_scan_from(p@, ls, 0) == spec_reply_scan_from(p@, ls, i as int),
                    spec_reply_window(p@, ls, i as int, 0) == spec_reply_window(
                        p@,
                        ls,
                        i as int,
                        j as int,
                    ),
                decreases 5 - j,
            {
                if j >= lines.len() - i {
                    return ReplyScan::Malformed;
                }
                match captures(p, lines[i + j].as_str()) {
                    Some(caps) => {
                        return count_from_groups(&caps);
                    },
                    None => {},
                }
                j = j + 1;
            }
        }
        i = i + 1;
    }
    ReplyScan::NotFound
}

/// How the reply count of a thread moved since it was last seen.
pub enum ReplyChange {
    Increased { from: u64, to: u64 },
    Decreased { from: u64, to: u64 },
    Unchanged,
}

/// The change from the last seen count `last` to `count`.
pub open spec fn spec_reply_change(last: u64, count: u64) -> ReplyChange {
    if count > last {
        ReplyChange::Increased { from: last, to: count }
    } else if count < last {
        ReplyChange::Decreased { from: last, to: count }
    } else {
        ReplyChange::Unchanged
    }
}

/// What one fetched thread page did to a listener.
pub enum PageOutcome {
    /// The page gave no reply count; nothing changed.
    NoCount,
    /// The page gave a count; this is how it moved.
    Counted(ReplyChange),
    /// The page breaks the scan (see `ReplyScan::Malformed`); nothing changed.
    Malformed,
}

/// The listener that follows the reply count of one thread.
pub struct McbbsThreadData {
    /// The thread id.
    pub tid: u32,
    /// Milliseconds between two fetches of the thread page.
    pub cd: u64,
    /// Whether the listener keeps polling.
    pub running: bool,
    /// The reply count seen last (0 before the first one).
    pub last_replay: u64,
}

/// `https://www.mcbbs.net/thread-<tid>-1-1.html` for the thread id written as `tid`.
pub open spec fn spec_thread_url(tid: Seq<char>) -> Seq<char> {
    "https://www.mcbbs.net/thread-"@ + tid + "-1-1.html"@
}

/// The address of a thread page, for the thread id written as `tid`.
pub fn thread_url(tid: &str) -> (r: String)
    ensures
        r@ == spec_thread_url(tid@),
{
    let mut r = String::new();
    push_str(&mut r, "https://www.mcbbs.net/thread-");
    push_str(&mut r, tid);
    push_str(&mut r, "-1-1.html");
    assert(r@ =~= spec_thread_url(tid@));
    r
}

/// The address of a thread page, for a numeric thread id.
pub fn thread_url_of_id(tid: u32) -> (r: String)
    ensures
        r@ == spec_thread_url(spec_decimal(tid as nat)),
{
    let mut r = String::new();
    push_str(&mut r, "https://www.mcbbs.net/thread-");
    push_decimal(&mut r, tid as u64);
    push_str(&mut r, "-1-1.html");
    assert(r@ =~= spec_thread_url(spec_decimal(tid as nat)));
    r
}

/// The report of a change of the reply count of thread `tid`.
pub open spec fn spec_change_message(tid: u32, change: ReplyChange) -> Option<Seq<char>> {
    match change {
        ReplyChange::Increased { from, to } => Some(
            spec_thread_url(spec_decimal(tid as nat)) + " 的回复增加了["@ + spec_decimal(
                from as nat,
            ) + "->"@ + spec_decimal(to as nat) + "]"@,
        ),
        ReplyChange::Decreased { from, to } => Some(
            spec_thread_url(spec_decimal(tid as nat)) + " 的回复减少了["@ + spec_decimal(
                from as nat,
            ) + "->"@ + spec_decimal(to as nat) + "]"@,
        ),
        ReplyChange::Unchanged => None,
    }
}

impl McbbsThreadData {
    /// A running listener for thread `tid` polling every `cd` milliseconds, with no count seen.
    pub fn new(tid: u32, cd: u64) -> (r: Self)
        ensures
            r.tid == tid,
            r.cd == cd,
            r.running,
            r.last_replay == 0,
    {
        McbbsThreadData { tid, cd, running: true, last_replay: 0 }
    }

    /// Stops the listener.
    pub fn stop(&mut self)
        ensures
            *final(self) == (McbbsThreadData { running: false, ..*old(self) }),
    {
        self.running = false;
    }

    /// Takes in a reply count: reports how it moved and remembers it.
    pub fn observe(&mut self, count: u64) -> (r: ReplyChange)
        ensures
            r == spec_reply_change(old(self).last_replay, count),
            *final(self) == (McbbsThreadData { last_replay: count, ..*old(self) }),
    {
        let last = self.last_replay;
        if count > last {
            self.last_replay = count;
            ReplyChange::Increased { from: last, to: count }
        } else if count < last {
            self.last_replay = count;
            ReplyChange::Decreased { from: last, to: count }
        } else {
            ReplyChange::Unchanged
        }
    }

    /// Takes in the lines of a fetched thread page, read with the reply count pattern `p`.
    pub fn on_page(&mut self, p: &Pattern, lines: &Vec<String>) -> (r: PageOutcome)
        ensures
            match spec_reply_scan_from(p@, views(lines@), 0) {
                ReplyScan::Count(c) => {
                    &&& r == PageOutcome::Counted(spec_reply_change(old(self).last_replay, c))
                    &&& *final(self) == (McbbsThreadData { last_replay: c, ..*old(self) })
                },
                ReplyScan::NotFound => r == PageOutcome::NoCount && *final(self) == *old(self),
                ReplyScan::Malformed => r == PageOutcome::Malformed && *final(self) == *old(self),
            },
    {
        match scan_reply_count(p, lines) {
            ReplyScan::Count(c) => PageOutcome::Counted(self.observe(c)),
            ReplyScan::NotFound => PageOutcome::NoCount,
            ReplyScan::Malformed => PageOutcome::Malformed,
        }
    }

    /// Milliseconds to wait before the next fetch.
    pub fn poll_delay_ms(&self) -> (r: u64)
        ensures
            r == self.cd,
    {
        self.cd
    }

    /// Milliseconds to wait after a failed fetch, before the usual wait: `cd + 3000`, `None`
    /// where that overflows.
    pub fn retry_delay_ms(&self) -> (r: Option<u64>)
        ensures
            r matches Some(d) ==> d == self.cd + 3000,
            r is None <==> self.cd + 3000 > u64::MAX,
    {
        self.cd.checked_add(3000)
    }

    /// The report of `change`, for this listener's thread; `None` when nothing moved.
    pub fn change_message(&self, change: ReplyChange) -> (r: Option<String>)
        ensures
            r is Some <==> spec_change_message(self.tid, change) is Some,
            r matches Some(m) ==> Some(m@) == spec_change_message(self.tid, change),
    {
        match change {
            ReplyChange::Increased { from, to } => {
                let mut m = thread_url_of_id(self.tid);
                push_str(&mut m, " 的回复增加了[");
                push_decimal(&mut m, from);
                push_str(&mut m, "->");
                push_decimal(&mut m, to);
                push_str(&mut m, "]");
                Some(m)
            },
            ReplyChange::Decreased { from, to } => {
                let mut m = thread_url_of_id(self.tid);
                push_str(&mut m, " 的回复减少了[");
                push_decimal(&mut m, from);
                push_str(&mut m, "->");
                push_decimal(&mut m, to);
                push_str(&mut m, "]");
                Some(m)
            },
            ReplyChange::Unchanged => None,
        }
    }
}

/// After a count has been taken in, the listener holds it; taking in the same count again
/// reports no change; a change is reported exactly when the count differs from the one seen
/// last, upwards as an increase and downwards as a decrease, from the old count to the new.
pub proof fn law_observe(last: u64, count: u64)
    ensures
        spec_reply_change(count, count) == ReplyChange::Unchanged,
        (spec_reply_change(last, count) == ReplyChange::Unchanged) <==> last == count,
        count > last ==> spec_reply_change(last, count) == (ReplyChange::Increased {
            from: last,
            to: count,
        }),
        count < last ==> spec_reply_change(last, count) == (ReplyChange::Decreased {
            from: last,
            to: count,
        }),
{
}

/// Line `i + j` is the first of lines `i + j0`, ..., `i + 4` that the count pattern matches,
/// the lines before it all on the page.
pub open spec fn first_count_line(pattern: Seq<char>, lines: Seq<Seq<char>>, i: int, j0: int, j: int) -> bool {
    &&& j0 <= j < 5
    &&& 0 <= i
    &&& i + j < lines.len()
    &&& regex_captures(pattern, lines[i + j]) is Some
    &&& forall|x: int| j0 <= x < j ==> regex_captures(pattern, #[trigger] lines[i + x]) is None
}

/// The count pattern matches none of lines `i + j0`, ..., `i + 4`, all of them on the page.
pub open spec fn window_quiet(pattern: Seq<char>, lines: Seq<Seq<char>>, i: int, j0: int) -> bool {
    forall|x: int|
        j0 <= x < 5 ==> i + x < lines.len() && regex_captures(pattern, #[trigger] lines[i + x]) is None
}

/// The count pattern matches `line`, and the first group of the match reads as the count `n`.
pub open spec fn reads_count(pattern: Seq<char>, line: Seq<char>, n: u64) -> bool {
    &&& regex_captures(pattern, line) is Some
    &&& group(regex_captures(pattern, line).unwrap(), 1) is Some
    &&& spec_parse_unsigned(group(regex_captures(pattern, line).unwrap(), 1).unwrap(), u64::MAX as int)
        == Some(n as int)
}

/// Line `i` carries the reply marker and its window gives the count `n`.
pub open spec fn count_read_at(pattern: Seq<char>, lines: Seq<Seq<char>>, i: int, n: u64) -> bool {
    &&& 0 <= i < lines.len()
    &&& spec_contains(lines[i], REPLY_MARKER@)
    &&& exists|j: int|
        #[trigger] first_count_line(pattern, lines, i, 0, j) && reads_count(pattern, lines[i + j], n)
}

/// Every line from `i0` up to `i` that carries the reply marker has a quiet window.
pub open spec fn markers_quiet(pattern: Seq<char>, lines: Seq<Seq<char>>, i0: int, i: int) -> bool {
    forall|b: int|
        i0 <= b < i && spec_contains(#[trigger] lines[b], REPLY_MARKER@) ==> window_quiet(
            pattern,
            lines,
            b,
            0,
        )
}

proof fn lemma_reply_window(pattern: Seq<char>, lines: Seq<Seq<char>>, i: int, j0: int, n: u64)
    requires
        0 <= i,
        0 <= j0 <= 5,
    ensures
        spec_reply_window(pattern, lines, i, j0) is None <==> window_quiet(pattern, lines, i, j0),
        spec_reply_window(pattern, lines, i, j0) == Some(ReplyScan::Count(n)) <==> exists|j: int|
            #[trigger] first_count_line(pattern, lines, i, j0, j) && reads_count(
                pattern,
                lines[i + j],
                n,
            ),
    decreases 5 - j0,
{
    if j0 < 5 {
        if j0 >= lines.len() - i {
            assert(!window_quiet(pattern, lines, i, j0)) by {
                assert(!(i + j0 < lines.len()));
            }
            assert forall|j: int| !#[trigger] first_count_line(pattern, lines, i, j0, j) by {
                if first_count_line(pattern, lines, i, j0, j) {
                    assert(i + j < lines.len());
                }
            }
        } else if regex_captures(pattern, lines[i + j0]) is Some {
            assert(!window_quiet(pattern, lines, i, j0)) by {
                assert(regex_captures(pattern, lines[i + j0]) is Some);
            }
            assert(first_count_line(pattern, lines, i, j0, j0));
            assert forall|j: int| #[trigger] first_count_line(pattern, lines, i, j0, j) implies j
                == j0 by {
                if j > j0 {
                    assert(regex_captures(pattern, lines[i + j0]) is None);
                }
            }
            let caps = regex_captures(pattern, lines[i + j0]).unwrap();
            if group(caps, 1) is Some {
                lemma_parse_unsigned_range(group(caps, 1).unwrap(), u64::MAX as int);
            }
            if spec_reply_window(pattern, lines, i, j0) == Some(ReplyScan::Count(n)) {
                assert(reads_count(pattern, lines[i + j0], n));
            }
            if reads_count(pattern, lines[i + j0], n) {
                assert(spec_count_from_groups(caps) == ReplyScan::Count(n));
            }
        } else {
            lemma_reply_window(pattern, lines, i, j0 + 1, n);
            assert(window_quiet(pattern, lines, i, j0) <==> window_quiet(pattern, lines, i, j0 + 1))
                by {
                if window_quiet(pattern, lines, i, j0 + 1) {
                    assert forall|x: int| j0 <= x < 5 implies i + x < lines.len() && regex_captures(
                        pattern,
                        #[trigger] lines[i + x],
                    ) is None by {
                        if x == j0 {
                        } else {
                            assert(regex_captures(pattern, lines[i + x]) is None);
                        }
                    }
                }
            }
            assert forall|j: int|
                #![trigger first_count_line(pattern, lines, i, j0, j)]
                #![trigger first_count_line(pattern, lines, i, j0 + 1, j)]
                first_count_line(pattern, lines, i, j0, j) <==> first_count_line(
                    pattern,
                    lines,
                    i,
                    j0 + 1,
                    j,
                ) by {
                if first_count_line(pattern, lines, i, j0 + 1, j) {
                    assert forall|x: int| j0 <= x < j implies regex_captures(
                        pattern,
                        #[trigger] lines[i + x],
                    ) is None by {
                        if x > j0 {
                            assert(regex_captures(pattern, lines[i + x]) is None);
                        }
                    }
                }
                if first_count_line(pattern, lines, i, j0, j) {
                    assert(j != j0);
                }
            }
        }
    }
}

proof fn lemma_reply_scan(pattern: Seq<char>, lines: Seq<Seq<char>>, i0: int, n: u64)
    requires
        0 <= i0,
    ensures
        spec_reply_scan_from(pattern, lines, i0) == ReplyScan::Count(n) <==> exists|i: int|
            i0 <= i && markers_quiet(pattern, lines, i0, i) && #[trigger] count_read_at(
                pattern,
                lines,
                i,
                n,
            ),
    decreases lines.len() - i0,
{
    if i0 < lines.len() {
        lemma_reply_scan(pattern, lines, i0 + 1, n);
        let marker = spec_contains(lines[i0], REPLY_MARKER@);
        if marker {
            lemma_reply_window(pattern, lines, i0, 0, n);
        }
        if spec_reply_scan_from(pattern, lines, i0) == ReplyScan::Count(n) {
            if marker && spec_reply_window(pattern, lines, i0, 0) is Some {
                assert(markers_quiet(pattern, lines, i0, i0));
                assert(count_read_at(pattern, lines, i0, n));
            } else {
                let i = choose|i: int|
                    i0 + 1 <= i && markers_quiet(pattern, lines, i0 + 1, i) && #[trigger] count_read_at(
                        pattern,
                        lines,
                        i,
                        n,
                    );
                assert(markers_quiet(pattern, lines, i0, i)) by {
                    assert forall|b: int|
                        i0 <= b < i && spec_contains(#[trigger] lines[b], REPLY_MARKER@) implies window_quiet(
                        pattern,
                        lines,
                        b,
                        0,
                    ) by {
                        if b == i0 {
                            lemma_reply_window(pattern, lines, i0, 0, n);
                        }
                    }
                }
            }
        }
        if exists|i: int|
            i0 <= i && markers_quiet(pattern, lines, i0, i) && #[trigger] count_read_at(
                pattern,
                lines,
                i,
                n,
            ) {
            let i = choose|i: int|
                i0 <= i && markers_quiet(pattern, lines, i0, i) && #[trigger] count_read_at(
                    pattern,
                    lines,
                    i,
                    n,
                );
            if i == i0 {
                let j = choose|j: int|
                    #[trigger] first_count_line(pattern, lines, i, 0, j) && reads_count(
                        pattern,
                        lines[i + j],
                        n,
                    );
                assert(spec_reply_window(pattern, lines, i0, 0) == Some(ReplyScan::Count(n)));
            } else {
                if marker {
                    assert(window_quiet(pattern, lines, i0, 0));
                }
                assert(markers_quiet(pattern, lines, i0 + 1, i));
            }
        }
    }
}

/// A thread page gives the reply count `n` exactly when some line carrying the reply marker
/// reads `n` from the first of it and the four lines after it that the count pattern
/// matches, and every line carrying the marker before it has those five lines on the page
/// with none of them matching.
pub proof fn law_reply_count_read(pattern: Seq<char>, lines: Seq<Seq<char>>, n: u64)
    ensures
        spec_reply_scan_from(pattern, lines, 0) == ReplyScan::Count(n) <==> exists|i: int|
            0 <= i && markers_quiet(pattern, lines, 0, i) && #[trigger] count_read_at(
                pattern,
                lines,
                i,
                n,
            ),
{
    lemma_reply_scan(pattern, lines, 0, n);
}

} // verus!
