use vstd::prelude::*;
use crate::pattern::{Pattern, captures, group, group_text, groups_view, regex_captures};
use crate::thread::{spec_thread_url, thread_url};
use crate::text::{
    push_str, contains_str, lemma_replace_append, lemma_replace_passes_prefix, occurs_at, replace_str,
    spec_contains, spec_replace, views,
};

verus! {

/// The pattern of a line that lists a thread: group 1 is the thread id, group 2 the title.
pub const CHAT_PATTERN: &'static str = r#".*thread-(?P<tid>\d+)-.*"s xst">(?P<title>.*)</a>.*"#;

/// The pattern of a line with a `<span>`: group 1 is its content.
pub const SPAN_PATTERN: &'static str = r#".*<span.*?>(?P<content>.*)</span>.*"#;

/// Lines holding this text are passed over when looking for the span.
pub const SKIPPED_MARKER: &'static str = "tps";

/// A thread listed on the chat forum, with the text of the first span from its line on.
pub struct ChatEntry {
    pub content: String,
    pub tid: String,
    pub title: String,
}

/// The plain content of a `ChatEntry`.
pub struct ChatEntryView {
    pub content: Seq<char>,
    pub tid: Seq<char>,
    pub title: Seq<char>,
}

impl View for ChatEntry {
    type V = ChatEntryView;

    open spec fn view(&self) -> ChatEntryView {
        ChatEntryView { content: self.content@, tid: self.tid@, title: self.title@ }
    }
}

/// The content of a span as shown: `&nbsp;` turned into a space, then `</span>` removed.
pub open spec fn spec_clean_content(c: Seq<char>) -> Seq<char> {
    spec_replace(spec_replace(c, "&nbsp;"@, " "@), "</span>"@, ""@)
}

/// What a listed thread yields.
pub enum ChatStep {
    /// No span follows it.
    Skip,
    Found(ChatEntryView),
    /// A match cannot be read.
    Broken,
}

/// Looking from line `i` on for the span that belongs to the thread whose match has the
/// groups `caps`: the first line without `tps` that the span pattern matches.
pub open spec fn spec_chat_span_from(
    span: Seq<char>,
    lines: Seq<Seq<char>>,
    caps: Seq<Option<Seq<char>>>,
    i: int,
) -> ChatStep
    decreases lines.len() - i,
{
    if i < 0 || i >= lines.len() {
        ChatStep::Skip
    } else if !spec_contains(lines[i], SKIPPED_MARKER@) && regex_captures(span, lines[i]) is Some {
        match (group(regex_captures(span, lines[i]).unwrap(), 1), group(caps, 1), group(caps, 2)) {
            (Some(c), Some(tid), Some(title)) => ChatStep::Found(
                ChatEntryView { content: spec_clean_content(c), tid, title },
            ),
            _ => ChatStep::Broken,
        }
    } else {
        spec_chat_span_from(span, lines, caps, i + 1)
    }
}

/// The entries listed from line `i` on, in page order, and whether the scan reached the end.
pub open spec fn spec_chat_scan(
    pattern: Seq<char>,
    span: Seq<char>,
    lines: Seq<Seq<char>>,
    i: int,
) -> (Seq<ChatEntryView>, bool)
    decreases lines.len() - i,
{
    if i < 0 || i >= lines.len() {
        (Seq::empty(), true)
    } else {
        match regex_captures(pattern, lines[i]) {
            None => spec_chat_scan(pattern, span, lines, i + 1),
            Some(caps) => match spec_chat_span_from(span, lines, caps, i) {
                ChatStep::Skip => spec_chat_scan(pattern, span, lines, i + 1),
                ChatStep::Found(e) => {
                    let rest = spec_chat_scan(pattern, span, lines, i + 1);
                    (seq![e] + rest.0, rest.1)
                },
                ChatStep::Broken => (Seq::empty(), false),
            },
        }
    }
}

/// The content of a span as shown.
pub fn clean_content(c: &str) -> (r: String)
    ensures
        r@ == spec_clean_content(c@),
{
    let a = replace_str(c, "&nbsp;", " ");
    replace_str(a.as_str(), "</span>", "")
}

/// The entry of the thread listed on line `i`, whose match has the groups `caps`.
pub fn chat_span_from(span: &Pattern, lines: &Vec<String>, caps: &Vec<Option<String>>, i: usize) -> (r: (
    Option<ChatEntry>,
    bool,
))
    ensures
        match spec_chat_span_from(span@, views(lines@), groups_view(caps@), i as int) {
            ChatStep::Skip => r.0 is None && r.1,
            ChatStep::Found(e) => r.1 && (r.0 matches Some(x) && x@ == e),
            ChatStep::Broken => r.0 is None && !r.1,
        },
{
    let ghost ls = views(lines@);
    let ghost g = groups_view(caps@);
    let mut k = i;
    while k < lines.len()
        invariant
            i <= k,
            k <= lines.len() || k == i,
            ls == views(lines@),
            g == groups_view(caps@),
            spec_chat_span_from(span@, ls, g, i as int) == spec_chat_span_from(
                span@,
                ls,
                g,
                k as int,
            ),
        decreases lines.len() - k,
    {
        if !contains_str(lines[k].as_str(), SKIPPED_MARKER) {
            match captures(span, lines[k].as_str()) {
                Some(sc) => {
                    let content = group_text(&sc, 1);
                    let tid = group_text(caps, 1);
                    let title = group_text(caps, 2);
                    match (content, tid, title) {
                        (Some(c), Some(tid), Some(title)) => {
                            let content = clean_content(c.as_str());
                            return (Some(ChatEntry { content, tid, title }), true);
                        },
                        _ => {
                            return (None, false);
                        },
                    }
                },
                None => {},
            }
        }
        k = k + 1;
    }
    (None, true)
}

/// The result of scanning the chat forum page.
pub struct ChatScan {
    /// The entries, in page order (up to a broken line, if any).
    pub found: Vec<ChatEntry>,
    /// Whether the scan reached the end of the page.
    pub complete: bool,
}

/// The views of a sequence of entries.
pub open spec fn chat_views(v: Seq<ChatEntry>) -> Seq<ChatEntryView> {
    v.map_values(|e: ChatEntry| e@)
}

/// Scans the lines of the chat forum page: each line that the thread pattern `p` matches
/// yields the first span (pattern `span`) from that line on.
pub fn scan_chat(p: &Pattern, span: &Pattern, lines: &Vec<String>) -> (r: ChatScan)
    ensures
        (chat_views(r.found@), r.complete) == spec_chat_scan(p@, span@, views(lines@), 0),
{
    let ghost ls = views(lines@);
    let mut found: Vec<ChatEntry> = Vec::new();
    let mut i: usize = 0;
    while i < lines.len()
        invariant
            i <= lines.len(),
            ls == views(lines@),
            spec_chat_scan(p@, span@, ls, 0) == (
                chat_views(found@) + spec_chat_scan(p@, span@, ls, i as int).0,
                spec_chat_scan(p@, span@, ls, i as int).1,
            ),
        decreases lines.len() - i,
    {
        match captures(p, lines[i].as_str()) {
            Some(caps) => {
                let (e, ok) = chat_span_from(span, lines, &caps, i);
                if !ok {
                    assert(chat_views(found@) + Seq::<ChatEntryView>::empty() =~= chat_views(found@));
                    return ChatScan { found, complete: false };
                }
                match e {
                    Some(e) => {
                        let ghost before = found@;
                        found.push(e);
                        assert(chat_views(found@) =~= chat_views(before) + seq![found@.last()@]);
                    },
                    None => {},
                }
            },
            None => {},
        }
        i = i + 1;
    }
    assert(chat_views(found@) + Seq::<ChatEntryView>::empty() =~= chat_views(found@));
    ChatScan { found, complete: true }
}

/// `<content> <thread address> <title>`, the line shown for an entry.
pub open spec fn spec_chat_message(e: ChatEntryView) -> Seq<char> {
    e.content + " "@ + spec_thread_url(e.tid) + " "@ + e.title
}

impl ChatEntry {
    /// The line shown for this entry.
    pub fn message(&self) -> (r: String)
        ensures
            r@ == spec_chat_message(self@),
    {
        let mut r = String::new();
        push_str(&mut r, self.content.as_str());
        push_str(&mut r, " ");
        let u = thread_url(self.tid.as_str());
        push_str(&mut r, u.as_str());
        push_str(&mut r, " ");
        push_str(&mut r, self.title.as_str());
        r
    }
}

/// The number of lines from `i` on that `pattern` matches.
pub open spec fn spec_matching_lines(pattern: Seq<char>, lines: Seq<Seq<char>>, i: int) -> nat
    decreases lines.len() - i,
{
    if i < 0 || i >= lines.len() {
        0
    } else {
        (if regex_captures(pattern, lines[i]) is Some {
            1nat
        } else {
            0nat
        }) + spec_matching_lines(pattern, lines, i + 1)
    }
}

/// In every match of `pattern` on a line of `lines`, groups `1` to `k` take part.
pub open spec fn groups_take_part(pattern: Seq<char>, lines: Seq<Seq<char>>, k: int) -> bool {
    forall|j: int, g: int|
        0 <= j < lines.len() && 1 <= g <= k && #[trigger] regex_captures(pattern, lines[j]) is Some
            ==> #[trigger] group(regex_captures(pattern, lines[j]).unwrap(), g) is Some
}

proof fn lemma_span_not_broken(
    span: Seq<char>,
    lines: Seq<Seq<char>>,
    caps: Seq<Option<Seq<char>>>,
    i: int,
)
    requires
        groups_take_part(span, lines, 1),
        group(caps, 1) is Some,
        group(caps, 2) is Some,
    ensures
        !(spec_chat_span_from(span, lines, caps, i) is Broken),
    decreases lines.len() - i,
{
    if 0 <= i < lines.len() {
        if !spec_contains(lines[i], SKIPPED_MARKER@) && regex_captures(span, lines[i]) is Some {
            assert(group(regex_captures(span, lines[i]).unwrap(), 1) is Some);
        } else {
            lemma_span_not_broken(span, lines, caps, i + 1);
        }
    }
}

proof fn lemma_chat_scan_from(pattern: Seq<char>, span: Seq<char>, lines: Seq<Seq<char>>, i: int)
    requires
        0 <= i,
    ensures
        spec_chat_scan(pattern, span, lines, i).0.len() <= spec_matching_lines(pattern, lines, i),
        groups_take_part(pattern, lines, 2) && groups_take_part(span, lines, 1) ==> spec_chat_scan(
            pattern,
            span,
            lines,
            i,
        ).1,
    decreases lines.len() - i,
{
    if i < lines.len() {
        lemma_chat_scan_from(pattern, span, lines, i + 1);
        match regex_captures(pattern, lines[i]) {
            None => {},
            Some(caps) => {
                if groups_take_part(pattern, lines, 2) && groups_take_part(span, lines, 1) {
                    assert(group(regex_captures(pattern, lines[i]).unwrap(), 1) is Some);
                    assert(group(regex_captures(pattern, lines[i]).unwrap(), 2) is Some);
                    lemma_span_not_broken(span, lines, caps, i);
                }
            },
        }
    }
}

/// Reading the chat forum page gives at most one entry per line that the thread pattern
/// matches; and wherever the groups of both patterns take part in every match (group 1 and
/// 2 of the thread pattern, group 1 of the span pattern), the scan reads to the end of the
/// page.
pub proof fn law_chat_scan_bounds(pattern: Seq<char>, span: Seq<char>, lines: Seq<Seq<char>>)
    ensures
        spec_chat_scan(pattern, span, lines, 0).0.len() <= spec_matching_lines(pattern, lines, 0),
        groups_take_part(pattern, lines, 2) && groups_take_part(span, lines, 1) ==> spec_chat_scan(
            pattern,
            span,
            lines,
            0,
        ).1,
{
    lemma_chat_scan_from(pattern, span, lines, 0);
}

/// How a span's content is shown, for all texts `a` and `b`: an `&nbsp;` between them
/// becomes a space, a `</span>` between them is dropped, and text with neither an `&` nor a
/// `<` in it is shown as it is.
pub proof fn law_clean_content(a: Seq<char>, b: Seq<char>)
    ensures
        spec_clean_content(a + "&nbsp;"@ + b) == spec_clean_content(a) + " "@
            + spec_clean_content(b),
        spec_clean_content(a + "</span>"@ + b) == spec_clean_content(a) + spec_clean_content(b),
        (forall|i: int| 0 <= i < a.len() ==> #[trigger] a[i] != '&' && a[i] != '<')
            ==> spec_clean_content(a) == a,
{
    reveal_strlit("&nbsp;");
    reveal_strlit("</span>");
    reveal_strlit(" ");
    reveal_strlit("");
    let nb = "&nbsp;"@;
    let sp = "</span>"@;
    let blank = " "@;
    let gone = ""@;
    let r1a = spec_replace(a, nb, blank);
    let r1b = spec_replace(b, nb, blank);
    assert(spec_clean_content(b) == spec_replace(r1b, sp, gone));
    // `&nbsp;` between `a` and `b`.
    assert(a + nb + b =~= a + (nb + b));
    lemma_replace_append(a, nb + b, nb, blank);
    assert(occurs_at(nb + b, nb, 0)) by {
        assert((nb + b).subrange(0, 6) =~= nb);
    }
    assert((nb + b).skip(6) =~= b);
    assert(spec_replace(nb + b, nb, blank) == blank + r1b);
    assert(spec_replace(a + nb + b, nb, blank) =~= r1a + (blank + r1b));
    lemma_replace_append(r1a, blank + r1b, sp, gone);
    lemma_replace_passes_prefix(blank, r1b, sp, gone);
    assert(spec_clean_content(a + nb + b) =~= spec_clean_content(a) + blank + spec_clean_content(b));
    // `</span>` between `a` and `b`.
    assert(a + sp + b =~= a + (sp + b));
    lemma_replace_append(a, sp + b, nb, blank);
    lemma_replace_passes_prefix(sp, b, nb, blank);
    assert(spec_replace(a + sp + b, nb, blank) =~= r1a + (sp + r1b));
    lemma_replace_append(r1a, sp + r1b, sp, gone);
    assert(occurs_at(sp + r1b, sp, 0)) by {
        assert((sp + r1b).subrange(0, 7) =~= sp);
    }
    assert((sp + r1b).skip(7) =~= r1b);
    assert(spec_replace(sp + r1b, sp, gone) =~= spec_replace(r1b, sp, gone));
    assert(spec_clean_content(a + sp + b) =~= spec_clean_content(a) + spec_clean_content(b));
    // Neither `&` nor `<` in `a`.
    if forall|i: int| 0 <= i < a.len() ==> #[trigger] a[i] != '&' && a[i] != '<' {
        let e = Seq::<char>::empty();
        assert(a + e =~= a);
        lemma_replace_passes_prefix(a, e, nb, blank);
        assert(spec_replace(e, nb, blank) =~= e);
        lemma_replace_passes_prefix(a, e, sp, gone);
        assert(spec_replace(e, sp, gone) =~= e);
    }
}

/// Line `m` is the first line from line `k` on without `tps` that the span pattern matches.
pub open spec fn first_span_line(span: Seq<char>, lines: Seq<Seq<char>>, k: int, m: int) -> bool {
    &&& 0 <= k <= m < lines.len()
    &&& !spec_contains(lines[m], SKIPPED_MARKER@)
    &&& regex_captures(span, lines[m]) is Some
    &&& forall|x: int|
        k <= x < m ==> spec_contains(#[trigger] lines[x], SKIPPED_MARKER@) || regex_captures(
            span,
            lines[x],
        ) is None
}

/// Line `k` lists the entry `e`: the thread pattern matches it with `e`'s id as group 1 and
/// `e`'s title as group 2, and `e`'s content is group 1 of the first span from line `k` on,
/// as shown.
pub open spec fn lists_chat_entry(
    pattern: Seq<char>,
    span: Seq<char>,
    lines: Seq<Seq<char>>,
    k: int,
    e: ChatEntryView,
) -> bool {
    &&& 0 <= k < lines.len()
    &&& regex_captures(pattern, lines[k]) matches Some(caps)
    &&& group(caps, 1) == Some(e.tid)
    &&& group(caps, 2) == Some(e.title)
    &&& exists|m: int|
        #[trigger] first_span_line(span, lines, k, m) && group(
            regex_captures(span, lines[m]).unwrap(),
            1,
        ) is Some && e.content == spec_clean_content(
            group(regex_captures(span, lines[m]).unwrap(), 1).unwrap(),
        )
}

/// Some line from line `i` on lists the entry `e`.
pub open spec fn chat_entry_listed_from(
    pattern: Seq<char>,
    span: Seq<char>,
    lines: Seq<Seq<char>>,
    e: ChatEntryView,
    i: int,
) -> bool {
    exists|k: int| i <= k && #[trigger] lists_chat_entry(pattern, span, lines, k, e)
}

/// Looking for the span from line `j` on finds the one of line `m` exactly when `m` is the
/// first line from `j` on without `tps` that the span pattern matches.
proof fn lemma_span_found(
    span: Seq<char>,
    lines: Seq<Seq<char>>,
    caps: Seq<Option<Seq<char>>>,
    j: int,
)
    requires
        0 <= j,
    ensures
        spec_chat_span_from(span, lines, caps, j) matches ChatStep::Found(e) ==> {
            &&& group(caps, 1) == Some(e.tid)
            &&& group(caps, 2) == Some(e.title)
            &&& exists|m: int|
                #[trigger] first_span_line(span, lines, j, m) && group(
                    regex_captures(span, lines[m]).unwrap(),
                    1,
                ) is Some && e.content == spec_clean_content(
                    group(regex_captures(span, lines[m]).unwrap(), 1).unwrap(),
                )
        },
        forall|m: int|
            #[trigger] first_span_line(span, lines, j, m) && group(
                regex_captures(span, lines[m]).unwrap(),
                1,
            ) is Some && group(caps, 1) is Some && group(caps, 2) is Some
                ==> spec_chat_span_from(span, lines, caps, j) == ChatStep::Found(
                ChatEntryView {
                    content: spec_clean_content(
                        group(regex_captures(span, lines[m]).unwrap(), 1).unwrap(),
                    ),
                    tid: group(caps, 1).unwrap(),
                    title: group(caps, 2).unwrap(),
                },
            ),
    decreases lines.len() - j,
{
    if j < lines.len() {
        if !spec_contains(lines[j], SKIPPED_MARKER@) && regex_captures(span, lines[j]) is Some {
            assert(first_span_line(span, lines, j, j));
            assert forall|m: int|
                #[trigger] first_span_line(span, lines, j, m) implies m == j by {
                if m > j {
                    assert(spec_contains(lines[j], SKIPPED_MARKER@) || regex_captures(
                        span,
                        lines[j],
                    ) is None);
                }
            }
        } else {
            lemma_span_found(span, lines, caps, j + 1);
            if let ChatStep::Found(e) = spec_chat_span_from(span, lines, caps, j) {
                let m = choose|m: int|
                    #[trigger] first_span_line(span, lines, j + 1, m) && group(
                        regex_captures(span, lines[m]).unwrap(),
                        1,
                    ) is Some && e.content == spec_clean_content(
                        group(regex_captures(span, lines[m]).unwrap(), 1).unwrap(),
                    );
                assert(first_span_line(span, lines, j, m));
            }
            assert forall|m: int|
                #[trigger] first_span_line(span, lines, j, m) implies first_span_line(
                span,
                lines,
                j + 1,
                m,
            ) by {
                if m == j {
                    assert(false);
                }
            }
        }
    }
}

/// Each entry that reading the chat forum page from line `i` gives is listed by a line of
/// the page at or after `i`: its id and its whole title are the groups of that line's match,
/// its content is the first span from that line on, as shown.
pub proof fn law_chat_scan_reports_listed_entries(
    pattern: Seq<char>,
    span: Seq<char>,
    lines: Seq<Seq<char>>,
    i: int,
)
    requires
        0 <= i,
    ensures
        forall|a: int|
            0 <= a < spec_chat_scan(pattern, span, lines, i).0.len() ==> chat_entry_listed_from(
                pattern,
                span,
                lines,
                #[trigger] spec_chat_scan(pattern, span, lines, i).0[a],
                i,
            ),
    decreases lines.len() - i,
{
    if i < lines.len() {
        let found = spec_chat_scan(pattern, span, lines, i).0;
        let rest = spec_chat_scan(pattern, span, lines, i + 1).0;
        law_chat_scan_reports_listed_entries(pattern, span, lines, i + 1);
        match regex_captures(pattern, lines[i]) {
            None => {
                assert(found == rest);
                assert forall|a: int| 0 <= a < found.len() implies chat_entry_listed_from(
                    pattern,
                    span,
                    lines,
                    #[trigger] found[a],
                    i,
                ) by {
                    assert(chat_entry_listed_from(pattern, span, lines, rest[a], i + 1));
                }
            },
            Some(caps) => {
                lemma_span_found(span, lines, caps, i);
                match spec_chat_span_from(span, lines, caps, i) {
                    ChatStep::Skip => {
                        assert(found == rest);
                        assert forall|a: int| 0 <= a < found.len() implies chat_entry_listed_from(
                            pattern,
                            span,
                            lines,
                            #[trigger] found[a],
                            i,
                        ) by {
                            assert(chat_entry_listed_from(pattern, span, lines, rest[a], i + 1));
                        }
                    },
                    ChatStep::Found(e) => {
                        assert(lists_chat_entry(pattern, span, lines, i, e));
                        assert(found == seq![e] + rest);
                        assert forall|a: int| 0 <= a < found.len() implies chat_entry_listed_from(
                            pattern,
                            span,
                            lines,
                            #[trigger] found[a],
                            i,
                        ) by {
                            if a == 0 {
                                assert(found[0] == e);
                            } else {
                                assert(found[a] == rest[a - 1]);
                                assert(chat_entry_listed_from(
                                    pattern,
                                    span,
                                    lines,
                                    rest[a - 1],
                                    i + 1,
                                ));
                            }
                        }
                    },
                    ChatStep::Broken => {},
                }
            },
        }
    }
}

proof fn lemma_chat_scan_reports_line(
    pattern: Seq<char>,
    span: Seq<char>,
    lines: Seq<Seq<char>>,
    i: int,
    k: int,
    e: ChatEntryView,
)
    requires
        0 <= i <= k,
        spec_chat_scan(pattern, span, lines, i).1,
        lists_chat_entry(pattern, span, lines, k, e),
    ensures
        spec_chat_scan(pattern, span, lines, i).0.contains(e),
    decreases k - i,
{
    let whole = spec_chat_scan(pattern, span, lines, i);
    let rest = spec_chat_scan(pattern, span, lines, i + 1);
    if i == k {
        let caps = regex_captures(pattern, lines[k]).unwrap();
        lemma_span_found(span, lines, caps, k);
        let m = choose|m: int|
            #[trigger] first_span_line(span, lines, k, m) && group(
                regex_captures(span, lines[m]).unwrap(),
                1,
            ) is Some && e.content == spec_clean_content(
                group(regex_captures(span, lines[m]).unwrap(), 1).unwrap(),
            );
        assert(spec_chat_span_from(span, lines, caps, k) == ChatStep::Found(e));
        assert(whole.0[0] == e);
    } else {
        match regex_captures(pattern, lines[i]) {
            None => {
                lemma_chat_scan_reports_line(pattern, span, lines, i + 1, k, e);
            },
            Some(caps) => match spec_chat_span_from(span, lines, caps, i) {
                ChatStep::Skip => {
                    lemma_chat_scan_reports_line(pattern, span, lines, i + 1, k, e);
                },
                ChatStep::Found(f) => {
                    lemma_chat_scan_reports_line(pattern, span, lines, i + 1, k, e);
                    let a = choose|a: int| 0 <= a < rest.0.len() && rest.0[a] == e;
                    assert(whole.0[a + 1] == e);
                },
                ChatStep::Broken => {},
            },
        }
    }
}

/// Reading a chat forum page to its end gives the entry of every line that lists one.
pub proof fn law_chat_scan_reports_every_entry(
    pattern: Seq<char>,
    span: Seq<char>,
    lines: Seq<Seq<char>>,
    k: int,
    e: ChatEntryView,
)
    requires
        spec_chat_scan(pattern, span, lines, 0).1,
        lists_chat_entry(pattern, span, lines, k, e),
    ensures
        spec_chat_scan(pattern, span, lines, 0).0.contains(e),
{
    lemma_chat_scan_reports_line(pattern, span, lines, 0, k, e);
}

} // verus!
