use vstd::prelude::*;
use crate::numbers::{parse_i32, spec_parse_i32};
use crate::pattern::{Pattern, captures, group, group_text, groups_view, regex_captures};
use crate::questions::keep_last;
use crate::text::{push_str, views};
use crate::thread::{spec_thread_url, thread_url};

verus! {

/// The pattern of a line that lists a thread: group 1 is the thread id, group 2 the title.
pub const WATER_PATTERN: &'static str = r#".*viewthread.*tid=(?P<tid>\d+).*"s xst">(?P<title>.*)</a>.*"#;

/// How many thread ids are remembered.
pub const RECENT_CAPACITY: usize = 70;

/// A thread id taken as recent enough to report: one that parses as an `i32` above one
/// million, or one that does not parse as an `i32` at all.
pub open spec fn spec_tid_is_recent(tid: Seq<char>) -> bool {
    match spec_parse_i32(tid) {
        Some(v) => v > 1000000,
        None => true,
    }
}

/// `s` with the elements at `k` and at the end swapped.
pub open spec fn swap_to_back<A>(s: Seq<A>, k: int) -> Seq<A> {
    s.update(k, s.last()).update(s.len() - 1, s[k])
}

/// The remembered ids after seeing `tid`, and whether `tid` is new: a remembered id trades
/// places with the last one; a new id is appended and the oldest ids beyond
/// `RECENT_CAPACITY` are forgotten.
pub open spec fn spec_water_observe(recent: Seq<Seq<char>>, tid: Seq<char>) -> (
    Seq<Seq<char>>,
    bool,
) {
    if recent.contains(tid) {
        (swap_to_back(recent, recent.index_of(tid)), false)
    } else {
        (keep_last(recent.push(tid), RECENT_CAPACITY as int), true)
    }
}

/// A newly seen thread.
pub struct WaterThread {
    pub tid: String,
    pub title: String,
}

/// The plain content of a `WaterThread`.
pub struct WaterThreadView {
    pub tid: Seq<char>,
    pub title: Seq<char>,
}

impl View for WaterThread {
    type V = WaterThreadView;

    open spec fn view(&self) -> WaterThreadView {
        WaterThreadView { tid: self.tid@, title: self.title@ }
    }
}

/// What one line does.
pub enum WaterStep {
    /// Nothing is reported; the remembered ids become these.
    Quiet(Seq<Seq<char>>),
    /// A new thread is reported; the remembered ids become these.
    Found(Seq<Seq<char>>, WaterThreadView),
    /// The match of the line cannot be read.
    Broken,
}

/// What the line `line` does to the remembered ids `recent`, the groups of its match being
/// `caps`.
pub open spec fn spec_water_groups(caps: Seq<Option<Seq<char>>>, recent: Seq<Seq<char>>) -> WaterStep {
    match group(caps, 1) {
        None => WaterStep::Broken,
        Some(tid) => if !spec_tid_is_recent(tid) {
            WaterStep::Quiet(recent)
        } else if recent.contains(tid) {
            WaterStep::Quiet(spec_water_observe(recent, tid).0)
        } else {
            match group(caps, 2) {
                Some(title) => WaterStep::Found(
                    spec_water_observe(recent, tid).0,
                    WaterThreadView { tid, title },
                ),
                None => WaterStep::Broken,
            }
        },
    }
}

/// What the line `line` does to the remembered ids `recent`.
pub open spec fn spec_water_line(pattern: Seq<char>, line: Seq<char>, recent: Seq<Seq<char>>) -> WaterStep {
    match regex_captures(pattern, line) {
        None => WaterStep::Quiet(recent),
        Some(caps) => spec_water_groups(caps, recent),
    }
}

/// Scanning lines `i..` with remembered ids `recent`: the threads reported in page order,
/// the remembered ids at the end, and whether the scan reached the end of the page.
pub open spec fn spec_water_scan(
    pattern: Seq<char>,
    lines: Seq<Seq<char>>,
    recent: Seq<Seq<char>>,
    i: int,
) -> (Seq<WaterThreadView>, Seq<Seq<char>>, bool)
    decreases lines.len() - i,
{
    if i < 0 || i >= lines.len() {
        (Seq::empty(), recent, true)
    } else {
        match spec_water_line(pattern, lines[i], recent) {
            WaterStep::Quiet(r) => spec_water_scan(pattern, lines, r, i + 1),
            WaterStep::Found(r, t) => {
                let rest = spec_water_scan(pattern, lines, r, i + 1);
                (seq![t] + rest.0, rest.1, rest.2)
            },
            WaterStep::Broken => (Seq::empty(), recent, false),
        }
    }
}

/// The ids of the threads seen last, at most `RECENT_CAPACITY` of them, each once; the one
/// seen last is at the end.
pub struct WaterWatch {
    recent: Vec<String>,
}

/// The result of scanning a forum page for new threads.
pub struct WaterScan {
    /// The new threads, in page order (up to a broken line, if any).
    pub found: Vec<WaterThread>,
    /// Whether the scan reached the end of the page.
    pub complete: bool,
}

/// The views of a sequence of threads.
pub open spec fn water_views(v: Seq<WaterThread>) -> Seq<WaterThreadView> {
    v.map_values(|t: WaterThread| t@)
}

impl View for WaterWatch {
    type V = Seq<Seq<char>>;

    closed spec fn view(&self) -> Seq<Seq<char>> {
        views(self.recent@)
    }
}

/// A sequence of ids that a watch can hold.
pub open spec fn valid_recent(s: Seq<Seq<char>>) -> bool {
    s.len() <= RECENT_CAPACITY && s.no_duplicates()
}

/// Seeing an id keeps the remembered ids valid.
pub proof fn lemma_observe_valid(recent: Seq<Seq<char>>, tid: Seq<char>)
    requires
        valid_recent(recent),
    ensures
        valid_recent(spec_water_observe(recent, tid).0),
{
    let r = spec_water_observe(recent, tid).0;
    if recent.contains(tid) {
        let k = recent.index_of(tid);
        let n = recent.len() - 1;
        assert forall|a: int, b: int| 0 <= a < r.len() && 0 <= b < r.len() && a != b implies r[a]
            != r[b] by {
            let pa = if a == k { n } else if a == n { k } else { a };
            let pb = if b == k { n } else if b == n { k } else { b };
            assert(r[a] == recent[pa]);
            assert(r[b] == recent[pb]);
        }
    } else {
        let p = recent.push(tid);
        assert(p.no_duplicates()) by {
            assert forall|a: int, b: int| 0 <= a < p.len() && 0 <= b < p.len() && a != b implies p[a]
                != p[b] by {
                if a == recent.len() {
                    assert(!recent.contains(p[b]) || p[b] != tid);
                } else if b == recent.len() {
                    assert(recent[a] != tid);
                }
            }
        }
        if p.len() > RECENT_CAPACITY {
            let d = p.len() - RECENT_CAPACITY;
            assert forall|a: int, b: int| 0 <= a < r.len() && 0 <= b < r.len() && a != b implies r[a]
                != r[b] by {
                assert(r[a] == p[a + d]);
                assert(r[b] == p[b + d]);
            }
        }
    }
}

impl WaterWatch {
    #[verifier::type_invariant]
    closed spec fn inv(&self) -> bool {
        valid_recent(views(self.recent@))
    }

    /// A watch that remembers no thread.
    pub fn new() -> (r: Self)
        ensures
            r@ == Seq::<Seq<char>>::empty(),
    {
        let r = WaterWatch { recent: Vec::new() };
        assert(views(r.recent@) =~= Seq::<Seq<char>>::empty());
        r
    }

    /// The remembered ids hold no id twice and no more than `RECENT_CAPACITY` of them.
    pub fn len(&self) -> (r: usize)
        ensures
            r == self@.len(),
            valid_recent(self@),
    {
        proof {
            use_type_invariant(self);
        }
        self.recent.len()
    }

    /// The remembered ids, oldest first.
    pub fn ids(&self) -> (r: &Vec<String>)
        ensures
            views(r@) == self@,
    {
        &self.recent
    }

    /// The index of `tid` among the remembered ids.
    fn position(&self, tid: &String) -> (r: Option<usize>)
        ensures
            r is Some <==> self@.contains(tid@),
            r matches Some(k) ==> k < self@.len() && self@[k as int] == tid@,
    {
        let mut k: usize = 0;
        while k < self.recent.len()
            invariant
                k <= self.recent.len(),
                forall|t: int| 0 <= t < k ==> self@[t] != tid@,
            decreases self.recent.len() - k,
        {
            if self.recent[k] == *tid {
                assert(self@[k as int] == tid@);
                return Some(k);
            }
            k = k + 1;
        }
        None
    }

    /// Sees the id `tid`; returns whether it was new.
    pub fn observe(&mut self, tid: &String) -> (r: bool)
        ensures
            (final(self)@, r) == spec_water_observe(old(self)@, tid@),
    {
        proof {
            use_type_invariant(&*self);
            lemma_observe_valid(self@, tid@);
        }
        let ghost before = self@;
        match self.position(tid) {
            Some(k) => {
                proof {
                    assert(before.index_of(tid@) == k) by {
                        let j = before.index_of(tid@);
                        assert(0 <= j < before.len() && before[j] == tid@);
                    }
                }
                let last = self.recent.len() - 1;
                let mut recent: Vec<String> = Vec::new();
                std::mem::swap(&mut recent, &mut self.recent);
                let a = recent[k].clone();
                let b = recent[last].clone();
                recent.set(k, b);
                recent.set(last, a);
                assert(views(recent@) =~= swap_to_back(before, k as int));
                self.recent = recent;
                false
            },
            None => {
                let mut recent: Vec<String> = Vec::new();
                std::mem::swap(&mut recent, &mut self.recent);
                recent.push(tid.clone());
                let n = recent.len();
                let start = if n > RECENT_CAPACITY {
                    n - RECENT_CAPACITY
                } else {
                    0
                };
                let mut kept: Vec<String> = Vec::new();
                let mut i = start;
                while i < n
                    invariant
                        start <= i <= n,
                        n == recent.len(),
                        views(recent@) == before.push(tid@),
                        start == (if n > RECENT_CAPACITY { n - RECENT_CAPACITY } else { 0 }),
                        views(kept@) == views(recent@).subrange(start as int, i as int),
                    decreases n - i,
                {
                    let ghost kb = kept@;
                    let s = recent[i].clone();
                    let ghost sv = s@;
                    kept.push(s);
                    assert(views(kept@) =~= views(kb).push(sv));
                    assert(views(kept@) =~= views(recent@).subrange(start as int, i + 1));
                    i = i + 1;
                }
                assert(views(recent@).subrange(start as int, n as int) =~= keep_last(
                    before.push(tid@),
                    RECENT_CAPACITY as int,
                ));
                self.recent = kept;
                true
            },
        }
    }
}

/// What one matched line does, read from the groups of its match.
pub fn water_from_groups(watch: &mut WaterWatch, caps: &Vec<Option<String>>) -> (r: (
    Option<WaterThread>,
    bool,
))
    ensures
        match spec_water_groups(groups_view(caps@), old(watch)@) {
            WaterStep::Quiet(rec) => r.0 is None && r.1 && final(watch)@ == rec,
            WaterStep::Found(rec, t) => {
                &&& r.1
                &&& (r.0 matches Some(w) && w@ == t)
                &&& final(watch)@ == rec
            },
            WaterStep::Broken => r.0 is None && !r.1 && final(watch)@ == old(watch)@,
        },
{
    let tid = match group_text(caps, 1) {
        Some(t) => t,
        None => {
            return (None, false);
        },
    };
    let recent_enough = match parse_i32(tid.as_str()) {
        Some(v) => v > 1000000,
        None => true,
    };
    if !recent_enough {
        return (None, true);
    }
    let known = watch.position(&tid).is_some();
    if known {
        watch.observe(&tid);
        return (None, true);
    }
    match group_text(caps, 2) {
        Some(title) => {
            watch.observe(&tid);
            (Some(WaterThread { tid, title }), true)
        },
        None => (None, false),
    }
}

/// Scans the lines of a forum page, with the thread pattern `p`, for threads not seen
/// before, remembering every recent thread seen.
pub fn scan_water(watch: &mut WaterWatch, p: &Pattern, lines: &Vec<String>) -> (r: WaterScan)
    ensures
        (water_views(r.found@), final(watch)@, r.complete) == spec_water_scan(
            p@,
            views(lines@),
            old(watch)@,
            0,
        ),
{
    let ghost ls = views(lines@);
    let ghost whole = spec_water_scan(p@, ls, old(watch)@, 0);
    let mut found: Vec<WaterThread> = Vec::new();
    let mut i: usize = 0;
    while i < lines.len()
        invariant
            i <= lines.len(),
            ls == views(lines@),
            whole == spec_water_scan(p@, ls, old(watch)@, 0),
            whole == ({
                let rest = spec_water_scan(p@, ls, watch@, i as int);
                (water_views(found@) + rest.0, rest.1, rest.2)
            }),
        decreases lines.len() - i,
    {
        match captures(p, lines[i].as_str()) {
            Some(caps) => {
                let (t, ok) = water_from_groups(watch, &caps);
                if !ok {
                    assert(water_views(found@) + Seq::<WaterThreadView>::empty() =~= water_views(found@));
                    return WaterScan { found, complete: false };
                }
                match t {
                    Some(t) => {
                        let ghost before = found@;
                        found.push(t);
                        assert(water_views(found@) =~= water_views(before) + seq![found@.last()@]);
                    },
                    None => {},
                }
            },
            None => {},
        }
        i = i + 1;
    }
    assert(water_views(found@) + Seq::<WaterThreadView>::empty() =~= water_views(found@));
    WaterScan { found, complete: true }
}

/// Seeing an id keeps the remembered ids distinct and within `RECENT_CAPACITY`, leaves the id
/// last among them, reports it exactly when it was not remembered, and, for a remembered id,
/// keeps the same ids.
pub proof fn law_water_observe(recent: Seq<Seq<char>>, tid: Seq<char>)
    requires
        valid_recent(recent),
    ensures
        valid_recent(spec_water_observe(recent, tid).0),
        spec_water_observe(recent, tid).0.last() == tid,
        spec_water_observe(recent, tid).1 == !recent.contains(tid),
        recent.contains(tid) ==> spec_water_observe(recent, tid).0.len() == recent.len(),
        recent.contains(tid) ==> forall|x: Seq<char>|
            #![trigger recent.contains(x)]
            spec_water_observe(recent, tid).0.contains(x) <==> recent.contains(x),
{
    lemma_observe_valid(recent, tid);
    let r = spec_water_observe(recent, tid).0;
    if recent.contains(tid) {
        let k = recent.index_of(tid);
        let n = recent.len() - 1;
        assert forall|x: Seq<char>| r.contains(x) <==> recent.contains(x) by {
            if r.contains(x) {
                let a = choose|a: int| 0 <= a < r.len() && r[a] == x;
                let pa = if a == k { n } else if a == n { k } else { a };
                assert(recent[pa] == x);
            }
            if recent.contains(x) {
                let a = choose|a: int| 0 <= a < recent.len() && recent[a] == x;
                let pa = if a == k { n } else if a == n { k } else { a };
                assert(r[pa] == x);
            }
        }
    } else {
        let p = recent.push(tid);
        assert(r.last() == p.last());
    }
}

/// `<thread address> <title>`, the report of a new thread.
pub open spec fn spec_water_message(t: WaterThreadView) -> Seq<char> {
    spec_thread_url(t.tid) + " "@ + t.title
}

impl WaterThread {
    /// The report of this thread.
    pub fn message(&self) -> (r: String)
        ensures
            r@ == spec_water_message(self@),
    {
        let mut r = thread_url(self.tid.as_str());
        push_str(&mut r, " ");
        push_str(&mut r, self.title.as_str());
        r
    }

    /// The page of this thread.
    pub fn page(&self) -> (r: String)
        ensures
            r@ == spec_thread_url(self@.tid),
    {
        thread_url(self.tid.as_str())
    }
}

/// A sequence without duplicates whose elements all lie in `u` is no longer than `u`.
proof fn lemma_nodup_within(a: Seq<Seq<char>>, u: Seq<Seq<char>>)
    requires
        a.no_duplicates(),
        forall|i: int| 0 <= i < a.len() ==> u.contains(#[trigger] a[i]),
    ensures
        a.len() <= u.len(),
{
    a.unique_seq_to_set();
    u.lemma_cardinality_of_set();
    vstd::seq_lib::seq_to_set_is_finite(u);
    assert(a.to_set().subset_of(u.to_set())) by {
        assert forall|x: Seq<char>| a.to_set().contains(x) implies u.to_set().contains(x) by {
            let i = choose|i: int| 0 <= i < a.len() && a[i] == x;
            assert(u.contains(a[i]));
        }
    }
    vstd::set_lib::lemma_len_subset(a.to_set(), u.to_set());
}

/// Seeing the ids `ids` one after another, from the remembered ids `recent`: the remembered
/// ids at the end, and for each id whether it was reported as new.
pub open spec fn spec_observe_all(recent: Seq<Seq<char>>, ids: Seq<Seq<char>>) -> (
    Seq<Seq<char>>,
    Seq<bool>,
)
    decreases ids.len(),
{
    if ids.len() == 0 {
        (recent, Seq::empty())
    } else {
        let first = spec_water_observe(recent, ids[0]);
        let rest = spec_observe_all(first.0, ids.skip(1));
        (rest.0, seq![first.1] + rest.1)
    }
}

/// The ids of `ids` whose flag is set, in order.
pub open spec fn spec_reported(ids: Seq<Seq<char>>, flags: Seq<bool>) -> Seq<Seq<char>>
    decreases ids.len(),
{
    if ids.len() == 0 {
        Seq::empty()
    } else {
        (if flags.len() > 0 && flags[0] {
            seq![ids[0]]
        } else {
            Seq::empty()
        }) + spec_reported(ids.skip(1), flags.skip(1))
    }
}

/// For each position of `ids`, whether the id there occurs for the first time.
pub open spec fn first_occurrence_flags(ids: Seq<Seq<char>>) -> Seq<bool> {
    Seq::new(ids.len(), |k: int| !ids.take(k).contains(ids[k]))
}

proof fn lemma_observe_all_len(recent: Seq<Seq<char>>, ids: Seq<Seq<char>>)
    ensures
        spec_observe_all(recent, ids).1.len() == ids.len(),
    decreases ids.len(),
{
    if ids.len() > 0 {
        lemma_observe_all_len(spec_water_observe(recent, ids[0]).0, ids.skip(1));
    }
}

/// Seeing `a` then `b` is seeing `a + b`.
proof fn lemma_observe_all_concat(recent: Seq<Seq<char>>, a: Seq<Seq<char>>, b: Seq<Seq<char>>)
    ensures
        spec_observe_all(recent, a + b) == ({
            let first = spec_observe_all(recent, a);
            let second = spec_observe_all(first.0, b);
            (second.0, first.1 + second.1)
        }),
    decreases a.len(),
{
    if a.len() == 0 {
        assert(a + b =~= b);
        assert(Seq::<bool>::empty() + spec_observe_all(recent, b).1 =~= spec_observe_all(
            recent,
            b,
        ).1);
    } else {
        let r1 = spec_water_observe(recent, a[0]).0;
        assert((a + b).skip(1) =~= a.skip(1) + b);
        assert((a + b)[0] == a[0]);
        lemma_observe_all_concat(r1, a.skip(1), b);
        let f1 = spec_observe_all(r1, a.skip(1));
        let f2 = spec_observe_all(f1.0, b);
        assert(seq![spec_water_observe(recent, a[0]).1] + (f1.1 + f2.1) =~= (seq![
            spec_water_observe(recent, a[0]).1,
        ] + f1.1) + f2.1);
    }
}

proof fn lemma_reported_concat(a: Seq<Seq<char>>, fa: Seq<bool>, b: Seq<Seq<char>>, fb: Seq<bool>)
    requires
        fa.len() == a.len(),
    ensures
        spec_reported(a + b, fa + fb) == spec_reported(a, fa) + spec_reported(b, fb),
    decreases a.len(),
{
    if a.len() == 0 {
        assert(a + b =~= b);
        assert(fa + fb =~= fb);
        assert(Seq::<Seq<char>>::empty() + spec_reported(b, fb) =~= spec_reported(b, fb));
    } else {
        assert((a + b).skip(1) =~= a.skip(1) + b);
        assert((fa + fb).skip(1) =~= fa.skip(1) + fb);
        assert((a + b)[0] == a[0]);
        assert((fa + fb)[0] == fa[0]);
        lemma_reported_concat(a.skip(1), fa.skip(1), b, fb);
        let head: Seq<Seq<char>> = if fa[0] {
            seq![a[0]]
        } else {
            Seq::empty()
        };
        assert(head + (spec_reported(a.skip(1), fa.skip(1)) + spec_reported(b, fb)) =~= (head
            + spec_reported(a.skip(1), fa.skip(1))) + spec_reported(b, fb));
    }
}

/// While every id seen, and every id remembered at the start, lies among `universe`, no id is
/// ever forgotten: each id is reported exactly when it is neither remembered at the start nor
/// seen before, and the ids remembered at the end are those remembered at the start and
/// those seen.
proof fn lemma_observe_all_within(
    recent: Seq<Seq<char>>,
    ids: Seq<Seq<char>>,
    universe: Seq<Seq<char>>,
)
    requires
        valid_recent(recent),
        universe.len() <= RECENT_CAPACITY,
        forall|x: Seq<char>| recent.contains(x) ==> universe.contains(x),
        forall|i: int| 0 <= i < ids.len() ==> universe.contains(#[trigger] ids[i]),
    ensures
        spec_observe_all(recent, ids).1.len() == ids.len(),
        forall|k: int|
            0 <= k < ids.len() ==> #[trigger] spec_observe_all(recent, ids).1[k] == !(
            recent.contains(ids[k]) || ids.take(k).contains(ids[k])),
        forall|x: Seq<char>|
            #![trigger spec_observe_all(recent, ids).0.contains(x)]
            spec_observe_all(recent, ids).0.contains(x) <==> (recent.contains(x) || ids.contains(
                x,
            )),
    decreases ids.len(),
{
    lemma_observe_all_len(recent, ids);
    if ids.len() == 0 {
    } else {
        let x0 = ids[0];
        let step = spec_water_observe(recent, x0);
        let r1 = step.0;
        let tail = ids.skip(1);
        lemma_observe_valid(recent, x0);
        // the ids remembered after the first step are those before and `x0`
        assert forall|x: Seq<char>| r1.contains(x) <==> (recent.contains(x) || x == x0) by {
            if recent.contains(x0) {
                law_water_observe(recent, x0);
                assert(r1.contains(x) <==> recent.contains(x));
            } else {
                let p = recent.push(x0);
                assert(p.no_duplicates()) by {
                    assert forall|a: int, b: int|
                        0 <= a < p.len() && 0 <= b < p.len() && a != b implies p[a] != p[b] by {
                        if a == recent.len() {
                            assert(p[b] == recent[b]);
                        } else if b == recent.len() {
                            assert(p[a] == recent[a]);
                        }
                    }
                }
                assert forall|i: int| 0 <= i < p.len() implies universe.contains(#[trigger] p[i]) by {
                    if i < recent.len() {
                        assert(recent.contains(recent[i]));
                    }
                }
                lemma_nodup_within(p, universe);
                assert(r1 =~= p);
                if r1.contains(x) && !recent.contains(x) {
                    let i = choose|i: int| 0 <= i < r1.len() && r1[i] == x;
                    if i < recent.len() {
                        assert(recent[i] == x);
                    }
                }
                if recent.contains(x) {
                    let i = choose|i: int| 0 <= i < recent.len() && recent[i] == x;
                    assert(r1[i] == x);
                }
                if x == x0 {
                    assert(r1[recent.len() as int] == x0);
                }
            }
        }
        assert(forall|x: Seq<char>| r1.contains(x) ==> universe.contains(x)) by {
            assert(ids[0] == x0);
        }
        assert forall|i: int| 0 <= i < tail.len() implies universe.contains(#[trigger] tail[i]) by {
            assert(tail[i] == ids[i + 1]);
        }
        lemma_observe_all_within(r1, tail, universe);
        let all = spec_observe_all(recent, ids);
        let rest = spec_observe_all(r1, tail);
        assert forall|k: int| 0 <= k < ids.len() implies #[trigger] all.1[k] == !(recent.contains(
            ids[k],
        ) || ids.take(k).contains(ids[k])) by {
            if k == 0 {
                assert(ids.take(0) =~= Seq::<Seq<char>>::empty());
            } else {
                assert(all.1[k] == rest.1[k - 1]);
                assert(tail[k - 1] == ids[k]);
                let y = ids[k];
                // seen before within `ids` <==> remembered after step one, or seen within the tail
                if ids.take(k).contains(y) {
                    let j = choose|j: int| 0 <= j < k && #[trigger] ids.take(k)[j] == y;
                    if j == 0 {
                        assert(r1.contains(x0));
                    } else {
                        assert(tail.take(k - 1)[j - 1] == y);
                    }
                }
                if tail.take(k - 1).contains(y) {
                    let j = choose|j: int| 0 <= j < k - 1 && #[trigger] tail.take(k - 1)[j] == y;
                    assert(ids.take(k)[j + 1] == y);
                }
                if r1.contains(y) && !recent.contains(y) {
                    assert(y == x0);
                    assert(ids.take(k)[0] == y);
                }
            }
        }
        assert forall|x: Seq<char>| all.0.contains(x) <==> (recent.contains(x) || ids.contains(x)) by {
            if tail.contains(x) {
                let j = choose|j: int| 0 <= j < tail.len() && tail[j] == x;
                assert(ids[j + 1] == x);
            }
            if ids.contains(x) && x != x0 {
                let j = choose|j: int| 0 <= j < ids.len() && ids[j] == x;
                assert(tail[j - 1] == x);
            }
        }
    }
}

/// While the ids seen lie among at most `RECENT_CAPACITY` distinct ids (the `universe`),
/// a watch that starts empty reports each id exactly once, at its first occurrence, and in
/// the end remembers exactly the ids seen.
pub proof fn law_water_reports_first_occurrences(ids: Seq<Seq<char>>, universe: Seq<Seq<char>>)
    requires
        universe.len() <= RECENT_CAPACITY,
        forall|i: int| 0 <= i < ids.len() ==> universe.contains(#[trigger] ids[i]),
    ensures
        spec_observe_all(Seq::empty(), ids).1 == first_occurrence_flags(ids),
        spec_reported(ids, spec_observe_all(Seq::empty(), ids).1) == spec_reported(
            ids,
            first_occurrence_flags(ids),
        ),
        forall|x: Seq<char>|
            #![trigger spec_observe_all(Seq::empty(), ids).0.contains(x)]
            spec_observe_all(Seq::empty(), ids).0.contains(x) <==> ids.contains(x),
{
    let e = Seq::<Seq<char>>::empty();
    lemma_observe_all_within(e, ids, universe);
    assert(spec_observe_all(e, ids).1 =~= first_occurrence_flags(ids));
}

proof fn lemma_observe_all_prefix(recent: Seq<Seq<char>>, ids: Seq<Seq<char>>, n: int)
    requires
        0 <= n <= ids.len(),
    ensures
        spec_observe_all(recent, ids.take(n)).1 == spec_observe_all(recent, ids).1.take(n),
{
    assert(ids =~= ids.take(n) + ids.skip(n));
    lemma_observe_all_concat(recent, ids.take(n), ids.skip(n));
    lemma_observe_all_len(recent, ids.take(n));
    let f = spec_observe_all(recent, ids.take(n));
    let g = spec_observe_all(f.0, ids.skip(n));
    assert((f.1 + g.1).take(n) =~= f.1);
}

/// An id is reported a second time by a watch that starts empty only after ids beyond any
/// `RECENT_CAPACITY` of them have been seen: no `RECENT_CAPACITY` ids hold every id seen up
/// to that point.
pub proof fn law_water_second_report_needs_more_ids(
    ids: Seq<Seq<char>>,
    k: int,
    universe: Seq<Seq<char>>,
)
    requires
        0 <= k < ids.len(),
        spec_observe_all(Seq::empty(), ids).1[k],
        ids.take(k).contains(ids[k]),
        universe.len() <= RECENT_CAPACITY,
    ensures
        exists|i: int| 0 <= i <= k && !universe.contains(#[trigger] ids[i]),
{
    let e = Seq::<Seq<char>>::empty();
    let pre = ids.take(k + 1);
    if forall|i: int| 0 <= i <= k ==> universe.contains(#[trigger] ids[i]) {
        assert forall|i: int| 0 <= i < pre.len() implies universe.contains(#[trigger] pre[i]) by {
            assert(pre[i] == ids[i]);
        }
        lemma_observe_all_within(e, pre, universe);
        lemma_observe_all_len(e, ids);
        lemma_observe_all_prefix(e, ids, k + 1);
        assert(spec_observe_all(e, pre).1[k] == spec_observe_all(e, ids).1[k]);
        assert(pre.take(k) =~= ids.take(k));
        assert(pre[k] == ids[k]);
        assert(false);
    }
}

/// The ids of reported threads.
pub open spec fn found_tids(v: Seq<WaterThreadView>) -> Seq<Seq<char>> {
    v.map_values(|t: WaterThreadView| t.tid)
}

/// The ids that a scan of lines `i..` takes in, in order: group 1 of each line the thread
/// pattern matches, when it is taken as recent enough.
pub open spec fn spec_page_ids(pattern: Seq<char>, lines: Seq<Seq<char>>, i: int) -> Seq<Seq<char>>
    decreases lines.len() - i,
{
    if i < 0 || i >= lines.len() {
        Seq::empty()
    } else {
        let rest = spec_page_ids(pattern, lines, i + 1);
        match regex_captures(pattern, lines[i]) {
            Some(caps) => match group(caps, 1) {
                Some(tid) => if spec_tid_is_recent(tid) {
                    seq![tid] + rest
                } else {
                    rest
                },
                None => rest,
            },
            None => rest,
        }
    }
}

/// A scan that reads to the end of the page is seeing the page's ids one after another: it
/// leaves the same remembered ids and reports the ids seen as new, in order.
pub proof fn law_water_scan_observes_page_ids(
    pattern: Seq<char>,
    lines: Seq<Seq<char>>,
    recent: Seq<Seq<char>>,
    i: int,
)
    requires
        spec_water_scan(pattern, lines, recent, i).2,
    ensures
        spec_water_scan(pattern, lines, recent, i).1 == spec_observe_all(
            recent,
            spec_page_ids(pattern, lines, i),
        ).0,
        found_tids(spec_water_scan(pattern, lines, recent, i).0) == spec_reported(
            spec_page_ids(pattern, lines, i),
            spec_observe_all(recent, spec_page_ids(pattern, lines, i)).1,
        ),
    decreases lines.len() - i,
{
    if 0 <= i < lines.len() {
        let rest_ids = spec_page_ids(pattern, lines, i + 1);
        match regex_captures(pattern, lines[i]) {
            None => {
                law_water_scan_observes_page_ids(pattern, lines, recent, i + 1);
            },
            Some(caps) => match group(caps, 1) {
                None => {},
                Some(tid) => {
                    if !spec_tid_is_recent(tid) {
                        law_water_scan_observes_page_ids(pattern, lines, recent, i + 1);
                    } else {
                        let step = spec_water_observe(recent, tid);
                        let ids = seq![tid] + rest_ids;
                        assert(ids.skip(1) =~= rest_ids);
                        assert(ids[0] == tid);
                        law_water_scan_observes_page_ids(pattern, lines, step.0, i + 1);
                        let o = spec_observe_all(step.0, rest_ids);
                        let whole = spec_water_scan(pattern, lines, recent, i);
                        let rest = spec_water_scan(pattern, lines, step.0, i + 1);
                        assert((seq![step.1] + o.1).skip(1) =~= o.1);
                        if recent.contains(tid) {
                            assert(found_tids(whole.0) =~= found_tids(rest.0));
                            assert(spec_reported(ids, seq![step.1] + o.1) =~= spec_reported(
                                rest_ids,
                                o.1,
                            ));
                        } else {
                            assert(found_tids(whole.0) =~= seq![tid] + found_tids(rest.0));
                        }
                    }
                },
            },
        }
    }
}

/// Scanning `pages` one after another with a watch that starts with `recent`: the threads
/// reported in order, the remembered ids at the end, and whether every page was read to its
/// end (the rounds stop at the first page that is not).
pub open spec fn spec_water_rounds(
    pattern: Seq<char>,
    pages: Seq<Seq<Seq<char>>>,
    recent: Seq<Seq<char>>,
) -> (Seq<WaterThreadView>, Seq<Seq<char>>, bool)
    decreases pages.len(),
{
    if pages.len() == 0 {
        (Seq::empty(), recent, true)
    } else {
        let first = spec_water_scan(pattern, pages[0], recent, 0);
        if !first.2 {
            first
        } else {
            let rest = spec_water_rounds(pattern, pages.skip(1), first.1);
            (first.0 + rest.0, rest.1, rest.2)
        }
    }
}

/// The ids that the rounds take in, page after page.
pub open spec fn spec_rounds_ids(pattern: Seq<char>, pages: Seq<Seq<Seq<char>>>) -> Seq<Seq<char>>
    decreases pages.len(),
{
    if pages.len() == 0 {
        Seq::empty()
    } else {
        spec_page_ids(pattern, pages[0], 0) + spec_rounds_ids(pattern, pages.skip(1))
    }
}

/// Rounds that read every page to its end are seeing all their ids one after another.
pub proof fn law_water_rounds_observe_ids(
    pattern: Seq<char>,
    pages: Seq<Seq<Seq<char>>>,
    recent: Seq<Seq<char>>,
)
    requires
        spec_water_rounds(pattern, pages, recent).2,
    ensures
        spec_water_rounds(pattern, pages, recent).1 == spec_observe_all(
            recent,
            spec_rounds_ids(pattern, pages),
        ).0,
        found_tids(spec_water_rounds(pattern, pages, recent).0) == spec_reported(
            spec_rounds_ids(pattern, pages),
            spec_observe_all(recent, spec_rounds_ids(pattern, pages)).1,
        ),
    decreases pages.len(),
{
    if pages.len() > 0 {
        let first = spec_water_scan(pattern, pages[0], recent, 0);
        let a = spec_page_ids(pattern, pages[0], 0);
        let b = spec_rounds_ids(pattern, pages.skip(1));
        law_water_scan_observes_page_ids(pattern, pages[0], recent, 0);
        law_water_rounds_observe_ids(pattern, pages.skip(1), first.1);
        lemma_observe_all_concat(recent, a, b);
        lemma_observe_all_len(recent, a);
        let fa = spec_observe_all(recent, a);
        let fb = spec_observe_all(fa.0, b);
        lemma_reported_concat(a, fa.1, b, fb.1);
        let rest = spec_water_rounds(pattern, pages.skip(1), first.1);
        assert(found_tids(first.0 + rest.0) =~= found_tids(first.0) + found_tids(rest.0));
    }
}

/// Over rounds that read every page to its end, a watch that starts empty reports each
/// thread id once, at its first occurrence (page order, then line order), as long as all the
/// ids taken in lie among at most `RECENT_CAPACITY` ids; it then remembers exactly those ids.
pub proof fn law_water_rounds_report_each_id_once(
    pattern: Seq<char>,
    pages: Seq<Seq<Seq<char>>>,
    universe: Seq<Seq<char>>,
)
    requires
        spec_water_rounds(pattern, pages, Seq::empty()).2,
        universe.len() <= RECENT_CAPACITY,
        forall|i: int|
            0 <= i < spec_rounds_ids(pattern, pages).len() ==> universe.contains(
                #[trigger] spec_rounds_ids(pattern, pages)[i],
            ),
    ensures
        found_tids(spec_water_rounds(pattern, pages, Seq::empty()).0) == spec_reported(
            spec_rounds_ids(pattern, pages),
            first_occurrence_flags(spec_rounds_ids(pattern, pages)),
        ),
        forall|x: Seq<char>|
            #![trigger spec_water_rounds(pattern, pages, Seq::empty()).1.contains(x)]
            spec_water_rounds(pattern, pages, Seq::empty()).1.contains(x)
                <==> spec_rounds_ids(pattern, pages).contains(x),
{
    law_water_rounds_observe_ids(pattern, pages, Seq::empty());
    law_water_reports_first_occurrences(spec_rounds_ids(pattern, pages), universe);
}

/// Line `line` lists the thread `t`: it matches `pattern`, with `t`'s id as group 1 and `t`'s
/// title as group 2.
pub open spec fn line_lists_thread(pattern: Seq<char>, line: Seq<char>, t: WaterThreadView) -> bool {
    match regex_captures(pattern, line) {
        Some(caps) => group(caps, 1) == Some(t.tid) && group(caps, 2) == Some(t.title),
        None => false,
    }
}

/// A line whose thread is reported gives the report its whole id group and its whole title
/// group; its thread is reported exactly when the id group and the title group take part,
/// the id is not remembered, and it does not read as a number of at most one million.
pub proof fn law_water_line_reports_its_groups(
    caps: Seq<Option<Seq<char>>>,
    recent: Seq<Seq<char>>,
)
    ensures
        spec_water_groups(caps, recent) matches WaterStep::Found(r, t) ==> group(caps, 1) == Some(
            t.tid,
        ) && group(caps, 2) == Some(t.title),
        spec_water_groups(caps, recent) is Found <==> {
            &&& group(caps, 1) is Some
            &&& group(caps, 2) is Some
            &&& !recent.contains(group(caps, 1).unwrap())
            &&& spec_parse_i32(group(caps, 1).unwrap()) matches Some(v) ==> v > 1000000
        },
{
}

/// Some line of the page from line `i` on lists the thread `t`.
pub open spec fn listed_from(pattern: Seq<char>, lines: Seq<Seq<char>>, t: WaterThreadView, i: int) -> bool {
    exists|k: int| i <= k < lines.len() && #[trigger] line_lists_thread(pattern, lines[k], t)
}

/// Each thread a scan reports is listed, with its id and its whole title, by a line of the
/// page at or after the line the scan starts from.
pub proof fn law_water_scan_reports_listed_threads(
    pattern: Seq<char>,
    lines: Seq<Seq<char>>,
    recent: Seq<Seq<char>>,
    i: int,
)
    requires
        0 <= i,
    ensures
        forall|a: int|
            0 <= a < spec_water_scan(pattern, lines, recent, i).0.len() ==> listed_from(
                pattern,
                lines,
                #[trigger] spec_water_scan(pattern, lines, recent, i).0[a],
                i,
            ),
    decreases lines.len() - i,
{
    if i < lines.len() {
        match spec_water_line(pattern, lines[i], recent) {
            WaterStep::Quiet(r) => {
                let rest = spec_water_scan(pattern, lines, r, i + 1);
                law_water_scan_reports_listed_threads(pattern, lines, r, i + 1);
                let found = spec_water_scan(pattern, lines, recent, i).0;
                assert(found == rest.0);
                assert forall|a: int| 0 <= a < found.len() implies listed_from(
                    pattern,
                    lines,
                    #[trigger] found[a],
                    i,
                ) by {
                    assert(listed_from(pattern, lines, rest.0[a], i + 1));
                }
            },
            WaterStep::Found(r, t) => {
                let rest = spec_water_scan(pattern, lines, r, i + 1);
                law_water_scan_reports_listed_threads(pattern, lines, r, i + 1);
                let found = spec_water_scan(pattern, lines, recent, i).0;
                assert(found == seq![t] + rest.0);
                assert forall|a: int| 0 <= a < found.len() implies listed_from(
                    pattern,
                    lines,
                    #[trigger] found[a],
                    i,
                ) by {
                    if a == 0 {
                        assert(found[0] == t);
                        assert(line_lists_thread(pattern, lines[i], t));
                    } else {
                        assert(found[a] == rest.0[a - 1]);
                        assert(listed_from(pattern, lines, rest.0[a - 1], i + 1));
                    }
                }
            },
            WaterStep::Broken => {},
        }
    }
}

} // verus!
