use vstd::prelude::*;
use crate::numbers::{lemma_parse_unsigned_range, parse_u32, push_decimal, spec_decimal, spec_decimal_pad2, spec_parse_unsigned, decimal_pad2};
use crate::pattern::{Pattern, captures, group, group_text, groups_view, regex_captures};
use crate::text::{contains_str, push_str, replace_str, spec_contains, spec_replace, views};

verus! {

/// The pattern of the line that links to the voter list: group 1 is the link.
pub const VOTE_LINK_PATTERN: &'static str = r#".*href="(?P<url>.*?)".*查看投票参与人.*"#;

/// The pattern of a vote option: group 1 is its id, group 2 its text.
pub const OPTION_PATTERN: &'static str = r#".*option value="(?P<value>\d+)".*>(?P<text>.*)</option>.*"#;

/// The pattern of a voter: group 1 is the profile link, group 2 the name.
pub const VOTER_PATTERN: &'static str = r#"href="(?P<url>.*)">(?P<name>.*)</a>.*"#;

/// The text of the line that opens the option list.
pub const SELECT_MARKER: &'static str = r#"select class="ps""#;

/// The site's address, with a trailing slash.
pub const SITE: &'static str = "https://www.mcbbs.net/";

/// How many lines from the start of the option list are searched for options.
pub const OPTION_WINDOW: usize = 35;

/// Why a vote page cannot be read; the console stops on any of these.
pub enum VoteError {
    /// The lines run out inside the option window.
    OptionWindowPastEnd,
    /// A match cannot be read, or an option id is not a `u32`.
    UnreadableMatch,
    /// The page lists no option.
    NoOptions,
}

/// Where the voter list of a vote is, read from a thread page.
pub enum VoteLink {
    /// No line links to it.
    NotFound,
    Found(String),
    /// The match of the link cannot be read.
    Broken,
}

/// The address of the voter list, from line `i` on: on the first line the link pattern
/// matches, the site's address followed by the link with `&amp;` turned into `&`.
pub open spec fn spec_vote_link_from(pattern: Seq<char>, lines: Seq<Seq<char>>, i: int) -> Option<
    Option<Seq<char>>,
>
    decreases lines.len() - i,
{
    if i < 0 || i >= lines.len() {
        Some(None)
    } else {
        match regex_captures(pattern, lines[i]) {
            None => spec_vote_link_from(pattern, lines, i + 1),
            Some(caps) => match spec_link_from_groups(caps) {
                Some(u) => Some(Some(u)),
                None => None,
            },
        }
    }
}

/// The address of the voter list read from the groups of a match of the link pattern: the
/// site's address followed by group 1 with `&amp;` turned into `&`.
pub open spec fn spec_link_from_groups(caps: Seq<Option<Seq<char>>>) -> Option<Seq<char>> {
    match group(caps, 1) {
        Some(u) => Some(SITE@ + spec_replace(u, "&amp;"@, "&"@)),
        None => None,
    }
}

/// The address of the voter list read from the groups of a match of the link pattern.
pub fn link_from_groups(caps: &Vec<Option<String>>) -> (r: Option<String>)
    ensures
        r is Some <==> spec_link_from_groups(groups_view(caps@)) is Some,
        r matches Some(u) ==> Some(u@) == spec_link_from_groups(groups_view(caps@)),
{
    match group_text(caps, 1) {
        Some(u) => {
            let link = replace_str(u.as_str(), "&amp;", "&");
            let mut s = String::new();
            push_str(&mut s, SITE);
            push_str(&mut s, link.as_str());
            Some(s)
        },
        None => None,
    }
}

/// An option read from the groups of a match of the option pattern: group 1 parsed as a
/// `u32`, and group 2.
pub open spec fn spec_option_from_groups(caps: Seq<Option<Seq<char>>>) -> Option<(u32, Seq<char>)> {
    match group(caps, 1) {
        None => None,
        Some(v) => match spec_parse_unsigned(v, u32::MAX as int) {
            None => None,
            Some(n) => match group(caps, 2) {
                None => None,
                Some(t) => Some((n as u32, t)),
            },
        },
    }
}

/// An option read from the groups of a match of the option pattern.
pub fn option_from_groups(caps: &Vec<Option<String>>) -> (r: Option<(u32, String)>)
    ensures
        r is Some <==> spec_option_from_groups(groups_view(caps@)) is Some,
        r matches Some(o) ==> Some((o.0, o.1@)) == spec_option_from_groups(groups_view(caps@)),
{
    let v = group_text(caps, 1)?;
    let n = parse_u32(v.as_str())?;
    let t = group_text(caps, 2)?;
    Some((n, t))
}

/// Finds the address of the voter list on a thread page, with the link pattern `p`.
pub fn find_vote_link(p: &Pattern, lines: &Vec<String>) -> (r: VoteLink)
    ensures
        match spec_vote_link_from(p@, views(lines@), 0) {
            Some(Some(u)) => r matches VoteLink::Found(s) && s@ == u,
            Some(None) => r is NotFound,
            None => r is Broken,
        },
{
    let ghost ls = views(lines@);
    let mut i: usize = 0;
    while i < lines.len()
        invariant
            i <= lines.len(),
            ls == views(lines@),
            spec_vote_link_from(p@, ls, 0) == spec_vote_link_from(p@, ls, i as int),
        decreases lines.len() - i,
    {
        match captures(p, lines[i].as_str()) {
            Some(caps) => {
                return match link_from_groups(&caps) {
                    Some(u) => VoteLink::Found(u),
                    None => VoteLink::Broken,
                };
            },
            None => {},
        }
        i = i + 1;
    }
    VoteLink::NotFound
}

/// The options found in lines `j..i + 35`: `None` where the lines run out or an option
/// cannot be read.
pub open spec fn spec_option_window(
    pattern: Seq<char>,
    lines: Seq<Seq<char>>,
    i: int,
    j: int,
) -> Result<Seq<(u32, Seq<char>)>, VoteError>
    decreases i + OPTION_WINDOW - j,
{
    if j >= i + OPTION_WINDOW {
        Ok(Seq::empty())
    } else if j < 0 || j >= lines.len() {
        Err(VoteError::OptionWindowPastEnd)
    } else {
        match regex_captures(pattern, lines[j]) {
            None => spec_option_window(pattern, lines, i, j + 1),
            Some(caps) => match spec_option_from_groups(caps) {
                None => Err(VoteError::UnreadableMatch),
                Some(o) => match spec_option_window(pattern, lines, i, j + 1) {
                    Ok(rest) => Ok(seq![o] + rest),
                    Err(e) => Err(e),
                },
            },
        }
    }
}

/// The voters listed from line `k` up to the first line holding `</ul>` (that line and the
/// rest excluded).
pub open spec fn spec_voters_from(pattern: Seq<char>, lines: Seq<Seq<char>>, k: int) -> Result<
    Seq<Seq<char>>,
    VoteError,
>
    decreases lines.len() - k,
{
    if k < 0 || k >= lines.len() {
        Ok(Seq::empty())
    } else if spec_contains(lines[k], "</ul>"@) {
        Ok(Seq::empty())
    } else {
        match regex_captures(pattern, lines[k]) {
            None => spec_voters_from(pattern, lines, k + 1),
            Some(caps) => match group(caps, 2) {
                None => Err(VoteError::UnreadableMatch),
                Some(name) => match spec_voters_from(pattern, lines, k + 1) {
                    Ok(rest) => Ok(seq![name] + rest),
                    Err(e) => Err(e),
                },
            },
        }
    }
}

/// A line opening the voter list: it holds both `voter` and `ul`.
pub open spec fn is_voter_list_line(l: Seq<char>) -> bool {
    spec_contains(l, "voter"@) && spec_contains(l, "ul"@)
}

/// The voters of a page, from line `i` on: those of the first voter list.
pub open spec fn spec_page_voters_from(pattern: Seq<char>, lines: Seq<Seq<char>>, i: int) -> Result<
    Seq<Seq<char>>,
    VoteError,
>
    decreases lines.len() - i,
{
    if i < 0 || i >= lines.len() {
        Ok(Seq::empty())
    } else if is_voter_list_line(lines[i]) {
        spec_voters_from(pattern, lines, i)
    } else {
        spec_page_voters_from(pattern, lines, i + 1)
    }
}

/// The options and the voters of the first page of a vote, from line `i` on: every line that
/// opens an option list contributes the options of its window, until the first voter list,
/// whose voters are those of the first option.
pub open spec fn spec_vote_page_from(
    option: Seq<char>,
    voter: Seq<char>,
    lines: Seq<Seq<char>>,
    i: int,
) -> Result<(Seq<(u32, Seq<char>)>, Seq<Seq<char>>), VoteError>
    decreases lines.len() - i,
{
    if i < 0 || i >= lines.len() {
        Ok((Seq::empty(), Seq::empty()))
    } else if spec_contains(lines[i], SELECT_MARKER@) {
        match spec_option_window(option, lines, i, i) {
            Err(e) => Err(e),
            Ok(opts) => match spec_vote_page_from(option, voter, lines, i + 1) {
                Err(e) => Err(e),
                Ok(rest) => Ok((opts + rest.0, rest.1)),
            },
        }
    } else if is_voter_list_line(lines[i]) {
        match spec_voters_from(voter, lines, i) {
            Err(e) => Err(e),
            Ok(v) => Ok((Seq::empty(), v)),
        }
    } else {
        spec_vote_page_from(option, voter, lines, i + 1)
    }
}

/// The views of options.
pub open spec fn option_views(v: Seq<(u32, String)>) -> Seq<(u32, Seq<char>)> {
    v.map_values(|o: (u32, String)| (o.0, o.1@))
}

/// The options found in the window of the option list opened on line `i`.
fn option_window(p: &Pattern, lines: &Vec<String>, i: usize) -> (r: Result<Vec<(u32, String)>, VoteError>)
    requires
        i < lines.len(),
    ensures
        match spec_option_window(p@, views(lines@), i as int, i as int) {
            Ok(o) => r matches Ok(v) && option_views(v@) == o,
            Err(e) => r == Err::<Vec<(u32, String)>, VoteError>(e),
        },
{
    let ghost ls = views(lines@);
    let mut opts: Vec<(u32, String)> = Vec::new();
    let mut j = i;
    let end: u128 = i as u128 + OPTION_WINDOW as u128;
    while (j as u128) < end
        invariant
            i <= j,
            i < lines.len(),
            end == i + OPTION_WINDOW,
            j <= end,
            ls == views(lines@),
            match spec_option_window(p@, ls, i as int, i as int) {
                Ok(o) => match spec_option_window(p@, ls, i as int, j as int) {
                    Ok(rest) => o == option_views(opts@) + rest,
                    Err(_) => false,
                },
                Err(e) => spec_option_window(p@, ls, i as int, j as int) == Err::<
                    Seq<(u32, Seq<char>)>,
                    VoteError,
                >(e),
            },
        decreases end - j,
    {
        if j >= lines.len() {
            return Err(VoteError::OptionWindowPastEnd);
        }
        match captures(p, lines[j].as_str()) {
            Some(caps) => {
                let (n, t) = match option_from_groups(&caps) {
                    Some(o) => o,
                    None => {
                        return Err(VoteError::UnreadableMatch);
                    },
                };
                let ghost before = opts@;
                let ghost tv = t@;
                opts.push((n, t));
                assert(option_views(opts@) =~= option_views(before) + seq![(n, tv)]);
            },
            None => {},
        }
        j = j + 1;
    }
    assert(option_views(opts@) + Seq::<(u32, Seq<char>)>::empty() =~= option_views(opts@));
    Ok(opts)
}

/// The voters listed from line `k` up to the first line holding `</ul>`.
pub fn voters_from(p: &Pattern, lines: &Vec<String>, k: usize) -> (r: Result<Vec<String>, VoteError>)
    ensures
        match spec_voters_from(p@, views(lines@), k as int) {
            Ok(v) => r matches Ok(x) && views(x@) == v,
            Err(e) => r == Err::<Vec<String>, VoteError>(e),
        },
{
    let ghost ls = views(lines@);
    let mut names: Vec<String> = Vec::new();
    let mut i = k;
    while i < lines.len()
        invariant
            k <= i,
            ls == views(lines@),
            match spec_voters_from(p@, ls, k as int) {
                Ok(all) => match spec_voters_from(p@, ls, i as int) {
                    Ok(rest) => all == views(names@) + rest,
                    Err(_) => false,
                },
                Err(e) => spec_voters_from(p@, ls, i as int) == Err::<Seq<Seq<char>>, VoteError>(e),
            },
        decreases lines.len() - i,
    {
        if contains_str(lines[i].as_str(), "</ul>") {
            assert(views(names@) + Seq::<Seq<char>>::empty() =~= views(names@));
            return Ok(names);
        }
        match captures(p, lines[i].as_str()) {
            Some(caps) => match group_text(&caps, 2) {
                Some(name) => {
                    let ghost before = names@;
                    let ghost nv = name@;
                    names.push(name);
                    assert(views(names@) =~= views(before) + seq![nv]);
                },
                None => {
                    return Err(VoteError::UnreadableMatch);
                },
            },
            None => {},
        }
        i = i + 1;
    }
    assert(views(names@) + Seq::<Seq<char>>::empty() =~= views(names@));
    Ok(names)
}

/// Whether a line opens the voter list.
fn voter_list_line(l: &String) -> (r: bool)
    ensures
        r == is_voter_list_line(l@),
{
    contains_str(l.as_str(), "voter") && contains_str(l.as_str(), "ul")
}

/// The voters of an option page: those of its first voter list (none without one).
pub fn page_voters(p: &Pattern, lines: &Vec<String>) -> (r: Result<Vec<String>, VoteError>)
    ensures
        match spec_page_voters_from(p@, views(lines@), 0) {
            Ok(v) => r matches Ok(x) && views(x@) == v,
            Err(e) => r == Err::<Vec<String>, VoteError>(e),
        },
{
    let ghost ls = views(lines@);
    let mut i: usize = 0;
    while i < lines.len()
        invariant
            i <= lines.len(),
            ls == views(lines@),
            spec_page_voters_from(p@, ls, 0) == spec_page_voters_from(p@, ls, i as int),
        decreases lines.len() - i,
    {
        if voter_list_line(&lines[i]) {
            return voters_from(p, lines, i);
        }
        i = i + 1;
    }
    let empty: Vec<String> = Vec::new();
    assert(views(empty@) =~= Seq::<Seq<char>>::empty());
    Ok(empty)
}

/// The options and the voters of the first option, read off the first page of a vote with
/// the option pattern `option` and the voter pattern `voter`.
pub fn vote_page(option: &Pattern, voter: &Pattern, lines: &Vec<String>) -> (r: Result<
    (Vec<(u32, String)>, Vec<String>),
    VoteError,
>)
    ensures
        match spec_vote_page_from(option@, voter@, views(lines@), 0) {
            Ok(pv) => r matches Ok(x) && option_views(x.0@) == pv.0 && views(x.1@) == pv.1,
            Err(e) => r == Err::<(Vec<(u32, String)>, Vec<String>), VoteError>(e),
        },
{
    let ghost ls = views(lines@);
    let mut opts: Vec<(u32, String)> = Vec::new();
    let mut i: usize = 0;
    while i < lines.len()
        invariant
            i <= lines.len(),
            ls == views(lines@),
            match spec_vote_page_from(option@, voter@, ls, 0) {
                Ok(all) => match spec_vote_page_from(option@, voter@, ls, i as int) {
                    Ok(rest) => all == (option_views(opts@) + rest.0, rest.1),
                    Err(_) => false,
                },
                Err(e) => spec_vote_page_from(option@, voter@, ls, i as int) == Err::<
                    (Seq<(u32, Seq<char>)>, Seq<Seq<char>>),
                    VoteError,
                >(e),
            },
        decreases lines.len() - i,
    {
        if contains_str(lines[i].as_str(), SELECT_MARKER) {
            let more = option_window(option, lines, i)?;
            let mut k: usize = 0;
            let ghost before = option_views(opts@);
            while k < more.len()
                invariant
                    k <= more.len(),
                    option_views(opts@) == before + option_views(more@).take(k as int),
                decreases more.len() - k,
            {
                let ghost ob = opts@;
                let o = (more[k].0, more[k].1.clone());
                opts.push(o);
                assert(option_views(opts@) =~= option_views(ob).push(option_views(more@)[k as int]));
                assert(option_views(more@).take(k + 1) =~= option_views(more@).take(k as int).push(
                    option_views(more@)[k as int],
                ));
                k = k + 1;
            }
            assert(option_views(more@).take(more.len() as int) =~= option_views(more@));
            assert(option_views(opts@) =~= before + option_views(more@));
        } else if voter_list_line(&lines[i]) {
            let voters = voters_from(voter, lines, i)?;
            assert(option_views(opts@) + Seq::<(u32, Seq<char>)>::empty() =~= option_views(opts@));
            return Ok((opts, voters));
        }
        i = i + 1;
    }
    assert(option_views(opts@) + Seq::<(u32, Seq<char>)>::empty() =~= option_views(opts@));
    let none: Vec<String> = Vec::new();
    assert(views(none@) =~= Seq::<Seq<char>>::empty());
    Ok((opts, none))
}

/// The elements of `list` with `sep` between each two (`[..].join(sep)`).
pub open spec fn spec_join(list: Seq<Seq<char>>, sep: Seq<char>) -> Seq<char>
    decreases list.len(),
{
    if list.len() == 0 {
        Seq::empty()
    } else if list.len() == 1 {
        list[0]
    } else {
        spec_join(list.drop_last(), sep) + sep + list.last()
    }
}

/// `list.join(sep)`.
pub fn join(list: &Vec<String>, sep: &str) -> (r: String)
    ensures
        r@ == spec_join(views(list@), sep@),
{
    let ghost l = views(list@);
    let mut r = String::new();
    let mut i: usize = 0;
    while i < list.len()
        invariant
            i <= list.len(),
            l == views(list@),
            r@ == spec_join(l.take(i as int), sep@),
        decreases list.len() - i,
    {
        if i > 0 {
            push_str(&mut r, sep);
        }
        push_str(&mut r, list[i].as_str());
        assert(l.take(i + 1).drop_last() =~= l.take(i as int));
        i = i + 1;
    }
    assert(l.take(list.len() as int) =~= l);
    r
}

/// The report line of option `i` (counted from 0): its number and its voter count padded to
/// two digits, its text, and its voters.
pub open spec fn spec_report_line(i: nat, text: Seq<char>, voters: Seq<Seq<char>>) -> Seq<char> {
    "["@ + spec_decimal_pad2(i + 1) + "] #"@ + spec_decimal_pad2(voters.len()) + " "@ + text
        + ": "@ + spec_join(voters, ", "@)
}

/// The plain content of a `VoteSession`.
pub struct VoteSessionView {
    pub url: Seq<char>,
    pub options: Seq<(u32, Seq<char>)>,
    pub results: Seq<Seq<Seq<char>>>,
}

/// The voters gathered so far for the options of one vote, in option order.
pub struct VoteSession {
    url: String,
    options: Vec<(u32, String)>,
    results: Vec<Vec<String>>,
}

/// The views of the voters of each option.
pub open spec fn result_views(r: Seq<Vec<String>>) -> Seq<Seq<Seq<char>>> {
    r.map_values(|v: Vec<String>| views(v@))
}

/// `<url>&polloptionid=<id>`, the voter list of one option.
pub open spec fn spec_option_url(url: Seq<char>, id: u32) -> Seq<char> {
    url + "&polloptionid="@ + spec_decimal(id as nat)
}

impl View for VoteSession {
    type V = VoteSessionView;

    closed spec fn view(&self) -> VoteSessionView {
        VoteSessionView {
            url: self.url@,
            options: option_views(self.options@),
            results: result_views(self.results@),
        }
    }
}

impl VoteSession {
    /// At least one option has voters, and there are no more lists than options.
    #[verifier::type_invariant]
    closed spec fn inv(&self) -> bool {
        1 <= self.results.len() <= self.options.len()
    }

    /// A session for the voter list at `url`, whose first page listed `options` and the
    /// voters `first` of the first option; `NoOptions` when there is no option.
    pub fn new(url: String, options: Vec<(u32, String)>, first: Vec<String>) -> (r: Result<Self, VoteError>)
        ensures
            r is Err <==> options.len() == 0,
            r matches Err(e) ==> e is NoOptions,
            r matches Ok(s) ==> s@ == (VoteSessionView {
                url: url@,
                options: option_views(options@),
                results: seq![views(first@)],
            }),
    {
        if options.len() == 0 {
            return Err(VoteError::NoOptions);
        }
        let ghost fv = views(first@);
        let mut results: Vec<Vec<String>> = Vec::new();
        results.push(first);
        let s = VoteSession { url, options, results };
        assert(result_views(s.results@) =~= seq![fv]);
        Ok(s)
    }

    /// The voters gathered, one list per option so far.
    pub fn gathered(&self) -> (r: usize)
        ensures
            r == self@.results.len(),
            1 <= r <= self@.options.len(),
    {
        proof {
            use_type_invariant(self);
        }
        self.results.len()
    }

    /// The address of the voter list of the next option without voters, if any.
    pub fn next_request(&self) -> (r: Option<String>)
        ensures
            self@.results.len() < self@.options.len() ==> (r matches Some(u) && u@
                == spec_option_url(self@.url, self@.options[self@.results.len() as int].0)),
            self@.results.len() >= self@.options.len() ==> r is None,
    {
        proof {
            use_type_invariant(self);
        }
        let k = self.results.len();
        if k < self.options.len() {
            let mut u = self.url.clone();
            push_str(&mut u, "&polloptionid=");
            push_decimal(&mut u, self.options[k].0 as u64);
            Some(u)
        } else {
            None
        }
    }

    /// The id of the next option without voters, if any.
    pub fn pending_option(&self) -> (r: Option<u32>)
        ensures
            self@.results.len() < self@.options.len() ==> r == Some(
                self@.options[self@.results.len() as int].0,
            ),
            self@.results.len() >= self@.options.len() ==> r is None,
    {
        proof {
            use_type_invariant(self);
        }
        let k = self.results.len();
        if k < self.options.len() {
            Some(self.options[k].0)
        } else {
            None
        }
    }

    /// Records `voters` as the voters of the next option (an empty list where its page could
    /// not be fetched).
    pub fn record(&mut self, voters: Vec<String>)
        requires
            old(self)@.results.len() < old(self)@.options.len(),
        ensures
            final(self)@ == (VoteSessionView {
                results: old(self)@.results.push(views(voters@)),
                ..old(self)@
            }),
    {
        proof {
            use_type_invariant(&*self);
        }
        let ghost before = self@;
        let ghost vv = views(voters@);
        let mut results: Vec<Vec<String>> = Vec::new();
        results.push(Vec::new());
        std::mem::swap(&mut results, &mut self.results);
        results.push(voters);
        assert(result_views(results@) =~= before.results.push(vv));
        self.results = results;
    }

    /// One line per option gathered so far: its number, its voter count, its text, its voters.
    pub fn report(&self) -> (r: Vec<String>)
        ensures
            r@.len() == self@.results.len(),
            forall|i: int|
                0 <= i < r@.len() ==> #[trigger] r@[i]@ == spec_report_line(
                    i as nat,
                    self@.options[i].1,
                    self@.results[i],
                ),
    {
        proof {
            use_type_invariant(self);
        }
        let mut lines: Vec<String> = Vec::new();
        let mut i: usize = 0;
        while i < self.results.len()
            invariant
                i <= self.results.len() <= self.options.len(),
                lines@.len() == i,
                forall|k: int|
                    0 <= k < i ==> #[trigger] lines@[k]@ == spec_report_line(
                        k as nat,
                        self@.options[k].1,
                        self@.results[k],
                    ),
            decreases self.results.len() - i,
        {
            let voters = &self.results[i];
            let mut l = String::new();
            push_str(&mut l, "[");
            let n = decimal_pad2(i as u64 + 1);
            push_str(&mut l, n.as_str());
            push_str(&mut l, "] #");
            let c = decimal_pad2(voters.len() as u64);
            push_str(&mut l, c.as_str());
            push_str(&mut l, " ");
            push_str(&mut l, self.options[i].1.as_str());
            push_str(&mut l, ": ");
            let j = join(voters, ", ");
            push_str(&mut l, j.as_str());
            assert(l@ =~= spec_report_line(i as nat, self@.options[i as int].1, self@.results[i as int]));
            lines.push(l);
            i = i + 1;
        }
        lines
    }
}

/// A line that opens the voter list the first page reads: it holds `voter` and `ul` and does
/// not open an option list.
pub open spec fn opens_first_voters(l: Seq<char>) -> bool {
    is_voter_list_line(l) && !spec_contains(l, SELECT_MARKER@)
}

proof fn lemma_vote_page_voters_at(
    option: Seq<char>,
    voter: Seq<char>,
    lines: Seq<Seq<char>>,
    i: int,
    k: int,
)
    requires
        0 <= i <= k < lines.len(),
        opens_first_voters(lines[k]),
        forall|m: int| i <= m < k ==> !opens_first_voters(#[trigger] lines[m]),
        spec_vote_page_from(option, voter, lines, i) is Ok,
    ensures
        spec_voters_from(voter, lines, k) == Ok::<Seq<Seq<char>>, VoteError>(
            spec_vote_page_from(option, voter, lines, i)->Ok_0.1,
        ),
    decreases k - i,
{
    if spec_contains(lines[i], SELECT_MARKER@) {
        lemma_vote_page_voters_at(option, voter, lines, i + 1, k);
    } else if is_voter_list_line(lines[i]) {
        assert(opens_first_voters(lines[i]));
    } else {
        lemma_vote_page_voters_at(option, voter, lines, i + 1, k);
    }
}

proof fn lemma_vote_page_no_voters(
    option: Seq<char>,
    voter: Seq<char>,
    lines: Seq<Seq<char>>,
    i: int,
)
    requires
        0 <= i,
        forall|m: int| i <= m < lines.len() ==> !opens_first_voters(#[trigger] lines[m]),
        spec_vote_page_from(option, voter, lines, i) is Ok,
    ensures
        spec_vote_page_from(option, voter, lines, i)->Ok_0.1 == Seq::<Seq<char>>::empty(),
    decreases lines.len() - i,
{
    if i < lines.len() {
        assert(!opens_first_voters(lines[i]));
        lemma_vote_page_no_voters(option, voter, lines, i + 1);
    }
}

/// The voters the first page gives to the first option are those listed from the first line
/// that opens a voter list outside an option list, wherever it stands, inside the window of
/// an option list too; none where no line opens one.
pub proof fn law_vote_page_first_voters(
    option: Seq<char>,
    voter: Seq<char>,
    lines: Seq<Seq<char>>,
    k: int,
)
    requires
        spec_vote_page_from(option, voter, lines, 0) is Ok,
    ensures
        0 <= k < lines.len() && opens_first_voters(lines[k]) && (forall|m: int|
            0 <= m < k ==> !opens_first_voters(#[trigger] lines[m])) ==> spec_voters_from(
            voter,
            lines,
            k,
        ) == Ok::<Seq<Seq<char>>, VoteError>(spec_vote_page_from(option, voter, lines, 0)->Ok_0.1),
        (forall|m: int| 0 <= m < lines.len() ==> !opens_first_voters(#[trigger] lines[m]))
            ==> spec_vote_page_from(option, voter, lines, 0)->Ok_0.1 == Seq::<Seq<char>>::empty(),
{
    if 0 <= k < lines.len() && opens_first_voters(lines[k]) && (forall|m: int|
        0 <= m < k ==> !opens_first_voters(#[trigger] lines[m])) {
        lemma_vote_page_voters_at(option, voter, lines, 0, k);
    }
    if forall|m: int| 0 <= m < lines.len() ==> !opens_first_voters(#[trigger] lines[m]) {
        lemma_vote_page_no_voters(option, voter, lines, 0);
    }
}

/// The option pattern matches `line`, and the match reads as the option `o`: group 1 is its
/// id, written in decimal, and group 2 its text.
pub open spec fn reads_option(option: Seq<char>, line: Seq<char>, o: (u32, Seq<char>)) -> bool {
    &&& regex_captures(option, line) is Some
    &&& group(regex_captures(option, line).unwrap(), 1) is Some
    &&& spec_parse_unsigned(group(regex_captures(option, line).unwrap(), 1).unwrap(), u32::MAX as int)
        == Some(o.0 as int)
    &&& group(regex_captures(option, line).unwrap(), 2) == Some(o.1)
}

/// The match of the option pattern on `line` reads as an option that `opts` holds.
pub open spec fn option_held(option: Seq<char>, line: Seq<char>, opts: Seq<(u32, Seq<char>)>) -> bool {
    exists|o: (u32, Seq<char>)| #[trigger] reads_option(option, line, o) && opts.contains(o)
}

/// Some line from `lo` up to `hi` (and on the page) reads as the option `o`.
pub open spec fn option_read_between(
    option: Seq<char>,
    lines: Seq<Seq<char>>,
    lo: int,
    hi: int,
    o: (u32, Seq<char>),
) -> bool {
    exists|j: int| lo <= j < hi && j < lines.len() && #[trigger] reads_option(option, lines[j], o)
}

/// Line `j` lies in the option window of line `s`, which opens an option list and comes, at
/// or after line `i`, before any line that opens the first voter list.
pub open spec fn in_option_window(lines: Seq<Seq<char>>, i: int, s: int, j: int) -> bool {
    &&& 0 <= i <= s <= j < s + OPTION_WINDOW
    &&& j < lines.len()
    &&& spec_contains(lines[s], SELECT_MARKER@)
    &&& forall|m: int| i <= m < s ==> !opens_first_voters(#[trigger] lines[m])
}

/// Some line in the window of an option list from line `i` on reads as the option `o`.
pub open spec fn option_listed_from(
    option: Seq<char>,
    lines: Seq<Seq<char>>,
    i: int,
    o: (u32, Seq<char>),
) -> bool {
    exists|s: int, j: int| #[trigger] in_option_window(lines, i, s, j) && reads_option(option, lines[j], o)
}

proof fn lemma_option_window(option: Seq<char>, lines: Seq<Seq<char>>, s: int, j0: int)
    requires
        0 <= s <= j0 <= s + OPTION_WINDOW,
        spec_option_window(option, lines, s, j0) is Ok,
    ensures
        forall|a: int|
            0 <= a < spec_option_window(option, lines, s, j0)->Ok_0.len() ==> option_read_between(
                option,
                lines,
                j0,
                s + OPTION_WINDOW,
                #[trigger] spec_option_window(option, lines, s, j0)->Ok_0[a],
            ),
        forall|j: int|
            j0 <= j < s + OPTION_WINDOW ==> j < lines.len() && (regex_captures(
                option,
                #[trigger] lines[j],
            ) is Some ==> option_held(option, lines[j], spec_option_window(option, lines, s, j0)->Ok_0)),
    decreases s + OPTION_WINDOW - j0,
{
    if j0 < s + OPTION_WINDOW {
        let w = spec_option_window(option, lines, s, j0)->Ok_0;
        lemma_option_window(option, lines, s, j0 + 1);
        let rest = spec_option_window(option, lines, s, j0 + 1)->Ok_0;
        match regex_captures(option, lines[j0]) {
            None => {
                assert(w == rest);
                assert forall|a: int| 0 <= a < w.len() implies option_read_between(
                    option,
                    lines,
                    j0,
                    s + OPTION_WINDOW,
                    #[trigger] w[a],
                ) by {
                    assert(option_read_between(option, lines, j0 + 1, s + OPTION_WINDOW, rest[a]));
                }
            },
            Some(caps) => {
                let o = spec_option_from_groups(caps).unwrap();
                lemma_parse_unsigned_range(group(caps, 1).unwrap(), u32::MAX as int);
                assert(reads_option(option, lines[j0], o));
                assert(w == seq![o] + rest);
                assert(w[0] == o);
                assert forall|a: int| 0 <= a < w.len() implies option_read_between(
                    option,
                    lines,
                    j0,
                    s + OPTION_WINDOW,
                    #[trigger] w[a],
                ) by {
                    if a > 0 {
                        assert(w[a] == rest[a - 1]);
                        assert(option_read_between(
                            option,
                            lines,
                            j0 + 1,
                            s + OPTION_WINDOW,
                            rest[a - 1],
                        ));
                    }
                }
                assert forall|j: int|
                    j0 + 1 <= j < s + OPTION_WINDOW && regex_captures(option, #[trigger] lines[j])
                        is Some implies option_held(option, lines[j], w) by {
                    assert(option_held(option, lines[j], rest));
                    let p = choose|p: (u32, Seq<char>)|
                        #[trigger] reads_option(option, lines[j], p) && rest.contains(p);
                    let b = choose|b: int| 0 <= b < rest.len() && rest[b] == p;
                    assert(w[b + 1] == p);
                }
                assert(option_held(option, lines[j0], w));
            },
        }
    }
}

proof fn lemma_vote_page_options(option: Seq<char>, voter: Seq<char>, lines: Seq<Seq<char>>, i: int)
    requires
        0 <= i,
        spec_vote_page_from(option, voter, lines, i) is Ok,
    ensures
        forall|a: int|
            0 <= a < spec_vote_page_from(option, voter, lines, i)->Ok_0.0.len() ==> option_listed_from(
                option,
                lines,
                i,
                #[trigger] spec_vote_page_from(option, voter, lines, i)->Ok_0.0[a],
            ),
        forall|s: int, j: int|
            #[trigger] in_option_window(lines, i, s, j) && regex_captures(option, lines[j]) is Some
                ==> option_held(option, lines[j], spec_vote_page_from(option, voter, lines, i)->Ok_0.0),
    decreases lines.len() - i,
{
    let opts = spec_vote_page_from(option, voter, lines, i)->Ok_0.0;
    if i < lines.len() {
        if spec_contains(lines[i], SELECT_MARKER@) {
            let w = spec_option_window(option, lines, i, i)->Ok_0;
            let rest = spec_vote_page_from(option, voter, lines, i + 1)->Ok_0.0;
            lemma_option_window(option, lines, i, i);
            lemma_vote_page_options(option, voter, lines, i + 1);
            assert(opts == w + rest);
            assert forall|a: int| 0 <= a < opts.len() implies option_listed_from(
                option,
                lines,
                i,
                #[trigger] opts[a],
            ) by {
                if a < w.len() {
                    assert(opts[a] == w[a]);
                    assert(option_read_between(option, lines, i, i + OPTION_WINDOW, w[a]));
                    let j = choose|j: int|
                        i <= j < i + OPTION_WINDOW && j < lines.len() && #[trigger] reads_option(
                            option,
                            lines[j],
                            w[a],
                        );
                    assert(in_option_window(lines, i, i, j));
                } else {
                    assert(opts[a] == rest[a - w.len()]);
                    assert(option_listed_from(option, lines, i + 1, rest[a - w.len()]));
                    let (s, j) = choose|s: int, j: int|
                        #[trigger] in_option_window(lines, i + 1, s, j) && reads_option(
                            option,
                            lines[j],
                            rest[a - w.len()],
                        );
                    assert(in_option_window(lines, i, s, j)) by {
                        assert forall|m: int| i <= m < s implies !opens_first_voters(
                            #[trigger] lines[m],
                        ) by {
                            if m > i {
                                assert(in_option_window(lines, i + 1, s, j));
                            }
                        }
                    }
                }
            }
            assert forall|s: int, j: int|
                #[trigger] in_option_window(lines, i, s, j) && regex_captures(option, lines[j])
                    is Some implies option_held(option, lines[j], opts) by {
                if s == i {
                    assert(option_held(option, lines[j], w));
                    let p = choose|p: (u32, Seq<char>)|
                        #[trigger] reads_option(option, lines[j], p) && w.contains(p);
                    let b = choose|b: int| 0 <= b < w.len() && w[b] == p;
                    assert(opts[b] == p);
                } else {
                    assert(in_option_window(lines, i + 1, s, j));
                    assert(option_held(option, lines[j], rest));
                    let p = choose|p: (u32, Seq<char>)|
                        #[trigger] reads_option(option, lines[j], p) && rest.contains(p);
                    let b = choose|b: int| 0 <= b < rest.len() && rest[b] == p;
                    assert(opts[w.len() + b] == p);
                }
            }
        } else if is_voter_list_line(lines[i]) {
            assert(opens_first_voters(lines[i]));
            assert forall|s: int, j: int|
                #[trigger] in_option_window(lines, i, s, j) && regex_captures(option, lines[j])
                    is Some implies option_held(option, lines[j], opts) by {
                if s > i {
                    assert(!opens_first_voters(lines[i]));
                }
            }
        } else {
            let rest = spec_vote_page_from(option, voter, lines, i + 1)->Ok_0.0;
            lemma_vote_page_options(option, voter, lines, i + 1);
            assert(opts == rest);
            assert forall|a: int| 0 <= a < opts.len() implies option_listed_from(
                option,
                lines,
                i,
                #[trigger] opts[a],
            ) by {
                assert(option_listed_from(option, lines, i + 1, rest[a]));
                let (s, j) = choose|s: int, j: int|
                    #[trigger] in_option_window(lines, i + 1, s, j) && reads_option(
                        option,
                        lines[j],
                        rest[a],
                    );
                assert(in_option_window(lines, i, s, j)) by {
                    assert forall|m: int| i <= m < s implies !opens_first_voters(
                        #[trigger] lines[m],
                    ) by {
                        if m > i {
                            assert(in_option_window(lines, i + 1, s, j));
                        }
                    }
                }
            }
            assert forall|s: int, j: int|
                #[trigger] in_option_window(lines, i, s, j) && regex_captures(option, lines[j])
                    is Some implies option_held(option, lines[j], opts) by {
                assert(s != i);
                assert(in_option_window(lines, i + 1, s, j));
            }
        }
    }
}

/// The options the first page of a vote gives are exactly those read, in the window of
/// `OPTION_WINDOW` lines of every line that opens an option list before the first voter list,
/// from the lines the option pattern matches: each option comes from such a line, and each
/// such line gives an option that is among them.
pub proof fn law_vote_page_options(option: Seq<char>, voter: Seq<char>, lines: Seq<Seq<char>>)
    requires
        spec_vote_page_from(option, voter, lines, 0) is Ok,
    ensures
        forall|a: int|
            0 <= a < spec_vote_page_from(option, voter, lines, 0)->Ok_0.0.len() ==> option_listed_from(
                option,
                lines,
                0,
                #[trigger] spec_vote_page_from(option, voter, lines, 0)->Ok_0.0[a],
            ),
        forall|s: int, j: int|
            #[trigger] in_option_window(lines, 0, s, j) && regex_captures(option, lines[j]) is Some
                ==> option_held(option, lines[j], spec_vote_page_from(option, voter, lines, 0)->Ok_0.0),
{
    lemma_vote_page_options(option, voter, lines, 0);
}

/// Joining one element gives the element; joining two non-empty lists one after the other
/// puts the separator once between their joins.
pub proof fn law_join(a: Seq<Seq<char>>, b: Seq<Seq<char>>, sep: Seq<char>)
    ensures
        spec_join(seq![sep], sep) == sep,
        a.len() == 1 ==> spec_join(a, sep) == a[0],
        a.len() > 0 && b.len() > 0 ==> spec_join(a + b, sep) == spec_join(a, sep) + sep + spec_join(
            b,
            sep,
        ),
    decreases b.len(),
{
    if a.len() > 0 && b.len() > 0 {
        let ab = a + b;
        assert(ab.drop_last() =~= a + b.drop_last());
        assert(ab.last() == b.last());
        if b.len() == 1 {
            assert(b.drop_last() =~= Seq::<Seq<char>>::empty());
            assert(ab.drop_last() =~= a);
        } else {
            law_join(a, b.drop_last(), sep);
        }
    }
}

} // verus!
