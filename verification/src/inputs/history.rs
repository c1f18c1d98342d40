//! The history of sent commands, browsed with the arrow keys: the first
//! step up narrows the history to the entries that fuzzily match what was
//! typed, and the typed line is restored when browsing goes past the
//! newest entry.
use vstd::prelude::*;
use crate::command_list::string_views;
use crate::text::{chars_of, str_eq, string_of, to_owned_string};

verus! {

/// The indices of the entries of `haystack` that fuzzily match `needle`
/// (case ignored), best match first, as the fuzzy matcher ranks them.
pub uninterp spec fn fuzzy_matches(haystack: Seq<Seq<char>>, needle: Seq<char>) -> Seq<usize>;

/// Runs the fuzzy matcher on `haystack` with the pattern `needle`
/// (`nucleo::Nucleo` with one column: every entry is injected with its
/// index, the pattern parsed with `CaseMatching::Ignore`, the matcher
/// ticked until it stops running, then the snapshot's matched items read
/// back). The result is named by `fuzzy_matches`; each item read back is
/// one of the injected indices.
#[verifier::external_body]
fn run_fuzzy_matcher(haystack: &[String], needle: &str) -> (r: Vec<usize>)
    ensures
        r@ == fuzzy_matches(string_views(haystack@), needle@),
        forall|k: int| 0 <= k < r@.len() ==> #[trigger] r@[k] < haystack@.len(),
{
    let mut matcher: nucleo::Nucleo<usize> =
        nucleo::Nucleo::new(nucleo::Config::DEFAULT, std::sync::Arc::new(|| {}), Some(1), 1);
    let injector = matcher.injector();
    for (i, entry) in haystack.iter().enumerate() {
        let text: nucleo::Utf32String = entry.as_str().into();
        injector.push(i, |_, cols| cols[0] = text);
    }
    matcher.pattern.reparse(0, needle, nucleo::pattern::CaseMatching::Ignore, nucleo::pattern::Normalization::Never, false);
    while matcher.tick(10).running {}
    matcher.snapshot().matched_items(..).map(|item| *item.data).collect()
}

/// The entries to browse for the typed line `needle`: every entry, in
/// order, when nothing was typed; otherwise the fuzzy matches.
pub open spec fn matched_indices(haystack: Seq<Seq<char>>, needle: Seq<char>) -> Seq<usize> {
    if needle.len() == 0 {
        Seq::new(haystack.len(), |i: int| i as usize)
    } else {
        fuzzy_matches(haystack, needle)
    }
}

/// Fuzzy matching of the history entries.
pub struct Matcher;

impl Matcher {
    pub fn new() -> (r: Self) {
        Matcher
    }

    /// The indices of the entries of `haystack` to browse for `needle`
    /// (see `matched_indices`).
    pub fn fuzy_match_idx(&mut self, haystack: &[String], needle: &str) -> (r: Vec<usize>)
        ensures
            r@ == matched_indices(string_views(haystack@), needle@),
            forall|k: int| 0 <= k < r@.len() ==> #[trigger] r@[k] < haystack@.len(),
    {
        if needle.is_empty() {
            let mut all: Vec<usize> = Vec::new();
            let mut i: usize = 0;
            while i < haystack.len()
                invariant
                    i <= haystack@.len(),
                    all@ == Seq::new(i as nat, |k: int| k as usize),
                decreases haystack.len() - i,
            {
                all.push(i);
                i += 1;
                assert(all@ =~= Seq::new(i as nat, |k: int| k as usize));
            }
            all
        } else {
            run_fuzzy_matcher(haystack, needle)
        }
    }
}

/// What a step through the history shows.
pub enum HistoryNavResult<'a> {
    /// There is nothing to show.
    Empty,
    /// Show this entry.
    Entry(&'a str),
    /// Past the newest entry: show again what was typed before browsing.
    RestoreBackup,
}

/// A step's result as values of the specification.
pub enum NavView {
    Empty,
    Entry(Seq<char>),
    RestoreBackup,
}

pub open spec fn nav_view(r: HistoryNavResult) -> NavView {
    match r {
        HistoryNavResult::Empty => NavView::Empty,
        HistoryNavResult::Entry(e) => NavView::Entry(e@),
        HistoryNavResult::RestoreBackup => NavView::RestoreBackup,
    }
}

/// The history of commands, in memory.
pub struct History {
    entries: Vec<String>,
    index: Option<usize>,
    backup: String,
    matcher: Matcher,
    fuzy_entries: Vec<usize>,
}

/// The history after `entry` is sent: appended unless it repeats the last
/// entry.
pub open spec fn pushed_entry(entries: Seq<Seq<char>>, entry: Seq<char>) -> Seq<Seq<char>> {
    if entries.len() > 0 && entries.last() == entry {
        entries
    } else {
        entries.push(entry)
    }
}

impl History {
    pub closed spec fn items(&self) -> Seq<Seq<char>> {
        string_views(self.entries@)
    }

    /// Where the browsing stands within the browsed entries.
    pub closed spec fn position(&self) -> Option<usize> {
        self.index
    }

    pub closed spec fn saved(&self) -> Seq<char> {
        self.backup@
    }

    /// The entries being browsed, as indices of the history.
    pub closed spec fn browsed(&self) -> Seq<usize> {
        self.fuzy_entries@
    }

    /// The browsed indices point into the history and the position into
    /// the browsed entries.
    pub open spec fn wf(&self) -> bool {
        &&& forall|k: int| 0 <= k < self.browsed().len() ==> #[trigger] self.browsed()[k] < self.items().len()
        &&& self.position() matches Some(i) ==> i < self.browsed().len()
    }

    /// One step up from `h0` with `line` typed, giving `h1` and the result
    /// `r`: nothing happens on an empty history; the first step saves
    /// `line` and narrows the history to the entries matching it (see
    /// `matched_indices`), starting from the last of them; later steps go
    /// one further, stopping at the first.
    pub open spec fn stepped_up(h0: History, h1: History, line: Seq<char>, r: NavView) -> bool {
        if h0.items().len() == 0 {
            r == NavView::Empty && h1 == h0
        } else {
            let browsed = if h0.position() is None {
                matched_indices(h0.items(), line)
            } else {
                h0.browsed()
            };
            &&& h1.items() == h0.items()
            &&& h1.browsed() == browsed
            &&& h1.saved() == if h0.position() is None {
                line
            } else {
                h0.saved()
            }
            &&& if browsed.len() == 0 {
                r == NavView::Empty && h1.position() == h0.position()
            } else {
                let idx: int = match h0.position() {
                    None => browsed.len() - 1,
                    Some(i) => if i == 0 { 0 } else { i - 1 },
                };
                &&& h1.position() == Some(idx as usize)
                &&& r == NavView::Entry(h0.items()[browsed[idx] as int])
            }
        }
    }

    /// One step down from `h0`, giving `h1` and the result `r`: nothing
    /// happens unless browsing; past the newest browsed entry the browsing
    /// ends and the typed line is to be restored.
    pub open spec fn stepped_down(h0: History, h1: History, r: NavView) -> bool {
        &&& h1.items() == h0.items()
        &&& h1.browsed() == h0.browsed()
        &&& h1.saved() == h0.saved()
        &&& match h0.position() {
            None => r == NavView::Empty && h1.position() is None,
            Some(i) => if h0.browsed().len() == 0 {
                r == NavView::Empty && h1.position() == h0.position()
            } else if i == h0.browsed().len() - 1 {
                r == NavView::RestoreBackup && h1.position() is None
            } else {
                &&& h1.position() == Some((i + 1) as usize)
                &&& r == NavView::Entry(h0.items()[h0.browsed()[i + 1] as int])
            },
        }
    }

    pub fn new() -> (r: Self)
        ensures
            r.wf(),
            r.items().len() == 0,
            r.position() is None,
            r.saved().len() == 0,
            r.browsed().len() == 0,
    {
        History {
            entries: Vec::new(),
            index: None,
            backup: String::new(),
            matcher: Matcher::new(),
            fuzy_entries: Vec::new(),
        }
    }

    /// Adds `entry` unless it repeats the last one; says whether it was
    /// added (never an error for a history in memory).
    pub fn push(&mut self, entry: &str) -> (r: Result<bool, String>)
        requires
            old(self).wf(),
        ensures
            final(self).wf(),
            final(self).items() == pushed_entry(old(self).items(), entry@),
            r == Ok::<bool, String>(final(self).items() != old(self).items()),
            r == Ok::<bool, String>(!(old(self).items().len() > 0 && old(self).items().last() == entry@)),
            final(self).position() == old(self).position(),
            final(self).saved() == old(self).saved(),
            final(self).browsed() == old(self).browsed(),
    {
        let n = self.entries.len();
        if n > 0 && str_eq(self.entries[n - 1].as_str(), entry) {
            assert(self.items().last() == entry@);
            Ok(false)
        } else {
            let ghost before = self.entries@;
            self.entries.push(to_owned_string(entry));
            assert(self.items() =~= string_views(before).push(entry@));
            assert(self.items().len() != string_views(before).len());
            assert forall|k: int| 0 <= k < self.browsed().len() implies #[trigger] self.browsed()[k]
                < self.items().len() by {
                assert(old(self).browsed()[k] < old(self).items().len());
            }
            Ok(true)
        }
    }

    /// One step to an older entry. The first step saves `current_line` and
    /// narrows the history to the entries matching it (see
    /// `matched_indices`), starting from the last of them; later steps go
    /// one further, stopping at the first.
    pub fn navigate_up(&mut self, current_line: &str) -> (r: HistoryNavResult<'_>)
        requires
            old(self).wf(),
        ensures
            final(self).wf(),
            final(self).items() == old(self).items(),
            History::stepped_up(*old(self), *final(self), current_line@, nav_view(r)),
    {
        if self.entries.len() == 0 {
            return HistoryNavResult::Empty;
        }
        let idx = match self.index {
            None => {
                self.backup = to_owned_string(current_line);
                self.fuzy_entries = self.matcher.fuzy_match_idx(self.entries.as_slice(), current_line);
                if self.fuzy_entries.len() == 0 {
                    return HistoryNavResult::Empty;
                }
                self.fuzy_entries.len() - 1
            },
            Some(i) => if i == 0 { 0 } else { i - 1 },
        };
        self.index = Some(idx);
        let e = self.fuzy_entries[idx];
        HistoryNavResult::Entry(self.entries[e].as_str())
    }

    /// One step to a newer entry; past the newest browsed entry the
    /// browsing ends and the typed line is to be restored.
    pub fn navigate_down(&mut self) -> (r: HistoryNavResult<'_>)
        requires
            old(self).wf(),
        ensures
            final(self).wf(),
            final(self).items() == old(self).items(),
            History::stepped_down(*old(self), *final(self), nav_view(r)),
    {
        if self.fuzy_entries.len() == 0 {
            return HistoryNavResult::Empty;
        }
        match self.index {
            None => HistoryNavResult::Empty,
            Some(i) => {
                if i == self.fuzy_entries.len() - 1 {
                    self.index = None;
                    HistoryNavResult::RestoreBackup
                } else {
                    let next = i + 1;
                    self.index = Some(next);
                    let e = self.fuzy_entries[next];
                    HistoryNavResult::Entry(self.entries[e].as_str())
                }
            },
        }
    }

    /// Ends the browsing: the next step up starts again from the newest.
    pub fn reset_index(&mut self)
        requires
            old(self).wf(),
        ensures
            final(self).wf(),
            final(self).position() is None,
            final(self).items() == old(self).items(),
            final(self).saved() == old(self).saved(),
            final(self).browsed() == old(self).browsed(),
    {
        self.index = None;
    }

    /// The line typed before browsing began.
    pub fn backup(&self) -> (r: &str)
        ensures
            r@ == self.saved(),
    {
        self.backup.as_str()
    }

    pub fn is_empty(&self) -> (r: bool)
        ensures
            r == (self.items().len() == 0),
    {
        self.entries.len() == 0
    }

    /// The entries, oldest first.
    pub fn entries(&self) -> (r: &[String])
        ensures
            string_views(r@) == self.items(),
    {
        self.entries.as_slice()
    }
}

/// The lines of a history file, as lines are read from a file: cut at
/// line feeds, a carriage return before a line feed dropped.
pub open spec fn file_lines(content: Seq<char>) -> Seq<Seq<char>>
    decreases content.len(),
{
    if content.len() == 0 {
        Seq::empty()
    } else {
        let (done, current) = line_scan(content);
        if current.len() > 0 {
            done.push(current)
        } else {
            done
        }
    }
}

/// The complete lines of `content` and the line being read at its end.
pub open spec fn line_scan(content: Seq<char>) -> (Seq<Seq<char>>, Seq<char>)
    decreases content.len(),
{
    if content.len() == 0 {
        (Seq::empty(), Seq::empty())
    } else {
        let (done, current) = line_scan(content.drop_last());
        if content.last() == '\n' {
            let line = if current.len() > 0 && current.last() == '\r' {
                current.drop_last()
            } else {
                current
            };
            (done.push(line), Seq::empty())
        } else {
            (done, current.push(content.last()))
        }
    }
}

/// The entries a history file holds: its non-empty lines.
pub open spec fn file_entries(content: Seq<char>) -> Seq<Seq<char>> {
    file_lines(content).filter(|l: Seq<char>| l.len() > 0)
}

/// The non-empty lines of `content`, in order.
fn non_empty_lines(content: &str) -> (r: Vec<String>)
    ensures
        string_views(r@) == file_entries(content@),
{
    let cs = chars_of(content);
    let mut done: Vec<Vec<char>> = Vec::new();
    let mut current: Vec<char> = Vec::new();
    let mut i: usize = 0;
    while i < cs.len()
        invariant
            i <= cs@.len(),
            cs@ == content@,
            (done@.map_values(|l: Vec<char>| l@), current@) == line_scan(cs@.take(i as int)),
        decreases cs.len() - i,
    {
        assert(cs@.take(i + 1).drop_last() =~= cs@.take(i as int));
        let c = cs[i];
        if c == '\n' {
            let mut line = current;
            if line.len() > 0 && line[line.len() - 1] == '\r' {
                line.pop();
            }
            let ghost before = done@;
            done.push(line);
            assert(done@.map_values(|l: Vec<char>| l@) =~= before.map_values(|l: Vec<char>| l@).push(
                line@,
            ));
            current = Vec::new();
        } else {
            current.push(c);
        }
        i += 1;
    }
    assert(cs@.take(cs@.len() as int) =~= cs@);
    let ghost lines = file_lines(content@);
    if current.len() > 0 {
        let ghost before = done@;
        done.push(current);
        assert(done@.map_values(|l: Vec<char>| l@) =~= before.map_values(|l: Vec<char>| l@).push(
            current@,
        ));
    }
    assert(done@.map_values(|l: Vec<char>| l@) == lines);
    let mut out: Vec<String> = Vec::new();
    let mut j: usize = 0;
    while j < done.len()
        invariant
            j <= done@.len(),
            done@.map_values(|l: Vec<char>| l@) == lines,
            string_views(out@) == lines.take(j as int).filter(|l: Seq<char>| l.len() > 0),
        decreases done.len() - j,
    {
        assert(lines.take(j + 1).drop_last() =~= lines.take(j as int));
        assert(lines.take(j + 1).last() == done@[j as int]@);
        reveal(Seq::filter);
        if done[j].len() > 0 {
            let ghost before = out@;
            out.push(string_of(done[j].as_slice()));
            assert(string_views(out@) =~= string_views(before).push(done@[j as int]@));
        }
        j += 1;
    }
    assert(lines.take(done@.len() as int) =~= lines);
    out
}

impl History {
    /// A history holding the entries of a history file whose content is
    /// `content` (see `file_entries`).
    pub fn from_file_content(content: &str) -> (r: Self)
        ensures
            r.wf(),
            r.items() == file_entries(content@),
            r.position() is None,
            r.saved().len() == 0,
            r.browsed().len() == 0,
    {
        History {
            entries: non_empty_lines(content),
            index: None,
            backup: String::new(),
            matcher: Matcher::new(),
            fuzy_entries: Vec::new(),
        }
    }
}

/// A history kept in a file as well: it starts from the file's entries and
/// each new entry is appended to it (the writing is the caller's part).
pub struct PersistHistory {
    inner: History,
    file_path: String,
}

impl PersistHistory {
    pub closed spec fn history(&self) -> History {
        self.inner
    }

    pub closed spec fn path(&self) -> Seq<char> {
        self.file_path@
    }

    pub open spec fn wf(&self) -> bool {
        self.history().wf()
    }

    /// The history kept at `file_path`, whose content is `content`.
    pub fn new(file_path: String, content: &str) -> (r: Self)
        ensures
            r.wf(),
            r.path() == file_path@,
            r.history().items() == file_entries(content@),
            r.history().position() is None,
    {
        PersistHistory { inner: History::from_file_content(content), file_path }
    }

    /// Adds `entry` unless it repeats the last one; when added it is to be
    /// appended to the file as a line (`r` is then true).
    pub fn push(&mut self, entry: &str) -> (r: bool)
        requires
            old(self).wf(),
        ensures
            final(self).wf(),
            final(self).path() == old(self).path(),
            final(self).history().items() == pushed_entry(old(self).history().items(), entry@),
            r == !(old(self).history().items().len() > 0 && old(self).history().items().last() == entry@),
    {
        match self.inner.push(entry) {
            Ok(added) => added,
            Err(_) => false,
        }
    }

    pub fn navigate_up(&mut self, current_line: &str) -> (r: HistoryNavResult<'_>)
        requires
            old(self).wf(),
        ensures
            final(self).wf(),
            final(self).path() == old(self).path(),
            History::stepped_up(old(self).history(), final(self).history(), current_line@, nav_view(r)),
    {
        self.inner.navigate_up(current_line)
    }

    pub fn navigate_down(&mut self) -> (r: HistoryNavResult<'_>)
        requires
            old(self).wf(),
        ensures
            final(self).wf(),
            final(self).path() == old(self).path(),
            History::stepped_down(old(self).history(), final(self).history(), nav_view(r)),
    {
        self.inner.navigate_down()
    }

    pub fn reset_index(&mut self)
        requires
            old(self).wf(),
        ensures
            final(self).wf(),
            final(self).path() == old(self).path(),
            final(self).history().items() == old(self).history().items(),
            final(self).history().position() is None,
    {
        self.inner.reset_index()
    }

    pub fn backup(&self) -> (r: &str)
        ensures
            r@ == self.history().saved(),
    {
        self.inner.backup()
    }

    pub fn is_empty(&self) -> (r: bool)
        ensures
            r == (self.history().items().len() == 0),
    {
        self.inner.is_empty()
    }

    /// Where the file is.
    pub fn file_path(&self) -> (r: &str)
        ensures
            r@ == self.path(),
    {
        self.file_path.as_str()
    }

    pub fn entries(&self) -> (r: &[String])
        ensures
            string_views(r@) == self.history().items(),
    {
        self.inner.entries()
    }
}

/// A history kept in a file, or in memory only.
pub enum AnyHistory {
    Persist(PersistHistory),
    Base(History),
}

impl AnyHistory {
    pub open spec fn inner(&self) -> History {
        match self {
            AnyHistory::Persist(h) => h.history(),
            AnyHistory::Base(h) => *h,
        }
    }

    pub open spec fn wf(&self) -> bool {
        self.inner().wf()
    }

    /// Adds `entry` unless it repeats the last one. Says whether it was
    /// added; for a history kept in a file, the added entry is then to be
    /// appended to it.
    pub fn push(&mut self, entry: &str) -> (r: bool)
        requires
            old(self).wf(),
        ensures
            final(self).wf(),
            final(self).inner().items() == pushed_entry(old(self).inner().items(), entry@),
            r == !(old(self).inner().items().len() > 0 && old(self).inner().items().last() == entry@),
            (*final(self) is Persist) == (*old(self) is Persist),
    {
        match self {
            AnyHistory::Persist(h) => h.push(entry),
            AnyHistory::Base(h) => match h.push(entry) {
                Ok(added) => added,
                Err(_) => false,
            },
        }
    }

    pub fn navigate_up(&mut self, current_line: &str) -> (r: HistoryNavResult<'_>)
        requires
            old(self).wf(),
        ensures
            final(self).wf(),
            History::stepped_up(old(self).inner(), final(self).inner(), current_line@, nav_view(r)),
            (*final(self) is Persist) == (*old(self) is Persist),
            *old(self) matches AnyHistory::Persist(p0) ==> (*final(self) matches AnyHistory::Persist(p1) && p1.path()
                == p0.path()),
    {
        match self {
            AnyHistory::Persist(h) => h.navigate_up(current_line),
            AnyHistory::Base(h) => h.navigate_up(current_line),
        }
    }

    pub fn navigate_down(&mut self) -> (r: HistoryNavResult<'_>)
        requires
            old(self).wf(),
        ensures
            final(self).wf(),
            History::stepped_down(old(self).inner(), final(self).inner(), nav_view(r)),
            (*final(self) is Persist) == (*old(self) is Persist),
            *old(self) matches AnyHistory::Persist(p0) ==> (*final(self) matches AnyHistory::Persist(p1) && p1.path()
                == p0.path()),
    {
        match self {
            AnyHistory::Persist(h) => h.navigate_down(),
            AnyHistory::Base(h) => h.navigate_down(),
        }
    }

    pub fn reset_index(&mut self)
        requires
            old(self).wf(),
        ensures
            final(self).wf(),
            final(self).inner().items() == old(self).inner().items(),
            final(self).inner().position() is None,
    {
        match self {
            AnyHistory::Persist(h) => h.reset_index(),
            AnyHistory::Base(h) => h.reset_index(),
        }
    }

    pub fn backup(&self) -> (r: &str)
        ensures
            r@ == self.inner().saved(),
    {
        match self {
            AnyHistory::Persist(h) => h.backup(),
            AnyHistory::Base(h) => h.backup(),
        }
    }

    pub fn is_empty(&self) -> (r: bool)
        ensures
            r == (self.inner().items().len() == 0),
    {
        match self {
            AnyHistory::Persist(h) => h.is_empty(),
            AnyHistory::Base(h) => h.is_empty(),
        }
    }
}

} // verus!
