//! Tags: named snippets, written `@name` in a command, that expand to their
//! value before it is sent, with an autocomplete list for the name being
//! typed.
use vstd::prelude::*;
use crate::graphics::special_char::SpecialCharPosition;
use crate::text::{
    char_is_space, chars_lex_le, chars_of, chars_to_lower, is_space, lemma_lex_total,
    lemma_lex_transitive, lex_le, lower_seq, push_str, starts_with, string_of, sub_chars,
    to_owned_string,
};

verus! {

/// The entries of a tag file: names with their values, as parsed.
pub type TagEntries = Seq<(Seq<char>, Seq<char>)>;

/// No name occurs twice.
pub open spec fn names_distinct(tags: TagEntries) -> bool {
    forall|i: int, j: int| 0 <= i < j < tags.len() ==> #[trigger] tags[i].0 != #[trigger] tags[j].0
}

pub open spec fn has_tag(tags: TagEntries, name: Seq<char>) -> bool {
    exists|i: int| 0 <= i < tags.len() && #[trigger] tags[i].0 == name
}

/// The value of the tag `name`, if there is one.
pub open spec fn tag_value(tags: TagEntries, name: Seq<char>) -> Option<Seq<char>> {
    if has_tag(tags, name) {
        let i = choose|i: int| 0 <= i < tags.len() && #[trigger] tags[i].0 == name;
        Some(tags[i].1)
    } else {
        None
    }
}

/// What the YAML parser makes of a tag file: a mapping from names to
/// values, or the parser's message.
pub uninterp spec fn tag_yaml(content: Seq<char>) -> Result<TagEntries, Seq<char>>;

/// Parses a tag file, a YAML mapping from names to string values
/// (`serde_yaml::from_str` into a `BTreeMap<String, String>`). The result is
/// named by `tag_yaml`; the names are distinct, as the keys of a map are.
#[verifier::external_body]
fn parse_tag_yaml(content: &str) -> (r: Result<Vec<(String, String)>, String>)
    ensures
        tag_yaml(content@) == match r {
            Ok(v) => Ok(v@.map_values(|p: (String, String)| (p.0@, p.1@))),
            Err(e) => Err(e@),
        },
        r matches Ok(v) ==> names_distinct(v@.map_values(|p: (String, String)| (p.0@, p.1@))),
{
    match serde_yaml::from_str::<std::collections::BTreeMap<String, String>>(content) {
        Ok(map) => Ok(map.into_iter().collect()),
        Err(err) => Err(err.to_string()),
    }
}

/// The tags read from a file's content: none when there is no file,
/// otherwise what the parser makes of it, with the error message naming the
/// file.
pub open spec fn tags_from(path: Seq<char>, content: Option<Seq<char>>) -> Result<TagEntries, Seq<char>> {
    match content {
        None => Ok(Seq::empty()),
        Some(c) => match tag_yaml(c) {
            Ok(tags) => Ok(tags),
            Err(e) => Err("Failed to parse tag file at "@ + path + ": "@ + e),
        },
    }
}

/// The character that ends a tag name.
pub open spec fn is_tag_delimiter(c: char) -> bool {
    is_space(c) || c == '@' || c == '"'
}

/// The tag name that starts at `from`: the longest run of characters that
/// are not delimiters.
pub open spec fn name_run(s: Seq<char>, from: int) -> Seq<char>
    decreases s.len() - from,
{
    if 0 <= from < s.len() && !is_tag_delimiter(s[from]) {
        seq![s[from]] + name_run(s, from + 1)
    } else {
        Seq::empty()
    }
}

/// Whether a known tag is invoked at `p`: an `@` followed by a non-empty
/// name that is a tag.
pub open spec fn tag_hit(tags: TagEntries, s: Seq<char>, p: int) -> bool {
    &&& 0 <= p < s.len()
    &&& s[p] == '@'
    &&& name_run(s, p + 1).len() > 0
    &&& has_tag(tags, name_run(s, p + 1))
}

/// The first position where a known tag is invoked, with the length of the
/// invocation (the `@` and the name).
pub open spec fn first_tag_hit(tags: TagEntries, s: Seq<char>, p: int, length: int) -> bool {
    &&& tag_hit(tags, s, p)
    &&& length == name_run(s, p + 1).len() + 1
    &&& forall|q: int| 0 <= q < p ==> !#[trigger] tag_hit(tags, s, q)
}

/// The position of the last `@` among the first `n` characters of `s`.
pub open spec fn last_at_before(s: Seq<char>, n: int) -> Option<int>
    decreases n,
{
    if n <= 0 {
        None
    } else if n - 1 < s.len() && s[n - 1] == '@' {
        Some(n - 1)
    } else {
        last_at_before(s, n - 1)
    }
}

/// The tag name being typed in `text` with the cursor at `cursor`: from the
/// last `@` before the cursor up to the cursor, unless it holds whitespace.
pub open spec fn pattern_for(text: Seq<char>, cursor: int) -> Seq<char> {
    let end = if cursor <= text.len() { cursor } else { text.len() as int };
    if text.len() == 0 || cursor == 0 {
        Seq::empty()
    } else {
        match last_at_before(text, end) {
            None => Seq::empty(),
            Some(at) => {
                let typed = text.subrange(at, end);
                if has_space(typed) {
                    Seq::empty()
                } else {
                    typed
                }
            },
        }
    }
}

pub open spec fn has_space(s: Seq<char>) -> bool {
    exists|i: int| 0 <= i < s.len() && #[trigger] is_space(s[i])
}

/// Whether the tag `name` is suggested while `pattern` is typed: every tag
/// for a lone `@`, otherwise the tags that extend the typed name.
pub open spec fn suggests(pattern: Seq<char>, name: Seq<char>) -> bool {
    if pattern.len() == 0 {
        false
    } else if pattern.len() == 1 {
        pattern[0] == '@'
    } else {
        &&& name != pattern.drop_first()
        &&& pattern[0] == '@'
        &&& starts_with(name, pattern.drop_first())
    }
}

/// The list is in case-insensitive order.
pub open spec fn sorted_ignoring_case(list: Seq<Seq<char>>) -> bool {
    forall|i: int, j: int|
        0 <= i < j < list.len() ==> lex_le(lower_seq(#[trigger] list[i]), lower_seq(#[trigger] list[j]))
}

pub open spec fn no_duplicates(list: Seq<Seq<char>>) -> bool {
    forall|i: int, j: int| 0 <= i < j < list.len() ==> #[trigger] list[i] != #[trigger] list[j]
}

/// The tags, the name being typed and the autocomplete list with its
/// highlighted entry.
#[derive(Clone)]
pub struct TagList {
    file_path: String,
    tags: Vec<(String, String)>,
    pattern: String,
    autocomplete_list: Vec<String>,
    selected: usize,
}

impl TagList {
    pub closed spec fn path(&self) -> Seq<char> {
        self.file_path@
    }

    pub closed spec fn entries(&self) -> TagEntries {
        self.tags@.map_values(|p: (String, String)| (p.0@, p.1@))
    }

    pub closed spec fn typed(&self) -> Seq<char> {
        self.pattern@
    }

    pub closed spec fn suggestions(&self) -> Seq<Seq<char>> {
        string_views(self.autocomplete_list@)
    }

    pub closed spec fn highlighted(&self) -> usize {
        self.selected
    }

    /// The names are distinct and the highlight lies within the list (or is
    /// at the top of an empty one).
    pub open spec fn wf(&self) -> bool {
        &&& names_distinct(self.entries())
        &&& self.highlighted() == 0 || self.highlighted() < self.suggestions().len()
    }

    /// A tag list over the file at `file_path`, whose content is `content`
    /// (`None` when there is no such file).
    pub fn new(file_path: String, content: Option<String>) -> (r: Result<Self, String>)
        ensures
            match r {
                Ok(list) => {
                    &&& list.wf()
                    &&& tags_from(file_path@, opt_view(content)) == Ok::<TagEntries, Seq<char>>(list.entries())
                    &&& list.path() == file_path@
                    &&& list.typed().len() == 0
                    &&& list.suggestions().len() == 0
                    &&& list.highlighted() == 0
                },
                Err(e) => tags_from(file_path@, opt_view(content)) == Err::<TagEntries, Seq<char>>(e@),
            },
    {
        match Self::parse(file_path.as_str(), content) {
            Ok(tags) => Ok(TagList {
                file_path,
                tags,
                pattern: String::new(),
                autocomplete_list: Vec::new(),
                selected: 0,
            }),
            Err(e) => Err(e),
        }
    }

    fn parse(file_path: &str, content: Option<String>) -> (r: Result<Vec<(String, String)>, String>)
        ensures
            match r {
                Ok(tags) => {
                    &&& tags_from(file_path@, opt_view(content)) == Ok::<TagEntries, Seq<char>>(
                        tags@.map_values(|p: (String, String)| (p.0@, p.1@)),
                    )
                    &&& names_distinct(tags@.map_values(|p: (String, String)| (p.0@, p.1@)))
                },
                Err(e) => tags_from(file_path@, opt_view(content)) == Err::<TagEntries, Seq<char>>(e@),
            },
    {
        match content {
            None => {
                let tags: Vec<(String, String)> = Vec::new();
                assert(tags@.map_values(|p: (String, String)| (p.0@, p.1@)) =~= Seq::<
                    (Seq<char>, Seq<char>),
                >::empty());
                Ok(tags)
            },
            Some(c) => match parse_tag_yaml(c.as_str()) {
                Ok(tags) => Ok(tags),
                Err(e) => {
                    let mut m = to_owned_string("Failed to parse tag file at ");
                    push_str(&mut m, file_path);
                    push_str(&mut m, ": ");
                    push_str(&mut m, e.as_str());
                    Err(m)
                },
            },
        }
    }

    /// Reads the tags again from the file's current content; on an error
    /// the list is left as it was.
    pub fn reload(&mut self, content: Option<String>) -> (r: Result<(), String>)
        requires
            old(self).wf(),
        ensures
            final(self).wf(),
            final(self).path() == old(self).path(),
            final(self).typed() == old(self).typed(),
            final(self).suggestions() == old(self).suggestions(),
            final(self).highlighted() == old(self).highlighted(),
            match r {
                Ok(_) => tags_from(old(self).path(), opt_view(content)) == Ok::<TagEntries, Seq<char>>(
                    final(self).entries(),
                ),
                Err(e) => {
                    &&& tags_from(old(self).path(), opt_view(content)) == Err::<TagEntries, Seq<char>>(e@)
                    &&& final(self).entries() == old(self).entries()
                },
            },
    {
        match Self::parse(self.file_path.as_str(), content) {
            Ok(tags) => {
                self.tags = tags;
                Ok(())
            },
            Err(e) => Err(e),
        }
    }

    /// The file the tags are read from.
    pub fn file_path(&self) -> (r: &str)
        ensures
            r@ == self.path(),
    {
        self.file_path.as_str()
    }

    /// The entry highlighted in the autocomplete pop-up, if any.
    pub fn get_selected_autocomplete(&self) -> (r: Option<String>)
        ensures
            self.highlighted() < self.suggestions().len() ==> (r matches Some(s) && s@
                == self.suggestions()[self.highlighted() as int]),
            self.highlighted() >= self.suggestions().len() ==> r is None,
    {
        if self.selected < self.autocomplete_list.len() {
            Some(self.autocomplete_list[self.selected].clone())
        } else {
            None
        }
    }

    /// The index of the highlighted entry within the autocomplete list.
    pub fn selected(&self) -> (r: usize)
        ensures
            r == self.highlighted(),
    {
        self.selected
    }

    /// Moves the highlight down one entry, stopping at the last.
    pub fn select_next(&mut self)
        requires
            old(self).wf(),
        ensures
            final(self).wf(),
            final(self).highlighted() == if old(self).suggestions().len() == 0 {
                old(self).highlighted() as int
            } else if old(self).highlighted() + 1 < old(self).suggestions().len() {
                old(self).highlighted() + 1
            } else {
                old(self).suggestions().len() - 1
            },
            final(self).entries() == old(self).entries(),
            final(self).typed() == old(self).typed(),
            final(self).suggestions() == old(self).suggestions(),
            final(self).path() == old(self).path(),
    {
        if self.autocomplete_list.len() == 0 {
            return;
        }
        let last = self.autocomplete_list.len() - 1;
        self.selected = if self.selected < last {
            self.selected + 1
        } else {
            last
        };
    }

    /// Moves the highlight up one entry, stopping at the first.
    pub fn select_prev(&mut self)
        requires
            old(self).wf(),
        ensures
            final(self).wf(),
            final(self).highlighted() == if old(self).highlighted() > 0 {
                old(self).highlighted() - 1
            } else {
                0
            },
            final(self).entries() == old(self).entries(),
            final(self).typed() == old(self).typed(),
            final(self).suggestions() == old(self).suggestions(),
            final(self).path() == old(self).path(),
    {
        if self.selected > 0 {
            self.selected = self.selected - 1;
        }
    }

    /// Whether the autocomplete pop-up has entries to show.
    pub fn has_suggestions(&self) -> (r: bool)
        ensures
            r == (self.typed().len() > 0 && self.suggestions().len() > 0),
    {
        !self.pattern.as_str().is_empty() && self.autocomplete_list.len() > 0
    }

    /// The value of the tag `key` names (`@name`, or a bare `@`-less text,
    /// which names nothing); an unknown tag stands for itself, `@name`.
    pub fn get_tagged_key(&self, key: &str) -> (r: String)
        requires
            self.wf(),
        ensures
            r@ == match tag_value(self.entries(), tag_name_of(key@)) {
                Some(v) => v,
                None => seq!['@'] + tag_name_of(key@),
            },
    {
        let cs = chars_of(key);
        let name = if cs.len() > 0 && cs[0] == '@' {
            sub_chars(cs.as_slice(), 1, cs.len())
        } else {
            Vec::new()
        };
        assert(cs@.len() > 0 && cs@[0] == '@' ==> cs@.subrange(1, cs@.len() as int) =~= cs@.drop_first());
        let name = string_of(name.as_slice());
        match self.lookup(&name) {
            Some(v) => v,
            None => {
                let mut r = to_owned_string("@");
                push_str(&mut r, name.as_str());
                proof {
                    reveal_strlit("@");
                }
                r
            },
        }
    }

    /// The value of the tag named `name`.
    pub(crate) fn lookup(&self, name: &String) -> (r: Option<String>)
        requires
            self.wf(),
        ensures
            match r {
                Some(v) => tag_value(self.entries(), name@) == Some(v@),
                None => tag_value(self.entries(), name@) is None,
            },
    {
        let ghost entries = self.entries();
        let mut i: usize = 0;
        while i < self.tags.len()
            invariant
                i <= self.tags@.len(),
                entries == self.entries(),
                names_distinct(entries),
                entries.len() == self.tags@.len(),
                forall|j: int| 0 <= j < i ==> #[trigger] entries[j].0 != name@,
            decreases self.tags.len() - i,
        {
            if self.tags[i].0 == *name {
                assert(entries[i as int].0 == name@);
                assert(has_tag(entries, name@));
                let ghost k = choose|k: int| 0 <= k < entries.len() && #[trigger] entries[k].0 == name@;
                assert(k == i) by {
                    if k < i {
                    } else if k > i {
                        assert(entries[i as int].0 != entries[k].0);
                    }
                }
                return Some(self.tags[i].1.clone());
            }
            i += 1;
        }
        None
    }

    /// Takes the tag name being typed in `text`, the cursor standing at
    /// character `cursor`: from the last `@` before the cursor up to it,
    /// or nothing when there is no `@` or whitespace follows it.
    pub fn update_pattern(&mut self, text: &str, cursor: usize)
        requires
            old(self).wf(),
        ensures
            final(self).wf(),
            final(self).typed() == pattern_for(text@, cursor as int),
            final(self).entries() == old(self).entries(),
            final(self).suggestions() == old(self).suggestions(),
            final(self).highlighted() == old(self).highlighted(),
            final(self).path() == old(self).path(),
    {
        let cs = chars_of(text);
        if cs.len() == 0 || cursor == 0 {
            self.pattern = String::new();
            return;
        }
        let end = if cursor <= cs.len() {
            cursor
        } else {
            cs.len()
        };
        let mut n = end;
        while n > 0 && cs[n - 1] != '@'
            invariant
                n <= end <= cs@.len(),
                *self == *old(self),
                last_at_before(cs@, end as int) == last_at_before(cs@, n as int),
            decreases n,
        {
            n -= 1;
        }
        if n == 0 {
            self.pattern = String::new();
            return;
        }
        let at = n - 1;
        assert(last_at_before(cs@, end as int) == Some(at as int));
        let mut j = at;
        while j < end
            invariant
                at <= j <= end <= cs@.len(),
                *self == *old(self),
                old(self).wf(),
                cs@ == text@,
                cs@.len() > 0,
                cursor > 0,
                end == (if cursor <= cs@.len() { cursor as int } else { cs@.len() as int }),
                last_at_before(cs@, end as int) == Some(at as int),
                forall|k: int| at <= k < j ==> !#[trigger] is_space(cs@[k]),
            decreases end - j,
        {
            if char_is_space(cs[j]) {
                let ghost typed = cs@.subrange(at as int, end as int);
                assert(is_space(typed[j - at]));
                assert(has_space(typed));
                self.pattern = String::new();
                return;
            }
            j += 1;
        }
        let typed = sub_chars(cs.as_slice(), at, end);
        assert forall|i: int| 0 <= i < typed@.len() implies !#[trigger] is_space(typed@[i]) by {
            assert(typed@[i] == cs@[at + i]);
        }
        self.pattern = string_of(typed.as_slice());
    }

    /// Rebuilds the autocomplete list for the name being typed: the tags it
    /// suggests, in case-insensitive order, with the highlight back at the
    /// top.
    pub fn update_autocomplete_list(&mut self)
        requires
            old(self).wf(),
        ensures
            final(self).wf(),
            forall|name: Seq<char>|
                #[trigger] final(self).suggestions().contains(name) <==> has_tag(
                    old(self).entries(),
                    name,
                ) && suggests(old(self).typed(), name),
            no_duplicates(final(self).suggestions()),
            sorted_ignoring_case(final(self).suggestions()),
            final(self).highlighted() == 0,
            final(self).entries() == old(self).entries(),
            final(self).typed() == old(self).typed(),
            final(self).path() == old(self).path(),
    {
        let ghost entries = self.entries();
        let pat = chars_of(self.pattern.as_str());
        let mut list: Vec<String> = Vec::new();
        let mut lowers: Vec<Vec<char>> = Vec::new();
        let mut i: usize = 0;
        while i < self.tags.len()
            invariant
                i <= self.tags@.len(),
                entries == self.entries(),
                entries.len() == self.tags@.len(),
                names_distinct(entries),
                pat@ == self.typed(),
                lowers@.len() == list@.len(),
                forall|m: int| 0 <= m < list@.len() ==> #[trigger] lowers@[m]@ == lower_seq(list@[m]@),
                forall|name: Seq<char>|
                    #[trigger] string_views(list@).contains(name) <==> (exists|j: int|
                        0 <= j < i && #[trigger] entries[j].0 == name) && suggests(pat@, name),
                no_duplicates(string_views(list@)),
                sorted_ignoring_case(string_views(list@)),
            decreases self.tags.len() - i,
        {
            let key = chars_of(self.tags[i].0.as_str());
            let ghost view_before = string_views(list@);
            assert(key@ == entries[i as int].0);
            if suggests_exec(pat.as_slice(), key.as_slice()) {
                let low = chars_to_lower(key.as_slice());
                let mut p: usize = 0;
                while p < lowers.len() && chars_lex_le(lowers[p].as_slice(), low.as_slice())
                    invariant
                        p <= lowers@.len(),
                        lowers@.len() == list@.len(),
                        forall|m: int| 0 <= m < list@.len() ==> #[trigger] lowers@[m]@ == lower_seq(list@[m]@),
                        forall|a: int| 0 <= a < p ==> lex_le(lower_seq(#[trigger] list@[a]@), low@),
                        low@ == lower_seq(key@),
                    decreases lowers.len() - p,
                {
                    p += 1;
                }
                proof {
                    assert(!view_before.contains(key@)) by {
                        if view_before.contains(key@) {
                            let w = choose|w: int| 0 <= w < view_before.len() && view_before[w] == key@;
                            assert(view_before.contains(view_before[w]));
                            let j = choose|j: int| 0 <= j < i && #[trigger] entries[j].0 == view_before[w];
                            assert(entries[j].0 == entries[i as int].0);
                        }
                    }
                    lemma_insert_sorted(view_before, p as int, key@);
                }
                list.insert(p, string_of(key.as_slice()));
                lowers.insert(p, low);
                proof {
                    let view_after = string_views(list@);
                    assert(view_after =~= view_before.insert(p as int, key@));
                    assert forall|m: int| 0 <= m < list@.len() implies #[trigger] lowers@[m]@
                        == lower_seq(list@[m]@) by {
                        if m < p {
                        } else if m == p {
                        } else {
                            assert(lowers@[m] == old_lower(lowers@, m));
                        }
                    }
                    assert forall|name: Seq<char>| #[trigger] view_after.contains(name) <==> (exists|j: int|
                        0 <= j < i + 1 && #[trigger] entries[j].0 == name) && suggests(pat@, name) by {
                        if view_after.contains(name) {
                            let w = choose|w: int| 0 <= w < view_after.len() && view_after[w] == name;
                            if w != p {
                                let w0 = if w < p { w } else { w - 1 };
                                assert(view_before[w0] == name);
                                assert(view_before.contains(name));
                            }
                        }
                        if (exists|j: int| 0 <= j < i + 1 && #[trigger] entries[j].0 == name) && suggests(pat@, name) {
                            let j = choose|j: int| 0 <= j < i + 1 && #[trigger] entries[j].0 == name;
                            if j < i {
                                assert(view_before.contains(name));
                                let w = choose|w: int| 0 <= w < view_before.len() && view_before[w] == name;
                                let w1 = if w < p { w } else { w + 1 };
                                assert(view_after[w1] == name);
                            } else {
                                assert(view_after[p as int] == name);
                            }
                        }
                    }
                }
            } else {
                proof {
                    assert forall|name: Seq<char>| #[trigger] view_before.contains(name) <==> (exists|j: int|
                        0 <= j < i + 1 && #[trigger] entries[j].0 == name) && suggests(pat@, name) by {
                        if (exists|j: int| 0 <= j < i + 1 && #[trigger] entries[j].0 == name) && suggests(pat@, name) {
                            let j = choose|j: int| 0 <= j < i + 1 && #[trigger] entries[j].0 == name;
                            assert(j != i);
                        }
                    }
                }
            }
            i += 1;
        }
        proof {
            assert forall|name: Seq<char>| (exists|j: int| 0 <= j < entries.len() && #[trigger] entries[j].0 == name)
                <==> has_tag(entries, name) by {}
        }
        self.autocomplete_list = list;
        self.selected = 0;
    }

    /// Finds the first known tag invoked in `string`: an `@` followed by a
    /// name (up to whitespace, another `@` or a `"`) that is a tag. Gives its
    /// character offset and length, the `@` included.
    pub fn tag_filter(&self, string: &str) -> (r: Option<SpecialCharPosition>)
        requires
            self.wf(),
        ensures
            r matches Some(pos) ==> first_tag_hit(self.entries(), string@, pos.start as int, pos.length as int),
            r is None ==> forall|q: int| !#[trigger] tag_hit(self.entries(), string@, q),
    {
        let cs = chars_of(string);
        let ghost entries = self.entries();
        let mut p: usize = 0;
        while p < cs.len()
            invariant
                p <= cs@.len(),
                cs@ == string@,
                entries == self.entries(),
                names_distinct(entries),
                forall|q: int| 0 <= q < p ==> !#[trigger] tag_hit(entries, cs@, q),
            decreases cs.len() - p,
        {
            if cs[p] == '@' {
                let mut e = p + 1;
                assert(name_run(cs@, p + 1) == cs@.subrange(p + 1, e as int) + name_run(cs@, e as int));
                while e < cs.len() && !(char_is_space(cs[e]) || cs[e] == '@' || cs[e] == '"')
                    invariant
                        p + 1 <= e <= cs@.len(),
                        name_run(cs@, p + 1) == cs@.subrange(p + 1, e as int) + name_run(cs@, e as int),
                    decreases cs.len() - e,
                {
                    assert(cs@.subrange(p + 1, e as int) + seq![cs@[e as int]] =~= cs@.subrange(p + 1, e + 1));
                    e += 1;
                }
                let name = sub_chars(cs.as_slice(), p + 1, e);
                assert(name@ == name_run(cs@, p + 1));
                if e > p + 1 && self.has_name(name.as_slice()) {
                    return Some(SpecialCharPosition { start: p, length: e - p });
                }
            }
            p += 1;
        }
        proof {
            assert forall|q: int| !#[trigger] tag_hit(entries, cs@, q) by {
                if !(0 <= q < p) {
                }
            }
        }
        None
    }

    /// Whether a tag is named `name`.
    pub(crate) fn has_name(&self, name: &[char]) -> (r: bool)
        ensures
            r == has_tag(self.entries(), name@),
    {
        let ghost entries = self.entries();
        let mut i: usize = 0;
        while i < self.tags.len()
            invariant
                i <= self.tags@.len(),
                entries == self.entries(),
                entries.len() == self.tags@.len(),
                forall|j: int| 0 <= j < i ==> #[trigger] entries[j].0 != name@,
            decreases self.tags.len() - i,
        {
            let key = chars_of(self.tags[i].0.as_str());
            if crate::text::chars_eq(key.as_slice(), name) {
                assert(entries[i as int].0 == name@);
                return true;
            }
            i += 1;
        }
        false
    }

    /// Forgets the name being typed and the autocomplete list.
    pub fn clear(&mut self)
        requires
            old(self).wf(),
        ensures
            final(self).wf(),
            final(self).typed().len() == 0,
            final(self).suggestions().len() == 0,
            final(self).highlighted() == 0,
            final(self).entries() == old(self).entries(),
            final(self).path() == old(self).path(),
    {
        self.pattern = String::new();
        self.autocomplete_list = Vec::new();
        self.selected = 0;
    }

    /// Forgets the tags too.
    pub fn full_clear(&mut self)
        requires
            old(self).wf(),
        ensures
            final(self).wf(),
            final(self).typed().len() == 0,
            final(self).suggestions().len() == 0,
            final(self).highlighted() == 0,
            final(self).entries().len() == 0,
            final(self).path() == old(self).path(),
    {
        self.clear();
        self.tags = Vec::new();
        assert(self.entries() =~= Seq::<(Seq<char>, Seq<char>)>::empty());
    }

    /// A copy of the autocomplete list.
    pub fn autocomplete_list(&self) -> (r: Vec<String>)
        ensures
            string_views(r@) == self.suggestions(),
    {
        self.autocomplete_list.clone()
    }

    /// The name being typed, with its `@`.
    pub fn pattern(&self) -> (r: String)
        ensures
            r@ == self.typed(),
    {
        self.pattern.clone()
    }
}

/// The name a key names: the text after its leading `@` (nothing when it
/// has none).
pub open spec fn tag_name_of(key: Seq<char>) -> Seq<char> {
    if key.len() > 0 && key[0] == '@' {
        key.drop_first()
    } else {
        Seq::empty()
    }
}

pub open spec fn opt_view(content: Option<String>) -> Option<Seq<char>> {
    match content {
        Some(c) => Some(c@),
        None => None,
    }
}

spec fn old_lower(l: Seq<Vec<char>>, m: int) -> Vec<char> {
    l[m]
}

/// Whether `name` is suggested while `pat` is typed.
fn suggests_exec(pat: &[char], name: &[char]) -> (r: bool)
    ensures
        r == suggests(pat@, name@),
{
    if pat.len() == 0 {
        false
    } else if pat.len() == 1 {
        pat[0] == '@'
    } else {
        let rest = sub_chars(pat, 1, pat.len());
        assert(rest@ =~= pat@.drop_first());
        !crate::text::chars_eq(name, rest.as_slice()) && pat[0] == '@'
            && crate::text::chars_starts_with(name, rest.as_slice())
    }
}

/// Inserting `x` before the first entry that sorts after it keeps a list
/// in case-insensitive order.
proof fn lemma_insert_sorted(l: Seq<Seq<char>>, p: int, x: Seq<char>)
    requires
        sorted_ignoring_case(l),
        0 <= p <= l.len(),
        forall|a: int| 0 <= a < p ==> lex_le(lower_seq(#[trigger] l[a]), lower_seq(x)),
        p < l.len() ==> !lex_le(lower_seq(l[p]), lower_seq(x)),
    ensures
        sorted_ignoring_case(l.insert(p, x)),
{
    let n = l.insert(p, x);
    if p < l.len() {
        lemma_lex_total(lower_seq(l[p]), lower_seq(x));
    }
    assert forall|i: int, j: int| 0 <= i < j < n.len() implies lex_le(
        lower_seq(#[trigger] n[i]),
        lower_seq(#[trigger] n[j]),
    ) by {
        if j < p {
            assert(n[i] == l[i] && n[j] == l[j]);
        } else if j == p {
            assert(n[i] == l[i]);
        } else if i == p {
            assert(n[j] == l[j - 1]);
            if j - 1 > p {
                lemma_lex_transitive(lower_seq(x), lower_seq(l[p]), lower_seq(l[j - 1]));
            }
        } else if i < p {
            assert(n[i] == l[i] && n[j] == l[j - 1]);
        } else {
            assert(n[i] == l[i - 1] && n[j] == l[j - 1]);
        }
    }
}

pub open spec fn string_views(l: Seq<String>) -> Seq<Seq<char>> {
    l.map_values(|s: String| s@)
}

proof fn lemma_name_run_shape(s: Seq<char>, from: int)
    requires
        0 <= from <= s.len(),
    ensures
        from + name_run(s, from).len() <= s.len(),
        name_run(s, from) == s.subrange(from, from + name_run(s, from).len()),
    decreases s.len() - from,
{
    if from < s.len() && !is_tag_delimiter(s[from]) {
        lemma_name_run_shape(s, from + 1);
        assert(seq![s[from]] + s.subrange(from + 1, from + 1 + name_run(s, from + 1).len())
            =~= s.subrange(from, from + name_run(s, from).len()));
    } else {
        assert(s.subrange(from, from) =~= Seq::<char>::empty());
    }
}

/// A tag that `tag_filter` finds expands to its value: the invocation it
/// reports, at least an `@` and one character long, names a known tag, so
/// `get_tagged_key` on it gives that tag's value.
pub proof fn lemma_found_tag_resolves(tags: TagEntries, s: Seq<char>, p: int, length: int)
    requires
        first_tag_hit(tags, s, p, length),
    ensures
        length >= 2,
        p + length <= s.len(),
        tag_value(tags, tag_name_of(s.subrange(p, p + length))) is Some,
{
    lemma_name_run_shape(s, p + 1);
    let key = s.subrange(p, p + length);
    assert(key.drop_first() =~= s.subrange(p + 1, p + length));
}

} // verus!
