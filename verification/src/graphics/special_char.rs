use vstd::prelude::*;
use crate::text::{chars_of, string_of, sub_chars};

verus! {

/// One piece of a string split around "special" sequences: either plain
/// text, or a special sequence together with the column it started at.
#[derive(Debug, PartialEq, Eq)]
pub enum SpecialCharItem {
    Plain(String),
    Special(String, usize),
}

/// Where a filter found the next special sequence, in characters.
pub struct SpecialCharPosition {
    pub start: usize,
    pub length: usize,
}

impl From<(usize, usize)> for SpecialCharPosition {
    fn from(value: (usize, usize)) -> (r: Self) {
        Self { start: value.0, length: value.1 }
    }
}

impl vstd::std_specs::convert::FromSpecImpl<(usize, usize)> for SpecialCharPosition {
    open spec fn obeys_from_spec() -> bool {
        true
    }

    open spec fn from_spec(v: (usize, usize)) -> Self {
        SpecialCharPosition { start: v.0, length: v.1 }
    }
}

/// The characters an item carries.
pub open spec fn item_text(item: SpecialCharItem) -> Seq<char> {
    match item {
        SpecialCharItem::Plain(p) => p@,
        SpecialCharItem::Special(s, _) => s@,
    }
}

/// The characters a list of items carries, in order.
pub open spec fn items_text(items: Seq<SpecialCharItem>) -> Seq<char>
    decreases items.len(),
{
    if items.len() == 0 {
        Seq::empty()
    } else {
        items_text(items.drop_last()) + item_text(items.last())
    }
}

/// The number of characters a drain of `count` characters takes from `s`.
pub open spec fn clip(count: int, len: int) -> int {
    if count <= len { count } else { len }
}

/// Whether a filter always makes progress on non-empty input: it never
/// reports an empty special sequence at the very start.
pub open spec fn filter_makes_progress<F: Fn(&str) -> Option<SpecialCharPosition>>(f: F) -> bool {
    forall|s: &str, r: Option<SpecialCharPosition>|
        #[trigger] call_ensures(f, (s,), r) && r is Some ==> r.unwrap().start > 0 || r.unwrap().length > 0
}

/// Whether a filter only reports special sequences of at least one
/// character that lie within the text it was given.
pub open spec fn filter_in_bounds<F: Fn(&str) -> Option<SpecialCharPosition>>(f: F) -> bool {
    forall|s: &str, r: Option<SpecialCharPosition>|
        #[trigger] call_ensures(f, (s,), r) && r is Some ==> r.unwrap().length >= 1 && r.unwrap().start
            + r.unwrap().length <= s@.len()
}

/// Whether every piece holds at least one character and each special
/// piece carries its column: `col0` plus the number of characters before
/// it.
pub open spec fn pieces_well_placed(items: Seq<SpecialCharItem>, col0: int) -> bool {
    forall|k: int|
        0 <= k < items.len() ==> match #[trigger] items[k] {
            SpecialCharItem::Plain(p) => p@.len() > 0,
            SpecialCharItem::Special(t, c) => t@.len() > 0 && c == col0 + items_text(items.take(k)).len(),
        }
}

pub open spec fn filter_total<F: Fn(&str) -> Option<SpecialCharPosition>>(f: F) -> bool {
    forall|s: &str| #[trigger] call_requires(f, (s,))
}

/// Splits a string into plain and special pieces. The filter is asked, for
/// the text not yet consumed, where the next special sequence starts and
/// how long it is (both in characters).
pub struct SpecialChar<F> where F: Fn(&str) -> Option<SpecialCharPosition> {
    content: String,
    special: Option<(String, usize)>,
    column: usize,
    filter: F,
}

pub trait ToSpecialChar: Sized {
    fn to_special_char<F>(self, filter: F) -> (r: SpecialChar<F>) where
        F: Fn(&str) -> Option<SpecialCharPosition>,
    ;
}

impl ToSpecialChar for String {
    /// A splitter over this string, at column 0 with nothing pending.
    fn to_special_char<F>(self, filter: F) -> (r: SpecialChar<F>) where
        F: Fn(&str) -> Option<SpecialCharPosition>,
        ensures
            r.content() == self@,
            r.pending() is None,
            r.column() == 0,
            r.filter() == filter,
    {
        SpecialChar { content: self, special: None, column: 0, filter }
    }
}

impl<'a> ToSpecialChar for &'a str {
    /// A splitter over a copy of this text, at column 0 with nothing
    /// pending.
    fn to_special_char<F>(self, filter: F) -> (r: SpecialChar<F>) where
        F: Fn(&str) -> Option<SpecialCharPosition>,
        ensures
            r.content() == self@,
            r.pending() is None,
            r.column() == 0,
            r.filter() == filter,
    {
        SpecialChar { content: crate::text::to_owned_string(self), special: None, column: 0, filter }
    }
}

impl<F> SpecialChar<F> where F: Fn(&str) -> Option<SpecialCharPosition> {
    pub closed spec fn pending(self) -> Option<(Seq<char>, usize)> {
        match self.special {
            Some((s, c)) => Some((s@, c)),
            None => None,
        }
    }

    pub closed spec fn content(self) -> Seq<char> {
        self.content@
    }

    pub closed spec fn column(self) -> usize {
        self.column
    }

    pub closed spec fn filter(self) -> F {
        self.filter
    }

    /// Everything the splitter still has to hand out, in order.
    pub open spec fn rest(self) -> Seq<char> {
        match self.pending() {
            Some((s, _)) => s + self.content(),
            None => self.content(),
        }
    }

    /// A measure that every call of `next_item` that returns an item lowers,
    /// given a filter that makes progress.
    pub open spec fn remaining_steps(self) -> nat {
        2 * self.content().len() + if self.pending() is Some { 1nat } else { 0nat }
    }

    pub fn new(content: String, filter: F) -> (r: Self)
        ensures
            r.content() == content@,
            r.pending() is None,
            r.column() == 0,
            r.filter() == filter,
    {
        SpecialChar { content, special: None, column: 0, filter }
    }

    /// The next piece, or `None` once the whole string was handed out.
    ///
    /// A pending special sequence is returned first. Otherwise the filter is
    /// run on the remaining text: with no match the whole rest is one plain
    /// piece; with a match at `start` of `length` characters the text before
    /// it is returned as plain (when not empty) and the sequence itself is
    /// returned next, tagged with its column in the string it was made from.
    pub fn next_item(&mut self) -> (r: Option<SpecialCharItem>)
        requires
            filter_total(old(self).filter()),
        ensures
            final(self).filter() == old(self).filter(),
            r is None <==> old(self).pending() is None && old(self).content().len() == 0,
            r is None ==> final(self).content() == old(self).content() && final(self).pending() is None,
            r matches Some(item) ==> item_text(item) + final(self).rest() == old(self).rest(),
            old(self).pending() matches Some((s, c)) ==> {
                &&& r matches Some(SpecialCharItem::Special(t, d)) && t@ == s && d == c
                &&& final(self).pending() is None
                &&& final(self).content() == old(self).content()
                &&& final(self).column() == old(self).column()
            },
            old(self).pending() is None && old(self).content().len() > 0 ==> exists|
                arg: &str,
                found: Option<SpecialCharPosition>,
            |
                {
                    &&& arg@ == old(self).content()
                    &&& #[trigger] call_ensures(old(self).filter(), (arg,), found)
                    &&& Self::step_outcome(*old(self), found, r, *final(self))
                },
            filter_makes_progress(old(self).filter()) && r is Some ==> final(self).remaining_steps()
                < old(self).remaining_steps(),
    {
        if let Some((special, column)) = self.special.take() {
            return Some(SpecialCharItem::Special(special, column));
        }
        let cs = chars_of(self.content.as_str());
        if cs.len() == 0 {
            return None;
        }
        let arg = self.content.as_str();
        let found = (self.filter)(arg);
        let ghost g_arg: &str = arg;
        let ghost before = *self;
        match found {
            None => {
                let plain = string_of(cs.as_slice());
                self.content = string_of(&[]);
                assert(self.content@ =~= Seq::<char>::empty());
                let r = Some(SpecialCharItem::Plain(plain));
                assert(Self::step_outcome(before, found, r, *self));
                r
            },
            Some(position) => {
                let start = position.start;
                let length = position.length;
                let plain_end = if start <= cs.len() { start } else { cs.len() };
                let special_end = if length <= cs.len() - plain_end {
                    plain_end + length
                } else {
                    cs.len()
                };
                let plain = string_of(sub_chars(cs.as_slice(), 0, plain_end).as_slice());
                let special = string_of(sub_chars(cs.as_slice(), plain_end, special_end).as_slice());
                self.content = string_of(sub_chars(cs.as_slice(), special_end, cs.len()).as_slice());
                let special_column = self.column.wrapping_add(start);
                self.special = Some((special, special_column));
                self.column = self.column.wrapping_add(start).wrapping_add(length);
                assert(cs@ =~= cs@.subrange(0, plain_end as int) + cs@.subrange(
                    plain_end as int,
                    special_end as int,
                ) + cs@.subrange(special_end as int, cs.len() as int));
                if plain_end > 0 {
                    let r = Some(SpecialCharItem::Plain(plain));
                    assert(Self::step_outcome(before, found, r, *self));
                    r
                } else {
                    let (special, column) = self.special.take().unwrap();
                    assert(cs@.subrange(0, plain_end as int) =~= Seq::<char>::empty());
                    let r = Some(SpecialCharItem::Special(special, column));
                    assert(Self::step_outcome(before, found, r, *self));
                    r
                }
            },
        }
    }

    /// What one call of `next_item` does when nothing is pending and the
    /// filter answered `found` for the remaining text.
    pub open spec fn step_outcome(
        old: Self,
        found: Option<SpecialCharPosition>,
        r: Option<SpecialCharItem>,
        new: Self,
    ) -> bool {
        let c = old.content();
        match found {
            None => {
                &&& r matches Some(SpecialCharItem::Plain(p)) && p@ == c
                &&& new.content().len() == 0
                &&& new.pending() is None
                &&& new.column() == old.column()
            },
            Some(pos) => {
                let plain_len = clip(pos.start as int, c.len() as int);
                let special_len = clip(pos.length as int, c.len() - plain_len);
                let plain = c.subrange(0, plain_len);
                let special = c.subrange(plain_len, plain_len + special_len);
                let column = old.column().wrapping_add(pos.start);
                &&& new.content() == c.subrange(plain_len + special_len, c.len() as int)
                &&& new.column() == old.column().wrapping_add(pos.start).wrapping_add(pos.length)
                &&& if plain_len > 0 {
                    &&& r matches Some(SpecialCharItem::Plain(p)) && p@ == plain
                    &&& new.pending() == Some((special, column))
                } else {
                    &&& r matches Some(SpecialCharItem::Special(s, d)) && s@ == special && d
                        == column
                    &&& new.pending() is None
                }
            },
        }
    }

    /// One step of `next_item` that handed out `item` keeps the state
    /// consistent with the pieces handed out (see `placed_after`).
    proof fn lemma_step_placed(old: Self, new: Self, items: Seq<SpecialCharItem>, item: SpecialCharItem, col0: int)
        requires
            filter_in_bounds(old.filter()),
            old.placed_after(items, col0),
            col0 + items_text(items).len() + old.rest().len() <= usize::MAX,
            col0 >= 0,
            item_text(item) + new.rest() == old.rest(),
            old.pending() matches Some((s, c)) ==> {
                &&& item matches SpecialCharItem::Special(t, d) && t@ == s && d == c
                &&& new.pending() is None
                &&& new.content() == old.content()
                &&& new.column() == old.column()
            },
            old.pending() is None ==> old.content().len() > 0 && exists|arg: &str, found: Option<SpecialCharPosition>|
                {
                    &&& arg@ == old.content()
                    &&& #[trigger] call_ensures(old.filter(), (arg,), found)
                    &&& Self::step_outcome(old, found, Some(item), new)
                },
        ensures
            new.placed_after(items.push(item), col0),
    {
        let all = items.push(item);
        assert(all.take(items.len() as int) =~= items);
        assert(all.drop_last() == items);
        assert(items_text(all) == items_text(items) + item_text(item));
        assert forall|k: int| 0 <= k < items.len() implies all.take(k) == items.take(k) by {
            assert(all.take(k) =~= items.take(k));
        }
        match old.pending() {
            Some((s, c)) => {
            },
            None => {
                let (arg, found) = choose|arg: &str, found: Option<SpecialCharPosition>|
                    {
                        &&& arg@ == old.content()
                        &&& #[trigger] call_ensures(old.filter(), (arg,), found)
                        &&& Self::step_outcome(old, found, Some(item), new)
                    };
                let cn = old.content();
                match found {
                    None => {
                    },
                    Some(pos) => {
                        assert(pos.length >= 1 && pos.start + pos.length <= cn.len());
                        assert(clip(pos.start as int, cn.len() as int) == pos.start);
                        assert(clip(pos.length as int, cn.len() - pos.start) == pos.length);
                        assert(old.rest() == cn);
                        assert(old.column() == col0 + items_text(items).len());
                        assert(old.column() + pos.start + pos.length <= usize::MAX);
                    },
                }
            },
        }
    }

    /// Whether the splitter's state is consistent with the pieces `items`
    /// handed out so far, from a start at column `col0`: the column of a
    /// pending special sequence and the running column follow the
    /// characters handed out.
    pub open spec fn placed_after(self, items: Seq<SpecialCharItem>, col0: int) -> bool {
        &&& pieces_well_placed(items, col0)
        &&& match self.pending() {
            Some((t, c)) => {
                &&& c == col0 + items_text(items).len()
                &&& self.column() == c + t.len()
                &&& t.len() > 0
            },
            None => self.content().len() > 0 ==> self.column() == col0 + items_text(items).len(),
        }
    }

    /// Runs the splitter to the end and returns every piece in order. The
    /// pieces together hold exactly the characters of the string it was made from.
    /// With a filter that reports only non-empty sequences within its text,
    /// started with nothing pending, no piece is empty and each special
    /// piece carries its column: the starting column plus the number of
    /// characters before it.
    pub fn into_items(self) -> (items: Vec<SpecialCharItem>)
        requires
            filter_total(self.filter()),
            filter_makes_progress(self.filter()),
        ensures
            items_text(items@) == self.rest(),
            filter_in_bounds(self.filter()) && self.pending() is None && self.column() + self.rest().len()
                <= usize::MAX ==> pieces_well_placed(items@, self.column() as int),
    {
        let ghost whole = self.rest();
        let ghost col0: int = self.column() as int;
        let ghost good: bool = filter_in_bounds(self.filter()) && self.pending() is None && self.column()
            + self.rest().len() <= usize::MAX;
        let mut splitter = self;
        let mut items: Vec<SpecialCharItem> = Vec::new();
        proof {
            if good {
                assert(items_text(items@) =~= Seq::<char>::empty());
            }
        }
        loop
            invariant
                filter_total(splitter.filter()),
                filter_makes_progress(splitter.filter()),
                items_text(items@) + splitter.rest() == whole,
                whole == self.rest(),
                col0 == self.column(),
                splitter.filter() == self.filter(),
                good == (filter_in_bounds(self.filter()) && self.pending() is None && self.column()
                    + self.rest().len() <= usize::MAX),
                good ==> splitter.placed_after(items@, col0),
            decreases splitter.remaining_steps(),
        {
            let ghost before = splitter.rest();
            let ghost old_items = items@;
            let ghost old_splitter = splitter;
            match splitter.next_item() {
                Some(item) => {
                    let ghost t = item_text(item);
                    items.push(item);
                    assert(items@.drop_last() == old_items);
                    assert(items_text(items@) == items_text(old_items) + t);
                    assert(t + splitter.rest() == before);
                    assert(items_text(old_items) + t + splitter.rest() =~= items_text(old_items) + (t
                        + splitter.rest()));
                    proof {
                        if good {
                            Self::lemma_step_placed(old_splitter, splitter, old_items, item, col0);
                            assert(items@ == old_items.push(item));
                        }
                    }
                },
                None => {
                    assert(before =~= Seq::<char>::empty());
                    assert(items_text(items@) + before =~= items_text(items@));
                    return items;
                },
            }
        }
    }
}

/// The number of bytes the UTF-8 encoding of `c` takes.
pub open spec fn utf8_width(c: char) -> nat {
    if (c as u32) < 0x80 {
        1
    } else if (c as u32) < 0x800 {
        2
    } else if (c as u32) < 0x10000 {
        3
    } else {
        4
    }
}

/// The number of bytes the UTF-8 encoding of `s` takes.
pub open spec fn utf8_len(s: Seq<char>) -> nat
    decreases s.len(),
{
    if s.len() == 0 {
        0
    } else {
        utf8_len(s.drop_last()) + utf8_width(s.last())
    }
}

proof fn lemma_utf8_len_take(s: Seq<char>, k: int)
    requires
        0 <= k < s.len(),
    ensures
        utf8_len(s.take(k + 1)) == utf8_len(s.take(k)) + utf8_width(s[k]),
{
    assert(s.take(k + 1).drop_last() == s.take(k));
}

proof fn lemma_utf8_len_prefix(s: Seq<char>, k: int)
    requires
        0 <= k <= s.len(),
    ensures
        utf8_len(s.take(k)) <= utf8_len(s),
    decreases s.len(),
{
    if k < s.len() {
        assert(s.drop_last().take(k) == s.take(k));
        lemma_utf8_len_prefix(s.drop_last(), k);
    } else {
        assert(s.take(k) == s);
    }
}

/// The byte offset of the `char_idx`-th character of `s`, or the byte length
/// of `s` when it has no such character.
fn char_to_byte_idx(s: &str, char_idx: usize) -> (r: usize)
    requires
        utf8_len(s@) <= usize::MAX,
    ensures
        r == utf8_len(s@.take(clip(char_idx as int, s@.len() as int))),
{
    let cs = chars_of(s);
    let end = if char_idx <= cs.len() { char_idx } else { cs.len() };
    let mut i: usize = 0;
    let mut bytes: usize = 0;
    while i < end
        invariant
            end <= cs.len(),
            cs@ == s@,
            i <= end,
            bytes == utf8_len(cs@.take(i as int)),
            utf8_len(s@) <= usize::MAX,
        decreases end - i,
    {
        let code = cs[i] as u32;
        let w: usize = if code < 0x80 {
            1
        } else if code < 0x800 {
            2
        } else if code < 0x10000 {
            3
        } else {
            4
        };
        proof {
            lemma_utf8_len_take(cs@, i as int);
        }
        proof {
            lemma_utf8_len_prefix(cs@, i as int + 1);
        }
        bytes = bytes + w;
        i = i + 1;
    }
    bytes
}

/// Removes the first `char_count` characters of `s` (all of them when it is
/// shorter) and returns them.
fn drain_chars_prefix(s: &mut String, char_count: usize) -> (r: String)
    ensures
        r@ == old(s)@.take(clip(char_count as int, old(s)@.len() as int)),
        final(s)@ == old(s)@.skip(clip(char_count as int, old(s)@.len() as int)),
{
    let cs = chars_of(s.as_str());
    let end = if char_count <= cs.len() { char_count } else { cs.len() };
    let prefix = string_of(sub_chars(cs.as_slice(), 0, end).as_slice());
    *s = string_of(sub_chars(cs.as_slice(), end, cs.len()).as_slice());
    prefix
}

} // verus!
