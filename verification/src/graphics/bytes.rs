//! Search and replace on byte strings.
use vstd::prelude::*;

verus! {

/// Whether `pat` occurs in `s` starting at index `i`.
pub open spec fn occurs_at<T>(s: Seq<T>, pat: Seq<T>, i: int) -> bool {
    &&& 0 <= i
    &&& i + pat.len() <= s.len()
    &&& s.subrange(i, i + pat.len()) == pat
}

/// Whether the non-empty pattern `pat` occurs somewhere in `s`.
pub open spec fn bytes_contain<T>(s: Seq<T>, pat: Seq<T>) -> bool {
    pat.len() > 0 && exists|i: int| #[trigger] occurs_at(s, pat, i)
}

/// Whether `i` is the first occurrence of `pat` in `s` at or after `from`.
pub open spec fn is_first_from<T>(s: Seq<T>, pat: Seq<T>, from: int, i: int) -> bool {
    &&& from <= i
    &&& occurs_at(s, pat, i)
    &&& forall|j: int| from <= j < i ==> !#[trigger] occurs_at(s, pat, j)
}

/// Whether `pat` occurs in `s` at or after `from`.
pub open spec fn occurs_from<T>(s: Seq<T>, pat: Seq<T>, from: int) -> bool {
    exists|i: int| from <= i && #[trigger] occurs_at(s, pat, i)
}

/// `s[from..]` with every occurrence of the non-empty `pat`, taken left to
/// right without overlap, replaced by `to`.
pub open spec fn replace_from<T>(s: Seq<T>, pat: Seq<T>, to: Seq<T>, from: int) -> Seq<T>
    decreases s.len() - from,
{
    if pat.len() > 0 && 0 <= from <= s.len() && occurs_from(s, pat, from) {
        let i = choose|i: int| #[trigger] is_first_from(s, pat, from, i);
        if from <= i && i + pat.len() <= s.len() {
            s.subrange(from, i) + to + replace_from(s, pat, to, i + pat.len())
        } else {
            Seq::empty()
        }
    } else if 0 <= from <= s.len() {
        s.subrange(from, s.len() as int)
    } else {
        Seq::empty()
    }
}

/// `s` with every occurrence of the non-empty `pat`, taken left to right
/// without overlap, replaced by `to`.
pub open spec fn replace_spec<T>(s: Seq<T>, pat: Seq<T>, to: Seq<T>) -> Seq<T> {
    replace_from(s, pat, to, 0)
}

/// Byte-string search and replace.
pub trait SliceExt<T> {
    /// Whether the non-empty `pat` occurs in `self`.
    fn contains(&self, pat: &[T]) -> bool;

    /// `self` with every occurrence of `from`, left to right, replaced by `to`.
    fn replace(&self, from: &[T], to: &[T]) -> Self where Self: Sized
        requires
            from@.len() > 0,
    ;
}

impl SliceExt<u8> for Vec<u8> {
    fn contains(&self, pat: &[u8]) -> (r: bool)
        ensures
            r == bytes_contain(self@, pat@),
    {
        let s = self.as_slice();
        if pat.len() == 0 {
            return false;
        }
        let mut i: usize = 0;
        while i < s.len()
            invariant
                i <= s@.len(),
                s@ == self@,
                pat@.len() > 0,
                forall|j: int| 0 <= j < i ==> !#[trigger] occurs_at(s@, pat@, j),
            decreases s.len() - i,
        {
            if matches_at(s, pat, i) {
                return true;
            }
            i += 1;
        }
        proof {
            assert forall|j: int| !#[trigger] occurs_at(s@, pat@, j) by {
                if j >= i {
                    assert(!(j + pat@.len() <= s@.len()));
                }
            }
        }
        false
    }

    fn replace(&self, from: &[u8], to: &[u8]) -> (r: Self)
        ensures
            r@ == replace_spec(self@, from@, to@),
    {
        let s = self.as_slice();
        let mut result: Vec<u8> = Vec::new();
        let mut last_end: usize = 0;
        let mut matches = match_indices(self, from);
        loop
            invariant
                s@ == self@,
                from@.len() > 0,
                last_end <= s@.len(),
                matches.source() == s@,
                matches.pattern() == from@,
                matches.offset() == last_end,
                result@ + replace_from(s@, from@, to@, last_end as int) == replace_spec(
                    s@,
                    from@,
                    to@,
                ),
            decreases s@.len() - last_end,
        {
            match matches.next_match() {
                Some((start, part)) => {
                    proof {
                        lemma_replace_step(s@, from@, to@, last_end as int, start as int);
                    }
                    let ghost before = result@;
                    let ghost gap = s@.subrange(last_end as int, start as int);
                    extend_bytes(&mut result, s, last_end, start);
                    extend_bytes(&mut result, to, 0, to.len());
                    assert(to@.subrange(0, to@.len() as int) =~= to@);
                    last_end = start + part.len();
                    assert(result@ + replace_from(s@, from@, to@, last_end as int) =~= before + (gap
                        + to@ + replace_from(s@, from@, to@, last_end as int)));
                },
                None => {
                    proof {
                        lemma_replace_tail(s@, from@, to@, last_end as int);
                    }
                    extend_bytes(&mut result, s, last_end, s.len());
                    return result;
                },
            }
        }
    }
}

/// Whether `pat` occurs in `s` at index `i`.
fn matches_at(s: &[u8], pat: &[u8], i: usize) -> (r: bool)
    requires
        i <= s@.len(),
    ensures
        r == occurs_at(s@, pat@, i as int),
{
    if pat.len() > s.len() - i {
        return false;
    }
    let mut k: usize = 0;
    while k < pat.len()
        invariant
            i + pat@.len() <= s@.len(),
            s@.len() == s.len(),
            k <= pat@.len(),
            forall|j: int| 0 <= j < k ==> s@[i + j] == pat@[j],
        decreases pat.len() - k,
    {
        if s[i + k] != pat[k] {
            assert(s@.subrange(i as int, i + pat@.len())[k as int] != pat@[k as int]);
            return false;
        }
        k += 1;
    }
    assert(s@.subrange(i as int, i + pat@.len()) =~= pat@);
    true
}

/// Appends `src[from..to]` to `out`.
pub fn extend_bytes(out: &mut Vec<u8>, src: &[u8], from: usize, to: usize)
    requires
        from <= to <= src@.len(),
    ensures
        final(out)@ == old(out)@ + src@.subrange(from as int, to as int),
{
    let mut k: usize = from;
    while k < to
        invariant
            from <= k <= to <= src@.len(),
            out@ == old(out)@ + src@.subrange(from as int, k as int),
        decreases to - k,
    {
        out.push(src[k]);
        k += 1;
        assert(out@ =~= old(out)@ + src@.subrange(from as int, k as int));
    }
}

/// The occurrences of a pattern in a byte string, found left to right
/// without overlap.
pub struct BytesMatchIndices<'a> {
    vec: &'a [u8],
    offset: usize,
    from: &'a [u8],
}

/// The matcher of `from` in `vec`, starting at the beginning.
pub fn match_indices<'a>(vec: &'a Vec<u8>, from: &'a [u8]) -> (r: BytesMatchIndices<'a>)
    ensures
        r.source() == vec@,
        r.pattern() == from@,
        r.offset() == 0,
{
    BytesMatchIndices { vec: vec.as_slice(), offset: 0, from }
}

impl<'a> BytesMatchIndices<'a> {
    pub closed spec fn source(&self) -> Seq<u8> {
        self.vec@
    }

    pub closed spec fn pattern(&self) -> Seq<u8> {
        self.from@
    }

    pub closed spec fn offset(&self) -> int {
        self.offset as int
    }

    /// The next occurrence: the first one at or after the end of the
    /// previous one, with the pattern itself.
    pub fn next_match(&mut self) -> (r: Option<(usize, &'a [u8])>)
        requires
            old(self).pattern().len() > 0,
            0 <= old(self).offset() <= old(self).source().len(),
        ensures
            final(self).source() == old(self).source(),
            final(self).pattern() == old(self).pattern(),
            r is None <==> !occurs_from(old(self).source(), old(self).pattern(), old(self).offset()),
            r is None ==> final(self).offset() == old(self).offset(),
            r matches Some((start, part)) ==> {
                &&& part@ == old(self).pattern()
                &&& is_first_from(old(self).source(), old(self).pattern(), old(self).offset(), start as int)
                &&& final(self).offset() == start + part@.len()
            },
    {
        if self.offset >= self.vec.len() {
            proof {
                assert forall|i: int| self.offset() <= i implies !#[trigger] occurs_at(
                    self.source(),
                    self.pattern(),
                    i,
                ) by {}
            }
            return None;
        }
        let mut start: usize = self.offset;
        while start < self.vec.len()
            invariant
                self.offset <= start <= self.vec@.len(),
                self.from@.len() > 0,
                *self == *old(self),
                forall|j: int| self.offset <= j < start ==> !#[trigger] occurs_at(
                    self.vec@,
                    self.from@,
                    j,
                ),
            decreases self.vec.len() - start,
        {
            if matches_at(self.vec, self.from, start) {
                self.offset = start + self.from.len();
                return Some((start, self.from));
            }
            start += 1;
        }
        proof {
            assert forall|i: int| self.offset() <= i implies !#[trigger] occurs_at(
                self.source(),
                self.pattern(),
                i,
            ) by {
                if i >= start {
                    assert(!(i + self.from@.len() <= self.vec@.len()));
                }
            }
        }
        None
    }
}

/// A replacement step: the text up to the first occurrence, the
/// replacement, then the rest replaced.
pub proof fn lemma_replace_step<T>(s: Seq<T>, pat: Seq<T>, to: Seq<T>, k: int, i: int)
    requires
        pat.len() > 0,
        0 <= k <= s.len(),
        is_first_from(s, pat, k, i),
    ensures
        replace_from(s, pat, to, k) == s.subrange(k, i) + to + replace_from(s, pat, to, i + pat.len()),
{
    assert(occurs_from(s, pat, k));
    let c = choose|c: int| #[trigger] is_first_from(s, pat, k, c);
    assert(c == i) by {
        if c < i {
            assert(!occurs_at(s, pat, c));
        } else if c > i {
            assert(!occurs_at(s, pat, i));
        }
    }
}

pub proof fn lemma_replace_tail<T>(s: Seq<T>, pat: Seq<T>, to: Seq<T>, k: int)
    requires
        0 <= k <= s.len(),
        !occurs_from(s, pat, k),
    ensures
        replace_from(s, pat, to, k) == s.subrange(k, s.len() as int),
{
}

/// Where a pattern occurs at or after `k`, a first such occurrence exists.
proof fn lemma_first_from_exists<T>(s: Seq<T>, pat: Seq<T>, k: int, i: int)
    requires
        k <= i,
        occurs_at(s, pat, i),
    ensures
        exists|c: int| #[trigger] is_first_from(s, pat, k, c),
    decreases i - k,
{
    if forall|j: int| k <= j < i ==> !#[trigger] occurs_at(s, pat, j) {
        assert(is_first_from(s, pat, k, i));
    } else {
        let j = choose|j: int| k <= j < i && #[trigger] occurs_at(s, pat, j);
        lemma_first_from_exists(s, pat, k, j);
    }
}

/// Replacing a pattern that does not occur leaves the bytes as they are.
pub proof fn lemma_replace_absent<T>(s: Seq<T>, pat: Seq<T>, to: Seq<T>)
    requires
        pat.len() > 0,
        !bytes_contain(s, pat),
    ensures
        replace_spec(s, pat, to) == s,
{
    assert(!occurs_from(s, pat, 0));
    assert(s.subrange(0, s.len() as int) =~= s);
}

/// Replacing a pattern by itself leaves the bytes as they are.
pub proof fn lemma_replace_by_itself<T>(s: Seq<T>, pat: Seq<T>)
    requires
        pat.len() > 0,
    ensures
        replace_spec(s, pat, pat) == s,
{
    lemma_replace_by_itself_from(s, pat, 0);
    assert(s.subrange(0, s.len() as int) =~= s);
}

proof fn lemma_replace_by_itself_from<T>(s: Seq<T>, pat: Seq<T>, k: int)
    requires
        pat.len() > 0,
        0 <= k <= s.len(),
    ensures
        replace_from(s, pat, pat, k) == s.subrange(k, s.len() as int),
    decreases s.len() - k,
{
    if occurs_from(s, pat, k) {
        let w = choose|w: int| k <= w && #[trigger] occurs_at(s, pat, w);
        lemma_first_from_exists(s, pat, k, w);
        let i = choose|i: int| #[trigger] is_first_from(s, pat, k, i);
        lemma_replace_step(s, pat, pat, k, i);
        lemma_replace_by_itself_from(s, pat, i + pat.len());
        assert(s.subrange(k, i) + pat + s.subrange(i + pat.len(), s.len() as int) =~= s.subrange(
            k,
            s.len() as int,
        ));
    }
}

} // verus!
