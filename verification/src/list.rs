//! Text tables for the serial-port listing.
use vstd::prelude::*;
use vstd::utf8::encode_utf8;
use crate::text::{chars_of, push_str, to_owned_string};

verus! {

/// How a column's cells are padded.
#[derive(Clone, Copy, Debug, PartialEq, Eq, Structural)]
pub enum Alignment {
    Left,
    Right,
}

/// The width of a text in bytes of UTF-8, as `str::len` counts it.
pub open spec fn byte_len(s: Seq<char>) -> nat {
    encode_utf8(s).len()
}

/// `n` spaces.
pub open spec fn spaces(n: int) -> Seq<char> {
    Seq::new(if n > 0 { n as nat } else { 0 }, |i: int| ' ')
}

/// `s` right-aligned in `width` characters, as `{:>width$}` formats it.
pub open spec fn pad_left(s: Seq<char>, width: int) -> Seq<char> {
    spaces(width - s.len()) + s
}

/// The larger of the title's width and the widths of the fields, in bytes.
pub open spec fn max_width(title: Seq<char>, fields: Seq<Seq<char>>) -> nat
    decreases fields.len(),
{
    if fields.len() == 0 {
        byte_len(title)
    } else {
        let rest = max_width(title, fields.drop_last());
        if byte_len(fields.last()) > rest {
            byte_len(fields.last())
        } else {
            rest
        }
    }
}

/// A column of a table: a title and its cells.
pub struct Column {
    title: String,
    fields: Vec<String>,
    alignment: Alignment,
}

pub open spec fn string_views(v: Seq<String>) -> Seq<Seq<char>> {
    v.map_values(|s: String| s@)
}

impl Column {
    pub closed spec fn title_text(&self) -> Seq<char> {
        self.title@
    }

    pub closed spec fn cells(&self) -> Seq<Seq<char>> {
        string_views(self.fields@)
    }

    pub closed spec fn align(&self) -> Alignment {
        self.alignment
    }

    /// An empty, right-aligned column.
    pub fn new(title: String) -> (r: Self)
        ensures
            r.title_text() == title@,
            r.cells() == Seq::<Seq<char>>::empty(),
            r.align() == Alignment::Right,
    {
        let r = Column { title, fields: Vec::new(), alignment: Alignment::Right };
        assert(r.cells() =~= Seq::<Seq<char>>::empty());
        r
    }

    pub fn set_alignment(&mut self, alignment: Alignment)
        ensures
            final(self).align() == alignment,
            final(self).title_text() == old(self).title_text(),
            final(self).cells() == old(self).cells(),
    {
        self.alignment = alignment;
    }

    /// Adds a cell at the bottom.
    pub fn add_field(&mut self, field: String)
        ensures
            final(self).cells() == old(self).cells().push(field@),
            final(self).title_text() == old(self).title_text(),
            final(self).align() == old(self).align(),
    {
        self.fields.push(field);
        assert(self.cells() =~= old(self).cells().push(field@));
    }

    /// The lengths of the title and the cells fit in a `usize`, as the
    /// lengths of strings in memory do.
    pub open spec fn fits(&self) -> bool {
        &&& byte_len(self.title_text()) <= usize::MAX
        &&& forall|i: int| 0 <= i < self.cells().len() ==> byte_len(#[trigger] self.cells()[i]) <= usize::MAX
    }

    /// The width of the widest of the title and the cells, in bytes.
    pub fn max_size(&self) -> (r: usize)
        requires
            self.fits(),
        ensures
            r == max_width(self.title_text(), self.cells()),
    {
        let mut widest = self.title.as_str().len();
        let mut i: usize = 0;
        assert(self.cells().take(0) =~= Seq::<Seq<char>>::empty());
        while i < self.fields.len()
            invariant
                i <= self.fields@.len(),
                self.fits(),
                widest == max_width(self.title_text(), self.cells().take(i as int)),
            decreases self.fields.len() - i,
        {
            assert(self.cells().take(i + 1).drop_last() =~= self.cells().take(i as int));
            assert(self.cells()[i as int] == self.fields@[i as int]@);
            let w = self.fields[i].as_str().len();
            if w > widest {
                widest = w;
            }
            i += 1;
        }
        assert(self.cells().take(self.fields@.len() as int) =~= self.cells());
        widest
    }

    /// The title, right-aligned to the column's width unless the column is
    /// left-aligned.
    pub fn title(&self) -> (r: String)
        requires
            self.fits(),
        ensures
            r@ == match self.align() {
                Alignment::Left => self.title_text(),
                Alignment::Right => pad_left(
                    self.title_text(),
                    max_width(self.title_text(), self.cells()) as int,
                ),
            },
    {
        match self.alignment {
            Alignment::Left => self.title.clone(),
            Alignment::Right => padded(self.title.as_str(), self.max_size()),
        }
    }

    /// The cell at `index`, aligned like the title.
    pub fn get_field(&self, index: usize) -> (r: Option<String>)
        requires
            self.fits(),
        ensures
            index >= self.cells().len() ==> r is None,
            index < self.cells().len() ==> (r matches Some(f) && f@ == match self.align() {
                Alignment::Left => self.cells()[index as int],
                Alignment::Right => pad_left(
                    self.cells()[index as int],
                    max_width(self.title_text(), self.cells()) as int,
                ),
            }),
    {
        if index >= self.fields.len() {
            return None;
        }
        match self.alignment {
            Alignment::Left => Some(self.fields[index].clone()),
            Alignment::Right => Some(padded(self.fields[index].as_str(), self.max_size())),
        }
    }
}

/// `s` right-aligned in `width` characters.
fn padded(s: &str, width: usize) -> (r: String)
    ensures
        r@ == pad_left(s@, width as int),
{
    let cs = chars_of(s);
    let mut out = String::new();
    let mut k: usize = cs.len();
    while k < width
        invariant
            cs@ == s@,
            cs@.len() <= k,
            k <= width || k == cs@.len(),
            out@ == spaces(k - cs@.len()),
        decreases width - k,
    {
        crate::text::push_char(&mut out, ' ');
        k += 1;
        assert(out@ =~= spaces(k - cs@.len()));
    }
    assert(spaces(k - cs@.len()) =~= spaces(width - cs@.len()));
    push_str(&mut out, s);
    assert(out@ =~= pad_left(s@, width as int));
    out
}

/// Every cell is no wider than the column.
proof fn lemma_cell_within_width(title: Seq<char>, cells: Seq<Seq<char>>, i: int)
    requires
        0 <= i < cells.len(),
    ensures
        byte_len(cells[i]) <= max_width(title, cells),
    decreases cells.len(),
{
    if i < cells.len() - 1 {
        lemma_cell_within_width(title, cells.drop_last(), i);
    }
}

/// In a column whose title and cells are ASCII, a cell aligned to the right
/// (as `get_field` gives it for a right-aligned column) is exactly as wide
/// as the column (`max_size`): spaces, then the cell.
pub proof fn lemma_right_aligned_width(title: Seq<char>, cells: Seq<Seq<char>>, i: int)
    requires
        vstd::utf8::is_ascii_chars(title),
        forall|k: int| 0 <= k < cells.len() ==> vstd::utf8::is_ascii_chars(#[trigger] cells[k]),
        0 <= i < cells.len(),
    ensures
        pad_left(cells[i], max_width(title, cells) as int).len() == max_width(title, cells),
        pad_left(cells[i], max_width(title, cells) as int) == spaces(max_width(title, cells) - cells[i].len())
            + cells[i],
{
    lemma_cell_within_width(title, cells, i);
    vstd::utf8::is_ascii_chars_encode_utf8(cells[i]);
}

/// A table: columns of equal height, the last one left-aligned.
pub struct Table {
    columns: Vec<Column>,
}

impl Table {
    pub closed spec fn column_list(&self) -> Seq<Column> {
        self.columns@
    }

    /// There is a column and all columns have the same number of cells.
    pub open spec fn wf(&self) -> bool {
        &&& self.column_list().len() > 0
        &&& forall|i: int|
            0 <= i < self.column_list().len() ==> #[trigger] self.column_list()[i].cells().len()
                == self.column_list()[0].cells().len()
    }

    /// An empty table with the given column titles: the last column is
    /// left-aligned, the others right-aligned.
    pub fn new(titles: Vec<String>) -> (r: Self)
        requires
            titles@.len() > 0,
        ensures
            r.wf(),
            r.column_list().len() == titles@.len(),
            forall|i: int|
                0 <= i < titles@.len() ==> {
                    &&& (#[trigger] r.column_list()[i]).title_text() == titles@[i]@
                    &&& r.column_list()[i].cells().len() == 0
                    &&& r.column_list()[i].align() == if i == titles@.len() - 1 {
                        Alignment::Left
                    } else {
                        Alignment::Right
                    }
                },
    {
        let n = titles.len();
        let mut columns: Vec<Column> = Vec::new();
        let mut rest = titles;
        while rest.len() > 0
            invariant
                columns@.len() + rest@.len() == n,
                n == titles@.len(),
                rest@ == titles@.skip(columns@.len() as int),
                forall|i: int|
                    0 <= i < columns@.len() ==> {
                        &&& (#[trigger] columns@[i]).title_text() == titles@[i]@
                        &&& columns@[i].cells().len() == 0
                        &&& columns@[i].align() == Alignment::Right
                    },
            decreases rest.len(),
        {
            let ghost k = columns@.len();
            let t = rest.remove(0);
            assert(t == titles@[k as int]);
            assert(rest@ =~= titles@.skip(k + 1 as int));
            columns.push(Column::new(t));
        }
        let last = n - 1;
        let mut c = columns.remove(last);
        c.set_alignment(Alignment::Left);
        columns.push(c);
        let r = Table { columns };
        assert(r.wf());
        r
    }

    /// Adds a row: one cell to each column, in order.
    pub fn add_row(&mut self, fields: Vec<String>)
        requires
            old(self).wf(),
            fields@.len() == old(self).column_list().len(),
        ensures
            final(self).wf(),
            final(self).column_list().len() == old(self).column_list().len(),
            forall|i: int|
                0 <= i < old(self).column_list().len() ==> {
                    &&& (#[trigger] final(self).column_list()[i]).cells() == old(
                        self,
                    ).column_list()[i].cells().push(fields@[i]@)
                    &&& final(self).column_list()[i].title_text() == old(self).column_list()[i].title_text()
                    &&& final(self).column_list()[i].align() == old(self).column_list()[i].align()
                },
    {
        let n = self.columns.len();
        let ghost before = self.columns@;
        let mut cells = fields;
        let mut i: usize = 0;
        while i < n
            invariant
                i <= n,
                n == before.len(),
                n == self.columns@.len(),
                n == fields@.len(),
                cells@ == fields@.skip(i as int),
                forall|k: int| i <= k < n ==> #[trigger] self.columns@[k] == before[k],
                forall|k: int|
                    0 <= k < i ==> {
                        &&& (#[trigger] self.columns@[k]).cells() == before[k].cells().push(fields@[k]@)
                        &&& self.columns@[k].title_text() == before[k].title_text()
                        &&& self.columns@[k].align() == before[k].align()
                    },
            decreases n - i,
        {
            let field = cells.remove(0);
            assert(field == fields@[i as int]);
            assert(cells@ =~= fields@.skip(i + 1));
            let mut column = self.columns.remove(i);
            column.add_field(field);
            self.columns.insert(i, column);
            i += 1;
        }
        proof {
            assert forall|k: int| 0 <= k < self.column_list().len() implies #[trigger] self.column_list()[k].cells().len()
                == self.column_list()[0].cells().len() by {
                assert(before[k].cells().len() == before[0].cells().len());
            }
        }
    }

    /// The number of rows.
    pub fn number_of_rows(&self) -> (r: usize)
        requires
            self.wf(),
        ensures
            r == self.column_list()[0].cells().len(),
    {
        self.columns[0].fields.len()
    }
}

/// The parts, separated by `sep`.
pub open spec fn joined_with(parts: Seq<Seq<char>>, sep: Seq<char>) -> Seq<char>
    decreases parts.len(),
{
    if parts.len() == 0 {
        Seq::empty()
    } else if parts.len() == 1 {
        parts[0]
    } else {
        joined_with(parts.drop_last(), sep) + sep + parts.last()
    }
}

/// A column's title as the table shows it.
pub open spec fn shown_title(c: Column) -> Seq<char> {
    match c.align() {
        Alignment::Left => c.title_text(),
        Alignment::Right => pad_left(c.title_text(), max_width(c.title_text(), c.cells()) as int),
    }
}

/// A column's cell as the table shows it.
pub open spec fn shown_field(c: Column, row: int) -> Seq<char> {
    match c.align() {
        Alignment::Left => c.cells()[row],
        Alignment::Right => pad_left(c.cells()[row], max_width(c.title_text(), c.cells()) as int),
    }
}

/// The lines of the rows before `rows`, each its cells joined by ` | `
/// and ended by `\r\n`.
pub open spec fn rows_text(columns: Seq<Column>, rows: int) -> Seq<char>
    decreases rows,
{
    if rows <= 0 {
        Seq::empty()
    } else {
        rows_text(columns, rows - 1) + joined_with(
            columns.map_values(|c: Column| shown_field(c, rows - 1)),
            " | "@,
        ) + "\r\n"@
    }
}

/// The table as text: the titles in bold black, then one line per row.
pub open spec fn table_text(columns: Seq<Column>) -> Seq<char> {
    "\x1b[1;30m"@ + joined_with(columns.map_values(|c: Column| shown_title(c)), " | "@)
        + "\x1b[0m\r\n"@ + rows_text(columns, columns[0].cells().len() as int)
}

impl Table {
    /// Every column's lengths fit in a `usize`.
    pub open spec fn fits(&self) -> bool {
        forall|i: int| 0 <= i < self.column_list().len() ==> (#[trigger] self.column_list()[i]).fits()
    }

    /// The table as text (see `table_text`).
    pub fn render(&self) -> (r: String)
        requires
            self.wf(),
            self.fits(),
        ensures
            r@ == table_text(self.column_list()),
    {
        let cols = &self.columns;
        let n = cols.len();
        let mut out = to_owned_string("\x1b[1;30m");
        let mut i: usize = 0;
        let ghost titles = cols@.map_values(|c: Column| shown_title(c));
        let ghost head = out@;
        while i < n
            invariant
                i <= n,
                n == cols@.len(),
                cols@ == self.column_list(),
                self.wf(),
                self.fits(),
                titles == cols@.map_values(|c: Column| shown_title(c)),
                out@ == head + joined_with(titles.take(i as int), " | "@),
            decreases n - i,
        {
            assert(titles.take(i + 1).drop_last() =~= titles.take(i as int));
            if i > 0 {
                push_str(&mut out, " | ");
            }
            assert(cols@[i as int].fits());
            let t = cols[i].title();
            push_str(&mut out, t.as_str());
            proof {
                if i == 0 {
                    assert(titles.take(1) =~= seq![titles[0]]);
                }
            }
            i += 1;
        }
        assert(titles.take(n as int) =~= titles);
        push_str(&mut out, "\x1b[0m\r\n");
        let rows = self.number_of_rows();
        let ghost top = out@;
        let mut row: usize = 0;
        while row < rows
            invariant
                row <= rows,
                rows == cols@[0].cells().len(),
                n == cols@.len(),
                cols@ == self.column_list(),
                self.wf(),
                self.fits(),
                out@ == top + rows_text(cols@, row as int),
            decreases rows - row,
        {
            let ghost fields = cols@.map_values(|c: Column| shown_field(c, row as int));
            let ghost before = out@;
            let mut j: usize = 0;
            while j < n
                invariant
                    j <= n,
                    n == cols@.len(),
                    row < rows,
                    rows == cols@[0].cells().len(),
                    cols@ == self.column_list(),
                    self.wf(),
                    self.fits(),
                    fields == cols@.map_values(|c: Column| shown_field(c, row as int)),
                    out@ == before + joined_with(fields.take(j as int), " | "@),
                decreases n - j,
            {
                assert(fields.take(j + 1).drop_last() =~= fields.take(j as int));
                if j > 0 {
                    push_str(&mut out, " | ");
                }
                assert(cols@[j as int].fits());
                assert(cols@[j as int].cells().len() == cols@[0].cells().len());
                let f = cols[j].get_field(row).unwrap();
                push_str(&mut out, f.as_str());
                proof {
                    if j == 0 {
                        assert(fields.take(1) =~= seq![fields[0]]);
                    }
                }
                j += 1;
            }
            assert(fields.take(n as int) =~= fields);
            push_str(&mut out, "\r\n");
            row += 1;
        }
        out
    }
}

/// A serial number shortened to `max_width` bytes when longer: `...`
/// followed by its last `max_width - 3` bytes.
pub fn squash_serial_number(serial_number: String, max_width: usize) -> (r: String)
    requires
        max_width >= 3,
        encode_utf8(serial_number@).len() <= usize::MAX,
        encode_utf8(serial_number@).len() > max_width - 3 ==> vstd::utf8::is_char_boundary(
            encode_utf8(serial_number@),
            encode_utf8(serial_number@).len() - (max_width - 3),
        ),
    ensures
        encode_utf8(serial_number@).len() <= max_width - 3 ==> r@ == serial_number@,
        encode_utf8(serial_number@).len() > max_width - 3 ==> encode_utf8(r@) == encode_utf8(
            "..."@,
        ) + encode_utf8(serial_number@).subrange(
            encode_utf8(serial_number@).len() - (max_width - 3),
            encode_utf8(serial_number@).len() as int,
        ),
{
    let len = serial_number.as_str().len();
    if len > max_width - 3 {
        let (_, tail) = serial_number.as_str().split_at(len - (max_width - 3));
        let mut r = to_owned_string("...");
        push_str(&mut r, tail);
        proof {
            vstd::utf8::encode_utf8_decode_utf8(serial_number@);
            lemma_encode_concat("..."@, tail@);
        }
        r
    } else {
        serial_number
    }
}

proof fn lemma_encode_concat(a: Seq<char>, b: Seq<char>)
    ensures
        encode_utf8(a + b) == encode_utf8(a) + encode_utf8(b),
    decreases a.len(),
{
    if a.len() == 0 {
        assert(a + b =~= b);
        assert(encode_utf8(a) =~= Seq::<u8>::empty());
    } else {
        assert((a + b).drop_first() =~= a.drop_first() + b);
        lemma_encode_concat(a.drop_first(), b);
    }
}

} // verus!
