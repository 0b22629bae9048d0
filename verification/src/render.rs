//! The two layouts of a listing: names in columns, and one line of details
//! for each entry.

use vstd::prelude::*;
use crate::listing::{list, listed, ListOptions};
use crate::lookup::{group_name, local_time, user_name};
use crate::metadata::{entries, mode_chars, mode_text, Entry, FileInfo, FileMeta};
use crate::number::{decimal, decimal_text};
use crate::style::{emphasized, green, green_code};
use crate::text::{
    byte_count, byte_len, chars_of, left_justified, left_justify, lemma_byte_len, optional_text,
    push_all, right_justified, right_justify, rows, string_of, texts, to_rows,
};

verus! {

/// The length of the longest name among `s`, in bytes of UTF-8.
pub open spec fn longest_name(s: Seq<Entry>) -> nat
    decreases s.len(),
{
    if s.len() == 0 {
        0
    } else {
        let rest = longest_name(s.drop_last());
        if byte_len(s.last().name) > rest {
            byte_len(s.last().name)
        } else {
            rest
        }
    }
}

/// No name is longer than the longest, in bytes or in characters.
pub proof fn lemma_longest_name(s: Seq<Entry>, i: int)
    requires
        0 <= i < s.len(),
    ensures
        s[i].name.len() <= byte_len(s[i].name) <= longest_name(s),
    decreases s.len(),
{
    lemma_byte_len(s[i].name);
    if i < s.len() - 1 {
        lemma_longest_name(s.drop_last(), i);
    }
}

/// The width of a column, in characters: the length of the longest name in
/// bytes, and two. Names are padded to it character by character.
pub open spec fn column_width(s: Seq<Entry>) -> nat {
    longest_name(s) + 2
}

/// How many columns of `width` go on a line of 100 characters; one where not
/// even one fits.
pub open spec fn column_count(width: nat) -> nat {
    if width == 0 || width > 100 {
        1
    } else {
        100nat / width
    }
}

/// `cell` shows `plain` for `e`: emphasized for a directory, as it is for
/// every other entry.
pub open spec fn shown_name(e: Entry, plain: Seq<char>, cell: Seq<char>) -> bool {
    if e.meta.is_dir {
        emphasized(plain, green_code(), cell)
    } else {
        cell == plain
    }
}

/// The cells in rows of `columns`: each cell is followed by a blank, and a
/// new line begins before every cell whose index is a multiple of `columns`,
/// the first excepted.
pub open spec fn grid(cells: Seq<Seq<char>>, columns: nat) -> Seq<char>
    decreases cells.len(),
{
    if cells.len() == 0 {
        Seq::empty()
    } else {
        let k = cells.len() - 1;
        let turn = if k > 0 && k % (columns as int) == 0 {
            seq!['\n']
        } else {
            Seq::empty()
        };
        grid(cells.drop_last(), columns) + turn + cells.last() + seq![' ']
    }
}

/// The columnar output: the grid, closed by a new line.
pub open spec fn columnar(cells: Seq<Seq<char>>, columns: nat) -> Seq<char> {
    grid(cells, columns) + seq!['\n']
}

/// `out` is the columnar output for `shown`, made of `cells`: one cell for
/// each entry, its name left-justified in the column width.
pub open spec fn is_columnar(shown: Seq<Entry>, cells: Seq<Seq<char>>, out: Seq<char>) -> bool {
    &&& cells.len() == shown.len()
    &&& forall|i: int|
        0 <= i < shown.len() ==> shown_name(
            shown[i],
            left_justified(shown[i].name, column_width(shown)),
            #[trigger] cells[i],
        )
    &&& out == columnar(cells, column_count(column_width(shown)))
}

/// Lays cells out in rows of `columns` cells; with `columns` 0, of one cell.
pub fn lay_out(cells: &Vec<String>, columns: usize) -> (out: String)
    ensures
        out@ == columnar(
            texts(cells@),
            if columns == 0 {
                1
            } else {
                columns as nat
            },
        ),
{
    let per_row: usize = if columns == 0 {
        1
    } else {
        columns
    };
    let given = to_rows(cells);
    let mut out: Vec<char> = Vec::new();
    let mut i: usize = 0;
    assert(rows(given@).take(0) =~= Seq::<Seq<char>>::empty());
    while i < given.len()
        invariant
            i <= given.len(),
            per_row > 0,
            out@ == grid(rows(given@).take(i as int), per_row as nat),
        decreases given.len() - i,
    {
        proof {
            let next = rows(given@).take(i + 1);
            assert(next.drop_last() =~= rows(given@).take(i as int));
            assert(next.last() == given@[i as int]@);
        }
        let ghost before = out@;
        if i > 0 && i % per_row == 0 {
            out.push('\n');
        } else {
            assert(before + Seq::<char>::empty() =~= before);
        }
        push_all(&mut out, &given[i]);
        out.push(' ');
        i += 1;
    }
    assert(rows(given@).take(given.len() as int) == rows(given@));
    out.push('\n');
    string_of(&out)
}

/// The length of the longest name, in bytes.
pub fn longest(shown: &Vec<FileInfo>) -> (n: usize)
    ensures
        n == longest_name(entries(shown@)),
{
    let mut n: usize = 0;
    let mut i: usize = 0;
    assert(entries(shown@).take(0) =~= Seq::<Entry>::empty());
    while i < shown.len()
        invariant
            i <= shown.len(),
            n == longest_name(entries(shown@).take(i as int)),
        decreases shown.len() - i,
    {
        proof {
            let next = entries(shown@).take(i + 1);
            assert(next.drop_last() =~= entries(shown@).take(i as int));
            assert(next.last() == shown@[i as int]@);
        }
        let len: usize = byte_count(shown[i].name.as_str());
        if len > n {
            n = len;
        }
        i += 1;
    }
    assert(entries(shown@).take(shown.len() as int) == entries(shown@));
    n
}

/// Lays emphasis over the finished text of a directory's name.
fn decorate(entry: &FileInfo, plain: &Vec<char>) -> (cell: String)
    ensures
        shown_name(entry@, plain@, cell@),
{
    let text = string_of(plain);
    if entry.metadata.is_dir {
        green(text.as_str())
    } else {
        text
    }
}

/// The columnar layout of `shown`.
pub fn columns(shown: &Vec<FileInfo>) -> (out: String)
    ensures
        exists|cells: Seq<Seq<char>>| is_columnar(entries(shown@), cells, out@),
{
    let longest: usize = longest(shown);
    let per_row: usize = if longest > 98 {
        1
    } else {
        100 / (longest + 2)
    };
    let ghost width = column_width(entries(shown@));
    assert(per_row == column_count(width));
    assert(per_row >= 1) by (nonlinear_arith)
        requires
            per_row == (if longest > 98 {
                1int
            } else {
                100int / (longest + 2)
            }),
    ;
    let mut cells: Vec<String> = Vec::new();
    let mut i: usize = 0;
    while i < shown.len()
        invariant
            i <= shown.len(),
            cells.len() == i,
            longest == longest_name(entries(shown@)),
            width == longest + 2,
            width == column_width(entries(shown@)),
            per_row == column_count(width),
            per_row >= 1,
            forall|j: int|
                0 <= j < i ==> shown_name(
                    entries(shown@)[j],
                    left_justified(entries(shown@)[j].name, width),
                    #[trigger] texts(cells@)[j],
                ),
        decreases shown.len() - i,
    {
        let name = chars_of(shown[i].name.as_str());
        let mut plain = left_justify(&name, longest);
        plain.push(' ');
        plain.push(' ');
        proof {
            lemma_longest_name(entries(shown@), i as int);
            assert(plain@ =~= left_justified(name@, width));
        }
        let cell = decorate(&shown[i], &plain);
        let ghost before = texts(cells@);
        cells.push(cell);
        proof {
            assert(texts(cells@) =~= before.push(cell@));
            assert forall|j: int| 0 <= j < i + 1 implies shown_name(
                entries(shown@)[j],
                left_justified(entries(shown@)[j].name, width),
                #[trigger] texts(cells@)[j],
            ) by {
                if j < i {
                    assert(texts(cells@)[j] == before[j]);
                }
            }
        }
        i += 1;
    }
    let out = lay_out(&cells, per_row);
    assert(is_columnar(entries(shown@), texts(cells@), out@));
    out
}

/// The name of an owner or a group: the one found, else the numeric id.
pub open spec fn id_text(id: u32, found: Option<Seq<char>>) -> Seq<char> {
    match found {
        Some(name) => name,
        None => decimal(id as nat),
    }
}

/// The text of a modification time: the one found, else nothing.
pub open spec fn time_text(found: Option<Seq<char>>) -> Seq<char> {
    match found {
        Some(text) => text,
        None => Seq::empty(),
    }
}

/// A field of the long format: right-justified in ten characters and followed
/// by a blank.
pub open spec fn field(text: Seq<char>) -> Seq<char> {
    right_justified(text, 10) + seq![' ']
}

/// One line of the long format: mode string, link count, owner, group, size
/// and modification time, each in its field, then the name as it is shown.
pub open spec fn detailed(
    e: Entry,
    owner: Option<Seq<char>>,
    group: Option<Seq<char>>,
    time: Option<Seq<char>>,
    name: Seq<char>,
) -> Seq<char> {
    field(mode_text(e.meta)) + field(decimal(e.meta.nlink as nat)) + field(
        id_text(e.meta.uid, owner),
    ) + field(id_text(e.meta.gid, group)) + field(decimal(e.meta.size as nat)) + field(
        time_text(time),
    ) + name
}

/// `line` is a line of the long format for `e`, whatever the machine
/// answered for owner, group and local time.
pub open spec fn is_long_line(e: Entry, line: Seq<char>) -> bool {
    exists|
        owner: Option<Seq<char>>,
        group: Option<Seq<char>>,
        time: Option<Seq<char>>,
        name: Seq<char>,
    |
        shown_name(e, right_justified(e.name, 10), name) && line == #[trigger] detailed(
            e,
            owner,
            group,
            time,
            name,
        )
}

fn push_field(out: &mut Vec<char>, text: &Vec<char>)
    ensures
        final(out)@ == old(out)@ + field(text@),
{
    let cell = right_justify(text, 10);
    push_all(out, &cell);
    out.push(' ');
    assert(final(out)@ =~= old(out)@ + field(text@));
}

fn id_chars(id: u32, found: &Option<String>) -> (out: Vec<char>)
    ensures
        out@ == id_text(id, optional_text(*found)),
{
    match found {
        Some(name) => chars_of(name.as_str()),
        None => decimal_text(id as u64),
    }
}

/// Writes one line of the long format from the entry and from what was
/// found for its owner, its group and its modification time; `name` is the
/// name as it is to be shown.
pub fn long_row(
    entry: &FileInfo,
    owner: &Option<String>,
    group: &Option<String>,
    time: &Option<String>,
    name: &str,
) -> (out: String)
    ensures
        out@ == detailed(entry@, optional_text(*owner), optional_text(*group), optional_text(*time), name@),
{
    let mut out: Vec<char> = Vec::new();
    push_field(&mut out, &mode_chars(&entry.metadata));
    push_field(&mut out, &decimal_text(entry.metadata.nlink));
    push_field(&mut out, &id_chars(entry.metadata.uid, owner));
    push_field(&mut out, &id_chars(entry.metadata.gid, group));
    push_field(&mut out, &decimal_text(entry.metadata.size));
    let when: Vec<char> = match time {
        Some(text) => chars_of(text.as_str()),
        None => Vec::new(),
    };
    push_field(&mut out, &when);
    push_all(&mut out, &chars_of(name));
    assert(out@ =~= detailed(
        entry@,
        optional_text(*owner),
        optional_text(*group),
        optional_text(*time),
        name@,
    ));
    string_of(&out)
}

/// One line of the long format for `entry`: asks the machine for the names of
/// owner and group and for the local time, and writes the line.
pub fn describe(entry: &FileInfo) -> (out: String)
    ensures
        is_long_line(entry@, out@),
{
    let owner = user_name(entry.metadata.uid);
    let group = group_name(entry.metadata.gid);
    let time = local_time(entry.metadata.modified, "%b %e %H:%M");
    let plain = right_justify(&chars_of(entry.name.as_str()), 10);
    let name = decorate(entry, &plain);
    long_row(entry, &owner, &group, &time, name.as_str())
}

/// Each line followed by a new line.
pub open spec fn unlines(lines: Seq<Seq<char>>) -> Seq<char>
    decreases lines.len(),
{
    if lines.len() == 0 {
        Seq::empty()
    } else {
        unlines(lines.drop_last()) + lines.last() + seq!['\n']
    }
}

/// `out` is the long format for `shown`, made of `lines`: one line for each
/// entry, in order.
pub open spec fn is_detailed(shown: Seq<Entry>, lines: Seq<Seq<char>>, out: Seq<char>) -> bool {
    &&& lines.len() == shown.len()
    &&& forall|i: int| 0 <= i < shown.len() ==> is_long_line(shown[i], #[trigger] lines[i])
    &&& out == unlines(lines)
}

/// The long format of `shown`.
pub fn details(shown: &Vec<FileInfo>) -> (out: String)
    ensures
        exists|lines: Seq<Seq<char>>| is_detailed(entries(shown@), lines, out@),
{
    let mut out: Vec<char> = Vec::new();
    let ghost mut lines: Seq<Seq<char>> = Seq::empty();
    let mut i: usize = 0;
    while i < shown.len()
        invariant
            i <= shown.len(),
            lines.len() == i,
            forall|j: int| 0 <= j < i ==> is_long_line(entries(shown@)[j], #[trigger] lines[j]),
            out@ == unlines(lines),
        decreases shown.len() - i,
    {
        let line = describe(&shown[i]);
        let ghost before = lines;
        proof {
            lines = lines.push(line@);
            assert(lines.drop_last() =~= before);
            assert forall|j: int| 0 <= j < i + 1 implies is_long_line(
                entries(shown@)[j],
                #[trigger] lines[j],
            ) by {
                if j < i {
                    assert(lines[j] == before[j]);
                }
            }
        }
        push_all(&mut out, &chars_of(line.as_str()));
        out.push('\n');
        i += 1;
    }
    let text = string_of(&out);
    assert(is_detailed(entries(shown@), lines, text@));
    text
}

/// What `ls` prints for `shown`, in the layout asked for.
pub open spec fn is_listing(long_format: bool, shown: Seq<Entry>, out: Seq<char>) -> bool {
    if long_format {
        exists|lines: Seq<Seq<char>>| is_detailed(shown, lines, out)
    } else {
        exists|cells: Seq<Seq<char>>| is_columnar(shown, cells, out)
    }
}

/// Lists a directory: chooses and orders the entries, and lays them out in
/// columns or, with `-l`, in lines of details. `children` are the entries of
/// the directory in any order; `pseudo` is the metadata of the directory and
/// of its parent, which `-a` needs.
pub fn ls(
    options: &ListOptions,
    children: &Vec<FileInfo>,
    pseudo: &Option<(FileMeta, FileMeta)>,
) -> (out: String)
    requires
        options.show_hidden ==> pseudo is Some,
    ensures
        is_listing(options.long_format, listed(*options, entries(children@), *pseudo), out@),
{
    let shown = list(options, children, pseudo);
    if options.long_format {
        details(&shown)
    } else {
        columns(&shown)
    }
}

} // verus!
