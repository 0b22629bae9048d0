//! The directory lister: which entries are shown, and in what order.

use vstd::prelude::*;
use crate::metadata::{entries, Entry, FileInfo, FileMeta};
use crate::text::{chars_of, rows, same_text, texts, to_rows};

verus! {

/// What `ls` was asked for.
#[derive(Clone, Copy, Debug, PartialEq, Eq)]
pub struct ListOptions {
    /// `-a`: show names that begin with a dot, and the two pseudo-entries.
    pub show_hidden: bool,
    /// `-r`: show the entries in the opposite order.
    pub reverse: bool,
    /// `-l`: one line of details for each entry.
    pub long_format: bool,
}

/// Reads the flags `-a`, `-r` and `-l`, in any order and number. Every other
/// argument is passed over.
pub fn parse_flags(args: &Vec<String>) -> (options: ListOptions)
    ensures
        options.show_hidden == texts(args@).contains("-a"@),
        options.reverse == texts(args@).contains("-r"@),
        options.long_format == texts(args@).contains("-l"@),
{
    let all = chars_of("-a");
    let rev = chars_of("-r");
    let long = chars_of("-l");
    let given = to_rows(args);
    let mut options = ListOptions { show_hidden: false, reverse: false, long_format: false };
    let mut i: usize = 0;
    while i < given.len()
        invariant
            i <= given.len(),
            all@ == "-a"@,
            rev@ == "-r"@,
            long@ == "-l"@,
            options.show_hidden == rows(given@).take(i as int).contains("-a"@),
            options.reverse == rows(given@).take(i as int).contains("-r"@),
            options.long_format == rows(given@).take(i as int).contains("-l"@),
        decreases given.len() - i,
    {
        let ghost before = rows(given@).take(i as int);
        let ghost after = rows(given@).take(i + 1);
        proof {
            assert(after =~= before.push(given@[i as int]@));
            assert forall|t: Seq<char>| after.contains(t) <==> (before.contains(t) || t
                == given@[i as int]@) by {
                if before.contains(t) {
                    let k = choose|k: int| 0 <= k < before.len() && before[k] == t;
                    assert(after[k] == t);
                }
                if t == given@[i as int]@ {
                    assert(after[i as int] == t);
                }
            }
        }
        if same_text(&given[i], &all) {
            options.show_hidden = true;
        }
        if same_text(&given[i], &rev) {
            options.reverse = true;
        }
        if same_text(&given[i], &long) {
            options.long_format = true;
        }
        i += 1;
    }
    assert(rows(given@).take(given.len() as int) == rows(given@));
    options
}

/// A name that begins with a dot.
pub open spec fn is_hidden(name: Seq<char>) -> bool {
    name.len() > 0 && name[0] == '.'
}

/// The rule by which an entry is shown: every entry with `show_hidden`, else
/// those whose name does not begin with a dot.
pub open spec fn shown(show_hidden: bool) -> spec_fn(Entry) -> bool {
    |e: Entry| show_hidden || !is_hidden(e.name)
}

/// The entries of `all` that are shown, in their order.
pub open spec fn visible(all: Seq<Entry>, show_hidden: bool) -> Seq<Entry> {
    all.filter(shown(show_hidden))
}

/// Whether `name` begins with a dot.
pub fn hidden_name(name: &str) -> (r: bool)
    ensures
        r == is_hidden(name@),
{
    let c = chars_of(name);
    c.len() > 0 && c[0] == '.'
}

/// Keeps the entries that are shown.
pub fn select_visible(children: &Vec<FileInfo>, show_hidden: bool) -> (out: Vec<FileInfo>)
    ensures
        entries(out@) == visible(entries(children@), show_hidden),
{
    let mut out: Vec<FileInfo> = Vec::new();
    let mut i: usize = 0;
    assert(entries(children@).take(0).filter(shown(show_hidden)) =~= Seq::<Entry>::empty()) by {
        entries(children@).take(0).lemma_filter_len(shown(show_hidden));
    }
    while i < children.len()
        invariant
            i <= children.len(),
            entries(out@) == visible(entries(children@).take(i as int), show_hidden),
        decreases children.len() - i,
    {
        let ghost before = entries(children@).take(i as int);
        proof {
            assert(entries(children@).take(i + 1) =~= before.push(children@[i as int]@));
            before.lemma_filter_push(children@[i as int]@, shown(show_hidden));
        }
        if show_hidden || !hidden_name(children[i].name.as_str()) {
            let item = children[i].duplicate();
            assert(entries(out@.push(item)) =~= entries(out@).push(item@));
            out.push(item);
        }
        i += 1;
    }
    assert(entries(children@).take(children.len() as int) == entries(children@));
    out
}

/// The order of names: character by character, by code point; a name comes
/// before every longer name that it begins.
pub open spec fn name_le(a: Seq<char>, b: Seq<char>) -> bool
    decreases a.len(),
{
    if a.len() == 0 {
        true
    } else if b.len() == 0 {
        false
    } else if (a[0] as u32) != (b[0] as u32) {
        (a[0] as u32) < (b[0] as u32)
    } else {
        name_le(a.drop_first(), b.drop_first())
    }
}

/// Of two names, one comes no later than the other.
pub proof fn lemma_name_le_total(a: Seq<char>, b: Seq<char>)
    ensures
        name_le(a, b) || name_le(b, a),
    decreases a.len(),
{
    if a.len() > 0 && b.len() > 0 && (a[0] as u32) == (b[0] as u32) {
        lemma_name_le_total(a.drop_first(), b.drop_first());
    }
}

/// The order of names is transitive.
pub proof fn lemma_name_le_transitive(a: Seq<char>, b: Seq<char>, c: Seq<char>)
    requires
        name_le(a, b),
        name_le(b, c),
    ensures
        name_le(a, c),
    decreases a.len(),
{
    if a.len() > 0 && b.len() > 0 && c.len() > 0 && (a[0] as u32) == (b[0] as u32) && (b[0] as u32)
        == (c[0] as u32) {
        lemma_name_le_transitive(a.drop_first(), b.drop_first(), c.drop_first());
    }
}

/// Whether `a` comes no later than `b` in the order of names.
pub fn name_not_after(a: &str, b: &str) -> (r: bool)
    ensures
        r == name_le(a@, b@),
{
    let x = chars_of(a);
    let y = chars_of(b);
    let mut i: usize = 0;
    assert(x@.skip(0) =~= x@ && y@.skip(0) =~= y@);
    while i < x.len() && i < y.len()
        invariant
            i <= x.len(),
            i <= y.len(),
            x@ == a@,
            y@ == b@,
            name_le(x@, y@) == name_le(x@.skip(i as int), y@.skip(i as int)),
        decreases x.len() - i,
    {
        let ghost p = x@.skip(i as int);
        let ghost q = y@.skip(i as int);
        assert(p[0] == x@[i as int] && q[0] == y@[i as int]);
        let m: u32 = x[i] as u32;
        let n: u32 = y[i] as u32;
        if m != n {
            return m < n;
        }
        assert(p.drop_first() =~= x@.skip(i + 1));
        assert(q.drop_first() =~= y@.skip(i + 1));
        i += 1;
    }
    i >= x.len()
}

/// `s` with `x` put behind the last entry that does not come after it.
pub open spec fn inserted(s: Seq<Entry>, x: Entry) -> Seq<Entry>
    decreases s.len(),
{
    if s.len() > 0 && !name_le(s.last().name, x.name) {
        inserted(s.drop_last(), x).push(s.last())
    } else {
        s.push(x)
    }
}

/// The entries of `s` in ascending order of name; entries of one name keep
/// the order they came in.
pub open spec fn sorted_by_name(s: Seq<Entry>) -> Seq<Entry>
    decreases s.len(),
{
    if s.len() == 0 {
        s
    } else {
        inserted(sorted_by_name(s.drop_last()), s.last())
    }
}

/// No entry of `s` comes after a later one.
pub open spec fn ascending(s: Seq<Entry>) -> bool {
    forall|i: int, j: int| 0 <= i < j < s.len() ==> name_le(#[trigger] s[i].name, #[trigger] s[j].name)
}

/// Where `x` goes: behind the entries that do not come after it.
pub proof fn lemma_inserted_at(s: Seq<Entry>, x: Entry, p: int)
    requires
        0 <= p <= s.len(),
        forall|j: int| p <= j < s.len() ==> !name_le(#[trigger] s[j].name, x.name),
        p == 0 || name_le(s[p - 1].name, x.name),
    ensures
        inserted(s, x) == s.insert(p, x),
    decreases s.len() - p,
{
    if p == s.len() {
        assert(s.push(x) =~= s.insert(p, x));
    } else {
        let t = s.drop_last();
        assert(!name_le(s[s.len() - 1].name, x.name));
        assert forall|j: int| p <= j < t.len() implies !name_le(#[trigger] t[j].name, x.name) by {
            assert(t[j] == s[j]);
        }
        lemma_inserted_at(t, x, p);
        assert(t.insert(p, x).push(s.last()) =~= s.insert(p, x));
    }
}

/// Inserting keeps an ascending sequence ascending, and adds just `x`.
pub proof fn lemma_inserted(s: Seq<Entry>, x: Entry)
    requires
        ascending(s),
    ensures
        ascending(inserted(s, x)),
        inserted(s, x).to_multiset() == s.to_multiset().insert(x),
        inserted(s, x).len() == s.len() + 1,
    decreases s.len(),
{
    broadcast use vstd::seq_lib::group_to_multiset_ensures;

    if s.len() > 0 && !name_le(s.last().name, x.name) {
        let t = s.drop_last();
        assert(ascending(t)) by {
            assert forall|i: int, j: int| 0 <= i < j < t.len() implies name_le(
                #[trigger] t[i].name,
                #[trigger] t[j].name,
            ) by {
                assert(t[i] == s[i] && t[j] == s[j]);
            }
        }
        lemma_inserted(t, x);
        let u = inserted(t, x);
        let r = u.push(s.last());
        assert(s =~= t.push(s.last()));
        assert(r.to_multiset() =~= s.to_multiset().insert(x));
        assert forall|i: int, j: int| 0 <= i < j < r.len() implies name_le(
            #[trigger] r[i].name,
            #[trigger] r[j].name,
        ) by {
            if j < u.len() {
                assert(r[i] == u[i] && r[j] == u[j]);
            } else {
                assert(r[j] == s.last());
                assert(r[i] == u[i]);
                assert(u.to_multiset().count(u[i]) > 0);
                if u[i] == x {
                    lemma_name_le_total(s.last().name, x.name);
                } else {
                    assert(t.to_multiset().count(u[i]) > 0);
                    assert(t.contains(u[i]));
                    let k = choose|k: int| 0 <= k < t.len() && t[k] == u[i];
                    assert(s[k] == u[i]);
                    assert(name_le(s[k].name, s[s.len() - 1].name));
                }
            }
        }
    } else {
        let r = s.push(x);
        assert forall|i: int, j: int| 0 <= i < j < r.len() implies name_le(
            #[trigger] r[i].name,
            #[trigger] r[j].name,
        ) by {
            if j < s.len() {
                assert(r[i] == s[i] && r[j] == s[j]);
            } else {
                assert(r[i] == s[i] && r[j] == x);
                if i < s.len() - 1 {
                    assert(name_le(s[i].name, s[s.len() - 1].name));
                    lemma_name_le_transitive(s[i].name, s.last().name, x.name);
                }
            }
        }
    }
}

/// Sorting yields an ascending arrangement of the same entries.
pub proof fn lemma_sorted_by_name(s: Seq<Entry>)
    ensures
        ascending(sorted_by_name(s)),
        sorted_by_name(s).to_multiset() == s.to_multiset(),
        sorted_by_name(s).len() == s.len(),
    decreases s.len(),
{
    broadcast use vstd::seq_lib::group_to_multiset_ensures;

    if s.len() > 0 {
        lemma_sorted_by_name(s.drop_last());
        lemma_inserted(sorted_by_name(s.drop_last()), s.last());
        assert(s =~= s.drop_last().push(s.last()));
    }
}

/// Sorts entries by name, ascending; entries of one name keep their order.
pub fn sort_by_name(input: &Vec<FileInfo>) -> (out: Vec<FileInfo>)
    ensures
        entries(out@) == sorted_by_name(entries(input@)),
        ascending(entries(out@)),
        entries(out@).to_multiset() == entries(input@).to_multiset(),
{
    let mut out: Vec<FileInfo> = Vec::new();
    let mut i: usize = 0;
    assert(entries(input@).take(0) =~= Seq::<Entry>::empty());
    assert(entries(out@) =~= Seq::<Entry>::empty());
    while i < input.len()
        invariant
            i <= input.len(),
            entries(out@) == sorted_by_name(entries(input@).take(i as int)),
        decreases input.len() - i,
    {
        let item = input[i].duplicate();
        let mut p: usize = out.len();
        while p > 0 && !name_not_after(out[p - 1].name.as_str(), item.name.as_str())
            invariant
                p <= out.len(),
                forall|j: int|
                    p <= j < out.len() ==> !name_le(
                        #[trigger] entries(out@)[j].name,
                        item@.name,
                    ),
            decreases p,
        {
            p -= 1;
        }
        proof {
            let next = entries(input@).take(i + 1);
            assert(next.drop_last() =~= entries(input@).take(i as int));
            assert(next.last() == item@);
            lemma_inserted_at(entries(out@), item@, p as int);
            assert(entries(out@.insert(p as int, item)) =~= entries(out@).insert(p as int, item@));
        }
        out.insert(p, item);
        i += 1;
    }
    proof {
        assert(entries(input@).take(input.len() as int) == entries(input@));
        lemma_sorted_by_name(entries(input@));
    }
    out
}

/// The two pseudo-entries: the directory itself, then its parent.
pub open spec fn pseudo_entries(here: FileMeta, parent: FileMeta) -> Seq<Entry> {
    seq![Entry { name: "."@, meta: here }, Entry { name: ".."@, meta: parent }]
}

/// The entries in the order before `-r` is applied: with `-a` the two
/// pseudo-entries, then the visible children in ascending order of name.
pub open spec fn arranged(
    show_hidden: bool,
    children: Seq<Entry>,
    pseudo: Option<(FileMeta, FileMeta)>,
) -> Seq<Entry> {
    let sorted = sorted_by_name(visible(children, show_hidden));
    match pseudo {
        Some((here, parent)) => if show_hidden {
            pseudo_entries(here, parent) + sorted
        } else {
            sorted
        },
        None => sorted,
    }
}

/// What a listing shows, in order: the arrangement, turned round with `-r`.
pub open spec fn listed(
    options: ListOptions,
    children: Seq<Entry>,
    pseudo: Option<(FileMeta, FileMeta)>,
) -> Seq<Entry> {
    let all = arranged(options.show_hidden, children, pseudo);
    if options.reverse {
        all.reverse()
    } else {
        all
    }
}

/// The entries of `input` in the opposite order.
pub fn reversed(input: &Vec<FileInfo>) -> (out: Vec<FileInfo>)
    ensures
        entries(out@) == entries(input@).reverse(),
{
    let n: usize = input.len();
    let mut out: Vec<FileInfo> = Vec::new();
    let mut i: usize = 0;
    while i < n
        invariant
            i <= n == input.len(),
            out.len() == i,
            forall|j: int| 0 <= j < i ==> (#[trigger] out@[j])@ == input@[n - 1 - j]@,
        decreases n - i,
    {
        out.push(input[n - 1 - i].duplicate());
        i += 1;
    }
    assert(entries(out@) =~= entries(input@).reverse());
    out
}

/// Builds the listing of a directory from its children, in any order, and the
/// metadata of the directory and of its parent. The metadata of these two is
/// needed with `-a` only, and must then be there.
pub fn list(
    options: &ListOptions,
    children: &Vec<FileInfo>,
    pseudo: &Option<(FileMeta, FileMeta)>,
) -> (out: Vec<FileInfo>)
    requires
        options.show_hidden ==> pseudo is Some,
    ensures
        entries(out@) == listed(*options, entries(children@), *pseudo),
{
    let chosen = select_visible(children, options.show_hidden);
    let mut sorted = sort_by_name(&chosen);
    let mut all: Vec<FileInfo> = Vec::new();
    let ghost tail = entries(sorted@);
    if options.show_hidden {
        match pseudo {
            Some((here, parent)) => {
                all.push(FileInfo::new(".".to_owned(), *here));
                all.push(FileInfo::new("..".to_owned(), *parent));
                assert(entries(all@) =~= pseudo_entries(*here, *parent));
            },
            None => {},
        }
    }
    let ghost head = entries(all@);
    all.append(&mut sorted);
    assert(entries(all@) =~= head + tail);
    assert(Seq::<Entry>::empty() + tail =~= tail);
    assert(entries(Seq::<FileInfo>::empty()) =~= Seq::<Entry>::empty());
    if options.reverse {
        reversed(&all)
    } else {
        all
    }
}

/// With `-r` the listing is the listing without it, turned round.
pub proof fn lemma_reverse_is_reversal(
    options: ListOptions,
    children: Seq<Entry>,
    pseudo: Option<(FileMeta, FileMeta)>,
)
    ensures
        listed(ListOptions { reverse: true, ..options }, children, pseudo) == listed(
            ListOptions { reverse: false, ..options },
            children,
            pseudo,
        ).reverse(),
{
}

/// Without `-a` no name in the listing begins with a dot.
pub proof fn lemma_hidden_names_stay_out(
    options: ListOptions,
    children: Seq<Entry>,
    pseudo: Option<(FileMeta, FileMeta)>,
)
    requires
        !options.show_hidden,
    ensures
        forall|i: int|
            0 <= i < listed(options, children, pseudo).len() ==> !is_hidden(
                #[trigger] listed(options, children, pseudo)[i].name,
            ),
{
    broadcast use vstd::seq_lib::group_to_multiset_ensures;

    let kept = visible(children, false);
    let sorted = sorted_by_name(kept);
    let out = listed(options, children, pseudo);
    lemma_sorted_by_name(kept);
    assert(arranged(false, children, pseudo) == sorted);
    assert forall|i: int| 0 <= i < out.len() implies !is_hidden(#[trigger] out[i].name) by {
        let e = out[i];
        if options.reverse {
            assert(e == sorted[sorted.len() - 1 - i]);
        } else {
            assert(e == sorted[i]);
        }
        assert(sorted.contains(e));
        assert(sorted.to_multiset().count(e) > 0);
        assert(kept.to_multiset().count(e) > 0);
        assert(kept.contains(e));
        children.lemma_filter_contains_rev(shown(false), e);
    }
}

/// With `-a` and without `-r` the listing begins with `.` and `..`, in that
/// order, and goes on with every child, in ascending order of name.
pub proof fn lemma_pseudo_entries_lead(
    options: ListOptions,
    children: Seq<Entry>,
    pseudo: Option<(FileMeta, FileMeta)>,
)
    requires
        options.show_hidden,
        !options.reverse,
        pseudo is Some,
    ensures
        ({
            let out = listed(options, children, pseudo);
            &&& out.len() == children.len() + 2
            &&& out[0].name == "."@
            &&& out[1].name == ".."@
            &&& out.skip(2) == sorted_by_name(children)
            &&& ascending(out.skip(2))
            &&& out.skip(2).to_multiset() == children.to_multiset()
        }),
{
    let out = listed(options, children, pseudo);
    assert(visible(children, true) =~= children) by {
        lemma_all_shown(children);
    }
    lemma_sorted_by_name(children);
    assert(out.skip(2) =~= sorted_by_name(children));
}

/// With `-a` every entry is shown.
pub proof fn lemma_all_shown(children: Seq<Entry>)
    ensures
        visible(children, true) == children,
    decreases children.len(),
{
    if children.len() == 0 {
        children.lemma_filter_len(shown(true));
        assert(visible(children, true) =~= children);
    } else {
        let t = children.drop_last();
        lemma_all_shown(t);
        t.lemma_filter_push(children.last(), shown(true));
        assert(children =~= t.push(children.last()));
    }
}

} // verus!
