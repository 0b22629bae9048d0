//! The text search engine: which lines of which files hold the pattern, and
//! how a hit is written.

use vstd::prelude::*;
use crate::number::{decimal, decimal_text};
use crate::style::{blue, blue_code, emphasized};
use crate::text::{chars_of, contains, contains_text, push_all, string_of, texts};

verus! {

/// How a search is made.
#[derive(Clone, Copy, Debug, PartialEq, Eq)]
pub struct SearchOptions {
    /// Whether upper and lower case differ. `-i` switches it off.
    pub case_sensitive: bool,
    /// `-m N`: reading of a file ends with the line after which it has given
    /// `N` hits.
    pub max_matches: Option<i32>,
}

impl SearchOptions {
    /// A case-sensitive search without a cap.
    pub fn new() -> (out: SearchOptions)
        ensures
            out.case_sensitive,
            out.max_matches is None,
    {
        SearchOptions { case_sensitive: true, max_matches: None }
    }
}

/// The lower-case form of a text, as `str::to_lowercase` gives it.
pub uninterp spec fn lowercase(s: Seq<char>) -> Seq<char>;

/// Calls std's `str::to_lowercase`.
/// Trusted: the result depends on the characters of the text alone.
#[verifier::external_body]
pub(crate) fn to_lowercase(s: &str) -> (out: String)
    ensures
        out@ == lowercase(s@),
{
    s.to_lowercase()
}

/// A line is a hit where it holds the pattern; without case, where its
/// lower-case form holds the lower-case form of the pattern.
pub open spec fn line_matches(line: Seq<char>, pattern: Seq<char>, case_sensitive: bool) -> bool {
    if case_sensitive {
        contains_text(line, pattern)
    } else {
        contains_text(lowercase(line), lowercase(pattern))
    }
}

/// Whether `line` is a hit for `pattern`.
pub fn matches_line(line: &str, pattern: &str, case_sensitive: bool) -> (r: bool)
    ensures
        r == line_matches(line@, pattern@, case_sensitive),
{
    if case_sensitive {
        contains(&chars_of(line), &chars_of(pattern))
    } else {
        let low_line = to_lowercase(line);
        let low_pattern = to_lowercase(pattern);
        contains(&chars_of(low_line.as_str()), &chars_of(low_pattern.as_str()))
    }
}

/// How many of the first `n` lines are hits.
pub open spec fn match_count(
    lines: Seq<Seq<char>>,
    pattern: Seq<char>,
    case_sensitive: bool,
    n: int,
) -> nat
    decreases n,
{
    if n <= 0 {
        0
    } else {
        match_count(lines, pattern, case_sensitive, n - 1) + if line_matches(
            lines[n - 1],
            pattern,
            case_sensitive,
        ) {
            1nat
        } else {
            0nat
        }
    }
}

/// The numbers, counted from 1, of the hits among the first `n` lines.
pub open spec fn hit_numbers(
    lines: Seq<Seq<char>>,
    pattern: Seq<char>,
    case_sensitive: bool,
    n: int,
) -> Seq<int>
    decreases n,
{
    if n <= 0 {
        Seq::empty()
    } else {
        let rest = hit_numbers(lines, pattern, case_sensitive, n - 1);
        if line_matches(lines[n - 1], pattern, case_sensitive) {
            rest.push(n)
        } else {
            rest
        }
    }
}

/// How many lines are read when the first `from` have been read without
/// reaching the cap: reading goes on to the first line after which the hits
/// have reached the cap, or to the end.
pub open spec fn read_from(
    lines: Seq<Seq<char>>,
    pattern: Seq<char>,
    options: SearchOptions,
    from: int,
) -> int
    decreases lines.len() - from,
{
    if from >= lines.len() {
        lines.len() as int
    } else if options.max_matches is Some && match_count(
        lines,
        pattern,
        options.case_sensitive,
        from + 1,
    ) >= options.max_matches->0 {
        from + 1
    } else {
        read_from(lines, pattern, options, from + 1)
    }
}

/// How many lines of a file are read.
pub open spec fn lines_read(lines: Seq<Seq<char>>, pattern: Seq<char>, options: SearchOptions) -> int {
    read_from(lines, pattern, options, 0)
}

/// The line numbers that a search of one file reports, in order.
pub open spec fn found(lines: Seq<Seq<char>>, pattern: Seq<char>, options: SearchOptions) -> Seq<
    int,
> {
    hit_numbers(lines, pattern, options.case_sensitive, lines_read(lines, pattern, options))
}

/// The numbers as integers.
pub open spec fn numbers(v: Seq<usize>) -> Seq<int> {
    v.map_values(|n: usize| n as int)
}

/// Searches the lines of one file.
pub fn scan(lines: &Vec<String>, pattern: &str, options: &SearchOptions) -> (hits: Vec<usize>)
    ensures
        numbers(hits@) == found(texts(lines@), pattern@, *options),
{
    let mut hits: Vec<usize> = Vec::new();
    let mut count: usize = 0;
    let mut i: usize = 0;
    assert(numbers(hits@) =~= Seq::<int>::empty());
    while i < lines.len()
        invariant
            i <= lines.len(),
            count <= i,
            count == match_count(texts(lines@), pattern@, options.case_sensitive, i as int),
            numbers(hits@) == hit_numbers(
                texts(lines@),
                pattern@,
                options.case_sensitive,
                i as int,
            ),
            read_from(texts(lines@), pattern@, *options, i as int) == lines_read(
                texts(lines@),
                pattern@,
                *options,
            ),
        decreases lines.len() - i,
    {
        assert(texts(lines@)[i as int] == lines@[i as int]@);
        if matches_line(lines[i].as_str(), pattern, options.case_sensitive) {
            count += 1;
            assert(numbers(hits@.push((i + 1) as usize)) =~= numbers(hits@).push(i + 1));
            hits.push(i + 1);
        }
        let full: bool = match options.max_matches {
            Some(cap) => cap <= 0 || count >= cap as usize,
            None => false,
        };
        if full {
            return hits;
        }
        i += 1;
    }
    hits
}

/// One hit: the index of the file among those searched, and the number of the
/// line in it, counted from 1.
#[derive(Clone, Copy, Debug, PartialEq, Eq)]
pub struct Hit {
    pub file: usize,
    pub line_number: usize,
}

impl View for Hit {
    type V = (int, int);

    open spec fn view(&self) -> (int, int) {
        (self.file as int, self.line_number as int)
    }
}

/// The values of a sequence of hits.
pub open spec fn hit_views(s: Seq<Hit>) -> Seq<(int, int)> {
    s.map_values(|h: Hit| h@)
}

/// A file handed to the search: its path, and its lines where it could be
/// opened.
#[derive(Debug, PartialEq, Eq)]
pub struct SourceFile {
    pub path: String,
    pub lines: Option<Vec<String>>,
}

impl SourceFile {
    /// The lines of the file; `None` where it could not be opened.
    pub open spec fn content(&self) -> Option<Seq<Seq<char>>> {
        match self.lines {
            Some(lines) => Some(texts(lines@)),
            None => None,
        }
    }
}

/// What the files hold, file by file.
pub open spec fn contents(files: Seq<SourceFile>) -> Seq<Option<Seq<Seq<char>>>> {
    files.map_values(|f: SourceFile| f.content())
}

/// The hits of the file with the given index, from their line numbers.
pub open spec fn file_hits(index: int, line_numbers: Seq<int>) -> Seq<(int, int)> {
    line_numbers.map_values(|n: int| (index, n))
}

/// The hits of a search: file after file in the order given, a file that
/// could not be opened passed over, and in each file line after line.
pub open spec fn all_hits(
    files: Seq<Option<Seq<Seq<char>>>>,
    pattern: Seq<char>,
    options: SearchOptions,
) -> Seq<(int, int)>
    decreases files.len(),
{
    if files.len() == 0 {
        Seq::empty()
    } else {
        let before = all_hits(files.drop_last(), pattern, options);
        match files.last() {
            Some(lines) => before + file_hits(files.len() - 1, found(lines, pattern, options)),
            None => before,
        }
    }
}

/// Searches every file that could be opened, in the order given.
pub fn search(pattern: &str, files: &Vec<SourceFile>, options: &SearchOptions) -> (hits: Vec<Hit>)
    ensures
        hit_views(hits@) == all_hits(contents(files@), pattern@, *options),
{
    let mut hits: Vec<Hit> = Vec::new();
    let mut f: usize = 0;
    assert(contents(files@).take(0) =~= Seq::<Option<Seq<Seq<char>>>>::empty());
    assert(hit_views(hits@) =~= Seq::<(int, int)>::empty());
    while f < files.len()
        invariant
            f <= files.len(),
            hit_views(hits@) == all_hits(contents(files@).take(f as int), pattern@, *options),
        decreases files.len() - f,
    {
        proof {
            let next = contents(files@).take(f + 1);
            assert(next.drop_last() =~= contents(files@).take(f as int));
            assert(next.last() == files@[f as int].content());
        }
        match &files[f].lines {
            Some(lines) => {
                let found_here = scan(lines, pattern, options);
                let ghost before = hit_views(hits@);
                let mut k: usize = 0;
                assert(numbers(found_here@).take(0) =~= Seq::<int>::empty());
                assert(before + file_hits(f as int, Seq::<int>::empty()) =~= before);
                while k < found_here.len()
                    invariant
                        k <= found_here.len(),
                        hit_views(hits@) == before + file_hits(
                            f as int,
                            numbers(found_here@).take(k as int),
                        ),
                    decreases found_here.len() - k,
                {
                    let hit = Hit { file: f, line_number: found_here[k] };
                    proof {
                        let so_far = numbers(found_here@).take(k as int);
                        assert(numbers(found_here@).take(k + 1) =~= so_far.push(
                            found_here@[k as int] as int,
                        ));
                        assert(file_hits(f as int, so_far.push(found_here@[k as int] as int))
                            =~= file_hits(f as int, so_far).push(hit@));
                        assert(hit_views(hits@.push(hit)) =~= hit_views(hits@).push(hit@));
                    }
                    hits.push(hit);
                    k += 1;
                }
                assert(numbers(found_here@).take(found_here.len() as int) == numbers(
                    found_here@,
                ));
            },
            None => {},
        }
        f += 1;
    }
    assert(contents(files@).take(files.len() as int) == contents(files@));
    hits
}

/// A hit as it is written: the path as it is shown, a colon, the line number,
/// a blank and the line.
pub open spec fn hit_line(path_shown: Seq<char>, number: nat, line: Seq<char>) -> Seq<char> {
    path_shown + seq![':'] + decimal(number) + seq![' '] + line
}

/// Writes a hit.
pub fn hit_text(path_shown: &str, number: usize, line: &str) -> (out: String)
    ensures
        out@ == hit_line(path_shown@, number as nat, line@),
{
    let mut out: Vec<char> = chars_of(path_shown);
    out.push(':');
    push_all(&mut out, &decimal_text(number as u64));
    out.push(' ');
    push_all(&mut out, &chars_of(line));
    string_of(&out)
}

/// Reading never goes back, nor past the end.
pub proof fn lemma_read_from_bounds(
    lines: Seq<Seq<char>>,
    pattern: Seq<char>,
    options: SearchOptions,
    from: int,
)
    requires
        0 <= from <= lines.len(),
    ensures
        from <= read_from(lines, pattern, options, from) <= lines.len(),
    decreases lines.len() - from,
{
    if from < lines.len() {
        lemma_read_from_bounds(lines, pattern, options, from + 1);
    }
}

/// The hits among the first `n` lines: as many as the count says, each the
/// number of a line that holds the pattern, in ascending order, and none left
/// out.
pub proof fn lemma_hit_numbers(
    lines: Seq<Seq<char>>,
    pattern: Seq<char>,
    case_sensitive: bool,
    n: int,
)
    requires
        0 <= n <= lines.len(),
    ensures
        ({
            let h = hit_numbers(lines, pattern, case_sensitive, n);
            &&& h.len() == match_count(lines, pattern, case_sensitive, n)
            &&& forall|k: int|
                0 <= k < h.len() ==> 1 <= #[trigger] h[k] <= n && line_matches(
                    lines[h[k] - 1],
                    pattern,
                    case_sensitive,
                )
            &&& forall|a: int, b: int| 0 <= a < b < h.len() ==> #[trigger] h[a] < #[trigger] h[b]
            &&& forall|i: int|
                1 <= i <= n && line_matches(#[trigger] lines[i - 1], pattern, case_sensitive)
                    ==> h.contains(i)
        }),
    decreases n,
{
    if n > 0 {
        lemma_hit_numbers(lines, pattern, case_sensitive, n - 1);
        let r = hit_numbers(lines, pattern, case_sensitive, n - 1);
        let h = hit_numbers(lines, pattern, case_sensitive, n);
        assert forall|i: int|
            1 <= i <= n && line_matches(
                #[trigger] lines[i - 1],
                pattern,
                case_sensitive,
            ) implies h.contains(i) by {
            if i < n {
                assert(r.contains(i));
                let k = choose|k: int| 0 <= k < r.len() && r[k] == i;
                assert(h[k] == i);
            } else {
                assert(h[h.len() - 1] == n);
            }
        }
    }
}

/// The count of hits does not fall as more lines are read.
pub proof fn lemma_match_count_grows(
    lines: Seq<Seq<char>>,
    pattern: Seq<char>,
    case_sensitive: bool,
    a: int,
    b: int,
)
    requires
        a <= b,
    ensures
        match_count(lines, pattern, case_sensitive, a) <= match_count(
            lines,
            pattern,
            case_sensitive,
            b,
        ),
    decreases b - a,
{
    if a < b {
        lemma_match_count_grows(lines, pattern, case_sensitive, a, b - 1);
    }
}

proof fn lemma_read_from_cap(
    lines: Seq<Seq<char>>,
    pattern: Seq<char>,
    options: SearchOptions,
    from: int,
)
    requires
        0 <= from <= lines.len(),
        options.max_matches is Some,
        options.max_matches->0 >= 1,
        match_count(lines, pattern, options.case_sensitive, from) < options.max_matches->0,
    ensures
        ({
            let all = match_count(lines, pattern, options.case_sensitive, lines.len() as int);
            let cap = options.max_matches->0 as int;
            match_count(
                lines,
                pattern,
                options.case_sensitive,
                read_from(lines, pattern, options, from),
            ) == (if all < cap {
                all as int
            } else {
                cap
            })
        }),
    decreases lines.len() - from,
{
    if from < lines.len() {
        if match_count(lines, pattern, options.case_sensitive, from + 1)
            >= options.max_matches->0 {
            lemma_match_count_grows(
                lines,
                pattern,
                options.case_sensitive,
                from + 1,
                lines.len() as int,
            );
        } else {
            lemma_read_from_cap(lines, pattern, options, from + 1);
        }
    }
}

/// With a cap of `N`, at least 1, a file gives `N` hits where it holds `N`
/// matching lines or more, and all its matching lines where it holds fewer.
pub proof fn lemma_cap_is_exact(lines: Seq<Seq<char>>, pattern: Seq<char>, options: SearchOptions)
    requires
        options.max_matches is Some,
        options.max_matches->0 >= 1,
    ensures
        ({
            let all = match_count(lines, pattern, options.case_sensitive, lines.len() as int);
            let cap = options.max_matches->0 as int;
            found(lines, pattern, options).len() == (if all < cap {
                all as int
            } else {
                cap
            })
        }),
{
    lemma_read_from_cap(lines, pattern, options, 0);
    lemma_read_from_bounds(lines, pattern, options, 0);
    lemma_hit_numbers(
        lines,
        pattern,
        options.case_sensitive,
        lines_read(lines, pattern, options),
    );
}

/// Without a cap every line is read.
pub proof fn lemma_no_cap_reads_all(
    lines: Seq<Seq<char>>,
    pattern: Seq<char>,
    options: SearchOptions,
    from: int,
)
    requires
        options.max_matches is None,
        0 <= from <= lines.len(),
    ensures
        read_from(lines, pattern, options, from) == lines.len(),
    decreases lines.len() - from,
{
    if from < lines.len() {
        lemma_no_cap_reads_all(lines, pattern, options, from + 1);
    }
}

/// Without a cap every matching line of a file is a hit, and nothing else is.
pub proof fn lemma_no_cap_finds_all(
    lines: Seq<Seq<char>>,
    pattern: Seq<char>,
    options: SearchOptions,
)
    requires
        options.max_matches is None,
    ensures
        ({
            let hits = found(lines, pattern, options);
            &&& hits.len() == match_count(
                lines,
                pattern,
                options.case_sensitive,
                lines.len() as int,
            )
            &&& forall|i: int|
                1 <= i <= lines.len() && line_matches(
                    #[trigger] lines[i - 1],
                    pattern,
                    options.case_sensitive,
                ) ==> hits.contains(i)
            &&& forall|k: int|
                0 <= k < hits.len() ==> 1 <= #[trigger] hits[k] <= lines.len() && line_matches(
                    lines[hits[k] - 1],
                    pattern,
                    options.case_sensitive,
                )
        }),
{
    lemma_no_cap_reads_all(lines, pattern, options, 0);
    lemma_hit_numbers(lines, pattern, options.case_sensitive, lines.len() as int);
}

/// A hit names a file that was opened and a line of it that holds the pattern.
pub open spec fn valid_hit(
    files: Seq<Option<Seq<Seq<char>>>>,
    pattern: Seq<char>,
    case_sensitive: bool,
    hit: (int, int),
) -> bool {
    &&& 0 <= hit.0 < files.len()
    &&& files[hit.0] is Some
    &&& 1 <= hit.1 <= files[hit.0]->0.len()
    &&& line_matches(files[hit.0]->0[hit.1 - 1], pattern, case_sensitive)
}

/// `x` comes before `y`: in an earlier file, or in the same file on an
/// earlier line.
pub open spec fn hit_before(x: (int, int), y: (int, int)) -> bool {
    x.0 < y.0 || (x.0 == y.0 && x.1 < y.1)
}

/// The hits of a search come file by file in the order the files were given,
/// and within a file in ascending order of line number; each is a line that
/// holds the pattern.
pub proof fn lemma_hits_in_order(
    files: Seq<Option<Seq<Seq<char>>>>,
    pattern: Seq<char>,
    options: SearchOptions,
)
    ensures
        ({
            let h = all_hits(files, pattern, options);
            &&& forall|k: int|
                0 <= k < h.len() ==> valid_hit(
                    files,
                    pattern,
                    options.case_sensitive,
                    #[trigger] h[k],
                )
            &&& forall|a: int, b: int|
                0 <= a < b < h.len() ==> hit_before(#[trigger] h[a], #[trigger] h[b])
        }),
    decreases files.len(),
{
    if files.len() > 0 {
        let rest = files.drop_last();
        lemma_hits_in_order(rest, pattern, options);
        let before = all_hits(rest, pattern, options);
        let h = all_hits(files, pattern, options);
        let index = files.len() - 1;
        assert forall|k: int| 0 <= k < before.len() implies valid_hit(
            files,
            pattern,
            options.case_sensitive,
            #[trigger] before[k],
        ) by {
            assert(valid_hit(rest, pattern, options.case_sensitive, before[k]));
            assert(rest[before[k].0] == files[before[k].0]);
        }
        match files.last() {
            Some(lines) => {
                let n = lines_read(lines, pattern, options);
                lemma_read_from_bounds(lines, pattern, options, 0);
                lemma_hit_numbers(lines, pattern, options.case_sensitive, n);
                let here = found(lines, pattern, options);
                assert forall|k: int| 0 <= k < h.len() implies valid_hit(
                    files,
                    pattern,
                    options.case_sensitive,
                    #[trigger] h[k],
                ) by {
                    if k < before.len() {
                        assert(h[k] == before[k]);
                    } else {
                        assert(h[k] == (index, here[k - before.len()]));
                    }
                }
                assert forall|a: int, b: int| 0 <= a < b < h.len() implies hit_before(
                    #[trigger] h[a],
                    #[trigger] h[b],
                ) by {
                    if b < before.len() {
                        assert(h[a] == before[a] && h[b] == before[b]);
                    } else if a < before.len() {
                        assert(h[a] == before[a]);
                        assert(valid_hit(rest, pattern, options.case_sensitive, before[a]));
                        assert(h[b] == (index, here[b - before.len()]));
                    } else {
                        assert(h[a] == (index, here[a - before.len()]));
                        assert(h[b] == (index, here[b - before.len()]));
                    }
                }
            },
            None => {},
        }
    }
}

/// How many hits the files give together: each file that was opened gives as
/// many as a search of it alone.
pub open spec fn hit_total(
    files: Seq<Option<Seq<Seq<char>>>>,
    pattern: Seq<char>,
    options: SearchOptions,
) -> nat
    decreases files.len(),
{
    if files.len() == 0 {
        0
    } else {
        hit_total(files.drop_last(), pattern, options) + match files.last() {
            Some(lines) => found(lines, pattern, options).len(),
            None => 0,
        }
    }
}

/// The cap counts anew in every file: no file's hits depend on another's.
pub proof fn lemma_files_count_alone(
    files: Seq<Option<Seq<Seq<char>>>>,
    pattern: Seq<char>,
    options: SearchOptions,
)
    ensures
        all_hits(files, pattern, options).len() == hit_total(files, pattern, options),
    decreases files.len(),
{
    if files.len() > 0 {
        lemma_files_count_alone(files.drop_last(), pattern, options);
    }
}

/// Two searches of the same pattern in files that hold the same lines give
/// the same hits.
pub proof fn lemma_search_repeats(
    first: Seq<SourceFile>,
    second: Seq<SourceFile>,
    pattern: Seq<char>,
    options: SearchOptions,
)
    requires
        contents(first) == contents(second),
    ensures
        all_hits(contents(first), pattern, options) == all_hits(
            contents(second),
            pattern,
            options,
        ),
{
}

/// `out` is the hit written out, the path emphasized where the terminal
/// takes it.
pub open spec fn is_hit_line(path: Seq<char>, number: nat, line: Seq<char>, out: Seq<char>) -> bool {
    exists|shown: Seq<char>|
        emphasized(path, blue_code(), shown) && out == #[trigger] hit_line(shown, number, line)
}

/// `out` is what is written for `hit`, a hit in `files`.
pub open spec fn is_output_of(files: Seq<SourceFile>, hit: (int, int), out: Seq<char>) -> bool {
    &&& 0 <= hit.0 < files.len()
    &&& files[hit.0].lines is Some
    &&& 1 <= hit.1 <= files[hit.0].lines->0.len()
    &&& is_hit_line(files[hit.0].path@, hit.1 as nat, files[hit.0].lines->0[hit.1 - 1]@, out)
}

/// Searches the files and writes every hit: the lines to print, in order.
pub fn grep(pattern: &str, files: &Vec<SourceFile>, options: &SearchOptions) -> (out: Vec<String>)
    ensures
        ({
            let hits = all_hits(contents(files@), pattern@, *options);
            &&& out.len() == hits.len()
            &&& forall|k: int|
                0 <= k < hits.len() ==> is_output_of(files@, hits[k], #[trigger] out@[k]@)
        }),
{
    let hits = search(pattern, files, options);
    let ghost wanted = all_hits(contents(files@), pattern@, *options);
    proof {
        lemma_hits_in_order(contents(files@), pattern@, *options);
    }
    let mut out: Vec<String> = Vec::new();
    let mut k: usize = 0;
    while k < hits.len()
        invariant
            k <= hits.len(),
            out.len() == k,
            hit_views(hits@) == wanted,
            forall|j: int|
                0 <= j < wanted.len() ==> valid_hit(
                    contents(files@),
                    pattern@,
                    options.case_sensitive,
                    #[trigger] wanted[j],
                ),
            forall|j: int| 0 <= j < k ==> is_output_of(files@, wanted[j], #[trigger] out@[j]@),
        decreases hits.len() - k,
    {
        let hit = hits[k];
        proof {
            assert(wanted[k as int] == hit@);
            assert(valid_hit(contents(files@), pattern@, options.case_sensitive, wanted[k as int]));
            assert(contents(files@)[hit.file as int] == files@[hit.file as int].content());
        }
        let file = &files[hit.file];
        let line: String = match &file.lines {
            Some(lines) => {
                let shown = blue(file.path.as_str());
                let text = hit_text(shown.as_str(), hit.line_number, lines[hit.line_number - 1].as_str());
                assert(is_hit_line(
                    file.path@,
                    hit.line_number as nat,
                    lines@[hit.line_number - 1]@,
                    text@,
                ));
                text
            },
            None => String::new(),
        };
        out.push(line);
        k += 1;
    }
    out
}

} // verus!
