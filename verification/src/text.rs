//! Character sequences: the model that every contract of this crate speaks of,
//! the conversions between it and `str`, and the searching and trimming that
//! the commands are built from.

use vstd::prelude::*;

verus! {

/// The characters of `s`, in order.
pub fn chars_of(s: &str) -> (out: Vec<char>)
    ensures
        out@ == s@,
{
    let mut out: Vec<char> = Vec::new();
    for c in it: s.chars()
        invariant
            out@ == it.seq().take(it.index()),
            it.seq() == s@,
    {
        out.push(c);
    }
    out
}

/// Collects characters into a `String` with std's `String::from_iter`.
/// Trusted: the string holds exactly the characters handed in, in order.
#[verifier::external_body]
pub(crate) fn string_of(chars: &Vec<char>) -> (out: String)
    ensures
        out@ == chars@,
{
    String::from_iter(chars.iter())
}

/// The views of a sequence of strings.
pub open spec fn texts(v: Seq<String>) -> Seq<Seq<char>> {
    v.map_values(|s: String| s@)
}

/// The view of an optional string.
pub open spec fn optional_text(found: Option<String>) -> Option<Seq<char>> {
    match found {
        Some(text) => Some(text@),
        None => None,
    }
}

/// The views of a sequence of character vectors.
pub open spec fn rows(v: Seq<Vec<char>>) -> Seq<Seq<char>> {
    v.map_values(|s: Vec<char>| s@)
}

/// Unicode's White_Space property, which `trim` and whitespace splitting go by.
pub open spec fn is_space(c: char) -> bool {
    let n = c as u32;
    ||| 0x09 <= n <= 0x0D
    ||| n == 0x20
    ||| n == 0x85
    ||| n == 0xA0
    ||| n == 0x1680
    ||| 0x2000 <= n <= 0x200A
    ||| n == 0x2028
    ||| n == 0x2029
    ||| n == 0x202F
    ||| n == 0x205F
    ||| n == 0x3000
}

pub fn is_whitespace(c: char) -> (r: bool)
    ensures
        r == is_space(c),
{
    let n: u32 = c as u32;
    (0x09 <= n && n <= 0x0D) || n == 0x20 || n == 0x85 || n == 0xA0 || n == 0x1680 || (0x2000 <= n
        && n <= 0x200A) || n == 0x2028 || n == 0x2029 || n == 0x202F || n == 0x205F || n == 0x3000
}

/// The characters of `v` from `from` up to, not including, `to`.
pub(crate) fn copy_range(v: &Vec<char>, from: usize, to: usize) -> (out: Vec<char>)
    requires
        from <= to <= v.len(),
    ensures
        out@ == v@.subrange(from as int, to as int),
{
    let mut out: Vec<char> = Vec::new();
    let mut i: usize = from;
    while i < to
        invariant
            from <= i <= to <= v.len(),
            out@ == v@.subrange(from as int, i as int),
        decreases to - i,
    {
        out.push(v[i]);
        i += 1;
    }
    out
}

/// Appends `more` to `out`.
pub(crate) fn push_all(out: &mut Vec<char>, more: &Vec<char>)
    ensures
        final(out)@ == old(out)@ + more@,
{
    let mut i: usize = 0;
    while i < more.len()
        invariant
            i <= more.len(),
            out@ == old(out)@ + more@.take(i as int),
        decreases more.len() - i,
    {
        out.push(more[i]);
        i += 1;
    }
    assert(more@.take(more.len() as int) == more@);
}

/// How many whitespace characters `s` begins with.
pub open spec fn leading_spaces(s: Seq<char>) -> nat
    decreases s.len(),
{
    if s.len() > 0 && is_space(s[0]) {
        1 + leading_spaces(s.drop_first())
    } else {
        0
    }
}

/// How many whitespace characters `s` ends with.
pub open spec fn trailing_spaces(s: Seq<char>) -> nat
    decreases s.len(),
{
    if s.len() > 0 && is_space(s.last()) {
        1 + trailing_spaces(s.drop_last())
    } else {
        0
    }
}

/// `s` without its leading whitespace.
pub open spec fn trimmed_start(s: Seq<char>) -> Seq<char> {
    s.skip(leading_spaces(s) as int)
}

/// `s` without its leading and trailing whitespace.
pub open spec fn trimmed(s: Seq<char>) -> Seq<char> {
    let t = trimmed_start(s);
    t.take(t.len() - trailing_spaces(t))
}

/// `leading_spaces` is the index of the first character that is no whitespace.
pub proof fn lemma_leading_spaces(s: Seq<char>, i: int)
    requires
        0 <= i <= s.len(),
        forall|j: int| 0 <= j < i ==> is_space(#[trigger] s[j]),
        i == s.len() || !is_space(s[i]),
    ensures
        leading_spaces(s) == i,
    decreases i,
{
    if i > 0 {
        let t = s.drop_first();
        assert forall|j: int| 0 <= j < i - 1 implies is_space(#[trigger] t[j]) by {
            assert(t[j] == s[j + 1]);
        }
        lemma_leading_spaces(t, i - 1);
    }
}

/// `trailing_spaces` counts back to the last character that is no whitespace.
pub proof fn lemma_trailing_spaces(s: Seq<char>, k: int)
    requires
        0 <= k <= s.len(),
        forall|j: int| s.len() - k <= j < s.len() ==> is_space(#[trigger] s[j]),
        k == s.len() || !is_space(s[s.len() - k - 1]),
    ensures
        trailing_spaces(s) == k,
    decreases k,
{
    if k > 0 {
        let t = s.drop_last();
        assert forall|j: int| t.len() - (k - 1) <= j < t.len() implies is_space(
            #[trigger] t[j],
        ) by {
            assert(t[j] == s[j]);
        }
        lemma_trailing_spaces(t, k - 1);
    }
}

/// Removes leading and trailing whitespace.
pub fn trim(v: &Vec<char>) -> (out: Vec<char>)
    ensures
        out@ == trimmed(v@),
{
    let n: usize = v.len();
    let mut a: usize = 0;
    while a < n && is_whitespace(v[a])
        invariant
            a <= n == v.len(),
            forall|j: int| 0 <= j < a ==> is_space(#[trigger] v@[j]),
        decreases n - a,
    {
        a += 1;
    }
    let mut b: usize = n;
    while b > a && is_whitespace(v[b - 1])
        invariant
            a <= b <= n == v.len(),
            forall|j: int| b <= j < n ==> is_space(#[trigger] v@[j]),
        decreases b,
    {
        b -= 1;
    }
    proof {
        lemma_leading_spaces(v@, a as int);
        let t = trimmed_start(v@);
        assert forall|j: int| t.len() - (n - b) <= j < t.len() implies is_space(
            #[trigger] t[j],
        ) by {
            assert(t[j] == v@[j + a]);
        }
        if b > a {
            assert(t[t.len() - (n - b) - 1] == v@[b - 1]);
        }
        lemma_trailing_spaces(t, (n - b) as int);
        assert(t.take(t.len() - (n - b)) =~= v@.subrange(a as int, b as int));
    }
    copy_range(v, a, b)
}

/// `needle` stands in `hay` at index `i`.
pub open spec fn occurs_at(hay: Seq<char>, needle: Seq<char>, i: int) -> bool {
    0 <= i && i + needle.len() <= hay.len() && hay.subrange(i, i + needle.len()) == needle
}

/// `needle` stands somewhere in `hay`.
pub open spec fn contains_text(hay: Seq<char>, needle: Seq<char>) -> bool {
    exists|i: int| occurs_at(hay, needle, i)
}

/// The least index at or after `from` where `needle` stands in `hay`; -1 if
/// there is none.
pub open spec fn index_from(hay: Seq<char>, needle: Seq<char>, from: int) -> int
    decreases hay.len() + 1 - from,
{
    if from < 0 || from + needle.len() > hay.len() {
        -1
    } else if occurs_at(hay, needle, from) {
        from
    } else {
        index_from(hay, needle, from + 1)
    }
}

/// The index of the first occurrence of `needle` in `hay`; -1 if there is none.
pub open spec fn index_of(hay: Seq<char>, needle: Seq<char>) -> int {
    index_from(hay, needle, 0)
}

/// `index_from` finds the first occurrence at or after `from`, and reports -1
/// only where there is none.
pub proof fn lemma_index_from(hay: Seq<char>, needle: Seq<char>, from: int)
    requires
        0 <= from,
    ensures
        ({
            let i = index_from(hay, needle, from);
            &&& i == -1 || (from <= i && occurs_at(hay, needle, i))
            &&& forall|j: int| from <= j && (i == -1 || j < i) ==> !occurs_at(hay, needle, j)
        }),
    decreases hay.len() + 1 - from,
{
    if from + needle.len() > hay.len() {
    } else if occurs_at(hay, needle, from) {
    } else {
        lemma_index_from(hay, needle, from + 1);
    }
}

/// `index_of` is the first occurrence, and is -1 exactly where there is none.
pub proof fn lemma_index_of(hay: Seq<char>, needle: Seq<char>)
    ensures
        index_of(hay, needle) >= 0 <==> contains_text(hay, needle),
        index_of(hay, needle) >= -1,
        index_of(hay, needle) >= 0 ==> occurs_at(hay, needle, index_of(hay, needle)),
        forall|j: int| 0 <= j < index_of(hay, needle) ==> !occurs_at(hay, needle, j),
{
    lemma_index_from(hay, needle, 0);
}

/// Whether `needle` stands in `hay` at index `i`.
pub fn starts_at(hay: &Vec<char>, needle: &Vec<char>, i: usize) -> (r: bool)
    ensures
        r == occurs_at(hay@, needle@, i as int),
{
    let n: usize = needle.len();
    if i > hay.len() || n > hay.len() - i {
        return false;
    }
    let mut k: usize = 0;
    while k < n
        invariant
            k <= n == needle.len(),
            i + n <= hay.len(),
            forall|j: int| 0 <= j < k ==> hay@[i + j] == needle@[j],
        decreases n - k,
    {
        if hay[i + k] != needle[k] {
            assert(hay@.subrange(i as int, i + n)[k as int] != needle@[k as int]);
            return false;
        }
        k += 1;
    }
    assert(hay@.subrange(i as int, i + n) =~= needle@);
    true
}

/// The index of the first occurrence of `needle` in `hay`.
pub fn find(hay: &Vec<char>, needle: &Vec<char>) -> (r: Option<usize>)
    ensures
        match r {
            Some(i) => i == index_of(hay@, needle@) && occurs_at(hay@, needle@, i as int)
                && forall|j: int| 0 <= j < i ==> !occurs_at(hay@, needle@, j),
            None => index_of(hay@, needle@) == -1 && !contains_text(hay@, needle@),
        },
{
    proof {
        lemma_index_of(hay@, needle@);
    }
    let mut i: usize = 0;
    loop
        invariant
            i <= hay.len(),
            forall|j: int| 0 <= j < i ==> !occurs_at(hay@, needle@, j),
            index_of(hay@, needle@) >= 0 ==> occurs_at(hay@, needle@, index_of(hay@, needle@)),
            forall|j: int| 0 <= j < index_of(hay@, needle@) ==> !occurs_at(hay@, needle@, j),
            index_of(hay@, needle@) >= 0 <==> contains_text(hay@, needle@),
            index_of(hay@, needle@) >= -1,
        decreases hay.len() - i,
    {
        if starts_at(hay, needle, i) {
            return Some(i);
        }
        if i >= hay.len() {
            return None;
        }
        i += 1;
    }
}

/// Whether `needle` stands somewhere in `hay`.
pub fn contains(hay: &Vec<char>, needle: &Vec<char>) -> (r: bool)
    ensures
        r == contains_text(hay@, needle@),
{
    find(hay, needle).is_some()
}

/// The characters of each string of `v`.
pub fn to_rows(v: &Vec<String>) -> (out: Vec<Vec<char>>)
    ensures
        rows(out@) == texts(v@),
{
    let mut out: Vec<Vec<char>> = Vec::new();
    let mut i: usize = 0;
    while i < v.len()
        invariant
            i <= v.len(),
            rows(out@) == texts(v@.take(i as int)),
        decreases v.len() - i,
    {
        let row = chars_of(v[i].as_str());
        proof {
            assert(v@.take(i + 1) =~= v@.take(i as int).push(v@[i as int]));
            assert(rows(out@.push(row)) =~= rows(out@).push(row@));
            assert(texts(v@.take(i as int).push(v@[i as int])) =~= texts(v@.take(i as int)).push(
                v@[i as int]@,
            ));
        }
        out.push(row);
        i += 1;
    }
    assert(v@.take(v.len() as int) == v@);
    out
}

/// A string for each row of `v`.
pub fn to_strings(v: &Vec<Vec<char>>) -> (out: Vec<String>)
    ensures
        texts(out@) == rows(v@),
{
    let mut out: Vec<String> = Vec::new();
    let mut i: usize = 0;
    while i < v.len()
        invariant
            i <= v.len(),
            texts(out@) == rows(v@.take(i as int)),
        decreases v.len() - i,
    {
        let item = string_of(&v[i]);
        proof {
            assert(v@.take(i + 1) =~= v@.take(i as int).push(v@[i as int]));
            assert(texts(out@.push(item)) =~= texts(out@).push(item@));
            assert(rows(v@.take(i as int).push(v@[i as int])) =~= rows(v@.take(i as int)).push(
                v@[i as int]@,
            ));
        }
        out.push(item);
        i += 1;
    }
    assert(v@.take(v.len() as int) == v@);
    out
}

/// How many characters that are no whitespace `s` begins with.
pub open spec fn word_len(s: Seq<char>) -> nat
    decreases s.len(),
{
    if s.len() > 0 && !is_space(s[0]) {
        1 + word_len(s.drop_first())
    } else {
        0
    }
}

/// The maximal runs of characters that are no whitespace, in order. The bound
/// on `word_len` always holds; it is written out so that the recursion is seen
/// to end.
pub open spec fn words(s: Seq<char>) -> Seq<Seq<char>>
    decreases s.len(),
{
    if s.len() == 0 {
        Seq::empty()
    } else if is_space(s[0]) {
        words(s.drop_first())
    } else {
        let n = word_len(s) as int;
        if 0 < n <= s.len() {
            seq![s.take(n)] + words(s.skip(n))
        } else {
            Seq::empty()
        }
    }
}

/// `word_len` is the index of the first whitespace character.
pub proof fn lemma_word_len(s: Seq<char>, n: int)
    requires
        0 <= n <= s.len(),
        forall|j: int| 0 <= j < n ==> !is_space(#[trigger] s[j]),
        n == s.len() || is_space(s[n]),
    ensures
        word_len(s) == n,
    decreases n,
{
    if n > 0 {
        let t = s.drop_first();
        assert forall|j: int| 0 <= j < n - 1 implies !is_space(#[trigger] t[j]) by {
            assert(t[j] == s[j + 1]);
        }
        lemma_word_len(t, n - 1);
    }
}

/// Splits on runs of whitespace; no piece is empty.
pub fn split_whitespace(v: &Vec<char>) -> (out: Vec<Vec<char>>)
    ensures
        rows(out@) == words(v@),
{
    let mut out: Vec<Vec<char>> = Vec::new();
    let n: usize = v.len();
    let mut i: usize = 0;
    assert(v@.skip(0) =~= v@);
    while i < n
        invariant
            i <= n == v.len(),
            rows(out@) + words(v@.skip(i as int)) == words(v@),
        decreases n - i,
    {
        if is_whitespace(v[i]) {
            assert(v@.skip(i as int).drop_first() =~= v@.skip(i + 1));
            i += 1;
        } else {
            let start: usize = i;
            let mut j: usize = i + 1;
            while j < n && !is_whitespace(v[j])
                invariant
                    start < j <= n == v.len(),
                    forall|k: int| start <= k < j ==> !is_space(#[trigger] v@[k]),
                decreases n - j,
            {
                j += 1;
            }
            let word = copy_range(v, start, j);
            proof {
                let s = v@.skip(start as int);
                assert forall|k: int| 0 <= k < j - start implies !is_space(#[trigger] s[k]) by {
                    assert(s[k] == v@[start + k]);
                }
                lemma_word_len(s, j - start);
                assert(s.take(j - start) =~= word@);
                assert(s.skip(j - start) =~= v@.skip(j as int));
                assert(rows(out@.push(word)) =~= rows(out@).push(word@));
                assert(rows(out@).push(word@) + words(v@.skip(j as int)) =~= rows(out@) + (
                seq![word@] + words(v@.skip(j as int))));
            }
            out.push(word);
            i = j;
        }
    }
    assert(rows(out@) + Seq::<Seq<char>>::empty() =~= rows(out@));
    out
}

/// The pieces of `parts` with `sep` between each two neighbours.
pub open spec fn joined(parts: Seq<Seq<char>>, sep: Seq<char>) -> Seq<char>
    decreases parts.len(),
{
    if parts.len() == 0 {
        Seq::empty()
    } else if parts.len() == 1 {
        parts[0]
    } else {
        joined(parts.drop_last(), sep) + sep + parts.last()
    }
}

/// Joins `parts`, putting `sep` between each two neighbours.
pub fn join(parts: &Vec<Vec<char>>, sep: &Vec<char>) -> (out: Vec<char>)
    ensures
        out@ == joined(rows(parts@), sep@),
{
    let mut out: Vec<char> = Vec::new();
    let mut i: usize = 0;
    while i < parts.len()
        invariant
            i <= parts.len(),
            out@ == joined(rows(parts@).take(i as int), sep@),
        decreases parts.len() - i,
    {
        proof {
            let next = rows(parts@).take(i + 1);
            assert(next.drop_last() =~= rows(parts@).take(i as int));
            assert(next.last() == parts@[i as int]@);
            if i == 0 {
                assert(out@ + parts@[i as int]@ =~= parts@[i as int]@);
            }
        }
        if i > 0 {
            push_all(&mut out, sep);
        }
        push_all(&mut out, &parts[i]);
        i += 1;
    }
    assert(rows(parts@).take(parts.len() as int) == rows(parts@));
    out
}

/// The pieces of `s` between the occurrences of `sep`, taken from the left and
/// without overlap. An empty `sep` splits nothing.
pub open spec fn split_text(s: Seq<char>, sep: Seq<char>) -> Seq<Seq<char>>
    decreases s.len(),
{
    let i = index_of(s, sep);
    if sep.len() > 0 && 0 <= i && i + sep.len() <= s.len() {
        seq![s.take(i)] + split_text(s.skip(i + sep.len()), sep)
    } else {
        seq![s]
    }
}

/// Splits `v` at each occurrence of `sep`.
pub fn split(v: &Vec<char>, sep: &Vec<char>) -> (out: Vec<Vec<char>>)
    ensures
        rows(out@) == split_text(v@, sep@),
        out.len() >= 1,
{
    let mut out: Vec<Vec<char>> = Vec::new();
    let mut rest: Vec<char> = copy_range(v, 0, v.len());
    assert(rest@ =~= v@);
    loop
        invariant
            rows(out@) + split_text(rest@, sep@) == split_text(v@, sep@),
        decreases rest.len(),
    {
        let hit = find(&rest, sep);
        match hit {
            Some(i) => {
                if sep.len() > 0 {
                    let piece = copy_range(&rest, 0, i);
                    let after = copy_range(&rest, i + sep.len(), rest.len());
                    proof {
                        assert(piece@ =~= rest@.take(i as int));
                        assert(after@ =~= rest@.skip(i + sep.len()));
                        assert(rows(out@.push(piece)) =~= rows(out@).push(piece@));
                        assert(rows(out@).push(piece@) + split_text(after@, sep@) =~= rows(out@)
                            + (seq![piece@] + split_text(after@, sep@)));
                    }
                    out.push(piece);
                    rest = after;
                    continue ;
                }
            },
            None => {},
        }
        proof {
            assert(rows(out@.push(rest)) =~= rows(out@).push(rest@));
            assert(rows(out@).push(rest@) =~= rows(out@) + seq![rest@]);
        }
        out.push(rest);
        return out;
    }
}

/// Whether two texts hold the same characters.
pub fn same_text(a: &Vec<char>, b: &Vec<char>) -> (r: bool)
    ensures
        r == (a@ == b@),
{
    if a.len() != b.len() {
        return false;
    }
    let mut i: usize = 0;
    while i < a.len()
        invariant
            i <= a.len() == b.len(),
            forall|j: int| 0 <= j < i ==> a@[j] == b@[j],
        decreases a.len() - i,
    {
        if a[i] != b[i] {
            return false;
        }
        i += 1;
    }
    assert(a@ =~= b@);
    true
}

/// `n` blanks.
pub open spec fn spaces(n: nat) -> Seq<char> {
    Seq::new(n, |i: int| ' ')
}

/// `s` at the left of a field of `width` characters; a longer `s` is kept whole.
pub open spec fn left_justified(s: Seq<char>, width: nat) -> Seq<char> {
    if s.len() >= width {
        s
    } else {
        s + spaces((width - s.len()) as nat)
    }
}

/// `s` at the right of a field of `width` characters; a longer `s` is kept whole.
pub open spec fn right_justified(s: Seq<char>, width: nat) -> Seq<char> {
    if s.len() >= width {
        s
    } else {
        spaces((width - s.len()) as nat) + s
    }
}

fn blanks(n: usize) -> (out: Vec<char>)
    ensures
        out@ == spaces(n as nat),
{
    let mut out: Vec<char> = Vec::new();
    let mut i: usize = 0;
    while i < n
        invariant
            i <= n,
            out@ == spaces(i as nat),
        decreases n - i,
    {
        out.push(' ');
        assert(out@ =~= spaces((i + 1) as nat));
        i += 1;
    }
    out
}

/// Pads `s` with blanks on the right up to `width` characters.
pub fn left_justify(s: &Vec<char>, width: usize) -> (out: Vec<char>)
    ensures
        out@ == left_justified(s@, width as nat),
{
    let mut out: Vec<char> = copy_range(s, 0, s.len());
    assert(out@ =~= s@);
    if s.len() < width {
        let fill = blanks(width - s.len());
        push_all(&mut out, &fill);
    }
    out
}

/// Pads `s` with blanks on the left up to `width` characters.
pub fn right_justify(s: &Vec<char>, width: usize) -> (out: Vec<char>)
    ensures
        out@ == right_justified(s@, width as nat),
{
    if s.len() < width {
        let mut out: Vec<char> = blanks(width - s.len());
        push_all(&mut out, s);
        out
    } else {
        let out: Vec<char> = copy_range(s, 0, s.len());
        assert(out@ =~= s@);
        out
    }
}

/// The number of bytes that `s` takes in UTF-8, which is what `str::len`
/// counts: one to four for each character.
pub open spec fn byte_len(s: Seq<char>) -> nat {
    vstd::utf8::encode_utf8(s).len()
}

/// A text takes at least one byte for each character.
pub proof fn lemma_byte_len(s: Seq<char>)
    ensures
        s.len() <= byte_len(s),
    decreases s.len(),
{
    if s.len() > 0 {
        lemma_byte_len(s.drop_first());
    }
}

/// The length of `s` in bytes.
pub fn byte_count(s: &str) -> (n: usize)
    ensures
        n == byte_len(s@),
{
    s.as_bytes().len()
}

} // verus!
