use vstd::prelude::*;
use vstd::slice::slice_to_vec;
use crate::owned_data::rows_view;

verus! {

/// The characters Unicode calls `White_Space`, the ones `char::is_whitespace`
/// recognises.
pub open spec fn is_white_space(c: char) -> bool {
    ||| c == ' '
    ||| ('\t' <= c && c <= '\r')
    ||| c == '\u{85}'
    ||| c == '\u{a0}'
    ||| c == '\u{1680}'
    ||| ('\u{2000}' <= c && c <= '\u{200a}')
    ||| c == '\u{2028}'
    ||| c == '\u{2029}'
    ||| c == '\u{202f}'
    ||| c == '\u{205f}'
    ||| c == '\u{3000}'
}

/// `s` without its leading white space.
pub open spec fn trim_start(s: Seq<char>) -> Seq<char>
    decreases s.len(),
{
    if s.len() > 0 && is_white_space(s[0]) {
        trim_start(s.drop_first())
    } else {
        s
    }
}

/// `s` without its trailing white space.
pub open spec fn trim_end(s: Seq<char>) -> Seq<char>
    decreases s.len(),
{
    if s.len() > 0 && is_white_space(s.last()) {
        trim_end(s.drop_last())
    } else {
        s
    }
}

/// `s` without leading and trailing white space.
pub open spec fn trim(s: Seq<char>) -> Seq<char> {
    trim_end(trim_start(s))
}

/// The pieces of `s` between occurrences of `sep`: one more piece than
/// there are separators, empty pieces included.
pub open spec fn split(s: Seq<char>, sep: char) -> Seq<Seq<char>>
    decreases s.len(),
{
    if s.len() == 0 {
        seq![Seq::empty()]
    } else {
        let pieces = split(s.drop_last(), sep);
        if s.last() == sep {
            pieces.push(Seq::empty())
        } else {
            pieces.update(pieces.len() - 1, pieces.last().push(s.last()))
        }
    }
}

/// The trimmed comma-separated fields of one line.
pub open spec fn fields(line: Seq<char>) -> Seq<Seq<char>> {
    split(line, ',').map_values(|field: Seq<char>| trim(field))
}

/// The fields of every line that holds more than white space.
pub open spec fn table(lines: Seq<Seq<char>>) -> Seq<Seq<Seq<char>>>
    decreases lines.len(),
{
    if lines.len() == 0 {
        Seq::empty()
    } else if trim(lines.last()).len() == 0 {
        table(lines.drop_last())
    } else {
        table(lines.drop_last()).push(fields(lines.last()))
    }
}

/// The cells of a comma-separated text: lines are separated by `'\n'`,
/// blank lines are skipped, and each cell is trimmed.
pub open spec fn csv_cells(content: Seq<char>) -> Seq<Seq<Seq<char>>> {
    table(split(content, '\n'))
}

/// The contents of a table of cells.
pub open spec fn table_view(rows: Seq<Vec<Vec<char>>>) -> Seq<Seq<Seq<char>>> {
    rows.map_values(|row: Vec<Vec<char>>| rows_view(row@))
}

/// Trimming the start removes a run of leading white space and stops at the
/// first character that is not white space.
proof fn lemma_trim_start_cut(s: Seq<char>) -> (i: int)
    ensures
        0 <= i <= s.len(),
        trim_start(s) == s.subrange(i, s.len() as int),
        forall|k: int| 0 <= k < i ==> is_white_space(#[trigger] s[k]),
        i < s.len() ==> !is_white_space(s[i]),
    decreases s.len(),
{
    if s.len() > 0 && is_white_space(s[0]) {
        let i0 = lemma_trim_start_cut(s.drop_first());
        assert(s.drop_first().subrange(i0, s.len() - 1) =~= s.subrange(i0 + 1, s.len() as int));
        assert forall|k: int| 0 <= k < i0 + 1 implies is_white_space(#[trigger] s[k]) by {
            if k > 0 {
                assert(s[k] == s.drop_first()[k - 1]);
            }
        }
        assert(s[i0 + 1] == s.drop_first()[i0] || i0 + 1 >= s.len());
        i0 + 1
    } else {
        assert(s.subrange(0, s.len() as int) =~= s);
        0
    }
}

/// Trimming the end removes a run of trailing white space and stops at the
/// last character that is not white space.
proof fn lemma_trim_end_cut(s: Seq<char>) -> (j: int)
    ensures
        0 <= j <= s.len(),
        trim_end(s) == s.subrange(0, j),
        forall|k: int| j <= k < s.len() ==> is_white_space(#[trigger] s[k]),
        j > 0 ==> !is_white_space(s[j - 1]),
    decreases s.len(),
{
    if s.len() > 0 && is_white_space(s.last()) {
        let j0 = lemma_trim_end_cut(s.drop_last());
        assert(s.drop_last().subrange(0, j0) =~= s.subrange(0, j0));
        assert forall|k: int| j0 <= k < s.len() implies is_white_space(#[trigger] s[k]) by {
            if k < s.len() - 1 {
                assert(s[k] == s.drop_last()[k]);
            }
        }
        j0
    } else {
        assert(s.subrange(0, s.len() as int) =~= s);
        s.len() as int
    }
}

/// Trimming cuts white space, and only white space, from both ends, and
/// all of it: the result is a stretch of `s` that neither starts nor ends
/// with white space, and everything of `s` before and after it is white space.
pub proof fn lemma_trim_strips_white_space(s: Seq<char>)
    ensures
        trim(s).len() == 0 || !is_white_space(trim(s)[0]),
        trim(s).len() == 0 || !is_white_space(trim(s).last()),
        exists|i: int, j: int| {
            &&& 0 <= i <= j <= s.len()
            &&& #[trigger] s.subrange(i, j) == trim(s)
            &&& forall|k: int| 0 <= k < i ==> is_white_space(#[trigger] s[k])
            &&& forall|k: int| j <= k < s.len() ==> is_white_space(#[trigger] s[k])
        },
{
    let i = lemma_trim_start_cut(s);
    let rest = s.subrange(i, s.len() as int);
    let j = lemma_trim_end_cut(rest);
    assert(rest.subrange(0, j) =~= s.subrange(i, i + j));
    assert forall|k: int| i + j <= k < s.len() implies is_white_space(#[trigger] s[k]) by {
        assert(s[k] == rest[k - i]);
    }
    if j > 0 {
        assert(trim(s)[0] == s[i]);
        assert(trim(s).last() == rest[j - 1]);
    }
    assert(s.subrange(i, i + j) == trim(s));
}

/// Whether `c` is white space.
pub fn is_whitespace(c: char) -> (white: bool)
    ensures
        white == is_white_space(c),
{
    c == ' '
        || ('\t' <= c && c <= '\r')
        || c == '\u{85}'
        || c == '\u{a0}'
        || c == '\u{1680}'
        || ('\u{2000}' <= c && c <= '\u{200a}')
        || c == '\u{2028}'
        || c == '\u{2029}'
        || c == '\u{202f}'
        || c == '\u{205f}'
        || c == '\u{3000}'
}

/// `s` without leading and trailing white space.
pub fn trim_chars(s: &[char]) -> (trimmed: Vec<char>)
    ensures
        trimmed@ == trim(s@),
        trimmed@.len() == 0 || !is_white_space(trimmed@[0]),
        trimmed@.len() == 0 || !is_white_space(trimmed@.last()),
        exists|i: int, j: int| {
            &&& 0 <= i <= j <= s@.len()
            &&& #[trigger] s@.subrange(i, j) == trimmed@
            &&& forall|k: int| 0 <= k < i ==> is_white_space(#[trigger] s@[k])
            &&& forall|k: int| j <= k < s@.len() ==> is_white_space(#[trigger] s@[k])
        },
{
    proof { lemma_trim_strips_white_space(s@); }
    let n = s.len();
    let mut start: usize = 0;
    assert(s@.subrange(0, n as int) =~= s@);
    while start < n && is_whitespace(s[start])
        invariant
            n == s@.len(),
            start <= n,
            trim_start(s@.subrange(start as int, n as int)) == trim_start(s@),
        decreases n - start,
    {
        assert(s@.subrange(start as int, n as int).drop_first() =~= s@.subrange(start + 1, n as int));
        start = start + 1;
    }
    assert(trim_start(s@) == s@.subrange(start as int, n as int));
    let ghost rest = s@.subrange(start as int, n as int);
    let mut end: usize = n;
    while end > start && is_whitespace(s[end - 1])
        invariant
            n == s@.len(),
            start <= end <= n,
            rest == s@.subrange(start as int, n as int),
            trim_end(s@.subrange(start as int, end as int)) == trim_end(rest),
        decreases end - start,
    {
        assert(s@.subrange(start as int, end as int).drop_last() =~= s@.subrange(start as int, end - 1));
        end = end - 1;
    }
    assert(trim_end(rest) == s@.subrange(start as int, end as int));
    slice_to_vec(&s[start..end])
}

/// The pieces of `s` between occurrences of `sep`.
pub fn split_chars(s: &[char], sep: char) -> (pieces: Vec<Vec<char>>)
    ensures
        rows_view(pieces@) == split(s@, sep),
{
    let n = s.len();
    let mut pieces: Vec<Vec<char>> = Vec::new();
    let mut current: Vec<char> = Vec::new();
    let mut k: usize = 0;
    assert(s@.take(0) =~= Seq::<char>::empty());
    assert(rows_view(pieces@).push(current@) =~= split(s@.take(0), sep));
    while k < n
        invariant
            n == s@.len(),
            k <= n,
            rows_view(pieces@).push(current@) == split(s@.take(k as int), sep),
        decreases n - k,
    {
        let c = s[k];
        assert(s@.take(k + 1).drop_last() =~= s@.take(k as int));
        let ghost before = rows_view(pieces@);
        let ghost current_before = current@;
        if c == sep {
            pieces.push(current);
            current = Vec::new();
            assert(rows_view(pieces@) =~= before.push(current_before));
            assert(rows_view(pieces@).push(current@) =~= split(s@.take(k + 1), sep));
        } else {
            current.push(c);
            assert(rows_view(pieces@) =~= before);
            assert(rows_view(pieces@).push(current@) =~= split(s@.take(k + 1), sep));
        }
        k = k + 1;
    }
    assert(s@.take(n as int) =~= s@);
    let ghost before = rows_view(pieces@);
    let ghost last = current@;
    pieces.push(current);
    assert(rows_view(pieces@) =~= before.push(last));
    pieces
}

/// The characters of `content`, in order.
fn chars_of(content: &str) -> (chars: Vec<char>)
    ensures
        chars@ == content@,
{
    let mut chars: Vec<char> = Vec::new();
    for c in it: content.chars()
        invariant
            chars@ == it.seq().take(it.index() as int),
    {
        chars.push(c);
    }
    chars
}

/// The trimmed cells of every non-blank line of a comma-separated text.
pub fn csv_table(content: &str) -> (rows: Vec<Vec<Vec<char>>>)
    ensures
        table_view(rows@) == csv_cells(content@),
{
    let chars = chars_of(content);
    let lines = split_chars(chars.as_slice(), '\n');
    let n = lines.len();
    let mut rows: Vec<Vec<Vec<char>>> = Vec::new();
    let mut k: usize = 0;
    while k < n
        invariant
            n == lines@.len(),
            k <= n,
            table_view(rows@) == table(rows_view(lines@).take(k as int)),
        decreases n - k,
    {
        let line = lines[k].as_slice();
        assert(rows_view(lines@).take(k + 1).drop_last() =~= rows_view(lines@).take(k as int));
        assert(rows_view(lines@).take(k + 1).last() == line@);
        let trimmed = trim_chars(line);
        if trimmed.len() > 0 {
            let pieces = split_chars(line, ',');
            let m = pieces.len();
            let mut row: Vec<Vec<char>> = Vec::new();
            let mut j: usize = 0;
            while j < m
                invariant
                    m == pieces@.len(),
                    j <= m,
                    rows_view(row@) == fields(line@).take(j as int),
                    rows_view(pieces@) == split(line@, ','),
                decreases m - j,
            {
                let field = trim_chars(pieces[j].as_slice());
                let ghost before = rows_view(row@);
                row.push(field);
                assert(rows_view(row@) =~= before.push(field@));
                assert(fields(line@).take(j + 1) =~= fields(line@).take(j as int).push(trim(pieces@[j as int]@)));
                j = j + 1;
            }
            assert(fields(line@).take(m as int) =~= fields(line@));
            let ghost before = table_view(rows@);
            rows.push(row);
            assert(table_view(rows@) =~= before.push(fields(line@)));
        }
        k = k + 1;
    }
    assert(rows_view(lines@).take(n as int) =~= rows_view(lines@));
    rows
}

} // verus!
