//! Lookup in tab-separated data tables: each line holds columns separated by
//! tabs; one column holds space-separated keys, another the value that the
//! keys lead to.
use vstd::prelude::*;

use crate::text::{chars_eq, dedup, lemma_split_len, lines, split, strip_cr};

verus! {

/// Whether a row is kept: it does not start with the comment character.
pub open spec fn row_kept(row: Seq<char>, comment: char) -> bool {
    !(row.len() > 0 && row[0] == comment)
}

/// Values of the kept rows of `rows` that have both columns and whose key
/// column holds `key` among its space-separated words (an empty key matches
/// nothing), in row order.
pub open spec fn matching_values(
    rows: Seq<Seq<char>>,
    comment: char,
    key: Seq<char>,
    key_column: int,
    value_column: int,
) -> Seq<Seq<char>>
    decreases rows.len(),
{
    if rows.len() == 0 {
        seq![]
    } else {
        let rest = matching_values(rows.drop_last(), comment, key, key_column, value_column);
        let row = rows.last();
        let columns = split(row, '\t');
        if row_kept(row, comment) && 0 <= key_column < columns.len() && 0 <= value_column < columns.len()
            && key.len() > 0 && split(columns[key_column], ' ').contains(key) {
            rest.push(columns[value_column])
        } else {
            rest
        }
    }
}

/// Values of all kept rows of `rows` that have both columns, in row order.
pub open spec fn all_values(rows: Seq<Seq<char>>, comment: char, key_column: int, value_column: int) -> Seq<Seq<char>>
    decreases rows.len(),
{
    if rows.len() == 0 {
        seq![]
    } else {
        let rest = all_values(rows.drop_last(), comment, key_column, value_column);
        let row = rows.last();
        let columns = split(row, '\t');
        if row_kept(row, comment) && 0 <= key_column < columns.len() && 0 <= value_column < columns.len() {
            rest.push(columns[value_column])
        } else {
            rest
        }
    }
}

/// The distinct values that `key` leads to in the table `data`, in the order
/// of the rows that first hold them.
pub open spec fn table_lookup(data: Seq<char>, comment: char, key: Seq<char>, key_column: int, value_column: int) -> Seq<Seq<char>> {
    dedup(matching_values(lines(data), comment, key, key_column, value_column))
}

/// The distinct values of all rows of the table `data`.
pub open spec fn table_all(data: Seq<char>, comment: char, key_column: int, value_column: int) -> Seq<Seq<char>> {
    dedup(all_values(lines(data), comment, key_column, value_column))
}

/// Views of a sequence of character vectors.
pub open spec fn char_views(v: Seq<Vec<char>>) -> Seq<Seq<char>> {
    v.map_values(|c: Vec<char>| c@)
}

/// Pieces of `s` between occurrences of `sep`.
pub fn split_chars(s: &Vec<char>, sep: char) -> (r: Vec<Vec<char>>)
    ensures
        char_views(r@) == split(s@, sep),
{
    let mut pieces: Vec<Vec<char>> = Vec::new();
    pieces.push(Vec::new());
    let mut i: usize = 0;
    assert(s@.take(0) =~= Seq::<char>::empty());
    assert(char_views(pieces@) =~= split(s@.take(0), sep));
    while i < s.len()
        invariant
            i <= s.len(),
            pieces@.len() >= 1,
            char_views(pieces@) == split(s@.take(i as int), sep),
        decreases s.len() - i,
    {
        let c = s[i];
        let ghost before = s@.take(i as int);
        i = i + 1;
        let ghost now = s@.take(i as int);
        assert(now.drop_last() =~= before);
        assert(now.last() == c);
        if c == sep {
            pieces.push(Vec::new());
            assert(char_views(pieces@) =~= split(before, sep).push(Seq::<char>::empty()));
        } else {
            let last = pieces.len() - 1;
            let mut piece = pieces.remove(last);
            piece.push(c);
            pieces.push(piece);
            let ghost prev = split(before, sep);
            assert(char_views(pieces@) =~= prev.update(prev.len() - 1, prev.last().push(c)));
        }
    }
    assert(s@.take(i as int) =~= s@);
    pieces
}

/// Lines of `s`, as `str::lines` gives them.
pub fn lines_of(s: &Vec<char>) -> (r: Vec<Vec<char>>)
    ensures
        char_views(r@) == lines(s@),
{
    let pieces = split_chars(s, '\n');
    let ghost all_pieces = split(s@, '\n');
    proof {
        lemma_split_len(s@, '\n');
    }
    let n = pieces.len();
    let ghost ended = all_pieces.drop_last().map_values(|p: Seq<char>| strip_cr(p));
    let mut result: Vec<Vec<char>> = Vec::new();
    let mut i: usize = 0;
    while i + 1 < n
        invariant
            n == pieces@.len(),
            n >= 1,
            i + 1 <= n,
            char_views(pieces@) == all_pieces,
            result@.len() == i,
            forall|k: int| 0 <= k < i ==> (#[trigger] result@[k])@ == strip_cr(all_pieces[k]),
        decreases n - i,
    {
        let mut piece = pieces[i].clone();
        assert(piece@ == all_pieces[i as int]);
        let len = piece.len();
        if len > 0 && piece[len - 1] == '\r' {
            piece.pop();
        }
        result.push(piece);
        i = i + 1;
    }
    assert(char_views(result@) =~= ended);
    assert(pieces@[n - 1]@ == all_pieces.last());
    if pieces[n - 1].len() > 0 {
        result.push(pieces[n - 1].clone());
        assert(char_views(result@) =~= ended.push(all_pieces.last()));
    }
    result
}

/// Whether `v` holds `x`.
pub fn contains_chars(v: &Vec<Vec<char>>, x: &Vec<char>) -> (r: bool)
    ensures
        r == char_views(v@).contains(x@),
{
    let mut i: usize = 0;
    while i < v.len()
        invariant
            i <= v.len(),
            forall|k: int| 0 <= k < i ==> v@[k]@ != x@,
        decreases v.len() - i,
    {
        if chars_eq(&v[i], x) {
            assert(char_views(v@)[i as int] == x@);
            return true;
        }
        i = i + 1;
    }
    assert(!char_views(v@).contains(x@)) by {
        if char_views(v@).contains(x@) {
            let k = choose|k: int| 0 <= k < char_views(v@).len() && char_views(v@)[k] == x@;
            assert(v@[k]@ == x@);
        }
    }
    false
}

/// Appends `x` unless it is already present; keeps a deduplicated sequence
/// deduplicated.
fn push_new(out: &mut Vec<Vec<char>>, x: Vec<char>, ghost_all: Ghost<Seq<Seq<char>>>)
    requires
        char_views(old(out)@) == dedup(ghost_all@),
    ensures
        char_views(final(out)@) == dedup(ghost_all@.push(x@)),
{
    let ghost all = ghost_all@;
    assert(ghost_all@.push(x@).drop_last() =~= all);
    if !contains_chars(out, &x) {
        out.push(x);
        assert(char_views(out@) =~= char_views(old(out)@).push(x@));
    }
}

/// The distinct values that `key` leads to in the table `data`; see [`table_lookup`].
pub fn lookup_table(data: &Vec<char>, comment: char, key: &Vec<char>, key_column: usize, value_column: usize) -> (r: Vec<Vec<char>>)
    ensures
        char_views(r@) == table_lookup(data@, comment, key@, key_column as int, value_column as int),
{
    let rows = lines_of(data);
    let ghost all_rows = lines(data@);
    let mut out: Vec<Vec<char>> = Vec::new();
    let mut i: usize = 0;
    assert(all_rows.take(0) =~= Seq::<Seq<char>>::empty());
    while i < rows.len()
        invariant
            i <= rows@.len(),
            char_views(rows@) == all_rows,
            char_views(out@) == dedup(matching_values(all_rows.take(i as int), comment, key@, key_column as int, value_column as int)),
        decreases rows.len() - i,
    {
        let ghost before = all_rows.take(i as int);
        let row = &rows[i];
        assert(row@ == all_rows[i as int]);
        let ghost now = all_rows.take(i as int + 1);
        assert(now.drop_last() =~= before);
        assert(now.last() == row@);
        let ghost prior = matching_values(before, comment, key@, key_column as int, value_column as int);
        let kept = !(row.len() > 0 && row[0] == comment);
        let columns = split_chars(row, '\t');
        if kept && key_column < columns.len() && value_column < columns.len() && key.len() > 0 {
            let words = split_chars(&columns[key_column], ' ');
            assert(columns@[key_column as int]@ == split(row@, '\t')[key_column as int]);
            if contains_chars(&words, key) {
                assert(columns@[value_column as int]@ == split(row@, '\t')[value_column as int]);
                push_new(&mut out, columns[value_column].clone(), Ghost(prior));
            }
        }
        i = i + 1;
    }
    assert(all_rows.take(i as int) =~= all_rows);
    out
}

/// The distinct values of all rows of the table `data`; see [`table_all`].
pub fn all_table_values(data: &Vec<char>, comment: char, key_column: usize, value_column: usize) -> (r: Vec<Vec<char>>)
    ensures
        char_views(r@) == table_all(data@, comment, key_column as int, value_column as int),
{
    let rows = lines_of(data);
    let ghost all_rows = lines(data@);
    let mut out: Vec<Vec<char>> = Vec::new();
    let mut i: usize = 0;
    assert(all_rows.take(0) =~= Seq::<Seq<char>>::empty());
    while i < rows.len()
        invariant
            i <= rows@.len(),
            char_views(rows@) == all_rows,
            char_views(out@) == dedup(all_values(all_rows.take(i as int), comment, key_column as int, value_column as int)),
        decreases rows.len() - i,
    {
        let ghost before = all_rows.take(i as int);
        let row = &rows[i];
        assert(row@ == all_rows[i as int]);
        let ghost now = all_rows.take(i as int + 1);
        assert(now.drop_last() =~= before);
        assert(now.last() == row@);
        let ghost prior = all_values(before, comment, key_column as int, value_column as int);
        let kept = !(row.len() > 0 && row[0] == comment);
        let columns = split_chars(row, '\t');
        if kept && key_column < columns.len() && value_column < columns.len() {
            assert(columns@[value_column as int]@ == split(row@, '\t')[value_column as int]);
            push_new(&mut out, columns[value_column].clone(), Ghost(prior));
        }
        i = i + 1;
    }
    assert(all_rows.take(i as int) =~= all_rows);
    out
}


proof fn lemma_dedup(s: Seq<Seq<char>>)
    ensures
        dedup(s).no_duplicates(),
        forall|x: Seq<char>| #[trigger] dedup(s).contains(x) <==> s.contains(x),
    decreases s.len(),
{
    if s.len() > 0 {
        let rest = dedup(s.drop_last());
        lemma_dedup(s.drop_last());
        let r = dedup(s);
        assert forall|x: Seq<char>| #[trigger] r.contains(x) <==> s.contains(x) by {
            if r.contains(x) {
                let k = choose|k: int| 0 <= k < r.len() && r[k] == x;
                if k < rest.len() {
                    assert(rest[k] == x);
                    assert(rest.contains(x));
                    let m = choose|m: int| 0 <= m < s.len() - 1 && s.drop_last()[m] == x;
                    assert(s[m] == x);
                } else {
                    assert(s[s.len() - 1] == x);
                }
            }
            if s.contains(x) {
                let k = choose|k: int| 0 <= k < s.len() && s[k] == x;
                if k < s.len() - 1 {
                    assert(s.drop_last()[k] == x);
                    assert(rest.contains(x));
                    let m = choose|m: int| 0 <= m < rest.len() && rest[m] == x;
                    assert(r[m] == x);
                } else if rest.contains(x) {
                    let m = choose|m: int| 0 <= m < rest.len() && rest[m] == x;
                    assert(r[m] == x);
                } else {
                    assert(r[r.len() - 1] == x);
                }
            }
        }
        if !rest.contains(s.last()) {
            assert forall|i: int, j: int| 0 <= i < j < r.len() implies r[i] != r[j] by {
                if j == rest.len() {
                    assert(rest[i] == r[i]);
                    assert(rest.contains(r[i]));
                }
            }
        }
    }
}

proof fn lemma_matching_within_all(rows: Seq<Seq<char>>, comment: char, key: Seq<char>, key_column: int, value_column: int)
    ensures
        forall|x: Seq<char>| #[trigger]
            matching_values(rows, comment, key, key_column, value_column).contains(x) ==> all_values(
                rows,
                comment,
                key_column,
                value_column,
            ).contains(x),
    decreases rows.len(),
{
    if rows.len() > 0 {
        lemma_matching_within_all(rows.drop_last(), comment, key, key_column, value_column);
        let m = matching_values(rows, comment, key, key_column, value_column);
        let a = all_values(rows, comment, key_column, value_column);
        let m0 = matching_values(rows.drop_last(), comment, key, key_column, value_column);
        let a0 = all_values(rows.drop_last(), comment, key_column, value_column);
        assert forall|x: Seq<char>| #[trigger] m.contains(x) implies a.contains(x) by {
            let k = choose|k: int| 0 <= k < m.len() && m[k] == x;
            if k < m0.len() {
                assert(m0[k] == x);
                assert(m0.contains(x));
                assert(a0.contains(x));
                let j = choose|j: int| 0 <= j < a0.len() && a0[j] == x;
                assert(a[j] == x);
            } else {
                assert(a[a.len() - 1] == x);
            }
        }
    }
}

/// Looking a key up in a table gives distinct values, each of them among
/// the table's distinct values.
pub proof fn lemma_table_lookup_within_all(
    data: Seq<char>,
    comment: char,
    key: Seq<char>,
    key_column: int,
    value_column: int,
)
    ensures
        table_lookup(data, comment, key, key_column, value_column).no_duplicates(),
        table_all(data, comment, key_column, value_column).no_duplicates(),
        forall|x: Seq<char>| #[trigger]
            table_lookup(data, comment, key, key_column, value_column).contains(x) ==> table_all(
                data,
                comment,
                key_column,
                value_column,
            ).contains(x),
{
    let rows = lines(data);
    lemma_dedup(matching_values(rows, comment, key, key_column, value_column));
    lemma_dedup(all_values(rows, comment, key_column, value_column));
    lemma_matching_within_all(rows, comment, key, key_column, value_column);
}

} // verus!
