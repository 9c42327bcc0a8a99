//! The plain-text file format of a document: one row per line, every row
//! followed by a newline on save; on load a "\r\n" ending counts as a newline
//! too, and a last line without a newline is still a row.
use vstd::prelude::*;

verus! {

/// A line ending in a carriage return loses it.
pub open spec fn strip_cr(line: Seq<char>) -> Seq<char> {
    if line.len() > 0 && line.last() == '\r' {
        line.drop_last()
    } else {
        line
    }
}

/// Reading `s` from the start: the lines completed by a newline so far, and
/// the characters of the line still open.
pub open spec fn scan_lines(s: Seq<char>) -> (Seq<Seq<char>>, Seq<char>)
    decreases s.len(),
{
    if s.len() == 0 {
        (Seq::empty(), Seq::empty())
    } else {
        let (done, open) = scan_lines(s.drop_last());
        if s.last() == '\n' {
            (done.push(strip_cr(open)), Seq::empty())
        } else {
            (done, open.push(s.last()))
        }
    }
}

/// The rows a file's text loads as.
pub open spec fn lines_of(s: Seq<char>) -> Seq<Seq<char>> {
    let (done, open) = scan_lines(s);
    if open.len() == 0 {
        done
    } else {
        done.push(open)
    }
}

/// The text a document's rows save as: each row followed by a newline.
pub open spec fn joined(rows: Seq<Seq<char>>) -> Seq<char>
    decreases rows.len(),
{
    if rows.len() == 0 {
        Seq::empty()
    } else {
        joined(rows.drop_last()) + rows.last().push('\n')
    }
}

/// A row that reads back as itself: no newline inside, no carriage return at its end.
pub open spec fn is_plain_row(r: Seq<char>) -> bool {
    &&& forall|i: int| 0 <= i < r.len() ==> r[i] != '\n'
    &&& !(r.len() > 0 && r.last() == '\r')
}

proof fn lemma_scan_append(x: Seq<char>, t: Seq<char>)
    requires
        forall|i: int| 0 <= i < t.len() ==> t[i] != '\n',
    ensures
        scan_lines(x + t) == (scan_lines(x).0, scan_lines(x).1 + t),
    decreases t.len(),
{
    if t.len() == 0 {
        assert(x + t =~= x);
        assert(scan_lines(x).1 + t =~= scan_lines(x).1);
    } else {
        let u = t.drop_last();
        lemma_scan_append(x, u);
        assert((x + t).drop_last() =~= x + u);
        assert((scan_lines(x).1 + u).push(t.last()) =~= scan_lines(x).1 + t);
    }
}

proof fn lemma_scan_joined(rows: Seq<Seq<char>>)
    requires
        forall|i: int| 0 <= i < rows.len() ==> is_plain_row(#[trigger] rows[i]),
    ensures
        scan_lines(joined(rows)) == (rows, Seq::<char>::empty()),
    decreases rows.len(),
{
    if rows.len() == 0 {
        assert(rows =~= Seq::<Seq<char>>::empty());
    } else {
        let p = rows.drop_last();
        let r = rows.last();
        assert(is_plain_row(rows[rows.len() - 1]));
        assert forall|i: int| 0 <= i < p.len() implies is_plain_row(#[trigger] p[i]) by {
            assert(p[i] == rows[i]);
        }
        lemma_scan_joined(p);
        lemma_scan_append(joined(p), r);
        let s = joined(rows);
        assert(s =~= (joined(p) + r).push('\n'));
        assert(s.drop_last() =~= joined(p) + r);
        assert(Seq::<char>::empty() + r =~= r);
        assert(p.push(r) =~= rows);
    }
}

/// Saving rows and loading the saved text gives back the same rows, provided
/// no row holds a newline or ends in a carriage return.
pub proof fn lemma_save_load_round_trip(rows: Seq<Seq<char>>)
    requires
        forall|i: int| 0 <= i < rows.len() ==> is_plain_row(#[trigger] rows[i]),
    ensures
        lines_of(joined(rows)) == rows,
{
    lemma_scan_joined(rows);
}

} // verus!
