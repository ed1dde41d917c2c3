use vstd::prelude::*;

use crate::chars::{chars_of, extend_range, slice_of, string_of};
use crate::gap_buffer::concat_all;
use crate::point::{point_lt, Point};

verus! {

/// The ways in which an operation of the line-array buffer can fail.
#[derive(Clone, Copy, Debug, PartialEq, Eq, Structural)]
pub enum BufErr {
    InvalidPoint,
    InvalidStartPoint,
    InvalidEndPoint,
    InvalidDeletionLength,
}

impl BufErr {
    /// A short human-readable description of the error.
    pub fn message(&self) -> (m: &'static str)
        ensures
            m@ == buf_err_message(*self)@,
    {
        match self {
            BufErr::InvalidPoint => "invalid point",
            BufErr::InvalidStartPoint => "invalid start point",
            BufErr::InvalidEndPoint => "invalid end point",
            BufErr::InvalidDeletionLength => "invalid deletion length",
        }
    }
}

/// The description of each error.
pub open spec fn buf_err_message(e: BufErr) -> &'static str {
    match e {
        BufErr::InvalidPoint => "invalid point",
        BufErr::InvalidStartPoint => "invalid start point",
        BufErr::InvalidEndPoint => "invalid end point",
        BufErr::InvalidDeletionLength => "invalid deletion length",
    }
}

/// One line reported by an edit: its row and its full text after the edit.
#[derive(Debug, PartialEq)]
pub struct Line {
    pub line: String,
    pub number: usize,
}

impl Line {
    pub fn new(number: usize, line: String) -> (l: Line)
        ensures
            l.number == number,
            l.line@ == line@,
    {
        Line { number, line }
    }
}

/// Values that can be turned into a reported line.
pub trait IntoLine: Sized {
    /// The text that the reported line will hold.
    spec fn line_text(&self) -> Seq<char>;

    fn into_line(self, number: usize) -> (l: Line)
        ensures
            l.number == number,
            l.line@ == self.line_text(),
    ;
}

impl IntoLine for String {
    open spec fn line_text(&self) -> Seq<char> {
        self@
    }

    fn into_line(self, number: usize) -> (l: Line) {
        Line { number, line: self }
    }
}

impl<'a> IntoLine for &'a str {
    open spec fn line_text(&self) -> Seq<char> {
        self@
    }

    fn into_line(self, number: usize) -> (l: Line) {
        Line { number, line: String::from_str(self) }
    }
}

/// The pieces of `s` between its newlines, in order; the newlines themselves
/// are dropped. There is always at least one piece.
pub open spec fn split_nl(s: Seq<char>) -> Seq<Seq<char>>
    decreases s.len(),
{
    if s.len() == 0 {
        seq![Seq::empty()]
    } else {
        let pre = split_nl(s.drop_last());
        if s.last() == '\n' {
            pre.push(Seq::empty())
        } else {
            pre.update(pre.len() - 1, pre.last().push(s.last()))
        }
    }
}

/// The serialized form of a sequence of lines: each line followed by a newline.
pub open spec fn joined(ls: Seq<Seq<char>>) -> Seq<char>
    decreases ls.len(),
{
    if ls.len() == 0 {
        Seq::empty()
    } else {
        joined(ls.drop_last()) + ls.last().push('\n')
    }
}

/// The abstract contents of a vector of character vectors.
pub open spec fn rows_of(v: Seq<Vec<char>>) -> Seq<Seq<char>> {
    v.map_values(|l: Vec<char>| l@)
}

/// `p` addresses a position of the document `ls`: a column within an existing
/// line (its end included), or the start of the row just past the last line.
pub open spec fn valid_point(ls: Seq<Seq<char>>, p: Point) -> bool {
    (p.r < ls.len() && p.c <= ls[p.r as int].len()) || (p.r == ls.len() && p.c == 0)
}

/// The text between two valid points `s` and `e` with `s` not after `e`.
pub open spec fn region_text(ls: Seq<Seq<char>>, s: Point, e: Point) -> Seq<char> {
    if s == e {
        Seq::empty()
    } else if s.r == e.r {
        ls[s.r as int].subrange(s.c as int, e.c as int)
    } else {
        ls[s.r as int].subrange(s.c as int, ls[s.r as int].len() as int).push('\n') + joined(
            ls.subrange(s.r + 1, e.r as int),
        ) + if e.c != 0 {
            ls[e.r as int].subrange(0, e.c as int)
        } else {
            Seq::empty()
        }
    }
}

/// What extracting or deleting the region from `s` to `e` yields: the
/// region's text, or the first check that the two points fail.
pub open spec fn region_result(ls: Seq<Seq<char>>, s: Point, e: Point) -> Result<
    Seq<char>,
    BufErr,
> {
    if !valid_point(ls, s) {
        Err(BufErr::InvalidStartPoint)
    } else if !valid_point(ls, e) {
        Err(BufErr::InvalidEndPoint)
    } else if point_lt(e, s) {
        Err(BufErr::InvalidDeletionLength)
    } else {
        Ok(region_text(ls, s, e))
    }
}

/// The abstract view of a returned text.
pub open spec fn text_result(r: Result<String, BufErr>) -> Result<Seq<char>, BufErr> {
    match r {
        Ok(t) => Ok(t@),
        Err(e) => Err(e),
    }
}

/// The lines that a document read from `s` holds: the pieces between its
/// newlines, without the empty piece that a final newline leaves.
pub open spec fn lines_of_text(s: Seq<char>) -> Seq<Seq<char>> {
    if s.len() > 0 && s.last() == '\n' {
        split_nl(s).drop_last()
    } else {
        split_nl(s)
    }
}

/// The length counter of a document read from `s`: a final newline is
/// counted even when `s` lacks one.
pub open spec fn text_len_of_text(s: Seq<char>) -> nat {
    if s.len() > 0 && s.last() == '\n' {
        s.len()
    } else {
        s.len() + 1
    }
}

/// The document `ls` after the pieces `segs` of an inserted text (see
/// `split_nl`) are put in at `p`. At the row past the last line the pieces
/// become new lines, without the empty piece that a final newline leaves.
/// Inside a line the first piece joins the text before `p`, the last piece
/// joins the text after it, and the pieces between become lines of their own.
pub open spec fn inserted_rows(ls: Seq<Seq<char>>, segs: Seq<Seq<char>>, p: Point) -> Seq<
    Seq<char>,
> {
    let k = segs.len();
    if p.r == ls.len() {
        if segs.last().len() == 0 {
            ls + segs.drop_last()
        } else {
            ls + segs
        }
    } else {
        let line = ls[p.r as int];
        let before = line.subrange(0, p.c as int);
        let after = line.subrange(p.c as int, line.len() as int);
        if k == 1 {
            ls.update(p.r as int, before + segs[0] + after)
        } else {
            ls.subrange(0, p.r as int) + seq![before + segs[0]] + segs.subrange(1, k - 1) + seq![
                segs[k - 1] + after,
            ] + ls.subrange(p.r + 1, ls.len() as int)
        }
    }
}

/// The document `ls` once the region from `s` to `e` is taken out. When the
/// region ends inside the document, what remains of `e`'s line joins what
/// remains of `s`'s line; when it ends past the last line, `s`'s line keeps
/// only its text before `s`.
pub open spec fn deleted_rows(ls: Seq<Seq<char>>, s: Point, e: Point) -> Seq<Seq<char>> {
    let first = ls[s.r as int];
    let before = first.subrange(0, s.c as int);
    if s == e {
        ls
    } else if s.r == e.r {
        ls.update(s.r as int, before + first.subrange(e.c as int, first.len() as int))
    } else if e.r < ls.len() {
        let last = ls[e.r as int];
        ls.subrange(0, s.r as int) + seq![before + last.subrange(e.c as int, last.len() as int)]
            + ls.subrange(e.r + 1, ls.len() as int)
    } else {
        ls.subrange(0, s.r as int) + seq![before]
    }
}

/// The length counter after the region from `s` to `e`, of `removed`
/// characters, is deleted: it drops by `removed` and stays at least one.
/// An empty region leaves it as it was.
pub open spec fn deleted_len(text_len: nat, s: Point, e: Point, removed: nat) -> nat {
    if s == e {
        text_len
    } else if text_len > removed {
        (text_len - removed) as nat
    } else {
        1
    }
}

/// How many lines an insertion of `segs` at `p` reports: one per piece,
/// less the empty piece that a final newline leaves at the end of the document.
pub open spec fn reported_count(ls: Seq<Seq<char>>, segs: Seq<Seq<char>>, p: Point) -> nat {
    if p.r == ls.len() && segs.last().len() == 0 {
        (segs.len() - 1) as nat
    } else {
        segs.len()
    }
}

/// How much an insertion of `s` at `p` adds to the length counter: the
/// length of `s`, and one more for the newline that ends a new last line
/// which `s` does not end.
pub open spec fn inserted_len(ls: Seq<Seq<char>>, s: Seq<char>, p: Point) -> nat {
    if p.r == ls.len() && split_nl(s).last().len() != 0 {
        s.len() + 1
    } else {
        s.len()
    }
}

/// `after` is `before` once `s` is inserted at `p`, and `lines` is what the
/// insertion reports: the rows from `p`'s row on that it wrote, with their text.
pub open spec fn inserted(before: Buffer, after: Buffer, s: Seq<char>, p: Point, lines: Seq<Line>) -> bool {
    let segs = split_nl(s);
    &&& after.rows() == inserted_rows(before.rows(), segs, p)
    &&& after.text_len == before.text_len + inserted_len(before.rows(), s, p)
    &&& after.point == before.point
    &&& lines.len() == reported_count(before.rows(), segs, p)
    &&& reports_rows(lines, after.rows(), p.r as int)
}

/// `lines` reports rows `first`, `first + 1`, ... of `ls`, with their text.
pub open spec fn reports_rows(lines: Seq<Line>, ls: Seq<Seq<char>>, first: int) -> bool {
    forall|i: int|
        0 <= i < lines.len() ==> #[trigger] lines[i].number == first + i && first + i < ls.len()
            && lines[i].line@ == ls[first + i]
}

pub proof fn lemma_joined_concat(a: Seq<Seq<char>>, b: Seq<Seq<char>>)
    ensures
        joined(a + b) == joined(a) + joined(b),
    decreases b.len(),
{
    if b.len() == 0 {
        assert(a + b =~= a);
        assert(joined(a) + joined(b) =~= joined(a));
    } else {
        assert((a + b).drop_last() =~= a + b.drop_last());
        lemma_joined_concat(a, b.drop_last());
        assert(joined(a + b) =~= joined(a) + joined(b));
    }
}

pub proof fn lemma_split_nl_nonempty(s: Seq<char>)
    ensures
        split_nl(s).len() >= 1,
    decreases s.len(),
{
    if s.len() > 0 {
        lemma_split_nl_nonempty(s.drop_last());
    }
}

pub proof fn lemma_joined_step(ls: Seq<Seq<char>>, a: int, i: int)
    requires
        0 <= a <= i < ls.len(),
    ensures
        joined(ls.subrange(a, i + 1)) == joined(ls.subrange(a, i)) + ls[i].push('\n'),
{
    assert(ls.subrange(a, i + 1).drop_last() == ls.subrange(a, i));
}

/// Puts the lines `s` into `v` at `offset`, in order.
fn push_multiple(v: &mut Vec<Vec<char>>, offset: usize, s: Vec<Vec<char>>)
    requires
        offset <= old(v)@.len(),
    ensures
        rows_of(final(v)@) == rows_of(old(v)@.subrange(0, offset as int)) + rows_of(s@) + rows_of(
            old(v)@.subrange(offset as int, old(v)@.len() as int),
        ),
{
    let ghost orig = s@;
    let ghost head = old(v)@.subrange(0, offset as int);
    let ghost tail = old(v)@.subrange(offset as int, old(v)@.len() as int);
    let mut s = s;
    assert(v@ =~= head + orig.subrange(s@.len() as int, orig.len() as int) + tail);
    while s.len() > 0
        invariant
            offset == head.len(),
            s@ == orig.subrange(0, s@.len() as int),
            s@.len() <= orig.len(),
            v@ == head + orig.subrange(s@.len() as int, orig.len() as int) + tail,
        decreases s@.len(),
    {
        let x = s.pop().unwrap();
        v.insert(offset, x);
        assert(v@ =~= head + orig.subrange(s@.len() as int, orig.len() as int) + tail);
    }
    assert(orig.subrange(0, orig.len() as int) == orig);
    assert(rows_of(v@) =~= rows_of(head) + rows_of(orig) + rows_of(tail));
}

/// The lines of a buffer, starting empty, after each of `texts` is inserted
/// in turn at the position past its last line.
pub open spec fn rows_after_appends(texts: Seq<Seq<char>>) -> Seq<Seq<char>>
    decreases texts.len(),
{
    if texts.len() == 0 {
        Seq::empty()
    } else {
        let ls = rows_after_appends(texts.drop_last());
        inserted_rows(ls, split_nl(texts.last()), Point { r: ls.len() as usize, c: 0 })
    }
}

/// Rejoining the pieces of `s` at newlines gives `s` back.
pub proof fn lemma_split_nl_rejoin(s: Seq<char>)
    ensures
        split_nl(s).len() >= 1,
        joined(split_nl(s).drop_last()) + split_nl(s).last() == s,
    decreases s.len(),
{
    if s.len() == 0 {
        assert(split_nl(s).drop_last() =~= Seq::<Seq<char>>::empty());
        assert(joined(Seq::<Seq<char>>::empty()) + Seq::<char>::empty() =~= s);
    } else {
        let s0 = s.drop_last();
        lemma_split_nl_rejoin(s0);
        let pre = split_nl(s0);
        assert(s =~= s0.push(s.last()));
        if s.last() == '\n' {
            assert(split_nl(s).drop_last() =~= pre);
            assert(joined(pre) == joined(pre.drop_last()) + pre.last().push('\n'));
            assert(joined(pre) + Seq::<char>::empty() =~= s);
        } else {
            assert(split_nl(s).drop_last() =~= pre.drop_last());
            assert(split_nl(s).last() == pre.last().push(s.last()));
            assert(joined(pre.drop_last()) + pre.last().push(s.last()) =~= s);
        }
    }
}

/// A document has no more lines than characters.
pub proof fn lemma_rows_le_joined(ls: Seq<Seq<char>>)
    ensures
        ls.len() <= joined(ls).len(),
    decreases ls.len(),
{
    if ls.len() > 0 {
        lemma_rows_le_joined(ls.drop_last());
    }
}

/// Inserting at the position past the last line a text that is empty or
/// ends with a newline appends exactly that text to the document.
pub proof fn lemma_append_at_end(ls: Seq<Seq<char>>, s: Seq<char>)
    requires
        s.len() == 0 || s.last() == '\n',
        ls.len() <= usize::MAX,
    ensures
        joined(inserted_rows(ls, split_nl(s), Point { r: ls.len() as usize, c: 0 })) == joined(ls)
            + s,
{
    lemma_split_nl_rejoin(s);
    let segs = split_nl(s);
    let p = Point { r: ls.len() as usize, c: 0 };
    if s.len() == 0 {
        assert(segs =~= seq![Seq::<char>::empty()]);
        assert(inserted_rows(ls, segs, p) == ls + segs.drop_last());
        assert(ls + segs.drop_last() =~= ls);
        assert(joined(ls) + s =~= joined(ls));
    } else {
        let s0 = s.drop_last();
        assert(segs == split_nl(s0).push(Seq::empty()));
        assert(segs.last() =~= Seq::<char>::empty());
        assert(inserted_rows(ls, segs, p) == ls + segs.drop_last());
        lemma_joined_concat(ls, segs.drop_last());
        assert(joined(segs.drop_last()) + Seq::<char>::empty() =~= joined(segs.drop_last()));
    }
}

/// Inserting texts that each end with a newline (or are empty) one after
/// another at the end of an empty buffer serializes to exactly their
/// concatenation.
pub proof fn lemma_appends_round_trip(texts: Seq<Seq<char>>)
    requires
        forall|i: int| 0 <= i < texts.len() ==> #[trigger] texts[i].len() == 0 || texts[i].last() == '\n',
        concat_all(texts).len() <= usize::MAX,
    ensures
        joined(rows_after_appends(texts)) == concat_all(texts),
    decreases texts.len(),
{
    if texts.len() == 0 {
        assert(joined(Seq::<Seq<char>>::empty()) =~= Seq::<char>::empty());
    } else {
        let init = texts.drop_last();
        assert forall|i: int| 0 <= i < init.len() implies #[trigger] init[i].len() == 0
            || init[i].last() == '\n' by {
            assert(init[i] == texts[i]);
        }
        lemma_appends_round_trip(init);
        let last = texts[texts.len() - 1];
        assert(last.len() == 0 || last.last() == '\n');
        let ls = rows_after_appends(init);
        lemma_rows_le_joined(ls);
        lemma_append_at_end(ls, texts.last());
    }
}

/// An empty region yields the empty text, and deleting it changes neither
/// the lines nor the length counter.
pub proof fn lemma_empty_region(ls: Seq<Seq<char>>, p: Point, text_len: nat)
    requires
        valid_point(ls, p),
    ensures
        region_result(ls, p, p) == Ok::<Seq<char>, BufErr>(Seq::empty()),
        deleted_rows(ls, p, p) == ls,
        deleted_len(text_len, p, p, 0) == text_len,
{
}

/// The document text before point `p`.
pub open spec fn text_before(ls: Seq<Seq<char>>, p: Point) -> Seq<char> {
    joined(ls.subrange(0, p.r as int)) + ls[p.r as int].subrange(0, p.c as int)
}

/// The document text from point `p` on, for a point inside a line.
pub open spec fn text_from(ls: Seq<Seq<char>>, p: Point) -> Seq<char> {
    ls[p.r as int].subrange(p.c as int, ls[p.r as int].len() as int).push('\n') + joined(
        ls.subrange(p.r + 1, ls.len() as int),
    )
}

pub proof fn lemma_joined_one(x: Seq<char>)
    ensures
        joined(seq![x]) == x.push('\n'),
{
    assert(seq![x].drop_last() =~= Seq::<Seq<char>>::empty());
    assert(joined(Seq::<Seq<char>>::empty()) =~= Seq::<char>::empty());
    assert(joined(seq![x]) =~= x.push('\n'));
}

pub proof fn lemma_joined_cons(ls: Seq<Seq<char>>, i: int)
    requires
        0 <= i < ls.len(),
    ensures
        joined(ls.subrange(i, ls.len() as int)) == ls[i].push('\n') + joined(
            ls.subrange(i + 1, ls.len() as int),
        ),
{
    lemma_joined_one(ls[i]);
    lemma_joined_concat(seq![ls[i]], ls.subrange(i + 1, ls.len() as int));
    assert(seq![ls[i]] + ls.subrange(i + 1, ls.len() as int) =~= ls.subrange(i, ls.len() as int));
}

pub proof fn lemma_joined_split_at(ls: Seq<Seq<char>>, p: Point)
    requires
        p.r < ls.len(),
        p.c <= ls[p.r as int].len(),
    ensures
        joined(ls) == text_before(ls, p) + text_from(ls, p),
{
    let r = p.r as int;
    let line = ls[r];
    lemma_joined_concat(ls.subrange(0, r), ls.subrange(r, ls.len() as int));
    assert(ls.subrange(0, r) + ls.subrange(r, ls.len() as int) =~= ls);
    lemma_joined_cons(ls, r);
    assert(line =~= line.subrange(0, p.c as int) + line.subrange(p.c as int, line.len() as int));
    assert(joined(ls) =~= text_before(ls, p) + text_from(ls, p));
}

/// The text from `s` on is the region from `s` to `e`, then the text from `e` on.
proof fn lemma_text_from_region(ls: Seq<Seq<char>>, s: Point, e: Point)
    requires
        valid_point(ls, s),
        valid_point(ls, e),
        !point_lt(e, s),
        e.r < ls.len(),
    ensures
        text_from(ls, s) == region_text(ls, s, e) + text_from(ls, e),
{
    let first = ls[s.r as int];
    let last = ls[e.r as int];
    if s == e {
        assert(region_text(ls, s, e) + text_from(ls, e) =~= text_from(ls, e));
    } else if s.r == e.r {
        assert(first.subrange(s.c as int, first.len() as int) =~= first.subrange(
            s.c as int,
            e.c as int,
        ) + first.subrange(e.c as int, first.len() as int));
        assert(text_from(ls, s) =~= region_text(ls, s, e) + text_from(ls, e));
    } else {
        let mid = ls.subrange(s.r + 1, e.r as int);
        lemma_joined_concat(mid, ls.subrange(e.r as int, ls.len() as int));
        assert(mid + ls.subrange(e.r as int, ls.len() as int) =~= ls.subrange(
            s.r + 1,
            ls.len() as int,
        ));
        lemma_joined_cons(ls, e.r as int);
        assert(last =~= last.subrange(0, e.c as int) + last.subrange(e.c as int, last.len() as int));
        let tail = if e.c != 0 {
            last.subrange(0, e.c as int)
        } else {
            Seq::<char>::empty()
        };
        assert(tail =~= last.subrange(0, e.c as int));
        assert(text_from(ls, s) =~= region_text(ls, s, e) + text_from(ls, e));
    }
}

/// What a deletion of the region from `s` to `e` leaves is the text before
/// `s`, then the text from `e` on.
proof fn lemma_deleted_text(ls: Seq<Seq<char>>, s: Point, e: Point)
    requires
        valid_point(ls, s),
        valid_point(ls, e),
        !point_lt(e, s),
        e.r < ls.len(),
    ensures
        joined(deleted_rows(ls, s, e)) == text_before(ls, s) + text_from(ls, e),
{
    let d = deleted_rows(ls, s, e);
    let first = ls[s.r as int];
    let last = ls[e.r as int];
    if s == e {
        lemma_joined_split_at(ls, s);
    } else {
        let line = first.subrange(0, s.c as int) + last.subrange(e.c as int, last.len() as int);
        assert(d.len() == ls.len() - (e.r - s.r));
        assert(d[s.r as int] == line);
        assert(d.subrange(0, s.r as int) =~= ls.subrange(0, s.r as int));
        assert(d.subrange(s.r + 1, d.len() as int) =~= ls.subrange(e.r + 1, ls.len() as int));
        assert(line.subrange(0, s.c as int) =~= first.subrange(0, s.c as int));
        assert(line.subrange(s.c as int, line.len() as int) =~= last.subrange(
            e.c as int,
            last.len() as int,
        ));
        lemma_joined_split_at(d, s);
        assert(joined(d) =~= text_before(ls, s) + text_from(ls, e));
    }
}

/// Deleting a region that ends inside the document removes exactly the
/// text that extracting it yields: the document is the text before the
/// region, the region, and the text after it, and the deletion leaves the
/// text before followed by the text after.
pub proof fn lemma_delete_removes_region(ls: Seq<Seq<char>>, s: Point, e: Point)
    requires
        valid_point(ls, s),
        valid_point(ls, e),
        !point_lt(e, s),
        e.r < ls.len(),
    ensures
        joined(ls) == text_before(ls, s) + region_text(ls, s, e) + text_from(ls, e),
        joined(deleted_rows(ls, s, e)) == text_before(ls, s) + text_from(ls, e),
{
    lemma_joined_split_at(ls, s);
    lemma_text_from_region(ls, s, e);
    lemma_deleted_text(ls, s, e);
    assert(joined(ls) =~= text_before(ls, s) + region_text(ls, s, e) + text_from(ls, e));
}

/// Splits `s` at its newlines, as `split_nl` describes.
fn split_lines(s: &str) -> (segs: Vec<Vec<char>>)
    ensures
        rows_of(segs@) == split_nl(s@),
{
    let chars = chars_of(s);
    let mut segs: Vec<Vec<char>> = Vec::new();
    let mut cur: Vec<char> = Vec::new();
    for i in 0..chars.len()
        invariant
            chars@ == s@,
            rows_of(segs@).push(cur@) == split_nl(chars@.subrange(0, i as int)),
    {
        let ghost before = chars@.subrange(0, i as int);
        assert(chars@.subrange(0, i + 1).drop_last() == before);
        proof {
            lemma_split_nl_nonempty(before);
        }
        let ghost old_rows = rows_of(segs@);
        let ghost old_cur = cur@;
        if chars[i] == '\n' {
            segs.push(cur);
            cur = Vec::new();
            assert(rows_of(segs@) == old_rows.push(old_cur));
        } else {
            cur.push(chars[i]);
            assert(rows_of(segs@).push(cur@) == old_rows.push(old_cur).update(
                old_rows.len() as int,
                old_cur.push(chars@[i as int]),
            ));
        }
    }
    assert(chars@.subrange(0, chars@.len() as int) == chars@);
    segs.push(cur);
    segs
}


/// A document stored as a sequence of lines addressed by row and column.
///
/// `text_len` counts the characters of the document with one terminating
/// newline for each line; `point` is the last position handed to an edit.
pub struct Buffer {
    pub lines: Vec<Vec<char>>,
    pub text_len: usize,
    pub point: Point,
}

impl Buffer {
    /// The document's lines.
    pub open spec fn rows(&self) -> Seq<Seq<char>> {
        rows_of(self.lines@)
    }

    pub fn new() -> (b: Buffer)
        ensures
            b.rows() == Seq::<Seq<char>>::empty(),
            b.text_len == 0,
            b.point == (Point { r: 0, c: 0 }),
    {
        let b = Buffer { lines: Vec::new(), text_len: 0, point: Point { r: 0, c: 0 } };
        assert(b.rows() =~= Seq::<Seq<char>>::empty());
        b
    }

    /// A buffer holding the document `string`: one line for each piece
    /// between newlines, where a final newline ends the last line rather
    /// than starting an empty one.
    pub fn with_contents(string: &str) -> (b: Buffer)
        requires
            string@.len() < usize::MAX,
        ensures
            b.rows() == lines_of_text(string@),
            b.text_len == text_len_of_text(string@),
            b.point == (Point { r: 0, c: 0 }),
    {
        let chars = chars_of(string);
        let mut lines = split_lines(string);
        proof {
            lemma_split_nl_nonempty(string@);
        }
        let n = chars.len();
        let mut text_len = n;
        if n > 0 && chars[n - 1] == '\n' {
            lines.pop();
            assert(rows_of(lines@) =~= split_nl(string@).drop_last());
        } else {
            text_len = n + 1;
        }
        Buffer { lines, text_len, point: Point { r: 0, c: 0 } }
    }

    /// Whether `p` addresses a position of the document.
    pub fn is_valid_point(&self, p: &Point) -> (b: bool)
        ensures
            b == valid_point(self.rows(), *p),
    {
        let n = self.lines.len();
        if p.r < n {
            p.c <= self.lines[p.r].len()
        } else {
            p.r == n && p.c == 0
        }
    }

    /// The text between `start` and `end`, or the first check that the two
    /// points fail: `start` must be valid, then `end`, and `end` must not
    /// come before `start`. Equal points give the empty text.
    pub fn region_to_str(&self, start: &Point, end: &Point) -> (r: Result<String, BufErr>)
        ensures
            text_result(r) == region_result(self.rows(), *start, *end),
    {
        if !self.is_valid_point(start) {
            return Err(BufErr::InvalidStartPoint);
        }
        if !self.is_valid_point(end) {
            return Err(BufErr::InvalidEndPoint);
        }
        if end.before(start) {
            return Err(BufErr::InvalidDeletionLength);
        }
        let out = self.region_chars(start, end);
        Ok(string_of(&out))
    }

    /// Inserts `string` at `pt` and reports every line from `pt`'s row
    /// through the last line that the insertion wrote, with its new text.
    /// Fails with `InvalidPoint`, leaving the buffer as it was, when `pt`
    /// does not address a position of the document.
    pub fn insert_at_pt(&mut self, string: &str, pt: &Point) -> (r: Result<Vec<Line>, BufErr>)
        requires
            valid_point(old(self).rows(), *pt) ==> old(self).text_len + string@.len() < usize::MAX,
        ensures
            r is Err <==> !valid_point(old(self).rows(), *pt),
            r is Err ==> r == Err::<Vec<Line>, BufErr>(BufErr::InvalidPoint) && *final(self)
                == *old(self),
            r is Ok ==> inserted(*old(self), *final(self), string@, *pt, r->Ok_0@),
    {
        if !self.is_valid_point(pt) {
            return Err(BufErr::InvalidPoint);
        }
        let ghost ls = self.rows();
        let ghost segs0 = split_nl(string@);
        let row = pt.r;
        let col = pt.c;
        let count = string.unicode_len();
        let mut segs = split_lines(string);
        proof {
            lemma_split_nl_nonempty(string@);
        }
        let k = segs.len();
        let n = self.lines.len();
        let last_empty = segs[k - 1].len() == 0;
        let n_lines = if last_empty && row == n {
            k - 1
        } else {
            k
        };
        if row == n {
            let last = segs.pop().unwrap();
            assert(rows_of(segs@) =~= segs0.drop_last());
            self.lines.append(&mut segs);
            if last.len() != 0 {
                self.lines.push(last);
                self.text_len = self.text_len + 1;
                assert(self.rows() =~= ls + segs0);
            } else {
                assert(self.rows() =~= ls + segs0.drop_last());
            }
        } else {
            let line = &self.lines[row];
            let mut head = slice_of(line, 0, col);
            let rest = slice_of(line, col, line.len());
            if k == 1 {
                extend_range(&mut head, &segs[0], 0, segs[0].len());
                extend_range(&mut head, &rest, 0, rest.len());
                self.lines.set(row, head);
                assert(segs[0]@.subrange(0, segs[0]@.len() as int) == segs0[0]);
                assert(rest@.subrange(0, rest@.len() as int) == rest@);
                assert(self.rows() =~= inserted_rows(ls, segs0, *pt));
            } else {
                let mut last = segs.pop().unwrap();
                extend_range(&mut last, &rest, 0, rest.len());
                assert(rest@.subrange(0, rest@.len() as int) == rest@);
                let first = segs.remove(0);
                extend_range(&mut head, &first, 0, first.len());
                assert(first@.subrange(0, first@.len() as int) == first@);
                assert(rows_of(segs@) =~= segs0.subrange(1, k - 1));
                self.lines.set(row, head);
                self.lines.insert(row + 1, last);
                let ghost mid = self.lines@;
                push_multiple(&mut self.lines, row + 1, segs);
                assert(rows_of(mid.subrange(0, row + 1)) =~= ls.subrange(0, row as int) + seq![
                    ls[row as int].subrange(0, col as int) + segs0[0],
                ]);
                assert(rows_of(mid.subrange(row + 1, mid.len() as int)) =~= seq![
                    segs0[k - 1] + ls[row as int].subrange(col as int, ls[row as int].len() as int),
                ] + ls.subrange(row + 1, ls.len() as int));
                assert(self.rows() =~= inserted_rows(ls, segs0, *pt));
            }
        }
        self.text_len = self.text_len + count;
        let mut modified: Vec<Line> = Vec::new();
        let mut i: usize = 0;
        while i < n_lines
            invariant
                i <= n_lines,
                row + n_lines <= self.lines.len(),
                modified@.len() == i,
                reports_rows(modified@, self.rows(), row as int),
            decreases n_lines - i,
        {
            let text = string_of(&self.lines[row + i]);
            modified.push(Line::new(row + i, text));
            i = i + 1;
        }
        Ok(modified)
    }

    /// The whole document: each line followed by a newline.
    pub fn to_str(&mut self) -> (s: String)
        ensures
            s@ == joined(old(self).rows()),
            *final(self) == *old(self),
    {
        let n = self.lines.len();
        let r = self.region_to_str(&Point::new(0, 0), &Point::new(n, 0));
        proof {
            let ls = self.rows();
            if n > 0 {
                lemma_joined_cons(ls, 0);
                assert(ls.subrange(0, n as int) =~= ls);
                assert(ls[0].subrange(0, ls[0].len() as int) == ls[0]);
                assert(region_text(ls, Point { r: 0, c: 0 }, Point { r: n, c: 0 }) =~= joined(ls));
            }
        }
        match r {
            Ok(t) => t,
            Err(_) => String::new(),
        }
    }

    /// Removes the text between `start` and `end` and returns it. The
    /// points are checked as `region_to_str` checks them; on failure the
    /// buffer is left as it was.
    pub fn delete_region(&mut self, start: &Point, end: &Point) -> (r: Result<String, BufErr>)
        ensures
            text_result(r) == region_result(old(self).rows(), *start, *end),
            r is Err ==> *final(self) == *old(self),
            r is Ok ==> {
                &&& final(self).rows() == deleted_rows(old(self).rows(), *start, *end)
                &&& final(self).text_len == deleted_len(
                    old(self).text_len as nat,
                    *start,
                    *end,
                    r->Ok_0@.len(),
                )
                &&& final(self).point == old(self).point
            },
    {
        if !self.is_valid_point(start) {
            return Err(BufErr::InvalidStartPoint);
        }
        if !self.is_valid_point(end) {
            return Err(BufErr::InvalidEndPoint);
        }
        if end.before(start) {
            return Err(BufErr::InvalidDeletionLength);
        }
        let ghost ls = self.rows();
        let out = self.region_chars(start, end);
        if start.r == end.r && start.c == end.c {
            return Ok(string_of(&out));
        }
        let sr = start.r;
        let n = self.lines.len();
        let mut head = slice_of(&self.lines[sr], 0, start.c);
        if sr == end.r {
            let line = &self.lines[sr];
            extend_range(&mut head, line, end.c, line.len());
            self.lines.set(sr, head);
            assert(self.rows() =~= deleted_rows(ls, *start, *end));
        } else {
            let keep_from = if end.r < n {
                let last = &self.lines[end.r];
                extend_range(&mut head, last, end.c, last.len());
                end.r + 1
            } else {
                n
            };
            let mut tail = self.lines.split_off(keep_from);
            self.lines.truncate(sr);
            self.lines.push(head);
            self.lines.append(&mut tail);
            assert(self.rows() =~= deleted_rows(ls, *start, *end));
        }
        let removed = out.len();
        if self.text_len > removed {
            self.text_len = self.text_len - removed;
        } else {
            self.text_len = 1;
        }
        Ok(string_of(&out))
    }

    /// The characters of the region between two checked points.
    fn region_chars(&self, start: &Point, end: &Point) -> (out: Vec<char>)
        requires
            valid_point(self.rows(), *start),
            valid_point(self.rows(), *end),
            !point_lt(*end, *start),
        ensures
            out@ == region_text(self.rows(), *start, *end),
    {
        let ghost ls = self.rows();
        let mut out: Vec<char> = Vec::new();
        if start.r == end.r && start.c == end.c {
            assert(out@ =~= region_text(ls, *start, *end));
            return out;
        }
        if start.r == end.r {
            return slice_of(&self.lines[start.r], start.c, end.c);
        }
        let first = &self.lines[start.r];
        extend_range(&mut out, first, start.c, first.len());
        out.push('\n');
        let ghost head = out@;
        assert(head =~= ls[start.r as int].subrange(start.c as int, ls[start.r as int].len() as int).push('\n'));
        let mut i = start.r + 1;
        assert(ls.subrange(start.r + 1, i as int) =~= Seq::<Seq<char>>::empty());
        assert(head + joined(ls.subrange(start.r + 1, i as int)) =~= head);
        while i < end.r
            invariant
                ls == self.rows(),
                start.r < i <= end.r <= ls.len(),
                out@ == head + joined(ls.subrange(start.r + 1, i as int)),
            decreases end.r - i,
        {
            let line = &self.lines[i];
            extend_range(&mut out, line, 0, line.len());
            out.push('\n');
            proof {
                lemma_joined_step(ls, start.r + 1, i as int);
                assert(line@.subrange(0, line@.len() as int) == line@);
            }
            assert(out@ =~= head + joined(ls.subrange(start.r + 1, i + 1)));
            i = i + 1;
        }
        let ghost mid = out@;
        if end.c != 0 {
            extend_range(&mut out, &self.lines[end.r], 0, end.c);
        } else {
            assert(out@ =~= mid + Seq::<char>::empty());
        }
        out
    }
}

} // verus!
