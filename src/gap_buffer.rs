use vstd::prelude::*;

use crate::chars::{chars_of, slice_of};

verus! {

/// The capacity of a gap buffer made by `GapBuffer::new`.
pub const INITIAL_BUFFER_LENGTH: usize = 1024;

/// The ways in which an operation of the gap buffer can fail.
#[derive(Clone, Copy, Debug, PartialEq, Eq, Structural)]
pub enum GbErr {
    InvalidPoint,
    InvalidDeletionLength,
}

/// What an operation of the gap buffer returns.
pub type GbResult = Result<(), GbErr>;

/// The offsets of the newlines in `s`, in increasing order.
pub open spec fn newline_offsets(s: Seq<char>) -> Seq<usize>
    decreases s.len(),
{
    if s.len() == 0 {
        Seq::empty()
    } else if s.last() == '\n' {
        newline_offsets(s.drop_last()).push((s.len() - 1) as usize)
    } else {
        newline_offsets(s.drop_last())
    }
}

/// The offset of every newline of `string`, counted in characters.
pub fn find_all_newline_idxs(string: &str) -> (idxs: Vec<usize>)
    ensures
        idxs@ == newline_offsets(string@),
{
    let chars = chars_of(string);
    let mut idxs: Vec<usize> = Vec::new();
    for i in 0..chars.len()
        invariant
            chars@ == string@,
            idxs@ == newline_offsets(chars@.subrange(0, i as int)),
    {
        assert(chars@.subrange(0, i + 1).drop_last() == chars@.subrange(0, i as int));
        if chars[i] == '\n' {
            idxs.push(i);
        }
    }
    assert(chars@.subrange(0, chars@.len() as int) == chars@);
    idxs
}

/// `t` with `s` put in at offset `p`.
pub open spec fn spliced(t: Seq<char>, p: int, s: Seq<char>) -> Seq<char> {
    t.subrange(0, p) + s + t.subrange(p, t.len() as int)
}

/// `t` without the `len` characters from offset `p` on.
pub open spec fn cut(t: Seq<char>, p: int, len: int) -> Seq<char> {
    t.subrange(0, p) + t.subrange(p + len, t.len() as int)
}

/// The texts of `texts`, one after the other.
pub open spec fn concat_all(texts: Seq<Seq<char>>) -> Seq<char>
    decreases texts.len(),
{
    if texts.len() == 0 {
        Seq::empty()
    } else {
        concat_all(texts.drop_last()) + texts.last()
    }
}

/// The text of a gap buffer, starting empty, after each of `texts` is
/// inserted at the end of the text in turn.
pub open spec fn text_after_appends(texts: Seq<Seq<char>>) -> Seq<char>
    decreases texts.len(),
{
    if texts.len() == 0 {
        Seq::empty()
    } else {
        let t = text_after_appends(texts.drop_last());
        spliced(t, t.len() as int, texts.last())
    }
}

/// Inserting texts one after another at the end of an empty gap buffer
/// leaves exactly their concatenation.
pub proof fn lemma_gap_appends_round_trip(texts: Seq<Seq<char>>)
    ensures
        text_after_appends(texts) == concat_all(texts),
    decreases texts.len(),
{
    if texts.len() > 0 {
        lemma_gap_appends_round_trip(texts.drop_last());
        let t = text_after_appends(texts.drop_last());
        assert(spliced(t, t.len() as int, texts.last()) =~= t + texts.last());
    }
}

/// When a text does not fit in the gap, growth at least doubles the
/// capacity, and the grown gap holds the text.
pub proof fn lemma_growth_doubles(cap: nat, gap: nat, need: nat)
    requires
        cap > 0,
        gap <= cap,
        gap < need,
    ensures
        grown_capacity(cap, gap, need) >= 2 * cap,
        gap + (grown_capacity(cap, gap, need) - cap) >= need,
    decreases need - gap,
{
    lemma_growth_fits(cap * 2, gap + cap, need);
    if gap + cap < need {
        lemma_growth_doubles(cap * 2, gap + cap, need);
    }
}

/// The gap that growth ends with holds the text, and growth never shrinks
/// the capacity.
pub proof fn lemma_growth_fits(cap: nat, gap: nat, need: nat)
    requires
        cap > 0,
        gap <= cap,
    ensures
        grown_capacity(cap, gap, need) >= cap,
        gap + (grown_capacity(cap, gap, need) - cap) >= need,
    decreases (if gap >= need {
        0
    } else {
        need - gap
    }),
{
    if gap < need {
        lemma_growth_fits(cap * 2, gap + cap, need);
    }
}

/// The capacity that an insertion of `need` characters grows a buffer of
/// capacity `cap` and gap length `gap` to: it doubles until the gap holds
/// `need` characters.
pub open spec fn grown_capacity(cap: nat, gap: nat, need: nat) -> nat
    decreases (if gap >= need {
        0
    } else {
        need - gap
    }),
{
    if gap >= need || cap == 0 {
        cap
    } else {
        grown_capacity(cap * 2, gap + cap, need)
    }
}

/// Writes the characters of `src` into `buf` from index `dst` on.
fn write_at(buf: &mut Vec<char>, dst: usize, src: &Vec<char>)
    requires
        dst + src@.len() <= old(buf)@.len(),
    ensures
        final(buf)@ == old(buf)@.subrange(0, dst as int) + src@ + old(buf)@.subrange(
            dst + src@.len(),
            old(buf)@.len() as int,
        ),
{
    let cap = buf.len();
    let mut j: usize = 0;
    while j < src.len()
        invariant
            dst + src@.len() <= buf@.len(),
            buf@.len() == old(buf)@.len(),
            buf@.len() == cap,
            j <= src@.len(),
            buf@ == old(buf)@.subrange(0, dst as int) + src@.subrange(0, j as int) + old(
                buf,
            )@.subrange(dst + j, old(buf)@.len() as int),
        decreases src@.len() - j,
    {
        buf.set(dst + j, src[j]);
        assert(buf@ =~= old(buf)@.subrange(0, dst as int) + src@.subrange(0, j + 1) + old(
            buf,
        )@.subrange(dst + j + 1, old(buf)@.len() as int));
        j = j + 1;
    }
    assert(src@.subrange(0, src@.len() as int) == src@);
}

/// A document stored in one array with a movable free region, the gap.
///
/// The text is `buf[..gap_start_idx]` followed by `buf[gap_end_idx..]`;
/// `point_idx` is the offset of the last edit. A full array is a gap of
/// length zero wherever the last edit left it: `gap_start_idx ==
/// gap_end_idx`, with no other normal form, and moving such a gap only
/// moves the two indices.
pub struct GapBuffer {
    pub buf: Vec<char>,
    pub text_len: usize,
    pub gap_start_idx: usize,
    pub gap_end_idx: usize,
    pub point_idx: usize,
}

impl GapBuffer {
    /// The gap lies within the array, `text_len` counts the characters
    /// outside it, and the array is not empty.
    pub open spec fn wf(&self) -> bool {
        &&& self.gap_start_idx <= self.gap_end_idx <= self.buf@.len()
        &&& self.text_len == self.gap_start_idx + (self.buf@.len() - self.gap_end_idx)
        &&& self.buf@.len() > 0
    }

    /// The document: the characters before the gap, then those after it.
    pub open spec fn text(&self) -> Seq<char> {
        self.buf@.subrange(0, self.gap_start_idx as int) + self.buf@.subrange(
            self.gap_end_idx as int,
            self.buf@.len() as int,
        )
    }

    /// The length of the gap.
    pub open spec fn gap_len(&self) -> nat {
        (self.gap_end_idx - self.gap_start_idx) as nat
    }

    /// An empty buffer of capacity `INITIAL_BUFFER_LENGTH`.
    pub fn new() -> (g: GapBuffer)
        ensures
            g.wf(),
            g.text() == Seq::<char>::empty(),
            g.buf@.len() == INITIAL_BUFFER_LENGTH,
            g.gap_start_idx == 0,
            g.gap_end_idx == INITIAL_BUFFER_LENGTH,
            g.point_idx == 0,
    {
        GapBuffer::with_capacity(INITIAL_BUFFER_LENGTH)
    }

    /// An empty buffer whose gap fills an array of `capacity` characters.
    pub fn with_capacity(capacity: usize) -> (g: GapBuffer)
        requires
            capacity > 0,
        ensures
            g.wf(),
            g.text() == Seq::<char>::empty(),
            g.buf@.len() == capacity,
            g.gap_start_idx == 0,
            g.gap_end_idx == capacity,
            g.point_idx == 0,
    {
        let g = GapBuffer {
            text_len: 0,
            buf: vec!['\0'; capacity],
            gap_start_idx: 0,
            gap_end_idx: capacity,
            point_idx: 0,
        };
        assert(g.text() =~= Seq::<char>::empty());
        g
    }

    /// The array index of the character at text offset `point`: offsets
    /// before the gap stay, later ones move past it.
    pub fn convert_pt_txt_to_buf_space(&self, point: usize) -> (idx: usize)
        requires
            self.wf(),
            point <= self.text_len,
        ensures
            idx == if point < self.gap_start_idx {
                point as int
            } else {
                point + self.gap_len()
            },
            point < self.text_len ==> self.buf@[idx as int] == self.text()[point as int],
    {
        let cap = self.buf.len();
        if point < self.gap_start_idx {
            point
        } else {
            cap - (self.text_len - point)
        }
    }

    /// Inserts `string` at text offset `point`; the gap then starts right
    /// after the inserted text. When the gap is too short for `string`, the
    /// array first doubles in size, as often as needed, and the text after
    /// the gap moves to the new end of the array. Fails with `InvalidPoint`,
    /// leaving the buffer as it was, when `point` is past the end of the text.
    pub fn insert_at_pt(&mut self, string: &str, point: usize) -> (r: GbResult)
        requires
            old(self).wf(),
            point <= old(self).text_len ==> old(self).buf@.len() + string@.len() <= usize::MAX / 2,
        ensures
            r is Err <==> point > old(self).text_len,
            r is Err ==> r == Err::<(), GbErr>(GbErr::InvalidPoint) && *final(self) == *old(self),
            r is Ok ==> {
                &&& final(self).wf()
                &&& final(self).text() == spliced(old(self).text(), point as int, string@)
                &&& final(self).text_len == old(self).text_len + string@.len()
                &&& final(self).gap_start_idx == point + string@.len()
                &&& final(self).point_idx == point + string@.len()
                &&& final(self).buf@.len() == grown_capacity(
                    old(self).buf@.len(),
                    old(self).gap_len(),
                    string@.len(),
                )
            },
    {
        if point > self.text_len {
            return Err(GbErr::InvalidPoint);
        }
        let ghost t = self.text();
        let chars = chars_of(string);
        let len = chars.len();
        let mut gap_len = self.gap_end_idx - self.gap_start_idx;
        if len > gap_len {
            let old_cap = self.buf.len();
            let last_half = slice_of(&self.buf, self.gap_end_idx, old_cap);
            let ghost first_half = self.buf@.subrange(0, self.gap_start_idx as int);
            while gap_len < len
                invariant
                    self.wf(),
                    self.gap_start_idx == old(self).gap_start_idx,
                    self.text_len == old(self).text_len,
                    self.point_idx == old(self).point_idx,
                    self.gap_start_idx + gap_len == self.gap_end_idx,
                    self.buf@.len() - self.gap_end_idx == last_half@.len(),
                    self.buf@.subrange(0, self.gap_start_idx as int) == first_half,
                    self.buf@.len() + len <= usize::MAX / 2 + gap_len,
                    grown_capacity(self.buf@.len(), gap_len as nat, len as nat) == grown_capacity(
                        old_cap as nat,
                        (old(self).gap_end_idx - old(self).gap_start_idx) as nat,
                        len as nat,
                    ),
                decreases usize::MAX - gap_len,
            {
                let cur = self.buf.len();
                self.buf.resize(cur * 2, '\0');
                assert(self.buf@.subrange(0, self.gap_start_idx as int) =~= first_half);
                self.gap_end_idx = self.gap_end_idx + cur;
                gap_len = gap_len + cur;
            }
            let end = self.gap_end_idx;
            write_at(&mut self.buf, end, &last_half);
            assert(self.buf@.subrange(0, self.gap_start_idx as int) =~= first_half);
            assert(self.text() =~= t);
        }
        self.move_gap(point);
        let gs = self.gap_start_idx;
        write_at(&mut self.buf, gs, &chars);
        self.gap_start_idx = gs + len;
        self.text_len = self.text_len + len;
        self.point_idx = point + len;
        assert(self.text() =~= t.subrange(0, point as int) + string@ + t.subrange(
            point as int,
            t.len() as int,
        ));
        Ok(())
    }

    /// Deletes `length` characters from text offset `point` on; they become
    /// part of the gap, which then starts at `point`. When fewer than a
    /// quarter of the array's slots then hold text, the array shrinks to a
    /// quarter of its size, keeping the text after the gap at its end. Fails
    /// with `InvalidPoint` when `point` is past the end of the text, else
    /// with `InvalidDeletionLength` when the range runs past it; a failed
    /// call leaves the buffer as it was.
    pub fn delete_at_pt(&mut self, point: usize, length: usize) -> (r: GbResult)
        requires
            old(self).wf(),
        ensures
            r is Err <==> point + length > old(self).text_len,
            point > old(self).text_len ==> r == Err::<(), GbErr>(GbErr::InvalidPoint),
            point <= old(self).text_len < point + length ==> r == Err::<(), GbErr>(
                GbErr::InvalidDeletionLength,
            ),
            r is Err ==> *final(self) == *old(self),
            r is Ok ==> {
                &&& final(self).wf()
                &&& final(self).text() == cut(old(self).text(), point as int, length as int)
                &&& final(self).text_len == old(self).text_len - length
                &&& final(self).gap_start_idx == point
                &&& final(self).point_idx == point
                &&& final(self).buf@.len() == if final(self).text_len < old(self).buf@.len() / 4 {
                    old(self).buf@.len() / 4
                } else {
                    old(self).buf@.len()
                }
            },
    {
        if point > self.text_len {
            return Err(GbErr::InvalidPoint);
        }
        if length > self.text_len - point {
            return Err(GbErr::InvalidDeletionLength);
        }
        let ghost t = self.text();
        self.move_gap(point);
        let cap = self.buf.len();
        self.gap_end_idx = self.gap_end_idx + length;
        self.text_len = self.text_len - length;
        self.point_idx = point;
        assert(self.text() =~= t.subrange(0, point as int) + t.subrange(
            point + length,
            t.len() as int,
        ));
        let ghost t2 = self.text();
        if self.text_len < cap / 4 {
            let new_len = cap / 4;
            let last_half = slice_of(&self.buf, self.gap_end_idx, cap);
            let ghost first_half = self.buf@.subrange(0, self.gap_start_idx as int);
            self.buf.truncate(new_len);
            write_at(&mut self.buf, new_len - last_half.len(), &last_half);
            self.gap_end_idx = new_len - last_half.len();
            assert(self.buf@.subrange(0, self.gap_start_idx as int) =~= first_half);
            assert(self.text() =~= t2);
        }
        Ok(())
    }

    /// Moves the gap so that it starts at text offset `point`.
    fn move_gap(&mut self, point: usize)
        requires
            old(self).wf(),
            point <= old(self).text_len,
        ensures
            final(self).wf(),
            final(self).text() == old(self).text(),
            final(self).gap_start_idx == point,
            final(self).gap_len() == old(self).gap_len(),
            final(self).buf@.len() == old(self).buf@.len(),
            final(self).text_len == old(self).text_len,
            final(self).point_idx == old(self).point_idx,
    {
        let ghost t = self.text();
        let cap = self.buf.len();
        let gs = self.gap_start_idx;
        let ge = self.gap_end_idx;
        if gs == ge {
            self.gap_start_idx = point;
            self.gap_end_idx = point;
            assert(self.text() =~= t);
        } else if point < gs {
            let moved = slice_of(&self.buf, point, gs);
            let len = gs - point;
            write_at(&mut self.buf, ge - len, &moved);
            self.gap_start_idx = point;
            self.gap_end_idx = ge - len;
            assert(self.text() =~= t);
        } else if point > gs {
            let moved = slice_of(&self.buf, ge, cap - (self.text_len - point));
            write_at(&mut self.buf, gs, &moved);
            self.gap_start_idx = point;
            self.gap_end_idx = cap - (self.text_len - point);
            assert(self.text() =~= t);
        }
    }
}

} // verus!
