//! The line-indexed decoded text of one source unit.
//!
//! A text is held as its sequence of lines. Every line is non-empty, a line
//! break byte appears only as the last byte of a line, and every line except
//! possibly the final one ends with a line break. Under these conditions the
//! line table is uniquely determined by the flat text, and a range-bounded
//! replacement recomputes it from the spliced text rather than patching it.

use crate::latin1::Latin1String;
use crate::source::{pos_le, Position, Range};
use vstd::prelude::*;

verus! {

use vstd::seq_lib::lemma_flatten_concat;

/// The line break byte.
pub open spec fn nl() -> u8 {
    10
}

/// The views of a sequence of Latin-1 strings.
pub open spec fn seq_views(s: Seq<Latin1String>) -> Seq<Seq<u8>> {
    s.map_values(|l: Latin1String| l@)
}

/// A well-formed line: non-empty, with a line break nowhere but possibly at
/// its end, and certainly at its end unless it is the final line.
pub open spec fn wf_line(l: Seq<u8>, is_last: bool) -> bool {
    &&& l.len() > 0
    &&& forall|i: int| 0 <= i < l.len() - 1 ==> l[i] != nl()
    &&& (!is_last ==> l[l.len() - 1] == nl())
}

/// A well-formed line table.
pub open spec fn wf_lines(ls: Seq<Seq<u8>>) -> bool {
    forall|i: int| 0 <= i < ls.len() ==> wf_line(#[trigger] ls[i], i == ls.len() - 1)
}

/// The flat offset of a position within a line table: the number of bytes
/// before it, with the line and the column clamped to the existing text.
pub open spec fn pos_offset(ls: Seq<Seq<u8>>, p: Position) -> int {
    if p.line >= ls.len() {
        ls.flatten().len() as int
    } else {
        ls.take(p.line as int).flatten().len() + if p.character <= ls[p.line as int].len() {
            p.character as int
        } else {
            ls[p.line as int].len() as int
        }
    }
}

/// The text that results from replacing the bytes between two offsets.
pub open spec fn spliced(text: Seq<u8>, from: int, to: int, with: Seq<u8>) -> Seq<u8> {
    text.take(from) + with + text.skip(to)
}

/// The ordered sequence of decoded lines of one source unit.
#[derive(Debug)]
pub struct Contents {
    lines: Vec<Latin1String>,
}

impl View for Contents {
    type V = Seq<Seq<u8>>;

    closed spec fn view(&self) -> Seq<Seq<u8>> {
        seq_views(self.lines@)
    }
}

/// Splitting the whole flat text at a line table's boundaries gives that
/// table back: a well-formed table is determined by its flat text.
pub proof fn lemma_wf_flat_unique(a: Seq<Seq<u8>>, b: Seq<Seq<u8>>)
    requires
        wf_lines(a),
        wf_lines(b),
        a.flatten() == b.flatten(),
    ensures
        a == b,
    decreases a.len(),
{
    if a.len() == 0 {
        if b.len() > 0 {
            assert(b.flatten() == b[0] + b.drop_first().flatten());
            assert(b.flatten().len() >= b[0].len());
            assert(b[0].len() > 0);
        }
        assert(a =~= b);
    } else if b.len() == 0 {
        lemma_wf_flat_unique(b, a);
    } else {
        assert(a.flatten() == a[0] + a.drop_first().flatten());
        assert(b.flatten() == b[0] + b.drop_first().flatten());
        lemma_first_line_determined(a, b);
        lemma_first_line_determined(b, a);
        assert(a[0].len() == b[0].len());
        assert forall|i: int| 0 <= i < a[0].len() implies a[0][i] == b[0][i] by {
            assert(a.flatten()[i] == (a[0] + a.drop_first().flatten())[i]);
            assert(b.flatten()[i] == (b[0] + b.drop_first().flatten())[i]);
        }
        assert(a[0] =~= b[0]);
        assert(wf_lines(a.drop_first())) by {
            assert(forall|i: int|
                0 <= i < a.drop_first().len() ==> a.drop_first()[i] == a[i + 1]);
        }
        assert(wf_lines(b.drop_first())) by {
            assert(forall|i: int|
                0 <= i < b.drop_first().len() ==> b.drop_first()[i] == b[i + 1]);
        }
        assert(a.drop_first().flatten() =~= b.drop_first().flatten()) by {
            assert(a.flatten().skip(a[0].len() as int) =~= a.drop_first().flatten());
            assert(b.flatten().skip(b[0].len() as int) =~= b.drop_first().flatten());
        }
        lemma_wf_flat_unique(a.drop_first(), b.drop_first());
        assert(a.len() == b.len());
        assert forall|i: int| 0 <= i < a.len() implies a[i] == b[i] by {
            if i > 0 {
                assert(a.drop_first()[i - 1] == a[i]);
                assert(b.drop_first()[i - 1] == b[i]);
            }
        }
        assert(a =~= b);
    }
}

/// In two well-formed non-empty tables with the same flat text, the first
/// line of the first is no longer than the first line of the second.
proof fn lemma_first_line_determined(a: Seq<Seq<u8>>, b: Seq<Seq<u8>>)
    requires
        wf_lines(a),
        wf_lines(b),
        a.flatten() == b.flatten(),
        a.len() > 0,
        b.len() > 0,
    ensures
        a[0].len() <= b[0].len(),
{
    assert(a.flatten() == a[0] + a.drop_first().flatten());
    assert(b.flatten() == b[0] + b.drop_first().flatten());
    if a[0].len() > b[0].len() {
        // b's first line ends inside a's first line, so a's first line holds
        // a line break before its last byte, or b's table goes on after the
        // text's end.
        if b.len() == 1 {
            assert(b.flatten().len() == b[0].len() + b.drop_first().flatten().len());
            if b.drop_first().len() > 0 {
                assert(b.drop_first().flatten() == b.drop_first()[0]
                    + b.drop_first().drop_first().flatten());
                assert(wf_line(b[1], 1 == b.len() - 1));
                assert(b.drop_first()[0] == b[1]);
                assert(b[1].len() > 0);
            }
            assert(b.drop_first().flatten().len() == 0);
            assert(a.flatten().len() >= a[0].len());
        } else {
            assert(wf_line(b[0], false));
            assert(b[0][b[0].len() - 1] == nl());
            assert(a.flatten()[b[0].len() - 1] == b[0][b[0].len() - 1]);
            assert(a.flatten()[b[0].len() - 1] == a[0][b[0].len() - 1]);
            assert(wf_line(a[0], a.len() == 1));
            assert(a[0][b[0].len() - 1] != nl());
        }
    }
}

/// A complete line: non-empty, ending in a line break, with no line break
/// before it.
pub open spec fn full_line(l: Seq<u8>) -> bool {
    &&& l.len() > 0
    &&& l[l.len() - 1] == nl()
    &&& forall|i: int| 0 <= i < l.len() - 1 ==> l[i] != nl()
}

/// Split a flat text into its line table.
fn split_bytes(bytes: &Vec<u8>) -> (r: Vec<Latin1String>)
    ensures
        wf_lines(seq_views(r@)),
        seq_views(r@).flatten() == bytes@,
{
    broadcast use vstd::prelude::Seq::lemma_flatten_push;

    let mut out: Vec<Latin1String> = Vec::new();
    let mut cur: Vec<u8> = Vec::new();
    let mut j: usize = 0;
    while j < bytes.len()
        invariant
            j <= bytes@.len(),
            forall|i: int| 0 <= i < out@.len() ==> full_line(#[trigger] seq_views(out@)[i]),
            forall|k: int| 0 <= k < cur@.len() ==> cur@[k] != nl(),
            seq_views(out@).flatten() + cur@ == bytes@.take(j as int),
        decreases bytes@.len() - j,
    {
        let ghost prev_out = out@;
        let ghost prev_cur = cur@;
        let b = bytes[j];
        cur.push(b);
        j = j + 1;
        proof {
            assert(bytes@.take(j as int) =~= bytes@.take(j - 1).push(b));
        }
        if b == 10 {
            out.push(Latin1String { bytes: cur });
            cur = Vec::new();
            proof {
                assert(seq_views(out@) =~= seq_views(prev_out).push(prev_cur.push(nl())));
                seq_views(prev_out).lemma_flatten_push(prev_cur.push(nl()));
                assert(seq_views(prev_out).push(prev_cur.push(nl())).flatten()
                    =~= seq_views(prev_out).flatten() + prev_cur.push(nl()));
                assert(seq_views(out@).flatten() + cur@ =~= bytes@.take(j as int));
                assert(forall|i: int|
                    0 <= i < out@.len() ==> full_line(#[trigger] seq_views(out@)[i]));
            }
        } else {
            proof {
                assert(seq_views(out@).flatten() + cur@ =~= bytes@.take(j as int));
            }
        }
    }
    proof {
        assert(bytes@.take(j as int) =~= bytes@);
    }
    if cur.len() > 0 {
        let ghost prev_out = out@;
        let ghost prev_cur = cur@;
        out.push(Latin1String { bytes: cur });
        proof {
            assert(seq_views(out@) =~= seq_views(prev_out).push(prev_cur));
            assert(seq_views(out@).flatten() == bytes@);
        }
    }
    proof {
        assert(wf_lines(seq_views(out@)));
    }
    out
}

/// The column of a position clamped to the length of its line.
pub open spec fn char_clamp(ls: Seq<Seq<u8>>, p: Position) -> int {
    if p.character <= ls[p.line as int].len() {
        p.character as int
    } else {
        ls[p.line as int].len() as int
    }
}

/// The flat text splits at a position's offset into the bytes before the
/// position and the bytes from the position onward.
pub proof fn lemma_offset_split(ls: Seq<Seq<u8>>, p: Position)
    ensures
        0 <= pos_offset(ls, p) <= ls.flatten().len(),
        p.line < ls.len() ==> ls.flatten().take(pos_offset(ls, p)) == ls.take(
            p.line as int,
        ).flatten() + ls[p.line as int].take(char_clamp(ls, p)),
        p.line < ls.len() ==> ls.flatten().skip(pos_offset(ls, p)) == ls[p.line as int].skip(
            char_clamp(ls, p),
        ) + ls.skip(p.line + 1).flatten(),
        p.line >= ls.len() ==> ls.flatten().take(pos_offset(ls, p)) == ls.flatten(),
        p.line >= ls.len() ==> ls.flatten().skip(pos_offset(ls, p)) == Seq::<u8>::empty(),
{
    if p.line < ls.len() {
        let line = p.line as int;
        let cc = char_clamp(ls, p);
        let a = ls.take(line).flatten() + ls[line].take(cc);
        let b = ls[line].skip(cc) + ls.skip(line + 1).flatten();
        lemma_flatten_split(ls, line);
        assert(ls.skip(line).flatten() == ls.skip(line)[0] + ls.skip(line).drop_first().flatten());
        assert(ls.skip(line)[0] == ls[line]);
        assert(ls.skip(line).drop_first() =~= ls.skip(line + 1));
        assert(ls.flatten() =~= a + b);
        assert(pos_offset(ls, p) == a.len());
        assert(ls.flatten().take(pos_offset(ls, p)) =~= a);
        assert(ls.flatten().skip(pos_offset(ls, p)) =~= b);
    } else {
        assert(ls.flatten().take(pos_offset(ls, p)) =~= ls.flatten());
        assert(ls.flatten().skip(pos_offset(ls, p)) =~= Seq::<u8>::empty());
    }
}

/// The flat text of a table is the flat text of its first lines followed by
/// the flat text of the rest.
pub proof fn lemma_flatten_split(ls: Seq<Seq<u8>>, i: int)
    requires
        0 <= i <= ls.len(),
    ensures
        ls.flatten() == ls.take(i).flatten() + ls.skip(i).flatten(),
{
    lemma_flatten_concat(ls.take(i), ls.skip(i));
    assert(ls.take(i) + ls.skip(i) =~= ls);
    assert(ls.flatten() =~= ls.take(i).flatten() + ls.skip(i).flatten());
}


/// Append the bytes of a Latin-1 string between two indices.
fn push_range(dst: &mut Vec<u8>, src: &Latin1String, from: usize, to: usize)
    requires
        from <= to <= src@.len(),
    ensures
        final(dst)@ == old(dst)@ + src@.subrange(from as int, to as int),
{
    let mut k: usize = from;
    while k < to
        invariant
            from <= k <= to <= src@.len(),
            src@ == src.bytes@,
            dst@ == old(dst)@ + src@.subrange(from as int, k as int),
        decreases to - k,
    {
        dst.push(src.bytes[k]);
        k = k + 1;
        proof {
            assert(src@.subrange(from as int, k as int) =~= src@.subrange(
                from as int,
                k - 1,
            ).push(src@[k - 1]));
            assert(dst@ =~= old(dst)@ + src@.subrange(from as int, k as int));
        }
    }
}

/// Build the flat text that replacing a range of the given line table with
/// the given bytes produces.
fn splice_bytes(lines: &Vec<Latin1String>, range: &Range, content: &Latin1String) -> (r: Vec<u8>)
    ensures
        r@ == spliced(
            seq_views(lines@).flatten(),
            pos_offset(seq_views(lines@), range.start),
            pos_offset(seq_views(lines@), range.end),
            content@,
        ),
{
    let ghost ls = seq_views(lines@);
    let ghost flat = ls.flatten();
    let n = lines.len();
    let mut buf: Vec<u8> = Vec::new();

    // Everything before the start position.
    let pre: usize = if range.start.line < n as u64 {
        range.start.line as usize
    } else {
        n
    };
    let mut i: usize = 0;
    while i < pre
        invariant
            0 <= i <= pre <= lines@.len(),
            ls == seq_views(lines@),
            buf@ == ls.take(i as int).flatten(),
        decreases pre - i,
    {
        let line_len = lines[i].bytes.len();
        push_range(&mut buf, &lines[i], 0, line_len);
        proof {
            assert(lines@[i as int]@.subrange(0, line_len as int) =~= ls[i as int]);
            assert(ls.take(i + 1) =~= ls.take(i as int).push(ls[i as int]));
            ls.take(i as int).lemma_flatten_push(ls[i as int]);
            assert(buf@ =~= ls.take(i + 1).flatten());
        }
        i = i + 1;
    }
    if range.start.line < n as u64 {
        let li = range.start.line as usize;
        let clen = lines[li].bytes.len();
        let cc: usize = if range.start.character < clen as u64 {
            range.start.character as usize
        } else {
            clen
        };
        push_range(&mut buf, &lines[li], 0, cc);
        proof {
            assert(lines@[li as int]@.subrange(0, cc as int) =~= ls[li as int].take(
                char_clamp(ls, range.start),
            ));
        }
    }
    proof {
        lemma_offset_split(ls, range.start);
        if range.start.line >= n as u64 {
            assert(ls.take(ls.len() as int) =~= ls);
        }
        assert(buf@ =~= flat.take(pos_offset(ls, range.start)));
    }

    // The replacement text.
    let content_len = content.bytes.len();
    push_range(&mut buf, content, 0, content_len);
    proof {
        assert(content@.subrange(0, content_len as int) =~= content@);
    }

    // Everything from the end position onward.
    let ghost buf_mid = buf@;
    if range.end.line < n as u64 {
        let li = range.end.line as usize;
        let clen = lines[li].bytes.len();
        let cc: usize = if range.end.character < clen as u64 {
            range.end.character as usize
        } else {
            clen
        };
        push_range(&mut buf, &lines[li], cc, clen);
        proof {
            assert(lines@[li as int]@.subrange(cc as int, clen as int) =~= ls[li as int].skip(
                char_clamp(ls, range.end),
            ));
        }
        let ghost tail_base = buf@;
        let mut i: usize = li + 1;
        while i < n
            invariant
                li < i <= n,
                n == lines@.len(),
                ls == seq_views(lines@),
                buf@ == tail_base + ls.subrange(li + 1, i as int).flatten(),
            decreases n - i,
        {
            let line_len = lines[i].bytes.len();
            push_range(&mut buf, &lines[i], 0, line_len);
            proof {
                assert(lines@[i as int]@.subrange(0, line_len as int) =~= ls[i as int]);
                assert(ls.subrange(li + 1, i + 1) =~= ls.subrange(li + 1, i as int).push(
                    ls[i as int],
                ));
                ls.subrange(li + 1, i as int).lemma_flatten_push(ls[i as int]);
                assert(buf@ =~= tail_base + ls.subrange(li + 1, i + 1).flatten());
            }
            i = i + 1;
        }
        proof {
            assert(ls.subrange(li + 1, n as int) =~= ls.skip(li + 1));
        }
    }
    proof {
        lemma_offset_split(ls, range.end);
        assert(buf@ =~= spliced(
            flat,
            pos_offset(ls, range.start),
            pos_offset(ls, range.end),
            content@,
        ));
    }
    buf
}

impl Contents {
    /// Whether the line table is well-formed.
    pub open spec fn wf(&self) -> bool {
        wf_lines(self@)
    }

    /// The whole text as one flat byte sequence.
    pub open spec fn flat(&self) -> Seq<u8> {
        self@.flatten()
    }

    /// Decode a Latin-1 text into its line table.
    pub fn from_latin1(code: &Latin1String) -> (r: Contents)
        ensures
            r.wf(),
            r.flat() == code@,
    {
        Contents { lines: split_bytes(&code.bytes) }
    }

    /// The number of lines of the text.
    pub fn num_lines(&self) -> (n: usize)
        ensures
            n == self@.len(),
    {
        self.lines.len()
    }

    /// The line at the given index, when there is one.
    pub fn get_line(&self, lineno: usize) -> (r: Option<&Latin1String>)
        ensures
            match r {
                Some(l) => lineno < self@.len() && l@ == self@[lineno as int],
                None => lineno >= self@.len(),
            },
    {
        if lineno < self.lines.len() {
            Some(&self.lines[lineno])
        } else {
            None
        }
    }

    /// An identical copy of the text.
    pub fn clone(&self) -> (r: Contents)
        ensures
            r@ == self@,
    {
        let mut lines: Vec<Latin1String> = Vec::new();
        let mut i: usize = 0;
        while i < self.lines.len()
            invariant
                i <= self.lines@.len(),
                seq_views(lines@) == seq_views(self.lines@).take(i as int),
            decreases self.lines@.len() - i,
        {
            let ghost prev = lines@;
            let c = self.lines[i].clone();
            lines.push(c);
            proof {
                assert(lines@ == prev.push(c));
                assert(seq_views(prev).len() == prev.len());
                assert(prev.len() == i);
                assert forall|k: int| 0 <= k < lines@.len() implies (#[trigger] seq_views(
                    lines@,
                )[k]) == seq_views(self.lines@).take(i + 1)[k] by {
                    assert(seq_views(lines@)[k] == lines@[k]@);
                    if k < i {
                        assert(lines@[k] == prev[k]);
                        assert(seq_views(prev)[k] == prev[k]@);
                    } else {
                        assert(lines@[k] == c);
                    }
                }
                assert(seq_views(lines@) =~= seq_views(self.lines@).take(i + 1));
            }
            i = i + 1;
        }
        proof {
            assert(seq_views(lines@) =~= seq_views(self.lines@));
        }
        Contents { lines }
    }

    /// Replace the text between the two positions of the given range with
    /// the given bytes, and recompute the line table from the spliced text.
    pub fn change(&mut self, range: &Range, content: &Latin1String)
        requires
            pos_le(range.start, range.end),
        ensures
            final(self).wf(),
            final(self).flat() == spliced(
                old(self).flat(),
                pos_offset(old(self)@, range.start),
                pos_offset(old(self)@, range.end),
                content@,
            ),
    {
        let buf = splice_bytes(&self.lines, range, content);
        self.lines = split_bytes(&buf);
    }
}

} // verus!
