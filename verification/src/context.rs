//! Contextual rendering of a span: the numbered code excerpt with arrow
//! markers and an underline row, as compiler diagnostics print it.

use crate::contents::Contents;
use crate::latin1::{l1_char, Latin1String};
use crate::source::{Position, Range, SrcPos};
use pad::{Alignment, PadStr};
use vstd::prelude::*;

verus! {

/// How many lines around the span are shown.
pub const LINE_CONTEXT: u64 = 2;

/// Relies on `String::push` of std: appends one character at the end.
pub assume_specification[ String::push ](s: &mut String, ch: char)
    ensures
        final(s)@ == old(s)@.push(ch),
;

/// Relies on `String::push_str` of std: appends a string slice at the end.
pub assume_specification[ String::push_str ](s: &mut String, string: &str)
    ensures
        final(s)@ == old(s)@ + string@,
;

/// A run of spaces.
pub open spec fn spaces(n: nat) -> Seq<char> {
    Seq::new(n, |i: int| ' ')
}

/// A run of underline marks.
pub open spec fn tildes(n: nat) -> Seq<char> {
    Seq::new(n, |i: int| '~')
}

/// The character of one decimal digit.
pub open spec fn dec_digit(d: int) -> char {
    if d == 0 {
        '0'
    } else if d == 1 {
        '1'
    } else if d == 2 {
        '2'
    } else if d == 3 {
        '3'
    } else if d == 4 {
        '4'
    } else if d == 5 {
        '5'
    } else if d == 6 {
        '6'
    } else if d == 7 {
        '7'
    } else if d == 8 {
        '8'
    } else {
        '9'
    }
}

/// The decimal representation of a number, most significant digit first.
pub open spec fn dec_rep(n: nat) -> Seq<char>
    decreases n,
{
    if n < 10 {
        seq![dec_digit(n as int)]
    } else {
        dec_rep(n / 10).push(dec_digit((n % 10) as int))
    }
}

/// A string left-padded with spaces up to the given width; unchanged when
/// already at least that wide.
pub open spec fn pad_left(s: Seq<char>, w: nat) -> Seq<char> {
    if s.len() >= w {
        s
    } else {
        spaces((w - s.len()) as nat) + s
    }
}

/// The display width of one character: a tab counts as four columns, every
/// other character as one. Presentation only; stored positions count
/// characters.
pub open spec fn visual_width(b: u8) -> nat {
    if b == 9 {
        4
    } else {
        1
    }
}

/// How one character is shown: a tab as four spaces, anything else as
/// itself.
pub open spec fn rendered_char(b: u8) -> Seq<char> {
    if b == 9 {
        spaces(4)
    } else {
        seq![l1_char(b)]
    }
}

/// How a whole line is shown.
pub open spec fn rendered_line(l: Seq<u8>) -> Seq<char>
    decreases l.len(),
{
    if l.len() == 0 {
        Seq::empty()
    } else {
        rendered_char(l[0]) + rendered_line(l.drop_first())
    }
}

/// Whitespace in the Latin-1 range, as trailing-whitespace trimming sees it.
pub open spec fn is_ws(b: u8) -> bool {
    b == 9 || b == 10 || b == 11 || b == 12 || b == 13 || b == 32 || b == 0x85 || b == 0xa0
}

/// A line without its trailing line break.
pub open spec fn trim_nl(l: Seq<u8>) -> Seq<u8> {
    if l.len() > 0 && l[l.len() - 1] == 10 {
        l.drop_last()
    } else {
        l
    }
}

/// A line without its trailing whitespace.
pub open spec fn trim_end_ws(l: Seq<u8>) -> Seq<u8>
    decreases l.len(),
{
    if l.len() > 0 && is_ws(l[l.len() - 1]) {
        trim_end_ws(l.drop_last())
    } else {
        l
    }
}

/// The gutter of a row that carries no line number.
pub open spec fn bar_prefix(lineno_len: nat) -> Seq<char> {
    spaces(lineno_len) + seq![' ', ' ', '|', ' ', ' ']
}

/// The marks the underline row still owes from column `i` of the line on,
/// once the line's own characters are exhausted or the span's end has been
/// passed: the underline runs on to the span's end column on its last line.
pub open spec fn underline_tail(range: Range, lineno: int, i: int) -> Seq<char> {
    if lineno == range.end.line && i < range.end.character {
        tildes((range.end.character - i) as nat)
    } else {
        Seq::empty()
    }
}

/// The body of the underline row from column `i` on: spaces under the
/// characters before the span, underline marks under the covered ones, each
/// as wide as the character it stands under.
pub open spec fn underline_body(range: Range, lineno: int, l: Seq<u8>, i: int) -> Seq<char>
    decreases l.len() - i,
{
    if i < 0 || i >= l.len() {
        underline_tail(range, lineno, i)
    } else if !(lineno < range.end.line || (lineno == range.end.line && i
        < range.end.character)) {
        underline_tail(range, lineno, i)
    } else if lineno < range.start.line || (lineno == range.start.line && i
        < range.start.character) {
        spaces(visual_width(l[i])) + underline_body(range, lineno, l, i + 1)
    } else {
        tildes(visual_width(l[i])) + underline_body(range, lineno, l, i + 1)
    }
}

/// The underline row under one shown line.
pub open spec fn underline_row(range: Range, lineno_len: nat, lineno: int, l: Seq<u8>) -> Seq<
    char,
> {
    bar_prefix(lineno_len) + underline_body(range, lineno, trim_nl(l), 0) + seq!['\n']
}

/// Whether a line of the window intersects the span's lines.
pub open spec fn overlaps(range: Range, lineno: int) -> bool {
    range.start.line <= lineno <= range.end.line
}

/// The right-aligned one-based line number label.
pub open spec fn lineno_label(lineno: int, lineno_len: nat) -> Seq<char> {
    pad_left(dec_rep((lineno + 1) as nat), lineno_len)
}

/// One shown line: its number, an arrow marker when the span intersects it
/// and a plain gutter otherwise, and the line's text with trailing
/// whitespace dropped and tabs widened.
pub open spec fn content_row(range: Range, lineno_len: nat, lineno: int, l: Seq<u8>) -> Seq<
    char,
> {
    lineno_label(lineno, lineno_len) + (if overlaps(range, lineno) {
        seq![' ', '-', '-', '>', ' ']
    } else {
        seq![' ', ' ', '|', ' ', ' ']
    }) + rendered_line(trim_end_ws(trim_nl(l))) + seq!['\n']
}

/// Everything shown for one line of the window.
pub open spec fn row_of(range: Range, lineno_len: nat, lineno: int, l: Seq<u8>) -> Seq<char> {
    content_row(range, lineno_len, lineno, l) + (if overlaps(range, lineno) {
        underline_row(range, lineno_len, lineno, l)
    } else {
        Seq::<char>::empty()
    })
}

/// The first line of the context window.
pub open spec fn ctx_lo(range: Range, ctx: nat) -> int {
    if range.start.line >= ctx {
        range.start.line - ctx
    } else {
        0
    }
}

/// The last line of the context window (inclusive).
pub open spec fn ctx_hi(range: Range, ctx: nat) -> int {
    range.end.line + ctx
}

/// The rows of the window from line `lineno` on, stopping at the text's end.
pub open spec fn rows_from(
    lines: Seq<Seq<u8>>,
    range: Range,
    lineno_len: nat,
    lineno: int,
    hi: int,
) -> Seq<char>
    decreases hi + 1 - lineno,
{
    if lineno > hi || lineno < 0 || lineno >= lines.len() {
        Seq::empty()
    } else {
        row_of(range, lineno_len, lineno, lines[lineno]) + rows_from(
            lines,
            range,
            lineno_len,
            lineno + 1,
            hi,
        )
    }
}

/// Whether the context window holds no existing line.
pub open spec fn window_empty(lines: Seq<Seq<u8>>, range: Range, ctx: nat) -> bool {
    ctx_lo(range, ctx) > ctx_hi(range, ctx) || ctx_lo(range, ctx) >= lines.len()
}

/// The width line numbers are padded to: wide enough for the last line the
/// window could reach, shown one-based.
pub open spec fn lineno_width(range: Range, ctx: nat) -> nat {
    dec_rep((range.start.line + ctx + 1) as nat).len()
}

/// The whole code excerpt for a span: the window's rows, or a single
/// synthetic empty line at the span's start when the window lies outside the
/// text.
pub open spec fn code_context_spec(lines: Seq<Seq<u8>>, range: Range, ctx: nat) -> Seq<char> {
    if window_empty(lines, range, ctx) {
        row_of(range, lineno_width(range, ctx), range.start.line as int, Seq::<u8>::empty())
    } else {
        rows_from(lines, range, lineno_width(range, ctx), ctx_lo(range, ctx), ctx_hi(range, ctx))
    }
}

/// A rendered message: the message, a one-based `--> file:line` pointer, an
/// empty gutter row, and the code excerpt.
pub open spec fn show_spec(name: Seq<char>, lines: Seq<Seq<u8>>, range: Range, msg: Seq<char>) -> Seq<
    char,
> {
    msg + seq!['\n'] + spaces(lineno_width(range, LINE_CONTEXT as nat)) + seq![' ', '-', '-', '>', ' ']
        + name + seq![':'] + dec_rep((range.start.line + 1) as nat) + seq!['\n'] + spaces(
        lineno_width(range, LINE_CONTEXT as nat),
    ) + seq![' ', ' ', '|', '\n'] + code_context_spec(lines, range, LINE_CONTEXT as nat)
}

/// Append `n` copies of one character.
fn push_repeat(s: &mut String, ch: char, n: u64)
    ensures
        final(s)@ == old(s)@ + Seq::new(n as nat, |i: int| ch),
{
    let mut k: u64 = 0;
    while k < n
        invariant
            k <= n,
            s@ == old(s)@ + Seq::new(k as nat, |i: int| ch),
        decreases n - k,
    {
        s.push(ch);
        k = k + 1;
        proof {
            assert(s@ =~= old(s)@ + Seq::new(k as nat, |i: int| ch));
        }
    }
    proof {
        assert(s@ =~= old(s)@ + Seq::new(n as nat, |i: int| ch));
    }
}

/// The character of one decimal digit.
fn digit_char(d: u64) -> (c: char)
    requires
        d < 10,
    ensures
        c == dec_digit(d as int),
{
    if d == 0 {
        '0'
    } else if d == 1 {
        '1'
    } else if d == 2 {
        '2'
    } else if d == 3 {
        '3'
    } else if d == 4 {
        '4'
    } else if d == 5 {
        '5'
    } else if d == 6 {
        '6'
    } else if d == 7 {
        '7'
    } else if d == 8 {
        '8'
    } else {
        '9'
    }
}

/// The decimal representation of a number, with its length in characters.
pub fn dec_string(n: u64) -> (r: (String, usize))
    ensures
        r.0@ == dec_rep(n as nat),
        r.1 == dec_rep(n as nat).len(),
{
    let mut digits: Vec<char> = Vec::new();
    let mut m: u64 = n;
    loop
        invariant_except_break
            dec_rep(n as nat) == dec_rep(m as nat) + digits@.reverse(),
        ensures
            dec_rep(n as nat) == digits@.reverse(),
        decreases m,
    {
        let ghost m0 = m as nat;
        let d = m % 10;
        digits.push(digit_char(d));
        m = m / 10;
        proof {
            if m0 >= 10 {
                assert(dec_rep(m0) == dec_rep(m0 / 10).push(dec_digit((m0 % 10) as int)));
                assert(dec_rep(m0 / 10).push(dec_digit((m0 % 10) as int)) =~= dec_rep(m0 / 10)
                    + seq![dec_digit((m0 % 10) as int)]);
            } else {
                assert(dec_rep(m0) == seq![dec_digit(m0 as int)]);
            }
            assert(digits@.reverse() =~= seq![dec_digit((m0 % 10) as int)]
                + digits@.drop_last().reverse());
        }
        if m == 0 {
            proof {
                assert(dec_rep(n as nat) =~= digits@.reverse());
            }
            break;
        }
        proof {
            assert(dec_rep(n as nat) =~= dec_rep(m as nat) + digits@.reverse());
        }
    }
    let mut s = String::new();
    let len = digits.len();
    let mut j: usize = 0;
    while j < len
        invariant
            j <= len,
            len == digits@.len(),
            s@ == digits@.reverse().take(j as int),
        decreases len - j,
    {
        s.push(digits[len - 1 - j]);
        j = j + 1;
        proof {
            assert(s@ =~= digits@.reverse().take(j as int));
        }
    }
    proof {
        assert(digits@.reverse().take(len as int) =~= digits@.reverse());
        if n >= 10 {
            assert(dec_rep(n as nat) == dec_rep((n as nat) / 10).push(
                dec_digit(((n as nat) % 10) as int),
            ));
        }
    }
    (s, len)
}

/// Relies on pad's `PadStr::pad_to_width_with_alignment` with right
/// alignment: a string of ASCII digits, each one display column wide, comes
/// back left-padded with spaces to the requested width, or unchanged when it
/// is already at least that wide.
#[verifier::external_body]
fn pad_lineno(s: &str, width: usize) -> (r: String)
    requires
        forall|i: int| 0 <= i < s@.len() ==> 48 <= (#[trigger] s@[i]) as u32 <= 57,
    ensures
        r@ == pad_left(s@, width as nat),
{
    s.pad_to_width_with_alignment(width, Alignment::Right)
}

/// Every character of a decimal representation is an ASCII digit.
proof fn lemma_dec_rep_digits(n: nat)
    ensures
        forall|i: int| 0 <= i < dec_rep(n).len() ==> 48 <= (#[trigger] dec_rep(n)[i]) as u32
            <= 57,
    decreases n,
{
    if n >= 10 {
        lemma_dec_rep_digits(n / 10);
        assert(forall|i: int|
            0 <= i < dec_rep(n).len() - 1 ==> dec_rep(n)[i] == dec_rep(n / 10)[i]);
    }
}

/// Appending one character to a line appends its rendering.
proof fn lemma_rendered_snoc(l: Seq<u8>, b: u8)
    ensures
        rendered_line(l.push(b)) == rendered_line(l) + rendered_char(b),
    decreases l.len(),
{
    if l.len() == 0 {
        assert(l.push(b) =~= seq![b]);
        assert(rendered_line(seq![b]) == rendered_char(b) + rendered_line(seq![b].drop_first()));
        assert(seq![b].drop_first() =~= Seq::<u8>::empty());
        assert(rendered_line(l.push(b)) =~= rendered_line(l) + rendered_char(b));
    } else {
        assert(l.push(b).drop_first() =~= l.drop_first().push(b));
        lemma_rendered_snoc(l.drop_first(), b);
        assert(rendered_line(l.push(b)) == rendered_char(l[0]) + rendered_line(
            l.drop_first().push(b),
        ));
        assert(rendered_line(l.push(b)) =~= rendered_line(l) + rendered_char(b));
    }
}

/// Whether a byte is trimmed as trailing whitespace.
fn ws_byte(b: u8) -> (r: bool)
    ensures
        r == is_ws(b),
{
    b == 9 || b == 10 || b == 11 || b == 12 || b == 13 || b == 32 || b == 0x85 || b == 0xa0
}

/// The cut points of a line: first without its trailing line break, then
/// also without its trailing whitespace.
fn trim_cuts(line: &Latin1String) -> (r: (usize, usize))
    ensures
        r.1 <= r.0 <= line@.len(),
        line@.take(r.0 as int) == trim_nl(line@),
        line@.take(r.1 as int) == trim_end_ws(trim_nl(line@)),
{
    let len = line.bytes.len();
    let c0: usize = if len > 0 && line.bytes[len - 1] == 10 {
        len - 1
    } else {
        len
    };
    proof {
        assert(line@.take(c0 as int) =~= trim_nl(line@));
    }
    let mut c1: usize = c0;
    while c1 > 0 && ws_byte(line.bytes[c1 - 1])
        invariant
            c1 <= c0 <= line@.len(),
            line@ == line.bytes@,
            trim_end_ws(line@.take(c1 as int)) == trim_end_ws(trim_nl(line@)),
        decreases c1,
    {
        proof {
            assert(line@.take(c1 as int).drop_last() =~= line@.take(c1 - 1));
        }
        c1 = c1 - 1;
    }
    proof {
        let t = line@.take(c1 as int);
        if t.len() > 0 && is_ws(t[t.len() - 1]) {
            assert(false);
        }
        assert(trim_end_ws(t) == t);
    }
    (c0, c1)
}

/// Append the rendering of the first `cut` characters of a line.
fn push_rendered(s: &mut String, line: &Latin1String, cut: usize)
    requires
        cut <= line@.len(),
    ensures
        final(s)@ == old(s)@ + rendered_line(line@.take(cut as int)),
{
    let mut k: usize = 0;
    proof {
        assert(line@.take(0) =~= Seq::<u8>::empty());
        assert(s@ =~= old(s)@ + rendered_line(line@.take(0)));
    }
    while k < cut
        invariant
            k <= cut <= line@.len(),
            line@ == line.bytes@,
            s@ == old(s)@ + rendered_line(line@.take(k as int)),
        decreases cut - k,
    {
        let b = line.bytes[k];
        if b == 9 {
            push_repeat(s, ' ', 4);
        } else {
            s.push(b as char);
        }
        k = k + 1;
        proof {
            assert(line@.take(k as int) =~= line@.take(k - 1).push(b));
            lemma_rendered_snoc(line@.take(k - 1), b);
            if b == 9 {
                assert(rendered_char(b) =~= spaces(4));
            } else {
                assert(rendered_char(b) =~= seq![l1_char(b)]);
            }
            assert(s@ =~= old(s)@ + rendered_line(line@.take(k as int)));
        }
    }
}

/// Append the gutter of a row that carries no line number.
fn push_bar_prefix(s: &mut String, lineno_len: usize)
    ensures
        final(s)@ == old(s)@ + bar_prefix(lineno_len as nat),
{
    push_repeat(s, ' ', lineno_len as u64);
    s.push_str("  |  ");
    proof {
        reveal_strlit("  |  ");
        assert("  |  "@ =~= seq![' ', ' ', '|', ' ', ' ']);
        assert(s@ =~= old(s)@ + bar_prefix(lineno_len as nat));
    }
}

/// Append the underline row for one shown line.
fn push_underline(
    range: &Range,
    lineno_len: usize,
    lineno: u64,
    line: &Latin1String,
    cut0: usize,
    into: &mut String,
)
    requires
        cut0 <= line@.len(),
        line@.take(cut0 as int) == trim_nl(line@),
    ensures
        final(into)@ == old(into)@ + underline_row(*range, lineno_len as nat, lineno as int, line@),
{
    let ghost l = trim_nl(line@);
    let ghost target = old(into)@ + bar_prefix(lineno_len as nat) + underline_body(
        *range,
        lineno as int,
        l,
        0,
    );
    push_bar_prefix(into, lineno_len);
    let mut i: usize = 0;
    loop
        invariant_except_break
            i <= cut0,
            cut0 <= line@.len(),
            l == trim_nl(line@),
            l.len() == cut0,
            line@ == line.bytes@,
            into@ + underline_body(*range, lineno as int, l, i as int) == target,
        ensures
            i <= cut0,
            into@ + underline_tail(*range, lineno as int, i as int) == target,
        decreases cut0 - i,
    {
        if i >= cut0 {
            proof {
                assert(underline_body(*range, lineno as int, l, i as int) == underline_tail(
                    *range,
                    lineno as int,
                    i as int,
                ));
            }
            break;
        }
        let pos = Position { line: lineno, character: i as u64 };
        if !pos.lt(&range.end) {
            proof {
                assert(underline_body(*range, lineno as int, l, i as int) == underline_tail(
                    *range,
                    lineno as int,
                    i as int,
                ));
            }
            break;
        }
        let b = line.bytes[i];
        let w: u64 = if b == 9 {
            4
        } else {
            1
        };
        if pos.lt(&range.start) {
            push_repeat(into, ' ', w);
            proof {
                assert(Seq::new(w as nat, |k: int| ' ') =~= spaces(visual_width(l[i as int])));
            }
        } else {
            push_repeat(into, '~', w);
            proof {
                assert(Seq::new(w as nat, |k: int| '~') =~= tildes(visual_width(l[i as int])));
            }
        }
        i = i + 1;
        proof {
            assert(into@ + underline_body(*range, lineno as int, l, i as int) =~= target);
        }
    }
    if lineno == range.end.line {
        let mut ch: u64 = i as u64;
        while ch < range.end.character
            invariant
                lineno == range.end.line,
                into@ + underline_tail(*range, lineno as int, ch as int) == target,
            decreases range.end.character - ch,
        {
            into.push('~');
            ch = ch + 1;
            proof {
                if ch < range.end.character {
                    assert(underline_tail(*range, lineno as int, ch - 1) =~= seq!['~']
                        + underline_tail(*range, lineno as int, ch as int));
                } else {
                    assert(underline_tail(*range, lineno as int, ch - 1) =~= seq!['~']);
                }
                assert(into@ + underline_tail(*range, lineno as int, ch as int) =~= target);
            }
        }
        proof {
            assert(into@ =~= target);
        }
    } else {
        proof {
            assert(underline_tail(*range, lineno as int, i as int) =~= Seq::<char>::empty());
            assert(into@ =~= target);
        }
    }
    into.push('\n');
    proof {
        assert(into@ =~= old(into)@ + underline_row(
            *range,
            lineno_len as nat,
            lineno as int,
            line@,
        ));
    }
}

/// Append everything shown for one line of the window.
fn push_row(range: &Range, lineno_len: usize, lineno: u64, line: &Latin1String, into: &mut String)
    requires
        lineno < u64::MAX,
    ensures
        final(into)@ == old(into)@ + row_of(*range, lineno_len as nat, lineno as int, line@),
{
    let (c0, c1) = trim_cuts(line);
    let (numstr, _numlen) = dec_string(lineno + 1);
    proof {
        lemma_dec_rep_digits((lineno + 1) as nat);
    }
    let label = pad_lineno(numstr.as_str(), lineno_len);
    into.push_str(label.as_str());
    let ovl = range.start.line <= lineno && lineno <= range.end.line;
    if ovl {
        into.push_str(" --> ");
        proof {
            reveal_strlit(" --> ");
            assert(" --> "@ =~= seq![' ', '-', '-', '>', ' ']);
        }
    } else {
        into.push_str("  |  ");
        proof {
            reveal_strlit("  |  ");
            assert("  |  "@ =~= seq![' ', ' ', '|', ' ', ' ']);
        }
    }
    push_rendered(into, line, c1);
    into.push('\n');
    proof {
        assert(into@ =~= old(into)@ + content_row(
            *range,
            lineno_len as nat,
            lineno as int,
            line@,
        ));
    }
    if ovl {
        push_underline(range, lineno_len, lineno, line, c0, into);
    }
    proof {
        assert(into@ =~= old(into)@ + row_of(*range, lineno_len as nat, lineno as int, line@));
    }
}

/// The code excerpt around a span, drawn from the given line table.
fn code_context_of(contents: &Contents, range: &Range) -> (r: String)
    requires
        range.start.line <= u64::MAX - 3,
        range.end.line <= u64::MAX - 3,
    ensures
        r@ == code_context_spec(contents@, *range, LINE_CONTEXT as nat),
{
    let ghost ls = contents@;
    let ctx: u64 = LINE_CONTEXT;
    let lo: u64 = if range.start.line >= ctx {
        range.start.line - ctx
    } else {
        0
    };
    let hi: u64 = range.end.line + ctx;
    let (_, wlen) = dec_string(range.start.line + ctx + 1);
    let n = contents.num_lines();
    let mut s = String::new();
    if lo > hi || lo >= n as u64 {
        let empty = Latin1String::empty();
        push_row(range, wlen, range.start.line, &empty, &mut s);
        proof {
            assert(window_empty(ls, *range, LINE_CONTEXT as nat));
            assert(s@ =~= code_context_spec(ls, *range, LINE_CONTEXT as nat));
        }
        return s;
    }
    let ghost target = rows_from(ls, *range, wlen as nat, lo as int, hi as int);
    let mut lineno: u64 = lo;
    while lineno <= hi
        invariant
            lo <= lineno <= hi + 1,
            hi < u64::MAX,
            n == ls.len(),
            ls == contents@,
            wlen == lineno_width(*range, LINE_CONTEXT as nat),
            s@ + rows_from(ls, *range, wlen as nat, lineno as int, hi as int) == target,
        decreases hi + 1 - lineno,
    {
        if lineno < n as u64 {
            match contents.get_line(lineno as usize) {
                Some(line) => {
                    push_row(range, wlen, lineno, line, &mut s);
                    proof {
                        assert(rows_from(ls, *range, wlen as nat, lineno as int, hi as int)
                            == row_of(*range, wlen as nat, lineno as int, ls[lineno as int])
                            + rows_from(ls, *range, wlen as nat, lineno + 1, hi as int));
                        assert(s@ + rows_from(ls, *range, wlen as nat, lineno + 1, hi as int)
                            =~= target);
                    }
                },
                None => {
                    proof {
                        assert(false);
                    }
                },
            }
        } else {
            proof {
                assert(rows_from(ls, *range, wlen as nat, lineno as int, hi as int)
                    =~= Seq::<char>::empty());
                assert(rows_from(ls, *range, wlen as nat, lineno + 1, hi as int)
                    =~= Seq::<char>::empty());
            }
        }
        lineno = lineno + 1;
    }
    proof {
        assert(rows_from(ls, *range, wlen as nat, lineno as int, hi as int)
            =~= Seq::<char>::empty());
        assert(s@ =~= target);
        assert(!window_empty(ls, *range, LINE_CONTEXT as nat));
    }
    s
}

impl SrcPos {
    /// The code excerpt around this span, with line numbers, arrow markers
    /// on the span's lines, and an underline row beneath each of them.
    pub fn code_context(&self) -> (r: String)
        requires
            self.range.start.line <= u64::MAX - 3,
            self.range.end.line <= u64::MAX - 3,
        ensures
            r@ == code_context_spec(self.source@.lines, self.range, LINE_CONTEXT as nat),
    {
        code_context_of(self.source.contents(), &self.range)
    }

    /// A whole rendered message: the message, a one-based `--> file:line`
    /// pointer, and the code excerpt.
    pub fn show(&self, message: &str) -> (r: String)
        requires
            self.range.start.line <= u64::MAX - 3,
            self.range.end.line <= u64::MAX - 3,
        ensures
            r@ == show_spec(self.source@.name, self.source@.lines, self.range, message@),
    {
        let (_, wlen) = dec_string(self.range.start.line + LINE_CONTEXT + 1);
        let mut s = String::new();
        s.push_str(message);
        s.push('\n');
        push_repeat(&mut s, ' ', wlen as u64);
        s.push_str(" --> ");
        s.push_str(self.source.file_name());
        s.push(':');
        let (linestr, _) = dec_string(self.range.start.line + 1);
        s.push_str(linestr.as_str());
        s.push('\n');
        push_repeat(&mut s, ' ', wlen as u64);
        s.push_str("  |\n");
        let ctxstr = code_context_of(self.source.contents(), &self.range);
        s.push_str(ctxstr.as_str());
        proof {
            reveal_strlit(" --> ");
            reveal_strlit("  |\n");
            assert(" --> "@ =~= seq![' ', '-', '-', '>', ' ']);
            assert("  |\n"@ =~= seq![' ', ' ', '|', '\n']);
            assert(s@ =~= show_spec(self.source@.name, self.source@.lines, self.range, message@));
        }
        s
    }
}

} // verus!
