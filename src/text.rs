//! Rendered width of text, aware of ANSI escape sequences.
use ansi_str::AnsiStr;
use unicode_width::UnicodeWidthStr;
use vstd::prelude::*;
use vstd::string::StrSliceExecFns;

verus! {

/// What `ansi_str::AnsiStr::ansi_strip` leaves of a string: its text without escape sequences.
pub uninterp spec fn stripped_of(s: Seq<char>) -> Seq<char>;

/// What `unicode_width::UnicodeWidthStr::width` reports for a string.
pub uninterp spec fn unicode_width_of(s: Seq<char>) -> nat;

/// The pieces that `ansi_str::AnsiStr::ansi_split` cuts a string into at each line break,
/// each piece carrying the styling that was active where it starts.
pub uninterp spec fn ansi_lines_of(s: Seq<char>) -> Seq<Seq<char>>;

/// Rendered width of one line: its Unicode width once escape sequences are removed.
pub open spec fn display_width(s: Seq<char>) -> nat {
    unicode_width_of(stripped_of(s))
}

/// Widest rendered line among `lines` (0 when there is none).
pub open spec fn max_display_width(lines: Seq<Seq<char>>) -> nat
    decreases lines.len(),
{
    if lines.len() == 0 {
        0
    } else {
        let rest = max_display_width(lines.drop_last());
        let w = display_width(lines.last());
        if w > rest { w } else { rest }
    }
}

/// Rendered width of a possibly multi-line text: its widest line.
pub open spec fn text_width_of(s: Seq<char>) -> nat {
    max_display_width(ansi_lines_of(s))
}

/// Number of line breaks in `s`.
pub open spec fn count_breaks(s: Seq<char>) -> nat
    decreases s.len(),
{
    if s.len() == 0 {
        0
    } else {
        count_breaks(s.drop_last()) + if s.last() == '\n' { 1nat } else { 0nat }
    }
}

/// Number of lines of `s`: one more than its line breaks.
pub open spec fn line_count_of(s: Seq<char>) -> nat {
    count_breaks(s) + 1
}

/// `s` followed by `n` copies of `c`.
pub open spec fn pad_right(s: Seq<char>, n: nat, c: char) -> Seq<char> {
    s + Seq::new(n, |_i: int| c)
}

/// `line` padded with `fill` up to rendered width `width`; a line that is wide enough is kept.
pub open spec fn widen_line(line: Seq<char>, width: nat, fill: char) -> Seq<char> {
    if display_width(line) < width {
        pad_right(line, (width - display_width(line)) as nat, fill)
    } else {
        line
    }
}

/// Lines joined with a line break between each two.
pub open spec fn join_lines(lines: Seq<Seq<char>>) -> Seq<char>
    decreases lines.len(),
{
    if lines.len() == 0 {
        Seq::empty()
    } else if lines.len() == 1 {
        lines[0]
    } else {
        join_lines(lines.drop_last()) + seq!['\n'] + lines.last()
    }
}

/// The text `s` with each of its lines padded with `fill` up to rendered width `width`.
pub open spec fn widen_text(s: Seq<char>, width: nat, fill: char) -> Seq<char> {
    join_lines(ansi_lines_of(s).map_values(|l: Seq<char>| widen_line(l, width, fill)))
}

/// A decimal digit.
pub open spec fn is_digit(c: char) -> bool {
    '0' <= c && c <= '9'
}

/// A character that may stand among the parameters of a style sequence.
pub open spec fn is_param_char(c: char) -> bool {
    is_digit(c) || c == ';'
}

/// Number of `;` in `s[a..b]`.
pub open spec fn count_semis(s: Seq<char>, a: int, b: int) -> nat
    decreases b - a,
{
    if b <= a {
        0
    } else {
        count_semis(s, a, b - 1) + if s[b - 1] == ';' { 1nat } else { 0nat }
    }
}

/// `s[i..=j]` is a complete style sequence: ESC, `[`, a digit, digits and `;`, then `m`,
/// with fewer than 32 parameters.
pub open spec fn sgr_at(s: Seq<char>, i: int, j: int) -> bool {
    &&& 0 <= i
    &&& i + 3 <= j < s.len()
    &&& s[i + 1] == '['
    &&& is_digit(s[i + 2])
    &&& s[j] == 'm'
    &&& forall|k: int| i + 2 < k < j ==> #[trigger] is_param_char(s[k])
    &&& count_semis(s, i + 2, j) < 31
}

/// Every escape character of `s` opens a complete style sequence. On such text the escape
/// parser that the measuring functions rely on keeps its offsets on character boundaries.
pub open spec fn ansi_safe(s: Seq<char>) -> bool {
    forall|i: int| 0 <= i < s.len() && #[trigger] s[i] == '\x1b' ==> exists|j: int| sgr_at(s, i, j)
}

fn param_char(c: char) -> (b: bool)
    ensures
        b == is_param_char(c),
{
    ('0' <= c && c <= '9') || c == ';'
}

/// Whether a complete style sequence starts at `i`.
fn sgr_from(cs: &Vec<char>, i: usize) -> (b: bool)
    requires
        i < cs@.len(),
    ensures
        b == exists|j: int| sgr_at(cs@, i as int, j),
{
    let n = cs.len();
    if n - i <= 3 || cs[i + 1] != '[' || !('0' <= cs[i + 2] && cs[i + 2] <= '9') {
        return false;
    }
    let mut k: usize = i + 3;
    let mut semis: usize = 0;
    assert(count_semis(cs@, i + 2, k as int) == count_semis(cs@, i + 2, i + 2) + 0);
    while k < n && param_char(cs[k])
        invariant
            i + 3 <= k <= n,
            n == cs@.len(),
            forall|m: int| i + 2 < m < k ==> #[trigger] is_param_char(cs@[m]),
            semis == count_semis(cs@, i + 2, k as int),
            semis <= k,
        decreases n - k,
    {
        if cs[k] == ';' {
            semis = semis + 1;
        }
        k = k + 1;
    }
    if k < n && cs[k] == 'm' && semis < 31 {
        assert(sgr_at(cs@, i as int, k as int));
        true
    } else {
        assert forall|j: int| !sgr_at(cs@, i as int, j) by {
            if sgr_at(cs@, i as int, j) {
                if j < k {
                    assert(is_param_char(cs@[j]));
                } else if j > k {
                    assert(is_param_char(cs@[k as int]));
                }
            }
        }
        false
    }
}

/// Whether every escape character of `s` opens a complete style sequence.
pub fn is_ansi_safe(s: &str) -> (b: bool)
    ensures
        b == ansi_safe(s@),
{
    let cs = chars_of(s);
    let mut i: usize = 0;
    while i < cs.len()
        invariant
            i <= cs@.len(),
            cs@ == s@,
            forall|p: int| 0 <= p < i && #[trigger] s@[p] == '\x1b' ==> exists|j: int| sgr_at(s@, p, j),
        decreases cs@.len() - i,
    {
        if cs[i] == '\x1b' {
            if !sgr_from(&cs, i) {
                assert(s@[i as int] == '\x1b');
                return false;
            }
        }
        i = i + 1;
    }
    true
}

/// Relies on `ansi_str::AnsiStr::ansi_strip`: the text with its escape sequences removed;
/// an empty string stays empty.
#[verifier::external_body]
fn strip_ansi(s: &str) -> (r: String)
    requires
        ansi_safe(s@),
    ensures
        r@ == stripped_of(s@),
        s@.len() == 0 ==> r@.len() == 0,
{
    s.ansi_strip().into_owned()
}

/// Relies on `unicode_width::UnicodeWidthStr::width`: the displayed width in columns;
/// an empty string has width 0.
#[verifier::external_body]
fn unicode_width(s: &str) -> (r: usize)
    ensures
        r == unicode_width_of(s@),
        s@.len() == 0 ==> r == 0,
{
    UnicodeWidthStr::width(s)
}

/// Relies on `ansi_str::AnsiStr::ansi_split` with the pattern `"\n"`: like `str::split`,
/// it yields at least one piece. Each piece is a newline-free part of the text, to which only
/// complete style sequences are added, one per attribute, of at most five parameters each
/// (`write_ansi_prefix`, `write_ansi_postfix`, `write_color`).
#[verifier::external_body]
fn ansi_lines(s: &str) -> (r: Vec<String>)
    requires
        ansi_safe(s@),
    ensures
        r@.len() == ansi_lines_of(s@).len(),
        forall|i: int| 0 <= i < r@.len() ==> #[trigger] r@[i]@ == ansi_lines_of(s@)[i],
        r@.len() >= 1,
        forall|i: int| 0 <= i < r@.len() ==> #[trigger] ansi_safe(r@[i]@),
{
    s.ansi_split("\n").map(|l| l.into_owned()).collect()
}

/// Relies on `String::push`: appends one character.
#[verifier::external_body]
fn push_char(s: &mut String, c: char)
    ensures
        final(s)@ == old(s)@.push(c),
{
    s.push(c)
}

/// The characters of `s` in order.
fn chars_of(s: &str) -> (r: Vec<char>)
    ensures
        r@ == s@,
{
    let n = s.unicode_len();
    let mut r: Vec<char> = Vec::new();
    let mut i: usize = 0;
    while i < n
        invariant
            i <= n,
            n == s@.len(),
            r@ == s@.take(i as int),
        decreases n - i,
    {
        r.push(s.get_char(i));
        i = i + 1;
        assert(r@ =~= s@.take(i as int));
    }
    assert(s@.take(n as int) =~= s@);
    r
}

/// Rendered width of a single line, ignoring escape sequences.
pub fn string_width(line: &str) -> (r: usize)
    requires
        ansi_safe(line@),
    ensures
        r == display_width(line@),
        line@.len() == 0 ==> r == 0,
{
    let plain = strip_ansi(line);
    unicode_width(plain.as_str())
}

/// Rendered width of a text: the width of its widest line.
pub fn text_width(s: &str) -> (r: usize)
    requires
        ansi_safe(s@),
    ensures
        r == text_width_of(s@),
{
    let lines = ansi_lines(s);
    let mut best: usize = 0;
    let mut i: usize = 0;
    while i < lines.len()
        invariant
            i <= lines@.len(),
            lines@.len() == ansi_lines_of(s@).len(),
            forall|k: int| 0 <= k < lines@.len() ==> #[trigger] lines@[k]@ == ansi_lines_of(s@)[k],
            forall|k: int| 0 <= k < lines@.len() ==> #[trigger] ansi_safe(lines@[k]@),
            best == max_display_width(ansi_lines_of(s@).take(i as int)),
        decreases lines@.len() - i,
    {
        let w = string_width(lines[i].as_str());
        proof {
            let ls = ansi_lines_of(s@);
            assert(ls.take(i + 1).drop_last() =~= ls.take(i as int));
        }
        if w > best {
            best = w;
        }
        i = i + 1;
    }
    proof {
        assert(ansi_lines_of(s@).take(i as int) =~= ansi_lines_of(s@));
    }
    best
}

/// Number of lines of a text: one more than its line breaks.
pub fn count_lines(s: &str) -> (r: usize)
    requires
        line_count_of(s@) <= usize::MAX,
    ensures
        r == line_count_of(s@),
{
    let cs = chars_of(s);
    let mut n: usize = 0;
    let mut i: usize = 0;
    while i < cs.len()
        invariant
            i <= cs@.len(),
            cs@ == s@,
            n == count_breaks(s@.take(i as int)),
            line_count_of(s@) <= usize::MAX,
        decreases cs@.len() - i,
    {
        proof {
            assert(s@.take(i + 1).drop_last() =~= s@.take(i as int));
            lemma_count_breaks_prefix(s@, i + 1);
        }
        if cs[i] == '\n' {
            n = n + 1;
        }
        i = i + 1;
    }
    proof {
        assert(s@.take(i as int) =~= s@);
    }
    n + 1
}

/// Line breaks of a prefix never outnumber those of the whole text.
proof fn lemma_count_breaks_prefix(s: Seq<char>, k: int)
    requires
        0 <= k <= s.len(),
    ensures
        count_breaks(s.take(k)) <= count_breaks(s),
    decreases s.len() - k,
{
    if k < s.len() {
        lemma_count_breaks_prefix(s, k + 1);
        assert(s.take(k + 1).drop_last() =~= s.take(k));
    } else {
        assert(s.take(k) =~= s);
    }
}

/// Pads every line of `s` with `fill` up to rendered width `width`; lines that are already
/// that wide are kept as they are, and the lines are joined again with line breaks.
pub fn increase_width(s: &str, width: usize, fill: char) -> (r: String)
    requires
        ansi_safe(s@),
    ensures
        r@ == widen_text(s@, width as nat, fill),
        fill != '\x1b' ==> ansi_safe(r@),
{
    let lines = ansi_lines(s);
    let ghost ls = ansi_lines_of(s@);
    let ghost wide = ls.map_values(|l: Seq<char>| widen_line(l, width as nat, fill));
    let mut out = String::new();
    let mut i: usize = 0;
    while i < lines.len()
        invariant
            i <= lines@.len(),
            lines@.len() == ls.len(),
            ls == ansi_lines_of(s@),
            wide == ls.map_values(|l: Seq<char>| widen_line(l, width as nat, fill)),
            forall|k: int| 0 <= k < lines@.len() ==> #[trigger] lines@[k]@ == ls[k],
            forall|k: int| 0 <= k < lines@.len() ==> #[trigger] ansi_safe(lines@[k]@),
            out@ == join_lines(wide.take(i as int)),
            fill != '\x1b' ==> ansi_safe(out@),
        decreases lines@.len() - i,
    {
        let ghost start = out@;
        if i > 0 {
            push_char(&mut out, '\n');
        }
        let line = lines[i].as_str();
        let ghost before = out@;
        out.append(line);
        let length = string_width(line);
        if length < width {
            let remain = width - length;
            let mut k: usize = 0;
            while k < remain
                invariant
                    k <= remain,
                    out@ == before + line@ + Seq::new(k as nat, |_j: int| fill),
                decreases remain - k,
            {
                push_char(&mut out, fill);
                k = k + 1;
                assert(out@ =~= before + line@ + Seq::new(k as nat, |_j: int| fill));
            }
        }
        proof {
            assert(wide.take(i + 1).drop_last() =~= wide.take(i as int));
            if i == 0 {
                assert(before =~= Seq::<char>::empty());
            }
            assert(out@ =~= before + wide[i as int]);
            if fill != '\x1b' {
                if i > 0 {
                    lemma_no_escape_safe(seq!['\n']);
                    lemma_concat_safe(start, seq!['\n']);
                    assert(before =~= start + seq!['\n']);
                }
                let pad = out@.subrange((before.len() + line@.len()) as int, out@.len() as int);
                assert forall|k: int| 0 <= k < pad.len() implies #[trigger] pad[k] != '\x1b' by {
                    if display_width(line@) < width {
                        assert(pad[k] == fill);
                    }
                }
                lemma_no_escape_safe(pad);
                lemma_concat_safe(before, line@);
                lemma_concat_safe(before + line@, pad);
                assert(out@ =~= before + line@ + pad);
            }
        }
        i = i + 1;
    }
    proof {
        assert(wide.take(i as int) =~= wide);
    }
    out
}

/// Counting `;` over a stretch gives the same count wherever the stretch stands.
proof fn lemma_count_semis_shift(s: Seq<char>, t: Seq<char>, d: int, x: int, y: int)
    requires
        x <= y,
        forall|k: int| x <= k < y ==> #[trigger] t[k + d] == s[k],
    ensures
        count_semis(t, x + d, y + d) == count_semis(s, x, y),
    decreases y - x,
{
    if x < y {
        lemma_count_semis_shift(s, t, d, x, y - 1);
        assert(t[(y - 1) + d] == s[y - 1]);
        assert(y + d - 1 == (y - 1) + d);
    }
}

/// Text without an escape character is safe.
pub proof fn lemma_no_escape_safe(s: Seq<char>)
    requires
        forall|k: int| 0 <= k < s.len() ==> #[trigger] s[k] != '\x1b',
    ensures
        ansi_safe(s),
{
}

/// Safe texts put one after the other stay safe.
pub proof fn lemma_concat_safe(a: Seq<char>, b: Seq<char>)
    requires
        ansi_safe(a),
        ansi_safe(b),
    ensures
        ansi_safe(a + b),
{
    let t = a + b;
    assert forall|p: int| 0 <= p < t.len() && #[trigger] t[p] == '\x1b' implies exists|j: int| sgr_at(t, p, j) by {
        if p < a.len() {
            assert(a[p] == '\x1b');
            let j = choose|j: int| sgr_at(a, p, j);
            lemma_count_semis_shift(a, t, 0, p + 2, j);
            assert(forall|k: int| p + 2 < k < j ==> t[k] == a[k]);
            assert(sgr_at(t, p, j));
        } else {
            let q = p - a.len();
            assert(b[q] == '\x1b');
            let j = choose|j: int| sgr_at(b, q, j);
            lemma_count_semis_shift(b, t, a.len() as int, q + 2, j);
            assert(forall|k: int| q + 2 < k < j ==> t[k + a.len()] == b[k]);
            assert(forall|k: int| p + 2 < k < j + a.len() ==> t[k] == b[k - a.len()]);
            assert(sgr_at(t, p, j + a.len()));
        }
    }
}

} // verus!
