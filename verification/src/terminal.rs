//! The AI SSH terminal pane: cleaning remote output into a plain log,
//! the scroll-back window over that log, and the cursor overlay.
use vstd::prelude::*;
use crate::text::{chars_of, string_of, lines, lines_of, join, join_chars, views, is_blank, trim_bounds, split, split_chars, lemma_split_nonempty, utf8_len, utf8_len_of, last_occurrence, last_occurrence_of, lemma_usize_fits_u64, occurs_at, lemma_last_occurrence_skip, lemma_last_occurrence_below_bound};

verus! {

/// What remains after a CSI control sequence whose `ESC [` was already read:
/// everything up to and including its final byte (`@` to `~`) is dropped.
pub open spec fn csi_rest(t: Seq<char>) -> Seq<char>
    decreases t.len(),
{
    if t.len() == 0 {
        t
    } else if '@' <= t[0] && t[0] <= '~' {
        t.drop_first()
    } else {
        csi_rest(t.drop_first())
    }
}

/// What remains after an OSC sequence whose `ESC ]` was already read:
/// it ends at BEL or at the string terminator `ESC \`.
pub open spec fn osc_rest(t: Seq<char>) -> Seq<char>
    decreases t.len(),
{
    if t.len() == 0 {
        t
    } else if t[0] == '\x07' {
        t.drop_first()
    } else if t[0] == '\x1b' && t.len() > 1 && t[1] == '\\' {
        t.subrange(2, t.len() as int)
    } else {
        osc_rest(t.drop_first())
    }
}

pub proof fn lemma_csi_rest_suffix(t: Seq<char>)
    ensures
        csi_rest(t).len() <= t.len(),
        csi_rest(t) == t.subrange(t.len() - csi_rest(t).len(), t.len() as int),
    decreases t.len(),
{
    if t.len() > 0 && !('@' <= t[0] && t[0] <= '~') {
        lemma_csi_rest_suffix(t.drop_first());
        assert(t.drop_first().subrange(t.drop_first().len() - csi_rest(t).len(), t.drop_first().len() as int)
            =~= t.subrange(t.len() - csi_rest(t).len(), t.len() as int));
    } else if t.len() > 0 {
        assert(t.drop_first() =~= t.subrange(1, t.len() as int));
    } else {
        assert(t =~= t.subrange(0, 0));
    }
}

pub proof fn lemma_osc_rest_suffix(t: Seq<char>)
    ensures
        osc_rest(t).len() <= t.len(),
        osc_rest(t) == t.subrange(t.len() - osc_rest(t).len(), t.len() as int),
    decreases t.len(),
{
    if t.len() == 0 {
        assert(t =~= t.subrange(0, 0));
    } else if t[0] == '\x07' {
        assert(t.drop_first() =~= t.subrange(1, t.len() as int));
    } else if t[0] == '\x1b' && t.len() > 1 && t[1] == '\\' {
    } else {
        lemma_osc_rest_suffix(t.drop_first());
        assert(t.drop_first().subrange(t.drop_first().len() - osc_rest(t).len(), t.drop_first().len() as int)
            =~= t.subrange(t.len() - osc_rest(t).len(), t.len() as int));
    }
}

/// The plain-text log after appending remote output `t` to `out`:
/// CSI and OSC control sequences and a lone ESC are dropped, `\r` is
/// dropped, backspace and DEL erase the last logged character, and every
/// other character is kept.
pub open spec fn log_append(out: Seq<char>, t: Seq<char>) -> Seq<char>
    decreases t.len(),
{
    if t.len() == 0 {
        out
    } else {
        let c = t[0];
        let r = t.drop_first();
        if c == '\x1b' {
            if r.len() > 0 && r[0] == '[' {
                proof { lemma_csi_rest_suffix(r.drop_first()); }
                log_append(out, csi_rest(r.drop_first()))
            } else if r.len() > 0 && r[0] == ']' {
                proof { lemma_osc_rest_suffix(r.drop_first()); }
                log_append(out, osc_rest(r.drop_first()))
            } else {
                log_append(out, r)
            }
        } else if c == '\r' {
            log_append(out, r)
        } else if c == '\x08' || c == '\x7f' {
            log_append(if out.len() > 0 { out.drop_last() } else { out }, r)
        } else {
            log_append(out.push(c), r)
        }
    }
}

/// Appends remote output to a plain-text log (see `log_append`).
pub fn append_terminal_text(out: &mut Vec<char>, text: &[char])
    ensures
        final(out)@ == log_append(old(out)@, text@),
{
    let n = text.len();
    let mut i: usize = 0;
    assert(text@.subrange(0, n as int) =~= text@);
    while i < n
        invariant
            n == text@.len(),
            i <= n,
            log_append(old(out)@, text@) == log_append(out@, text@.subrange(i as int, n as int)),
        decreases n - i,
    {
        let ghost t = text@.subrange(i as int, n as int);
        let ghost r = t.drop_first();
        assert(r =~= text@.subrange(i + 1, n as int));
        let c = text[i];
        if c == '\x1b' {
            if i + 1 < n && text[i + 1] == '[' {
                let mut j = i + 2;
                assert(r.drop_first() =~= text@.subrange(j as int, n as int));
                while j < n && !('@' <= text[j] && text[j] <= '~')
                    invariant
                        i + 2 <= j <= n,
                        n == text@.len(),
                        csi_rest(r.drop_first()) == csi_rest(text@.subrange(j as int, n as int)),
                    decreases n - j,
                {
                    assert(text@.subrange(j as int, n as int).drop_first() =~= text@.subrange(j + 1, n as int));
                    j = j + 1;
                }
                if j < n {
                    assert(text@.subrange(j as int, n as int).drop_first() =~= text@.subrange(j + 1, n as int));
                    i = j + 1;
                } else {
                    i = n;
                }
            } else if i + 1 < n && text[i + 1] == ']' {
                let mut j = i + 2;
                assert(r.drop_first() =~= text@.subrange(j as int, n as int));
                let mut done = false;
                while j < n && !done
                    invariant
                        i + 2 <= j <= n,
                        n == text@.len(),
                        !done ==> osc_rest(r.drop_first()) == osc_rest(text@.subrange(j as int, n as int)),
                        done ==> osc_rest(r.drop_first()) == text@.subrange(j as int, n as int),
                    decreases n - j,
                {
                    let ghost u = text@.subrange(j as int, n as int);
                    if text[j] == '\x07' {
                        assert(u.drop_first() =~= text@.subrange(j + 1, n as int));
                        j = j + 1;
                        done = true;
                    } else if text[j] == '\x1b' && j + 1 < n && text[j + 1] == '\\' {
                        assert(u.subrange(2, u.len() as int) =~= text@.subrange(j + 2, n as int));
                        j = j + 2;
                        done = true;
                    } else {
                        assert(u.drop_first() =~= text@.subrange(j + 1, n as int));
                        j = j + 1;
                    }
                }
                if !done {
                    assert(text@.subrange(j as int, n as int).len() == 0);
                }
                i = j;
            } else {
                i = i + 1;
            }
        } else if c == '\r' {
            i = i + 1;
        } else if c == '\x08' || c == '\x7f' {
            out.pop();
            i = i + 1;
        } else {
            out.push(c);
            i = i + 1;
        }
    }
}

/// Remote output with its control sequences removed, as plain text.
pub fn sanitize_terminal_output(text: &str) -> (s: String)
    ensures
        s@ == log_append(Seq::empty(), text@),
{
    let t = chars_of(text);
    let mut out: Vec<char> = Vec::new();
    append_terminal_text(&mut out, t.as_slice());
    string_of(out.as_slice())
}

} // verus!

verus! {

/// The last (at most) `n` elements of `s`.
pub open spec fn last_n<A>(s: Seq<A>, n: nat) -> Seq<A> {
    if s.len() <= n {
        s
    } else {
        s.subrange(s.len() - n, s.len() as int)
    }
}

/// The context handed to the model: the last 80 lines of the log.
pub open spec fn recent_context_spec(log: Seq<char>) -> Seq<char> {
    join(last_n(lines(log), 80), "\n"@)
}

/// Copies elements `a..b` of a vector of lines.
pub fn copy_lines(ls: &Vec<Vec<char>>, a: usize, b: usize) -> (r: Vec<Vec<char>>)
    requires
        a <= b <= ls@.len(),
    ensures
        views(r@) == views(ls@).subrange(a as int, b as int),
{
    let mut r: Vec<Vec<char>> = Vec::new();
    let mut i = a;
    while i < b
        invariant
            a <= i <= b <= ls@.len(),
            views(r@) == views(ls@).subrange(a as int, i as int),
        decreases b - i,
    {
        let ghost before = views(r@);
        let c = ls[i].clone();
        assert(c@ == ls@[i as int]@);
        r.push(c);
        assert(views(r@) =~= before.push(views(ls@)[i as int]));
        assert(views(r@) =~= views(ls@).subrange(a as int, i + 1));
        i = i + 1;
    }
    r
}

/// The newline separator as characters.
fn newline() -> (v: Vec<char>)
    ensures
        v@ == "\n"@,
{
    chars_of("\n")
}

/// The last 80 lines of a log, joined with newlines.
pub fn recent_context(buffer: &str) -> (s: String)
    ensures
        s@ == recent_context_spec(buffer@),
{
    let b = chars_of(buffer);
    let ls = lines_of(b.as_slice());
    let n = ls.len();
    let start = if n > 80 { n - 80 } else { 0 };
    let tail = copy_lines(&ls, start, n);
    assert(views(tail@) =~= last_n(lines(buffer@), 80));
    let nl = newline();
    let joined = join_chars(&tail, nl.as_slice());
    string_of(joined.as_slice())
}

/// The lines of `log` that hold more than white space.
pub open spec fn non_blank_lines(log: Seq<char>) -> Seq<Seq<char>> {
    lines(log).filter(|l: Seq<char>| !is_blank(l))
}

/// The scroll-back offset actually used: `offset` clamped to the number of
/// non-blank lines beyond one screen.
pub open spec fn clamped_offset(n_lines: nat, rows: nat, offset: nat) -> nat {
    let max_offset: nat = if n_lines > rows { (n_lines - rows) as nat } else { 0 };
    if offset < max_offset { offset } else { max_offset }
}

/// The window of a scrolled-back view: `rows` non-blank lines ending
/// `offset` lines above the bottom, joined with newlines.
pub open spec fn history_window(log: Seq<char>, rows: nat, offset: nat) -> Seq<char> {
    let ls = non_blank_lines(log);
    if rows == 0 || ls.len() == 0 {
        Seq::empty()
    } else {
        let off = clamped_offset(ls.len(), rows, offset);
        let end = ls.len() - off;
        let start = if end > rows { end - rows } else { 0 };
        join(ls.subrange(start, end), "\n"@)
    }
}

/// Keeps the lines that hold more than white space.
pub fn non_blank_lines_of(ls: &Vec<Vec<char>>) -> (r: Vec<Vec<char>>)
    ensures
        views(r@) == views(ls@).filter(|l: Seq<char>| !is_blank(l)),
{
    let mut r: Vec<Vec<char>> = Vec::new();
    for i in 0..ls.len()
        invariant
            views(r@) == views(ls@).take(i as int).filter(|l: Seq<char>| !is_blank(l)),
    {
        proof {
            reveal(Seq::filter);
            assert(views(ls@).take(i + 1).drop_last() =~= views(ls@).take(i as int));
        }
        let (a, b) = trim_bounds(ls[i].as_slice());
        if a < b {
            let ghost before = views(r@);
            let c = ls[i].clone();
            r.push(c);
            assert(views(r@) =~= before.push(views(ls@)[i as int]));
        }
    }
    assert(views(ls@).take(ls@.len() as int) =~= views(ls@));
    r
}

/// The text of a scrolled-back view of the log (see `history_window`).
pub fn history_display_text(buffer: &str, rows: usize, offset_from_bottom: usize) -> (s: String)
    ensures
        s@ == history_window(buffer@, rows as nat, offset_from_bottom as nat),
{
    let b = chars_of(buffer);
    let all = lines_of(b.as_slice());
    let ls = non_blank_lines_of(&all);
    if rows == 0 || ls.len() == 0 {
        return String::new();
    }
    let n = ls.len();
    let max_offset = if n > rows { n - rows } else { 0 };
    let offset = if offset_from_bottom < max_offset { offset_from_bottom } else { max_offset };
    let end = n - offset;
    let start = if end > rows { end - rows } else { 0 };
    let window = copy_lines(&ls, start, end);
    let nl = newline();
    let joined = join_chars(&window, nl.as_slice());
    string_of(joined.as_slice())
}

} // verus!

verus! {

/// What `unicode_width::UnicodeWidthChar::width` returns for `c`.
pub uninterp spec fn unicode_width_of(c: char) -> Option<usize>;

/// Calls `unicode_width::UnicodeWidthChar::width`. Claimed of it, as the
/// crate's source shows: its result is fixed by `c`; printable ASCII is one
/// column; C0 controls and `\u{7f}`..`\u{9f}` have no width; no width exceeds 3.
#[verifier::external_body]
fn unicode_width(c: char) -> (w: Option<usize>)
    ensures
        w == unicode_width_of(c),
        ' ' <= c && c < '\u{7f}' ==> w == Some(1usize),
        c < ' ' || ('\u{7f}' <= c && c < '\u{a0}') ==> w is None,
        w matches Some(n) ==> n <= 3,
{
    unicode_width::UnicodeWidthChar::width(c)
}

/// The number of terminal cells `c` takes; characters without a width take none.
pub open spec fn cell_width(c: char) -> nat {
    match unicode_width_of(c) {
        Some(n) => n as nat,
        None => 0,
    }
}

/// The number of terminal cells `s` takes.
pub open spec fn cells(s: Seq<char>) -> nat
    decreases s.len(),
{
    if s.len() == 0 {
        0
    } else {
        cells(s.drop_last()) + cell_width(s.last())
    }
}

/// The cell width of one character: one for printable ASCII, none for
/// control characters, never more than 3.
pub fn cell_width_of(c: char) -> (n: usize)
    ensures
        n == cell_width(c),
        n <= 3,
        ' ' <= c && c < '\u{7f}' ==> n == 1,
        c < ' ' || ('\u{7f}' <= c && c < '\u{a0}') ==> n == 0,
{
    match unicode_width(c) {
        Some(n) => n,
        None => 0,
    }
}

} // verus!

verus! {

/// The number of terminal cells `s` takes.
pub fn cells_of(s: &[char]) -> (n: usize)
    requires
        s@.len() <= usize::MAX / 3,
    ensures
        n == cells(s@),
        n <= 3 * s@.len(),
{
    let mut n: usize = 0;
    for i in 0..s.len()
        invariant
            s@.len() <= usize::MAX / 3,
            n == cells(s@.take(i as int)),
            n <= 3 * i,
    {
        proof {
            assert(s@.take(i + 1).drop_last() =~= s@.take(i as int));
        }
        n = n + cell_width_of(s[i]);
    }
    assert(s@.take(s@.len() as int) =~= s@);
    n
}

/// The number of terminal cells `s` takes, counted wide enough that no
/// length of `s` overflows it.
pub fn cells_wide(s: &[char]) -> (n: u128)
    ensures
        n == cells(s@),
{
    let mut n: u128 = 0;
    proof {
        lemma_usize_fits_u64(s.len());
    }
    for i in 0..s.len()
        invariant
            n == cells(s@.take(i as int)),
            n <= 3 * i,
            s@.len() <= u64::MAX,
    {
        proof {
            assert(s@.take(i + 1).drop_last() =~= s@.take(i as int));
        }
        n = n + cell_width_of(s[i]) as u128;
    }
    assert(s@.take(s@.len() as int) =~= s@);
    n
}

/// The display width of `text` in terminal cells.
pub fn display_width(text: &str) -> (n: usize)
    requires
        text@.len() <= usize::MAX / 3,
    ensures
        n == cells(text@),
{
    let t = chars_of(text);
    cells_of(t.as_slice())
}

/// The index of the first character at which at least `target` cells lie
/// before it, searching from `k`; the length of `s` when there is none.
pub open spec fn col_index_from(s: Seq<char>, k: nat, target: nat) -> nat
    decreases s.len() - k,
{
    if k >= s.len() {
        s.len()
    } else if cells(s.take(k as int)) >= target {
        k
    } else {
        col_index_from(s, k + 1, target)
    }
}

/// The character index of terminal column `target` in `s`.
pub open spec fn col_index(s: Seq<char>, target: nat) -> nat {
    col_index_from(s, 0, target)
}

/// The character index of column `target` in `s`.
pub fn col_index_of(s: &[char], target: usize) -> (k: usize)
    ensures
        k == col_index(s@, target as nat),
        k <= s@.len(),
{
    let mut cur: u128 = 0;
    let mut k: usize = 0;
    proof {
        lemma_usize_fits_u64(s.len());
    }
    while k < s.len()
        invariant
            s@.len() <= u64::MAX,
            k <= s@.len(),
            cur == cells(s@.take(k as int)),
            cur <= 3 * k,
            col_index(s@, target as nat) == col_index_from(s@, k as nat, target as nat),
        decreases s.len() - k,
    {
        if cur >= target as u128 {
            return k;
        }
        proof {
            assert(s@.take(k + 1).drop_last() =~= s@.take(k as int));
        }
        cur = cur + cell_width_of(s[k]) as u128;
        k = k + 1;
    }
    k
}

/// The byte offset of terminal column `target_col` in `text`.
pub fn cell_col_to_byte_idx(text: &str, target_col: usize) -> (idx: usize)
    requires
        text@.len() <= usize::MAX / 4,
    ensures
        idx == utf8_len(text@.take(col_index(text@, target_col as nat) as int)),
{
    let t = chars_of(text);
    let k = col_index_of(t.as_slice(), target_col);
    let prefix = crate::text::slice_chars(t.as_slice(), 0, k);
    utf8_len_of(prefix.as_slice())
}

/// The block character that marks the cursor.
pub open spec fn cursor_block() -> char {
    '\u{2588}'
}

/// `line` padded with spaces until it is `col` cells wide.
pub open spec fn padded(line: Seq<char>, col: nat) -> Seq<char> {
    if cells(line) < col {
        line + Seq::new((col - cells(line)) as nat, |i: int| ' ')
    } else {
        line
    }
}

/// `line` with the cursor block drawn at column `col`: it replaces the
/// character there, or is appended when the line is not that wide.
pub open spec fn with_cursor(line: Seq<char>, col: nat) -> Seq<char> {
    let p = padded(line, col);
    let k = col_index(p, col);
    if k < p.len() {
        p.update(k as int, cursor_block())
    } else {
        p.push(cursor_block())
    }
}

/// The screen text with the cursor drawn at `(row, col)`, when it is visible.
pub open spec fn screen_with_cursor(output: Seq<char>, row: nat, col: nat, visible: bool) -> Seq<char> {
    if !visible {
        output
    } else {
        let ls = split(output, '\n');
        let ext = if ls.len() <= row { ls + Seq::new((row + 1 - ls.len()) as nat, |i: int| Seq::<char>::empty()) } else { ls };
        join(ext.update(row as int, with_cursor(ext[row as int], col)), "\n"@)
    }
}

proof fn lemma_cells_spaces(line: Seq<char>, n: nat)
    requires
        unicode_width_of(' ') == Some(1usize),
    ensures
        cells(line + Seq::new(n, |i: int| ' ')) == cells(line) + n,
    decreases n,
{
    if n > 0 {
        let sp = Seq::new(n, |i: int| ' ');
        let sp1 = Seq::new((n - 1) as nat, |i: int| ' ');
        lemma_cells_spaces(line, (n - 1) as nat);
        assert((line + sp).drop_last() =~= line + sp1);
        assert((line + sp).last() == ' ');
    }
}

} // verus!

verus! {

/// The screen text with a visible cursor block at `cursor_position`
/// (row, column), as the AI SSH pane draws it.
pub fn terminal_display_text(output: &str, cursor_position: (u16, u16), cursor_visible: bool) -> (s: String)
    ensures
        s@ == screen_with_cursor(output@, cursor_position.0 as nat, cursor_position.1 as nat, cursor_visible),
{
    let t = chars_of(output);
    if !cursor_visible {
        return string_of(t.as_slice());
    }
    let (row16, col16) = cursor_position;
    let row = row16 as usize;
    let col = col16 as usize;
    let mut ls = split_chars(t.as_slice(), '\n');
    proof {
        lemma_split_nonempty(output@, '\n');
    }
    let ghost orig = views(ls@);
    let ghost ext = if orig.len() <= row { orig + Seq::new((row + 1 - orig.len()) as nat, |i: int| Seq::<char>::empty()) } else { orig };
    while ls.len() <= row
        invariant
            orig.len() <= ls@.len(),
            orig.len() <= row ==> ls@.len() <= row + 1,
            orig.len() > row ==> ls@.len() == orig.len(),
            orig.len() <= row ==> ext == orig + Seq::new((row + 1 - orig.len()) as nat, |i: int| Seq::<char>::empty()),
            orig.len() > row ==> ext == orig,
            forall|i: int| 0 <= i < orig.len() ==> views(ls@)[i] == orig[i],
            forall|i: int| orig.len() <= i < ls@.len() ==> views(ls@)[i] == Seq::<char>::empty(),
        decreases row + 1 - ls.len(),
    {
        let ghost before = views(ls@);
        ls.push(Vec::new());
        assert(views(ls@) =~= before.push(Seq::<char>::empty()));
    }
    assert(views(ls@) =~= ext);
    let mut line = ls[row].clone();
    assert(line@ == ext[row as int]);
    let _space = unicode_width(' ');
    let w128 = cells_wide(line.as_slice());
    if w128 < col as u128 {
        let w = w128 as usize;
        let ghost before = line@;
        let mut k: usize = w;
        while k < col
            invariant
                w <= k <= col,
                line@ == before + Seq::new((k - w) as nat, |i: int| ' '),
            decreases col - k,
        {
            line.push(' ');
            assert(line@ =~= before + Seq::new((k + 1 - w) as nat, |i: int| ' '));
            k = k + 1;
        }
        proof {
            lemma_cells_spaces(before, (col - w) as nat);
        }
    }
    assert(line@ == padded(ext[row as int], col as nat));
    let k = col_index_of(line.as_slice(), col);
    if k < line.len() {
        line.set(k, '\u{2588}');
    } else {
        line.push('\u{2588}');
    }
    assert(line@ == with_cursor(ext[row as int], col as nat));
    let ghost before_set = views(ls@);
    ls.set(row, line);
    assert(views(ls@) =~= before_set.update(row as int, with_cursor(ext[row as int], col as nat)));
    let nl = newline();
    let joined = join_chars(&ls, nl.as_slice());
    string_of(joined.as_slice())
}

} // verus!

verus! {

/// What the screen emulator is fed, as plain values: a list of steps, each
/// a pane size (rows, columns) and the text processed at that size.
pub type ScreenInput = Seq<(u16, u16, Seq<char>)>;

/// The view of a list of emulator steps.
pub open spec fn screen_input_view(h: Seq<(u16, u16, String)>) -> ScreenInput {
    h.map_values(|e: (u16, u16, String)| (e.0, e.1, e.2@))
}

/// Whether `vt100` draws `c` over more than one cell.
pub open spec fn is_wide(c: char) -> bool {
    cell_width(c) >= 2
}

/// Whether some step's text holds a wide character.
pub open spec fn fed_wide(h: ScreenInput) -> bool {
    exists|i: int, k: int| 0 <= i < h.len() && 0 <= k < h[i].2.len() && #[trigger] is_wide(h[i].2[k])
}

/// Whether `vt100` can take the steps: every step has at least one row and
/// three columns (the crate computes `rows - 1`, `cols - 1` and `cols` less
/// a character's width, which `unicode-width` gives as at most 3), and no
/// step has fewer columns than the one before once a wide character has
/// been fed (the crate's `set_size` can then leave the first half of a wide
/// character in the last column, and writing over it panics).
pub open spec fn steps_fit(h: ScreenInput) -> bool {
    &&& forall|i: int| 0 <= i < h.len() ==> (#[trigger] h[i]).0 >= 1 && h[i].1 >= 3
    &&& forall|j: int| 0 < j < h.len() && (#[trigger] h[j]).1 < h[j - 1].1 ==> !fed_wide(h.take(j))
}

/// The text of the visible screen (`vt100::Screen::contents`) of a `vt100`
/// parser made with the first step's size and `scrollback_len` rows of
/// scroll-back, then given each step in turn: resized to it, then fed its text.
pub uninterp spec fn vt_screen_text(steps: ScreenInput, scrollback_len: usize) -> Seq<char>;

/// The cursor (`vt100::Screen::cursor_position`, row then column) of the
/// same parser.
pub uninterp spec fn vt_cursor(steps: ScreenInput, scrollback_len: usize) -> (u16, u16);

/// Runs a `vt100::Parser` (`Parser::new`, `set_size`, `process`) over the
/// steps and reads its screen's `contents` and `cursor_position`. Claimed of
/// it: the results are fixed by the steps and the scroll-back length (the
/// crate keeps no other state), and named above. It needs at least one step,
/// and steps it can take (see `steps_fit`).
#[verifier::external_body]
fn vt_render(steps: &Vec<(u16, u16, String)>, scrollback_len: usize) -> (r: (String, (u16, u16)))
    requires
        steps@.len() > 0,
        steps_fit(screen_input_view(steps@)),
    ensures
        r.0@ == vt_screen_text(screen_input_view(steps@), scrollback_len),
        r.1 == vt_cursor(screen_input_view(steps@), scrollback_len),
{
    let mut parser = vt100::Parser::new(steps[0].0, steps[0].1, scrollback_len);
    for (rows, cols, text) in steps.iter() {
        parser.set_size(*rows, *cols);
        parser.process(text.as_bytes());
    }
    let screen = parser.screen();
    (screen.contents(), screen.cursor_position())
}

/// The number of scroll-back rows the screen emulator keeps.
pub const AI_TERMINAL_SCROLLBACK_ROWS: usize = 5000;

/// The number of log lines that `push_output` keeps.
pub const PLAIN_LOG_LINES: usize = 300;

/// The number of trailing characters kept to find a cursor-key mode
/// switch split across two reads.
pub const MODE_SCAN_TAIL_CHARS: usize = 16;

/// The log after a push: `appended` cut to its last 300 lines, joined with
/// newlines, with the final newline kept when there was one.
pub open spec fn kept_log(appended: Seq<char>) -> Seq<char> {
    let kept = join(last_n(lines(appended), 300), "\n"@);
    if appended.len() > 0 && appended.last() == '\n' && kept.len() > 0 {
        kept.push('\n')
    } else {
        kept
    }
}

/// The escape sequence that turns application cursor-key mode on.
pub open spec fn mode_on_seq() -> Seq<char> {
    "\x1b[?1h"@
}

/// The escape sequence that turns application cursor-key mode off.
pub open spec fn mode_off_seq() -> Seq<char> {
    "\x1b[?1l"@
}

/// The cursor-key mode after scanning `scan`: the later of the last switch
/// on and the last switch off decides; with neither, `mode` stays.
pub open spec fn cursor_mode_after(mode: bool, scan: Seq<char>) -> bool {
    let on = last_occurrence(scan, mode_on_seq());
    let off = last_occurrence(scan, mode_off_seq());
    if on >= 0 && off >= 0 {
        on > off
    } else if on >= 0 {
        true
    } else if off >= 0 {
        false
    } else {
        mode
    }
}

/// The number of scroll-back lines beyond one screen of `rows` rows.
pub open spec fn max_offset_of(log: Seq<char>, rows: nat) -> nat {
    let n = non_blank_lines(log).len();
    if n > rows { (n - rows) as nat } else { 0 }
}

/// The scroll-back offset after scrolling back `rows` lines from `offset`:
/// no further than `max`, the oldest line.
pub open spec fn offset_after_up(offset: nat, rows: nat, max: nat) -> nat {
    if offset + rows < max { offset + rows } else { max }
}

/// The scroll-back offset after scrolling forward `rows` lines from
/// `offset`: no further than 0, the live screen.
pub open spec fn offset_after_down(offset: nat, rows: nat) -> nat {
    if offset > rows { (offset - rows) as nat } else { 0 }
}

/// The emulator input after remote output `t`: appended to the last step's
/// text, so it is processed at the pane's current size.
pub open spec fn input_after_output(h: ScreenInput, t: Seq<char>) -> ScreenInput {
    h.update(h.len() - 1, (h.last().0, h.last().1, h.last().2 + t))
}

/// The emulator input after a resize: a new step at the new size, unless
/// the last step is already an empty one of that size (resizing again to
/// the same size right after a resize changes nothing in the emulator).
pub open spec fn input_after_resize(h: ScreenInput, rows: u16, cols: u16) -> ScreenInput {
    if h.last() == (rows, cols, Seq::<char>::empty()) { h } else { h.push((rows, cols, Seq::empty())) }
}

proof fn lemma_push_empty_step(h: ScreenInput, rows: u16, cols: u16)
    requires
        h.len() > 0,
        steps_fit(h),
        rows >= 1,
        cols >= 3,
        cols >= h.last().1 || !fed_wide(h),
    ensures
        steps_fit(h.push((rows, cols, Seq::<char>::empty()))),
        fed_wide(h.push((rows, cols, Seq::<char>::empty()))) == fed_wide(h),
{
    let g = h.push((rows, cols, Seq::<char>::empty()));
    assert forall|i: int| 0 <= i < g.len() implies (#[trigger] g[i]).0 >= 1 && g[i].1 >= 3 by {
        if i < h.len() {
            assert(g[i] == h[i]);
        }
    }
    assert forall|j: int| 0 < j < g.len() && (#[trigger] g[j]).1 < g[j - 1].1 implies !fed_wide(g.take(j)) by {
        if j < h.len() {
            assert(g[j] == h[j] && g[j - 1] == h[j - 1]);
            assert(g.take(j) =~= h.take(j));
        } else {
            assert(g[j - 1] == h.last());
            assert(g.take(j) =~= h);
        }
    }
    if fed_wide(g) {
        let (i, k) = choose|i: int, k: int| 0 <= i < g.len() && 0 <= k < g[i].2.len() && #[trigger] is_wide(g[i].2[k]);
        assert(i < h.len());
        assert(g[i] == h[i]);
    }
    if fed_wide(h) {
        let (i, k) = choose|i: int, k: int| 0 <= i < h.len() && 0 <= k < h[i].2.len() && #[trigger] is_wide(h[i].2[k]);
        assert(g[i] == h[i]);
        assert(is_wide(g[i].2[k]));
    }
}

proof fn lemma_output_step(h: ScreenInput, t: Seq<char>)
    requires
        h.len() > 0,
        steps_fit(h),
    ensures
        steps_fit(input_after_output(h, t)),
        fed_wide(input_after_output(h, t)) == (fed_wide(h) || exists|k: int| 0 <= k < t.len() && #[trigger] is_wide(t[k])),
{
    let g = input_after_output(h, t);
    let n = h.len() - 1;
    let old_text = h.last().2;
    assert(g[n].2 == old_text + t);
    assert forall|i: int| 0 <= i < g.len() implies (#[trigger] g[i]).0 >= 1 && g[i].1 >= 3 by {
        assert(h[i].0 >= 1);
    }
    assert forall|j: int| 0 < j < g.len() && (#[trigger] g[j]).1 < g[j - 1].1 implies !fed_wide(g.take(j)) by {
        assert(h[j].1 == g[j].1 && h[j - 1].1 == g[j - 1].1);
        assert(g.take(j) =~= h.take(j));
    }
    if fed_wide(g) {
        let (i, k) = choose|i: int, k: int| 0 <= i < g.len() && 0 <= k < g[i].2.len() && #[trigger] is_wide(g[i].2[k]);
        if i < n {
            assert(g[i] == h[i]);
        } else if k < old_text.len() {
            assert(g[i].2[k] == h[i].2[k]);
        } else {
            assert(g[i].2[k] == t[k - old_text.len()]);
        }
    }
    if fed_wide(h) {
        let (i, k) = choose|i: int, k: int| 0 <= i < h.len() && 0 <= k < h[i].2.len() && #[trigger] is_wide(h[i].2[k]);
        if i < n {
            assert(g[i] == h[i]);
        } else {
            assert(g[i].2[k] == h[i].2[k]);
        }
        assert(is_wide(g[i].2[k]));
    }
    if exists|k: int| 0 <= k < t.len() && #[trigger] is_wide(t[k]) {
        let k = choose|k: int| 0 <= k < t.len() && #[trigger] is_wide(t[k]);
        assert(g[n].2[old_text.len() + k] == t[k]);
        assert(is_wide(g[n].2[old_text.len() + k]));
    }
}

/// The live screen as the pane shows it: the emulated screen with the
/// cursor block at the emulated cursor when the cursor is visible.
pub open spec fn live_screen(h: ScreenInput, cursor_visible: bool) -> Seq<char> {
    let cursor = vt_cursor(h, AI_TERMINAL_SCROLLBACK_ROWS);
    screen_with_cursor(vt_screen_text(h, AI_TERMINAL_SCROLLBACK_ROWS), cursor.0 as nat, cursor.1 as nat, cursor_visible)
}

/// The AI SSH terminal: the input of a screen emulator for the live view,
/// and a plain text log of the session for scroll-back and for the model's
/// context.
pub struct TerminalBuffer {
    screen_steps: Vec<(u16, u16, String)>,
    plain_log: Vec<char>,
    application_cursor_mode: bool,
    mode_scan_tail: Vec<char>,
    history_offset: usize,
    rows: u16,
    cols: u16,
    wide_fed: bool,
}

impl TerminalBuffer {
    /// Whether a wide character has been fed to the emulator.
    pub closed spec fn wide_seen(&self) -> bool {
        self.wide_fed
    }

    /// Whether the pane can take `cols` columns: it is not narrower, or no
    /// wide character has been fed (see `steps_fit`).
    pub open spec fn can_take_cols(&self, cols: u16) -> bool {
        cols >= self.col_count() || !self.wide_seen()
    }

    /// What the screen emulator has been fed.
    pub closed spec fn screen_input(&self) -> ScreenInput {
        screen_input_view(self.screen_steps@)
    }

    /// The plain text log.
    pub closed spec fn log(&self) -> Seq<char> {
        self.plain_log@
    }

    /// Whether the remote side has switched cursor keys to application mode.
    pub closed spec fn cursor_mode(&self) -> bool {
        self.application_cursor_mode
    }

    /// The last characters of output kept to find a split mode switch.
    pub closed spec fn scan_tail(&self) -> Seq<char> {
        self.mode_scan_tail@
    }

    /// How many lines the view is scrolled back; 0 shows the live screen.
    pub closed spec fn offset(&self) -> nat {
        self.history_offset as nat
    }

    /// The number of rows of the pane.
    pub closed spec fn row_count(&self) -> u16 {
        self.rows
    }

    /// The number of columns of the pane.
    pub closed spec fn col_count(&self) -> u16 {
        self.cols
    }

    /// Well-formed: the pane has at least one row and three columns, the
    /// emulator has been fed at least one step, every step fits, and the
    /// last step has the pane's size. Every constructor and method keeps it.
    pub open spec fn wf(&self) -> bool {
        &&& self.row_count() >= 1
        &&& self.col_count() >= 3
        &&& self.screen_input().len() > 0
        &&& steps_fit(self.screen_input())
        &&& self.screen_input().last().0 == self.row_count()
        &&& self.screen_input().last().1 == self.col_count()
        &&& self.wide_seen() == fed_wide(self.screen_input())
    }

    /// An empty terminal of the given size.
    pub fn new(rows: u16, cols: u16) -> (t: Self)
        requires
            rows >= 1,
            cols >= 3,
        ensures
            t.wf(),
            t.screen_input() == seq![(rows, cols, Seq::<char>::empty())],
            t.log() == Seq::<char>::empty(),
            !t.cursor_mode(),
            t.scan_tail() == Seq::<char>::empty(),
            t.offset() == 0,
            t.row_count() == rows,
            t.col_count() == cols,
    {
        let mut steps: Vec<(u16, u16, String)> = Vec::new();
        steps.push((rows, cols, String::new()));
        let t = TerminalBuffer {
            screen_steps: steps,
            plain_log: Vec::new(),
            application_cursor_mode: false,
            mode_scan_tail: Vec::new(),
            history_offset: 0,
            rows,
            cols,
            wide_fed: false,
        };
        assert(t.screen_input() =~= seq![(rows, cols, Seq::<char>::empty())]);
        assert(!fed_wide(t.screen_input()));
        t
    }

    /// Changes the size of the pane; the emulator goes on at the new size,
    /// and the log and the modes stay.
    pub fn resize(&mut self, rows: u16, cols: u16)
        requires
            old(self).wf(),
            rows >= 1,
            cols >= 3,
            old(self).can_take_cols(cols),
        ensures
            final(self).wf(),
            final(self).screen_input() == input_after_resize(old(self).screen_input(), rows, cols),
            final(self).row_count() == rows,
            final(self).col_count() == cols,
            final(self).log() == old(self).log(),
            final(self).cursor_mode() == old(self).cursor_mode(),
            final(self).scan_tail() == old(self).scan_tail(),
            final(self).offset() == old(self).offset(),
    {
        let n = self.screen_steps.len();
        let same = rows == self.rows && cols == self.cols && self.screen_steps[n - 1].2.as_str().is_empty();
        proof {
            let last = self.screen_input().last();
            assert(last == (self.screen_steps@[n - 1].0, self.screen_steps@[n - 1].1, self.screen_steps@[n - 1].2@));
            if same {
                assert(last.2 =~= Seq::<char>::empty());
            }
        }
        if !same {
            let ghost before = self.screen_input();
            proof {
                lemma_push_empty_step(before, rows, cols);
            }
            self.screen_steps.push((rows, cols, String::new()));
            assert(self.screen_input() =~= before.push((rows, cols, Seq::<char>::empty())));
        }
        self.rows = rows;
        self.cols = cols;
    }

    /// Fits the pane to `rows` by `cols`: it takes the new size when it can
    /// (see `can_take_cols`), otherwise the new number of rows and its
    /// present columns. Says whether the columns followed.
    pub fn fit_pane(&mut self, rows: u16, cols: u16) -> (b: bool)
        requires
            old(self).wf(),
            rows >= 1,
            cols >= 3,
        ensures
            b == old(self).can_take_cols(cols),
            final(self).wf(),
            final(self).screen_input() == input_after_resize(old(self).screen_input(), rows, if b { cols } else { old(self).col_count() }),
            final(self).row_count() == rows,
            final(self).col_count() == if b { cols } else { old(self).col_count() },
            final(self).log() == old(self).log(),
            final(self).cursor_mode() == old(self).cursor_mode(),
            final(self).scan_tail() == old(self).scan_tail(),
            final(self).offset() == old(self).offset(),
    {
        if cols >= self.cols || !self.wide_fed {
            self.resize(rows, cols);
            true
        } else {
            let keep = self.cols;
            self.resize(rows, keep);
            false
        }
    }

    /// Forgets the session: an empty 32 by 120 terminal.
    pub fn clear(&mut self)
        ensures
            final(self).wf(),
            final(self).screen_input() == seq![(32u16, 120u16, Seq::<char>::empty())],
            final(self).log() == Seq::<char>::empty(),
            !final(self).cursor_mode(),
            final(self).scan_tail() == Seq::<char>::empty(),
            final(self).offset() == 0,
            final(self).row_count() == 32,
            final(self).col_count() == 120,
    {
        let mut steps: Vec<(u16, u16, String)> = Vec::new();
        steps.push((32, 120, String::new()));
        self.screen_steps = steps;
        self.plain_log = Vec::new();
        self.application_cursor_mode = false;
        self.mode_scan_tail = Vec::new();
        self.history_offset = 0;
        self.rows = 32;
        self.cols = 120;
        self.wide_fed = false;
        assert(self.screen_input() =~= seq![(32u16, 120u16, Seq::<char>::empty())]);
        assert(!fed_wide(self.screen_input()));
    }

    /// Tracks switches of the cursor-key mode in remote output, also when
    /// a switch is split across two reads.
    pub fn update_cursor_key_mode(&mut self, text: &str)
        ensures
            final(self).cursor_mode() == cursor_mode_after(old(self).cursor_mode(), old(self).scan_tail() + text@),
            final(self).scan_tail() == last_n(old(self).scan_tail() + text@, 16),
            final(self).wide_seen() == old(self).wide_seen(),
            final(self).screen_input() == old(self).screen_input(),
            final(self).log() == old(self).log(),
            final(self).offset() == old(self).offset(),
            final(self).row_count() == old(self).row_count(),
            final(self).col_count() == old(self).col_count(),
    {
        let mut scan = self.mode_scan_tail.clone();
        crate::text::push_str(&mut scan, text);
        let n = scan.len();
        let start = if n > MODE_SCAN_TAIL_CHARS { n - MODE_SCAN_TAIL_CHARS } else { 0 };
        self.mode_scan_tail = crate::text::slice_chars(scan.as_slice(), start, n);
        proof {
            assert(scan@.subrange(start as int, n as int) =~= last_n(scan@, 16));
        }
        let on = chars_of("\x1b[?1h");
        let off = chars_of("\x1b[?1l");
        let enable = last_occurrence_of(scan.as_slice(), on.as_slice());
        let disable = last_occurrence_of(scan.as_slice(), off.as_slice());
        match (enable, disable) {
            (Some(enable_at), Some(disable_at)) => {
                self.application_cursor_mode = enable_at > disable_at;
            },
            (Some(_), None) => {
                self.application_cursor_mode = true;
            },
            (None, Some(_)) => {
                self.application_cursor_mode = false;
            },
            (None, None) => {},
        }
    }

    /// Takes a read of remote output: the cursor-key mode, the screen
    /// emulator's input and the plain log (cut to its last 300 lines) follow it.
    pub fn push_output(&mut self, text: &str)
        requires
            old(self).wf(),
        ensures
            final(self).wf(),
            final(self).screen_input() == input_after_output(old(self).screen_input(), text@),
            final(self).log() == kept_log(log_append(old(self).log(), text@)),
            final(self).cursor_mode() == cursor_mode_after(old(self).cursor_mode(), old(self).scan_tail() + text@),
            final(self).scan_tail() == last_n(old(self).scan_tail() + text@, 16),
            final(self).offset() == old(self).offset(),
            final(self).row_count() == old(self).row_count(),
            final(self).col_count() == old(self).col_count(),
    {
        self.update_cursor_key_mode(text);
        let t = chars_of(text);
        let ghost before = self.screen_input();
        let mut any_wide = false;
        for i in 0..t.len()
            invariant
                any_wide == exists|k: int| 0 <= k < i && #[trigger] is_wide(t@[k]),
        {
            let w = cell_width_of(t[i]);
            proof {
                if w >= 2 {
                    assert(is_wide(t@[i as int]));
                } else {
                    assert(!is_wide(t@[i as int]));
                    assert forall|k: int| 0 <= k < i + 1 && #[trigger] is_wide(t@[k]) implies k < i by {}
                }
            }
            if w >= 2 {
                any_wide = true;
            }
        }
        assert(t@ == text@);
        proof {
            lemma_output_step(before, text@);
        }
        self.wide_fed = self.wide_fed || any_wide;
        let last = self.screen_steps.pop();
        match last {
            Some((r, c, s)) => {
                let mut s = s;
                let ghost s0 = s@;
                for i in 0..t.len()
                    invariant
                        s@ == s0 + t@.take(i as int),
                {
                    s.push(t[i]);
                    assert(t@.take(i + 1) =~= t@.take(i as int).push(t@[i as int]));
                }
                assert(t@.take(t@.len() as int) =~= t@);
                self.screen_steps.push((r, c, s));
                assert(self.screen_input() =~= input_after_output(before, text@));
            },
            None => {},
        }
        let mut log = self.plain_log.clone();
        append_terminal_text(&mut log, t.as_slice());
        let ghost appended = log@;
        let ends_with_newline = log.len() > 0 && log[log.len() - 1] == '\n';
        let ls = lines_of(log.as_slice());
        let n = ls.len();
        let start = if n > PLAIN_LOG_LINES { n - PLAIN_LOG_LINES } else { 0 };
        let tail = copy_lines(&ls, start, n);
        assert(views(tail@) =~= last_n(lines(appended), 300));
        let nl = newline();
        let mut kept = join_chars(&tail, nl.as_slice());
        if ends_with_newline && kept.len() > 0 {
            kept.push('\n');
        }
        self.plain_log = kept;
    }

    /// The text the pane shows: the scrolled-back log window when scrolled
    /// back, otherwise the emulated screen with the cursor drawn on it.
    pub fn display_text(&self, cursor_visible: bool) -> (s: String)
        requires
            self.wf(),
        ensures
            self.offset() > 0 ==> s@ == history_window(self.log(), self.row_count() as nat, self.offset()),
            self.offset() == 0 ==> s@ == live_screen(self.screen_input(), cursor_visible),
    {
        if self.history_offset > 0 {
            let log = string_of(self.plain_log.as_slice());
            return history_display_text(log.as_str(), self.rows as usize, self.history_offset);
        }
        let (contents, cursor) = vt_render(&self.screen_steps, AI_TERMINAL_SCROLLBACK_ROWS);
        terminal_display_text(contents.as_str(), cursor, cursor_visible)
    }

    /// The last 80 lines of the log.
    pub fn recent_context(&self) -> (s: String)
        ensures
            s@ == recent_context_spec(self.log()),
    {
        let log = string_of(self.plain_log.as_slice());
        recent_context(log.as_str())
    }

    /// Whether cursor keys are in application mode.
    pub fn application_cursor_mode(&self) -> (b: bool)
        ensures
            b == self.cursor_mode(),
    {
        self.application_cursor_mode
    }

    /// How many lines the view is scrolled back.
    pub fn scrollback_offset(&self) -> (n: usize)
        ensures
            n == self.offset(),
    {
        self.history_offset
    }

    /// The most the view can scroll back: non-blank log lines beyond one screen.
    pub fn max_history_offset(&self) -> (n: usize)
        ensures
            n == max_offset_of(self.log(), self.row_count() as nat),
    {
        let all = lines_of(self.plain_log.as_slice());
        let ls = non_blank_lines_of(&all);
        let rows = self.rows as usize;
        if ls.len() > rows { ls.len() - rows } else { 0 }
    }

    /// Scrolls back `rows` lines, no further than the oldest line.
    pub fn scrollback_up(&mut self, rows: usize)
        ensures
            final(self).offset() == offset_after_up(old(self).offset(), rows as nat, max_offset_of(old(self).log(), old(self).row_count() as nat)),
            final(self).wide_seen() == old(self).wide_seen(),
            final(self).screen_input() == old(self).screen_input(),
            final(self).log() == old(self).log(),
            final(self).cursor_mode() == old(self).cursor_mode(),
            final(self).scan_tail() == old(self).scan_tail(),
            final(self).row_count() == old(self).row_count(),
            final(self).col_count() == old(self).col_count(),
    {
        let max_offset = self.max_history_offset();
        let up = self.history_offset.saturating_add(rows);
        self.history_offset = if up < max_offset { up } else { max_offset };
    }

    /// Scrolls forward `rows` lines, no further than the live screen.
    pub fn scrollback_down(&mut self, rows: usize)
        ensures
            final(self).offset() == offset_after_down(old(self).offset(), rows as nat),
            final(self).wide_seen() == old(self).wide_seen(),
            final(self).screen_input() == old(self).screen_input(),
            final(self).log() == old(self).log(),
            final(self).cursor_mode() == old(self).cursor_mode(),
            final(self).scan_tail() == old(self).scan_tail(),
            final(self).row_count() == old(self).row_count(),
            final(self).col_count() == old(self).col_count(),
    {
        self.history_offset = self.history_offset.saturating_sub(rows);
    }

    /// Scrolls back to the oldest line.
    pub fn scrollback_top(&mut self)
        ensures
            final(self).offset() == max_offset_of(old(self).log(), old(self).row_count() as nat),
            final(self).wide_seen() == old(self).wide_seen(),
            final(self).screen_input() == old(self).screen_input(),
            final(self).log() == old(self).log(),
            final(self).cursor_mode() == old(self).cursor_mode(),
            final(self).scan_tail() == old(self).scan_tail(),
            final(self).row_count() == old(self).row_count(),
            final(self).col_count() == old(self).col_count(),
    {
        self.history_offset = self.max_history_offset();
    }

    /// Returns to the live screen.
    pub fn scrollback_bottom(&mut self)
        ensures
            final(self).offset() == 0,
            final(self).wide_seen() == old(self).wide_seen(),
            final(self).screen_input() == old(self).screen_input(),
            final(self).log() == old(self).log(),
            final(self).cursor_mode() == old(self).cursor_mode(),
            final(self).scan_tail() == old(self).scan_tail(),
            final(self).row_count() == old(self).row_count(),
            final(self).col_count() == old(self).col_count(),
    {
        self.history_offset = 0;
    }
}

} // verus!

verus! {

/// Output read in two pieces logs as output read at once, when the first
/// piece holds no ESC (so it cannot end inside a control sequence).
pub proof fn lemma_log_append_split_reads(out: Seq<char>, a: Seq<char>, b: Seq<char>)
    requires
        !a.contains('\x1b'),
    ensures
        log_append(log_append(out, a), b) == log_append(out, a + b),
    decreases a.len(),
{
    if a.len() > 0 {
        let t = a + b;
        assert(t[0] == a[0]);
        assert(t.drop_first() =~= a.drop_first() + b);
        assert(a[0] != '\x1b') by {
            assert(a.contains(a[0]) || true);
            if a[0] == '\x1b' {
                assert(a.contains('\x1b'));
            }
        }
        assert(!a.drop_first().contains('\x1b')) by {
            if a.drop_first().contains('\x1b') {
                let i = choose|i: int| 0 <= i < a.drop_first().len() && a.drop_first()[i] == '\x1b';
                assert(a[i + 1] == '\x1b');
            }
        }
        let c = a[0];
        let o2 = if c == '\r' {
            out
        } else if c == '\x08' || c == '\x7f' {
            if out.len() > 0 { out.drop_last() } else { out }
        } else {
            out.push(c)
        };
        lemma_log_append_split_reads(o2, a.drop_first(), b);
    } else {
        assert(a + b =~= b);
    }
}

/// Output read in two pieces feeds the screen emulator as output read at
/// once, so the live screen does not depend on how reads split the output.
pub proof fn lemma_screen_input_split_reads(h: ScreenInput, a: Seq<char>, b: Seq<char>)
    requires
        h.len() > 0,
    ensures
        input_after_output(input_after_output(h, a), b) == input_after_output(h, a + b),
        live_screen(input_after_output(input_after_output(h, a), b), true)
            == live_screen(input_after_output(h, a + b), true),
{
    let h1 = input_after_output(h, a);
    assert(h1.last() == (h.last().0, h.last().1, h.last().2 + a));
    assert(h.last().2 + a + b =~= h.last().2 + (a + b));
    assert(input_after_output(h1, b) =~= input_after_output(h, a + b));
}

/// The log holds no ESC and no carriage return: appending output to a log
/// without them gives a log without them.
pub proof fn lemma_log_append_clean(out: Seq<char>, t: Seq<char>)
    requires
        !out.contains('\x1b'),
        !out.contains('\r'),
    ensures
        !log_append(out, t).contains('\x1b'),
        !log_append(out, t).contains('\r'),
    decreases t.len(),
{
    if t.len() > 0 {
        let c = t[0];
        let r = t.drop_first();
        if c == '\x1b' {
            if r.len() > 0 && r[0] == '[' {
                lemma_csi_rest_suffix(r.drop_first());
                lemma_log_append_clean(out, csi_rest(r.drop_first()));
            } else if r.len() > 0 && r[0] == ']' {
                lemma_osc_rest_suffix(r.drop_first());
                lemma_log_append_clean(out, osc_rest(r.drop_first()));
            } else {
                lemma_log_append_clean(out, r);
            }
        } else if c == '\r' {
            lemma_log_append_clean(out, r);
        } else if c == '\x08' || c == '\x7f' {
            let o2 = if out.len() > 0 { out.drop_last() } else { out };
            assert(!o2.contains('\x1b') && !o2.contains('\r')) by {
                if out.len() > 0 {
                    assert forall|i: int| 0 <= i < o2.len() implies o2[i] != '\x1b' && o2[i] != '\r' by {
                        assert(o2[i] == out[i]);
                    }
                }
            }
            lemma_log_append_clean(o2, r);
        } else {
            let o2 = out.push(c);
            assert(!o2.contains('\x1b') && !o2.contains('\r')) by {
                assert forall|i: int| 0 <= i < o2.len() implies o2[i] != '\x1b' && o2[i] != '\r' by {
                    if i < out.len() {
                        assert(o2[i] == out[i]);
                    }
                }
            }
            lemma_log_append_clean(o2, r);
        }
    }
}

/// Scrolling back further than the oldest line shows the oldest screen:
/// the window for any offset is the window for the offset clamped.
pub proof fn lemma_history_offset_clamped(log: Seq<char>, rows: nat, offset: nat)
    ensures
        history_window(log, rows, offset)
            == history_window(log, rows, clamped_offset(non_blank_lines(log).len(), rows, offset)),
{
}

/// A window of the history has at most one screen of lines.
pub proof fn lemma_history_window_fits(log: Seq<char>, rows: nat, offset: nat)
    ensures
        ({
            let ls = non_blank_lines(log);
            let off = clamped_offset(ls.len(), rows, offset);
            let end = ls.len() - off;
            let start = if end > rows { end - rows } else { 0 };
            rows > 0 && ls.len() > 0 ==> 0 <= start <= end <= ls.len() && end - start <= rows
        }),
{
}

/// Scrolling back `rows` lines and forward `rows` lines returns to the same
/// view, when the oldest line (`max`) did not stop the first move; scrolling
/// forward by at least the offset reaches the live screen; scrolling back by
/// at least `max` reaches the oldest line.
pub proof fn lemma_scroll_back_and_forth(offset: nat, rows: nat, max: nat)
    requires
        offset + rows <= max,
    ensures
        offset_after_down(offset_after_up(offset, rows, max), rows) == offset,
        offset_after_down(offset_after_up(offset, rows, max), rows + max) == 0,
        offset_after_up(offset_after_up(offset, rows, max), max, max) == max,
{
}

/// Hiding the cursor shows the screen unchanged.
pub proof fn lemma_hidden_cursor_is_identity(output: Seq<char>, row: nat, col: nat)
    ensures
        screen_with_cursor(output, row, col, false) == output,
{
}

} // verus!

verus! {

/// The later switch decides: output that ends with the sequence turning
/// application cursor mode on leaves it on, whatever came before.
pub proof fn lemma_mode_on_at_end(mode: bool, t: Seq<char>)
    ensures
        cursor_mode_after(mode, t + mode_on_seq()) == true,
{
    reveal_strlit("\x1b[?1h");
    reveal_strlit("\x1b[?1l");
    let on = mode_on_seq();
    let off = mode_off_seq();
    let s = t + on;
    let n = t.len() as int;
    assert(s.subrange(n, n + 5) =~= on);
    assert(occurs_at(s, on, n));
    assert forall|i: int| n + 1 <= i < s.len() + 1 implies !occurs_at(s, on, i) by {}
    lemma_last_occurrence_skip(s, on, n + 1, s.len() + 1int);
    assert(last_occurrence(s, on) == n);
    assert forall|i: int| n <= i < s.len() + 1 implies !occurs_at(s, off, i) by {
        if i == n {
            assert(s.subrange(n, n + 5)[4] != off[4]);
        }
    }
    lemma_last_occurrence_skip(s, off, n, s.len() + 1int);
    lemma_last_occurrence_below_bound(s, off, n);
}

/// Likewise, output that ends with the sequence turning it off leaves it off.
pub proof fn lemma_mode_off_at_end(mode: bool, t: Seq<char>)
    ensures
        cursor_mode_after(mode, t + mode_off_seq()) == false,
{
    reveal_strlit("\x1b[?1h");
    reveal_strlit("\x1b[?1l");
    let on = mode_on_seq();
    let off = mode_off_seq();
    let s = t + off;
    let n = t.len() as int;
    assert(s.subrange(n, n + 5) =~= off);
    assert(occurs_at(s, off, n));
    assert forall|i: int| n + 1 <= i < s.len() + 1 implies !occurs_at(s, off, i) by {}
    lemma_last_occurrence_skip(s, off, n + 1, s.len() + 1int);
    assert forall|i: int| n <= i < s.len() + 1 implies !occurs_at(s, on, i) by {
        if i == n {
            assert(s.subrange(n, n + 5)[4] != on[4]);
        }
    }
    lemma_last_occurrence_skip(s, on, n, s.len() + 1int);
    lemma_last_occurrence_below_bound(s, on, n);
}

} // verus!

verus! {

/// Plain text (no ESC, carriage return, backspace or DEL) is logged as it is.
pub proof fn lemma_log_append_plain(out: Seq<char>, t: Seq<char>)
    requires
        !t.contains('\x1b'),
        !t.contains('\r'),
        !t.contains('\x08'),
        !t.contains('\x7f'),
    ensures
        log_append(out, t) == out + t,
    decreases t.len(),
{
    if t.len() == 0 {
        assert(out + t =~= out);
    } else {
        assert(t[0] != '\x1b' && t[0] != '\r' && t[0] != '\x08' && t[0] != '\x7f') by {
            assert(t.contains(t[0]));
        }
        let r = t.drop_first();
        assert(!r.contains('\x1b') && !r.contains('\r') && !r.contains('\x08') && !r.contains('\x7f')) by {
            if r.contains('\x1b') || r.contains('\r') || r.contains('\x08') || r.contains('\x7f') {
                let i = choose|i: int| 0 <= i < r.len() && (r[i] == '\x1b' || r[i] == '\r' || r[i] == '\x08' || r[i] == '\x7f');
                assert(t[i + 1] == r[i]);
                assert(t.contains(t[i + 1]));
            }
        }
        lemma_log_append_plain(out.push(t[0]), r);
        assert(out.push(t[0]) + r =~= out + t);
    }
}

/// A typed character followed by a backspace (or DEL) leaves the log as it was.
pub proof fn lemma_backspace_erases(out: Seq<char>, c: char, erase: char)
    requires
        c != '\x1b' && c != '\r' && c != '\x08' && c != '\x7f',
        erase == '\x08' || erase == '\x7f',
    ensures
        log_append(out, seq![c, erase]) == out,
{
    let t = seq![c, erase];
    assert(t.drop_first() =~= seq![erase]);
    assert(seq![erase].drop_first() =~= Seq::<char>::empty());
    assert(out.push(c).drop_last() =~= out);
    assert(log_append(out, Seq::<char>::empty()) == out);
    assert(log_append(out.push(c), seq![erase]) == log_append(out, Seq::<char>::empty()));
    assert(log_append(out, t) == log_append(out.push(c), seq![erase]));
}

/// A carriage return is dropped wherever it stands, after text without ESC.
pub proof fn lemma_carriage_return_dropped(out: Seq<char>, a: Seq<char>, b: Seq<char>)
    requires
        !a.contains('\x1b'),
    ensures
        log_append(out, a + seq!['\r'] + b) == log_append(out, a + b),
{
    lemma_log_append_split_reads(out, a, seq!['\r'] + b);
    assert(a + seq!['\r'] + b =~= a + (seq!['\r'] + b));
    assert((seq!['\r'] + b).drop_first() =~= b);
    lemma_log_append_split_reads(out, a, b);
}

/// A CSI control sequence (`ESC [`, parameter bytes, a final byte from `@`
/// to `~`) is dropped from the log, whatever follows it.
pub proof fn lemma_csi_dropped(out: Seq<char>, params: Seq<char>, fin: char, t: Seq<char>)
    requires
        forall|i: int| 0 <= i < params.len() ==> !('@' <= #[trigger] params[i] && params[i] <= '~'),
        '@' <= fin && fin <= '~',
    ensures
        log_append(out, seq!['\x1b', '['] + params + seq![fin] + t) == log_append(out, t),
{
    let s = seq!['\x1b', '['] + params + seq![fin] + t;
    assert(s.drop_first() =~= seq!['['] + params + seq![fin] + t);
    assert(s.drop_first().drop_first() =~= params + seq![fin] + t);
    lemma_csi_rest_skips(params, fin, t);
}

proof fn lemma_csi_rest_skips(params: Seq<char>, fin: char, t: Seq<char>)
    requires
        forall|i: int| 0 <= i < params.len() ==> !('@' <= #[trigger] params[i] && params[i] <= '~'),
        '@' <= fin && fin <= '~',
    ensures
        csi_rest(params + seq![fin] + t) == t,
    decreases params.len(),
{
    let s = params + seq![fin] + t;
    if params.len() == 0 {
        assert(s =~= seq![fin] + t);
        assert(s.drop_first() =~= t);
    } else {
        assert(s[0] == params[0]);
        assert(s.drop_first() =~= params.drop_first() + seq![fin] + t);
        assert forall|i: int| 0 <= i < params.drop_first().len() implies !('@' <= #[trigger] params.drop_first()[i] && params.drop_first()[i] <= '~') by {
            assert(params.drop_first()[i] == params[i + 1]);
        }
        lemma_csi_rest_skips(params.drop_first(), fin, t);
    }
}

/// The model's context is the log's last 80 lines: all of them when there
/// are no more than 80.
pub proof fn lemma_recent_context_law(log: Seq<char>)
    ensures
        lines(log).len() <= 80 ==> recent_context_spec(log) == join(lines(log), "\n"@),
        lines(log).len() > 80 ==> recent_context_spec(log)
            == join(lines(log).subrange(lines(log).len() - 80, lines(log).len() as int), "\n"@),
{
}

} // verus!

verus! {

/// The scroll-back view works on the log's non-blank lines: each of them is
/// kept, in order, and no blank line is; scrolled to the bottom with room
/// for all of them, the window shows them all.
pub proof fn lemma_history_lines(log: Seq<char>, rows: nat)
    ensures
        forall|i: int| 0 <= i < non_blank_lines(log).len() ==> !is_blank(#[trigger] non_blank_lines(log)[i]),
        forall|i: int| 0 <= i < lines(log).len() && !is_blank(#[trigger] lines(log)[i]) ==> non_blank_lines(log).contains(lines(log)[i]),
        rows > 0 && non_blank_lines(log).len() <= rows ==> history_window(log, rows, 0) == join(non_blank_lines(log), "\n"@),
{
    let pred = |l: Seq<char>| !is_blank(l);
    lines(log).filter_lemma(pred);
    assert forall|i: int| 0 <= i < non_blank_lines(log).len() implies !is_blank(#[trigger] non_blank_lines(log)[i]) by {
        assert(pred(non_blank_lines(log)[i]));
    }
    assert forall|i: int| 0 <= i < lines(log).len() && !is_blank(#[trigger] lines(log)[i]) implies non_blank_lines(log).contains(lines(log)[i]) by {
        assert(pred(lines(log)[i]));
    }
    let ls = non_blank_lines(log);
    if rows > 0 && ls.len() <= rows && ls.len() > 0 {
        assert(ls.subrange(0, ls.len() as int) =~= ls);
    }
}

} // verus!

verus! {

/// The log keeps its last 300 lines: a log of at most 300 lines, without
/// carriage returns (as every log is), is kept whole; only a lone line
/// break is dropped.
pub proof fn lemma_kept_log_short(a: Seq<char>)
    requires
        !a.contains('\r'),
        lines(a).len() <= 300,
        a != seq!['\n'],
    ensures
        kept_log(a) == a,
{
    reveal_strlit("\n");
    assert("\n"@ =~= seq!['\n']);
    if a.len() > 0 {
        let p = split(a, '\n');
        crate::text::lemma_join_split(a, '\n');
        crate::text::lemma_split_chars(a, '\n');
        lemma_split_nonempty(a, '\n');
        assert forall|i: int| 0 <= i < p.len() implies crate::text::strip_cr(#[trigger] p[i]) == p[i] by {
            if p[i].len() > 0 {
                let k = p[i].len() - 1;
                assert(a.contains(p[i][k]));
                if p[i][k] == '\r' {
                    assert(a.contains('\r'));
                }
            }
        }
        let ended = p.drop_last().map_values(|l: Seq<char>| crate::text::strip_cr(l));
        assert(ended =~= p.drop_last());
        assert(last_n(lines(a), 300) == lines(a));
        if p.last().len() == 0 {
            assert(lines(a) == p.drop_last());
            assert(p.len() >= 2) by {
                if p.len() == 1 {
                    assert(join(p, seq!['\n']) == p[0]);
                }
            }
            assert(join(p, seq!['\n']) == join(p.drop_last(), seq!['\n']) + seq!['\n'] + p.last());
            assert(a =~= join(p.drop_last(), seq!['\n']).push('\n'));
            assert(a.last() == '\n');
            assert(join(p.drop_last(), seq!['\n']).len() > 0);
        } else {
            assert(lines(a) =~= p);
            if p.len() == 1 {
                assert(a == p[0]);
            } else {
                assert(join(p, seq!['\n']) == join(p.drop_last(), seq!['\n']) + seq!['\n'] + p.last());
            }
            assert(a.last() == p.last().last());
            assert(a.last() != '\n') by {
                let k = p.last().len() - 1;
                assert(p[p.len() - 1][k] == p.last().last());
                crate::text::lemma_split_no_sep(a, '\n');
            }
        }
    }
}

} // verus!

verus! {

/// Scrolled back `k` lines, with a full screen of older lines above them,
/// the view shows the `rows` non-blank lines that end `k` lines above the
/// newest one.
pub proof fn lemma_history_window_law(log: Seq<char>, rows: nat, k: nat)
    requires
        rows > 0,
        k + rows <= non_blank_lines(log).len(),
    ensures
        ({
            let ls = non_blank_lines(log);
            history_window(log, rows, k) == join(ls.subrange(ls.len() - k - rows, ls.len() - k), "\n"@)
        }),
{
}

} // verus!
