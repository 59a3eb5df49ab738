//! When to ask the model about new terminal output, and how much of its
//! advice the panel shows.
use vstd::prelude::*;
use crate::text::{
    chars_of, string_of, slice_chars, trim, trim_chars, lines, lines_of, views, join, join_chars,
    starts_with, starts_with_chars, utf8_len, utf8_len_wide, contains_char, chars_eq, opt_view,
};
use crate::terminal::{log_append, append_terminal_text, copy_lines};

verus! {

/// The first (at most) `n` elements of `s`.
pub open spec fn first_n<A>(s: Seq<A>, n: nat) -> Seq<A> {
    if s.len() <= n { s } else { s.subrange(0, n as int) }
}

/// The trimmed, non-empty lines of `text`.
pub open spec fn trimmed_lines(text: Seq<char>) -> Seq<Seq<char>> {
    lines(text).map_values(|l: Seq<char>| trim(l)).filter(|l: Seq<char>| l.len() > 0)
}

/// The trimmed, non-empty lines of `text`.
pub fn trimmed_lines_of(text: &[char]) -> (r: Vec<Vec<char>>)
    ensures
        views(r@) == trimmed_lines(text@),
{
    let ls = lines_of(text);
    let ghost tl = lines(text@).map_values(|l: Seq<char>| trim(l));
    let mut r: Vec<Vec<char>> = Vec::new();
    for i in 0..ls.len()
        invariant
            views(ls@) == lines(text@),
            tl == lines(text@).map_values(|l: Seq<char>| trim(l)),
            views(r@) == tl.take(i as int).filter(|l: Seq<char>| l.len() > 0),
    {
        proof {
            reveal(Seq::filter);
            assert(tl.take(i + 1).drop_last() =~= tl.take(i as int));
        }
        let t = trim_chars(ls[i].as_slice());
        assert(t@ == tl[i as int]);
        if t.len() > 0 {
            let ghost before = views(r@);
            let ghost tv = t@;
            r.push(t);
            assert(views(r@) =~= before.push(tv));
        }
    }
    assert(tl.take(ls@.len() as int) =~= tl);
    r
}

/// Whether a line of advice is one the compact panel shows: a warning, a
/// problem, a command, a progress note, a model failure, or a missing setting.
pub open spec fn is_panel_line(l: Seq<char>) -> bool {
    ||| starts_with(l, "警告:"@)
    ||| starts_with(l, "问题:"@)
    ||| starts_with(l, "命令:"@)
    ||| starts_with(l, "正在"@)
    ||| starts_with(l, "模型分析失败:"@)
    ||| starts_with(l, "未配置"@)
}

/// The advice as the panel shows it: all of it when expanded, otherwise
/// its first three panel lines (trimmed), joined with newlines.
pub open spec fn compact_advice(text: Seq<char>, expanded: bool) -> Seq<char> {
    if expanded {
        text
    } else {
        join(first_n(trimmed_lines(text).filter(|l: Seq<char>| is_panel_line(l)), 3), "\n"@)
    }
}

/// Whether a line is a panel line.
fn is_panel_line_of(l: &[char]) -> (b: bool)
    ensures
        b == is_panel_line(l@),
{
    let a = chars_of("警告:");
    let b = chars_of("问题:");
    let c = chars_of("命令:");
    let d = chars_of("正在");
    let e = chars_of("模型分析失败:");
    let f = chars_of("未配置");
    starts_with_chars(l, a.as_slice()) || starts_with_chars(l, b.as_slice())
        || starts_with_chars(l, c.as_slice()) || starts_with_chars(l, d.as_slice())
        || starts_with_chars(l, e.as_slice()) || starts_with_chars(l, f.as_slice())
}

/// The advice for the panel (see `compact_advice`).
pub fn compact_advice_text(text: &str, expanded: bool) -> (s: String)
    ensures
        s@ == compact_advice(text@, expanded),
{
    let t = chars_of(text);
    if expanded {
        return string_of(t.as_slice());
    }
    let ls = trimmed_lines_of(t.as_slice());
    let ghost tl = trimmed_lines(text@);
    let mut kept: Vec<Vec<char>> = Vec::new();
    for i in 0..ls.len()
        invariant
            views(ls@) == tl,
            views(kept@) == tl.take(i as int).filter(|l: Seq<char>| is_panel_line(l)),
    {
        proof {
            reveal(Seq::filter);
            assert(tl.take(i + 1).drop_last() =~= tl.take(i as int));
        }
        if is_panel_line_of(ls[i].as_slice()) {
            let ghost before = views(kept@);
            let l = ls[i].clone();
            assert(l@ == tl[i as int]);
            kept.push(l);
            assert(views(kept@) =~= before.push(tl[i as int]));
        }
    }
    assert(tl.take(ls@.len() as int) =~= tl);
    let n = if kept.len() < 3 { kept.len() } else { 3 };
    let first = copy_lines(&kept, 0, n);
    assert(views(first@) =~= first_n(views(kept@), 3));
    let nl = chars_of("\n");
    let joined = join_chars(&first, nl.as_slice());
    string_of(joined.as_slice())
}

/// The identity of a burst of output: its first four trimmed non-empty
/// lines joined with newlines, cut to 240 characters.
pub open spec fn fingerprint(output: Seq<char>) -> Seq<char> {
    first_n(join(first_n(trimmed_lines(output), 4), "\n"@), 240)
}

/// The fingerprint of a burst of output (see `fingerprint`).
pub fn analysis_fingerprint(output: &str) -> (s: String)
    ensures
        s@ == fingerprint(output@),
{
    let t = chars_of(output);
    let ls = trimmed_lines_of(t.as_slice());
    let n = if ls.len() < 4 { ls.len() } else { 4 };
    let first = copy_lines(&ls, 0, n);
    assert(views(first@) =~= first_n(views(ls@), 4));
    let nl = chars_of("\n");
    let joined = join_chars(&first, nl.as_slice());
    let m = if joined.len() < 240 { joined.len() } else { 240 };
    let cut = slice_chars(joined.as_slice(), 0, m);
    assert(cut@ =~= first_n(joined@, 240));
    string_of(cut.as_slice())
}

/// The minimum time between two requests to the model, in milliseconds.
pub const ANALYSIS_COOLDOWN_MILLIS: u128 = 20000;

/// Whether new output asks for a diagnosis, and under which fingerprint: it
/// must hold text once cleaned, be a complete frame (a line break, or at
/// least 40 bytes of trimmed text) rather than a short typed fragment, differ
/// from the last fingerprint, and come at least 20 s after the last request.
pub open spec fn trigger(new_output: Seq<char>, last_fingerprint: Seq<char>, elapsed_millis: nat) -> Option<Seq<char>> {
    let cleaned = log_append(Seq::empty(), new_output);
    let trimmed = trim(cleaned);
    let short_single_fragment = utf8_len(trimmed) < 8 && !cleaned.contains('\n');
    let complete_output_frame = cleaned.contains('\n') || utf8_len(trimmed) >= 40;
    if trimmed.len() == 0 {
        None
    } else if short_single_fragment || !complete_output_frame {
        None
    } else if fingerprint(trimmed) == last_fingerprint {
        None
    } else if elapsed_millis < 20000 {
        None
    } else {
        Some(fingerprint(trimmed))
    }
}

/// Decides whether new output is analysed (see `trigger`); `elapsed_millis`
/// is the time since the last request.
pub fn should_trigger_ai_analysis(new_output: &str, last_fingerprint: &str, elapsed_millis: u128) -> (r: Option<String>)
    ensures
        opt_view(r) == trigger(new_output@, last_fingerprint@, elapsed_millis as nat),
{
    let t = chars_of(new_output);
    let mut cleaned: Vec<char> = Vec::new();
    append_terminal_text(&mut cleaned, t.as_slice());
    let trimmed = trim_chars(cleaned.as_slice());
    if trimmed.len() == 0 {
        return None;
    }
    let bytes = utf8_len_wide(trimmed.as_slice());
    let has_newline = contains_char(cleaned.as_slice(), '\n');
    let short_single_fragment = bytes < 8 && !has_newline;
    let complete_output_frame = has_newline || bytes >= 40;
    if short_single_fragment || !complete_output_frame {
        return None;
    }
    let trimmed_s = string_of(trimmed.as_slice());
    let fp = analysis_fingerprint(trimmed_s.as_str());
    let fpc = chars_of(fp.as_str());
    let last = chars_of(last_fingerprint);
    if chars_eq(fpc.as_slice(), last.as_slice()) {
        return None;
    }
    if elapsed_millis < ANALYSIS_COOLDOWN_MILLIS {
        return None;
    }
    Some(fp)
}

} // verus!

verus! {

/// The same output is analysed once: after a request under fingerprint
/// `fp`, the same output with `fp` as the last fingerprint asks for none.
pub proof fn lemma_trigger_once(new_output: Seq<char>, last: Seq<char>, elapsed: nat, later: nat)
    ensures
        trigger(new_output, last, elapsed) matches Some(fp) ==> trigger(new_output, fp, later) is None,
{
}

/// Within 20 s of the last request no new one is made.
pub proof fn lemma_trigger_cooldown(new_output: Seq<char>, last: Seq<char>, elapsed: nat)
    requires
        elapsed < 20000,
    ensures
        trigger(new_output, last, elapsed) is None,
{
}

/// A fingerprint is never longer than 240 characters.
pub proof fn lemma_fingerprint_short(output: Seq<char>)
    ensures
        fingerprint(output).len() <= 240,
{
}

/// The compact panel shows at most three lines, each a trimmed line of the
/// advice that the panel shows (see `is_panel_line`), joined with newlines.
pub proof fn lemma_compact_advice_three_lines(text: Seq<char>)
    ensures
        exists|shown: Seq<Seq<char>>| {
            &&& shown.len() <= 3
            &&& forall|i: int| 0 <= i < shown.len() ==> is_panel_line(#[trigger] shown[i])
                && trimmed_lines(text).contains(shown[i])
            &&& compact_advice(text, false) == join(shown, "\n"@)
        },
{
    let pred = |l: Seq<char>| is_panel_line(l);
    let kept = trimmed_lines(text).filter(pred);
    let shown = first_n(kept, 3);
    assert(compact_advice(text, false) == join(shown, "\n"@));
    trimmed_lines(text).filter_lemma(pred);
    assert forall|i: int| 0 <= i < shown.len() implies is_panel_line(#[trigger] shown[i])
        && trimmed_lines(text).contains(shown[i]) by {
        assert(shown[i] == kept[i]);
        assert(pred(kept[i]));
        assert(kept.contains(kept[i]));
        trimmed_lines(text).lemma_filter_contains_rev(pred, kept[i]);
    }
    assert(shown.len() <= 3);
}

} // verus!

verus! {

/// Output that stays on one line and is shorter than 40 bytes once cleaned
/// and trimmed (typing, a prompt) is never analysed.
pub proof fn lemma_trigger_needs_complete_output(new_output: Seq<char>, last: Seq<char>, elapsed: nat)
    requires
        !log_append(Seq::empty(), new_output).contains('\n'),
        utf8_len(trim(log_append(Seq::empty(), new_output))) < 40,
    ensures
        trigger(new_output, last, elapsed) is None,
{
}

/// Output with a line break and some text, whose fingerprint is new, is
/// analysed once 20 s have passed since the last request, under the
/// fingerprint of its cleaned, trimmed text.
pub proof fn lemma_trigger_fires(new_output: Seq<char>, last: Seq<char>, elapsed: nat)
    requires
        log_append(Seq::empty(), new_output).contains('\n'),
        trim(log_append(Seq::empty(), new_output)).len() > 0,
        fingerprint(trim(log_append(Seq::empty(), new_output))) != last,
        elapsed >= 20000,
    ensures
        trigger(new_output, last, elapsed) == Some(fingerprint(trim(log_append(Seq::empty(), new_output)))),
{
}

/// The fingerprint is the start of the output's trimmed non-empty lines
/// joined with newlines: all of them when there are at most four and they
/// are at most 240 characters together.
pub proof fn lemma_fingerprint_law(output: Seq<char>)
    ensures
        ({
            let whole = join(first_n(trimmed_lines(output), 4), "\n"@);
            &&& fingerprint(output) == whole.subrange(0, fingerprint(output).len() as int)
            &&& fingerprint(output).len() == (if whole.len() < 240 { whole.len() } else { 240 })
            &&& trimmed_lines(output).len() <= 4 && join(trimmed_lines(output), "\n"@).len() <= 240
                ==> fingerprint(output) == join(trimmed_lines(output), "\n"@)
        }),
{
    let whole = join(first_n(trimmed_lines(output), 4), "\n"@);
    if whole.len() <= 240 {
        assert(whole.subrange(0, whole.len() as int) =~= whole);
    }
}

/// Advice of at most three lines, each a warning, problem, command or
/// status line, is shown whole (trimmed) in the compact panel.
pub proof fn lemma_compact_advice_keeps_short_advice(text: Seq<char>)
    requires
        trimmed_lines(text).len() <= 3,
        forall|i: int| 0 <= i < trimmed_lines(text).len() ==> is_panel_line(#[trigger] trimmed_lines(text)[i]),
    ensures
        compact_advice(text, false) == join(trimmed_lines(text), "\n"@),
{
    let pred = |l: Seq<char>| is_panel_line(l);
    lemma_filter_all(trimmed_lines(text), pred);
}

proof fn lemma_filter_all(s: Seq<Seq<char>>, pred: spec_fn(Seq<char>) -> bool)
    requires
        forall|i: int| 0 <= i < s.len() ==> pred(#[trigger] s[i]),
    ensures
        s.filter(pred) == s,
    decreases s.len(),
{
    reveal(Seq::filter);
    if s.len() > 0 {
        assert forall|i: int| 0 <= i < s.drop_last().len() implies pred(#[trigger] s.drop_last()[i]) by {
            assert(s.drop_last()[i] == s[i]);
        }
        lemma_filter_all(s.drop_last(), pred);
        assert(pred(s.last()));
        assert(s.drop_last().push(s.last()) =~= s);
    }
}

/// Each of the panel's line kinds is shown: a line starting with `警告:`,
/// `问题:`, `命令:`, `正在`, `模型分析失败:` or `未配置` is a panel line, and a
/// line starting with `来源:` or `原因:` is not.
pub proof fn lemma_panel_line_kinds(l: Seq<char>)
    ensures
        starts_with(l, "警告:"@) || starts_with(l, "问题:"@) || starts_with(l, "命令:"@)
            || starts_with(l, "正在"@) || starts_with(l, "模型分析失败:"@) || starts_with(l, "未配置"@)
            ==> is_panel_line(l),
        starts_with(l, "来源:"@) || starts_with(l, "原因:"@) ==> !is_panel_line(l),
{
    reveal_strlit("警告:");
    reveal_strlit("问题:");
    reveal_strlit("命令:");
    reveal_strlit("正在");
    reveal_strlit("模型分析失败:");
    reveal_strlit("未配置");
    reveal_strlit("来源:");
    reveal_strlit("原因:");
    if starts_with(l, "来源:"@) || starts_with(l, "原因:"@) {
        assert(l.subrange(0, 3)[0] == l[0]);
        assert(l.subrange(0, 2)[0] == l[0]);
    }
}

} // verus!
