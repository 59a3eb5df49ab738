//! Model configuration, the diagnosis prompt, and reading the model's answer.
use vstd::prelude::*;
use crate::text::{
    chars_of, string_of, push_all, push_str, copy_chars, slice_chars, trim, trim_end, trim_chars, trim_end_of,
    trim_bounds, is_blank, lines, lines_of, views, split, split_chars, split_once, split_once_of,
    first_value, first_value_of, pair_views, starts_with, starts_with_chars, trim_end_char,
    trim_end_char_of, has_cjk, has_cjk_of, chars_eq, lemma_split_first, opt_view, string_views, split2, split2_chars,
    is_ws, join, lemma_split_join, lemma_split2_none, lemma_split2_concat, lemma_split_none, lemma_split_concat,
    lemma_trim_end_char_law, lemma_trim_law,
};

verus! {

/// Settings of the OpenAI-compatible model service.
#[derive(Debug, Clone)]
pub struct AiConfig {
    pub api_key: Option<String>,
    pub base_url: String,
    pub model: String,
}

/// `a`, or `b` when `a` is missing.
pub open spec fn or_else(a: Option<Seq<char>>, b: Option<Seq<char>>) -> Option<Seq<char>> {
    match a {
        Some(x) => Some(x),
        None => b,
    }
}

/// `a`, or `d` when `a` is missing.
pub open spec fn or_default(a: Option<Seq<char>>, d: Seq<char>) -> Seq<char> {
    match a {
        Some(x) => x,
        None => d,
    }
}

/// Whether `c` opens a quoted `.env` value.
pub open spec fn is_quote(c: char) -> bool {
    c == '"' || c == '\''
}

/// A `.env` value with its comment and its quotes removed: an unquoted
/// value ends at `#`; a value in matching single or double quotes loses them.
pub open spec fn unquote_spec(v: Seq<char>) -> Seq<char> {
    let w = if v.len() > 0 && is_quote(v[0]) { v } else { trim_end(split(v, '#')[0]) };
    if w.len() >= 2 && ((w[0] == '"' && w.last() == '"') || (w[0] == '\'' && w.last() == '\'')) {
        w.subrange(1, w.len() - 1)
    } else {
        w
    }
}

/// The setting a `.env` line makes, if any: blank lines, comments, lines
/// without `=` and lines with an empty name make none.
pub open spec fn dotenv_entry(line: Seq<char>) -> Option<(Seq<char>, Seq<char>)> {
    let t = trim(line);
    if t.len() == 0 || t[0] == '#' {
        None
    } else {
        match split_once(t, '=') {
            None => None,
            Some((k, v)) => {
                let key = trim(k);
                if key.len() == 0 {
                    None
                } else {
                    Some((key, unquote_spec(trim(v))))
                }
            },
        }
    }
}

/// The settings of a `.env` file, in order.
pub open spec fn dotenv_pairs(input: Seq<char>) -> Seq<(Seq<char>, Seq<char>)> {
    lines(input).filter_map(|l: Seq<char>| dotenv_entry(l))
}

/// The value of setting `name`: the environment's first pair for it, else
/// the `.env` file's first; a value of nothing but white space is no value.
pub open spec fn config_value(
    env: Seq<(Seq<char>, Seq<char>)>,
    dot: Seq<(Seq<char>, Seq<char>)>,
    name: Seq<char>,
) -> Option<Seq<char>> {
    match or_else(first_value(env, name), first_value(dot, name)) {
        Some(v) => if is_blank(v) { None } else { Some(v) },
        None => None,
    }
}

/// The contents of environment pairs given as string slices.
pub open spec fn env_view(vars: Seq<(&str, &str)>) -> Seq<(Seq<char>, Seq<char>)> {
    vars.map_values(|p: (&str, &str)| (p.0@, p.1@))
}

/// Removes the comment and the quotes of a `.env` value.
fn unquote_dotenv_value(value: &[char]) -> (v: Vec<char>)
    ensures
        v@ == unquote_spec(value@),
{
    let w = if value.len() > 0 && (value[0] == '"' || value[0] == '\'') {
        copy_chars(value)
    } else {
        let parts = split_chars(value, '#');
        proof {
            lemma_split_first(value@, '#');
        }
        trim_end_of(parts[0].as_slice())
    };
    let n = w.len();
    if n >= 2 && ((w[0] == '"' && w[n - 1] == '"') || (w[0] == '\'' && w[n - 1] == '\'')) {
        return slice_chars(w.as_slice(), 1, n - 1);
    }
    w
}

/// The setting one `.env` line makes.
fn dotenv_entry_of(line: &[char]) -> (r: Option<(Vec<char>, Vec<char>)>)
    ensures
        match r {
            Some((k, v)) => dotenv_entry(line@) == Some((k@, v@)),
            None => dotenv_entry(line@) is None,
        },
{
    let t = trim_chars(line);
    if t.len() == 0 || t[0] == '#' {
        return None;
    }
    match split_once_of(t.as_slice(), '=') {
        None => None,
        Some((k, v)) => {
            let key = trim_chars(k.as_slice());
            if key.len() == 0 {
                return None;
            }
            let vt = trim_chars(v.as_slice());
            let value = unquote_dotenv_value(vt.as_slice());
            Some((key, value))
        },
    }
}

/// The settings of a `.env` file.
fn parse_dotenv(input: &[char]) -> (r: Vec<(Vec<char>, Vec<char>)>)
    ensures
        pair_views(r@) == dotenv_pairs(input@),
{
    let ls = lines_of(input);
    let ghost lv = views(ls@);
    let mut r: Vec<(Vec<char>, Vec<char>)> = Vec::new();
    for i in 0..ls.len()
        invariant
            lv == views(ls@),
            lv == lines(input@),
            pair_views(r@) == lv.take(i as int).filter_map(|l: Seq<char>| dotenv_entry(l)),
    {
        proof {
            assert(lv.take(i + 1).drop_last() =~= lv.take(i as int));
        }
        let e = dotenv_entry_of(ls[i].as_slice());
        match e {
            Some(p) => {
                let ghost before = pair_views(r@);
                let ghost pv = (p.0@, p.1@);
                r.push(p);
                assert(pair_views(r@) =~= before + seq![pv]);
            },
            None => {},
        }
    }
    assert(lv.take(ls@.len() as int) =~= lv);
    r
}

/// The value of one setting (see `config_value`).
fn config_value_of(
    env: &Vec<(Vec<char>, Vec<char>)>,
    dot: &Vec<(Vec<char>, Vec<char>)>,
    name: &str,
) -> (r: Option<Vec<char>>)
    ensures
        match r {
            Some(v) => config_value(pair_views(env@), pair_views(dot@), name@) == Some(v@),
            None => config_value(pair_views(env@), pair_views(dot@), name@) is None,
        },
{
    let n = chars_of(name);
    let found = match first_value_of(env, n.as_slice()) {
        Some(v) => Some(v),
        None => first_value_of(dot, n.as_slice()),
    };
    match found {
        Some(v) => {
            let (a, b) = trim_bounds(v.as_slice());
            if a < b {
                Some(v)
            } else {
                None
            }
        },
        None => None,
    }
}

/// The configuration that the environment pairs `env` and the `.env` text
/// `dotenv` give.
pub open spec fn config_from(env: Seq<(Seq<char>, Seq<char>)>, dotenv: Seq<char>) -> (Option<Seq<char>>, Seq<char>, Seq<char>) {
    let dot = dotenv_pairs(dotenv);
    (
        or_else(config_value(env, dot, "DEEPSEEK_API_KEY"@), config_value(env, dot, "OPENAI_API_KEY"@)),
        or_default(or_else(config_value(env, dot, "DEEPSEEK_BASE_URL"@), config_value(env, dot, "OPENAI_BASE_URL"@)), "https://api.deepseek.com"@),
        or_default(or_else(config_value(env, dot, "DEEPSEEK_MODEL"@), config_value(env, dot, "OPENAI_MODEL"@)), "deepseek-chat"@),
    )
}

/// The value of `first`, else of `second`, as an optional string.
fn pick(
    env: &Vec<(Vec<char>, Vec<char>)>,
    dot: &Vec<(Vec<char>, Vec<char>)>,
    first: &str,
    second: &str,
) -> (r: Option<String>)
    ensures
        opt_view(r) == or_else(
            config_value(pair_views(env@), pair_views(dot@), first@),
            config_value(pair_views(env@), pair_views(dot@), second@),
        ),
{
    match config_value_of(env, dot, first) {
        Some(v) => Some(string_of(v.as_slice())),
        None => match config_value_of(env, dot, second) {
            Some(v) => Some(string_of(v.as_slice())),
            None => None,
        },
    }
}

impl AiConfig {
    /// The configuration from environment variables and a `.env` file's
    /// text. A real environment variable wins over the `.env` file, the
    /// `DEEPSEEK_*` names win over the `OPENAI_*` names, and values of
    /// nothing but white space count as unset.
    pub fn from_pairs_and_dotenv(vars: &[(&str, &str)], dotenv: &str) -> (c: AiConfig)
        ensures
            (opt_view(c.api_key), c.base_url@, c.model@) == config_from(env_view(vars@), dotenv@),
    {
        let mut env: Vec<(Vec<char>, Vec<char>)> = Vec::new();
        for i in 0..vars.len()
            invariant
                pair_views(env@) == env_view(vars@).take(i as int),
        {
            let (k, v) = vars[i];
            let ghost before = pair_views(env@);
            env.push((chars_of(k), chars_of(v)));
            assert(pair_views(env@) =~= before.push((k@, v@)));
            assert(env_view(vars@).take(i + 1) =~= env_view(vars@).take(i as int).push((k@, v@)));
        }
        assert(env_view(vars@).take(vars@.len() as int) =~= env_view(vars@));
        let d = chars_of(dotenv);
        let dot = parse_dotenv(d.as_slice());
        let api_key = pick(&env, &dot, "DEEPSEEK_API_KEY", "OPENAI_API_KEY");
        let base_url = match pick(&env, &dot, "DEEPSEEK_BASE_URL", "OPENAI_BASE_URL") {
            Some(s) => s,
            None => String::from_str("https://api.deepseek.com"),
        };
        let model = match pick(&env, &dot, "DEEPSEEK_MODEL", "OPENAI_MODEL") {
            Some(s) => s,
            None => String::from_str("deepseek-chat"),
        };
        AiConfig { api_key, base_url, model }
    }

    /// The chat completion endpoint under the base URL, without doubled slashes.
    pub fn chat_endpoint(&self) -> (s: String)
        ensures
            s@ == trim_end_char(self.base_url@, '/') + "/chat/completions"@,
    {
        let b = chars_of(self.base_url.as_str());
        let mut v = trim_end_char_of(b.as_slice(), '/');
        push_str(&mut v, "/chat/completions");
        string_of(v.as_slice())
    }
}

} // verus!

verus! {

/// The model's diagnosis: a severity, a one-line problem, suggested commands.
#[derive(Debug, Clone)]
pub struct AiAnalysis {
    pub severity: String,
    pub summary: String,
    pub suggestions: Vec<String>,
}

/// The command a suggestion holds: the first text in backticks when that
/// is not blank, otherwise the whole suggestion (without a trailing `。`)
/// unless it is empty or holds a CJK ideograph.
pub open spec fn extract_command_spec(text: Seq<char>) -> Option<Seq<char>> {
    let p = split(text, '`');
    if p.len() >= 3 && trim(p[1]).len() > 0 {
        Some(trim(p[1]))
    } else {
        let t = trim_end_char(trim(text), '。');
        if t.len() == 0 || has_cjk(t) {
            None
        } else {
            Some(t)
        }
    }
}

/// The first command any of the suggestions holds.
pub open spec fn first_command(sugs: Seq<Seq<char>>) -> Option<Seq<char>>
    decreases sugs.len(),
{
    if sugs.len() == 0 {
        None
    } else {
        match extract_command_spec(sugs[0]) {
            Some(c) => Some(c),
            None => first_command(sugs.drop_first()),
        }
    }
}

/// The three-line panel: warning, problem and command (`无` when no
/// suggestion holds one).
pub open spec fn panel_text(severity: Seq<char>, summary: Seq<char>, sugs: Seq<Seq<char>>) -> Seq<char> {
    "警告: "@ + severity + "\n问题: "@ + summary + "\n命令: "@ + or_default(first_command(sugs), "无"@)
}

/// The command a suggestion holds (see `extract_command_spec`).
fn extract_command(text: &str) -> (r: Option<String>)
    ensures
        opt_view(r) == extract_command_spec(text@),
{
    let t = chars_of(text);
    let p = split_chars(t.as_slice(), '`');
    if p.len() >= 3 {
        let inner = trim_chars(p[1].as_slice());
        if inner.len() > 0 {
            return Some(string_of(inner.as_slice()));
        }
    }
    let tt = trim_chars(t.as_slice());
    let trimmed = trim_end_char_of(tt.as_slice(), '。');
    if trimmed.len() == 0 || has_cjk_of(trimmed.as_slice()) {
        return None;
    }
    Some(string_of(trimmed.as_slice()))
}

/// The first command any suggestion holds.
fn first_command_of(suggestions: &Vec<String>) -> (r: Option<String>)
    ensures
        opt_view(r) == first_command(string_views(suggestions@)),
{
    let ghost sugs = string_views(suggestions@);
    assert(sugs.skip(0) =~= sugs);
    for i in 0..suggestions.len()
        invariant
            sugs == string_views(suggestions@),
            first_command(sugs) == first_command(sugs.skip(i as int)),
    {
        let ghost rest = sugs.skip(i as int);
        assert(rest[0] == sugs[i as int]);
        assert(rest.drop_first() =~= sugs.skip(i + 1));
        let c = extract_command(suggestions[i].as_str());
        if c.is_some() {
            return c;
        }
    }
    assert(sugs.skip(suggestions@.len() as int).len() == 0);
    None
}

impl AiAnalysis {
    /// The warning panel: `警告: ..`, `问题: ..` and `命令: ..` on three lines.
    pub fn to_panel_text(&self) -> (s: String)
        ensures
            s@ == panel_text(self.severity@, self.summary@, string_views(self.suggestions@)),
    {
        let cmd = match first_command_of(&self.suggestions) {
            Some(c) => c,
            None => String::from_str("无"),
        };
        let mut v: Vec<char> = Vec::new();
        push_str(&mut v, "警告: ");
        push_str(&mut v, self.severity.as_str());
        push_str(&mut v, "\n问题: ");
        push_str(&mut v, self.summary.as_str());
        push_str(&mut v, "\n命令: ");
        push_str(&mut v, cmd.as_str());
        string_of(v.as_slice())
    }
}

} // verus!

verus! {

/// What a parse of the model's text has gathered: severity, problem, commands.
pub type Gathered = (Seq<char>, Seq<char>, Seq<Seq<char>>);

/// One `;`-separated field of the model's answer (already trimmed) taken into
/// the parse: `警告:`, `问题:` and `命令:` set the severity, the problem, or add
/// a command (an empty command and `无` add none); other fields change nothing.
pub open spec fn take_field(st: Gathered, f: Seq<char>) -> Gathered {
    if starts_with(f, "警告:"@) {
        (trim(f.skip("警告:"@.len() as int)), st.1, st.2)
    } else if starts_with(f, "问题:"@) {
        (st.0, trim(f.skip("问题:"@.len() as int)), st.2)
    } else if starts_with(f, "命令:"@) {
        let c = trim(f.skip("命令:"@.len() as int));
        if c.len() > 0 && c != "无"@ {
            (st.0, st.1, st.2.push(c))
        } else {
            st
        }
    } else {
        st
    }
}

/// The parse after the fields `fs`, in order.
pub open spec fn take_fields(st: Gathered, fs: Seq<Seq<char>>) -> Gathered
    decreases fs.len(),
{
    if fs.len() == 0 {
        st
    } else {
        take_field(take_fields(st, fs.drop_last()), trim(fs.last()))
    }
}

/// The parse after the lines `ls`, each split at `；` and `;`.
pub open spec fn take_lines(st: Gathered, ls: Seq<Seq<char>>) -> Gathered
    decreases ls.len(),
{
    if ls.len() == 0 {
        st
    } else {
        take_fields(take_lines(st, ls.drop_last()), split2(ls.last(), '；', ';'))
    }
}

/// The diagnosis read from the model's text: severity `参考` and the whole
/// (trimmed) text as the problem unless fields say otherwise.
pub open spec fn model_analysis(content: Seq<char>) -> Gathered {
    take_lines(("参考"@, trim(content), Seq::empty()), lines(content))
}

/// The text after a prefix, trimmed.
fn after_prefix(f: &[char], plen: usize) -> (v: Vec<char>)
    requires
        plen <= f@.len(),
    ensures
        v@ == trim(f@.skip(plen as int)),
{
    let rest = slice_chars(f, plen, f.len());
    trim_chars(rest.as_slice())
}

/// Reads the model's answer into a diagnosis (see `model_analysis`).
pub fn analysis_from_model_text(content: &str) -> (a: AiAnalysis)
    ensures
        (a.severity@, a.summary@, string_views(a.suggestions@)) == model_analysis(content@),
{
    let c = chars_of(content);
    let warn = chars_of("警告:");
    let prob = chars_of("问题:");
    let cmdp = chars_of("命令:");
    let none = chars_of("无");
    let mut severity = chars_of("参考");
    let mut summary = trim_chars(c.as_slice());
    let mut suggestions: Vec<String> = Vec::new();
    let ls = lines_of(c.as_slice());
    let ghost lv = views(ls@);
    let ghost init: Gathered = ("参考"@, trim(content@), Seq::empty());
    for i in 0..ls.len()
        invariant
            lv == views(ls@),
            lv == lines(content@),
            warn@ == "警告:"@,
            prob@ == "问题:"@,
            cmdp@ == "命令:"@,
            none@ == "无"@,
            (severity@, summary@, string_views(suggestions@)) == take_lines(init, lv.take(i as int)),
    {
        proof {
            assert(lv.take(i + 1).drop_last() =~= lv.take(i as int));
        }
        let fields = split2_chars(ls[i].as_slice(), '；', ';');
        let ghost fv = views(fields@);
        let ghost st0: Gathered = (severity@, summary@, string_views(suggestions@));
        for j in 0..fields.len()
            invariant
                fv == views(fields@),
                warn@ == "警告:"@,
                prob@ == "问题:"@,
                cmdp@ == "命令:"@,
                none@ == "无"@,
                (severity@, summary@, string_views(suggestions@)) == take_fields(st0, fv.take(j as int)),
        {
            proof {
                assert(fv.take(j + 1).drop_last() =~= fv.take(j as int));
            }
            let f = trim_chars(fields[j].as_slice());
            if starts_with_chars(f.as_slice(), warn.as_slice()) {
                severity = after_prefix(f.as_slice(), warn.len());
            } else if starts_with_chars(f.as_slice(), prob.as_slice()) {
                summary = after_prefix(f.as_slice(), prob.len());
            } else if starts_with_chars(f.as_slice(), cmdp.as_slice()) {
                let command = after_prefix(f.as_slice(), cmdp.len());
                if command.len() > 0 && !chars_eq(command.as_slice(), none.as_slice()) {
                    let ghost before = string_views(suggestions@);
                    let s = string_of(command.as_slice());
                    suggestions.push(s);
                    assert(string_views(suggestions@) =~= before.push(command@));
                }
            }
        }
        assert(fv.take(fields@.len() as int) =~= fv);
    }
    assert(lv.take(ls@.len() as int) =~= lv);
    AiAnalysis {
        severity: string_of(severity.as_slice()),
        summary: string_of(summary.as_slice()),
        suggestions,
    }
}

} // verus!

verus! {

/// The opening of the prompt, before the node's name.
pub open spec fn prompt_head() -> Seq<char> {
    "你是 Linux 运维助手。用户正在通过 BenSSH 的 AI SSH 模式连接节点 `"@
}

/// The text between the node's name and the login user.
pub open spec fn prompt_user_intro() -> Seq<char> {
    "`，登录用户 `"@
}

/// The instructions, between the login user and the previous advice.
pub open spec fn prompt_rules() -> Seq<char> {
    "`。\n\
请根据下面最近的终端输出判断是否存在当前仍需处理的错误、安全风险或问题，务必短，不要长篇解释。\n\
只输出 3 行：警告: 低/中/高/严重；问题: 一句话；命令: 一个可复制命令，没有就写“无”。\n\
如果最近终端输出没有问题，只输出：警告: 无；问题: 无；命令: 无。\n\
先对比“上一轮 AI 建议”和“最近终端输出”。如果同类问题反复出现，不要重复给同一个修复命令；优先给验证当前状态的命令，帮助判断修复是否已生效、提示是否是缓存、是否需要下一步排查。\n\
如果终端上下文显示用户已经执行过你建议的修复命令，或系统重启后仍出现同类提示，不要重复给同一个修复命令。\n\
登录 banner、历史提示、上一次登录失败记录只能作为参考；除非最近输出证明问题仍存在，否则不要告警。\n\
遇到内核安全更新、当前运行内核版本、重启是否生效这类提示时，优先给验证命令，例如 `uname -r && rpm -q kernel-core --last | head -5`，只有确认仍需重启时才建议重启。\n\
不要编号，不要 Markdown，不要编造，不要要求用户泄露密钥或凭证。\n\n\
上一轮 AI 建议：\n"@
}

/// The text between the previous advice and the terminal output.
pub open spec fn prompt_context_intro() -> Seq<char> {
    "\n\n最近终端输出：\n"@
}

/// The previous advice as the prompt shows it: trimmed, or `无` when blank.
pub open spec fn previous_section(previous_advice: Seq<char>) -> Seq<char> {
    if is_blank(previous_advice) { "无"@ } else { trim(previous_advice) }
}

/// The diagnosis prompt. It is made of the node's name, the login user,
/// the previous advice and the terminal output, and of nothing else.
pub open spec fn prompt_spec(node_name: Seq<char>, user: Seq<char>, context: Seq<char>, previous_advice: Seq<char>) -> Seq<char> {
    prompt_head() + node_name + prompt_user_intro() + user + prompt_rules()
        + previous_section(previous_advice) + prompt_context_intro() + context
}

/// The prompt that asks the model for a short diagnosis of the terminal output.
pub fn build_prompt(node_name: &str, user: &str, context: &str, previous_advice: &str) -> (s: String)
    ensures
        s@ == prompt_spec(node_name@, user@, context@, previous_advice@),
{
    let prev = chars_of(previous_advice);
    let prev_trimmed = trim_chars(prev.as_slice());
    let mut v: Vec<char> = Vec::new();
    push_str(&mut v, "你是 Linux 运维助手。用户正在通过 BenSSH 的 AI SSH 模式连接节点 `");
    push_str(&mut v, node_name);
    push_str(&mut v, "`，登录用户 `");
    push_str(&mut v, user);
    push_str(&mut v, "`。\n\
请根据下面最近的终端输出判断是否存在当前仍需处理的错误、安全风险或问题，务必短，不要长篇解释。\n\
只输出 3 行：警告: 低/中/高/严重；问题: 一句话；命令: 一个可复制命令，没有就写“无”。\n\
如果最近终端输出没有问题，只输出：警告: 无；问题: 无；命令: 无。\n\
先对比“上一轮 AI 建议”和“最近终端输出”。如果同类问题反复出现，不要重复给同一个修复命令；优先给验证当前状态的命令，帮助判断修复是否已生效、提示是否是缓存、是否需要下一步排查。\n\
如果终端上下文显示用户已经执行过你建议的修复命令，或系统重启后仍出现同类提示，不要重复给同一个修复命令。\n\
登录 banner、历史提示、上一次登录失败记录只能作为参考；除非最近输出证明问题仍存在，否则不要告警。\n\
遇到内核安全更新、当前运行内核版本、重启是否生效这类提示时，优先给验证命令，例如 `uname -r && rpm -q kernel-core --last | head -5`，只有确认仍需重启时才建议重启。\n\
不要编号，不要 Markdown，不要编造，不要要求用户泄露密钥或凭证。\n\n\
上一轮 AI 建议：\n");
    if prev_trimmed.len() == 0 {
        push_str(&mut v, "无");
    } else {
        push_all(&mut v, prev_trimmed.as_slice());
    }
    push_str(&mut v, "\n\n最近终端输出：\n");
    push_str(&mut v, context);
    string_of(v.as_slice())
}

/// What the model request is made of: where it goes, the key it carries,
/// the model it names and the prompt it sends.
#[derive(Debug, Clone)]
pub struct ModelRequest {
    pub endpoint: String,
    pub api_key: String,
    pub model: String,
    pub prompt: String,
}

/// The error when no API key is configured.
pub open spec fn missing_key_error() -> Seq<char> {
    "未配置 API Key，无法调用大模型"@
}

/// The error when the model's reply holds no text content.
pub open spec fn bad_reply_error() -> Seq<char> {
    "模型返回格式异常"@
}

/// The request for a diagnosis: refused exactly when no API key is set;
/// otherwise it carries the key, the model, the chat endpoint and the prompt.
pub fn prepare_model_request(
    config: &AiConfig,
    node_name: &str,
    user: &str,
    context: &str,
    previous_advice: &str,
) -> (r: Result<ModelRequest, String>)
    ensures
        match r {
            Ok(req) => {
                &&& opt_view(config.api_key) == Some(req.api_key@)
                &&& req.endpoint@ == trim_end_char(config.base_url@, '/') + "/chat/completions"@
                &&& req.model@ == config.model@
                &&& req.prompt@ == prompt_spec(node_name@, user@, context@, previous_advice@)
            },
            Err(e) => config.api_key is None && e@ == missing_key_error(),
        },
{
    let api_key = match &config.api_key {
        Some(k) => String::from_str(k.as_str()),
        None => return Err(String::from_str("未配置 API Key，无法调用大模型")),
    };
    let prompt = build_prompt(node_name, user, context, previous_advice);
    Ok(ModelRequest {
        endpoint: config.chat_endpoint(),
        api_key,
        model: String::from_str(config.model.as_str()),
        prompt,
    })
}

/// The system message of a diagnosis request: the model explains and
/// suggests, and runs nothing.
pub open spec fn system_message() -> Seq<char> {
    "你是谨慎的 Linux 运维诊断助手，只提供解释和建议，不自动执行命令。"@
}

/// The chat messages of a diagnosis request, as (role, content) pairs: the
/// system message, then the prompt as the user's message.
pub fn chat_messages(prompt: &str) -> (m: Vec<(String, String)>)
    ensures
        m@.len() == 2,
        m@[0].0@ == "system"@,
        m@[0].1@ == system_message(),
        m@[1].0@ == "user"@,
        m@[1].1@ == prompt@,
{
    let mut m: Vec<(String, String)> = Vec::new();
    m.push((String::from_str("system"), String::from_str("你是谨慎的 Linux 运维诊断助手，只提供解释和建议，不自动执行命令。")));
    m.push((String::from_str("user"), String::from_str(prompt)));
    m
}

/// The diagnosis from the text content of the model's reply: an error when
/// the reply has none, otherwise the trimmed content read by `model_analysis`.
pub fn analysis_from_reply(content: Option<&str>) -> (r: Result<AiAnalysis, String>)
    ensures
        match r {
            Ok(a) => content is Some
                && (a.severity@, a.summary@, string_views(a.suggestions@)) == model_analysis(trim(content.unwrap()@)),
            Err(e) => content is None && e@ == bad_reply_error(),
        },
{
    match content {
        None => Err(String::from_str("模型返回格式异常")),
        Some(c) => {
            let chars = chars_of(c);
            let t = trim_chars(chars.as_slice());
            let ts = string_of(t.as_slice());
            Ok(analysis_from_model_text(ts.as_str()))
        },
    }
}

/// What `serde_json` finds in a reply body at `choices[0].message.content`:
/// the string there, when the body is a JSON document and that value is a string.
pub uninterp spec fn json_reply_content(body: Seq<char>) -> Option<Seq<char>>;

/// Parses the reply body with `serde_json::from_str` into a `serde_json::Value`
/// and reads `choices[0].message.content` with `Value::as_str`. Claimed of it:
/// the result is fixed by the body, and named above.
#[verifier::external_body]
fn reply_content(body: &str) -> (r: Option<String>)
    ensures
        opt_view(r) == json_reply_content(body@),
{
    match serde_json::from_str::<serde_json::Value>(body) {
        Ok(value) => match value["choices"][0]["message"]["content"].as_str() {
            Some(text) => Some(text.to_string()),
            None => None,
        },
        Err(_) => None,
    }
}

/// The diagnosis from the body of the model's reply: the text content at
/// `choices[0].message.content`, read as `analysis_from_reply` reads it; a
/// body that is not JSON, or has no text there, is the format error.
pub fn analysis_from_reply_body(body: &str) -> (r: Result<AiAnalysis, String>)
    ensures
        match r {
            Ok(a) => json_reply_content(body@) matches Some(c)
                && (a.severity@, a.summary@, string_views(a.suggestions@)) == model_analysis(trim(c)),
            Err(e) => json_reply_content(body@) is None && e@ == bad_reply_error(),
        },
{
    let content = reply_content(body);
    match &content {
        Some(c) => analysis_from_reply(Some(c.as_str())),
        None => analysis_from_reply(None),
    }
}

/// The panel text when the model could not be asked or answered.
pub fn analysis_failure_text(error: &str) -> (s: String)
    ensures
        s@ == "警告: 高\n问题: 大模型分析失败: "@ + error@ + "\n命令: 无"@,
{
    let mut v: Vec<char> = Vec::new();
    push_str(&mut v, "警告: 高\n问题: 大模型分析失败: ");
    push_str(&mut v, error);
    push_str(&mut v, "\n命令: 无");
    string_of(v.as_slice())
}

} // verus!

verus! {

/// A real environment variable wins over the `.env` file: a value of it
/// that is not blank is the setting, whatever the file says.
pub proof fn lemma_env_overrides_dotenv(
    env: Seq<(Seq<char>, Seq<char>)>,
    dot: Seq<(Seq<char>, Seq<char>)>,
    name: Seq<char>,
    v: Seq<char>,
)
    requires
        first_value(env, name) == Some(v),
        !is_blank(v),
    ensures
        config_value(env, dot, name) == Some(v),
{
}

/// The `.env` file counts when the environment does not name the setting.
pub proof fn lemma_dotenv_fills_missing(
    env: Seq<(Seq<char>, Seq<char>)>,
    dot: Seq<(Seq<char>, Seq<char>)>,
    name: Seq<char>,
)
    requires
        first_value(env, name) is None,
    ensures
        config_value(env, dot, name) == (match first_value(dot, name) {
            Some(v) => if is_blank(v) { None } else { Some(v) },
            None => None,
        }),
{
}

/// Where each setting comes from. A variable's value is its first
/// environment pair, else its first `.env` pair, and a value of nothing but
/// white space counts as none. The API key, base URL and model each take the
/// value of their `DEEPSEEK_*` variable when it has one, else of their
/// `OPENAI_*` variable; the base URL and model otherwise fall back to
/// `https://api.deepseek.com` and `deepseek-chat`, and the key to none.
pub proof fn lemma_setting_sources(env: Seq<(Seq<char>, Seq<char>)>, dotenv: Seq<char>)
    ensures
        ({
            let dot = dotenv_pairs(dotenv);
            let val = |n: Seq<char>| match first_value(env, n) {
                Some(v) => if is_blank(v) { None } else { Some(v) },
                None => match first_value(dot, n) {
                    Some(v) => if is_blank(v) { None } else { Some(v) },
                    None => None,
                },
            };
            let c = config_from(env, dotenv);
            &&& c.0 == (if val("DEEPSEEK_API_KEY"@) is Some { val("DEEPSEEK_API_KEY"@) } else { val("OPENAI_API_KEY"@) })
            &&& c.1 == (match val("DEEPSEEK_BASE_URL"@) {
                Some(u) => u,
                None => match val("OPENAI_BASE_URL"@) {
                    Some(u) => u,
                    None => "https://api.deepseek.com"@,
                },
            })
            &&& c.2 == (match val("DEEPSEEK_MODEL"@) {
                Some(m) => m,
                None => match val("OPENAI_MODEL"@) {
                    Some(m) => m,
                    None => "deepseek-chat"@,
                },
            })
        }),
{
}

/// With no usable `DEEPSEEK_MODEL`, a usable `OPENAI_MODEL` from the
/// environment is the model.
pub proof fn lemma_openai_model_fallback(env: Seq<(Seq<char>, Seq<char>)>, dotenv: Seq<char>, m: Seq<char>)
    requires
        first_value(env, "DEEPSEEK_MODEL"@) is None,
        first_value(dotenv_pairs(dotenv), "DEEPSEEK_MODEL"@) is None,
        first_value(env, "OPENAI_MODEL"@) == Some(m),
        !is_blank(m),
    ensures
        config_from(env, dotenv).2 == m,
{
    lemma_setting_sources(env, dotenv);
}

/// `DEEPSEEK_*` settings win over `OPENAI_*` ones, and the defaults apply
/// only when neither is set.
pub proof fn lemma_deepseek_first(env: Seq<(Seq<char>, Seq<char>)>, dotenv: Seq<char>)
    ensures
        ({
            let dot = dotenv_pairs(dotenv);
            let c = config_from(env, dotenv);
            &&& config_value(env, dot, "DEEPSEEK_API_KEY"@) is Some ==> c.0 == config_value(env, dot, "DEEPSEEK_API_KEY"@)
            &&& config_value(env, dot, "DEEPSEEK_BASE_URL"@) matches Some(u) ==> c.1 == u
            &&& config_value(env, dot, "DEEPSEEK_MODEL"@) matches Some(m) ==> c.2 == m
            &&& config_value(env, dot, "DEEPSEEK_BASE_URL"@) is None && config_value(env, dot, "OPENAI_BASE_URL"@) is None
                ==> c.1 == "https://api.deepseek.com"@
            &&& config_value(env, dot, "DEEPSEEK_MODEL"@) is None && config_value(env, dot, "OPENAI_MODEL"@) is None
                ==> c.2 == "deepseek-chat"@
        }),
{
}

} // verus!

verus! {

/// A field of the model's three-line answer: one line, without `;` or `；`,
/// and without white space at either end.
pub open spec fn plain_field(x: Seq<char>) -> bool {
    &&& !x.contains('\n')
    &&& !x.contains(';')
    &&& !x.contains('；')
    &&& x.len() > 0 ==> !is_ws(x[0]) && !is_ws(x.last())
}

/// The answer the prompt asks the model for: warning, problem and command
/// on three lines.
pub open spec fn canonical_answer(severity: Seq<char>, summary: Seq<char>, command: Seq<char>) -> Seq<char> {
    "警告: "@ + severity + "\n问题: "@ + summary + "\n命令: "@ + command
}

/// A field label (three characters, the last `:`) and a space before a
/// plain field: the trimmed line starts with the label and gives the field back.
proof fn lemma_labelled_field(k: Seq<char>, x: Seq<char>)
    requires
        k.len() == 3,
        !is_ws(k[0]),
        !is_ws(k[2]),
        x.len() > 0 ==> !is_ws(x[0]) && !is_ws(x.last()),
    ensures
        trim(k + seq![' '] + x).len() >= 3,
        trim(k + seq![' '] + x).subrange(0, 3) == k,
        trim(trim(k + seq![' '] + x).skip(3)) == x,
{
    let l = k + seq![' '] + x;
    assert(l[0] == k[0]);
    assert(crate::text::trim_start(l) == l);
    if x.len() == 0 {
        assert(l.last() == ' ');
        assert(l.drop_last() =~= k);
        assert(k.last() == k[2]);
        assert(crate::text::trim_end(k) == k);
        assert(crate::text::trim_end(l) == crate::text::trim_end(k));
        assert(trim(l) == k);
        assert(k.skip(3) =~= Seq::<char>::empty());
    } else {
        assert(l.last() == x.last());
        assert(trim(l) == l);
        let r = l.skip(3);
        assert(r[0] == ' ');
        assert(r.drop_first() =~= x);
        assert(crate::text::trim_start(x) == x);
        assert(crate::text::trim_start(r) == x);
        assert(crate::text::trim_end(x) == x);
        assert(l.subrange(0, 3) =~= k);
    }
}

/// The canonical answer is read back as itself: its warning and problem
/// are the diagnosis's, and the panel shows the same three lines, when each
/// field is plain and the command is `无` or a command the panel would show.
pub proof fn lemma_canonical_answer_round_trip(severity: Seq<char>, summary: Seq<char>, command: Seq<char>)
    requires
        plain_field(severity),
        plain_field(summary),
        plain_field(command),
        command == "无"@ || extract_command_spec(command) == Some(command),
    ensures
        ({
            let a = model_analysis(canonical_answer(severity, summary, command));
            &&& a.0 == severity
            &&& a.1 == summary
            &&& a.2 == (if command == "无"@ { Seq::<Seq<char>>::empty() } else { seq![command] })
            &&& panel_text(a.0, a.1, a.2) == canonical_answer(severity, summary, command)
        }),
{
    reveal_strlit("警告: ");
    reveal_strlit("\n问题: ");
    reveal_strlit("\n命令: ");
    reveal_strlit("警告:");
    reveal_strlit("问题:");
    reveal_strlit("命令:");
    reveal_strlit("无");
    reveal_strlit("\n");
    let k1 = "警告:"@;
    let k2 = "问题:"@;
    let k3 = "命令:"@;
    let l1 = k1 + seq![' '] + severity;
    let l2 = k2 + seq![' '] + summary;
    let l3 = k3 + seq![' '] + command;
    let t = canonical_answer(severity, summary, command);
    let ls = seq![l1, l2, l3];
    assert(t =~= l1 + seq!['\n'] + l2 + seq!['\n'] + l3);
    assert(ls.drop_last() =~= seq![l1, l2]);
    assert(seq![l1, l2].drop_last() =~= seq![l1]);
    assert(join(seq![l1], seq!['\n']) == l1);
    assert(join(seq![l1, l2], seq!['\n']) == l1 + seq!['\n'] + l2);
    assert(join(ls, seq!['\n']) == join(seq![l1, l2], seq!['\n']) + seq!['\n'] + l3);
    assert(join(ls, seq!['\n']) =~= t);
    assert forall|i: int| 0 <= i < ls.len() implies !(#[trigger] ls[i]).contains('\n') by {
        let w = ls[i];
        let x = if i == 0 { severity } else if i == 1 { summary } else { command };
        assert(w =~= w.subrange(0, 4) + x);
        if w.contains('\n') {
            let j = choose|j: int| 0 <= j < w.len() && w[j] == '\n';
            if j >= 4 {
                assert(x[j - 4] == '\n');
            }
        }
    }
    lemma_split_join(ls, '\n');
    assert(split(t, '\n') == ls);
    assert(ls.last() == l3);
    assert(l1.last() != '\r' && l2.last() != '\r' && l3.last() != '\r') by {
        if severity.len() > 0 { assert(l1.last() == severity.last()); }
        if summary.len() > 0 { assert(l2.last() == summary.last()); }
        if command.len() > 0 { assert(l3.last() == command.last()); }
    }
    assert(lines(t) =~= ls);
    assert forall|i: int| 0 <= i < ls.len() implies !(#[trigger] ls[i]).contains(';') && !ls[i].contains('；') by {
        let w = ls[i];
        let x = if i == 0 { severity } else if i == 1 { summary } else { command };
        assert(w =~= w.subrange(0, 4) + x);
        if w.contains(';') {
            let j = choose|j: int| 0 <= j < w.len() && w[j] == ';';
            if j >= 4 {
                assert(x[j - 4] == ';');
            }
        }
        if w.contains('；') {
            let j = choose|j: int| 0 <= j < w.len() && w[j] == '；';
            if j >= 4 {
                assert(x[j - 4] == '；');
            }
        }
    }
    assert(ls[0] == l1 && ls[1] == l2 && ls[2] == l3);
    lemma_split2_none(l1, '；', ';');
    lemma_split2_none(l2, '；', ';');
    lemma_split2_none(l3, '；', ';');
    lemma_labelled_field(k1, severity);
    lemma_labelled_field(k2, summary);
    lemma_labelled_field(k3, command);
    let init: Gathered = ("参考"@, trim(t), Seq::empty());
    assert(seq![l1].drop_last() =~= Seq::<Seq<char>>::empty());
    assert(seq![l2].drop_last() =~= Seq::<Seq<char>>::empty());
    assert(seq![l3].drop_last() =~= Seq::<Seq<char>>::empty());
    let f1 = trim(l1);
    let f2 = trim(l2);
    let f3 = trim(l3);
    assert(starts_with(f1, k1));
    let st1 = take_lines(init, seq![l1]);
    assert(take_lines(init, Seq::<Seq<char>>::empty()) == init);
    assert(st1 == take_fields(init, seq![l1]));
    assert(take_fields(init, Seq::<Seq<char>>::empty()) == init);
    assert(seq![l1].last() == l1);
    assert(take_fields(init, seq![l1]) == take_field(init, f1));
    assert(st1 == (severity, trim(t), Seq::<Seq<char>>::empty()));
    assert(f2.subrange(0, 3)[0] != k1[0]);
    assert(!starts_with(f2, k1));
    assert(starts_with(f2, k2));
    let st2 = take_lines(init, seq![l1, l2]);
    assert(st2 == take_fields(st1, seq![l2]));
    assert(take_fields(st1, Seq::<Seq<char>>::empty()) == st1);
    assert(seq![l2].last() == l2);
    assert(take_fields(st1, seq![l2]) == take_field(st1, f2));
    assert(st2 == (severity, summary, Seq::<Seq<char>>::empty()));
    assert(f3.subrange(0, 3)[0] != k1[0]);
    assert(f3.subrange(0, 3)[0] != k2[0]);
    assert(!starts_with(f3, k1));
    assert(!starts_with(f3, k2));
    assert(starts_with(f3, k3));
    let st3 = take_lines(init, ls);
    assert(st3 == take_fields(st2, seq![l3]));
    assert(take_fields(st2, Seq::<Seq<char>>::empty()) == st2);
    assert(seq![l3].last() == l3);
    assert(take_fields(st2, seq![l3]) == take_field(st2, f3));
    assert(model_analysis(t) == st3);
    if command == "无"@ {
        assert(st3.2 == Seq::<Seq<char>>::empty());
        assert(first_command(st3.2) is None);
    } else {
        assert(command.len() > 0);
        assert(st3.2 =~= seq![command]);
        assert(first_command(st3.2) == Some(command));
    }
    assert(panel_text(st3.0, st3.1, st3.2) =~= t);
}

} // verus!

verus! {

/// A leading space does not change a trimmed text.
proof fn lemma_trim_after_space(l: Seq<char>)
    ensures
        trim(seq![' '] + l) == trim(l),
{
    let t = seq![' '] + l;
    assert(t[0] == ' ');
    assert(t.drop_first() =~= l);
    assert(crate::text::trim_start(t) == crate::text::trim_start(l));
}

/// The answer on one line, its fields separated by `;` or `；`: warning,
/// problem and command.
pub open spec fn one_line_answer(severity: Seq<char>, summary: Seq<char>, command: Seq<char>, sep: char) -> Seq<char> {
    "警告: "@ + severity + seq![sep] + " 问题: "@ + summary + seq![sep] + " 命令: "@ + command
}

/// An answer on one line with its fields separated by `;` or `；` is read as
/// the same three fields: the warning, the problem, and the command (none
/// when it is empty or `无`).
pub proof fn lemma_one_line_answer(severity: Seq<char>, summary: Seq<char>, command: Seq<char>, sep: char)
    requires
        plain_field(severity),
        plain_field(summary),
        plain_field(command),
        sep == ';' || sep == '；',
    ensures
        ({
            let a = model_analysis(one_line_answer(severity, summary, command, sep));
            &&& a.0 == severity
            &&& a.1 == summary
            &&& a.2 == (if command.len() > 0 && command != "无"@ { seq![command] } else { Seq::<Seq<char>>::empty() })
        }),
{
    reveal_strlit("警告: ");
    reveal_strlit(" 问题: ");
    reveal_strlit(" 命令: ");
    reveal_strlit("警告:");
    reveal_strlit("问题:");
    reveal_strlit("命令:");
    reveal_strlit("无");
    let k1 = "警告:"@;
    let k2 = "问题:"@;
    let k3 = "命令:"@;
    let l1 = k1 + seq![' '] + severity;
    let l2 = k2 + seq![' '] + summary;
    let l3 = k3 + seq![' '] + command;
    let m2 = seq![' '] + l2;
    let m3 = seq![' '] + l3;
    let t = one_line_answer(severity, summary, command, sep);
    let rest = m2 + seq![sep] + m3;
    assert(t =~= l1 + seq![sep] + rest);
    let ls = seq![l1, m2, m3];
    assert forall|i: int| 0 <= i < ls.len() implies !(#[trigger] ls[i]).contains(';') && !ls[i].contains('；') && !ls[i].contains('\n') by {
        let w = ls[i];
        let x = if i == 0 { severity } else if i == 1 { summary } else { command };
        let h: int = if i == 0 { 4 } else { 5 };
        assert(w =~= w.subrange(0, h) + x);
        if w.contains(';') {
            let j = choose|j: int| 0 <= j < w.len() && w[j] == ';';
            if j >= h { assert(x[j - h] == ';'); }
        }
        if w.contains('；') {
            let j = choose|j: int| 0 <= j < w.len() && w[j] == '；';
            if j >= h { assert(x[j - h] == '；'); }
        }
        if w.contains('\n') {
            let j = choose|j: int| 0 <= j < w.len() && w[j] == '\n';
            if j >= h { assert(x[j - h] == '\n'); }
        }
    }
    assert(ls[0] == l1 && ls[1] == m2 && ls[2] == m3);
    lemma_split2_none(l1, '；', ';');
    lemma_split2_none(m2, '；', ';');
    lemma_split2_none(m3, '；', ';');
    lemma_split2_concat(m2, m3, '；', ';', sep);
    lemma_split2_concat(l1, rest, '；', ';', sep);
    let fs = split2(t, '；', ';');
    assert(fs =~= seq![l1, m2, m3]);
    assert(!t.contains('\n')) by {
        if t.contains('\n') {
            let j = choose|j: int| 0 <= j < t.len() && t[j] == '\n';
            if j < l1.len() {
                assert(l1[j] == '\n');
            } else if j == l1.len() {
                assert(t[j] == sep);
            } else if j < l1.len() + 1 + m2.len() {
                assert(m2[j - l1.len() - 1] == '\n');
            } else if j == l1.len() + 1 + m2.len() {
                assert(t[j] == sep);
            } else {
                assert(m3[j - l1.len() - 2 - m2.len()] == '\n');
            }
        }
    }
    lemma_split_none(t, '\n');
    assert(split(t, '\n') == seq![t]);
    assert(seq![t].drop_last() =~= Seq::<Seq<char>>::empty());
    assert(lines(t) =~= seq![t]);
    lemma_trim_after_space(l2);
    lemma_trim_after_space(l3);
    lemma_labelled_field(k1, severity);
    lemma_labelled_field(k2, summary);
    lemma_labelled_field(k3, command);
    let f1 = trim(l1);
    let f2 = trim(l2);
    let f3 = trim(l3);
    assert(trim(m2) == f2);
    assert(trim(m3) == f3);
    let init: Gathered = ("参考"@, trim(t), Seq::empty());
    assert(seq![t].drop_last() =~= Seq::<Seq<char>>::empty());
    assert(take_lines(init, Seq::<Seq<char>>::empty()) == init);
    assert(take_lines(init, seq![t]) == take_fields(init, fs));
    assert(fs.drop_last() =~= seq![l1, m2]);
    assert(seq![l1, m2].drop_last() =~= seq![l1]);
    assert(seq![l1].drop_last() =~= Seq::<Seq<char>>::empty());
    assert(take_fields(init, Seq::<Seq<char>>::empty()) == init);
    assert(starts_with(f1, k1));
    let st1 = take_fields(init, seq![l1]);
    assert(st1 == take_field(init, f1));
    assert(st1 == (severity, trim(t), Seq::<Seq<char>>::empty()));
    assert(f2.subrange(0, 3)[0] != k1[0]);
    assert(!starts_with(f2, k1));
    assert(starts_with(f2, k2));
    let st2 = take_fields(init, seq![l1, m2]);
    assert(st2 == take_field(st1, f2));
    assert(st2 == (severity, summary, Seq::<Seq<char>>::empty()));
    assert(f3.subrange(0, 3)[0] != k1[0]);
    assert(f3.subrange(0, 3)[0] != k2[0]);
    assert(!starts_with(f3, k1));
    assert(!starts_with(f3, k2));
    assert(starts_with(f3, k3));
    let st3 = take_fields(init, fs);
    assert(st3 == take_field(st2, f3));
    assert(model_analysis(t) == st3);
    if command.len() > 0 && command != "无"@ {
        assert(st3.2 =~= seq![command]);
    } else {
        assert(st3.2 =~= Seq::<Seq<char>>::empty());
    }
}

} // verus!

verus! {

/// A suggestion's command is the first text in backticks, trimmed, when it
/// is not blank, whatever surrounds it.
pub proof fn lemma_command_in_backticks(before: Seq<char>, cmd: Seq<char>, after: Seq<char>)
    requires
        !before.contains('`'),
        !cmd.contains('`'),
        trim(cmd).len() > 0,
    ensures
        extract_command_spec(before + seq!['`'] + cmd + seq!['`'] + after) == Some(trim(cmd)),
{
    let text = before + seq!['`'] + cmd + seq!['`'] + after;
    assert(text =~= before + seq!['`'] + (cmd + seq!['`'] + after));
    lemma_split_concat(before, cmd + seq!['`'] + after, '`');
    lemma_split_concat(cmd, after, '`');
    lemma_split_none(before, '`');
    lemma_split_none(cmd, '`');
    crate::text::lemma_split_nonempty(after, '`');
    let p = split(text, '`');
    assert(p =~= seq![before] + (seq![cmd] + split(after, '`')));
    assert(p.len() >= 3);
    assert(p[1] == cmd);
}

/// A suggestion without backticks is a command as it stands (trimmed, a
/// trailing `。` dropped) unless it holds a CJK ideograph, which makes it
/// prose and no command.
pub proof fn lemma_command_without_backticks(text: Seq<char>)
    requires
        !text.contains('`'),
        trim(text).len() > 0,
    ensures
        trim(text).last() != '。' && !has_cjk(trim(text)) ==> extract_command_spec(text) == Some(trim(text)),
        has_cjk(trim(text)) ==> extract_command_spec(text) is None,
{
    lemma_split_none(text, '`');
    let t = trim(text);
    lemma_trim_end_char_law(t, '。');
    let r = trim_end_char(t, '。');
    if t.last() != '。' {
        assert(r == t);
    }
    if has_cjk(t) {
        let i = choose|i: int| 0 <= i < t.len() && '\u{4e00}' <= #[trigger] t[i] && t[i] <= '\u{9fff}';
        assert(i < r.len()) by {
            if i >= r.len() {
                assert(t[i] == '。');
            }
        }
        assert(r[i] == t[i]);
        assert(has_cjk(r));
    }
}

/// The prompt opens with the node's name, names the login user, shows the
/// previous advice (trimmed, or `无` when there is none) and ends with the
/// terminal output.
pub proof fn lemma_prompt_law(node_name: Seq<char>, user: Seq<char>, context: Seq<char>, previous_advice: Seq<char>)
    ensures
        ({
            let p = prompt_spec(node_name, user, context, previous_advice);
            let h: int = prompt_head().len() as int;
            let u: int = h + node_name.len() + prompt_user_intro().len();
            let prev = if is_blank(previous_advice) { "无"@ } else { trim(previous_advice) };
            let e = p.len() - context.len();
            let q = e - prompt_context_intro().len() - prev.len();
            &&& p.subrange(h, h + node_name.len()) == node_name
            &&& p.subrange(u, u + user.len()) == user
            &&& p.subrange(q as int, q + prev.len()) == prev
            &&& p.subrange(e as int, p.len() as int) == context
        }),
{
    let p = prompt_spec(node_name, user, context, previous_advice);
    let h: int = prompt_head().len() as int;
    let u: int = h + node_name.len() + prompt_user_intro().len();
    let prev = previous_section(previous_advice);
    let e = p.len() - context.len();
    let q = e - prompt_context_intro().len() - prev.len();
    assert(p.subrange(h, h + node_name.len()) =~= node_name);
    assert(p.subrange(u, u + user.len()) =~= user);
    assert(p.subrange(q as int, q + prev.len()) =~= prev);
    assert(p.subrange(e as int, p.len() as int) =~= context);
}

} // verus!

verus! {

/// A `.env` line `NAME=value` sets `NAME` to `value`, for a name without
/// `=` that does not open a comment and a value without `#` or quotes around
/// it, neither with white space at its ends.
pub proof fn lemma_dotenv_line(name: Seq<char>, value: Seq<char>)
    requires
        name.len() > 0,
        !is_ws(name[0]) && !is_ws(name.last()),
        name[0] != '#',
        !name.contains('=') && !name.contains('\n'),
        !value.contains('#') && !value.contains('\n'),
        value.len() > 0 ==> !is_ws(value[0]) && !is_ws(value.last()) && !is_quote(value[0]),
    ensures
        dotenv_pairs(name + seq!['='] + value) == seq![(name, value)],
{
    let l = name + seq!['='] + value;
    // one line
    assert(!l.contains('\n')) by {
        if l.contains('\n') {
            let j = choose|j: int| 0 <= j < l.len() && l[j] == '\n';
            if j < name.len() {
                assert(name[j] == '\n');
            } else if j > name.len() {
                assert(value[j - name.len() - 1] == '\n');
            }
        }
    }
    lemma_split_none(l, '\n');
    assert(seq![l].drop_last() =~= Seq::<Seq<char>>::empty());
    assert(lines(l) =~= seq![l]);
    // trimming changes nothing
    lemma_trim_law(l);
    assert(l[0] == name[0]);
    assert(crate::text::trim_start(l) == l);
    if value.len() > 0 {
        assert(l.last() == value.last());
    }
    assert(crate::text::trim_end(l) == l);
    assert(trim(l) == l);
    // the first `=` splits name from value
    lemma_split_concat(name, value, '=');
    lemma_split_none(name, '=');
    crate::text::lemma_split_nonempty(value, '=');
    assert(split(l, '=') =~= seq![name] + split(value, '='));
    assert(split(l, '=')[0] == name);
    assert(l.subrange(name.len() + 1int, l.len() as int) =~= value);
    assert(split_once(l, '=') == Some((name, value)));
    assert(crate::text::trim_start(name) == name);
    assert(crate::text::trim_end(name) == name);
    assert(trim(name) == name);
    if value.len() > 0 {
        assert(crate::text::trim_start(value) == value);
        assert(crate::text::trim_end(value) == value);
    }
    assert(trim(value) == value);
    lemma_split_none(value, '#');
    if value.len() > 0 {
        assert(crate::text::trim_end(value) == value);
    }
    assert(unquote_spec(value) == value);
    assert(dotenv_entry(l) == Some((name, value)));
    Seq::<Seq<char>>::lemma_filter_map_singleton(l, |x: Seq<char>| dotenv_entry(x));
}

/// Comment lines and blank lines set nothing.
pub proof fn lemma_dotenv_comment(line: Seq<char>)
    requires
        !line.contains('\n'),
        trim(line).len() == 0 || trim(line)[0] == '#',
    ensures
        dotenv_pairs(line) == Seq::<(Seq<char>, Seq<char>)>::empty(),
{
    if line.len() > 0 {
        lemma_split_none(line, '\n');
        assert(seq![line].drop_last() =~= Seq::<Seq<char>>::empty());
        assert(lines(line) =~= seq![line]);
        Seq::<Seq<char>>::lemma_filter_map_singleton(line, |x: Seq<char>| dotenv_entry(x));
    }
}

} // verus!
