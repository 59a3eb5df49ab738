//! Adding, editing and deleting nodes, and switching a node to key login.
//! The dialogs are state machines: the program asks what a step asks and
//! hands the answer back.
use vstd::prelude::*;
use crate::config::{VpsEntry, parse_port, parse_u16_spec, port_text, lemma_port_text_round_trip};
use crate::text::{chars_of, string_of, push_str, chars_eq, opt_view, decimal, trim, trim_chars, string_views};

verus! {

/// What a dialog step asks.
#[derive(Debug, Clone)]
pub enum Prompt {
    /// A line of text, with the value an empty answer takes.
    Text { label: String, default: Option<String> },
    /// Yes or no, with the value an empty answer takes.
    Confirm { label: String, default: bool },
    /// A hidden line of text.
    Secret { label: String },
}

/// An answer to a prompt.
#[derive(Debug, Clone)]
pub enum Answer {
    Text(String),
    Confirm(bool),
}

/// What a dialog does after an answer.
#[derive(Debug, Clone)]
pub enum FormStep {
    Ask(Prompt),
    Finished(VpsEntry),
    Cancelled(String),
}

/// The contents of a prompt.
pub enum PromptView {
    Text(Seq<char>, Option<Seq<char>>),
    Confirm(Seq<char>, bool),
    Secret(Seq<char>),
}

/// The contents of a node.
pub struct EntryView {
    pub name: Seq<char>,
    pub host: Seq<char>,
    pub port: u16,
    pub user: Seq<char>,
    pub password: Option<Seq<char>>,
    pub key_path: Option<Seq<char>>,
    pub setup: Option<bool>,
}

/// The contents of a dialog step.
pub enum StepView {
    Ask(PromptView),
    Finished(EntryView),
    Cancelled(Seq<char>),
}

/// The contents of an answer.
pub enum AnswerView {
    Text(Seq<char>),
    Confirm(bool),
}

pub open spec fn prompt_view(p: Prompt) -> PromptView {
    match p {
        Prompt::Text { label, default } => PromptView::Text(label@, opt_view(default)),
        Prompt::Confirm { label, default } => PromptView::Confirm(label@, default),
        Prompt::Secret { label } => PromptView::Secret(label@),
    }
}

pub open spec fn entry_view(e: VpsEntry) -> EntryView {
    EntryView {
        name: e.name@,
        host: e.host@,
        port: e.port,
        user: e.user@,
        password: opt_view(e.password),
        key_path: opt_view(e.key_path),
        setup: e.setup,
    }
}

pub open spec fn step_view(s: FormStep) -> StepView {
    match s {
        FormStep::Ask(p) => StepView::Ask(prompt_view(p)),
        FormStep::Finished(e) => StepView::Finished(entry_view(e)),
        FormStep::Cancelled(m) => StepView::Cancelled(m@),
    }
}

pub open spec fn answer_view(a: Answer) -> AnswerView {
    match a {
        Answer::Text(t) => AnswerView::Text(t@),
        Answer::Confirm(b) => AnswerView::Confirm(b),
    }
}

/// The answer that cancels a dialog at any text prompt.
pub open spec fn cancel_word() -> Seq<char> {
    "!q"@
}

/// Whether an answer cancels the dialog.
pub fn is_cancel(input: &str) -> (b: bool)
    ensures
        b == (input@ == cancel_word()),
{
    let a = chars_of(input);
    let q = chars_of("!q");
    chars_eq(a.as_slice(), q.as_slice())
}

fn text_prompt(label: &str, default: Option<String>) -> (s: FormStep)
    ensures
        step_view(s) == StepView::Ask(PromptView::Text(label@, opt_view(default))),
{
    FormStep::Ask(Prompt::Text { label: String::from_str(label), default })
}

/// The stages of the dialog that adds a node.
#[derive(Debug, Clone, Copy, PartialEq, Eq, Structural)]
pub enum AddStage {
    Name,
    Host,
    Port,
    User,
    UsePassword,
    Password,
    KeyPath,
    Closed,
}

/// The dialog that adds a node: what it has gathered so far.
#[derive(Debug, Clone)]
pub struct AddForm {
    pub stage: AddStage,
    pub name: String,
    pub host: String,
    pub port: u16,
    pub user: String,
    pub default_key_path: String,
}

/// The contents of the add dialog.
pub struct AddView {
    pub stage: AddStage,
    pub name: Seq<char>,
    pub host: Seq<char>,
    pub port: u16,
    pub user: Seq<char>,
    pub default_key_path: Seq<char>,
}

pub open spec fn add_view(f: AddForm) -> AddView {
    AddView { stage: f.stage, name: f.name@, host: f.host@, port: f.port, user: f.user@, default_key_path: f.default_key_path@ }
}

/// The message when adding is cancelled.
pub open spec fn add_cancelled() -> Seq<char> {
    "操作已取消"@
}

/// The first question of the add dialog.
pub open spec fn add_first_prompt() -> PromptView {
    PromptView::Text("VPS 别名 (如 阿里云)"@, None)
}

/// One answer taken by the add dialog. At a text prompt `!q` cancels. The
/// name, host, port (22 unless it reads as a port), user are asked in turn;
/// then whether to log in by password; then the password, or the key path
/// (offered with the default key path). A node is finished with exactly one
/// of password and key. An answer of the wrong kind repeats the question.
pub open spec fn add_next(f: AddView, a: AnswerView) -> (AddView, StepView) {
    let closed = AddView { stage: AddStage::Closed, ..f };
    match (f.stage, a) {
        (AddStage::Name, AnswerView::Text(t)) =>
            if t == cancel_word() { (closed, StepView::Cancelled(add_cancelled())) }
            else { (AddView { stage: AddStage::Host, name: t, ..f }, StepView::Ask(PromptView::Text("IP 地址"@, None))) },
        (AddStage::Host, AnswerView::Text(t)) =>
            if t == cancel_word() { (closed, StepView::Cancelled(add_cancelled())) }
            else { (AddView { stage: AddStage::Port, host: t, ..f }, StepView::Ask(PromptView::Text("SSH 端口"@, Some("22"@)))) },
        (AddStage::Port, AnswerView::Text(t)) =>
            if t == cancel_word() { (closed, StepView::Cancelled(add_cancelled())) }
            else {
                let port = match parse_u16_spec(t) { Some(p) => p, None => 22u16 };
                (AddView { stage: AddStage::User, port: port, ..f }, StepView::Ask(PromptView::Text("登录用户名"@, Some("root"@))))
            },
        (AddStage::User, AnswerView::Text(t)) =>
            if t == cancel_word() { (closed, StepView::Cancelled(add_cancelled())) }
            else { (AddView { stage: AddStage::UsePassword, user: t, ..f }, StepView::Ask(PromptView::Confirm("是否使用密码登录？(选 No 则配置私钥)"@, true))) },
        (AddStage::UsePassword, AnswerView::Confirm(b)) =>
            if b { (AddView { stage: AddStage::Password, ..f }, StepView::Ask(PromptView::Secret("登录密码 (输入时不可见)"@))) }
            else { (AddView { stage: AddStage::KeyPath, ..f }, StepView::Ask(PromptView::Text("私钥完整路径"@, Some(f.default_key_path)))) },
        (AddStage::Password, AnswerView::Text(t)) =>
            if t == cancel_word() { (closed, StepView::Cancelled(add_cancelled())) }
            else { (closed, StepView::Finished(EntryView { name: f.name, host: f.host, port: f.port, user: f.user, password: Some(t), key_path: None, setup: None })) },
        (AddStage::KeyPath, AnswerView::Text(t)) =>
            if t == cancel_word() { (closed, StepView::Cancelled(add_cancelled())) }
            else { (closed, StepView::Finished(EntryView { name: f.name, host: f.host, port: f.port, user: f.user, password: None, key_path: Some(t), setup: None })) },
        _ => (f, StepView::Ask(add_prompt_of(f))),
    }
}

/// The question the add dialog is waiting on at its stage.
pub open spec fn add_prompt_of(f: AddView) -> PromptView {
    match f.stage {
        AddStage::Name => add_first_prompt(),
        AddStage::Host => PromptView::Text("IP 地址"@, None),
        AddStage::Port => PromptView::Text("SSH 端口"@, Some("22"@)),
        AddStage::User => PromptView::Text("登录用户名"@, Some("root"@)),
        AddStage::UsePassword => PromptView::Confirm("是否使用密码登录？(选 No 则配置私钥)"@, true),
        AddStage::Password => PromptView::Secret("登录密码 (输入时不可见)"@),
        AddStage::KeyPath => PromptView::Text("私钥完整路径"@, Some(f.default_key_path)),
        AddStage::Closed => add_first_prompt(),
    }
}

fn copy_string(s: &String) -> (r: String)
    ensures
        r@ == s@,
{
    String::from_str(s.as_str())
}

impl AddForm {
    /// A new add dialog, and its first question. `default_key_path` is the
    /// key path it offers.
    pub fn new(default_key_path: String) -> (r: (AddForm, FormStep))
        ensures
            add_view(r.0) == (AddView {
                stage: AddStage::Name,
                name: Seq::empty(),
                host: Seq::empty(),
                port: 22u16,
                user: Seq::empty(),
                default_key_path: default_key_path@,
            }),
            step_view(r.1) == StepView::Ask(add_first_prompt()),
    {
        let f = AddForm {
            stage: AddStage::Name,
            name: String::new(),
            host: String::new(),
            port: 22,
            user: String::new(),
            default_key_path,
        };
        (f, text_prompt("VPS 别名 (如 阿里云)", None))
    }

    /// The question the dialog is waiting on.
    pub fn current_prompt(&self) -> (s: FormStep)
        ensures
            step_view(s) == StepView::Ask(add_prompt_of(add_view(*self))),
    {
        match self.stage {
            AddStage::Name => text_prompt("VPS 别名 (如 阿里云)", None),
            AddStage::Host => text_prompt("IP 地址", None),
            AddStage::Port => text_prompt("SSH 端口", Some(String::from_str("22"))),
            AddStage::User => text_prompt("登录用户名", Some(String::from_str("root"))),
            AddStage::UsePassword => FormStep::Ask(Prompt::Confirm { label: String::from_str("是否使用密码登录？(选 No 则配置私钥)"), default: true }),
            AddStage::Password => FormStep::Ask(Prompt::Secret { label: String::from_str("登录密码 (输入时不可见)") }),
            AddStage::KeyPath => text_prompt("私钥完整路径", Some(copy_string(&self.default_key_path))),
            AddStage::Closed => text_prompt("VPS 别名 (如 阿里云)", None),
        }
    }

    /// Takes an answer (see `add_next`).
    pub fn answer(&mut self, a: Answer) -> (s: FormStep)
        ensures
            (add_view(*final(self)), step_view(s)) == add_next(add_view(*old(self)), answer_view(a)),
    {
        match (self.stage, a) {
            (AddStage::Name, Answer::Text(t)) => {
                if is_cancel(t.as_str()) {
                    self.stage = AddStage::Closed;
                    return FormStep::Cancelled(String::from_str("操作已取消"));
                }
                self.name = t;
                self.stage = AddStage::Host;
                text_prompt("IP 地址", None)
            },
            (AddStage::Host, Answer::Text(t)) => {
                if is_cancel(t.as_str()) {
                    self.stage = AddStage::Closed;
                    return FormStep::Cancelled(String::from_str("操作已取消"));
                }
                self.host = t;
                self.stage = AddStage::Port;
                text_prompt("SSH 端口", Some(String::from_str("22")))
            },
            (AddStage::Port, Answer::Text(t)) => {
                if is_cancel(t.as_str()) {
                    self.stage = AddStage::Closed;
                    return FormStep::Cancelled(String::from_str("操作已取消"));
                }
                self.port = match parse_port(t.as_str()) {
                    Some(p) => p,
                    None => 22,
                };
                self.stage = AddStage::User;
                text_prompt("登录用户名", Some(String::from_str("root")))
            },
            (AddStage::User, Answer::Text(t)) => {
                if is_cancel(t.as_str()) {
                    self.stage = AddStage::Closed;
                    return FormStep::Cancelled(String::from_str("操作已取消"));
                }
                self.user = t;
                self.stage = AddStage::UsePassword;
                FormStep::Ask(Prompt::Confirm { label: String::from_str("是否使用密码登录？(选 No 则配置私钥)"), default: true })
            },
            (AddStage::UsePassword, Answer::Confirm(b)) => {
                if b {
                    self.stage = AddStage::Password;
                    FormStep::Ask(Prompt::Secret { label: String::from_str("登录密码 (输入时不可见)") })
                } else {
                    self.stage = AddStage::KeyPath;
                    text_prompt("私钥完整路径", Some(copy_string(&self.default_key_path)))
                }
            },
            (AddStage::Password, Answer::Text(t)) => {
                self.stage = AddStage::Closed;
                if is_cancel(t.as_str()) {
                    return FormStep::Cancelled(String::from_str("操作已取消"));
                }
                FormStep::Finished(VpsEntry {
                    name: copy_string(&self.name),
                    host: copy_string(&self.host),
                    port: self.port,
                    user: copy_string(&self.user),
                    password: Some(t),
                    key_path: None,
                    setup: None,
                })
            },
            (AddStage::KeyPath, Answer::Text(t)) => {
                self.stage = AddStage::Closed;
                if is_cancel(t.as_str()) {
                    return FormStep::Cancelled(String::from_str("操作已取消"));
                }
                FormStep::Finished(VpsEntry {
                    name: copy_string(&self.name),
                    host: copy_string(&self.host),
                    port: self.port,
                    user: copy_string(&self.user),
                    password: None,
                    key_path: Some(t),
                    setup: None,
                })
            },
            _ => self.current_prompt(),
        }
    }
}

} // verus!

verus! {

/// The stages of the dialog that edits a node.
#[derive(Debug, Clone, Copy, PartialEq, Eq, Structural)]
pub enum EditStage {
    Name,
    Host,
    Port,
    User,
    ResetPassword,
    Password,
    Closed,
}

/// The dialog that edits a node: the node as it was, and the new values
/// gathered so far. Nothing changes until the dialog finishes.
#[derive(Debug, Clone)]
pub struct EditForm {
    pub stage: EditStage,
    pub original: VpsEntry,
    pub name: String,
    pub host: String,
    pub port: u16,
    pub user: String,
}

/// The contents of the edit dialog.
pub struct EditView {
    pub stage: EditStage,
    pub original: EntryView,
    pub name: Seq<char>,
    pub host: Seq<char>,
    pub port: u16,
    pub user: Seq<char>,
}

pub open spec fn edit_view(f: EditForm) -> EditView {
    EditView { stage: f.stage, original: entry_view(f.original), name: f.name@, host: f.host@, port: f.port, user: f.user@ }
}

/// The message when editing is cancelled.
pub open spec fn edit_cancelled() -> Seq<char> {
    "编辑已取消，没有任何内容被修改"@
}

/// The question the edit dialog is waiting on at its stage; every text
/// question offers the node's current value.
pub open spec fn edit_prompt_of(f: EditView) -> PromptView {
    match f.stage {
        EditStage::Name => PromptView::Text("VPS 别名"@, Some(f.original.name)),
        EditStage::Host => PromptView::Text("IP 地址"@, Some(f.original.host)),
        EditStage::Port => PromptView::Text("SSH 端口"@, Some(decimal(f.original.port as nat))),
        EditStage::User => PromptView::Text("登录用户名"@, Some(f.original.user)),
        EditStage::ResetPassword => PromptView::Confirm("是否需要重新设置密码？"@, false),
        EditStage::Password => PromptView::Secret("新密码 (输入时不可见)"@),
        EditStage::Closed => PromptView::Text("VPS 别名"@, Some(f.original.name)),
    }
}

/// The node an edit finishes with: the new name, host, port and user, and
/// either a new password (which drops the key) or the old credentials.
pub open spec fn edited_entry(f: EditView, new_password: Option<Seq<char>>) -> EntryView {
    EntryView {
        name: f.name,
        host: f.host,
        port: f.port,
        user: f.user,
        password: match new_password { Some(p) => Some(p), None => f.original.password },
        key_path: match new_password { Some(_) => None, None => f.original.key_path },
        setup: f.original.setup,
    }
}

/// One answer taken by the edit dialog. At a text prompt `!q` cancels and
/// nothing changes. Name, host, port (the old port unless the answer reads
/// as a port) and user are asked in turn, then whether to set a new
/// password, then the password. An answer of the wrong kind repeats the question.
pub open spec fn edit_next(f: EditView, a: AnswerView) -> (EditView, StepView) {
    let closed = EditView { stage: EditStage::Closed, ..f };
    match (f.stage, a) {
        (EditStage::Name, AnswerView::Text(t)) =>
            if t == cancel_word() { (closed, StepView::Cancelled(edit_cancelled())) }
            else {
                let g = EditView { stage: EditStage::Host, name: t, ..f };
                (g, StepView::Ask(edit_prompt_of(g)))
            },
        (EditStage::Host, AnswerView::Text(t)) =>
            if t == cancel_word() { (closed, StepView::Cancelled(edit_cancelled())) }
            else {
                let g = EditView { stage: EditStage::Port, host: t, ..f };
                (g, StepView::Ask(edit_prompt_of(g)))
            },
        (EditStage::Port, AnswerView::Text(t)) =>
            if t == cancel_word() { (closed, StepView::Cancelled(edit_cancelled())) }
            else {
                let port = match parse_u16_spec(t) { Some(p) => p, None => f.original.port };
                let g = EditView { stage: EditStage::User, port: port, ..f };
                (g, StepView::Ask(edit_prompt_of(g)))
            },
        (EditStage::User, AnswerView::Text(t)) =>
            if t == cancel_word() { (closed, StepView::Cancelled(edit_cancelled())) }
            else {
                let g = EditView { stage: EditStage::ResetPassword, user: t, ..f };
                (g, StepView::Ask(edit_prompt_of(g)))
            },
        (EditStage::ResetPassword, AnswerView::Confirm(b)) =>
            if b {
                let g = EditView { stage: EditStage::Password, ..f };
                (g, StepView::Ask(edit_prompt_of(g)))
            } else {
                (closed, StepView::Finished(edited_entry(f, None)))
            },
        (EditStage::Password, AnswerView::Text(t)) =>
            if t == cancel_word() { (closed, StepView::Cancelled(edit_cancelled())) }
            else { (closed, StepView::Finished(edited_entry(f, Some(t)))) },
        _ => (f, StepView::Ask(edit_prompt_of(f))),
    }
}

fn copy_opt(o: &Option<String>) -> (r: Option<String>)
    ensures
        opt_view(r) == opt_view(*o),
{
    match o {
        Some(s) => Some(copy_string(s)),
        None => None,
    }
}

impl EditForm {
    /// A new edit dialog for `entry`, and its first question.
    pub fn new(entry: VpsEntry) -> (r: (EditForm, FormStep))
        ensures
            edit_view(r.0) == (EditView {
                stage: EditStage::Name,
                original: entry_view(entry),
                name: entry.name@,
                host: entry.host@,
                port: entry.port,
                user: entry.user@,
            }),
            step_view(r.1) == StepView::Ask(edit_prompt_of(edit_view(r.0))),
    {
        let f = EditForm {
            name: copy_string(&entry.name),
            host: copy_string(&entry.host),
            port: entry.port,
            user: copy_string(&entry.user),
            stage: EditStage::Name,
            original: entry,
        };
        let s = f.current_prompt();
        (f, s)
    }

    /// The question the dialog is waiting on.
    pub fn current_prompt(&self) -> (s: FormStep)
        ensures
            step_view(s) == StepView::Ask(edit_prompt_of(edit_view(*self))),
    {
        match self.stage {
            EditStage::Name => text_prompt("VPS 别名", Some(copy_string(&self.original.name))),
            EditStage::Host => text_prompt("IP 地址", Some(copy_string(&self.original.host))),
            EditStage::Port => text_prompt("SSH 端口", Some(port_text(self.original.port))),
            EditStage::User => text_prompt("登录用户名", Some(copy_string(&self.original.user))),
            EditStage::ResetPassword => FormStep::Ask(Prompt::Confirm { label: String::from_str("是否需要重新设置密码？"), default: false }),
            EditStage::Password => FormStep::Ask(Prompt::Secret { label: String::from_str("新密码 (输入时不可见)") }),
            EditStage::Closed => text_prompt("VPS 别名", Some(copy_string(&self.original.name))),
        }
    }

    fn finish(&self, new_password: Option<String>) -> (e: VpsEntry)
        ensures
            entry_view(e) == edited_entry(edit_view(*self), opt_view(new_password)),
    {
        let (password, key_path) = match new_password {
            Some(p) => (Some(p), None),
            None => (copy_opt(&self.original.password), copy_opt(&self.original.key_path)),
        };
        VpsEntry {
            name: copy_string(&self.name),
            host: copy_string(&self.host),
            port: self.port,
            user: copy_string(&self.user),
            password,
            key_path,
            setup: self.original.setup,
        }
    }

    /// Takes an answer (see `edit_next`).
    pub fn answer(&mut self, a: Answer) -> (s: FormStep)
        ensures
            (edit_view(*final(self)), step_view(s)) == edit_next(edit_view(*old(self)), answer_view(a)),
    {
        match (self.stage, a) {
            (EditStage::Name, Answer::Text(t)) => {
                if is_cancel(t.as_str()) {
                    self.stage = EditStage::Closed;
                    return FormStep::Cancelled(String::from_str("编辑已取消，没有任何内容被修改"));
                }
                self.name = t;
                self.stage = EditStage::Host;
                self.current_prompt()
            },
            (EditStage::Host, Answer::Text(t)) => {
                if is_cancel(t.as_str()) {
                    self.stage = EditStage::Closed;
                    return FormStep::Cancelled(String::from_str("编辑已取消，没有任何内容被修改"));
                }
                self.host = t;
                self.stage = EditStage::Port;
                self.current_prompt()
            },
            (EditStage::Port, Answer::Text(t)) => {
                if is_cancel(t.as_str()) {
                    self.stage = EditStage::Closed;
                    return FormStep::Cancelled(String::from_str("编辑已取消，没有任何内容被修改"));
                }
                self.port = match parse_port(t.as_str()) {
                    Some(p) => p,
                    None => self.original.port,
                };
                self.stage = EditStage::User;
                self.current_prompt()
            },
            (EditStage::User, Answer::Text(t)) => {
                if is_cancel(t.as_str()) {
                    self.stage = EditStage::Closed;
                    return FormStep::Cancelled(String::from_str("编辑已取消，没有任何内容被修改"));
                }
                self.user = t;
                self.stage = EditStage::ResetPassword;
                self.current_prompt()
            },
            (EditStage::ResetPassword, Answer::Confirm(b)) => {
                if b {
                    self.stage = EditStage::Password;
                    self.current_prompt()
                } else {
                    let e = self.finish(None);
                    self.stage = EditStage::Closed;
                    FormStep::Finished(e)
                }
            },
            (EditStage::Password, Answer::Text(t)) => {
                if is_cancel(t.as_str()) {
                    self.stage = EditStage::Closed;
                    return FormStep::Cancelled(String::from_str("编辑已取消，没有任何内容被修改"));
                }
                let e = self.finish(Some(t));
                self.stage = EditStage::Closed;
                FormStep::Finished(e)
            },
            _ => self.current_prompt(),
        }
    }
}

} // verus!

verus! {

/// Accepting every offered value, and setting no new password, finishes
/// the edit with the node exactly as it was (provided none of the offered
/// texts is the cancel word itself).
pub proof fn lemma_edit_with_defaults_changes_nothing(e: EntryView)
    requires
        e.name != cancel_word(),
        e.host != cancel_word(),
        e.user != cancel_word(),
    ensures
        ({
            let f0 = EditView { stage: EditStage::Name, original: e, name: e.name, host: e.host, port: e.port, user: e.user };
            let f1 = edit_next(f0, AnswerView::Text(e.name)).0;
            let f2 = edit_next(f1, AnswerView::Text(e.host)).0;
            let f3 = edit_next(f2, AnswerView::Text(decimal(e.port as nat))).0;
            let f4 = edit_next(f3, AnswerView::Text(e.user)).0;
            edit_next(f4, AnswerView::Confirm(false)).1 == StepView::Finished(e)
        }),
{
    reveal_strlit("!q");
    lemma_port_text_round_trip(e.port);
    crate::config::lemma_decimal_digits(e.port as nat);
    assert(decimal(e.port as nat) != cancel_word()) by {
        let d = decimal(e.port as nat);
        assert(crate::config::is_digit(d[0]));
        assert(cancel_word()[0] == '!');
    }
}

/// `!q` at any text question of the add dialog cancels it, and no node is made.
pub proof fn lemma_add_cancel_anywhere(f: AddView)
    requires
        f.stage != AddStage::UsePassword,
        f.stage != AddStage::Closed,
    ensures
        add_next(f, AnswerView::Text(cancel_word())).1 == StepView::Cancelled(add_cancelled()),
        add_next(f, AnswerView::Text(cancel_word())).0.stage == AddStage::Closed,
{
}

/// `!q` at any text question of the edit dialog cancels it, and the node
/// is left as it was.
pub proof fn lemma_edit_cancel_anywhere(f: EditView)
    requires
        f.stage != EditStage::ResetPassword,
        f.stage != EditStage::Closed,
    ensures
        edit_next(f, AnswerView::Text(cancel_word())).1 == StepView::Cancelled(edit_cancelled()),
        edit_next(f, AnswerView::Text(cancel_word())).0.stage == EditStage::Closed,
{
}

/// A node made by the add dialog logs in by password or by key, never both
/// and never neither.
pub proof fn lemma_added_node_has_one_credential(f: AddView, a: AnswerView)
    ensures
        add_next(f, a).1 matches StepView::Finished(e) ==> (e.password is Some) != (e.key_path is Some),
{
}

/// Setting a new password in the edit dialog drops the node's key.
pub proof fn lemma_new_password_drops_key(f: EditView, p: Seq<char>)
    requires
        f.stage == EditStage::Password,
        p != cancel_word(),
    ensures
        edit_next(f, AnswerView::Text(p)).1 matches StepView::Finished(e)
            && e.password == Some(p) && e.key_path is None,
{
}

/// The edit dialog puts the answers into the node: after name, host, port
/// and user answers (none of them `!q`), the node has the answered name,
/// host and user and the answered port when it reads as one (else its old
/// port); declining a new password keeps its credentials, and a new
/// password replaces them.
pub proof fn lemma_edit_applies_answers(
    e: EntryView,
    name: Seq<char>,
    host: Seq<char>,
    port: Seq<char>,
    user: Seq<char>,
    password: Seq<char>,
)
    requires
        name != cancel_word(),
        host != cancel_word(),
        port != cancel_word(),
        user != cancel_word(),
        password != cancel_word(),
    ensures
        ({
            let f0 = EditView { stage: EditStage::Name, original: e, name: e.name, host: e.host, port: e.port, user: e.user };
            let f1 = edit_next(f0, AnswerView::Text(name)).0;
            let f2 = edit_next(f1, AnswerView::Text(host)).0;
            let f3 = edit_next(f2, AnswerView::Text(port)).0;
            let f4 = edit_next(f3, AnswerView::Text(user)).0;
            let new_port = match parse_u16_spec(port) { Some(p) => p, None => e.port };
            &&& edit_next(f4, AnswerView::Confirm(false)).1 == StepView::Finished(EntryView {
                name: name, host: host, port: new_port, user: user,
                password: e.password, key_path: e.key_path, setup: e.setup,
            })
            &&& edit_next(edit_next(f4, AnswerView::Confirm(true)).0, AnswerView::Text(password)).1 == StepView::Finished(EntryView {
                name: name, host: host, port: new_port, user: user,
                password: Some(password), key_path: None, setup: e.setup,
            })
        }),
{
}

/// The add dialog makes the node from the answers: the answered name, host
/// and user, the answered port when it reads as one (else 22), and either
/// the password (when a password login was chosen) or the key path.
pub proof fn lemma_add_records_answers(
    default_key_path: Seq<char>,
    name: Seq<char>,
    host: Seq<char>,
    port: Seq<char>,
    user: Seq<char>,
    secret: Seq<char>,
)
    requires
        name != cancel_word(),
        host != cancel_word(),
        port != cancel_word(),
        user != cancel_word(),
        secret != cancel_word(),
    ensures
        ({
            let f0 = AddView { stage: AddStage::Name, name: Seq::empty(), host: Seq::empty(), port: 22u16, user: Seq::empty(), default_key_path: default_key_path };
            let f1 = add_next(f0, AnswerView::Text(name)).0;
            let f2 = add_next(f1, AnswerView::Text(host)).0;
            let f3 = add_next(f2, AnswerView::Text(port)).0;
            let f4 = add_next(f3, AnswerView::Text(user)).0;
            let new_port = match parse_u16_spec(port) { Some(p) => p, None => 22u16 };
            &&& add_next(add_next(f4, AnswerView::Confirm(true)).0, AnswerView::Text(secret)).1 == StepView::Finished(EntryView {
                name: name, host: host, port: new_port, user: user,
                password: Some(secret), key_path: None, setup: None,
            })
            &&& add_next(add_next(f4, AnswerView::Confirm(false)).0, AnswerView::Text(secret)).1 == StepView::Finished(EntryView {
                name: name, host: host, port: new_port, user: user,
                password: None, key_path: Some(secret), setup: None,
            })
        }),
{
}

/// The question before a node is deleted.
pub fn delete_question(name: &str) -> (s: String)
    ensures
        s@ == "🚨 确定要永久删除节点 ["@ + name@ + "] 吗？"@,
{
    let mut v: Vec<char> = Vec::new();
    push_str(&mut v, "🚨 确定要永久删除节点 [");
    push_str(&mut v, name);
    push_str(&mut v, "] 吗？");
    string_of(v.as_slice())
}

/// Deletes the node at `idx` when the user confirmed, and says what happened.
pub fn apply_delete(entries: &mut Vec<VpsEntry>, idx: usize, confirmed: bool) -> (msg: String)
    requires
        idx < old(entries)@.len(),
    ensures
        confirmed ==> final(entries)@ == old(entries)@.remove(idx as int)
            && msg@ == "节点 ["@ + old(entries)@[idx as int].name@ + "] 已被彻底删除"@,
        !confirmed ==> final(entries)@ == old(entries)@ && msg@ == "已取消删除操作"@,
{
    if confirmed {
        let name = copy_string(&entries[idx].name);
        entries.remove(idx);
        let mut v: Vec<char> = Vec::new();
        push_str(&mut v, "节点 [");
        push_str(&mut v, name.as_str());
        push_str(&mut v, "] 已被彻底删除");
        string_of(v.as_slice())
    } else {
        String::from_str("已取消删除操作")
    }
}

/// The error when a node without a password is switched to key login.
pub open spec fn needs_password_error() -> Seq<char> {
    "必须配置了初始密码的节点才能下发公钥！"@
}

/// Only a node with a password can have its key installed: the password
/// opens the first session.
pub fn key_setup_allowed(entry: &VpsEntry) -> (r: Result<(), String>)
    ensures
        r is Ok <==> entry.password is Some,
        r matches Err(e) ==> e@ == needs_password_error(),
{
    if entry.password.is_none() {
        Err(String::from_str("必须配置了初始密码的节点才能下发公钥！"))
    } else {
        Ok(())
    }
}

/// Accepts the password session only when the server authenticated it.
pub fn check_password_login(authenticated: bool) -> (r: Result<(), String>)
    ensures
        r is Ok <==> authenticated,
        r matches Err(e) ==> e@ == "凭证无效，登入目标机器失败"@,
{
    if authenticated {
        Ok(())
    } else {
        Err(String::from_str("凭证无效，登入目标机器失败"))
    }
}

/// The arguments of `ssh-keygen` that make a 2048-bit RSA key pair in PEM
/// form, without a passphrase, at `private_key_path`.
pub fn keygen_args(private_key_path: &str) -> (args: Vec<String>)
    ensures
        string_views(args@) == seq!["-t"@, "rsa"@, "-b"@, "2048"@, "-m"@, "PEM"@, "-N"@, ""@, "-f"@, private_key_path@],
{
    let mut args: Vec<String> = Vec::new();
    args.push(String::from_str("-t"));
    args.push(String::from_str("rsa"));
    args.push(String::from_str("-b"));
    args.push(String::from_str("2048"));
    args.push(String::from_str("-m"));
    args.push(String::from_str("PEM"));
    args.push(String::from_str("-N"));
    args.push(String::from_str(""));
    args.push(String::from_str("-f"));
    args.push(String::from_str(private_key_path));
    assert(string_views(args@) =~= seq!["-t"@, "rsa"@, "-b"@, "2048"@, "-m"@, "PEM"@, "-N"@, ""@, "-f"@, private_key_path@]);
    args
}

/// The remote command that appends a public key to `authorized_keys`, with
/// the right permissions on `~/.ssh` and on the file.
pub fn authorized_keys_command(public_key: &str) -> (s: String)
    ensures
        s@ == "mkdir -p ~/.ssh && chmod 700 ~/.ssh && echo '"@ + trim(public_key@)
            + "' >> ~/.ssh/authorized_keys && chmod 600 ~/.ssh/authorized_keys"@,
{
    let k = chars_of(public_key);
    let t = trim_chars(k.as_slice());
    let ts = string_of(t.as_slice());
    let mut v: Vec<char> = Vec::new();
    push_str(&mut v, "mkdir -p ~/.ssh && chmod 700 ~/.ssh && echo '");
    push_str(&mut v, ts.as_str());
    push_str(&mut v, "' >> ~/.ssh/authorized_keys && chmod 600 ~/.ssh/authorized_keys");
    string_of(v.as_slice())
}

/// After the key is installed the node logs in by key: its password is
/// forgotten and its key path set; nothing else changes.
pub fn apply_key_login(entry: &mut VpsEntry, private_key_path: String)
    ensures
        final(entry).password is None,
        opt_view(final(entry).key_path) == Some(private_key_path@),
        final(entry).name == old(entry).name,
        final(entry).host == old(entry).host,
        final(entry).port == old(entry).port,
        final(entry).user == old(entry).user,
        final(entry).setup == old(entry).setup,
{
    entry.password = None;
    entry.key_path = Some(private_key_path);
}

} // verus!

verus! {

/// The add dialog offers port 22 and user `root`, and the default key path
/// for a key login; the edit dialog offers the node's current name, host,
/// port and user at each question, and does not offer a new password.
pub proof fn lemma_dialog_defaults(f: AddView, g: EditView)
    ensures
        f.stage == AddStage::Port ==> (add_prompt_of(f) matches PromptView::Text(_, d) && d == Some("22"@)),
        f.stage == AddStage::User ==> (add_prompt_of(f) matches PromptView::Text(_, d) && d == Some("root"@)),
        f.stage == AddStage::UsePassword ==> (add_prompt_of(f) matches PromptView::Confirm(_, d) && d),
        f.stage == AddStage::KeyPath ==> (add_prompt_of(f) matches PromptView::Text(_, d) && d == Some(f.default_key_path)),
        f.stage == AddStage::Password ==> add_prompt_of(f) is Secret,
        g.stage == EditStage::Name ==> (edit_prompt_of(g) matches PromptView::Text(_, d) && d == Some(g.original.name)),
        g.stage == EditStage::Host ==> (edit_prompt_of(g) matches PromptView::Text(_, d) && d == Some(g.original.host)),
        g.stage == EditStage::Port ==> (edit_prompt_of(g) matches PromptView::Text(_, d) && d == Some(decimal(g.original.port as nat))),
        g.stage == EditStage::User ==> (edit_prompt_of(g) matches PromptView::Text(_, d) && d == Some(g.original.user)),
        g.stage == EditStage::ResetPassword ==> (edit_prompt_of(g) matches PromptView::Confirm(_, d) && !d),
        g.stage == EditStage::Password ==> edit_prompt_of(g) is Secret,
{
}

} // verus!
