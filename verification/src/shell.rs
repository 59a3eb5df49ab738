//! The command lines that open SSH sessions to a node.
use vstd::prelude::*;
use crate::config::{VpsEntry, port_text};
use crate::text::{chars_of, string_of, push_str, decimal, string_views};

verus! {

/// `-i <key>` when the node logs in with a private key.
pub open spec fn key_args(entry: VpsEntry) -> Seq<Seq<char>> {
    match entry.key_path {
        Some(k) => seq!["-i"@, k@],
        None => Seq::empty(),
    }
}

/// The login target `user@host`.
pub open spec fn ssh_target(entry: VpsEntry) -> Seq<char> {
    entry.user@ + "@"@ + entry.host@
}

/// The arguments of `ssh` for the AI SSH pane: a forced terminal, the port,
/// the key when there is one, and the target.
pub open spec fn ai_ssh_args_spec(entry: VpsEntry) -> Seq<Seq<char>> {
    seq!["-tt"@, "-p"@, decimal(entry.port as nat)] + key_args(entry) + seq![ssh_target(entry)]
}

/// The arguments of Windows Terminal (`wt`) for a new tab in the current
/// window, titled with the node's name (a title the remote side cannot
/// change), running `ssh` with the port, the key when there is one, and the target.
pub open spec fn shell_tab_args_spec(entry: VpsEntry) -> Seq<Seq<char>> {
    seq!["-w"@, "0"@, "new-tab"@, "--title"@, entry.name@, "--suppressApplicationTitle"@, "ssh"@, "-p"@, decimal(entry.port as nat)]
        + key_args(entry) + seq![ssh_target(entry)]
}

/// The number of rows of the AI SSH pseudo-terminal when it opens.
pub const AI_PTY_ROWS: u16 = 40;

/// The number of columns of the AI SSH pseudo-terminal when it opens.
pub const AI_PTY_COLS: u16 = 160;

fn push_arg(args: &mut Vec<String>, a: &str)
    ensures
        string_views(final(args)@) == string_views(old(args)@).push(a@),
{
    let ghost before = string_views(args@);
    let s = string_of(chars_of(a).as_slice());
    args.push(s);
    assert(string_views(args@) =~= before.push(a@));
}

fn push_key_and_target(args: &mut Vec<String>, entry: &VpsEntry)
    ensures
        string_views(final(args)@) == string_views(old(args)@) + key_args(*entry) + seq![ssh_target(*entry)],
{
    let ghost before = string_views(args@);
    if let Some(k) = &entry.key_path {
        push_arg(args, "-i");
        push_arg(args, k.as_str());
    }
    let mut t: Vec<char> = Vec::new();
    push_str(&mut t, entry.user.as_str());
    push_str(&mut t, "@");
    push_str(&mut t, entry.host.as_str());
    let ts = string_of(t.as_slice());
    push_arg(args, ts.as_str());
    assert(string_views(args@) =~= before + key_args(*entry) + seq![ssh_target(*entry)]);
}

/// The `ssh` arguments of the AI SSH pane (see `ai_ssh_args_spec`).
pub fn ai_ssh_args(entry: &VpsEntry) -> (args: Vec<String>)
    ensures
        string_views(args@) == ai_ssh_args_spec(*entry),
{
    let mut args: Vec<String> = Vec::new();
    push_arg(&mut args, "-tt");
    push_arg(&mut args, "-p");
    let port = port_text(entry.port);
    push_arg(&mut args, port.as_str());
    push_key_and_target(&mut args, entry);
    args
}

/// The `wt` arguments of an interactive session tab (see `shell_tab_args_spec`).
pub fn interactive_shell_args(entry: &VpsEntry) -> (args: Vec<String>)
    ensures
        string_views(args@) == shell_tab_args_spec(*entry),
{
    let mut args: Vec<String> = Vec::new();
    push_arg(&mut args, "-w");
    push_arg(&mut args, "0");
    push_arg(&mut args, "new-tab");
    push_arg(&mut args, "--title");
    push_arg(&mut args, entry.name.as_str());
    push_arg(&mut args, "--suppressApplicationTitle");
    push_arg(&mut args, "ssh");
    push_arg(&mut args, "-p");
    let port = port_text(entry.port);
    push_arg(&mut args, port.as_str());
    push_key_and_target(&mut args, entry);
    args
}

} // verus!

verus! {

/// The AI SSH command forces a terminal, gives the port after `-p`, passes
/// the node's key with `-i` exactly when it has one, and ends with
/// `user@host`; the terminal tab runs the same `ssh` login in a new tab of
/// the current window, titled with the node's name.
pub proof fn lemma_ssh_args_law(entry: VpsEntry)
    ensures
        ({
            let a = ai_ssh_args_spec(entry);
            let w = shell_tab_args_spec(entry);
            &&& a[0] == "-tt"@ && a[1] == "-p"@ && a[2] == decimal(entry.port as nat)
            &&& a.last() == entry.user@ + "@"@ + entry.host@
            &&& a.len() == (if entry.key_path is Some { 6int } else { 4int })
            &&& (entry.key_path matches Some(k) ==> a[3] == "-i"@ && a[4] == k@)
            &&& w.subrange(0, 6) == seq!["-w"@, "0"@, "new-tab"@, "--title"@, entry.name@, "--suppressApplicationTitle"@]
            &&& w.subrange(6, w.len() as int) == seq!["ssh"@] + a.subrange(1, a.len() as int)
        }),
{
    let a = ai_ssh_args_spec(entry);
    let w = shell_tab_args_spec(entry);
    assert(w.subrange(0, 6) =~= seq!["-w"@, "0"@, "new-tab"@, "--title"@, entry.name@, "--suppressApplicationTitle"@]);
    assert(w.subrange(6, w.len() as int) =~= seq!["ssh"@] + a.subrange(1, a.len() as int));
}

} // verus!
