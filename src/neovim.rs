//! Text handed to a Neovim instance: its server address and the command to run.
use vstd::prelude::*;
use vstd::string::*;

verus! {

/// How one character is written inside a Neovim command argument.
pub open spec fn escaped_char(c: char) -> Seq<char> {
    if c == '\\' {
        seq!['\\', '\\']
    } else if c == '"' {
        seq!['\\', '"']
    } else if c == '\'' {
        seq!['\\', '\'']
    } else if c == '[' {
        seq!['\\', '[']
    } else if c == '<' {
        seq!['<', 'L', 'T', '>']
    } else if c == ' ' {
        seq!['\\', ' ']
    } else {
        seq![c]
    }
}

/// `s` with each character escaped for a Neovim command.
pub open spec fn escaped(s: Seq<char>) -> Seq<char>
    decreases s.len(),
{
    if s.len() == 0 {
        Seq::empty()
    } else {
        escaped(s.drop_last()) + escaped_char(s.last())
    }
}

/// `s` with each path separator and drive colon replaced by `%`.
pub open spec fn flattened_path(s: Seq<char>) -> Seq<char> {
    s.map_values(|c: char| if c == '/' || c == '\\' || c == ':' { '%' } else { c })
}

/// `s` with each double quote preceded by a backslash.
pub open spec fn quotes_escaped(s: Seq<char>) -> Seq<char>
    decreases s.len(),
{
    if s.len() == 0 {
        Seq::empty()
    } else {
        quotes_escaped(s.drop_last()) + if s.last() == '"' {
            seq!['\\', '"']
        } else {
            seq![s.last()]
        }
    }
}

/// Escapes `path` for use as an argument of a Neovim command.
pub fn escape_for_neovim_command(path: &str) -> (r: String)
    ensures
        r@ == escaped(path@),
{
    let n = path.unicode_len();
    let mut r = String::new();
    let mut i: usize = 0;
    while i < n
        invariant
            i <= n,
            n == path@.len(),
            r@ == escaped(path@.subrange(0, i as int)),
        decreases n - i,
    {
        let ghost s = path@.subrange(0, i as int + 1);
        assert(s.drop_last() =~= path@.subrange(0, i as int));
        let c = path.get_char(i);
        assert(s.last() == c);
        if c == '\\' {
            proof { reveal_strlit("\\\\"); }
            r.append("\\\\");
        } else if c == '"' {
            proof { reveal_strlit("\\\""); }
            r.append("\\\"");
        } else if c == '\'' {
            proof { reveal_strlit("\\'"); }
            r.append("\\'");
        } else if c == '[' {
            proof { reveal_strlit("\\["); }
            r.append("\\[");
        } else if c == '<' {
            proof { reveal_strlit("<LT>"); }
            r.append("<LT>");
        } else if c == ' ' {
            proof { reveal_strlit("\\ "); }
            r.append("\\ ");
        } else {
            r.append(path.substring_char(i, i + 1));
        }
        assert(r@ =~= escaped(s));
        i += 1;
    }
    assert(path@.subrange(0, n as int) =~= path@);
    r
}

/// `workspace_root` with `/`, `\` and `:` replaced by `%`, so that it can name a socket.
pub fn escape_workspace_root(workspace_root: &str) -> (r: String)
    ensures
        r@ == flattened_path(workspace_root@),
{
    let n = workspace_root.unicode_len();
    let mut r = String::new();
    let mut i: usize = 0;
    while i < n
        invariant
            i <= n,
            n == workspace_root@.len(),
            r@ == flattened_path(workspace_root@.subrange(0, i as int)),
        decreases n - i,
    {
        let c = workspace_root.get_char(i);
        if c == '/' || c == '\\' || c == ':' {
            proof { reveal_strlit("%"); }
            r.append("%");
        } else {
            r.append(workspace_root.substring_char(i, i + 1));
        }
        assert(r@ =~= flattened_path(workspace_root@.subrange(0, i as int + 1)));
        i += 1;
    }
    assert(workspace_root@.subrange(0, n as int) =~= workspace_root@);
    r
}

/// The Neovim command that opens the locations described by `editor_json`.
pub fn nvim_command(editor_json: &str) -> (r: String)
    ensures
        r@ == "call CargoLimit_open_in_new_or_existing_tabs(\""@ + quotes_escaped(editor_json@) + "\")"@,
{
    let n = editor_json.unicode_len();
    let mut r = String::from_str("call CargoLimit_open_in_new_or_existing_tabs(\"");
    let ghost head = r@;
    let mut i: usize = 0;
    while i < n
        invariant
            i <= n,
            n == editor_json@.len(),
            r@ == head + quotes_escaped(editor_json@.subrange(0, i as int)),
        decreases n - i,
    {
        let ghost s = editor_json@.subrange(0, i as int + 1);
        assert(s.drop_last() =~= editor_json@.subrange(0, i as int));
        let c = editor_json.get_char(i);
        if c == '"' {
            proof { reveal_strlit("\\\""); }
            r.append("\\\"");
        } else {
            r.append(editor_json.substring_char(i, i + 1));
        }
        assert(r@ =~= head + quotes_escaped(s));
        i += 1;
    }
    assert(editor_json@.subrange(0, n as int) =~= editor_json@);
    r.append("\")");
    r
}

/// The address a Neovim instance started for `escaped_workspace_root` listens on.
pub fn nvim_listen_address(user: &str, escaped_workspace_root: &str) -> (r: String)
    ensures
        r@ == "/tmp/nvim-cargo-limit-"@ + user@ + "/"@ + escaped_workspace_root@,
{
    let mut r = String::from_str("/tmp/nvim-cargo-limit-");
    r.append(user);
    r.append("/");
    r.append(escaped_workspace_root);
    r
}

} // verus!
