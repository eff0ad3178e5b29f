//! The Explorer context menu on Windows: which verbs are registered (under
//! the current user, so no administrator rights are needed), where, with
//! which label, icon and command. Writing them into the registry happens at
//! the edge of the program.

use vstd::prelude::*;

use crate::text::concat_string;

verus! {

/// One verb of the context menu: its registry key, the label shown (the
/// key's default value), the icon (the program itself), the key of its
/// command and the command line run with the chosen path as `%1`.
pub struct MenuVerb {
    pub key: String,
    pub label: String,
    pub icon: String,
    pub command_key: String,
    pub command: String,
}

/// A verb as plain text: key, label, icon, command key, command.
pub open spec fn verb_view(v: MenuVerb) -> (Seq<char>, Seq<char>, Seq<char>, Seq<char>, Seq<char>) {
    (v.key@, v.label@, v.icon@, v.command_key@, v.command@)
}

/// The label of the extracting verb.
pub open spec fn extract_label() -> Seq<char> {
    "用 ArkBox 解压"@
}

/// The label of the compressing verb.
pub open spec fn compress_label() -> Seq<char> {
    "用 ArkBox 压缩"@
}

/// A path in double quotes, so that spaces in it stay one argument.
pub open spec fn quoted(p: Seq<char>) -> Seq<char> {
    "\""@ + p + "\""@
}

/// The verb registered under `base` (`Software\Classes\*` for files,
/// `Software\Classes\Directory` for folders) with the key name `verb`.
pub open spec fn verb_spec(
    base: Seq<char>,
    verb: Seq<char>,
    label: Seq<char>,
    exe: Seq<char>,
    command: Seq<char>,
) -> (Seq<char>, Seq<char>, Seq<char>, Seq<char>, Seq<char>) {
    let key = base + "\\shell\\"@ + verb;
    (key, label, quoted(exe), key + "\\command"@, command)
}

/// The command that opens the chosen archive in ArkBox.
pub open spec fn extract_command(exe: Seq<char>) -> Seq<char> {
    quoted(exe) + " \"%1\""@
}

/// The command that opens the compress page with the chosen path.
pub open spec fn compress_command(exe: Seq<char>) -> Seq<char> {
    quoted(exe) + " --compress \"%1\""@
}

/// The context menu for the program at `exe`: "extract" and "compress" on
/// every file, "compress" on every folder.
pub open spec fn menu_spec(exe: Seq<char>) -> Seq<(Seq<char>, Seq<char>, Seq<char>, Seq<char>, Seq<char>)> {
    seq![
        verb_spec("Software\\Classes\\*"@, "ArkBoxExtract"@, extract_label(), exe, extract_command(exe)),
        verb_spec("Software\\Classes\\*"@, "ArkBoxCompress"@, compress_label(), exe, compress_command(exe)),
        verb_spec(
            "Software\\Classes\\Directory"@,
            "ArkBoxCompress"@,
            compress_label(),
            exe,
            compress_command(exe),
        ),
    ]
}

fn make_verb(base: &str, verb: &str, label: &str, icon: &str, command: &str) -> (v: MenuVerb)
    ensures
        verb_view(v) == (base@ + "\\shell\\"@ + verb@, label@, icon@, base@ + "\\shell\\"@ + verb@
            + "\\command"@, command@),
{
    let head = concat_string(base, "\\shell\\");
    let key = concat_string(head.as_str(), verb);
    let command_key = concat_string(key.as_str(), "\\command");
    MenuVerb {
        key,
        label: label.to_owned(),
        icon: icon.to_owned(),
        command_key,
        command: command.to_owned(),
    }
}

/// The verbs to register for the program at `exe`, in order.
pub fn context_menu(exe: &str) -> (r: Vec<MenuVerb>)
    ensures
        r@.map_values(|v: MenuVerb| verb_view(v)) == menu_spec(exe@),
{
    let q1 = concat_string("\"", exe);
    let icon = concat_string(q1.as_str(), "\"");
    let extract_cmd = concat_string(icon.as_str(), " \"%1\"");
    let compress_cmd = concat_string(icon.as_str(), " --compress \"%1\"");
    let mut r: Vec<MenuVerb> = Vec::new();
    r.push(make_verb("Software\\Classes\\*", "ArkBoxExtract", "用 ArkBox 解压", icon.as_str(), extract_cmd.as_str()));
    r.push(
        make_verb("Software\\Classes\\*", "ArkBoxCompress", "用 ArkBox 压缩", icon.as_str(), compress_cmd.as_str()),
    );
    r.push(
        make_verb(
            "Software\\Classes\\Directory",
            "ArkBoxCompress",
            "用 ArkBox 压缩",
            icon.as_str(),
            compress_cmd.as_str(),
        ),
    );
    assert(r@.map_values(|v: MenuVerb| verb_view(v)) =~= menu_spec(exe@));
    r
}

} // verus!
