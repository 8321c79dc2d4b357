//! Autostart: `~/.config/autostart/kylin-desktop-organizer.desktop`.
use vstd::prelude::*;
use vstd::string::StringSliceAdditionalSpecFns;
use crate::paths::{config_home, join_bytes, join_path_bytes};
use crate::text::{occurs_at, seq_contains, seq_ends_with, seq_starts_with};

verus! {

/// The autostart entry's path under a configuration base directory
/// (the working directory when none could be found), as raw path bytes.
pub open spec fn autostart_path_for(base: Option<Seq<u8>>) -> Seq<u8> {
    let b = match base {
        Some(d) => d,
        None => ".".spec_bytes(),
    };
    join_path_bytes(join_path_bytes(b, "autostart".spec_bytes()), "kylin-desktop-organizer.desktop".spec_bytes())
}

/// The autostart entry's path under a configuration base directory.
pub fn autostart_path_in(base: Option<Vec<u8>>) -> (r: Vec<u8>)
    ensures
        r@ == autostart_path_for(match base {
            Some(d) => Some(d@),
            None => None,
        }),
{
    let dir = match base {
        Some(d) => join_bytes(d.as_slice(), "autostart".as_bytes()),
        None => join_bytes(".".as_bytes(), "autostart".as_bytes()),
    };
    join_bytes(dir.as_slice(), "kylin-desktop-organizer.desktop".as_bytes())
}

/// The autostart entry's path under the user's configuration directory.
pub fn autostart_path() -> (r: Vec<u8>)
    ensures
        (exists|d: Seq<u8>| r@ == #[trigger] autostart_path_for(Some(d))) || r@ == autostart_path_for(
            None,
        ),
{
    let base = config_home();
    let ghost gb = base;
    let r = autostart_path_in(base);
    proof {
        match gb {
            Some(d) => {
                assert(r@ == autostart_path_for(Some(d@)));
            },
            None => {},
        }
    }
    r
}

/// The text of the autostart entry launching `exe`.
pub open spec fn autostart_entry_of(exe: Seq<char>) -> Seq<char> {
    "[Desktop Entry]\nType=Application\nName=桌面整理\nComment=桌面图标整理助手\nExec="@ + exe
        + "\nTerminal=false\nX-GNOME-Autostart-enabled=true\n"@
}

/// The text of the autostart entry launching `exe`.
pub fn autostart_entry(exe: &str) -> (r: String)
    ensures
        r@ == autostart_entry_of(exe@),
        r@ == "[Desktop Entry]\nType=Application\nName=桌面整理\nComment=桌面图标整理助手\nExec="@ + exe@
            + "\nTerminal=false\nX-GNOME-Autostart-enabled=true\n"@,
{
    let mut r = String::from_str("[Desktop Entry]\nType=Application\nName=桌面整理\nComment=桌面图标整理助手\nExec=");
    r.append(exe);
    r.append("\nTerminal=false\nX-GNOME-Autostart-enabled=true\n");
    r
}

/// Law: the autostart entry is a desktop entry of an application that runs
/// `exe` outside a terminal and is enabled for autostart: it starts with
/// "[Desktop Entry]\nType=Application\n", holds the lines "Exec=<exe>" and
/// "Terminal=false", and ends with "X-GNOME-Autostart-enabled=true\n".
pub proof fn lemma_autostart_entry_lines(exe: Seq<char>)
    ensures
        seq_starts_with(autostart_entry_of(exe), "[Desktop Entry]\nType=Application\n"@),
        seq_contains(autostart_entry_of(exe), "\nExec="@ + exe + "\n"@),
        seq_contains(autostart_entry_of(exe), "\nTerminal=false\n"@),
        seq_ends_with(autostart_entry_of(exe), "X-GNOME-Autostart-enabled=true\n"@),
{
    let pre = "[Desktop Entry]\nType=Application\nName=桌面整理\nComment=桌面图标整理助手\nExec="@;
    let post = "\nTerminal=false\nX-GNOME-Autostart-enabled=true\n"@;
    let s = autostart_entry_of(exe);
    reveal_strlit("[Desktop Entry]\nType=Application\nName=桌面整理\nComment=桌面图标整理助手\nExec=");
    reveal_strlit("\nTerminal=false\nX-GNOME-Autostart-enabled=true\n");
    reveal_strlit("[Desktop Entry]\nType=Application\n");
    reveal_strlit("\nExec=");
    reveal_strlit("\n");
    reveal_strlit("\nTerminal=false\n");
    reveal_strlit("X-GNOME-Autostart-enabled=true\n");
    assert(s == pre + exe + post);
    let start = "[Desktop Entry]\nType=Application\n"@;
    assert(s.subrange(0, start.len() as int) =~= start);
    let exec_line = "\nExec="@ + exe + "\n"@;
    let i: int = pre.len() - 6;
    assert(s.subrange(i, i + exec_line.len()) =~= exec_line);
    assert(occurs_at(s, exec_line, i));
    let term = "\nTerminal=false\n"@;
    let j: int = (pre.len() + exe.len()) as int;
    assert(s.subrange(j, j + term.len()) =~= term);
    assert(occurs_at(s, term, j));
    let tail = "X-GNOME-Autostart-enabled=true\n"@;
    assert(s.subrange(s.len() - tail.len(), s.len() as int) =~= tail);
}

} // verus!
