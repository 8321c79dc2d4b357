//! Which icon-theme names to look up for a desktop entry. Looking the names
//! up in the icon theme and drawing the icon is done by the program around
//! this library.
use vstd::prelude::*;
use crate::domain::categorize::str_in_list;
use crate::domain::organize::strings_view;
use crate::paths::{last_segment, last_segment_of, path_extension, path_extension_of};
use crate::domain::categorize::ext_or_empty;
use crate::text::{
    ends_with, lowercase_of, seq_ends_with, seq_starts_with, starts_with, string_from_chars,
    to_chars, to_lowercase, trim_chars, trimmed,
};

verus! {

/// Index of the first `'\n'` at or after `i` (the length when none).
pub open spec fn find_newline(c: Seq<char>, i: int) -> int
    decreases c.len() - i,
{
    if i >= c.len() {
        c.len() as int
    } else if c[i] == '\n' {
        i
    } else {
        find_newline(c, i + 1)
    }
}

/// `find_newline` lies between its start and the end.
pub proof fn lemma_find_newline(c: Seq<char>, i: int)
    requires
        0 <= i,
    ensures
        i <= find_newline(c, i) || i > c.len(),
        find_newline(c, i) <= c.len(),
        find_newline(c, i) < c.len() ==> c[find_newline(c, i)] == '\n',
        forall|k: int| i <= k < find_newline(c, i) ==> #[trigger] c[k] != '\n',
    decreases c.len() - i,
{
    if i < c.len() && c[i] != '\n' {
        lemma_find_newline(c, i + 1);
    }
}

/// The icon name an `Icon=` line gives (the line trimmed; a non-empty value).
pub open spec fn icon_line_value(line: Seq<char>) -> Option<Seq<char>> {
    let t = trimmed(line);
    if seq_starts_with(t, "Icon="@) && t.len() > 5 {
        Some(t.skip(5))
    } else {
        None
    }
}

/// The icon name of the first `Icon=` line at or after line start `start`.
pub open spec fn icon_value_from(c: Seq<char>, start: int) -> Option<Seq<char>>
    decreases c.len() - start,
{
    if start < 0 || start > c.len() {
        None
    } else {
        let e = find_newline(c, start);
        match icon_line_value(c.subrange(start, e)) {
            Some(v) => Some(v),
            None => if e < c.len() {
                proof {
                    lemma_find_newline(c, start);
                }
                icon_value_from(c, e + 1)
            } else {
                None
            },
        }
    }
}

/// The icon name of a launcher's first `Icon=` line with a value.
pub open spec fn launcher_icon_of(content: Seq<char>) -> Option<Seq<char>> {
    icon_value_from(content, 0)
}

/// Icon names by extension: (extensions, names), searched in order.
pub open spec fn ext_icon_table() -> Seq<(Seq<Seq<char>>, Seq<Seq<char>>)> {
    seq![
        (seq!["jpg"@, "jpeg"@, "png"@, "gif"@, "bmp"@, "svg"@, "webp"@, "ico"@], seq!["image-x-generic"@, "image"@, "photo"@]),
        (seq!["mp4"@, "avi"@, "mkv"@, "mov"@, "wmv"@, "flv"@], seq!["video-x-generic"@, "video"@]),
        (seq!["mp3"@, "wav"@, "flac"@, "ogg"@, "m4a"@], seq!["audio-x-generic"@, "audio"@]),
        (seq!["pdf"@], seq!["application-pdf"@, "document-pdf"@]),
        (seq!["zip"@, "rar"@, "7z"@, "tar"@, "gz"@, "bz2"@, "xz"@, "iso"@, "tgz"@], seq!["package-x-generic"@, "application-x-archive"@, "archive"@]),
        (seq!["doc"@, "docx"@, "wps"@, "odt"@], seq!["document-word"@, "text-x-generic"@]),
        (seq!["xls"@, "xlsx"@, "et"@, "ods"@], seq!["x-office-spreadsheet"@, "text-x-generic"@]),
        (seq!["ppt"@, "pptx"@, "dps"@, "odp"@], seq!["x-office-presentation"@, "text-x-generic"@]),
        (seq!["txt"@, "md"@, "log"@, "ini"@, "conf"@, "cfg"@], seq!["text-x-generic"@, "text-plain"@]),
        (seq!["deb"@, "rpm"@], seq!["package-x-generic"@, "application-x-archive"@]),
        (seq!["exe"@, "run"@, "sh"@], seq!["application-x-executable"@, "text-x-generic"@]),
    ]
}

/// Icon names of a plain file by its lower-cased extension: the first table
/// entry listing the extension, else a generic document.
pub open spec fn ext_icon_names(ext: Seq<char>, table: Seq<(Seq<Seq<char>>, Seq<Seq<char>>)>) -> Seq<Seq<char>>
    decreases table.len(),
{
    if table.len() == 0 {
        seq!["text-x-generic"@, "application-octet-stream"@]
    } else if table[0].0.contains(ext) {
        table[0].1
    } else {
        ext_icon_names(ext, table.drop_first())
    }
}

/// Icon-theme names to try, in order, for a desktop entry: a launcher file
/// uses its `Icon=` name (when it has one) before the generic executable
/// names; a directory uses folder names; a plain file uses names for its
/// lower-cased extension.
pub open spec fn icon_names_of(
    path: Seq<char>,
    is_file: bool,
    is_dir: bool,
    launcher_content: Option<Seq<char>>,
    ext_lower: Seq<char>,
) -> Seq<Seq<char>> {
    if is_file && seq_ends_with(last_segment(path), ".desktop"@) {
        let icon = match launcher_content {
            Some(c) => launcher_icon_of(c),
            None => None,
        };
        match icon {
            Some(v) => seq![v, "application-x-executable"@, "text-x-generic"@],
            None => seq!["application-x-executable"@, "text-x-generic"@],
        }
    } else if is_dir {
        seq!["folder"@, "folder-symbolic"@, "inode-directory"@, "system-file-manager"@]
    } else {
        ext_icon_names(ext_lower, ext_icon_table())
    }
}

/// The strings of a list of literals.
fn owned(v: Vec<&'static str>) -> (r: Vec<String>)
    ensures
        strings_view(r@) == v@.map_values(|s: &str| s@),
{
    let mut r: Vec<String> = Vec::new();
    let mut i: usize = 0;
    while i < v.len()
        invariant
            i <= v@.len(),
            r@.len() == i,
            forall|j: int| 0 <= j < i ==> (#[trigger] r@[j])@ == v@[j]@,
        decreases v.len() - i,
    {
        let s = String::from_str(v[i]);
        r.push(s);
        i += 1;
    }
    assert(strings_view(r@) =~= v@.map_values(|s: &str| s@));
    r
}

/// The names of a list of literals, as plain sequences.
pub open spec fn names_view(v: Seq<&str>) -> Seq<Seq<char>> {
    v.map_values(|s: &str| s@)
}

/// The entries of the extension table.
fn ext_icon_entries() -> (v: Vec<(Vec<&'static str>, Vec<&'static str>)>)
    ensures
        v@.len() == ext_icon_table().len(),
        forall|i: int|
            0 <= i < v@.len() ==> names_view((#[trigger] v@[i]).0@) == ext_icon_table()[i].0 && names_view(
                v@[i].1@,
            ) == ext_icon_table()[i].1,
{
    let v = vec![
        (vec!["jpg", "jpeg", "png", "gif", "bmp", "svg", "webp", "ico"], vec!["image-x-generic", "image", "photo"]),
        (vec!["mp4", "avi", "mkv", "mov", "wmv", "flv"], vec!["video-x-generic", "video"]),
        (vec!["mp3", "wav", "flac", "ogg", "m4a"], vec!["audio-x-generic", "audio"]),
        (vec!["pdf"], vec!["application-pdf", "document-pdf"]),
        (vec!["zip", "rar", "7z", "tar", "gz", "bz2", "xz", "iso", "tgz"], vec!["package-x-generic", "application-x-archive", "archive"]),
        (vec!["doc", "docx", "wps", "odt"], vec!["document-word", "text-x-generic"]),
        (vec!["xls", "xlsx", "et", "ods"], vec!["x-office-spreadsheet", "text-x-generic"]),
        (vec!["ppt", "pptx", "dps", "odp"], vec!["x-office-presentation", "text-x-generic"]),
        (vec!["txt", "md", "log", "ini", "conf", "cfg"], vec!["text-x-generic", "text-plain"]),
        (vec!["deb", "rpm"], vec!["package-x-generic", "application-x-archive"]),
        (vec!["exe", "run", "sh"], vec!["application-x-executable", "text-x-generic"]),
    ];
    assert forall|i: int|
        0 <= i < v@.len() implies names_view((#[trigger] v@[i]).0@) == ext_icon_table()[i].0 && names_view(
            v@[i].1@,
        ) == ext_icon_table()[i].1 by {
        assert(names_view(v@[i].0@) =~= ext_icon_table()[i].0);
        assert(names_view(v@[i].1@) =~= ext_icon_table()[i].1);
    }
    v
}

/// Icon names of a plain file by its lower-cased extension.
pub fn icon_names_for_ext(ext_lower: &str) -> (r: Vec<String>)
    ensures
        strings_view(r@) == ext_icon_names(ext_lower@, ext_icon_table()),
{
    let table = ext_icon_entries();
    let mut i: usize = 0;
    assert(ext_icon_table().skip(0) =~= ext_icon_table());
    while i < table.len()
        invariant
            i <= table@.len(),
            table@.len() == ext_icon_table().len(),
            forall|k: int|
                0 <= k < table@.len() ==> names_view((#[trigger] table@[k]).0@) == ext_icon_table()[k].0
                    && names_view(table@[k].1@) == ext_icon_table()[k].1,
            ext_icon_names(ext_lower@, ext_icon_table()) == ext_icon_names(
                ext_lower@,
                ext_icon_table().skip(i as int),
            ),
        decreases table.len() - i,
    {
        let ghost rest = ext_icon_table().skip(i as int);
        assert(rest[0] == ext_icon_table()[i as int]);
        assert(rest.drop_first() =~= ext_icon_table().skip(i + 1));
        let exts = &table[i].0;
        if str_in_list(ext_lower, exts) {
            proof {
                let k = choose|k: int| 0 <= k < exts@.len() && (#[trigger] exts@[k])@ == ext_lower@;
                assert(names_view(exts@)[k] == ext_lower@);
                assert(rest[0].0.contains(ext_lower@));
            }
            let names = table[i].1.clone();
            return owned(names);
        }
        proof {
            assert forall|k: int| 0 <= k < rest[0].0.len() implies rest[0].0[k] != ext_lower@ by {
                assert(names_view(exts@)[k] == exts@[k]@);
            }
        }
        i += 1;
    }
    owned(vec!["text-x-generic", "application-octet-stream"])
}

/// Without a newline in `c[i..j]`, the next newline from `i` and from `j`
/// is the same.
proof fn lemma_find_newline_skip(c: Seq<char>, i: int, j: int)
    requires
        0 <= i <= j <= c.len(),
        forall|k: int| i <= k < j ==> #[trigger] c[k] != '\n',
    ensures
        find_newline(c, i) == find_newline(c, j),
    decreases j - i,
{
    if i < j {
        lemma_find_newline_skip(c, i + 1, j);
    }
}

/// The icon name an `Icon=` line `c[start..end]` gives.
fn line_icon(c: &Vec<char>, start: usize, end: usize) -> (r: Option<String>)
    requires
        start <= end <= c@.len(),
    ensures
        crate::domain::categorize::opt_view(r) == icon_line_value(c@.subrange(start as int, end as int)),
{
    let mut line: Vec<char> = Vec::new();
    let mut k: usize = start;
    while k < end
        invariant
            start <= k <= end <= c@.len(),
            line@ == c@.subrange(start as int, k as int),
        decreases end - k,
    {
        line.push(c[k]);
        assert(line@ =~= c@.subrange(start as int, k + 1));
        k += 1;
    }
    let t = trim_chars(&line);
    let ts = string_from_chars(t.as_slice());
    if starts_with(ts.as_str(), "Icon=") && t.len() > 5 {
        let mut v: Vec<char> = Vec::new();
        let mut m: usize = 5;
        while m < t.len()
            invariant
                5 <= m <= t.len(),
                v@ == t@.subrange(5, m as int),
            decreases t.len() - m,
        {
            v.push(t[m]);
            assert(v@ =~= t@.subrange(5, m + 1));
            m += 1;
        }
        assert(v@ =~= t@.skip(5));
        Some(string_from_chars(v.as_slice()))
    } else {
        None
    }
}

/// The icon name of a launcher's first `Icon=` line with a value.
pub fn launcher_icon(content: &str) -> (r: Option<String>)
    ensures
        crate::domain::categorize::opt_view(r) == launcher_icon_of(content@),
{
    let c = to_chars(content);
    let mut start: usize = 0;
    let mut i: usize = 0;
    loop
        invariant
            c@ == content@,
            start <= i <= c.len(),
            start <= c.len(),
            launcher_icon_of(c@) == icon_value_from(c@, start as int),
            forall|k: int| start <= k < i ==> #[trigger] c@[k] != '\n',
        decreases c.len() - i,
    {
        if i == c.len() || c[i] == '\n' {
            proof {
                lemma_find_newline_skip(c@, start as int, i as int);
                lemma_find_newline(c@, i as int);
                assert(find_newline(c@, start as int) == i);
            }
            let found = line_icon(&c, start, i);
            if found.is_some() {
                return found;
            }
            if i == c.len() {
                return None;
            }
            start = i + 1;
        }
        i += 1;
    }
}

/// The names for a launcher file: its `Icon=` name, if any, then the
/// generic executable names.
fn launcher_icon_names(launcher_content: Option<&str>) -> (r: Vec<String>)
    ensures
        strings_view(r@) == (match (match launcher_content {
            Some(c) => launcher_icon_of(c@),
            None => None,
        }) {
            Some(v) => seq![v, "application-x-executable"@, "text-x-generic"@],
            None => seq!["application-x-executable"@, "text-x-generic"@],
        }),
{
    let icon = match launcher_content {
        Some(c) => launcher_icon(c),
        None => None,
    };
    match icon {
        Some(v) => {
            let mut r: Vec<String> = Vec::new();
            let a = String::from_str("application-x-executable");
            let b = String::from_str("text-x-generic");
            let ghost vv = v@;
            r.push(v);
            r.push(a);
            r.push(b);
            assert(strings_view(r@) =~= seq![vv, "application-x-executable"@, "text-x-generic"@]);
            r
        },
        None => {
            let r = owned(vec!["application-x-executable", "text-x-generic"]);
            assert(strings_view(r@) =~= seq!["application-x-executable"@, "text-x-generic"@]);
            r
        },
    }
}

/// The names for a directory.
fn folder_icon_names() -> (r: Vec<String>)
    ensures
        strings_view(r@) == seq!["folder"@, "folder-symbolic"@, "inode-directory"@, "system-file-manager"@],
{
    let r = owned(vec!["folder", "folder-symbolic", "inode-directory", "system-file-manager"]);
    assert(strings_view(r@) =~= seq!["folder"@, "folder-symbolic"@, "inode-directory"@, "system-file-manager"@]);
    r
}

/// Icon-theme names to try, in order, for a desktop entry. The caller
/// tells whether the path is a file or a directory and hands in a launcher
/// file's content (`None` when it could not be read).
pub fn icon_names_for(path: &str, is_file: bool, is_dir: bool, launcher_content: Option<&str>) -> (r: Vec<
    String,
>)
    ensures
        strings_view(r@) == icon_names_of(
            path@,
            is_file,
            is_dir,
            match launcher_content {
                Some(c) => Some(c@),
                None => None,
            },
            lowercase_of(ext_or_empty(path_extension_of(path@))),
        ),
{
    let name = last_segment_of(path);
    if is_file && ends_with(name.as_str(), ".desktop") {
        return launcher_icon_names(launcher_content);
    }
    if is_dir {
        return folder_icon_names();
    }
    let ext = match path_extension(path) {
        Some(e) => e,
        None => String::new(),
    };
    let ext_lower = to_lowercase(ext.as_str());
    icon_names_for_ext(ext_lower.as_str())
}

} // verus!
