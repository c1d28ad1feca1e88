//! Helpers on text: indentation of lines, comparison of strings, the path of
//! the output file and the text of a batch of output lines.

use vstd::prelude::*;
use vstd::string::*;
use crate::assembly::lines_view;
use crate::text::chars_of;
use crate::PathType;

verus! {

/// `n` spaces.
pub open spec fn spaces(n: nat) -> Seq<char> {
    Seq::new(n, |i: int| ' ')
}

/// The text `s` behind `n` spaces.
pub open spec fn padded(s: Seq<char>, n: nat) -> Seq<char> {
    spaces(n) + s
}

/// Every line of `lines` behind `n` spaces.
pub open spec fn padded_lines(lines: Seq<Seq<char>>, n: nat) -> Seq<Seq<char>> {
    lines.map_values(|line: Seq<char>| padded(line, n))
}

/// Padding with no spaces changes nothing.
pub proof fn lemma_padded_lines_zero(lines: Seq<Seq<char>>)
    ensures
        padded_lines(lines, 0) == lines,
{
    assert forall|i: int| 0 <= i < lines.len() implies padded_lines(lines, 0)[i] == lines[i] by {
        assert(padded(lines[i], 0) =~= lines[i]);
    }
    assert(padded_lines(lines, 0) =~= lines);
}

/// Whether two strings hold the same text.
pub fn same_text(a: &str, b: &str) -> (same: bool)
    ensures
        same == (a@ == b@),
{
    let a_owned = String::from_str(a);
    let b_owned = String::from_str(b);
    a_owned == b_owned
}

/// Adds `n` spaces at the beginning of `s`.
pub fn add_padding(s: &String, n: usize) -> (r: String)
    ensures
        r@ == padded(s@, n as nat),
{
    proof {
        reveal_strlit(" ");
    }
    let mut new_string = String::new();
    let mut i: usize = 0;
    while i < n
        invariant
            i <= n,
            new_string@ == spaces(i as nat),
            " "@ == seq![' '],
        decreases n - i,
    {
        new_string.append(" ");
        i = i + 1;
        assert(new_string@ =~= spaces(i as nat));
    }
    new_string.append(s.as_str());
    new_string
}

/// Adds `n` spaces at the beginning of every line.
pub fn add_padding_to_lines(lines: &Vec<String>, n: usize) -> (r: Vec<String>)
    ensures
        lines_view(r@) == padded_lines(lines_view(lines@), n as nat),
{
    let mut out: Vec<String> = Vec::new();
    let mut i: usize = 0;
    while i < lines.len()
        invariant
            i <= lines.len(),
            out@.len() == i,
            forall|j: int| 0 <= j < i ==> (#[trigger] out@[j])@ == padded(lines@[j]@, n as nat),
        decreases lines.len() - i,
    {
        let line = add_padding(&lines[i], n);
        out.push(line);
        i = i + 1;
    }
    assert(lines_view(out@) =~= padded_lines(lines_view(lines@), n as nat));
    out
}

/// Whether `s` ends with `.vm`.
pub open spec fn ends_with_vm(s: Seq<char>) -> bool {
    s.len() >= 3 && s[s.len() - 3] == '.' && s[s.len() - 2] == 'v' && s[s.len() - 1] == 'm'
}

/// `s` without the `.vm` it ends with, as often as it ends with one.
pub open spec fn without_vm_suffixes(s: Seq<char>) -> Seq<char>
    decreases s.len(),
{
    if ends_with_vm(s) {
        without_vm_suffixes(s.take(s.len() - 3))
    } else {
        s
    }
}

/// The position in `s` that follows its last slash, 0 if it has none.
pub open spec fn after_last_slash(s: Seq<char>) -> int
    decreases s.len(),
{
    if s.len() == 0 || s.last() == '/' {
        s.len() as int
    } else {
        after_last_slash(s.drop_last())
    }
}

/// The position after the last slash is within the text, and before its
/// end where the text does not end with a slash.
pub proof fn lemma_after_last_slash(s: Seq<char>)
    ensures
        0 <= after_last_slash(s) <= s.len(),
        s.len() > 0 && s.last() != '/' ==> after_last_slash(s) < s.len(),
    decreases s.len(),
{
    if !(s.len() == 0 || s.last() == '/') {
        lemma_after_last_slash(s.drop_last());
    }
}

/// The name of the directory that `path` designates: its last component.
///
/// The components of a path are what stands between its slashes.  Slashes
/// at the end and repeated slashes count for nothing, and neither does a
/// component `.` unless the path begins with it.  A path of slashes only has
/// the one component `/`, and an empty path has none.
pub open spec fn directory_name(path: Seq<char>) -> Seq<char>
    decreases path.len(),
{
    if path.len() == 0 {
        Seq::empty()
    } else if path.last() == '/' {
        if path.len() == 1 {
            seq!['/']
        } else {
            directory_name(path.drop_last())
        }
    } else {
        let start = after_last_slash(path);
        let component = path.subrange(start, path.len() as int);
        if component == seq!['.'] && start > 0 {
            proof {
                lemma_after_last_slash(path);
            }
            directory_name(path.take(start))
        } else {
            component
        }
    }
}

/// Whether a path begins at the root.
pub open spec fn rooted(path: Seq<char>) -> bool {
    path.len() > 0 && path[0] == '/'
}

/// The path of `file` in the directory `dir`.
pub open spec fn joined(dir: Seq<char>, file: Seq<char>) -> Seq<char> {
    if dir.len() == 0 || dir.last() == '/' {
        dir + file
    } else {
        dir + seq!['/'] + file
    }
}

/// The extension of an output file.
pub open spec fn output_extension(debug: bool) -> Seq<char> {
    if debug {
        ".debug.asm"@
    } else {
        ".asm"@
    }
}

/// The path of the assembly file for the translation of `path`.
///
/// For a file, the path with `.asm` in place of `.vm`.  For a directory, the
/// file in the directory that has the directory's name and the extension
/// `.asm`; for the root directory, whose name is `/`, that file's name begins
/// at the root and is the whole path.  In annotated output the extension is
/// `.debug.asm`.
pub open spec fn output_path(path: Seq<char>, path_type: PathType, debug: bool) -> Seq<char> {
    match path_type {
        PathType::File => without_vm_suffixes(path) + output_extension(debug),
        PathType::Dir => {
            let file = directory_name(path) + output_extension(debug);
            if rooted(file) {
                file
            } else {
                joined(path, file)
            }
        },
    }
}

/// Removes `.vm` from the end of `s`, as often as it ends with one: the name
/// of a source unit from the name of its file.
pub fn trim_vm_suffixes(s: &str) -> (r: String)
    ensures
        r@ == without_vm_suffixes(s@),
{
    let chars = chars_of(s);
    let mut len: usize = chars.len();
    assert(s@.take(len as int) =~= s@);
    while len >= 3 && chars[len - 3] == '.' && chars[len - 2] == 'v' && chars[len - 1] == 'm'
        invariant
            chars@ == s@,
            len <= chars.len(),
            without_vm_suffixes(s@.take(len as int)) == without_vm_suffixes(s@),
        decreases len,
    {
        assert(s@.take(len as int).take(len - 3) =~= s@.take(len - 3));
        len = len - 3;
    }
    assert(s@.subrange(0, len as int) =~= s@.take(len as int));
    String::from_str(s.substring_char(0, len))
}

/// The name of the directory that `path` designates.
pub fn directory_name_string(path: &str) -> (r: String)
    ensures
        r@ == directory_name(path@),
{
    proof {
        reveal_strlit("/");
    }
    let chars = chars_of(path);
    let mut end: usize = chars.len();
    assert(path@.take(end as int) =~= path@);
    while end > 0
        invariant
            chars@ == path@,
            end <= chars.len(),
            "/"@ == seq!['/'],
            directory_name(path@.take(end as int)) == directory_name(path@),
        decreases end,
    {
        let ghost current = path@.take(end as int);
        if chars[end - 1] == '/' {
            if end == 1 {
                let root = String::from_str("/");
                assert(root@ =~= seq!['/']);
                return root;
            }
            assert(current.drop_last() =~= path@.take(end - 1));
            end = end - 1;
        } else {
            let mut start: usize = end;
            assert(current.take(start as int) =~= current);
            while start > 0 && chars[start - 1] != '/'
                invariant
                    chars@ == path@,
                    start <= end <= chars.len(),
                    current == path@.take(end as int),
                    after_last_slash(current.take(start as int)) == after_last_slash(current),
                decreases start,
            {
                assert(current.take(start as int).drop_last() =~= current.take(start - 1));
                start = start - 1;
            }
            assert(current.subrange(start as int, end as int) =~= path@.subrange(
                start as int,
                end as int,
            ));
            if end - start == 1 && chars[start] == '.' && start > 0 {
                assert(current.subrange(start as int, end as int) =~= seq!['.']);
                assert(current.take(start as int) =~= path@.take(start as int));
                end = start;
            } else {
                assert(current.subrange(start as int, end as int) != seq!['.'] || start == 0) by {
                    if start > 0 && current.subrange(start as int, end as int) == seq!['.'] {
                        assert(current.subrange(start as int, end as int).len() == 1);
                        assert(current.subrange(start as int, end as int)[0] == '.');
                    }
                }
                return String::from_str(path.substring_char(start, end));
            }
        }
    }
    String::new()
}

/// Constructs the path of the assembly file.  The file itself is not made.
///
/// For `.../test_directory`, a directory, in annotated output:
/// `.../test_directory/test_directory.debug.asm`.
pub fn create_output_path(path: &str, path_type: &PathType, is_debug_option: bool) -> (r: String)
    ensures
        r@ == output_path(path@, *path_type, is_debug_option),
{
    proof {
        reveal_strlit("/");
    }
    let extension = if is_debug_option {
        ".debug.asm"
    } else {
        ".asm"
    };
    match path_type {
        PathType::File => {
            let mut r = trim_vm_suffixes(path);
            r.append(extension);
            r
        },
        PathType::Dir => {
            let mut file_name = directory_name_string(path);
            file_name.append(extension);
            let name = chars_of(file_name.as_str());
            if name.len() > 0 && name[0] == '/' {
                return file_name;
            }
            let chars = chars_of(path);
            let mut r = String::from_str(path);
            if chars.len() > 0 && chars[chars.len() - 1] != '/' {
                r.append("/");
            }
            r.append(file_name.as_str());
            assert(r@ =~= output_path(path@, *path_type, is_debug_option));
            r
        },
    }
}

/// The lines, each followed by a line break.
pub open spec fn lines_text(lines: Seq<Seq<char>>) -> Seq<char>
    decreases lines.len(),
{
    if lines.len() == 0 {
        Seq::empty()
    } else {
        lines_text(lines.drop_last()) + lines.last() + seq!['\n']
    }
}

/// The text that is written to the output for a batch of lines: the lines,
/// each followed by a line break, and one more line break.
pub open spec fn batch_text(lines: Seq<Seq<char>>) -> Seq<char> {
    lines_text(lines) + seq!['\n']
}

/// The text to write to the output for a batch of lines.
pub fn batch_string(lines: &Vec<String>) -> (r: String)
    ensures
        r@ == batch_text(lines_view(lines@)),
{
    proof {
        reveal_strlit("\n");
    }
    let mut r = String::new();
    let mut i: usize = 0;
    assert(lines_view(lines@).take(0) =~= Seq::<Seq<char>>::empty());
    while i < lines.len()
        invariant
            i <= lines.len(),
            "\n"@ == seq!['\n'],
            r@ == lines_text(lines_view(lines@).take(i as int)),
        decreases lines.len() - i,
    {
        let ghost before = r@;
        r.append(lines[i].as_str());
        r.append("\n");
        assert(lines_view(lines@).take(i + 1).drop_last() =~= lines_view(lines@).take(i as int));
        assert(lines_view(lines@).take(i + 1).last() == lines@[i as int]@);
        assert(r@ =~= before + lines@[i as int]@ + seq!['\n']);
        i = i + 1;
    }
    assert(lines_view(lines@).take(i as int) =~= lines_view(lines@));
    r.append("\n");
    r
}

/// Whether one of `names` is `name`.
pub fn contains_name(names: &Vec<String>, name: &str) -> (found: bool)
    ensures
        found == exists|i: int| 0 <= i < names.len() && (#[trigger] names@[i])@ == name@,
{
    let mut i: usize = 0;
    while i < names.len()
        invariant
            i <= names.len(),
            forall|j: int| 0 <= j < i ==> (#[trigger] names@[j])@ != name@,
        decreases names.len() - i,
    {
        if same_text(names[i].as_str(), name) {
            return true;
        }
        i = i + 1;
    }
    false
}

} // verus!
