//! Small operations on text that the rest of the crate is built from.

use vstd::prelude::*;
use vstd::string::*;

verus! {

/// `order` with `name` at its end, unless it holds `name` already.
pub open spec fn with_name(order: Seq<Seq<char>>, name: Seq<char>) -> Seq<Seq<char>> {
    if order.contains(name) {
        order
    } else {
        order.push(name)
    }
}

/// Whether `text` begins with `prefix`.
pub fn starts_with(text: &str, prefix: &str) -> (found: bool)
    ensures
        found == prefix@.is_prefix_of(text@),
{
    let wanted: usize = prefix.unicode_len();
    if text.unicode_len() < wanted {
        return false;
    }
    let mut at: usize = 0;
    while at < wanted
        invariant
            wanted == prefix@.len(),
            wanted <= text@.len(),
            at <= wanted,
            forall|k: int| 0 <= k < at ==> text@[k] == prefix@[k],
        decreases wanted - at,
    {
        if text.get_char(at) != prefix.get_char(at) {
            return false;
        }
        at += 1;
    }
    assert(prefix@ =~= text@.subrange(0, prefix@.len() as int));
    true
}

/// Whether a file called `file_name` carries `extension`: the name is the
/// extension itself, or ends in a dot followed by it. An extension with a
/// dot in it is carried by no file, because only what follows the last dot
/// of a name counts.
pub open spec fn carries_extension(file_name: Seq<char>, extension: Seq<char>) -> bool {
    &&& !extension.contains('.')
    &&& extension.len() <= file_name.len()
    &&& file_name.subrange(file_name.len() - extension.len(), file_name.len() as int) == extension
    &&& (file_name.len() == extension.len() || file_name[file_name.len() - extension.len() - 1]
        == '.')
}

/// Whether `text` holds `wanted`.
pub fn holds_char(text: &str, wanted: char) -> (found: bool)
    ensures
        found == text@.contains(wanted),
{
    let length: usize = text.unicode_len();
    let mut at: usize = 0;
    while at < length
        invariant
            length == text@.len(),
            at <= length,
            forall|k: int| 0 <= k < at ==> text@[k] != wanted,
        decreases length - at,
    {
        if text.get_char(at) == wanted {
            return true;
        }
        at += 1;
    }
    false
}

/// Whether the file called `file_name` is a candidate module: whether it
/// carries `extension`, the suffix that the platform gives its dynamic
/// libraries.
pub fn is_plugin_file(file_name: &str, extension: &str) -> (candidate: bool)
    ensures
        candidate == carries_extension(file_name@, extension@),
{
    if holds_char(extension, '.') {
        return false;
    }
    let wanted: usize = extension.unicode_len();
    let length: usize = file_name.unicode_len();
    if length < wanted {
        return false;
    }
    let start: usize = length - wanted;
    let mut at: usize = 0;
    while at < wanted
        invariant
            wanted == extension@.len(),
            length == file_name@.len(),
            start == length - wanted,
            at <= wanted,
            forall|k: int| 0 <= k < at ==> file_name@[start + k] == extension@[k],
        decreases wanted - at,
    {
        if file_name.get_char(start + at) != extension.get_char(at) {
            assert(file_name@.subrange(start as int, length as int)[at as int] != extension@[at as int]);
            return false;
        }
        at += 1;
    }
    assert(file_name@.subrange(start as int, length as int) =~= extension@);
    start == 0 || file_name.get_char(start - 1) == '.'
}

/// `lines` with a line feed between each two of them.
pub open spec fn joined_by_newline(lines: Seq<Seq<char>>) -> Seq<char>
    decreases lines.len(),
{
    if lines.len() == 0 {
        Seq::empty()
    } else if lines.len() == 1 {
        lines[0]
    } else {
        joined_by_newline(lines.drop_last()) + seq!['\n'] + lines.last()
    }
}

/// The text of `lines`, one below the other.
pub fn join_lines(lines: &Vec<String>) -> (content: String)
    ensures
        content@ == joined_by_newline(lines.deep_view()),
{
    let ghost all = lines.deep_view();
    let mut content = String::new();
    let mut at: usize = 0;
    assert(all.take(0) =~= Seq::<Seq<char>>::empty());
    while at < lines.len()
        invariant
            at <= lines.len(),
            all == lines.deep_view(),
            content@ == joined_by_newline(all.take(at as int)),
        decreases lines.len() - at,
    {
        proof {
            let next = all.take(at as int + 1);
            assert(next.drop_last() =~= all.take(at as int));
            assert(next.last() == lines[at as int]@);
            reveal_strlit("\n");
            assert("\n"@ =~= seq!['\n']);
            if at == 0 {
                assert(next[0] == lines[at as int]@);
                assert(Seq::<char>::empty() + lines[at as int]@ =~= lines[at as int]@);
            }
        }
        if at > 0 {
            content.append("\n");
        }
        content.append(lines[at].as_str());
        at += 1;
    }
    assert(all.take(at as int) =~= all);
    content
}

} // verus!
