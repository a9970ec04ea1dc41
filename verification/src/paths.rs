//! Paths of files: their parts, and which of them hold text.
use vstd::prelude::*;

use crate::outside;
use crate::text;

verus! {

// ---------------------------------------------------------------------------
// Models
// ---------------------------------------------------------------------------

/// Whether every platform reads `path` alike: slashes part its components, it holds no
/// backslash, and it starts neither like a drive, with a colon behind one character, nor
/// with two slashes.
pub open spec fn portable(path: Seq<char>) -> bool {
    &&& !path.contains('\\')
    &&& !(path.len() >= 2 && path[1] == ':')
    &&& !"//"@.is_prefix_of(path)
}

/// `path` without the slashes and the components `.` that stand at its end behind
/// another component.
pub open spec fn settled(path: Seq<char>) -> Seq<char>
    decreases path.len(),
{
    if path.len() > 0 && path.last() == '/' {
        settled(path.drop_last())
    } else if path.len() >= 2 && path.subrange(path.len() - 2, path.len() as int) == "/."@ {
        settled(path.take(path.len() - 2))
    } else {
        path
    }
}

/// The name at the end of a path; none where the path is empty, the root, or ends in
/// `.` or `..`.
pub open spec fn name_in(path: Seq<char>) -> Option<Seq<char>> {
    let name = text::after_last(settled(path), '/');
    if name.len() == 0 || name == "."@ || name == ".."@ {
        None
    } else {
        Some(name)
    }
}

/// The path without its last component; none where there is no component.
pub open spec fn directory_of(path: Seq<char>) -> Option<Seq<char>> {
    let whole = settled(path);
    let front = settled(text::before_last(whole, '/'));
    if whole.len() == 0 {
        None
    } else if front.len() == 0 && whole.contains('/') {
        Some("/"@)
    } else {
        Some(front)
    }
}

/// The name of the directory that a file is in.
pub open spec fn directory_name(path: Seq<char>) -> Option<Seq<char>> {
    match directory_of(path) {
        Some(d) => name_in(d),
        None => None,
    }
}

/// Whether a path, in lowercase, ends like a file that is indexed.
pub open spec fn has_text_extension(path: Seq<char>) -> bool {
    ||| ".ts"@.is_suffix_of(path)
    ||| ".tsx"@.is_suffix_of(path)
    ||| ".js"@.is_suffix_of(path)
    ||| ".jsx"@.is_suffix_of(path)
    ||| ".md"@.is_suffix_of(path)
    ||| ".mdx"@.is_suffix_of(path)
    ||| ".json"@.is_suffix_of(path)
    ||| ".yaml"@.is_suffix_of(path)
    ||| ".yml"@.is_suffix_of(path)
    ||| ".txt"@.is_suffix_of(path)
    ||| ".rst"@.is_suffix_of(path)
    ||| ".toml"@.is_suffix_of(path)
    ||| ".ini"@.is_suffix_of(path)
    ||| ".conf"@.is_suffix_of(path)
}

/// Whether a path ends like a file that is indexed, whatever the case of its letters.
pub open spec fn named_as_text(path: Seq<char>) -> bool {
    has_text_extension(text::ascii_lowered(path))
}

/// A path seen from a directory: without the directory in front, where it stands
/// there, then without slashes at the start, then without backslashes there.
pub open spec fn seen_from(path: Seq<char>, from: Seq<char>) -> Seq<char> {
    let rest = if from.is_prefix_of(path) {
        path.skip(from.len() as int)
    } else {
        path
    };
    text::trim_front(text::trim_front(rest, |c: char| c == '/'), |c: char| c == '\\')
}

/// What follows the last dot of a file's name; none where there is no dot but at the
/// start.
pub open spec fn extension_of(name: Seq<char>) -> Option<Seq<char>> {
    if text::before_last(name, '.').len() == 0 {
        None
    } else {
        Some(text::after_last(name, '.'))
    }
}

// ---------------------------------------------------------------------------
// Operations
// ---------------------------------------------------------------------------

/// Whether a path that is in lowercase ends like a file that is indexed.
pub fn names_text(lower: &str) -> (r: bool)
    ensures
        r == has_text_extension(lower@),
{
    text::ends_with(lower, ".ts") || text::ends_with(lower, ".tsx") || text::ends_with(lower, ".js")
        || text::ends_with(lower, ".jsx") || text::ends_with(lower, ".md") || text::ends_with(
        lower,
        ".mdx",
    ) || text::ends_with(lower, ".json") || text::ends_with(lower, ".yaml") || text::ends_with(
        lower,
        ".yml",
    ) || text::ends_with(lower, ".txt") || text::ends_with(lower, ".rst") || text::ends_with(
        lower,
        ".toml",
    ) || text::ends_with(lower, ".ini") || text::ends_with(lower, ".conf")
}

/// Whether a file is indexed: whether it ends like a text file, in any case.
///
/// That no other path is indexed is stated of the paths that are made of ASCII
/// characters.
pub fn is_text_file(path: &str) -> (r: bool)
    ensures
        r == has_text_extension(outside::lowercase(path@)),
        named_as_text(path@) ==> r,
        text::all_ascii(path@) ==> r == named_as_text(path@),
{
    let lower = outside::to_lowercase(path);
    proof {
        if named_as_text(path@) {
            lemma_endings_are_lowered(path@, lower@);
        }
    }
    names_text(lower.as_str())
}

/// Where ASCII characters at the end come out in lowercase, a path that is named like a
/// text file comes out so too.
proof fn lemma_endings_are_lowered(path: Seq<char>, lower: Seq<char>)
    requires
        named_as_text(path),
        forall|k: int|
            0 <= k <= path.len() && text::all_ascii(#[trigger] path.skip(k)) ==> text::ascii_lowered(
                path.skip(k),
            ).is_suffix_of(lower),
    ensures
        has_text_extension(lower),
{
    let lowered = text::ascii_lowered(path);
    assert forall|ending: Seq<char>| text::all_ascii(ending) && #[trigger] ending.is_suffix_of(
        lowered,
    ) implies ending.is_suffix_of(lower) by {
        let k = path.len() - ending.len();
        let tail = path.skip(k);
        assert forall|i: int| 0 <= i < tail.len() implies (#[trigger] tail[i] as u32) < 128
            && ending[i] == text::lower_letter(tail[i]) by {
            assert(lowered[k + i] == text::lower_letter(path[k + i]));
            assert(lowered.subrange(k, lowered.len() as int)[i] == ending[i]);
            assert((ending[i] as u32) < 128);
        }
        assert(text::ascii_lowered(tail) == ending);
    }
    reveal_strlit(".ts");
    reveal_strlit(".tsx");
    reveal_strlit(".js");
    reveal_strlit(".jsx");
    reveal_strlit(".md");
    reveal_strlit(".mdx");
    reveal_strlit(".json");
    reveal_strlit(".yaml");
    reveal_strlit(".yml");
    reveal_strlit(".txt");
    reveal_strlit(".rst");
    reveal_strlit(".toml");
    reveal_strlit(".ini");
    reveal_strlit(".conf");
}

/// The name of the directory that a file is in.
///
/// Of a path that platforms read differently, only that it is a part of the path that is
/// not empty, or none.
pub fn parent_name(path: &str) -> (r: Option<String>)
    ensures
        portable(path@) ==> text::opt_string(r) == directory_name(path@),
        r matches Some(n) ==> n@.len() > 0 && text::occurs_in(n@, path@),
{
    match outside::parent(path) {
        Some(p) => {
            proof {
                if portable(path@) {
                    lemma_directory_is_portable(path@);
                }
            }
            let name = outside::file_name(p.as_str());
            proof {
                if name is Some {
                    text::lemma_occurs_within(name->Some_0@, p@, path@);
                }
            }
            name
        },
        None => None,
    }
}

/// The extension of a file's name.
pub fn extension(name: &str) -> (r: Option<String>)
    ensures
        text::opt_string(r) == extension_of(name@),
{
    if text::head_before(name, '.').as_str().is_empty() {
        None
    } else {
        Some(text::tail_after(name, '.'))
    }
}

/// A path seen from a directory.
pub fn relative_path(path: &str, from: &str) -> (r: String)
    ensures
        r@ == seen_from(path@, from@),
{
    let chars = text::chars_of(path);
    let len: usize = chars.len();
    let rest = if text::starts_with(path, from) {
        let start: usize = text::chars_of(from).len();
        assert(path@.skip(start as int) == path@.subrange(start as int, len as int));
        text::string_of(&chars, start, len)
    } else {
        path.to_owned()
    };
    let without_slashes = text::trim_start_of(rest.as_str(), '/');
    text::trim_start_of(without_slashes.as_str(), '\\')
}

/// What stands before the last `c` is the start of the whole.
proof fn lemma_before_last_is_prefix(s: Seq<char>, c: char)
    ensures
        text::before_last(s, c).is_prefix_of(s),
    decreases s.len(),
{
    if s.len() > 0 && s.last() != c {
        lemma_before_last_is_prefix(s.drop_last(), c);
        let b = text::before_last(s, c);
        assert(s.subrange(0, b.len() as int) == s.drop_last().subrange(0, b.len() as int));
    }
}

/// What is settled is the start of the whole.
proof fn lemma_settled_is_prefix(path: Seq<char>)
    ensures
        settled(path).is_prefix_of(path),
    decreases path.len(),
{
    let r = settled(path);
    if path.len() > 0 && path.last() == '/' {
        lemma_settled_is_prefix(path.drop_last());
        assert(path.subrange(0, r.len() as int) == path.drop_last().subrange(0, r.len() as int));
    } else if path.len() >= 2 && path.subrange(path.len() - 2, path.len() as int) == "/."@ {
        let rest = path.take(path.len() - 2);
        lemma_settled_is_prefix(rest);
        assert(path.subrange(0, r.len() as int) == rest.subrange(0, r.len() as int));
    } else {
        assert(path.subrange(0, path.len() as int) == path);
    }
}

/// The start of a path that is read alike everywhere is so too.
proof fn lemma_prefix_is_portable(part: Seq<char>, path: Seq<char>)
    requires
        part.is_prefix_of(path),
        portable(path),
    ensures
        portable(part),
{
    assert forall|i: int| 0 <= i < part.len() implies part[i] == path[i] by {
        assert(part[i] == path.subrange(0, part.len() as int)[i]);
    }
    assert forall|c: char| part.contains(c) implies path.contains(c) by {
        let i = part.index_of(c);
        assert(path[i] == c);
    }
    if "//"@.is_prefix_of(part) {
        assert(path.subrange(0, "//"@.len() as int) == part.subrange(0, "//"@.len() as int));
    }
}

/// The directory of a path that is read alike everywhere is so too.
proof fn lemma_directory_is_portable(path: Seq<char>)
    requires
        portable(path),
        directory_of(path) is Some,
    ensures
        portable(directory_of(path)->Some_0),
{
    let whole = settled(path);
    let before = text::before_last(whole, '/');
    lemma_settled_is_prefix(path);
    lemma_prefix_is_portable(whole, path);
    lemma_before_last_is_prefix(whole, '/');
    lemma_prefix_is_portable(before, whole);
    lemma_settled_is_prefix(before);
    lemma_prefix_is_portable(settled(before), before);
    reveal_strlit("/");
    reveal_strlit("//");
}

// ---------------------------------------------------------------------------
// Laws
// ---------------------------------------------------------------------------

/// Whether a file is indexed depends on how its path ends: what stands in front does
/// not matter.
pub proof fn law_only_the_ending_counts(front: Seq<char>, path: Seq<char>)
    ensures
        has_text_extension(path) ==> has_text_extension(front + path),
        named_as_text(path) ==> named_as_text(front + path),
{
    let lowered = text::ascii_lowered(path);
    assert(text::ascii_lowered(front + path) == text::ascii_lowered(front) + lowered);
    lemma_endings_stay(front, path);
    lemma_endings_stay(text::ascii_lowered(front), lowered);
}

proof fn lemma_endings_stay(front: Seq<char>, path: Seq<char>)
    ensures
        has_text_extension(path) ==> has_text_extension(front + path),
{
    let whole = front + path;
    assert forall|ending: Seq<char>| #[trigger] ending.is_suffix_of(path) implies ending.is_suffix_of(
        whole,
    ) by {
        assert(whole.subrange(whole.len() - ending.len(), whole.len() as int) == path.subrange(
            path.len() - ending.len(),
            path.len() as int,
        ));
    }
}

/// Whether a path is named like a text file does not depend on the case of its letters:
/// it is named so in uppercase and in lowercase alike, and where its lowercase ends like
/// a text file, that lowercase is named so too.
pub proof fn law_letter_case_does_not_matter(path: Seq<char>)
    ensures
        has_text_extension(path) ==> named_as_text(path),
        has_text_extension(outside::lowercase(path)) ==> named_as_text(outside::lowercase(path)),
        named_as_text(text::ascii_uppered(path)) == named_as_text(path),
        named_as_text(text::ascii_lowered(path)) == named_as_text(path),
        text::all_ascii(text::ascii_uppered(path)) == text::all_ascii(path),
        text::all_ascii(text::ascii_lowered(path)) == text::all_ascii(path),
{
    let lowered = text::ascii_lowered(path);
    let uppered = text::ascii_uppered(path);
    lemma_endings_are_lowercase(path);
    lemma_endings_are_lowercase(outside::lowercase(path));
    assert(text::ascii_lowered(lowered) == lowered);
    assert(text::ascii_lowered(uppered) == lowered);
    assert forall|i: int| 0 <= i < path.len() implies ((uppered[i] as u32) < 128) == ((
    #[trigger] path[i] as u32) < 128) && ((lowered[i] as u32) < 128) == ((path[i] as u32) < 128) by {
    }
    if text::all_ascii(uppered) || text::all_ascii(lowered) {
        assert forall|i: int| 0 <= i < path.len() implies (#[trigger] path[i] as u32) < 128 by {
            assert((uppered[i] as u32) < 128 || (lowered[i] as u32) < 128);
        }
    }
}

/// What ends like a text file does so with its letters in lowercase.
proof fn lemma_endings_are_lowercase(path: Seq<char>)
    ensures
        has_text_extension(path) ==> named_as_text(path),
{
    let lowered = text::ascii_lowered(path);
    assert forall|ending: Seq<char>| #[trigger] ending.is_suffix_of(path) && text::ascii_lowered(
        ending,
    ) == ending implies ending.is_suffix_of(lowered) by {
        let k = path.len() - ending.len();
        assert forall|i: int| 0 <= i < ending.len() implies lowered.subrange(
            k,
            lowered.len() as int,
        )[i] == ending[i] by {
            assert(path.subrange(k, path.len() as int)[i] == ending[i]);
            assert(text::ascii_lowered(ending)[i] == text::lower_letter(ending[i]));
        }
        assert(lowered.subrange(k, lowered.len() as int) == ending);
    }
    reveal_strlit(".ts");
    reveal_strlit(".tsx");
    reveal_strlit(".js");
    reveal_strlit(".jsx");
    reveal_strlit(".md");
    reveal_strlit(".mdx");
    reveal_strlit(".json");
    reveal_strlit(".yaml");
    reveal_strlit(".yml");
    reveal_strlit(".txt");
    reveal_strlit(".rst");
    reveal_strlit(".toml");
    reveal_strlit(".ini");
    reveal_strlit(".conf");
    assert(text::ascii_lowered(".ts"@) == ".ts"@);
    assert(text::ascii_lowered(".tsx"@) == ".tsx"@);
    assert(text::ascii_lowered(".js"@) == ".js"@);
    assert(text::ascii_lowered(".jsx"@) == ".jsx"@);
    assert(text::ascii_lowered(".md"@) == ".md"@);
    assert(text::ascii_lowered(".mdx"@) == ".mdx"@);
    assert(text::ascii_lowered(".json"@) == ".json"@);
    assert(text::ascii_lowered(".yaml"@) == ".yaml"@);
    assert(text::ascii_lowered(".yml"@) == ".yml"@);
    assert(text::ascii_lowered(".txt"@) == ".txt"@);
    assert(text::ascii_lowered(".rst"@) == ".rst"@);
    assert(text::ascii_lowered(".toml"@) == ".toml"@);
    assert(text::ascii_lowered(".ini"@) == ".ini"@);
    assert(text::ascii_lowered(".conf"@) == ".conf"@);
}

/// A file is in the directory whose name stands in front of its own.
pub proof fn law_file_is_in_its_directory(front: Seq<char>, dir: Seq<char>, file: Seq<char>)
    requires
        dir.len() > 0,
        !dir.contains('/'),
        dir != "."@,
        dir != ".."@,
        file.len() > 0,
        !file.contains('/'),
        file != "."@,
    ensures
        directory_name(front + "/"@ + dir + "/"@ + file) == Some(dir),
{
    let head = front + "/"@ + dir;
    lemma_named_path(head, file);
    lemma_named_path(front, dir);
    assert(head.len() > 0);
}

/// A path that ends in a name is settled, and parts at the slash before the name.
proof fn lemma_named_path(front: Seq<char>, name: Seq<char>)
    requires
        name.len() > 0,
        !name.contains('/'),
        name != "."@,
    ensures
        settled(front + "/"@ + name) == front + "/"@ + name,
        text::after_last(front + "/"@ + name, '/') == name,
        text::before_last(front + "/"@ + name, '/') == front,
        (front + "/"@ + name).contains('/'),
{
    reveal_strlit("/");
    reveal_strlit("/.");
    reveal_strlit(".");
    let path = front + "/"@ + name;
    let at = front.len() as int;
    assert(path[at] == '/');
    assert forall|i: int| at < i < path.len() implies #[trigger] path[i] != '/' by {
        assert(path[i] == name[i - at - 1]);
        assert(name.contains(name[i - at - 1]));
    }
    text::lemma_after_last_is(path, '/', at + 1);
    assert(path.skip(at + 1) == name);
    text::lemma_before_last_is(path, '/', at);
    assert(path.take(at) == front);
    if path.subrange(path.len() - 2, path.len() as int) == "/."@ {
        assert(path.subrange(path.len() - 2, path.len() as int)[0] == '/');
        assert(path[path.len() - 2] == '/');
        assert(path.subrange(path.len() - 2, path.len() as int)[1] == '.');
        assert(name == "."@);
    }
}

/// A file under a directory is seen from it by the rest of its path.
pub proof fn law_files_are_seen_by_the_rest(from: Seq<char>, rest: Seq<char>)
    requires
        rest.len() > 0,
        rest[0] != '/',
        rest[0] != '\\',
    ensures
        seen_from(from + "/"@ + rest, from) == rest,
{
    reveal_strlit("/");
    let path = from + "/"@ + rest;
    let tail = "/"@ + rest;
    assert(path.subrange(0, from.len() as int) == from);
    assert(path.skip(from.len() as int) == tail);
    assert(tail[0] == '/');
    assert(tail[1] == rest[0]);
    text::lemma_trim_front(tail, |c: char| c == '/', 1);
    assert(tail.skip(1) == rest);
    text::lemma_trim_front(rest, |c: char| c == '\\', 0);
    assert(rest.skip(0) == rest);
}

/// The endings of files that are indexed, without their dot.
pub open spec fn text_endings() -> Seq<Seq<char>> {
    seq![
        "ts"@, "tsx"@, "js"@, "jsx"@, "md"@, "mdx"@, "json"@, "yaml"@, "yml"@, "txt"@, "rst"@,
        "toml"@, "ini"@, "conf"@,
    ]
}

/// A path ends like a file that is indexed just where it ends in a dot and one of the
/// endings.
pub proof fn law_endings_of_text_files(path: Seq<char>)
    ensures
        has_text_extension(path) <==> exists|i: int|
            0 <= i < text_endings().len() && (seq!['.'] + #[trigger] text_endings()[i]).is_suffix_of(
                path,
            ),
{
    reveal_strlit("ts");
    reveal_strlit(".ts");
    reveal_strlit("tsx");
    reveal_strlit(".tsx");
    reveal_strlit("js");
    reveal_strlit(".js");
    reveal_strlit("jsx");
    reveal_strlit(".jsx");
    reveal_strlit("md");
    reveal_strlit(".md");
    reveal_strlit("mdx");
    reveal_strlit(".mdx");
    reveal_strlit("json");
    reveal_strlit(".json");
    reveal_strlit("yaml");
    reveal_strlit(".yaml");
    reveal_strlit("yml");
    reveal_strlit(".yml");
    reveal_strlit("txt");
    reveal_strlit(".txt");
    reveal_strlit("rst");
    reveal_strlit(".rst");
    reveal_strlit("toml");
    reveal_strlit(".toml");
    reveal_strlit("ini");
    reveal_strlit(".ini");
    reveal_strlit("conf");
    reveal_strlit(".conf");
    let e = text_endings();
    assert(e.len() == 14);
    assert(seq!['.'] + e[0] == ".ts"@);
    assert(seq!['.'] + e[1] == ".tsx"@);
    assert(seq!['.'] + e[2] == ".js"@);
    assert(seq!['.'] + e[3] == ".jsx"@);
    assert(seq!['.'] + e[4] == ".md"@);
    assert(seq!['.'] + e[5] == ".mdx"@);
    assert(seq!['.'] + e[6] == ".json"@);
    assert(seq!['.'] + e[7] == ".yaml"@);
    assert(seq!['.'] + e[8] == ".yml"@);
    assert(seq!['.'] + e[9] == ".txt"@);
    assert(seq!['.'] + e[10] == ".rst"@);
    assert(seq!['.'] + e[11] == ".toml"@);
    assert(seq!['.'] + e[12] == ".ini"@);
    assert(seq!['.'] + e[13] == ".conf"@);
    if has_text_extension(path) {
        assert(exists|i: int|
            0 <= i < e.len() && (seq!['.'] + #[trigger] e[i]).is_suffix_of(path)) by {
            if ".ts"@.is_suffix_of(path) {
                assert((seq!['.'] + e[0]).is_suffix_of(path));
            }
            if ".tsx"@.is_suffix_of(path) {
                assert((seq!['.'] + e[1]).is_suffix_of(path));
            }
            if ".js"@.is_suffix_of(path) {
                assert((seq!['.'] + e[2]).is_suffix_of(path));
            }
            if ".jsx"@.is_suffix_of(path) {
                assert((seq!['.'] + e[3]).is_suffix_of(path));
            }
            if ".md"@.is_suffix_of(path) {
                assert((seq!['.'] + e[4]).is_suffix_of(path));
            }
            if ".mdx"@.is_suffix_of(path) {
                assert((seq!['.'] + e[5]).is_suffix_of(path));
            }
            if ".json"@.is_suffix_of(path) {
                assert((seq!['.'] + e[6]).is_suffix_of(path));
            }
            if ".yaml"@.is_suffix_of(path) {
                assert((seq!['.'] + e[7]).is_suffix_of(path));
            }
            if ".yml"@.is_suffix_of(path) {
                assert((seq!['.'] + e[8]).is_suffix_of(path));
            }
            if ".txt"@.is_suffix_of(path) {
                assert((seq!['.'] + e[9]).is_suffix_of(path));
            }
            if ".rst"@.is_suffix_of(path) {
                assert((seq!['.'] + e[10]).is_suffix_of(path));
            }
            if ".toml"@.is_suffix_of(path) {
                assert((seq!['.'] + e[11]).is_suffix_of(path));
            }
            if ".ini"@.is_suffix_of(path) {
                assert((seq!['.'] + e[12]).is_suffix_of(path));
            }
            if ".conf"@.is_suffix_of(path) {
                assert((seq!['.'] + e[13]).is_suffix_of(path));
            }
        }
    }
}

/// How a path is seen from a directory: what stands behind the directory where the path
/// starts with it, else the whole path; without the slashes in front, and then without the
/// backslashes in front.
pub proof fn law_how_a_path_is_seen(from: Seq<char>, rest: Seq<char>)
    ensures
        seen_from(from + rest, from) == seen_from(rest, Seq::empty()),
        !from.is_prefix_of(rest) ==> seen_from(rest, from) == seen_from(rest, Seq::empty()),
        seen_from(seq!['/'] + rest, Seq::empty()) == seen_from(rest, Seq::empty()),
        seen_from(seq!['\\'] + rest, Seq::empty()) == if rest.len() > 0 && rest[0] == '\\' {
            seen_from(rest, Seq::empty())
        } else {
            rest
        },
        rest.len() == 0 || (rest[0] != '/' && rest[0] != '\\') ==> seen_from(rest, Seq::empty())
            == rest,
{
    let none = Seq::<char>::empty();
    let slash = |c: char| c == '/';
    let back = |c: char| c == '\\';
    let path = from + rest;
    assert(path.subrange(0, from.len() as int) == from);
    assert(path.skip(from.len() as int) == rest);
    assert(rest.subrange(0, 0) == none);
    assert(rest.skip(0) == rest);
    let slashed = seq!['/'] + rest;
    assert(slashed.subrange(0, 0) == none);
    assert(slashed.skip(0) == slashed);
    assert(slashed.drop_first() == rest);
    assert(slash(slashed.first()));
    assert(text::trim_front(slashed, slash) == text::trim_front(rest, slash));
    let backed = seq!['\\'] + rest;
    assert(backed.subrange(0, 0) == none);
    assert(backed.skip(0) == backed);
    assert(backed.drop_first() == rest);
    assert(backed.first() == '\\');
    assert(!slash(backed.first()) && back(backed.first()));
    assert(text::trim_front(backed, slash) == backed);
    assert(text::trim_front(backed, back) == text::trim_front(rest, back));
    if rest.len() > 0 {
        assert(rest.first() == rest[0]);
    }
    if rest.len() > 0 && rest[0] == '\\' {
        assert(!slash(rest.first()));
        assert(text::trim_front(rest, slash) == rest);
    } else {
        assert(rest.len() == 0 || !back(rest.first()));
        assert(text::trim_front(rest, back) == rest);
    }
    if rest.len() == 0 || (rest[0] != '/' && rest[0] != '\\') {
        assert(rest.len() == 0 || !slash(rest.first()));
        assert(text::trim_front(rest, slash) == rest);
    }
}

/// The extension is what follows the last dot, where something stands before that dot.
pub proof fn law_extension_follows_the_last_dot(stem: Seq<char>, ext: Seq<char>)
    requires
        !ext.contains('.'),
    ensures
        stem.len() > 0 ==> extension_of(stem.push('.') + ext) == Some(ext),
        extension_of(seq!['.'] + ext) is None,
        extension_of(ext) is None,
{
    text::law_parts_at_the_last(stem, '.', ext);
    text::law_parts_at_the_last(Seq::empty(), '.', ext);
    assert(Seq::<char>::empty().push('.') + ext == seq!['.'] + ext);
}

} // verus!
