//! Paths as texts.
//!
//! By the rules of POSIX, which are stated here, components stand between slashes,
//! and neither an empty component nor `.` behind another names anything. A
//! platform with other rules, with drives or with backslashes, is asked what it
//! makes of a path.

use vstd::prelude::*;

use crate::text::chars_of;

verus! {

/// What tells the path rules of one platform from those of another: the separator
/// that it writes, and which of the slash and the backslash it reads as one.
///
/// There is no way to make a value but [`PathRules::of_this_platform`], so every
/// value speaks of the platform that the program runs on.
#[derive(Clone, Copy, Debug)]
pub struct PathRules {
    separator: char,
    slash: bool,
    backslash: bool,
}

impl PathRules {
    /// The separator that the platform writes.
    pub closed spec fn separator(self) -> char {
        self.separator
    }

    /// Whether a slash separates.
    pub closed spec fn slash(self) -> bool {
        self.slash
    }

    /// Whether a backslash separates.
    pub closed spec fn backslash(self) -> bool {
        self.backslash
    }

    /// Whether the rules are those of POSIX: the slash separates, and nothing
    /// else does.
    pub open spec fn is_posix(self) -> bool {
        self.separator() == '/' && self.slash() && !self.backslash()
    }

    /// The rules of the platform that the program runs on. Which those are is up
    /// to the platform; [`PathRules::posix`] tells whether they are POSIX's.
    pub fn of_this_platform() -> (rules: PathRules) {
        PathRules {
            separator: main_separator(),
            slash: is_separator('/'),
            backslash: is_separator('\\'),
        }
    }

    /// Whether the rules are those of POSIX.
    pub fn posix(&self) -> (posix: bool)
        ensures
            posix == self.is_posix(),
    {
        self.separator == '/' && self.slash && !self.backslash
    }
}

/// Reads `std::path::MAIN_SEPARATOR`, the separator that the platform writes.
/// Nothing is claimed of it: it depends on the platform.
#[verifier::external_body]
fn main_separator() -> (separator: char) {
    std::path::MAIN_SEPARATOR
}

/// Calls `std::path::is_separator`, which tells whether the platform reads a
/// character as a separator. Nothing is claimed of it: it depends on the platform.
#[verifier::external_body]
fn is_separator(character: char) -> (separates: bool) {
    std::path::is_separator(character)
}

/// What `std::path::Path::file_name` returns for a path on a platform with these
/// path rules.
pub uninterp spec fn platform_file_name_of(separator: char, slash: bool, backslash: bool, path: Seq<char>) -> Option<Seq<char>>;

/// What `std::path::Path::with_file_name` returns for a path and a name on a
/// platform with these path rules.
pub uninterp spec fn platform_sibling_of(separator: char, slash: bool, backslash: bool, path: Seq<char>, name: Seq<char>) -> Seq<char>;

/// Calls `std::path::Path::file_name`. The result depends on the path and on the
/// rules of the platform, of which a [`PathRules`] always speaks. What those rules
/// are is not said. A text comes apart at separators, so the part is a text again.
#[verifier::external_body]
fn std_file_name(path: &str, _rules: PathRules) -> (name: Option<String>)
    ensures
        name.deep_view() == platform_file_name_of(
            _rules.separator(),
            _rules.slash(),
            _rules.backslash(),
            path@,
        ),
{
    match std::path::Path::new(path).file_name() {
        Some(name) => Some(name.to_string_lossy().into_owned()),
        None => None,
    }
}

/// Calls `std::path::Path::with_file_name`. The result depends on the path, on the
/// name and on the rules of the platform, of which a [`PathRules`] always speaks.
/// What those rules are is not said.
#[verifier::external_body]
fn std_with_file_name(path: &str, name: &str, _rules: PathRules) -> (changed: String)
    ensures
        changed@ == platform_sibling_of(
            _rules.separator(),
            _rules.slash(),
            _rules.backslash(),
            path@,
            name@,
        ),
{
    std::path::Path::new(path).with_file_name(name).to_string_lossy().into_owned()
}

/// How much of a path stands before its first ordinary component: the root's
/// slash, or a leading `.` that is a component of its own.
pub open spec fn body_start(path: Seq<char>) -> nat {
    if path.len() > 0 && path[0] == '/' {
        1
    } else if path.len() > 0 && path[0] == '.' && (path.len() == 1 || path[1] == '/') {
        1
    } else {
        0
    }
}

/// `path` without the slashes and the `/.` components at its end, which name
/// nothing. The first `floor` characters always stay.
pub open spec fn trim(path: Seq<char>, floor: nat) -> Seq<char>
    decreases path.len(),
{
    if path.len() <= floor {
        path
    } else if path.last() == '/' {
        trim(path.drop_last(), floor)
    } else if path.len() >= 2 && path.last() == '.' && path[path.len() - 2] == '/' {
        trim(path.drop_last(), floor)
    } else {
        path
    }
}

/// The position just behind the last slash, 0 where there is none.
pub open spec fn after_last_slash(path: Seq<char>) -> nat
    decreases path.len(),
{
    if path.len() == 0 || path.last() == '/' {
        path.len()
    } else {
        after_last_slash(path.drop_last())
    }
}

/// The last component of a path, where that is an ordinary name: not the root,
/// not `.` and not `..`.
pub open spec fn file_name_of(path: Seq<char>) -> Option<Seq<char>> {
    let trimmed = trim(path, body_start(path));
    let name = trimmed.skip(after_last_slash(trimmed) as int);
    if trimmed.len() <= body_start(path) || name == seq!['.', '.'] {
        None
    } else {
        Some(name)
    }
}

/// The path of the directory in which `path` names an entry; `path` itself
/// where it names none.
pub open spec fn directory_of(path: Seq<char>) -> Seq<char> {
    let trimmed = trim(path, body_start(path));
    if file_name_of(path) is Some {
        trim(trimmed.take(after_last_slash(trimmed) as int), body_start(path))
    } else {
        path
    }
}

/// `name` looked up from `dir`: behind a slash, which is put in where `dir` is
/// not empty and does not end in one. An absolute `name` stands alone.
pub open spec fn join(dir: Seq<char>, name: Seq<char>) -> Seq<char> {
    if name.len() > 0 && name[0] == '/' {
        name
    } else if dir.len() > 0 && dir.last() != '/' {
        dir + seq!['/'] + name
    } else {
        dir + name
    }
}

/// The path of the entry `name` beside the one that `path` names.
pub open spec fn sibling(path: Seq<char>, name: Seq<char>) -> Seq<char> {
    join(directory_of(path), name)
}

/// A name that can stand for one entry of a directory.
pub open spec fn is_plain(name: Seq<char>) -> bool {
    &&& name.len() > 0
    &&& !name.contains('/')
    &&& name != seq!['.']
    &&& name != seq!['.', '.']
}

fn body_offset(path: &Vec<char>) -> (start: usize)
    ensures
        start == body_start(path@),
        start <= path@.len(),
{
    if path.len() > 0 && path[0] == '/' {
        1
    } else if path.len() > 0 && path[0] == '.' && (path.len() == 1 || path[1] == '/') {
        1
    } else {
        0
    }
}

fn trimmed_len(path: &Vec<char>, end: usize, floor: usize) -> (len: usize)
    requires
        floor <= end <= path@.len(),
    ensures
        floor <= len <= end,
        path@.take(len as int) == trim(path@.take(end as int), floor as nat),
{
    let mut len: usize = end;
    while len > floor && (path[len - 1] == '/' || (len >= 2 && path[len - 1] == '.' && path[len - 2]
        == '/'))
        invariant
            floor <= len <= end <= path@.len(),
            trim(path@.take(len as int), floor as nat) == trim(
                path@.take(end as int),
                floor as nat,
            ),
        decreases len,
    {
        proof {
            assert(path@.take(len as int).drop_last() =~= path@.take(len - 1));
        }
        len = len - 1;
    }
    len
}

fn name_start(path: &Vec<char>, end: usize) -> (start: usize)
    requires
        end <= path@.len(),
    ensures
        start <= end,
        start == after_last_slash(path@.take(end as int)),
{
    let mut start: usize = end;
    while start > 0 && path[start - 1] != '/'
        invariant
            start <= end <= path@.len(),
            after_last_slash(path@.take(start as int)) == after_last_slash(
                path@.take(end as int),
            ),
        decreases start,
    {
        proof {
            assert(path@.take(start as int).drop_last() =~= path@.take(start - 1));
        }
        start = start - 1;
    }
    start
}

/// Where the parts of a path lie: `Some((start, end))` where its file name does.
fn locate_name(path: &Vec<char>) -> (place: Option<(usize, usize)>)
    ensures
        place is Some == file_name_of(path@) is Some,
        place matches Some((start, end)) ==> {
            &&& start <= end <= path@.len()
            &&& body_start(path@) <= end
            &&& path@.take(end as int) == trim(path@, body_start(path@))
            &&& start == after_last_slash(path@.take(end as int))
            &&& file_name_of(path@) == Some(path@.subrange(start as int, end as int))
        },
{
    let floor = body_offset(path);
    let end = trimmed_len(path, path.len(), floor);
    let start = name_start(path, end);
    proof {
        assert(path@.take(path@.len() as int) =~= path@);
        assert(path@.take(end as int).skip(start as int) =~= path@.subrange(
            start as int,
            end as int,
        ));
    }
    if end <= floor {
        return None;
    }
    if end - start == 2 && path[start] == '.' && path[start + 1] == '.' {
        proof {
            assert(path@.subrange(start as int, end as int) =~= seq!['.', '.']);
        }
        return None;
    }
    Some((start, end))
}

fn posix_file_name(path: &str) -> (name: Option<String>)
    ensures
        name.deep_view() == file_name_of(path@),
{
    let chars = chars_of(path);
    match locate_name(&chars) {
        Some((start, end)) => Some(path.substring_char(start, end).to_owned()),
        None => None,
    }
}

fn posix_with_file_name(path: &str, name: &str) -> (changed: String)
    ensures
        changed@ == sibling(path@, name@),
{
    let chars = chars_of(path);
    let floor = body_offset(&chars);
    let name_chars = chars_of(name);
    if name_chars.len() > 0 && name_chars[0] == '/' {
        return name.to_owned();
    }
    let dir_len: usize = match locate_name(&chars) {
        Some((start, end)) => {
            proof {
                lemma_name_behind_body(path@);
                assert(chars@.take(end as int).take(start as int) =~= chars@.take(start as int));
            }
            trimmed_len(&chars, start, floor)
        },
        None => chars.len(),
    };
    proof {
        assert(path@.take(path@.len() as int) =~= path@);
        assert(path@.subrange(0, dir_len as int) =~= path@.take(dir_len as int));
        assert(path@.take(dir_len as int) == directory_of(path@));
        reveal_strlit("/");
        assert("/"@ =~= seq!['/']);
    }
    let mut changed = path.substring_char(0, dir_len).to_owned();
    if dir_len > 0 && chars[dir_len - 1] != '/' {
        changed.append("/");
    }
    changed.append(name);
    changed
}

/// The last component of a path by the platform's rules, where it is an ordinary
/// name.
pub open spec fn file_name_on(path: Seq<char>, rules: PathRules) -> Option<Seq<char>> {
    if rules.is_posix() {
        file_name_of(path)
    } else {
        platform_file_name_of(rules.separator(), rules.slash(), rules.backslash(), path)
    }
}

/// The path of the entry `name` beside the one that `path` names, by the
/// platform's rules.
pub open spec fn sibling_on(path: Seq<char>, name: Seq<char>, rules: PathRules) -> Seq<char> {
    if rules.is_posix() {
        sibling(path, name)
    } else {
        platform_sibling_of(rules.separator(), rules.slash(), rules.backslash(), path, name)
    }
}

/// The last component of `path` as the platform itself finds it.
pub fn platform_file_name(path: &str, rules: PathRules) -> (name: Option<String>)
    ensures
        name.deep_view() == platform_file_name_of(
            rules.separator(),
            rules.slash(),
            rules.backslash(),
            path@,
        ),
{
    std_file_name(path, rules)
}

/// `path` with its file name replaced by `name` as the platform itself does it.
pub fn platform_with_file_name(path: &str, name: &str, rules: PathRules) -> (changed: String)
    ensures
        changed@ == platform_sibling_of(
            rules.separator(),
            rules.slash(),
            rules.backslash(),
            path@,
            name@,
        ),
{
    std_with_file_name(path, name, rules)
}

/// The last component of `path`, where it is an ordinary name.
pub fn file_name(path: &str, rules: PathRules) -> (name: Option<String>)
    ensures
        name.deep_view() == file_name_on(path@, rules),
{
    if rules.posix() {
        posix_file_name(path)
    } else {
        platform_file_name(path, rules)
    }
}

/// `path` with its file name replaced by `name`, or with `name` added where it
/// has no file name.
pub fn with_file_name(path: &str, name: &str, rules: PathRules) -> (changed: String)
    ensures
        changed@ == sibling_on(path@, name@, rules),
{
    if rules.posix() {
        posix_with_file_name(path, name)
    } else {
        platform_with_file_name(path, name, rules)
    }
}

proof fn lemma_trim_is_prefix(path: Seq<char>, floor: nat)
    ensures
        ({
            let trimmed = trim(path, floor);
            &&& trimmed.len() <= path.len()
            &&& trimmed == path.take(trimmed.len() as int)
            &&& floor <= path.len() ==> floor <= trimmed.len()
            &&& floor < trimmed.len() < path.len() ==> path[trimmed.len() as int] == '/'
            &&& floor < trimmed.len() ==> trimmed.last() != '/'
            &&& floor < trimmed.len() && trimmed.len() >= 2 && trimmed.last() == '.' ==> trimmed[
            trimmed.len() - 2] != '/'
        }),
    decreases path.len(),
{
    if path.len() > floor && (path.last() == '/' || (path.len() >= 2 && path.last() == '.'
        && path[path.len() - 2] == '/')) {
        let shorter = path.drop_last();
        lemma_trim_is_prefix(shorter, floor);
        let trimmed = trim(path, floor);
        assert(shorter.take(trimmed.len() as int) =~= path.take(trimmed.len() as int));
        if trimmed.len() == shorter.len() && floor < trimmed.len() {
            assert(path[trimmed.len() as int] == path.last());
            if path.last() == '.' {
                assert(shorter.last() == '/');
            }
        }
    } else {
        assert(path.take(path.len() as int) =~= path);
    }
}

proof fn lemma_after_last_slash(path: Seq<char>)
    ensures
        after_last_slash(path) <= path.len(),
        after_last_slash(path) > 0 ==> path[after_last_slash(path) - 1] == '/',
        forall|i: int| after_last_slash(path) <= i < path.len() ==> path[i] != '/',
    decreases path.len(),
{
    if path.len() > 0 && path.last() != '/' {
        lemma_after_last_slash(path.drop_last());
        assert forall|i: int| after_last_slash(path) <= i < path.len() implies path[i] != '/' by {
            if i < path.len() - 1 {
                assert(path[i] == path.drop_last()[i]);
            }
        }
    }
}

/// A file name never reaches into the root or the leading `.` component.
proof fn lemma_name_behind_body(path: Seq<char>)
    requires
        trim(path, body_start(path)).len() > body_start(path),
    ensures
        after_last_slash(trim(path, body_start(path))) >= body_start(path),
{
    let floor = body_start(path);
    let trimmed = trim(path, floor);
    lemma_trim_is_prefix(path, floor);
    lemma_after_last_slash(trimmed);
    if floor == 1 {
        assert(trimmed[0] == path[0]);
        assert(trimmed[1] == path[1]);
        if after_last_slash(trimmed) == 0 {
            assert(trimmed[0] != '/' && trimmed[1] != '/');
        }
    }
}

/// A file name is always a plain one.
pub proof fn file_name_is_plain(path: Seq<char>)
    ensures
        file_name_of(path) matches Some(name) ==> is_plain(name),
{
    let floor = body_start(path);
    let trimmed = trim(path, floor);
    lemma_trim_is_prefix(path, floor);
    lemma_after_last_slash(trimmed);
    let start = after_last_slash(trimmed) as int;
    let name = trimmed.skip(start);
    if file_name_of(path) is Some {
        if name.contains('/') {
            let i = choose|i: int| 0 <= i < name.len() && name[i] == '/';
            assert(trimmed[start + i] == '/');
        }
        assert(trimmed.last() != '/');
        if name.len() == 0 {
            assert(trimmed[start - 1] == '/');
        }
        if name == seq!['.'] {
            assert(name.len() == 1 && name[0] == '.');
            assert(trimmed.last() == '.');
            if start == 0 {
                assert(trimmed.len() == 1 && path[0] == '.');
                assert(path.len() == 1 || path[1] == '/');
            }
        }
    }
}

/// What ends in a plain name behind nothing or a slash has that file name.
proof fn lemma_ends_in_name(path: Seq<char>, start: int, name: Seq<char>)
    requires
        is_plain(name),
        0 <= start,
        path.len() == start + name.len(),
        path.skip(start) == name,
        start > 0 ==> path[start - 1] == '/',
    ensures
        body_start(path) <= start,
        trim(path, body_start(path)) == path,
        after_last_slash(path) == start,
        file_name_of(path) == Some(name),
{
    let floor = body_start(path);
    assert forall|i: int| 0 <= i < name.len() implies #[trigger] path[start + i] == name[i]
        && name[i] != '/' by {
        assert(path.skip(start)[i] == path[start + i]);
        assert(name.contains(name[i]));
    }
    assert(path.last() == path[start + (name.len() - 1)]);
    if path.last() == '.' {
        if name.len() == 1 {
            assert(path[start + 0] == name[0]);
            assert(name =~= seq!['.']);
        } else {
            assert(path[path.len() - 2] == path[start + (name.len() - 2)]);
        }
    }
    if start == 0 {
        assert(path =~= name);
        assert(path[start + 0] == name[0]);
        if path.len() > 1 {
            assert(path[start + 1] == name[1]);
        } else if path[0] == '.' {
            assert(name =~= seq!['.']);
        }
    }
    lemma_after_last_slash(path);
    let found = after_last_slash(path) as int;
    if found > start {
        assert(path[start + (found - 1 - start)] != '/');
    }
}

/// The entry beside another carries the name that was asked for.
pub proof fn sibling_has_the_name(path: Seq<char>, name: Seq<char>)
    requires
        is_plain(name),
    ensures
        file_name_of(sibling(path, name)) == Some(name),
{
    let dir = directory_of(path);
    let whole = sibling(path, name);
    assert(name.contains(name[0]));
    let start = whole.len() - name.len();
    assert(whole.skip(start) =~= name);
    lemma_ends_in_name(whole, start, name);
}

/// The entry beside another lies in the same directory, written without what
/// names nothing at its end. Where `path` has a file name there is none of that
/// in its directory.
pub proof fn sibling_in_the_same_directory(path: Seq<char>, name: Seq<char>)
    requires
        is_plain(name),
    ensures
        directory_of(sibling(path, name)) == trim(directory_of(path), body_start(path)),
        file_name_of(path) is Some ==> directory_of(sibling(path, name)) == directory_of(path),
{
    let floor = body_start(path);
    let trimmed = trim(path, floor);
    let head = trimmed.take(after_last_slash(trimmed) as int);
    let dir = directory_of(path);
    let whole = sibling(path, name);
    let start = whole.len() - name.len();
    assert(name.contains(name[0]));
    assert(whole.skip(start) =~= name);
    lemma_ends_in_name(whole, start, name);
    lemma_trim_is_prefix(path, floor);
    if file_name_of(path) is Some {
        lemma_after_last_slash(trimmed);
        lemma_name_behind_body(path);
        lemma_trim_is_prefix(head, floor);
        assert(trim(dir, floor) == dir);
    }
    if dir.len() == 0 {
        assert(whole.take(start) =~= dir);
    } else {
        assert(dir[0] == path[0] && whole[0] == path[0]);
        if dir.len() > 1 {
            assert(dir[1] == path[1] && whole[1] == path[1]);
        } else if path[0] == '.' {
            assert(whole[1] == '/');
            if floor == 0 {
                assert(dir.len() < head.len());
                assert(head[1] == '/');
                assert(path[1] == '/');
            }
        }
        assert(body_start(whole) == floor);
        if dir.last() == '/' {
            assert(whole.take(start) =~= dir);
        } else {
            assert(whole.take(start) =~= dir.push('/'));
            assert(dir.push('/').drop_last() =~= dir);
        }
    }
}

/// In a path whose directory part is written without detours, a longer file
/// name just lengthens the path.
pub proof fn sibling_with_longer_name(path: Seq<char>, suffix: Seq<char>)
    requires
        file_name_of(path) matches Some(name) && path == sibling(path, name),
    ensures
        sibling(path, file_name_of(path)->0 + suffix) == path + suffix,
{
    file_name_is_plain(path);
    let name = file_name_of(path)->0;
    assert(name.contains(name[0]));
    assert(sibling(path, name + suffix) =~= path + suffix);
}

/// A platform with other rules than those of POSIX has the last word on paths, and the
/// rules are those of POSIX exactly where the slash is written and read as the
/// separator, and the backslash is not.
pub proof fn other_platforms_have_the_last_word(
    path: Seq<char>,
    name: Seq<char>,
    rules: PathRules,
)
    ensures
        rules.is_posix() <==> rules.separator() == '/' && rules.slash() && !rules.backslash(),
        rules.is_posix() ==> {
            &&& file_name_on(path, rules) == file_name_of(path)
            &&& sibling_on(path, name, rules) == sibling(path, name)
        },
        !rules.is_posix() ==> {
            &&& file_name_on(path, rules) == platform_file_name_of(
                rules.separator(),
                rules.slash(),
                rules.backslash(),
                path,
            )
            &&& sibling_on(path, name, rules) == platform_sibling_of(
                rules.separator(),
                rules.slash(),
                rules.backslash(),
                path,
                name,
            )
        },
{
}

/// What can stand behind a component without naming anything: slashes, and dots each
/// right behind a slash.
pub open spec fn is_silent(text: Seq<char>) -> bool {
    forall|i: int|
        0 <= i < text.len() ==> #[trigger] text[i] == '/' || (text[i] == '.' && i > 0 && text[i - 1]
            == '/')
}

/// Whether a text ends in something that names an entry, or the current directory at
/// its beginning: not in a slash, and not in a dot behind one.
pub open spec fn ends_in_a_component(text: Seq<char>) -> bool {
    &&& text.len() > 0
    &&& text.last() != '/'
    &&& text.len() >= 2 && text.last() == '.' ==> text[text.len() - 2] != '/'
}

/// Trimming takes away what names nothing, and stops there.
proof fn lemma_trim_silent(base: Seq<char>, tail: Seq<char>, floor: nat)
    requires
        is_silent(tail),
        floor <= base.len(),
        base.len() == floor || ends_in_a_component(base),
    ensures
        trim(base + tail, floor) == base,
    decreases tail.len(),
{
    if tail.len() > 0 {
        let whole = base + tail;
        let shorter = tail.drop_last();
        assert(whole.drop_last() =~= base + shorter);
        assert(is_silent(shorter)) by {
            assert forall|i: int| 0 <= i < shorter.len() implies #[trigger] shorter[i] == '/' || (
            shorter[i] == '.' && i > 0 && shorter[i - 1] == '/') by {
                assert(tail[i] == shorter[i]);
            }
        }
        let last = tail.len() - 1;
        assert(tail[last] == '/' || (tail[last] == '.' && last > 0 && tail[last - 1] == '/'));
        assert(whole.last() == tail[last]);
        if tail[last] == '.' {
            assert(whole[whole.len() - 2] == tail[last - 1]);
        }
        lemma_trim_silent(base, shorter, floor);
    } else {
        assert(base + tail =~= base);
    }
}

/// What names nothing at the end of a path does not change its beginning.
proof fn lemma_same_start(front: Seq<char>, tail: Seq<char>)
    requires
        is_silent(tail),
        front.len() > 0,
        front.len() == 1 ==> front[0] != '.',
    ensures
        body_start(front + tail) == body_start(front),
{
    assert((front + tail)[0] == front[0]);
    if front.len() > 1 {
        assert((front + tail)[1] == front[1]);
    }
}

/// The file name of a path is its last component: a name that stands at its beginning
/// or behind a slash, and is followed at most by what names nothing. Parents, and paths
/// without any component but the root or the current directory, have none.
pub proof fn file_name_is_the_last_component(dir: Seq<char>, name: Seq<char>, tail: Seq<char>)
    requires
        dir.len() > 0 ==> dir.last() == '/',
        name.len() > 0,
        !name.contains('/'),
        name != seq!['.'],
        is_silent(tail),
    ensures
        file_name_of(dir + name + tail) == if name == seq!['.', '.'] {
            None
        } else {
            Some(name)
        },
        file_name_of(Seq::empty()) is None,
        file_name_of(tail) is None,
        tail.len() > 0 ==> file_name_of(seq!['.'] + tail) is None,
        file_name_of(seq!['.']) is None,
{
    let front = dir + name;
    let path = front + tail;
    let floor = body_start(path);
    assert(name.contains(name[0]));
    assert(name.contains(name.last()));
    assert(front.last() == name.last());
    if front.len() == 1 && front[0] == '.' {
        assert(name =~= seq!['.']);
    }
    lemma_same_start(front, tail);
    if name.len() == 1 {
        if name[0] == '.' {
            assert(name =~= seq!['.']);
        }
    } else {
        assert(name.contains(name[name.len() - 2]));
        assert(front[front.len() - 2] == name[name.len() - 2]);
    }
    assert(ends_in_a_component(front));
    if dir.len() == 0 {
        assert(front =~= name);
        if name.len() > 1 {
            assert(name.contains(name[1]));
        }
        assert(floor == 0);
    }
    lemma_trim_silent(front, tail, floor);
    lemma_after_last_slash(front);
    let start = after_last_slash(front) as int;
    if start > dir.len() {
        assert(front[start - 1] == name[start - 1 - dir.len()]);
        assert(name.contains(name[start - 1 - dir.len()]));
    }
    if start < dir.len() {
        assert(front[dir.len() - 1] == '/');
    }
    assert(front.skip(start) =~= name);
    assert(path =~= dir + name + tail);
    if tail.len() > 0 {
        assert(tail[0] == '/');
        let root = seq!['/'];
        let rest = tail.skip(1);
        assert(is_silent_behind_slash(rest)) by {
            assert forall|i: int| 0 <= i < rest.len() implies #[trigger] rest[i] == '/' || (rest[i]
                == '.' && (i == 0 || rest[i - 1] == '/')) by {
                assert(rest[i] == tail[i + 1]);
                if i > 0 {
                    assert(rest[i - 1] == tail[i]);
                }
            }
        }
        assert(root + rest =~= tail);
        lemma_trim_to_root(rest);
        let here = seq!['.'] + tail;
        assert(here[1] == '/');
        lemma_trim_silent(seq!['.'], tail, 1);
    }
}

/// What can stand behind the root without naming anything.
spec fn is_silent_behind_slash(text: Seq<char>) -> bool {
    forall|i: int|
        0 <= i < text.len() ==> #[trigger] text[i] == '/' || (text[i] == '.' && (i == 0 || text[i
            - 1] == '/'))
}

/// Nothing but the root is left of a path that names nothing behind it.
proof fn lemma_trim_to_root(rest: Seq<char>)
    requires
        is_silent_behind_slash(rest),
    ensures
        trim(seq!['/'] + rest, 1) == seq!['/'],
    decreases rest.len(),
{
    let whole = seq!['/'] + rest;
    if rest.len() > 0 {
        let shorter = rest.drop_last();
        let last = rest.len() - 1;
        assert(whole.drop_last() =~= seq!['/'] + shorter);
        assert(rest[last] == '/' || (rest[last] == '.' && (last == 0 || rest[last - 1] == '/')));
        assert(whole.last() == rest[last]);
        if last > 0 {
            assert(whole[whole.len() - 2] == rest[last - 1]);
        } else {
            assert(whole[whole.len() - 2] == '/');
        }
        assert(is_silent_behind_slash(shorter)) by {
            assert forall|i: int| 0 <= i < shorter.len() implies #[trigger] shorter[i] == '/' || (
            shorter[i] == '.' && (i == 0 || shorter[i - 1] == '/')) by {
                assert(shorter[i] == rest[i]);
                if i > 0 {
                    assert(shorter[i - 1] == rest[i - 1]);
                }
            }
        }
        lemma_trim_to_root(shorter);
    } else {
        assert(whole =~= seq!['/']);
    }
}

/// Where the entry beside another lies. Beside a bare name it is its own name; beside a
/// name right under the root it lies there; and beside a name in a directory it lies in
/// that directory, behind one slash, however many there were. A path that names no file
/// is taken for the directory itself. An absolute name stands alone.
pub proof fn sibling_lies_beside(
    base: Seq<char>,
    gap: Seq<char>,
    name: Seq<char>,
    tail: Seq<char>,
    other: Seq<char>,
)
    requires
        is_plain(name),
        is_silent(gap),
        is_silent(tail),
        gap.len() > 0 && gap.last() == '/',
        ends_in_a_component(base),
        other.len() > 0 ==> other[0] != '/',
    ensures
        sibling(name + tail, other) == other,
        sibling(gap + name + tail, other) == seq!['/'] + other,
        sibling(base + gap + name + tail, other) == base + seq!['/'] + other,
{
    let empty = Seq::<char>::empty();
    // A bare name.
    lemma_directory(empty, name, tail);
    assert(empty + name + tail =~= name + tail);
    assert(trim(empty, 0) == empty);
    lemma_plain_start(name, tail);
    assert(empty + other =~= other);
    // A name under the root.
    lemma_directory(gap, name, tail);
    assert(gap[0] == '/');
    assert((gap + name + tail)[0] == '/');
    let rest = gap.skip(1);
    assert(is_silent_behind_slash(rest)) by {
        assert forall|i: int| 0 <= i < rest.len() implies #[trigger] rest[i] == '/' || (rest[i]
            == '.' && (i == 0 || rest[i - 1] == '/')) by {
            assert(rest[i] == gap[i + 1]);
            if i > 0 {
                assert(rest[i - 1] == gap[i]);
            }
        }
    }
    assert(seq!['/'] + rest =~= gap);
    lemma_trim_to_root(rest);
    // A name in a directory.
    let dir = base + gap;
    let path = dir + name + tail;
    lemma_directory(dir, name, tail);
    assert(dir.last() == gap.last());
    assert(path =~= base + gap + name + tail);
    lemma_trim_silent(base, gap, body_start(path));
}

/// A path that begins with an ordinary name has nothing before it.
proof fn lemma_plain_start(name: Seq<char>, tail: Seq<char>)
    requires
        is_plain(name),
        is_silent(tail),
    ensures
        body_start(name + tail) == 0,
{
    let path = name + tail;
    assert(name.contains(name[0]));
    assert(path[0] == name[0]);
    if name.len() > 1 {
        assert(name.contains(name[1]));
        assert(path[1] == name[1]);
    } else if name[0] == '.' {
        assert(name =~= seq!['.']);
    }
}

/// The directory of a path is what stands before its file name, trimmed.
proof fn lemma_directory(dir: Seq<char>, name: Seq<char>, tail: Seq<char>)
    requires
        dir.len() > 0 ==> dir.last() == '/',
        is_plain(name),
        is_silent(tail),
    ensures
        directory_of(dir + name + tail) == trim(dir, body_start(dir + name + tail)),
{
    let front = dir + name;
    let path = front + tail;
    file_name_is_the_last_component(dir, name, tail);
    assert(path =~= dir + name + tail);
    assert(front.skip(dir.len() as int) =~= name);
    lemma_ends_in_name(front, dir.len() as int, name);
    if front.len() == 1 && front[0] == '.' {
        assert(name =~= seq!['.']);
    }
    lemma_same_start(front, tail);
    assert(name.contains(name.last()));
    if name.len() == 1 {
        if name[0] == '.' {
            assert(name =~= seq!['.']);
        }
    } else {
        assert(name.contains(name[name.len() - 2]));
        assert(front[front.len() - 2] == name[name.len() - 2]);
    }
    assert(front.last() == name.last());
    lemma_trim_silent(front, tail, body_start(path));
    assert(front.take(dir.len() as int) =~= dir);
}

/// Beside a path that names no file an entry lies in the directory that the path is
/// taken for, behind a slash unless there is one already; and an absolute name stands
/// alone, whatever it is put beside.
pub proof fn sibling_without_a_name(path: Seq<char>, other: Seq<char>)
    ensures
        other.len() > 0 && other[0] == '/' ==> sibling(path, other) == other,
        file_name_of(path) is None && !(other.len() > 0 && other[0] == '/') ==> sibling(path, other)
            == if path.len() == 0 || path.last() == '/' {
            path + other
        } else {
            path + seq!['/'] + other
        },
{
}

} // verus!
