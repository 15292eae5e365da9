//! Bumping the version of a script: finding the version line in its content,
//! computing the next version, rewriting the content and naming the file
//! after the new version.

use crate::metadata::{version_marker, version_marker_chars};
use crate::metadata::lemma_version_text_plain;
use crate::text::{
    first_where, has_prefix, join_chars, join_lines, lemma_first_where, lemma_first_where_is,
    lemma_lines_clean, lemma_lines_of_join, lines_of, no_line_feeds, split_lines, starts_with,
    strip_cr, tail, to_chars, to_text, views,
};
use crate::decimal::{decimal, lemma_decimal_denotes};
use crate::version::{lemma_triple_of_numerals, parse_triple, triple_of, Version};
use vstd::prelude::*;

verus! {

/// Which number of a version a bump raises.
#[derive(Debug, Clone, Copy, PartialEq, Eq, Structural)]
pub enum BumpType {
    /// Raise the patch number.
    Patch,
    /// Raise the minor number and reset the patch number.
    Minor,
    /// Raise the major number and reset the minor and patch numbers.
    Major,
}

/// Why a bump was refused.
#[derive(Debug, Clone, Copy, PartialEq, Eq, Structural)]
pub enum BumpError {
    /// The tag names no kind of bump.
    InvalidKind,
    /// The number to raise is already the largest that 32 bits hold.
    Overflow,
}

impl BumpError {
    /// The message that names this refusal.
    pub open spec fn message(self) -> Seq<char> {
        match self {
            BumpError::InvalidKind => "Invalid format. Use ..x (patch), .x. (minor), or x.. (major)"@,
            BumpError::Overflow => "Version number overflow"@,
        }
    }

    /// The message that names this refusal.
    pub fn to_message(self) -> (out: String)
        ensures
            out@ == self.message(),
    {
        match self {
            BumpError::InvalidKind => String::from_str(
                "Invalid format. Use ..x (patch), .x. (minor), or x.. (major)",
            ),
            BumpError::Overflow => String::from_str("Version number overflow"),
        }
    }
}

/// Whether `s` and `t` hold the same characters.
fn same_chars(s: &[char], t: &[char]) -> (r: bool)
    ensures
        r == (s@ == t@),
{
    let r = s.len() == t.len() && starts_with(s, t);
    proof {
        if s@.len() == t@.len() {
            assert(s@.take(t@.len() as int) =~= s@);
        }
    }
    r
}

impl BumpType {
    /// The kind of bump that `tag` names. A kind is named by its word, or by
    /// a pattern of two dots and an `x` that stands where its number stands
    /// in a version. Tags are case sensitive.
    pub open spec fn of_tag(tag: Seq<char>) -> Option<BumpType> {
        if tag == "..x"@ || tag == "patch"@ {
            Some(BumpType::Patch)
        } else if tag == ".x."@ || tag == "minor"@ {
            Some(BumpType::Minor)
        } else if tag == "x.."@ || tag == "major"@ {
            Some(BumpType::Major)
        } else {
            None
        }
    }

    /// Whether this bump can be applied to `v`: the number to raise is below
    /// the largest that 32 bits hold.
    pub open spec fn applies_to(self, v: Version) -> bool {
        match self {
            BumpType::Patch => v.patch < u32::MAX,
            BumpType::Minor => v.minor < u32::MAX,
            BumpType::Major => v.major < u32::MAX,
        }
    }

    /// The version that this bump makes of `v`.
    pub open spec fn applied(self, v: Version) -> Version
        recommends
            self.applies_to(v),
    {
        match self {
            BumpType::Patch => v.next_patch(),
            BumpType::Minor => v.next_minor(),
            BumpType::Major => v.next_major(),
        }
    }

    /// Reads the kind of bump from its tag.
    pub fn from_str_fast(s: &str) -> (r: Option<Self>)
        ensures
            r == Self::of_tag(s@),
    {
        let tag = to_chars(s);
        if same_chars(tag.as_slice(), to_chars("..x").as_slice()) || same_chars(
            tag.as_slice(),
            to_chars("patch").as_slice(),
        ) {
            Some(BumpType::Patch)
        } else if same_chars(tag.as_slice(), to_chars(".x.").as_slice()) || same_chars(
            tag.as_slice(),
            to_chars("minor").as_slice(),
        ) {
            Some(BumpType::Minor)
        } else if same_chars(tag.as_slice(), to_chars("x..").as_slice()) || same_chars(
            tag.as_slice(),
            to_chars("major").as_slice(),
        ) {
            Some(BumpType::Major)
        } else {
            None
        }
    }

    /// Applies this bump to `v`, unless the number to raise cannot grow.
    pub fn apply(self, v: Version) -> (r: Result<Version, BumpError>)
        ensures
            self.applies_to(v) ==> r == Ok::<Version, BumpError>(self.applied(v)),
            !self.applies_to(v) ==> r == Err::<Version, BumpError>(BumpError::Overflow),
    {
        match self {
            BumpType::Patch => if v.patch < u32::MAX {
                Ok(v.bump_patch())
            } else {
                Err(BumpError::Overflow)
            },
            BumpType::Minor => if v.minor < u32::MAX {
                Ok(v.bump_minor())
            } else {
                Err(BumpError::Overflow)
            },
            BumpType::Major => if v.major < u32::MAX {
                Ok(v.bump_major())
            } else {
                Err(BumpError::Overflow)
            },
        }
    }
}

/// The version that a version line states. A version line is the version
/// marker followed by three numerals of at most 32 bits with a dot between
/// each two of them; a `v` may stand before the first numeral. Any other
/// line states none.
pub open spec fn version_line_value(line: Seq<char>) -> Option<Version> {
    if !has_prefix(line, version_marker()) {
        None
    } else {
        let rest = line.skip(version_marker().len() as int);
        let body = if rest.len() > 0 && rest[0] == 'v' {
            rest.skip(1)
        } else {
            rest
        };
        match triple_of(body) {
            Ok(v) => Some(v),
            Err(_) => None,
        }
    }
}

/// The version line that states `v`: the marker, then the text of `v`.
pub open spec fn version_line(v: Version) -> Seq<char> {
    version_marker() + v.text()
}

/// The lines that state a version.
pub open spec fn states_version() -> spec_fn(Seq<char>) -> bool {
    |line: Seq<char>| version_line_value(line) is Some
}

/// The version that a bump starts from: the one that the first version line
/// among `lines` states, or `0.0.0` where no line states one.
pub open spec fn working_version(lines: Seq<Seq<char>>) -> Version {
    let k = first_where(lines, states_version());
    if k < lines.len() {
        version_line_value(lines[k])->0
    } else {
        Version { major: 0, minor: 0, patch: 0 }
    }
}

/// `lines` made to state the version `v`. The first version line among them
/// is replaced by the line for `v`. Where there is none, the line for `v`
/// becomes the second line if there are two lines or more, and the last line
/// otherwise. All other lines stay as they are, in their order.
pub open spec fn with_version(lines: Seq<Seq<char>>, v: Version) -> Seq<Seq<char>> {
    let k = first_where(lines, states_version());
    if k < lines.len() {
        lines.update(k, version_line(v))
    } else if lines.len() >= 2 {
        lines.insert(1, version_line(v))
    } else {
        lines.push(version_line(v))
    }
}

/// The version that the characters of a line state.
pub fn version_of_line(line: &[char], marker: &[char]) -> (r: Option<Version>)
    requires
        marker@ == version_marker(),
    ensures
        r == version_line_value(line@),
{
    if !starts_with(line, marker) {
        return None;
    }
    let rest = tail(line, marker.len());
    let body = if rest.len() > 0 && rest[0] == 'v' {
        tail(rest.as_slice(), 1)
    } else {
        rest
    };
    match parse_triple(body.as_slice()) {
        Ok(v) => Some(v),
        Err(_) => None,
    }
}

/// Reads the three numbers of a version line, if `line` is one.
pub fn parse_version_fast(line: &str) -> (r: Option<(u32, u32, u32)>)
    ensures
        r == match version_line_value(line@) {
            Some(v) => Some((v.major, v.minor, v.patch)),
            None => None,
        },
{
    let chars = to_chars(line);
    let marker = version_marker_chars();
    match version_of_line(chars.as_slice(), marker.as_slice()) {
        Some(v) => Some((v.major, v.minor, v.patch)),
        None => None,
    }
}

/// Finds the first version line among `lines`: its position and the version
/// that it states. Lines after the first version line are not looked at.
pub fn locate_version(lines: &Vec<Vec<char>>) -> (r: Option<(usize, Version)>)
    ensures
        match r {
            Some((k, v)) => k == first_where(views(lines@), states_version()) && k < lines.len()
                && version_line_value(lines@[k as int]@) == Some(v),
            None => first_where(views(lines@), states_version()) == lines.len(),
        },
{
    let marker = version_marker_chars();
    let mut k: usize = 0;
    while k < lines.len()
        invariant
            k <= lines.len(),
            marker@ == version_marker(),
            forall|j: int| 0 <= j < k ==> version_line_value(#[trigger] views(lines@)[j]) is None,
        decreases lines.len() - k,
    {
        proof {
            assert(views(lines@)[k as int] == lines@[k as int]@);
        }
        match version_of_line(lines[k].as_slice(), marker.as_slice()) {
            Some(v) => {
                proof {
                    lemma_first_where_is(views(lines@), states_version(), k as int);
                }
                return Some((k, v));
            },
            None => {},
        }
        k += 1;
    }
    proof {
        lemma_first_where_is(views(lines@), states_version(), k as int);
    }
    None
}

/// Every bump moves a version strictly forward in the order of versions: no
/// bump leaves a version as it is, and of two bumps in sequence each gives a
/// later version than the one it started from.
pub proof fn lemma_bump_increases(v: Version, first: BumpType, second: BumpType)
    requires
        first.applies_to(v),
        second.applies_to(first.applied(v)),
    ensures
        first.applied(v) != v,
        v.precedes(first.applied(v)),
        first.applied(v).precedes(second.applied(first.applied(v))),
        v.precedes(second.applied(first.applied(v))),
{
}

/// The version line for `v` states `v`.
pub proof fn lemma_version_line_states(v: Version)
    ensures
        version_line_value(version_line(v)) == Some(v),
{
    reveal_strlit("@Taskline version ");
    let a = decimal(v.major as nat);
    let b = decimal(v.minor as nat);
    let c = decimal(v.patch as nat);
    lemma_decimal_denotes(v.major as nat);
    lemma_decimal_denotes(v.minor as nat);
    lemma_decimal_denotes(v.patch as nat);
    lemma_triple_of_numerals(a, b, c);
    let line = version_line(v);
    assert(line.take(18) =~= version_marker());
    assert(line.skip(18) =~= v.text());
    assert(v.text().skip(1) =~= a + seq!['.'] + b + seq!['.'] + c);
}

/// After `lines` are made to state `v`, their first version line is the line
/// for `v`, so that the next bump starts from `v`.
pub proof fn lemma_with_version_states(lines: Seq<Seq<char>>, v: Version)
    ensures
        working_version(with_version(lines, v)) == v,
{
    let k = first_where(lines, states_version());
    let after = with_version(lines, v);
    lemma_first_where(lines, states_version());
    lemma_version_line_states(v);
    if k < lines.len() {
        assert forall|j: int| 0 <= j < k implies !states_version()(#[trigger] after[j]) by {
            assert(after[j] == lines[j]);
        }
        lemma_first_where_is(after, states_version(), k);
    } else if lines.len() >= 2 {
        assert(after[0] == lines[0]);
        assert(after[1] == version_line(v));
        lemma_first_where_is(after, states_version(), 1);
    } else {
        assert forall|j: int| 0 <= j < lines.len() implies !states_version()(
            #[trigger] after[j],
        ) by {
            assert(after[j] == lines[j]);
        }
        assert(after[lines.len() as int] == version_line(v));
        lemma_first_where_is(after, states_version(), lines.len() as int);
    }
}

/// Where the version line stands among `lines` once they are made to state
/// a version: at the first version line; where there is none, second if
/// there are two lines or more, and after the last line otherwise.
pub open spec fn version_position(lines: Seq<Seq<char>>) -> int {
    let k = first_where(lines, states_version());
    if k < lines.len() {
        k
    } else if lines.len() >= 2 {
        1
    } else {
        lines.len() as int
    }
}

/// Making `lines` state a version touches the version line only: it stands
/// at the version position, and the lines around it are the lines that were
/// there before, in their order.
pub proof fn lemma_other_lines_stay(lines: Seq<Seq<char>>, v: Version)
    ensures
        0 <= version_position(lines) < with_version(lines, v).len(),
        with_version(lines, v)[version_position(lines)] == version_line(v),
        with_version(lines, v).remove(version_position(lines)) == (if first_where(
            lines,
            states_version(),
        ) < lines.len() {
            lines.remove(version_position(lines))
        } else {
            lines
        }),
{
    lemma_first_where(lines, states_version());
    let at = version_position(lines);
    let stated = with_version(lines, v);
    if first_where(lines, states_version()) < lines.len() {
        assert(stated.remove(at) =~= lines.remove(at));
    } else {
        assert(stated.remove(at) =~= lines);
    }
}

/// A second bump starts from the version that the first bump gave: the
/// content that a bump writes states its new version on its first version
/// line. This holds where no line before the version line becomes a version
/// line by losing a carriage return at its end, which rewriting the content
/// with plain line feeds takes away.
pub proof fn lemma_bumped_content_states(content: Seq<char>, kind: BumpType)
    requires
        forall|j: int|
            0 <= j < version_position(lines_of(content)) ==> version_line_value(
                strip_cr(#[trigger] lines_of(content)[j]),
            ) is None,
    ensures
        working_version(lines_of(bumped_content(content, kind))) == kind.applied(
            working_version(lines_of(content)),
        ),
{
    reveal_strlit("@Taskline version ");
    let lines = lines_of(content);
    let v = kind.applied(working_version(lines));
    let at = version_position(lines);
    let stated = with_version(lines, v);
    let reread = lines_of(join_lines(stated));
    lemma_first_where(lines, states_version());
    lemma_lines_clean(content);
    lemma_version_text_plain(v);
    lemma_version_line_states(v);
    let line = version_line(v);
    assert(line.last() == v.text().last());
    assert forall|j: int| 0 <= j < line.len() implies line[j] != '\n' by {
        if j >= 18 {
            assert(line[j] == v.text()[j - 18]);
        }
    }
    assert(stated.len() > at);
    assert(stated[at] == line);
    assert forall|i: int, j: int| 0 <= i < stated.len() && 0 <= j < stated[i].len() implies
        #[trigger] stated[i][j] != '\n' by {
        if i == at {
        } else if i < at {
            assert(stated[i] == lines[i]);
            assert(lines[i][j] != '\n');
        } else if first_where(lines, states_version()) < lines.len() {
            assert(stated[i] == lines[i]);
            assert(lines[i][j] != '\n');
        } else {
            assert(stated[i] == lines[i - 1]);
            assert(lines[i - 1][j] != '\n');
        }
    }
    assert(no_line_feeds(stated));
    lemma_lines_of_join(stated);
    assert(strip_cr(line) == line);
    assert(reread.len() > at);
    assert(reread[at] == line) by {
        if at < stated.len() - 1 {
            assert(reread[at] == strip_cr(stated[at]));
        } else {
            assert(reread.last() == stated.last());
        }
    }
    assert forall|j: int| 0 <= j < at implies !states_version()(#[trigger] reread[j]) by {
        assert(reread[j] == strip_cr(stated[j]));
        assert(stated[j] == lines[j]);
    }
    lemma_first_where_is(reread, states_version(), at);
}

/// The characters of the version line for `v`.
pub fn version_line_chars(v: Version) -> (out: Vec<char>)
    ensures
        out@ == version_line(v),
{
    let mut out = version_marker_chars();
    v.push_text(&mut out);
    out
}

/// The content that a bump of kind `kind` makes of `content`: its lines, made
/// to state the bumped version, joined by line feeds.
pub open spec fn bumped_content(content: Seq<char>, kind: BumpType) -> Seq<char> {
    let lines = lines_of(content);
    join_lines(with_version(lines, kind.applied(working_version(lines))))
}

/// Bumps the version that `content` states. The result is the new version
/// and the new content. The bump is refused, and nothing is computed, where
/// the number to raise cannot grow.
pub fn bump_content(content: &str, kind: BumpType) -> (r: Result<(Version, String), BumpError>)
    ensures
        match r {
            Ok((v, text)) => {
                &&& kind.applies_to(working_version(lines_of(content@)))
                &&& v == kind.applied(working_version(lines_of(content@)))
                &&& text@ == bumped_content(content@, kind)
            },
            Err(e) => e == BumpError::Overflow && !kind.applies_to(
                working_version(lines_of(content@)),
            ),
        },
{
    let chars = to_chars(content);
    let mut lines = split_lines(chars.as_slice());
    let ghost before = views(lines@);
    let found = locate_version(&lines);
    let working = match found {
        Some((_, v)) => v,
        None => Version::new(0, 0, 0),
    };
    proof {
        assert(before.len() == lines@.len());
        if let Some((k, _)) = found {
            assert(before[k as int] == lines@[k as int]@);
        }
        assert(working == working_version(before));
    }
    let next = match kind.apply(working) {
        Ok(v) => v,
        Err(e) => { return Err(e); },
    };
    let line = version_line_chars(next);
    match found {
        Some((k, _)) => {
            lines.set(k, line);
            proof {
                assert(views(lines@) =~= before.update(k as int, version_line(next)));
            }
        },
        None => {
            if lines.len() >= 2 {
                lines.insert(1, line);
                proof {
                    assert(views(lines@) =~= before.insert(1, version_line(next)));
                }
            } else {
                lines.push(line);
                proof {
                    assert(views(lines@) =~= before.push(version_line(next)));
                }
            }
        },
    }
    let joined = join_chars(&lines);
    Ok((next, to_text(joined.as_slice())))
}

/// The position of the last `c` in `s`, or `-1` where `s` holds none.
pub open spec fn last_position(s: Seq<char>, c: char) -> int
    decreases s.len(),
{
    if s.len() == 0 {
        -1
    } else if s.last() == c {
        s.len() - 1
    } else {
        last_position(s.drop_last(), c)
    }
}

/// Where the extension of a file name begins: the position of its last dot,
/// unless the name has no dot or only one at its very start; then the name
/// has no extension and this is `None`.
pub open spec fn extension_dot(name: Seq<char>) -> Option<int> {
    let k = last_position(name, '.');
    if k <= 0 {
        None
    } else {
        Some(k)
    }
}

/// The file name of a script after a bump to `v`. The stem of `name`, which
/// is all that stands before its extension dot, is followed by an underscore
/// and the text of `v`, and then by the dot and the extension if `name` had
/// one.
pub open spec fn bumped_name(name: Seq<char>, v: Version) -> Seq<char> {
    match extension_dot(name) {
        Some(k) => name.take(k) + seq!['_'] + v.text() + name.skip(k),
        None => name + seq!['_'] + v.text(),
    }
}

/// `last_position` is the position of a `c` after which no `c` follows, or
/// `-1` where `s` holds no `c`.
pub proof fn lemma_last_position(s: Seq<char>, c: char)
    ensures
        -1 <= last_position(s, c) < s.len(),
        last_position(s, c) >= 0 ==> s[last_position(s, c)] == c,
        forall|j: int| last_position(s, c) < j < s.len() ==> #[trigger] s[j] != c,
    decreases s.len(),
{
    if s.len() > 0 && s.last() != c {
        let rest = s.drop_last();
        lemma_last_position(rest, c);
        assert forall|j: int| last_position(s, c) < j < s.len() implies #[trigger] s[j] != c by {
            if j < rest.len() {
                assert(s[j] == rest[j]);
            }
        }
    }
}

/// The position of the last `c` in `s`, if there is one.
pub fn find_last(s: &[char], c: char) -> (r: Option<usize>)
    ensures
        match r {
            Some(k) => k == last_position(s@, c) && k < s.len(),
            None => last_position(s@, c) == -1,
        },
{
    let mut k: usize = s.len();
    proof {
        assert(s@.take(k as int) =~= s@);
    }
    while k > 0
        invariant
            k <= s.len(),
            last_position(s@, c) == last_position(s@.take(k as int), c),
        decreases k,
    {
        if s[k - 1] == c {
            return Some(k - 1);
        }
        proof {
            assert(s@.take(k as int).drop_last() =~= s@.take(k - 1));
        }
        k -= 1;
    }
    None
}

/// Names the file of a script after the version `v` that it was bumped to.
/// `name` is the file's name without any directory.
pub fn bumped_file_name(name: &str, v: Version) -> (out: String)
    ensures
        out@ == bumped_name(name@, v),
{
    let chars = to_chars(name);
    let cut = match find_last(chars.as_slice(), '.') {
        Some(k) => if k > 0 {
            k
        } else {
            chars.len()
        },
        None => chars.len(),
    };
    let mut out: Vec<char> = Vec::new();
    let mut i: usize = 0;
    while i < cut
        invariant
            i <= cut <= chars.len(),
            out@ == chars@.take(i as int),
        decreases cut - i,
    {
        out.push(chars[i]);
        proof {
            assert(out@ =~= chars@.take(i + 1));
        }
        i += 1;
    }
    out.push('_');
    v.push_text(&mut out);
    let mut rest = tail(chars.as_slice(), cut);
    out.append(&mut rest);
    proof {
        assert(chars@.take(chars@.len() as int) =~= chars@);
        assert(chars@.skip(chars@.len() as int) =~= Seq::<char>::empty());
        assert(out@ =~= bumped_name(name@, v));
    }
    to_text(out.as_slice())
}

/// What a bump gives: the new version, the new content of the script and
/// the new name of its file.
#[derive(Debug, Clone)]
pub struct Bumped {
    /// The version after the bump.
    pub version: Version,
    /// The content of the script, stating the new version.
    pub content: String,
    /// The name of the file, without any directory, naming the new version.
    pub file_name: String,
}

/// Bumps a script: from its content, the name of its file and the kind of
/// bump, computes the new version, the new content and the new file name.
/// The bump is refused where the number to raise cannot grow.
pub fn bump_script(content: &str, file_name: &str, kind: BumpType) -> (r: Result<
    Bumped,
    BumpError,
>)
    ensures
        match r {
            Ok(bumped) => {
                &&& kind.applies_to(working_version(lines_of(content@)))
                &&& bumped.version == kind.applied(working_version(lines_of(content@)))
                &&& bumped.content@ == bumped_content(content@, kind)
                &&& bumped.file_name@ == bumped_name(file_name@, bumped.version)
            },
            Err(e) => e == BumpError::Overflow && !kind.applies_to(
                working_version(lines_of(content@)),
            ),
        },
{
    match bump_content(content, kind) {
        Ok((version, content)) => {
            let file_name = bumped_file_name(file_name, version);
            Ok(Bumped { version, content, file_name })
        },
        Err(e) => Err(e),
    }
}

} // verus!
