//! The metadata header of a script: a codename line and, where the version
//! is known, a version line, followed by a blank line.

use crate::decimal::{decimal, lemma_decimal_denotes};
use crate::text::{
    find_marked, first_where, has_prefix, lemma_first_where_is, lemma_split_joined,
    lemma_split_whole, lines_of, marked_by, split, split_lines, strip_cr, tail, to_chars, to_text,
    views,
};
use crate::version::{parse_version, Version};
use vstd::prelude::*;

verus! {

/// What a codename line begins with.
pub open spec fn codename_marker() -> Seq<char> {
    "@Taskline codename "@
}

/// What a version line begins with.
pub open spec fn version_marker() -> Seq<char> {
    "@Taskline version "@
}

/// The codename that `lines` state: what follows the marker on the first
/// codename line, taken as it stands; empty where there is no such line.
pub open spec fn codename_in(lines: Seq<Seq<char>>) -> Seq<char> {
    let k = first_where(lines, marked_by(codename_marker()));
    if k < lines.len() {
        lines[k].skip(codename_marker().len() as int)
    } else {
        Seq::empty()
    }
}

/// The version that `lines` state: what follows the marker on the first
/// version line, read as a version; none where there is no such line or
/// where what follows the marker is no version.
pub open spec fn version_in(lines: Seq<Seq<char>>) -> Option<Version> {
    let k = first_where(lines, marked_by(version_marker()));
    if k < lines.len() {
        match parse_version(lines[k].skip(version_marker().len() as int)) {
            Ok(v) => Some(v),
            Err(_) => None,
        }
    } else {
        None
    }
}

/// The text of a version holds no line feed and ends with a digit.
pub proof fn lemma_version_text_plain(v: Version)
    ensures
        forall|i: int| 0 <= i < v.text().len() ==> v.text()[i] != '\n',
        v.text().len() > 0,
        v.text().last() != '\r',
{
    lemma_decimal_denotes(v.major as nat);
    lemma_decimal_denotes(v.minor as nat);
    lemma_decimal_denotes(v.patch as nat);
    let a = decimal(v.major as nat);
    let b = decimal(v.minor as nat);
    let c = decimal(v.patch as nat);
    assert(v.text().last() == c.last());
    assert forall|i: int| 0 <= i < v.text().len() implies v.text()[i] != '\n' by {
        if i < 1 {
        } else if i < 1 + a.len() {
            assert(v.text()[i] == a[i - 1]);
        } else if i < 2 + a.len() {
        } else if i < 2 + a.len() + b.len() {
            assert(v.text()[i] == b[i - 2 - a.len()]);
        } else if i < 3 + a.len() + b.len() {
        } else {
            assert(v.text()[i] == c[i - 3 - a.len() - b.len()]);
        }
    }
}

/// The header text for a codename and a version: the codename line, the
/// version line if there is a version, and a blank line.
pub open spec fn header_text(codename: Seq<char>, version: Option<Version>) -> Seq<char> {
    codename_marker() + codename + seq!['\n'] + match version {
        Some(v) => version_marker() + v.text() + seq!['\n'],
        None => Seq::empty(),
    } + seq!['\n']
}

/// The characters of the codename marker.
pub fn codename_marker_chars() -> (out: Vec<char>)
    ensures
        out@ == codename_marker(),
        out@.len() == 19,
{
    proof {
        reveal_strlit("@Taskline codename ");
    }
    to_chars("@Taskline codename ")
}

/// The characters of the version marker.
pub fn version_marker_chars() -> (out: Vec<char>)
    ensures
        out@ == version_marker(),
        out@.len() == 18,
{
    proof {
        reveal_strlit("@Taskline version ");
    }
    to_chars("@Taskline version ")
}

/// The metadata of a script.
#[derive(Debug, Clone)]
pub struct TasklineMetadata {
    /// The name of the script.
    pub codename: String,
    /// The version of the script, where one is known.
    pub version: Option<Version>,
}

impl TasklineMetadata {
    /// The header text of this metadata: the codename line, the version line
    /// if a version is known, and a blank line.
    pub open spec fn header(&self) -> Seq<char> {
        header_text(self.codename@, self.version)
    }

    /// Reading a rendered header gives the metadata back, provided that the
    /// codename is one that fits on a line: it holds no line feed and does
    /// not end with a carriage return.
    pub proof fn lemma_header_round_trip(&self)
        requires
            forall|i: int| 0 <= i < self.codename@.len() ==> self.codename@[i] != '\n',
            self.codename@.len() > 0 ==> self.codename@.last() != '\r',
        ensures
            codename_in(lines_of(self.header())) == self.codename@,
            version_in(lines_of(self.header())) == self.version,
    {
        reveal_strlit("@Taskline codename ");
        reveal_strlit("@Taskline version ");
        let cm = codename_marker();
        let vm = version_marker();
        let none = Seq::<char>::empty();
        let first = cm + self.codename@;
        let lines = lines_of(self.header());
        assert(strip_cr(first) == first);
        assert(first.skip(19) =~= self.codename@);
        assert(first.take(19) =~= cm);
        assert(first.take(18)[10] == 'c');
        assert(!has_prefix(first, vm));
        assert(!has_prefix(none, vm));
        lemma_split_whole(first, '\n');
        lemma_split_whole(none, '\n');
        lemma_split_joined(none, none, '\n');
        match self.version {
            Some(v) => {
                let second = vm + v.text();
                lemma_version_text_plain(v);
                v.lemma_text_round_trip();
                assert(self.header() =~= first + seq!['\n'] + (second + seq!['\n'] + (none
                    + seq!['\n'] + none)));
                lemma_split_whole(second, '\n');
                lemma_split_joined(second, none + seq!['\n'] + none, '\n');
                lemma_split_joined(first, second + seq!['\n'] + (none + seq!['\n'] + none), '\n');
                assert(split(self.header(), '\n') =~= seq![first, second, none, none]);
                assert(strip_cr(second) == second);
                assert(lines =~= seq![first, second, none]);
                assert(second.take(18) =~= vm);
                assert(second.skip(18) =~= v.text());
                lemma_first_where_is(lines, marked_by(cm), 0);
                lemma_first_where_is(lines, marked_by(vm), 1);
            },
            None => {
                assert(self.header() =~= first + seq!['\n'] + (none + seq!['\n'] + none));
                lemma_split_joined(first, none + seq!['\n'] + none, '\n');
                assert(split(self.header(), '\n') =~= seq![first, none, none]);
                assert(lines =~= seq![first, none]);
                lemma_first_where_is(lines, marked_by(cm), 0);
                lemma_first_where_is(lines, marked_by(vm), 2);
            },
        }
    }

    /// Reads the metadata from the content of a script. Header lines are
    /// found anywhere in the content, and the first of each kind counts. A
    /// version line whose text is no version leaves the version unknown.
    pub fn parse(content: &str) -> (meta: Self)
        ensures
            meta.codename@ == codename_in(lines_of(content@)),
            meta.version == version_in(lines_of(content@)),
    {
        let chars = to_chars(content);
        let lines = split_lines(chars.as_slice());
        proof {
            assert(views(lines@).len() == lines@.len());
        }
        let codename_marker = codename_marker_chars();
        let at = find_marked(&lines, codename_marker.as_slice());
        let codename = if at < lines.len() {
            proof {
                assert(views(lines@)[at as int] == lines@[at as int]@);
            }
            let rest = tail(lines[at].as_slice(), codename_marker.len());
            to_text(rest.as_slice())
        } else {
            String::new()
        };
        let version_marker = version_marker_chars();
        let at = find_marked(&lines, version_marker.as_slice());
        let version = if at < lines.len() {
            proof {
                assert(views(lines@)[at as int] == lines@[at as int]@);
            }
            let rest = tail(lines[at].as_slice(), version_marker.len());
            match Version::parse_chars(rest.as_slice()) {
                Ok(v) => Some(v),
                Err(_) => None,
            }
        } else {
            None
        };
        TasklineMetadata { codename, version }
    }

    /// Renders the header text of this metadata.
    pub fn to_header(&self) -> (out: String)
        ensures
            out@ == self.header(),
    {
        let mut chars = codename_marker_chars();
        let codename = to_chars(self.codename.as_str());
        let mut i: usize = 0;
        while i < codename.len()
            invariant
                i <= codename.len(),
                chars@ == codename_marker() + codename@.take(i as int),
            decreases codename.len() - i,
        {
            chars.push(codename[i]);
            proof {
                assert(chars@ =~= codename_marker() + codename@.take(i + 1));
            }
            i += 1;
        }
        proof {
            assert(codename@.take(i as int) =~= codename@);
        }
        chars.push('\n');
        match self.version {
            Some(v) => {
                let mut marker = version_marker_chars();
                chars.append(&mut marker);
                v.push_text(&mut chars);
                chars.push('\n');
            },
            None => {},
        }
        chars.push('\n');
        proof {
            assert(chars@ =~= self.header());
        }
        to_text(chars.as_slice())
    }
}

} // verus!
