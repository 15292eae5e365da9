//! The version of a script: three numbers, written `v<major>.<minor>.<patch>`.

use crate::decimal::{
    decimal, digits_value, is_numeral, lemma_decimal_denotes, parse_u32, push_decimal,
};
use crate::text::{
    lemma_split_joined, lemma_split_whole, split, split_chars, tail, to_chars, to_text, views,
};
use vstd::prelude::*;

verus! {

/// What can go wrong in an operation on a script.
#[derive(Debug, Clone)]
pub enum TasklineError {
    /// A version text is malformed; the message says how.
    VersionError(String),
    /// A file could not be read, written or renamed.
    FileError(String),
    /// Some other text is malformed.
    ParseError(String),
}

impl TasklineError {
    /// The error as one line of text: its kind, then its message.
    pub open spec fn text(&self) -> Seq<char> {
        match self {
            TasklineError::VersionError(msg) => "Version Error: "@ + msg@,
            TasklineError::FileError(msg) => "File Error: "@ + msg@,
            TasklineError::ParseError(msg) => "Parse Error: "@ + msg@,
        }
    }

    /// Renders the error as one line of text.
    pub fn to_string(&self) -> (out: String)
        ensures
            out@ == self.text(),
    {
        match self {
            TasklineError::VersionError(msg) => String::from_str("Version Error: ").concat(
                msg.as_str(),
            ),
            TasklineError::FileError(msg) => String::from_str("File Error: ").concat(msg.as_str()),
            TasklineError::ParseError(msg) => String::from_str("Parse Error: ").concat(
                msg.as_str(),
            ),
        }
    }
}

/// The ways in which a text can fail to be a version.
#[derive(Debug, Clone, Copy, PartialEq, Eq, Structural)]
pub enum VersionFault {
    /// The text does not begin with `v`.
    MissingPrefix,
    /// The dots do not cut the text after the `v` into exactly three parts.
    WrongShape,
    /// The first part is not a number of at most 32 bits.
    Major,
    /// The second part is not a number of at most 32 bits.
    Minor,
    /// The third part is not a number of at most 32 bits.
    Patch,
}

impl VersionFault {
    /// The message that names this fault.
    pub open spec fn message(self) -> Seq<char> {
        match self {
            VersionFault::MissingPrefix => "Version must start with 'v'"@,
            VersionFault::WrongShape => "Version must have format v1.2.3"@,
            VersionFault::Major => "Invalid major version"@,
            VersionFault::Minor => "Invalid minor version"@,
            VersionFault::Patch => "Invalid patch version"@,
        }
    }

    /// The message that names this fault.
    pub fn to_message(self) -> (out: String)
        ensures
            out@ == self.message(),
    {
        match self {
            VersionFault::MissingPrefix => String::from_str("Version must start with 'v'"),
            VersionFault::WrongShape => String::from_str("Version must have format v1.2.3"),
            VersionFault::Major => String::from_str("Invalid major version"),
            VersionFault::Minor => String::from_str("Invalid minor version"),
            VersionFault::Patch => String::from_str("Invalid patch version"),
        }
    }
}

/// A version: major, minor and patch number.
#[derive(Debug, Clone, Copy, PartialEq, Eq, Structural, Ord)]
pub struct Version {
    pub major: u32,
    pub minor: u32,
    pub patch: u32,
}

/// The version that `body` denotes, where `body` is a version text without
/// its leading `v`: three numerals with a dot between each two of them.
pub open spec fn triple_of(body: Seq<char>) -> Result<Version, VersionFault> {
    let parts = split(body, '.');
    if parts.len() != 3 {
        Err(VersionFault::WrongShape)
    } else if !is_numeral(parts[0]) {
        Err(VersionFault::Major)
    } else if !is_numeral(parts[1]) {
        Err(VersionFault::Minor)
    } else if !is_numeral(parts[2]) {
        Err(VersionFault::Patch)
    } else {
        Ok(
            Version {
                major: digits_value(parts[0]) as u32,
                minor: digits_value(parts[1]) as u32,
                patch: digits_value(parts[2]) as u32,
            },
        )
    }
}

/// The version that the text `s` denotes, or the first reason why it denotes
/// none.
pub open spec fn parse_version(s: Seq<char>) -> Result<Version, VersionFault> {
    if s.len() == 0 || s[0] != 'v' {
        Err(VersionFault::MissingPrefix)
    } else {
        triple_of(s.skip(1))
    }
}

/// Three numerals of 32 bits with a dot between each two of them denote the
/// version made of their three numbers.
pub proof fn lemma_triple_of_numerals(a: Seq<char>, b: Seq<char>, c: Seq<char>)
    requires
        is_numeral(a),
        is_numeral(b),
        is_numeral(c),
    ensures
        triple_of(a + seq!['.'] + b + seq!['.'] + c) == Ok::<Version, VersionFault>(
            Version {
                major: digits_value(a) as u32,
                minor: digits_value(b) as u32,
                patch: digits_value(c) as u32,
            },
        ),
{
    let body = a + seq!['.'] + b + seq!['.'] + c;
    assert(body =~= a + seq!['.'] + (b + seq!['.'] + c));
    lemma_split_joined(a, b + seq!['.'] + c, '.');
    lemma_split_joined(b, c, '.');
    lemma_split_whole(a, '.');
    lemma_split_whole(b, '.');
    lemma_split_whole(c, '.');
    assert(split(body, '.') =~= seq![a, b, c]);
}

/// Reads three numerals with dots between them.
pub fn parse_triple(body: &[char]) -> (r: Result<Version, VersionFault>)
    ensures
        r == triple_of(body@),
{
    let parts = split_chars(body, '.');
    proof {
        assert(views(parts@).len() == parts@.len());
    }
    if parts.len() != 3 {
        return Err(VersionFault::WrongShape);
    }
    proof {
        assert(views(parts@)[0] == parts@[0]@);
        assert(views(parts@)[1] == parts@[1]@);
        assert(views(parts@)[2] == parts@[2]@);
    }
    let major = match parse_u32(parts[0].as_slice()) {
        Some(n) => n,
        None => { return Err(VersionFault::Major); },
    };
    let minor = match parse_u32(parts[1].as_slice()) {
        Some(n) => n,
        None => { return Err(VersionFault::Minor); },
    };
    let patch = match parse_u32(parts[2].as_slice()) {
        Some(n) => n,
        None => { return Err(VersionFault::Patch); },
    };
    Ok(Version { major, minor, patch })
}

impl Version {
    /// The version with the given numbers.
    pub fn new(major: u32, minor: u32, patch: u32) -> (v: Self)
        ensures
            v == (Version { major, minor, patch }),
    {
        Version { major, minor, patch }
    }

    /// The text of this version: `v`, then the three numbers in decimal with
    /// a dot between each two of them.
    pub open spec fn text(self) -> Seq<char> {
        seq!['v'] + decimal(self.major as nat) + seq!['.'] + decimal(self.minor as nat) + seq!['.']
            + decimal(self.patch as nat)
    }

    /// Reading the text of a version gives that version back.
    pub proof fn lemma_text_round_trip(self)
        ensures
            parse_version(self.text()) == Ok::<Version, VersionFault>(self),
    {
        let a = decimal(self.major as nat);
        let b = decimal(self.minor as nat);
        let c = decimal(self.patch as nat);
        lemma_decimal_denotes(self.major as nat);
        lemma_decimal_denotes(self.minor as nat);
        lemma_decimal_denotes(self.patch as nat);
        lemma_triple_of_numerals(a, b, c);
        assert(self.text().skip(1) =~= a + seq!['.'] + b + seq!['.'] + c);
    }

    /// Reads a version from its text. The text must be `v` followed by three
    /// numerals of at most 32 bits each, with a dot between each two of them;
    /// any other text is refused with the message of its first fault.
    pub fn parse(version_str: &str) -> (r: Result<Self, TasklineError>)
        ensures
            match parse_version(version_str@) {
                Ok(v) => r == Ok::<Version, TasklineError>(v),
                Err(fault) => r matches Err(TasklineError::VersionError(msg)) && msg@
                    == fault.message(),
            },
    {
        let chars = to_chars(version_str);
        match Self::parse_chars(chars.as_slice()) {
            Ok(v) => Ok(v),
            Err(fault) => Err(TasklineError::VersionError(fault.to_message())),
        }
    }

    /// Reads a version from the characters of its text.
    pub fn parse_chars(s: &[char]) -> (r: Result<Self, VersionFault>)
        ensures
            r == parse_version(s@),
    {
        if s.len() == 0 || s[0] != 'v' {
            return Err(VersionFault::MissingPrefix);
        }
        let body = tail(s, 1);
        parse_triple(body.as_slice())
    }

    /// Appends the text of this version to `out`.
    pub fn push_text(self, out: &mut Vec<char>)
        ensures
            final(out)@ == old(out)@ + self.text(),
    {
        out.push('v');
        push_decimal(out, self.major);
        out.push('.');
        push_decimal(out, self.minor);
        out.push('.');
        push_decimal(out, self.patch);
        proof {
            assert(out@ =~= old(out)@ + self.text());
        }
    }

    /// Renders this version as text.
    pub fn to_string(&self) -> (out: String)
        ensures
            out@ == self.text(),
    {
        let mut chars: Vec<char> = Vec::new();
        self.push_text(&mut chars);
        proof {
            assert(chars@ =~= self.text());
        }
        to_text(chars.as_slice())
    }

    /// This version with the patch number raised by one.
    pub open spec fn next_patch(self) -> Version
        recommends
            self.patch < u32::MAX,
    {
        Version { major: self.major, minor: self.minor, patch: (self.patch + 1) as u32 }
    }

    /// This version with the minor number raised by one and the patch number
    /// reset to zero.
    pub open spec fn next_minor(self) -> Version
        recommends
            self.minor < u32::MAX,
    {
        Version { major: self.major, minor: (self.minor + 1) as u32, patch: 0 }
    }

    /// This version with the major number raised by one and the minor and
    /// patch numbers reset to zero.
    pub open spec fn next_major(self) -> Version
        recommends
            self.major < u32::MAX,
    {
        Version { major: (self.major + 1) as u32, minor: 0, patch: 0 }
    }

    /// The next patch version: the patch number grows by one.
    pub fn bump_patch(self) -> (v: Self)
        requires
            self.patch < u32::MAX,
        ensures
            v == self.next_patch(),
            v.major == self.major,
            v.minor == self.minor,
            v.patch == self.patch + 1,
    {
        Self::new(self.major, self.minor, self.patch + 1)
    }

    /// The next minor version: the minor number grows by one and the patch
    /// number starts again at zero.
    pub fn bump_minor(self) -> (v: Self)
        requires
            self.minor < u32::MAX,
        ensures
            v == self.next_minor(),
            v == (Version { major: self.major, minor: (self.minor + 1) as u32, patch: 0 }),
    {
        Self::new(self.major, self.minor + 1, 0)
    }

    /// The next major version: the major number grows by one and the minor
    /// and patch numbers start again at zero.
    pub fn bump_major(self) -> (v: Self)
        requires
            self.major < u32::MAX,
        ensures
            v == self.next_major(),
            v == (Version { major: (self.major + 1) as u32, minor: 0, patch: 0 }),
    {
        Self::new(self.major + 1, 0, 0)
    }
}

} // verus!
