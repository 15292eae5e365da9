//! Starting a new script: checking the version text that it is given, and
//! naming and filling its file.

use crate::constants::TASKLINE_EXTENSION;
use crate::decimal::{all_digits, digits_value, is_digit, is_digit_char};
use crate::metadata::{header_text, TasklineMetadata};
use crate::text::{count_of, lemma_split_nonempty, split, tail, to_chars, to_text};
use crate::version::{parse_triple, parse_version, Version};
use vstd::prelude::*;

verus! {

/// Why a text is refused as the version of a new script.
#[derive(Debug, Clone, Copy, PartialEq, Eq, Structural)]
pub enum VersionTextFault {
    /// The text has fewer than five characters.
    TooShort,
    /// The text does not begin with `v`.
    MissingPrefix,
    /// A dot stands where a number has to begin.
    EmptyPart,
    /// A third dot.
    TooManyDots,
    /// A character that is neither a digit nor a dot.
    InvalidCharacter,
    /// Fewer than two dots.
    MissingDots,
    /// Nothing follows the second dot.
    EmptyLastPart,
    /// A number that 32 bits do not hold.
    OutOfRange,
}

impl VersionTextFault {
    /// The message that names this fault.
    pub open spec fn message(self) -> Seq<char> {
        match self {
            VersionTextFault::TooShort => "Version too short - minimum format is v1.0.0"@,
            VersionTextFault::MissingPrefix => "Version must start with 'v'"@,
            VersionTextFault::EmptyPart => "Empty version part - each part must contain digits"@,
            VersionTextFault::TooManyDots => "Too many dots - version must have exactly 2 dots (major.minor.patch)"@,
            VersionTextFault::InvalidCharacter => "Invalid character - version can only contain digits and dots"@,
            VersionTextFault::MissingDots => "Missing dots - version must have exactly 2 dots (major.minor.patch)"@,
            VersionTextFault::EmptyLastPart => "Last version part is empty - must contain digits"@,
            VersionTextFault::OutOfRange => "Version part out of range - each part must fit in 32 bits"@,
        }
    }

    /// The message that names this fault.
    pub fn to_message(self) -> (out: String)
        ensures
            out@ == self.message(),
    {
        match self {
            VersionTextFault::TooShort => String::from_str(
                "Version too short - minimum format is v1.0.0",
            ),
            VersionTextFault::MissingPrefix => String::from_str("Version must start with 'v'"),
            VersionTextFault::EmptyPart => String::from_str(
                "Empty version part - each part must contain digits",
            ),
            VersionTextFault::TooManyDots => String::from_str(
                "Too many dots - version must have exactly 2 dots (major.minor.patch)",
            ),
            VersionTextFault::InvalidCharacter => String::from_str(
                "Invalid character - version can only contain digits and dots",
            ),
            VersionTextFault::MissingDots => String::from_str(
                "Missing dots - version must have exactly 2 dots (major.minor.patch)",
            ),
            VersionTextFault::EmptyLastPart => String::from_str(
                "Last version part is empty - must contain digits",
            ),
            VersionTextFault::OutOfRange => String::from_str(
                "Version part out of range - each part must fit in 32 bits",
            ),
        }
    }
}

/// Whether the character at position `p` of `body` cannot stand there in
/// three numerals separated by dots: it is neither a digit nor a dot, or it
/// is a dot where a numeral has to begin, or it is a third dot.
pub open spec fn breaks_at(body: Seq<char>, p: int) -> bool
    recommends
        0 <= p < body.len(),
{
    if body[p] == '.' {
        p == 0 || body[p - 1] == '.' || count_of(body.take(p), '.') >= 2
    } else {
        !is_digit(body[p])
    }
}

/// The fault that a break at position `p` of `body` is reported as.
pub open spec fn fault_at(body: Seq<char>, p: int) -> VersionTextFault
    recommends
        0 <= p < body.len(),
        breaks_at(body, p),
{
    if body[p] != '.' {
        VersionTextFault::InvalidCharacter
    } else if p == 0 || body[p - 1] == '.' {
        VersionTextFault::EmptyPart
    } else {
        VersionTextFault::TooManyDots
    }
}

/// The first position below `n` at which `body` breaks, or `n` where it
/// breaks at none of them.
pub open spec fn first_break_within(body: Seq<char>, n: int) -> int
    decreases n,
{
    if n <= 0 {
        0
    } else {
        let k = first_break_within(body, n - 1);
        if k < n - 1 {
            k
        } else if breaks_at(body, n - 1) {
            n - 1
        } else {
            n
        }
    }
}

/// The first position at which `body` breaks, or its length where it breaks
/// nowhere.
pub open spec fn first_break(body: Seq<char>) -> int {
    first_break_within(body, body.len() as int)
}

/// Whether each of `parts` denotes a number that 32 bits hold.
pub open spec fn all_fit(parts: Seq<Seq<char>>) -> bool {
    forall|i: int| 0 <= i < parts.len() ==> digits_value(#[trigger] parts[i]) <= u32::MAX
}

/// The first fault of `s` as the version of a new script, or `None` where
/// `s` is `v` followed by three numerals of at most 32 bits each with a dot
/// between each two of them. The text is read from left to right, and the
/// first character that cannot stand where it stands decides the fault.
pub open spec fn version_text_fault(s: Seq<char>) -> Option<VersionTextFault> {
    if s.len() < 5 {
        Some(VersionTextFault::TooShort)
    } else if s[0] != 'v' {
        Some(VersionTextFault::MissingPrefix)
    } else {
        let body = s.skip(1);
        let p = first_break(body);
        if p < body.len() {
            Some(fault_at(body, p))
        } else if count_of(body, '.') != 2 {
            Some(VersionTextFault::MissingDots)
        } else if body.last() == '.' {
            Some(VersionTextFault::EmptyLastPart)
        } else if !all_fit(split(body, '.')) {
            Some(VersionTextFault::OutOfRange)
        } else {
            None
        }
    }
}

/// `first_break_within` is a position up to `n`; `body` breaks at it if it
/// is below `n`, and at no position before it.
pub proof fn lemma_first_break_within(body: Seq<char>, n: int)
    requires
        0 <= n,
    ensures
        0 <= first_break_within(body, n) <= n,
        first_break_within(body, n) < n ==> breaks_at(body, first_break_within(body, n)),
        forall|q: int| 0 <= q < first_break_within(body, n) ==> !breaks_at(body, q),
    decreases n,
{
    if n > 0 {
        lemma_first_break_within(body, n - 1);
    }
}

/// A break found among the first `m` positions stays the first break however
/// far one reads on.
pub proof fn lemma_first_break_stays(body: Seq<char>, m: int, n: int)
    requires
        0 <= m <= n,
        first_break_within(body, m) < m,
    ensures
        first_break_within(body, n) == first_break_within(body, m),
    decreases n - m,
{
    if m < n {
        lemma_first_break_stays(body, m, n - 1);
    }
}

/// What the dots cut out of a text that does not break among its first `n`
/// characters: one piece more than there are dots; every piece but the last
/// is a run of at least one digit; the last is a run of digits, empty exactly
/// where nothing or a dot stands before position `n`.
pub proof fn lemma_unbroken_pieces(body: Seq<char>, n: int)
    requires
        0 <= n <= body.len(),
        first_break_within(body, n) == n,
    ensures
        split(body.take(n), '.').len() == count_of(body.take(n), '.') + 1,
        forall|j: int|
            0 <= j < split(body.take(n), '.').len() - 1 ==> (#[trigger] split(
                body.take(n),
                '.',
            )[j]).len() > 0,
        forall|j: int|
            0 <= j < split(body.take(n), '.').len() ==> all_digits(
                #[trigger] split(body.take(n), '.')[j],
            ),
        split(body.take(n), '.').last().len() == 0 <==> (n == 0 || body[n - 1] == '.'),
    decreases n,
{
    let now = split(body.take(n), '.');
    if n == 0 {
        assert(body.take(0) =~= Seq::<char>::empty());
    } else {
        lemma_first_break_within(body, n - 1);
        assert(first_break_within(body, n - 1) == n - 1);
        assert(!breaks_at(body, n - 1));
        lemma_unbroken_pieces(body, n - 1);
        let before = split(body.take(n - 1), '.');
        assert(body.take(n).drop_last() =~= body.take(n - 1));
        assert(body.take(n).last() == body[n - 1]);
        if body[n - 1] == '.' {
            assert(now =~= before.push(Seq::empty()));
            assert forall|j: int| 0 <= j < now.len() - 1 implies (#[trigger] now[j]).len()
                > 0 by {
                assert(now[j] == before[j]);
            }
            assert forall|j: int| 0 <= j < now.len() implies all_digits(#[trigger] now[j]) by {
                if j < before.len() {
                    assert(now[j] == before[j]);
                }
            }
        } else {
            let grown = before.last().push(body[n - 1]);
            assert(now =~= before.drop_last().push(grown));
            assert forall|j: int| 0 <= j < now.len() - 1 implies (#[trigger] now[j]).len()
                > 0 by {
                assert(now[j] == before[j]);
            }
            assert forall|j: int| 0 <= j < now.len() implies all_digits(#[trigger] now[j]) by {
                if j < before.len() - 1 {
                    assert(now[j] == before[j]);
                } else {
                    assert(now[j] == grown);
                    assert(all_digits(before.last()));
                }
            }
        }
    }
}

/// The converse: a text that the dots cut into at most three runs of digits,
/// of which only the last may be empty, does not break. It has one dot less
/// than pieces, and at least one character for each dot and for each piece
/// that is not empty.
pub proof fn lemma_pieces_unbroken(body: Seq<char>, n: int)
    requires
        0 <= n <= body.len(),
        split(body.take(n), '.').len() <= 3,
        forall|j: int|
            0 <= j < split(body.take(n), '.').len() - 1 ==> (#[trigger] split(
                body.take(n),
                '.',
            )[j]).len() > 0,
        forall|j: int|
            0 <= j < split(body.take(n), '.').len() ==> all_digits(
                #[trigger] split(body.take(n), '.')[j],
            ),
    ensures
        first_break_within(body, n) == n,
        count_of(body.take(n), '.') == split(body.take(n), '.').len() - 1,
        n >= 2 * (split(body.take(n), '.').len() - 1) + (if split(
            body.take(n),
            '.',
        ).last().len() > 0 {
            1int
        } else {
            0int
        }),
        n > 0 && split(body.take(n), '.').last().len() > 0 ==> body[n - 1] != '.',
    decreases n,
{
    let now = split(body.take(n), '.');
    if n == 0 {
        assert(body.take(0) =~= Seq::<char>::empty());
    } else {
        let before = split(body.take(n - 1), '.');
        assert(body.take(n).drop_last() =~= body.take(n - 1));
        assert(body.take(n).last() == body[n - 1]);
        lemma_split_nonempty(body.take(n - 1), '.');
        if body[n - 1] == '.' {
            assert(now =~= before.push(Seq::empty()));
            assert forall|j: int| 0 <= j < before.len() implies (#[trigger] before[j]).len() > 0
                && all_digits(before[j]) by {
                assert(before[j] == now[j]);
            }
            lemma_pieces_unbroken(body, n - 1);
        } else {
            let grown = before.last().push(body[n - 1]);
            assert(now =~= before.drop_last().push(grown));
            assert(now.last() == grown);
            assert(all_digits(grown));
            assert(is_digit(grown[grown.len() - 1]));
            assert forall|j: int| 0 <= j < before.len() implies all_digits(
                #[trigger] before[j],
            ) by {
                if j < before.len() - 1 {
                    assert(before[j] == now[j]);
                } else {
                    assert forall|i: int| 0 <= i < before[j].len() implies is_digit(
                        #[trigger] before[j][i],
                    ) by {
                        assert(before[j][i] == grown[i]);
                    }
                }
            }
            assert forall|j: int| 0 <= j < before.len() - 1 implies (#[trigger] before[j]).len()
                > 0 by {
                assert(before[j] == now[j]);
            }
            lemma_pieces_unbroken(body, n - 1);
        }
    }
}

/// A text is accepted as the version of a new script exactly when it reads
/// as a version.
pub proof fn lemma_validation_agrees_with_parsing(s: Seq<char>)
    ensures
        version_text_fault(s) is None <==> parse_version(s) is Ok,
{
    if s.len() > 0 && s[0] == 'v' {
        let body = s.skip(1);
        let parts = split(body, '.');
        assert(body.take(body.len() as int) =~= body);
        if version_text_fault(s) is None {
            lemma_unbroken_pieces(body, body.len() as int);
            assert(parts.len() == 3);
            assert(parts[0].len() > 0 && parts[1].len() > 0 && parts[2].len() > 0);
            assert(all_digits(parts[0]) && all_digits(parts[1]) && all_digits(parts[2]));
        }
        if parse_version(s) is Ok {
            assert(parts.len() == 3);
            assert forall|j: int| 0 <= j < parts.len() implies (#[trigger] parts[j]).len() > 0
                && all_digits(parts[j]) && digits_value(parts[j]) <= u32::MAX by {
                if j == 0 {
                } else if j == 1 {
                } else {
                }
            }
            lemma_pieces_unbroken(body, body.len() as int);
        }
    }
}

/// The first fault of the characters of a version text, if it has one.
pub fn check_version_text(s: &[char]) -> (r: Option<VersionTextFault>)
    ensures
        r == version_text_fault(s@),
{
    if s.len() < 5 {
        return Some(VersionTextFault::TooShort);
    }
    if s[0] != 'v' {
        return Some(VersionTextFault::MissingPrefix);
    }
    let body = tail(s, 1);
    let mut dots: usize = 0;
    let mut digits = false;
    let mut i: usize = 0;
    while i < body.len()
        invariant
            s@.len() >= 5,
            s@[0] == 'v',
            body@ == s@.skip(1),
            i <= body.len(),
            first_break_within(body@, i as int) == i,
            dots == count_of(body@.take(i as int), '.'),
            dots <= 2,
            digits == (i > 0 && body@[i - 1] != '.'),
        decreases body.len() - i,
    {
        let c = body[i];
        proof {
            assert(body@.take(i + 1).drop_last() =~= body@.take(i as int));
            assert(body@.take(i + 1).last() == c);
        }
        if c == '.' {
            if !digits {
                proof {
                    lemma_first_break_stays(body@, i + 1, body@.len() as int);
                }
                return Some(VersionTextFault::EmptyPart);
            }
            if dots == 2 {
                proof {
                    lemma_first_break_stays(body@, i + 1, body@.len() as int);
                }
                return Some(VersionTextFault::TooManyDots);
            }
            dots += 1;
            digits = false;
        } else if is_digit_char(c) {
            digits = true;
        } else {
            proof {
                lemma_first_break_stays(body@, i + 1, body@.len() as int);
            }
            return Some(VersionTextFault::InvalidCharacter);
        }
        i += 1;
    }
    proof {
        assert(body@.take(i as int) =~= body@);
    }
    if dots != 2 {
        return Some(VersionTextFault::MissingDots);
    }
    if !digits {
        return Some(VersionTextFault::EmptyLastPart);
    }
    proof {
        lemma_unbroken_pieces(body@, body@.len() as int);
        let parts = split(body@, '.');
        assert(parts.len() == 3);
        assert(parts[0].len() > 0);
        assert(parts[1].len() > 0);
        assert(parts[2].len() > 0);
        assert(all_digits(parts[0]) && all_digits(parts[1]) && all_digits(parts[2]));
    }
    match parse_triple(body.as_slice()) {
        Ok(_) => None,
        Err(_) => Some(VersionTextFault::OutOfRange),
    }
}

/// A refusal to start a new script.
#[derive(Debug, Clone)]
pub struct TasklineInitializationError {
    /// What was wrong.
    pub details: String,
}

impl TasklineInitializationError {
    /// The refusal as one line of text.
    pub open spec fn text(&self) -> Seq<char> {
        "TasklineInitializationError: "@ + self.details@
    }

    /// Renders the refusal as one line of text.
    pub fn to_string(&self) -> (out: String)
        ensures
            out@ == self.text(),
    {
        String::from_str("TasklineInitializationError: ").concat(self.details.as_str())
    }
}

/// Checks that `version` can be the version of a new script: `v`, then three
/// numerals of at most 32 bits each with a dot between each two of them. Any
/// other text is refused with the message of its first fault.
pub fn validate_version(version: &str) -> (r: Result<(), TasklineInitializationError>)
    ensures
        match version_text_fault(version@) {
            None => r is Ok,
            Some(fault) => r matches Err(e) && e.details@ == fault.message(),
        },
{
    let chars = to_chars(version);
    match check_version_text(chars.as_slice()) {
        None => Ok(()),
        Some(fault) => Err(TasklineInitializationError { details: fault.to_message() }),
    }
}

/// The name of the file of a new script: the codename, then the text of the
/// version if it has one, then the extension, with a dot between each two of
/// them.
pub open spec fn script_name(codename: Seq<char>, version: Option<Version>) -> Seq<char> {
    match version {
        Some(v) => codename + seq!['.'] + v.text() + seq!['.'] + TASKLINE_EXTENSION@,
        None => codename + seq!['.'] + TASKLINE_EXTENSION@,
    }
}

/// Names the file of a new script.
pub fn script_file_name(codename: &str, version: Option<Version>) -> (out: String)
    ensures
        out@ == script_name(codename@, version),
{
    let mut chars = to_chars(codename);
    chars.push('.');
    match version {
        Some(v) => {
            v.push_text(&mut chars);
            chars.push('.');
        },
        None => {},
    }
    let mut extension = to_chars(TASKLINE_EXTENSION);
    chars.append(&mut extension);
    proof {
        assert(chars@ =~= script_name(codename@, version));
    }
    to_text(chars.as_slice())
}

/// A script to be created: the name of its file and what the file holds.
#[derive(Debug, Clone)]
pub struct NewScript {
    /// The name of the file, without any directory.
    pub file_name: String,
    /// The content of the file: the metadata header.
    pub content: String,
}

/// Plans a new script with the given codename and, if one is given, version
/// text. The version text is checked first, and a text with a fault is
/// refused with the message of that fault. Otherwise the file is named after
/// the codename and the version, and holds the header that states them.
pub fn new_script(codename: &str, version: Option<&str>) -> (r: Result<
    NewScript,
    TasklineInitializationError,
>)
    ensures
        match version {
            None => r matches Ok(script) && script.file_name@ == script_name(codename@, None)
                && script.content@ == header_text(codename@, None),
            Some(text) => match version_text_fault(text@) {
                Some(fault) => r matches Err(e) && e.details@ == fault.message(),
                None => r matches Ok(script) && parse_version(text@) matches Ok(v)
                    && script.file_name@ == script_name(codename@, Some(v)) && script.content@
                    == header_text(codename@, Some(v)),
            },
        },
{
    let version = match version {
        None => None,
        Some(text) => {
            let chars = to_chars(text);
            match check_version_text(chars.as_slice()) {
                Some(fault) => {
                    return Err(TasklineInitializationError { details: fault.to_message() });
                },
                None => {},
            }
            proof {
                lemma_validation_agrees_with_parsing(text@);
            }
            match Version::parse_chars(chars.as_slice()) {
                Ok(v) => Some(v),
                Err(_) => None,
            }
        },
    };
    let file_name = script_file_name(codename, version);
    let meta = TasklineMetadata { codename: String::from_str(codename), version };
    let content = meta.to_header();
    Ok(NewScript { file_name, content })
}

} // verus!
