//! The header lines of a secrets file: three kinds of line, each a fixed
//! prefix, a space and a value. How they are read, and how they are written.

use crate::error::{Cause, CliError};
use crate::text::{
    chars_of, decimal, find_with_prefix, first_with_prefix, has_prefix, is_digit, join,
    lemma_decimal_digits, lemma_first_with_prefix, lemma_lines_of_join, lemma_parse_decimal,
    lemma_split_append, lines, parse_u32, rows, split, split_chars, trim_cr,
};
use vstd::prelude::*;

verus! {

/// Start of the line that holds the version.
pub const SECRETS_VERSION_HEADER: &'static str = "#do-not-edit--secrets-version";

/// Start of the line that names the remote secret.
pub const SECRETS_ID_HEADER: &'static str = "#do-not-edit--secrets-id";

/// Start of the line that names the field inside the remote secret.
pub const SECRETS_FIELD_ID_HEADER: &'static str = "#do-not-edit--secrets-field-id";

/// The three kinds of header line.
#[derive(Clone, Copy, Debug, PartialEq, Eq, Structural)]
pub enum HeaderKind {
    Version,
    SecretId,
    FieldId,
}

impl HeaderKind {
    /// The characters that a header line of this kind starts with.
    pub open spec fn prefix(self) -> Seq<char> {
        match self {
            HeaderKind::Version => SECRETS_VERSION_HEADER@,
            HeaderKind::SecretId => SECRETS_ID_HEADER@,
            HeaderKind::FieldId => SECRETS_FIELD_ID_HEADER@,
        }
    }

    /// What a malformed header line of this kind is reported as.
    pub open spec fn fault(self) -> Seq<char> {
        match self {
            HeaderKind::Version => "Invalid version in header"@,
            HeaderKind::SecretId => "Invalid secret_id in header"@,
            HeaderKind::FieldId => "Invalid field_id in header"@,
        }
    }

    /// The prefix of this kind, as characters.
    pub fn prefix_chars(self) -> (res: Vec<char>)
        ensures
            res@ == self.prefix(),
    {
        match self {
            HeaderKind::Version => chars_of(SECRETS_VERSION_HEADER),
            HeaderKind::SecretId => chars_of(SECRETS_ID_HEADER),
            HeaderKind::FieldId => chars_of(SECRETS_FIELD_ID_HEADER),
        }
    }

    /// The error for a malformed header line of this kind.
    pub fn invalid(self) -> (res: CliError)
        ensures
            Cause::Header(self).describes(res@),
    {
        match self {
            HeaderKind::Version => CliError::InvalidEnvFileError(
                "Invalid version in header".to_string(),
            ),
            HeaderKind::SecretId => CliError::InvalidEnvFileError(
                "Invalid secret_id in header".to_string(),
            ),
            HeaderKind::FieldId => CliError::InvalidEnvFileError(
                "Invalid field_id in header".to_string(),
            ),
        }
    }
}

/// The kind of header that `line` is, if it is one: the first kind, in the
/// order version, secret id, field id, whose prefix the line starts with.
pub open spec fn kind_of(line: Seq<char>) -> Option<HeaderKind> {
    if HeaderKind::Version.prefix().is_prefix_of(line) {
        Some(HeaderKind::Version)
    } else if HeaderKind::SecretId.prefix().is_prefix_of(line) {
        Some(HeaderKind::SecretId)
    } else if HeaderKind::FieldId.prefix().is_prefix_of(line) {
        Some(HeaderKind::FieldId)
    } else {
        None
    }
}

/// The value that a header line carries: the token that stands directly
/// behind the line's first space and ends before the next space, or at the
/// end of the line. `None` if the line has no space, and `None` as well if
/// no character stands between the first space and the next space or the
/// end of the line: a token is never empty, so a line that ends in its first
/// space carries no value, and neither does one with two spaces in a row
/// behind the prefix, whatever follows them.
pub open spec fn header_value(line: Seq<char>) -> Option<Seq<char>> {
    let pieces = split(line, ' ');
    if pieces.len() >= 2 && pieces[1].len() > 0 {
        Some(pieces[1])
    } else {
        None
    }
}

/// The header values of a document.
pub struct Headers {
    pub version: Option<u32>,
    pub secret_id: Option<Seq<char>>,
    pub field_id: Option<Seq<char>>,
}

impl Headers {
    /// No header set.
    pub open spec fn none() -> Headers {
        Headers { version: None, secret_id: None, field_id: None }
    }
}

/// The headers after reading one more line: a header line replaces the
/// value of its kind, any other line changes nothing. `Err` names the kind
/// of a header line that has no value, or whose version is no number.
pub open spec fn read_line(h: Headers, line: Seq<char>) -> Result<Headers, HeaderKind> {
    match kind_of(line) {
        None => Ok(h),
        Some(kind) => match header_value(line) {
            None => Err(kind),
            Some(value) => match kind {
                HeaderKind::Version => match parse_u32(value) {
                    Some(v) => Ok(Headers { version: Some(v), ..h }),
                    None => Err(kind),
                },
                HeaderKind::SecretId => Ok(Headers { secret_id: Some(value), ..h }),
                HeaderKind::FieldId => Ok(Headers { field_id: Some(value), ..h }),
            },
        },
    }
}

/// The headers after reading the lines `ls` in order, starting from `h`.
/// The first malformed header line ends the reading.
pub open spec fn read_lines(ls: Seq<Seq<char>>, h: Headers) -> Result<Headers, HeaderKind>
    decreases ls.len(),
{
    if ls.len() == 0 {
        Ok(h)
    } else {
        match read_lines(ls.drop_last(), h) {
            Ok(so_far) => read_line(so_far, ls.last()),
            Err(kind) => Err(kind),
        }
    }
}

/// Whether `line` is a header line that cannot be read: it has no value,
/// or it is a version line whose value is no number.
pub open spec fn malformed(line: Seq<char>) -> bool {
    match kind_of(line) {
        None => false,
        Some(kind) => match header_value(line) {
            None => true,
            Some(value) => kind == HeaderKind::Version && parse_u32(value) is None,
        },
    }
}

/// Reading fails exactly if some line is a malformed header line. The kind
/// reported is that of the first such line. In particular a text without
/// header lines always reads.
pub proof fn lemma_read_fails_on_malformed(ls: Seq<Seq<char>>, h: Headers)
    ensures
        read_lines(ls, h) is Err <==> exists|i: int| 0 <= i < ls.len() && malformed(#[trigger] ls[i]),
        read_lines(ls, h) matches Err(kind) ==> exists|i: int|
            0 <= i < ls.len() && malformed(#[trigger] ls[i]) && kind_of(ls[i]) == Some(kind)
                && forall|j: int| 0 <= j < i ==> !malformed(#[trigger] ls[j]),
    decreases ls.len(),
{
    if ls.len() > 0 {
        let head = ls.drop_last();
        let last = ls.len() - 1;
        lemma_read_fails_on_malformed(head, h);
        assert forall|j: int| 0 <= j < head.len() implies head[j] == ls[j] by {}
        if read_lines(head, h) is Err {
            let kind = read_lines(head, h)->Err_0;
            let i = choose|i: int|
                0 <= i < head.len() && malformed(#[trigger] head[i]) && kind_of(head[i]) == Some(
                    kind,
                ) && forall|j: int| 0 <= j < i ==> !malformed(#[trigger] head[j]);
            assert(malformed(ls[i]) && kind_of(ls[i]) == Some(kind));
            assert forall|j: int| 0 <= j < i implies !malformed(#[trigger] ls[j]) by {
                assert(head[j] == ls[j]);
            }
        } else {
            assert forall|j: int| 0 <= j < last implies !malformed(#[trigger] ls[j]) by {
                assert(head[j] == ls[j]);
            }
            if malformed(ls[last]) {
                assert(read_lines(ls, h) is Err);
            } else {
                assert(read_lines(ls, h) is Ok);
            }
        }
    }
}

/// Once a malformed header line has ended the reading, later lines change nothing.
pub proof fn lemma_read_lines_stops(ls: Seq<Seq<char>>, h: Headers, n: int)
    requires
        0 <= n <= ls.len(),
        read_lines(ls.take(n), h) is Err,
    ensures
        read_lines(ls, h) == read_lines(ls.take(n), h),
    decreases ls.len(),
{
    if n == ls.len() {
        assert(ls.take(n) == ls);
    } else {
        assert(ls.drop_last().take(n) == ls.take(n));
        lemma_read_lines_stops(ls.drop_last(), h, n);
    }
}

/// The header line of the given kind for `value`.
pub open spec fn header_line(kind: HeaderKind, value: Seq<char>) -> Seq<char> {
    kind.prefix().push(' ') + value
}

/// The lines `ls` with the header of the given kind set to `value`: the
/// first line of that kind is replaced where it stands; if there is none,
/// the new line goes to the top.
pub open spec fn put_header(ls: Seq<Seq<char>>, kind: HeaderKind, value: Seq<char>) -> Seq<
    Seq<char>,
> {
    match first_with_prefix(ls, kind.prefix()) {
        Some(i) => ls.update(i, header_line(kind, value)),
        None => seq![header_line(kind, value)] + ls,
    }
}

/// Tells which kind of header `line` is, if any.
pub fn kind_of_line(line: &Vec<char>) -> (res: Option<HeaderKind>)
    ensures
        res == kind_of(line@),
{
    if has_prefix(line, &HeaderKind::Version.prefix_chars()) {
        Some(HeaderKind::Version)
    } else if has_prefix(line, &HeaderKind::SecretId.prefix_chars()) {
        Some(HeaderKind::SecretId)
    } else if has_prefix(line, &HeaderKind::FieldId.prefix_chars()) {
        Some(HeaderKind::FieldId)
    } else {
        None
    }
}

/// Reads the value of a header line: the token behind its first space, if
/// there is one.
pub fn value_of(line: &Vec<char>) -> (res: Option<Vec<char>>)
    ensures
        match res {
            Some(v) => header_value(line@) == Some(v@),
            None => header_value(line@) is None,
        },
{
    let mut pieces = split_chars(line, ' ');
    let ghost all = rows(pieces@);
    if pieces.len() >= 2 && pieces[1].len() > 0 {
        assert(pieces[1]@ == all[1]);
        let value = pieces.swap_remove(1);
        assert(value@ == all[1]);
        Some(value)
    } else {
        assert(pieces.len() >= 2 ==> pieces[1]@ == all[1]);
        None
    }
}

/// Sets the header of the given kind in `ls` to `value`.
pub fn set_header(ls: &mut Vec<Vec<char>>, kind: HeaderKind, value: &Vec<char>)
    ensures
        rows(final(ls)@) == put_header(rows(old(ls)@), kind, value@),
{
    let prefix = kind.prefix_chars();
    let found = find_with_prefix(ls, &prefix);
    let mut line = prefix;
    line.push(' ');
    let mut j: usize = 0;
    while j < value.len()
        invariant
            j <= value.len(),
            line@ == kind.prefix().push(' ') + value@.take(j as int),
        decreases value.len() - j,
    {
        line.push(value[j]);
        j += 1;
    }
    assert(value@.take(value.len() as int) == value@);
    match found {
        Some(i) => {
            proof {
                lemma_first_with_prefix(rows(ls@), kind.prefix());
            }
            ls.set(i, line);
            assert(rows(ls@) == rows(old(ls)@).update(i as int, line@));
        },
        None => {
            ls.insert(0, line);
            assert(rows(ls@) == seq![line@] + rows(old(ls)@));
        },
    }
}

/// No header prefix holds a space, a line feed or a carriage return; each
/// is at least 23 characters long, and the three differ in their 23rd
/// character.
pub proof fn lemma_prefixes()
    ensures
        forall|kind: HeaderKind, i: int|
            0 <= i < kind.prefix().len() ==> (#[trigger] kind.prefix()[i]) != ' '
                && kind.prefix()[i] != '\n' && kind.prefix()[i] != '\r',
        forall|kind: HeaderKind| (#[trigger] kind.prefix()).len() >= 23,
        HeaderKind::Version.prefix()[22] == 'v',
        HeaderKind::SecretId.prefix()[22] == 'i',
        HeaderKind::FieldId.prefix()[22] == 'f',
{
    reveal_strlit("#do-not-edit--secrets-version");
    reveal_strlit("#do-not-edit--secrets-id");
    reveal_strlit("#do-not-edit--secrets-field-id");
    assert forall|kind: HeaderKind, i: int| 0 <= i < kind.prefix().len() implies (
    #[trigger] kind.prefix()[i]) != ' ' && kind.prefix()[i] != '\n' && kind.prefix()[i]
        != '\r' by {
        match kind {
            HeaderKind::Version => {},
            HeaderKind::SecretId => {},
            HeaderKind::FieldId => {},
        }
    }
}

/// A line starts with the prefix of at most one kind: the kind it is of.
pub proof fn lemma_kind_of(line: Seq<char>, kind: HeaderKind)
    ensures
        kind.prefix().is_prefix_of(line) <==> kind_of(line) == Some(kind),
{
    lemma_prefixes();
    assert forall|k: HeaderKind| (#[trigger] k.prefix()).is_prefix_of(line) implies line[22]
        == k.prefix()[22] by {
        assert(line.subrange(0, k.prefix().len() as int)[22] == line[22]);
    }
}

/// Taking a trailing carriage return off a line changes neither whether it
/// is a header line nor of which kind.
pub proof fn lemma_trim_keeps_kind(line: Seq<char>)
    ensures
        kind_of(trim_cr(line)) == kind_of(line),
{
    lemma_prefixes();
    if line.len() > 0 && line.last() == '\r' {
        let short = line.drop_last();
        assert forall|k: HeaderKind| (#[trigger] k.prefix()).is_prefix_of(short) == k.prefix().is_prefix_of(
            line,
        ) by {
            let p = k.prefix();
            if p.is_prefix_of(short) {
                assert(short.subrange(0, p.len() as int) == line.subrange(0, p.len() as int));
            }
            if p.is_prefix_of(line) {
                if p.len() == line.len() {
                    assert(line.subrange(0, p.len() as int) == line);
                    assert(p[p.len() - 1] == '\r');
                }
                assert(short.subrange(0, p.len() as int) == line.subrange(0, p.len() as int));
            }
        }
    }
}

/// A header line is of its kind, and carries its value if that is not
/// empty and holds no space.
pub proof fn lemma_header_line(kind: HeaderKind, value: Seq<char>)
    ensures
        kind_of(header_line(kind, value)) == Some(kind),
        value.len() > 0 && !value.contains(' ') ==> header_value(header_line(kind, value))
            == Some(value),
{
    lemma_prefixes();
    let p = kind.prefix();
    let line = header_line(kind, value);
    assert(p.is_prefix_of(line)) by {
        assert(line.subrange(0, p.len() as int) == p);
    }
    lemma_kind_of(line, kind);
    if !value.contains(' ') {
        let none = Seq::<char>::empty();
        assert(!p.contains(' '));
        lemma_split_append(none, p, ' ');
        assert(none + p == p);
        assert(split(none, ' ') == seq![none]);
        assert(split(p, ' ') == seq![p]) by {
            assert(seq![none].drop_last().push(seq![none].last() + p) == seq![p]);
        }
        let a = p.push(' ');
        assert(a.drop_last() == p);
        assert(split(a, ' ') == seq![p].push(none));
        lemma_split_append(a, value, ' ');
        assert(none + value == value);
        assert(split(line, ' ') == seq![p, value]) by {
            assert(seq![p].push(none).drop_last().push(value) == seq![p, value]);
        }
    }
}

/// Where reading succeeds, the last header line of a kind gives the value
/// of that kind: later lines of other kinds, and earlier lines of any kind,
/// do not change it.
pub proof fn lemma_last_header_wins(ls: Seq<Seq<char>>, h: Headers, kind: HeaderKind, i: int)
    requires
        0 <= i < ls.len(),
        kind_of(ls[i]) == Some(kind),
        forall|j: int| i < j < ls.len() ==> kind_of(#[trigger] ls[j]) != Some(kind),
        read_lines(ls, h) is Ok,
    ensures
        header_value(ls[i]) is Some,
        kind == HeaderKind::Version ==> read_lines(ls, h).unwrap().version == parse_u32(
            header_value(ls[i]).unwrap(),
        ) && parse_u32(header_value(ls[i]).unwrap()) is Some,
        kind == HeaderKind::SecretId ==> read_lines(ls, h).unwrap().secret_id == header_value(
            ls[i],
        ),
        kind == HeaderKind::FieldId ==> read_lines(ls, h).unwrap().field_id == header_value(ls[i]),
    decreases ls.len(),
{
    if i < ls.len() - 1 {
        let head = ls.drop_last();
        assert(head[i] == ls[i]);
        assert forall|j: int| i < j < head.len() implies kind_of(#[trigger] head[j]) != Some(
            kind,
        ) by {
            assert(head[j] == ls[j]);
        }
        lemma_last_header_wins(head, h, kind, i);
        assert(kind_of(ls[ls.len() - 1]) != Some(kind));
    }
}

/// Whether the line at `at` is the header line of the given kind for
/// `value`, and the only line of that kind.
pub open spec fn sole_header(ls: Seq<Seq<char>>, kind: HeaderKind, at: int, value: Seq<char>) -> bool {
    &&& 0 <= at < ls.len()
    &&& ls[at] == header_line(kind, value)
    &&& forall|j: int| 0 <= j < ls.len() && j != at ==> kind_of(#[trigger] ls[j]) != Some(kind)
}

/// Whether no line is a header line of the given kind.
pub open spec fn no_header(ls: Seq<Seq<char>>, kind: HeaderKind) -> bool {
    forall|j: int| 0 <= j < ls.len() ==> kind_of(#[trigger] ls[j]) != Some(kind)
}

/// Whether at most one line is a header line of the given kind.
pub open spec fn at_most_one(ls: Seq<Seq<char>>, kind: HeaderKind) -> bool {
    forall|i: int, j: int|
        0 <= i < ls.len() && 0 <= j < ls.len() && kind_of(#[trigger] ls[i]) == Some(kind)
            && kind_of(#[trigger] ls[j]) == Some(kind) ==> i == j
}

/// What the lines say of a kind: that its header is `Some` value, on one
/// line only, or that no line is of that kind.
pub open spec fn says(ls: Seq<Seq<char>>, kind: HeaderKind, value: Option<Seq<char>>) -> bool {
    if value is Some {
        exists|at: int| sole_header(ls, kind, at, value.unwrap())
    } else {
        no_header(ls, kind)
    }
}

/// A line that is the only header of its kind is what the lines say of that kind.
pub proof fn lemma_says(ls: Seq<Seq<char>>, kind: HeaderKind, at: int, value: Seq<char>)
    requires
        sole_header(ls, kind, at, value),
    ensures
        says(ls, kind, Some(value)),
{
    assert(Some(value).unwrap() == value);
}

/// Setting a header where at most one line was of its kind leaves exactly
/// one line of that kind, the new one.
pub proof fn lemma_put_header_sets(ls: Seq<Seq<char>>, kind: HeaderKind, value: Seq<char>)
    requires
        at_most_one(ls, kind),
    ensures
        says(put_header(ls, kind, value), kind, Some(value)),
{
    let after = put_header(ls, kind, value);
    let line = header_line(kind, value);
    lemma_first_with_prefix(ls, kind.prefix());
    lemma_header_line(kind, value);
    match first_with_prefix(ls, kind.prefix()) {
        Some(i) => {
            lemma_kind_of(ls[i], kind);
            assert forall|j: int| 0 <= j < after.len() && j != i implies kind_of(
                #[trigger] after[j],
            ) != Some(kind) by {
                assert(after[j] == ls[j]);
            }
            assert(sole_header(after, kind, i, value));
            lemma_says(after, kind, i, value);
        },
        None => {
            assert forall|j: int| 0 <= j < after.len() && j != 0 implies kind_of(
                #[trigger] after[j],
            ) != Some(kind) by {
                assert(after[j] == ls[j - 1]);
                lemma_kind_of(ls[j - 1], kind);
            }
            assert(sole_header(after, kind, 0, value));
            lemma_says(after, kind, 0, value);
        },
    }
}

/// Setting a header changes nothing of what the lines say of another kind.
pub proof fn lemma_put_header_keeps(
    ls: Seq<Seq<char>>,
    kind: HeaderKind,
    value: Seq<char>,
    other: HeaderKind,
    said: Option<Seq<char>>,
)
    requires
        other != kind,
    ensures
        says(ls, other, said) ==> says(put_header(ls, kind, value), other, said),
        at_most_one(ls, other) ==> at_most_one(put_header(ls, kind, value), other),
{
    let after = put_header(ls, kind, value);
    lemma_first_with_prefix(ls, kind.prefix());
    lemma_header_line(kind, value);
    match first_with_prefix(ls, kind.prefix()) {
        Some(i) => {
            lemma_kind_of(ls[i], kind);
            assert forall|j: int| 0 <= j < after.len() implies (kind_of(#[trigger] after[j])
                == Some(other) <==> kind_of(ls[j]) == Some(other)) by {
                if j != i {
                    assert(after[j] == ls[j]);
                }
            }
            if says(ls, other, said) {
                match said {
                    Some(v) => {
                        let at = choose|at: int| sole_header(ls, other, at, v);
                        lemma_header_line(other, v);
                        assert(after[at] == ls[at]);
                        assert(sole_header(after, other, at, v));
                        lemma_says(after, other, at, v);
                    },
                    None => {},
                }
            }
            if at_most_one(ls, other) {
                assert forall|a: int, b: int|
                    0 <= a < after.len() && 0 <= b < after.len() && kind_of(#[trigger] after[a])
                        == Some(other) && kind_of(#[trigger] after[b]) == Some(
                        other,
                    ) implies a == b by {
                    assert(kind_of(ls[a]) == Some(other));
                    assert(kind_of(ls[b]) == Some(other));
                }
            }
        },
        None => {
            assert forall|j: int| 1 <= j < after.len() implies #[trigger] after[j] == ls[j - 1] by {}
            if says(ls, other, said) {
                match said {
                    Some(v) => {
                        let at = choose|at: int| sole_header(ls, other, at, v);
                        assert(after[at + 1] == ls[at]);
                        assert forall|j: int| 0 <= j < after.len() && j != at + 1 implies kind_of(
                            #[trigger] after[j],
                        ) != Some(other) by {
                            if j >= 1 {
                                assert(after[j] == ls[j - 1]);
                            }
                        }
                        assert(sole_header(after, other, at + 1, v));
                        lemma_says(after, other, at + 1, v);
                    },
                    None => {
                        assert forall|j: int| 0 <= j < after.len() implies kind_of(
                            #[trigger] after[j],
                        ) != Some(other) by {
                            if j >= 1 {
                                assert(after[j] == ls[j - 1]);
                            }
                        }
                    },
                }
            }
            if at_most_one(ls, other) {
                assert forall|a: int, b: int|
                    0 <= a < after.len() && 0 <= b < after.len() && kind_of(#[trigger] after[a])
                        == Some(other) && kind_of(#[trigger] after[b]) == Some(
                        other,
                    ) implies a == b by {
                    assert(after[a] == ls[a - 1]);
                    assert(after[b] == ls[b - 1]);
                }
            }
        },
    }
}

/// Setting a header brings no line feed into the lines, if the value holds none.
pub proof fn lemma_put_header_line_feeds(ls: Seq<Seq<char>>, kind: HeaderKind, value: Seq<char>)
    requires
        forall|i: int| 0 <= i < ls.len() ==> !(#[trigger] ls[i]).contains('\n'),
        !value.contains('\n'),
    ensures
        put_header(ls, kind, value).len() >= 1,
        forall|i: int|
            0 <= i < put_header(ls, kind, value).len() ==> !(#[trigger] put_header(
                ls,
                kind,
                value,
            )[i]).contains('\n'),
{
    lemma_prefixes();
    lemma_first_with_prefix(ls, kind.prefix());
    let after = put_header(ls, kind, value);
    let line = header_line(kind, value);
    let p = kind.prefix();
    assert(!line.contains('\n')) by {
        if line.contains('\n') {
            let k = choose|k: int| 0 <= k < line.len() && line[k] == '\n';
            if k < p.len() {
                assert(p[k] == '\n');
            } else if k > p.len() {
                assert(value[k - p.len() - 1] == '\n');
            }
        }
    }
    assert forall|i: int| 0 <= i < after.len() implies !(#[trigger] after[i]).contains('\n') by {
        match first_with_prefix(ls, p) {
            Some(at) => {
                if i != at {
                    assert(after[i] == ls[i]);
                }
            },
            None => {
                if i >= 1 {
                    assert(after[i] == ls[i - 1]);
                }
            },
        }
    }
}

/// Whether a value can stand in a header line and be read back: it is not
/// empty, holds no space and no line feed, and does not end in a carriage
/// return.
pub open spec fn is_token(value: Seq<char>) -> bool {
    &&& value.len() > 0
    &&& !value.contains(' ')
    &&& !value.contains('\n')
    &&& value.last() != '\r'
}

/// Joining lines and splitting them again changes nothing of what they say
/// of a kind, if the value said is a token.
pub proof fn lemma_join_keeps(ls: Seq<Seq<char>>, kind: HeaderKind, said: Option<Seq<char>>)
    requires
        ls.len() >= 1,
        forall|i: int| 0 <= i < ls.len() ==> !(#[trigger] ls[i]).contains('\n'),
        says(ls, kind, said),
        said matches Some(v) ==> is_token(v),
    ensures
        says(lines(join(ls, '\n')), kind, said),
{
    lemma_lines_of_join(ls);
    lemma_prefixes();
    let after = lines(join(ls, '\n'));
    assert forall|j: int| 0 <= j < after.len() implies kind_of(#[trigger] after[j]) == kind_of(
        ls[j],
    ) by {
        if j < ls.len() - 1 {
            assert(after[j] == trim_cr(ls[j]));
            lemma_trim_keeps_kind(ls[j]);
        }
    }
    match said {
        Some(v) => {
            let at = choose|at: int| sole_header(ls, kind, at, v);
            let line = header_line(kind, v);
            lemma_header_line(kind, v);
            assert(line.len() > 0);
            assert(line.last() != '\r') by {
                if v.len() > 0 {
                    assert(line.last() == v.last());
                } else {
                    assert(line.last() == ' ');
                }
            }
            if at < ls.len() - 1 {
                assert(after[at] == trim_cr(ls[at]));
            }
            assert(after[at] == line);
            assert(sole_header(after, kind, at, v));
            lemma_says(after, kind, at, v);
        },
        None => {},
    }
}

/// Reading lines that say one value for each kind, or none, gives those
/// values, whatever stood there before for a kind that the lines speak of.
pub proof fn lemma_read_what_lines_say(
    ls: Seq<Seq<char>>,
    n: int,
    version: int,
    v: u32,
    secret_id: Option<(int, Seq<char>)>,
    field_id: Option<(int, Seq<char>)>,
)
    requires
        0 <= n <= ls.len(),
        sole_header(ls, HeaderKind::Version, version, decimal(v as nat)),
        match secret_id {
            Some((at, s)) => sole_header(ls, HeaderKind::SecretId, at, s) && s.len() > 0
                && !s.contains(' '),
            None => no_header(ls, HeaderKind::SecretId),
        },
        match field_id {
            Some((at, f)) => sole_header(ls, HeaderKind::FieldId, at, f) && f.len() > 0
                && !f.contains(' '),
            None => no_header(ls, HeaderKind::FieldId),
        },
    ensures
        read_lines(ls.take(n), Headers::none()) == Ok::<Headers, HeaderKind>(
            Headers {
                version: if version < n {
                    Some(v)
                } else {
                    None
                },
                secret_id: match secret_id {
                    Some((at, s)) => if at < n {
                        Some(s)
                    } else {
                        None
                    },
                    None => None,
                },
                field_id: match field_id {
                    Some((at, f)) => if at < n {
                        Some(f)
                    } else {
                        None
                    },
                    None => None,
                },
            },
        ),
    decreases n,
{
    if n == 0 {
        assert(ls.take(0) == Seq::<Seq<char>>::empty());
    } else {
        lemma_read_what_lines_say(ls, n - 1, version, v, secret_id, field_id);
        assert(ls.take(n).drop_last() == ls.take(n - 1));
        let line = ls[n - 1];
        assert(ls.take(n).last() == line);
        lemma_decimal_digits(v as nat);
        lemma_parse_decimal(v);
        let digits = decimal(v as nat);
        assert(!digits.contains(' ')) by {
            if digits.contains(' ') {
                let k = choose|k: int| 0 <= k < digits.len() && digits[k] == ' ';
                assert(is_digit(digits[k]));
            }
        }
        lemma_header_line(HeaderKind::Version, digits);
        match secret_id {
            Some((at, s)) => {
                lemma_header_line(HeaderKind::SecretId, s);
            },
            None => {},
        }
        match field_id {
            Some((at, f)) => {
                lemma_header_line(HeaderKind::FieldId, f);
            },
            None => {},
        }
    }
}

/// The lines of `ls` that are no header lines, in order.
pub open spec fn plain_lines(ls: Seq<Seq<char>>) -> Seq<Seq<char>>
    decreases ls.len(),
{
    if ls.len() == 0 {
        Seq::<Seq<char>>::empty()
    } else if kind_of(ls.last()) is None {
        plain_lines(ls.drop_last()).push(ls.last())
    } else {
        plain_lines(ls.drop_last())
    }
}

/// Two lists of lines that agree on where their header lines stand, and on
/// every other line, have the same plain lines.
pub proof fn lemma_plain_lines_alike(a: Seq<Seq<char>>, b: Seq<Seq<char>>)
    requires
        a.len() == b.len(),
        forall|i: int| 0 <= i < a.len() ==> (kind_of(#[trigger] a[i]) is None <==> kind_of(b[i]) is None),
        forall|i: int| 0 <= i < a.len() && kind_of(#[trigger] a[i]) is None ==> a[i] == b[i],
    ensures
        plain_lines(a) == plain_lines(b),
    decreases a.len(),
{
    if a.len() > 0 {
        let (x, y) = (a.drop_last(), b.drop_last());
        assert forall|i: int| 0 <= i < x.len() implies (kind_of(#[trigger] x[i]) is None
            <==> kind_of(y[i]) is None) by {
            assert(x[i] == a[i] && y[i] == b[i]);
        }
        assert forall|i: int| 0 <= i < x.len() && kind_of(#[trigger] x[i]) is None implies x[i]
            == y[i] by {
            assert(x[i] == a[i] && y[i] == b[i]);
        }
        lemma_plain_lines_alike(x, y);
        assert(kind_of(a[a.len() - 1]) is None <==> kind_of(b[a.len() - 1]) is None);
    }
}

/// Setting a header changes no plain line: it replaces a header line by a
/// header line, or puts a header line on top.
pub proof fn lemma_put_header_keeps_plain_lines(
    ls: Seq<Seq<char>>,
    kind: HeaderKind,
    value: Seq<char>,
)
    ensures
        plain_lines(put_header(ls, kind, value)) == plain_lines(ls),
{
    let line = header_line(kind, value);
    let after = put_header(ls, kind, value);
    lemma_first_with_prefix(ls, kind.prefix());
    lemma_header_line(kind, value);
    match first_with_prefix(ls, kind.prefix()) {
        Some(at) => {
            lemma_kind_of(ls[at], kind);
            assert forall|i: int| 0 <= i < ls.len() && kind_of(#[trigger] ls[i]) is None implies ls[i]
                == after[i] by {}
            lemma_plain_lines_alike(ls, after);
        },
        None => {
            lemma_plain_lines_under(line, ls);
        },
    }
}

/// A header line on top adds no plain line.
pub proof fn lemma_plain_lines_under(line: Seq<char>, ls: Seq<Seq<char>>)
    requires
        kind_of(line) is Some,
    ensures
        plain_lines(seq![line] + ls) == plain_lines(ls),
    decreases ls.len(),
{
    let all = seq![line] + ls;
    if ls.len() == 0 {
        assert(all.drop_last() == Seq::<Seq<char>>::empty());
        assert(all.last() == line);
        assert(plain_lines(all.drop_last()) == Seq::<Seq<char>>::empty());
        assert(plain_lines(all) == plain_lines(all.drop_last()));
    } else {
        assert(all.drop_last() == seq![line] + ls.drop_last());
        assert(all.last() == ls.last());
        lemma_plain_lines_under(line, ls.drop_last());
    }
}

/// Whether the lines read back as they are once they are joined: no plain
/// line before the last ends in a carriage return, and the last line is not
/// empty.
pub open spec fn settled(ls: Seq<Seq<char>>) -> bool {
    &&& forall|i: int|
        0 <= i < ls.len() - 1 && kind_of(#[trigger] ls[i]) is None ==> trim_cr(ls[i]) == ls[i]
    &&& ls.len() > 0 ==> ls.last().len() > 0
}

/// Setting a header leaves settled lines settled.
pub proof fn lemma_put_header_settled(ls: Seq<Seq<char>>, kind: HeaderKind, value: Seq<char>)
    requires
        settled(ls),
    ensures
        settled(put_header(ls, kind, value)),
{
    let line = header_line(kind, value);
    let after = put_header(ls, kind, value);
    lemma_first_with_prefix(ls, kind.prefix());
    lemma_header_line(kind, value);
    lemma_prefixes();
    assert(line.len() > 0);
    match first_with_prefix(ls, kind.prefix()) {
        Some(at) => {
            assert forall|i: int|
                0 <= i < after.len() - 1 && kind_of(#[trigger] after[i]) is None implies trim_cr(
                after[i],
            ) == after[i] by {
                if i != at {
                    assert(after[i] == ls[i]);
                }
            }
        },
        None => {
            assert forall|i: int|
                0 <= i < after.len() - 1 && kind_of(#[trigger] after[i]) is None implies trim_cr(
                after[i],
            ) == after[i] by {
                if i >= 1 {
                    assert(after[i] == ls[i - 1]);
                }
            }
            if ls.len() > 0 {
                assert(after.last() == ls.last());
            }
        },
    }
}

/// Joining settled lines and splitting them again changes no plain line.
pub proof fn lemma_join_keeps_plain_lines(ls: Seq<Seq<char>>)
    requires
        ls.len() >= 1,
        forall|i: int| 0 <= i < ls.len() ==> !(#[trigger] ls[i]).contains('\n'),
        settled(ls),
    ensures
        plain_lines(lines(join(ls, '\n'))) == plain_lines(ls),
{
    lemma_lines_of_join(ls);
    let after = lines(join(ls, '\n'));
    assert(after.len() == ls.len());
    assert forall|i: int| 0 <= i < ls.len() implies (kind_of(#[trigger] ls[i]) is None <==> kind_of(
        after[i],
    ) is None) && (kind_of(ls[i]) is None ==> ls[i] == after[i]) by {
        if i < ls.len() - 1 {
            assert(after[i] == trim_cr(ls[i]));
            lemma_trim_keeps_kind(ls[i]);
        } else {
            assert(after[i] == ls[i]);
        }
    }
    lemma_plain_lines_alike(ls, after);
}

} // verus!
