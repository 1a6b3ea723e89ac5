//! The local secrets file: a text whose lines may include three header lines
//! (version, secret id, field id) among otherwise opaque content.

use crate::error::{Cause, CliError};
use crate::header::{
    at_most_one, is_token, kind_of_line, lemma_join_keeps, lemma_join_keeps_plain_lines,
    lemma_put_header_keeps, lemma_put_header_keeps_plain_lines, lemma_put_header_line_feeds,
    lemma_put_header_sets, lemma_put_header_settled, lemma_read_lines_stops,
    lemma_read_what_lines_say, no_header, plain_lines, put_header, read_lines, says, set_header,
    settled, sole_header, value_of, HeaderKind, Headers,
};
use crate::text::{
    chars_of, decimal, decimal_chars, is_digit, join, join_chars, lemma_decimal_digits,
    lemma_lines_hold_no_line_feed, lines, parse_decimal, rows, split_lines, string_of,
};
use std::path::PathBuf;
use vstd::prelude::*;

verus! {

/// `std::path::PathBuf`, a location in the file system. The library only
/// carries it along.
#[verifier::external_type_specification]
#[verifier::external_body]
pub struct ExPathBuf(PathBuf);

/// A secrets file as contracts see it.
pub struct Document {
    pub path: Option<PathBuf>,
    pub body: Seq<char>,
    pub version: Option<u32>,
    pub secret_id: Option<Seq<char>>,
    pub field_id: Option<Seq<char>>,
}

impl Document {
    /// The header values of the document.
    pub open spec fn headers(self) -> Headers {
        Headers { version: self.version, secret_id: self.secret_id, field_id: self.field_id }
    }

    /// The document that the text `body`, found at `path`, reads as: its
    /// headers are what the header lines of the body say.
    pub open spec fn read(path: Option<PathBuf>, body: Seq<char>) -> Result<Document, Cause> {
        match read_lines(lines(body), Headers::none()) {
            Ok(h) => Ok(
                Document {
                    path,
                    body,
                    version: h.version,
                    secret_id: h.secret_id,
                    field_id: h.field_id,
                },
            ),
            Err(kind) => Err(Cause::Header(kind)),
        }
    }

    /// The lines of the body once the document's headers are written into
    /// it: the field id if there is one, then the secret id, then the
    /// version. This takes a secret id and a version.
    pub open spec fn written_lines(self) -> Seq<Seq<char>>
        recommends
            self.secret_id is Some,
            self.version is Some,
    {
        let with_field = match self.field_id {
            Some(f) => put_header(lines(self.body), HeaderKind::FieldId, f),
            None => lines(self.body),
        };
        let with_secret = put_header(with_field, HeaderKind::SecretId, self.secret_id.unwrap());
        put_header(with_secret, HeaderKind::Version, decimal(self.version.unwrap() as nat))
    }

    /// The body with the headers written into it: the written lines, joined
    /// by line feeds.
    pub open spec fn written_body(self) -> Seq<char>
        recommends
            self.secret_id is Some,
            self.version is Some,
    {
        join(self.written_lines(), '\n')
    }

    /// Whether the document can be written and read back unchanged: no kind
    /// of header stands on two lines of the body, the body has a field id
    /// line only if the document has a field id, and the secret id and the
    /// field id are tokens.
    pub open spec fn well_formed(self) -> bool {
        &&& at_most_one(lines(self.body), HeaderKind::Version)
        &&& at_most_one(lines(self.body), HeaderKind::SecretId)
        &&& at_most_one(lines(self.body), HeaderKind::FieldId)
        &&& self.field_id is None ==> no_header(lines(self.body), HeaderKind::FieldId)
        &&& self.secret_id matches Some(s) ==> is_token(s)
        &&& self.field_id matches Some(f) ==> is_token(f)
    }

    /// What `write` comes to: the document with its headers written into
    /// its body, if it has a secret id and a version.
    pub open spec fn written(self) -> Result<Document, Cause> {
        if self.secret_id is None {
            Err(Cause::SecretIdNotSet)
        } else if self.version is None {
            Err(Cause::VersionNotSet)
        } else {
            Ok(Document { body: self.written_body(), ..self })
        }
    }
}

/// Writing a well-formed document and reading the text that this leaves
/// gives the document's version, secret id and field id back: the written
/// document reads as itself.
pub proof fn lemma_write_then_parse(doc: Document)
    requires
        doc.well_formed(),
        doc.secret_id is Some,
        doc.version is Some,
    ensures
        doc.written() matches Ok(written) && written.headers() == doc.headers() && Document::read(
            written.path,
            written.body,
        ) == Ok::<Document, Cause>(written),
{
    let version = HeaderKind::Version;
    let secret = HeaderKind::SecretId;
    let field = HeaderKind::FieldId;
    let s = doc.secret_id.unwrap();
    let v = doc.version.unwrap();
    let digits = decimal(v as nat);
    let l0 = lines(doc.body);
    lemma_lines_hold_no_line_feed(doc.body);
    let l1 = match doc.field_id {
        Some(f) => put_header(l0, field, f),
        None => l0,
    };
    match doc.field_id {
        Some(f) => {
            lemma_put_header_sets(l0, field, f);
            lemma_put_header_keeps(l0, field, f, secret, None);
            lemma_put_header_keeps(l0, field, f, version, None);
            lemma_put_header_line_feeds(l0, field, f);
        },
        None => {},
    }
    assert(says(l1, field, doc.field_id));
    let l2 = put_header(l1, secret, s);
    lemma_put_header_sets(l1, secret, s);
    lemma_put_header_keeps(l1, secret, s, field, doc.field_id);
    lemma_put_header_keeps(l1, secret, s, version, None);
    lemma_put_header_line_feeds(l1, secret, s);
    lemma_decimal_digits(v as nat);
    assert(is_token(digits)) by {
        if digits.contains(' ') {
            let k = choose|k: int| 0 <= k < digits.len() && digits[k] == ' ';
            assert(is_digit(digits[k]));
        }
        if digits.contains('\n') {
            let k = choose|k: int| 0 <= k < digits.len() && digits[k] == '\n';
            assert(is_digit(digits[k]));
        }
        assert(is_digit(digits[digits.len() - 1]));
    }
    let l3 = put_header(l2, version, digits);
    lemma_put_header_sets(l2, version, digits);
    lemma_put_header_keeps(l2, version, digits, secret, Some(s));
    lemma_put_header_keeps(l2, version, digits, field, doc.field_id);
    lemma_put_header_line_feeds(l2, version, digits);
    assert(l3 == doc.written_lines());
    lemma_join_keeps(l3, version, Some(digits));
    lemma_join_keeps(l3, secret, Some(s));
    lemma_join_keeps(l3, field, doc.field_id);
    let read = lines(join(l3, '\n'));
    assert(Some(digits).unwrap() == digits);
    assert(Some(s).unwrap() == s);
    let at_version = choose|at: int| sole_header(read, version, at, digits);
    let at_secret = choose|at: int| sole_header(read, secret, at, s);
    let at_field = match doc.field_id {
        Some(f) => Some((choose|at: int| sole_header(read, field, at, f), f)),
        None => None,
    };
    lemma_read_what_lines_say(
        read,
        read.len() as int,
        at_version,
        v,
        Some((at_secret, s)),
        at_field,
    );
    assert(read.take(read.len() as int) == read);
}

/// Writing the headers changes no other line: the lines of the written
/// document that are no header lines are those of the body, in order.
pub proof fn lemma_written_lines_keep_plain_lines(doc: Document)
    ensures
        plain_lines(doc.written_lines()) == plain_lines(lines(doc.body)),
{
    let l0 = lines(doc.body);
    let l1 = match doc.field_id {
        Some(f) => put_header(l0, HeaderKind::FieldId, f),
        None => l0,
    };
    match doc.field_id {
        Some(f) => {
            lemma_put_header_keeps_plain_lines(l0, HeaderKind::FieldId, f);
        },
        None => {},
    }
    let l2 = put_header(l1, HeaderKind::SecretId, doc.secret_id.unwrap());
    lemma_put_header_keeps_plain_lines(l1, HeaderKind::SecretId, doc.secret_id.unwrap());
    lemma_put_header_keeps_plain_lines(
        l2,
        HeaderKind::Version,
        decimal(doc.version.unwrap() as nat),
    );
}

/// Reading the text that `write` leaves gives the lines of the body that
/// are no header lines back, in order, and no others. This takes a body
/// whose lines are settled, and ids without a line feed: a carriage return
/// at the end of a line, an empty last line, or a line feed inside an id,
/// would not read back as it was written.
pub proof fn lemma_write_keeps_plain_lines(doc: Document)
    requires
        doc.secret_id is Some,
        doc.version is Some,
        settled(lines(doc.body)),
        doc.secret_id matches Some(s) ==> !s.contains('\n'),
        doc.field_id matches Some(f) ==> !f.contains('\n'),
    ensures
        doc.written() matches Ok(written) && plain_lines(lines(written.body)) == plain_lines(
            lines(doc.body),
        ),
{
    let s = doc.secret_id.unwrap();
    let digits = decimal(doc.version.unwrap() as nat);
    let l0 = lines(doc.body);
    lemma_lines_hold_no_line_feed(doc.body);
    let l1 = match doc.field_id {
        Some(f) => put_header(l0, HeaderKind::FieldId, f),
        None => l0,
    };
    match doc.field_id {
        Some(f) => {
            lemma_put_header_line_feeds(l0, HeaderKind::FieldId, f);
            lemma_put_header_settled(l0, HeaderKind::FieldId, f);
        },
        None => {},
    }
    let l2 = put_header(l1, HeaderKind::SecretId, s);
    lemma_put_header_line_feeds(l1, HeaderKind::SecretId, s);
    lemma_put_header_settled(l1, HeaderKind::SecretId, s);
    lemma_decimal_digits(doc.version.unwrap() as nat);
    assert(!digits.contains('\n')) by {
        if digits.contains('\n') {
            let k = choose|k: int| 0 <= k < digits.len() && digits[k] == '\n';
            assert(is_digit(digits[k]));
        }
    }
    let l3 = put_header(l2, HeaderKind::Version, digits);
    lemma_put_header_line_feeds(l2, HeaderKind::Version, digits);
    lemma_put_header_settled(l2, HeaderKind::Version, digits);
    assert(l3 == doc.written_lines());
    lemma_join_keeps_plain_lines(l3);
    lemma_written_lines_keep_plain_lines(doc);
}

/// The characters of an optional string.
pub open spec fn text_of(s: Option<String>) -> Option<Seq<char>> {
    match s {
        Some(s) => Some(s@),
        None => None,
    }
}

/// The text of a file that may not exist: a missing file counts as empty.
pub open spec fn text_or_empty(existing: Option<String>) -> Seq<char> {
    match existing {
        Some(text) => text@,
        None => Seq::<char>::empty(),
    }
}

/// A local secrets file, or the text of a remote field read as one.
#[derive(Debug)]
pub struct EnvFile {
    /// Where the file lives; `None` for a text that came from the remote field.
    pub filepath: Option<PathBuf>,
    /// The whole text, header lines included.
    pub content: String,
    /// The version; a missing version counts as 0 when versions are compared.
    pub version: Option<u32>,
    /// The remote secret that the file belongs to.
    pub secret_id: Option<String>,
    /// The field of that secret that holds the file.
    pub field_id: Option<String>,
}

impl View for EnvFile {
    type V = Document;

    open spec fn view(&self) -> Document {
        Document {
            path: self.filepath,
            body: self.content@,
            version: self.version,
            secret_id: text_of(self.secret_id),
            field_id: text_of(self.field_id),
        }
    }
}

impl EnvFile {
    /// The document for a local file: `existing` is the text found at
    /// `filepath`, `None` if there is no file yet, which counts as empty.
    pub fn new_local(filepath: PathBuf, existing: Option<String>) -> (res: Result<Self, CliError>)
        ensures
            match Document::read(Some(filepath), text_or_empty(existing)) {
                Ok(doc) => res matches Ok(out) && out@ == doc,
                Err(cause) => res matches Err(e) && cause.describes(e@),
            },
    {
        let content = match existing {
            Some(text) => text,
            None => String::new(),
        };
        let mut env_file = EnvFile {
            filepath: Some(filepath),
            content,
            version: None,
            secret_id: None,
            field_id: None,
        };
        match env_file.parse() {
            Ok(()) => Ok(env_file),
            Err(e) => Err(e),
        }
    }

    /// The document for a text that came from the remote field.
    pub fn new_remote(content: String) -> (res: Result<Self, CliError>)
        ensures
            match Document::read(None, content@) {
                Ok(doc) => res matches Ok(out) && out@ == doc && out.content == content,
                Err(cause) => res matches Err(e) && cause.describes(e@),
            },
    {
        let mut env_file = EnvFile {
            filepath: None,
            content,
            version: None,
            secret_id: None,
            field_id: None,
        };
        match env_file.parse() {
            Ok(()) => Ok(env_file),
            Err(e) => Err(e),
        }
    }

    /// Reads the header lines of the content into the header fields. Every
    /// line is looked at, wherever it stands; of several header lines of one
    /// kind the last one counts. On a malformed header line nothing changes.
    pub fn parse(&mut self) -> (res: Result<(), CliError>)
        ensures
            match read_lines(lines(old(self).content@), old(self)@.headers()) {
                Ok(h) => res is Ok && final(self)@.headers() == h && final(self).content == old(
                    self,
                ).content && final(self).filepath == old(self).filepath,
                Err(kind) => res matches Err(e) && Cause::Header(kind).describes(e@)
                    && *final(self) == *old(self),
            },
    {
        let chars = chars_of(self.content.as_str());
        let ls = split_lines(&chars);
        let mut version: Option<u32> = self.version;
        let mut secret_id: Option<Vec<char>> = None;
        let mut field_id: Option<Vec<char>> = None;
        let ghost start = self@.headers();
        let ghost all = rows(ls@);
        let mut i: usize = 0;
        while i < ls.len()
            invariant
                i <= ls.len(),
                all == rows(ls@),
                read_lines(all.take(i as int), start) == Ok::<Headers, HeaderKind>(
                    Headers {
                        version,
                        secret_id: match secret_id {
                            Some(s) => Some(s@),
                            None => start.secret_id,
                        },
                        field_id: match field_id {
                            Some(f) => Some(f@),
                            None => start.field_id,
                        },
                    },
                ),
                all == lines(old(self).content@),
                start == old(self)@.headers(),
                *self == *old(self),
            decreases ls.len() - i,
        {
            let line = &ls[i];
            proof {
                assert(all.take(i + 1).drop_last() == all.take(i as int));
                assert(all.take(i + 1).last() == line@);
            }
            if let Some(kind) = kind_of_line(line) {
                match value_of(line) {
                    None => {
                        proof {
                            lemma_read_lines_stops(all, start, i + 1);
                        }
                        return Err(kind.invalid());
                    },
                    Some(value) => match kind {
                        HeaderKind::Version => match parse_decimal(&value) {
                            Some(v) => {
                                version = Some(v);
                            },
                            None => {
                                proof {
                                    lemma_read_lines_stops(all, start, i + 1);
                                }
                                return Err(kind.invalid());
                            },
                        },
                        HeaderKind::SecretId => {
                            secret_id = Some(value);
                        },
                        HeaderKind::FieldId => {
                            field_id = Some(value);
                        },
                    },
                }
            }
            i += 1;
        }
        proof {
            assert(all.take(ls.len() as int) == all);
        }
        self.version = version;
        if let Some(s) = secret_id {
            self.secret_id = Some(string_of(&s));
        }
        if let Some(f) = field_id {
            self.field_id = Some(string_of(&f));
        }
        Ok(())
    }

    /// Writes the headers into the content: the field id if it is set, then
    /// the secret id, then the version. Each replaces the first line of its
    /// kind, or goes to the top if there is none. The lines are joined by
    /// line feeds. Without a secret id or without a version nothing changes.
    pub fn write(&mut self) -> (res: Result<(), CliError>)
        ensures
            match old(self)@.written() {
                Ok(doc) => res is Ok && final(self)@ == doc,
                Err(cause) => res matches Err(e) && cause.describes(e@) && *final(self) == *old(
                    self,
                ),
            },
    {
        let chars = chars_of(self.content.as_str());
        let mut ls = split_lines(&chars);
        if let Some(field_id) = &self.field_id {
            let value = chars_of(field_id.as_str());
            set_header(&mut ls, HeaderKind::FieldId, &value);
        }
        if let Some(secret_id) = &self.secret_id {
            let value = chars_of(secret_id.as_str());
            set_header(&mut ls, HeaderKind::SecretId, &value);
        } else {
            return Err(CliError::InvalidEnvFileError("Secret ID is not set".to_string()));
        }
        if let Some(version) = self.version {
            let value = decimal_chars(version);
            set_header(&mut ls, HeaderKind::Version, &value);
        } else {
            return Err(CliError::InvalidEnvFileError("Version is not set".to_string()));
        }
        let joined = join_chars(&ls, '\n');
        self.content = string_of(&joined);
        Ok(())
    }
}

} // verus!
