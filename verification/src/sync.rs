//! Reconciling the local document with the remote field: which of the two is
//! newer decides whether to pull, to push, to report a conflict or to do
//! nothing. Also the two operations beside it, bump and reset, and the steps
//! that complete a document's references before any of them.

use crate::config::{lemma_write_keeps_plain_lines, Document, EnvFile};
use crate::header::{plain_lines, settled};
use crate::text::lines;
use crate::crypto::{decrypted, encrypted, Encryption};
use crate::error::{Cause, CliError};
use crate::secret::{json_fields, lists_names, AWSSecret};
use std::path::PathBuf;
use vstd::prelude::*;

verus! {

/// What reconciling decides.
#[derive(Clone, Copy, Debug, PartialEq, Eq, Structural)]
pub enum SyncAction {
    /// The remote document is newer: it replaces the local one.
    Pull,
    /// The local document is newer: it replaces the remote field.
    Push,
    /// Same version, different text: nothing is written.
    Conflict,
    /// Same version, same text: nothing to do.
    UpToDate,
}

/// A version for comparing: a missing one counts as 0.
pub open spec fn version_or_zero(version: Option<u32>) -> u32 {
    match version {
        Some(v) => v,
        None => 0,
    }
}

/// The decision for a local version, a remote version, and whether the two
/// texts are equal.
pub open spec fn decide(local: u32, remote: u32, same_text: bool) -> SyncAction {
    if local < remote {
        SyncAction::Pull
    } else if local > remote {
        SyncAction::Push
    } else if !same_text {
        SyncAction::Conflict
    } else {
        SyncAction::UpToDate
    }
}

/// The secret id and the field id of a document, both of which an operation
/// on the remote field needs.
pub open spec fn ids_of(doc: Document) -> Result<(Seq<char>, Seq<char>), Cause> {
    match doc.secret_id {
        None => Err(Cause::NoSecretId),
        Some(secret_id) => match doc.field_id {
            None => Err(Cause::NoFieldId),
            Some(field_id) => Ok((secret_id, field_id)),
        },
    }
}

/// The plain text of the field `field_id` of a secret, under `password`.
pub open spec fn field_text(
    fields: Map<Seq<char>, Seq<char>>,
    password: Seq<char>,
    field_id: Seq<char>,
) -> Result<Seq<char>, Cause> {
    if !fields.contains_key(field_id) {
        Err(Cause::NoSuchField(field_id))
    } else {
        decrypted(password, fields[field_id])
    }
}

/// The remote document: the field's text read as a document of its own,
/// with the references of the local document wherever its own headers name
/// none.
pub open spec fn remote_of(text: Seq<char>, secret_id: Seq<char>, field_id: Seq<char>) -> Result<
    Document,
    Cause,
> {
    match Document::read(None, text) {
        Err(cause) => Err(cause),
        Ok(doc) => Ok(
            Document {
                secret_id: Some(
                    match doc.secret_id {
                        Some(own) => own,
                        None => secret_id,
                    },
                ),
                field_id: Some(
                    match doc.field_id {
                        Some(own) => own,
                        None => field_id,
                    },
                ),
                ..doc
            },
        ),
    }
}

/// The remote document that belongs to `local`, as far as the secret's
/// fields and the password give one.
pub open spec fn remote_for(
    local: Document,
    fields: Map<Seq<char>, Seq<char>>,
    password: Seq<char>,
) -> Result<Document, Cause> {
    match ids_of(local) {
        Err(cause) => Err(cause),
        Ok((secret_id, field_id)) => match field_text(fields, password, field_id) {
            Err(cause) => Err(cause),
            Ok(text) => remote_of(text, secret_id, field_id),
        },
    }
}

/// `doc` at `path`, with its headers written into its body.
pub open spec fn written_at(doc: Document, path: PathBuf) -> Result<Document, Cause> {
    (Document { path: Some(path), ..doc }).written()
}

/// What one run of `sync` comes to.
pub enum Plan {
    /// Stop with an error; nothing changes.
    Fail(Cause),
    /// Replace the local file by this document.
    Pull(Document),
    /// Put `sealed` into the field `field_id` of the secret `secret_id`.
    Push { secret_id: Seq<char>, field_id: Seq<char>, sealed: Seq<char> },
    /// Report the conflict; nothing changes.
    Conflict,
    /// Report that the file is up to date; nothing changes.
    UpToDate,
}

/// What `sync` comes to for a local document, the fields of its secret, a
/// password and the path of the local file.
pub open spec fn plan(
    local: Document,
    fields: Map<Seq<char>, Seq<char>>,
    password: Seq<char>,
    path: PathBuf,
) -> Plan {
    match remote_for(local, fields, password) {
        Err(cause) => Plan::Fail(cause),
        Ok(remote) => match decide(
            version_or_zero(local.version),
            version_or_zero(remote.version),
            local.body == remote.body,
        ) {
            SyncAction::Pull => match written_at(remote, path) {
                Err(cause) => Plan::Fail(cause),
                Ok(written) => Plan::Pull(written),
            },
            SyncAction::Push => match encrypted(password, local.body) {
                Err(cause) => Plan::Fail(cause),
                Ok(sealed) => Plan::Push {
                    secret_id: local.secret_id.unwrap(),
                    field_id: local.field_id.unwrap(),
                    sealed,
                },
            },
            SyncAction::Conflict => Plan::Conflict,
            SyncAction::UpToDate => Plan::UpToDate,
        },
    }
}

/// What `reset` comes to: the remote document at `path`, with version 1 if
/// it has none of its own, and its headers written into its body.
pub open spec fn reset_plan(
    local: Document,
    fields: Map<Seq<char>, Seq<char>>,
    password: Seq<char>,
    path: PathBuf,
) -> Result<Document, Cause> {
    match remote_for(local, fields, password) {
        Err(cause) => Err(cause),
        Ok(remote) => written_at(
            Document {
                version: Some(
                    match remote.version {
                        Some(v) => v,
                        None => 1,
                    },
                ),
                ..remote
            },
            path,
        ),
    }
}

/// `doc` with its version raised by one, a missing version counting as 0.
pub open spec fn bumped(doc: Document) -> Document {
    Document { version: Some((version_or_zero(doc.version) + 1) as u32), ..doc }
}

/// What a pull hands back for the local file holds the remote document's
/// version and, as its lines that are no header lines, those of the remote
/// text, in order: nothing of the local text is left in it. This takes a
/// remote text whose lines are settled, and ids without a line feed.
pub proof fn lemma_pull_takes_the_remote_text(
    local: Document,
    fields: Map<Seq<char>, Seq<char>>,
    password: Seq<char>,
    path: PathBuf,
)
    requires
        plan(local, fields, password, path) is Pull,
        remote_for(local, fields, password) matches Ok(remote) && settled(lines(remote.body)) && (
        remote.secret_id matches Some(s) ==> !s.contains('\n')) && (
        remote.field_id matches Some(f) ==> !f.contains('\n')),
    ensures
        plan(local, fields, password, path) matches Plan::Pull(pulled) && remote_for(
            local,
            fields,
            password,
        ) matches Ok(remote) && pulled.version == remote.version && pulled.version is Some
            && version_or_zero(local.version) < pulled.version.unwrap() && pulled.path == Some(
            path,
        ) && plain_lines(lines(pulled.body)) == plain_lines(lines(remote.body)),
{
    let remote = remote_for(local, fields, password)->Ok_0;
    lemma_write_keeps_plain_lines(Document { path: Some(path), ..remote });
}

/// What `sync` did, and what is left for the caller to carry out.
#[derive(Debug)]
pub enum SyncOutcome {
    /// The local file is outdated: store this document at its path.
    Pulled(EnvFile),
    /// The remote field is outdated: store `payload` under `secret_id`.
    Pushed { secret_id: String, payload: String },
    /// Same version, different text. Nothing to store.
    Conflict,
    /// Same version, same text. Nothing to store.
    UpToDate,
}

/// What completing a document's references needs next.
#[derive(Debug)]
pub enum Step {
    /// The document names no secret: have one chosen among those in the store.
    ChooseSecret,
    /// Fetch the secret of this name from the store.
    FetchSecret(String),
    /// The document names no field: have one chosen among these.
    ChooseField(Vec<String>),
    /// Secret and field are known, and the secret is loaded.
    Ready,
}

/// The decision for two documents: by version, and by text where the
/// versions are equal. Exactly one action is chosen.
pub fn reconcile(local: &EnvFile, remote: &EnvFile) -> (action: SyncAction)
    ensures
        action == decide(
            version_or_zero(local.version),
            version_or_zero(remote.version),
            local.content@ == remote.content@,
        ),
        action is Pull <==> version_or_zero(local.version) < version_or_zero(remote.version),
        action is Push <==> version_or_zero(local.version) > version_or_zero(remote.version),
        action is Conflict <==> version_or_zero(local.version) == version_or_zero(remote.version)
            && local.content@ != remote.content@,
        action is UpToDate <==> version_or_zero(local.version) == version_or_zero(remote.version)
            && local.content@ == remote.content@,
{
    let local_version: u32 = match local.version {
        Some(v) => v,
        None => 0,
    };
    let remote_version: u32 = match remote.version {
        Some(v) => v,
        None => 0,
    };
    if local_version < remote_version {
        SyncAction::Pull
    } else if local_version > remote_version {
        SyncAction::Push
    } else if !(local.content == remote.content) {
        SyncAction::Conflict
    } else {
        SyncAction::UpToDate
    }
}

/// The secret id and the field id of `doc`, or the error for the one that
/// is missing, the secret id first.
pub fn required_ids(doc: &EnvFile) -> (res: Result<(String, String), CliError>)
    ensures
        match ids_of(doc@) {
            Ok((secret_id, field_id)) => res matches Ok(ids) && ids.0@ == secret_id && ids.1@
                == field_id,
            Err(cause) => res matches Err(e) && cause.describes(e@),
        },
{
    let secret_id = match &doc.secret_id {
        Some(s) => s.clone(),
        None => {
            return Err(
                CliError::InvalidEnvFileError(
                    "The secret file does not contain a secret ID.".to_string(),
                ),
            );
        },
    };
    let field_id = match &doc.field_id {
        Some(f) => f.clone(),
        None => {
            return Err(
                CliError::InvalidEnvFileError(
                    "The secret file does not contain a field ID.".to_string(),
                ),
            );
        },
    };
    Ok((secret_id, field_id))
}

/// The plain text that the secret holds under `field_id`.
pub fn remote_text(secret: &AWSSecret, encryption: &Encryption, field_id: String) -> (res: Result<
    String,
    CliError,
>)
    ensures
        match field_text(secret@, encryption.password(), field_id@) {
            Ok(text) => res matches Ok(out) && out@ == text,
            Err(cause) => res matches Err(e) && cause.describes(e@),
        },
{
    match secret.load_field(field_id) {
        Ok(sealed) => encryption.decrypt(sealed),
        Err(e) => Err(e),
    }
}

/// Reads the field's plain text as a document. Where its own headers name
/// no secret or no field, it gets those of the local document.
pub fn remote_document(text: String, secret_id: String, field_id: String) -> (res: Result<
    EnvFile,
    CliError,
>)
    ensures
        match remote_of(text@, secret_id@, field_id@) {
            Ok(doc) => res matches Ok(out) && out@ == doc,
            Err(cause) => res matches Err(e) && cause.describes(e@),
        },
{
    match EnvFile::new_remote(text) {
        Ok(mut doc) => {
            if doc.secret_id.is_none() {
                doc.secret_id = Some(secret_id);
            }
            if doc.field_id.is_none() {
                doc.field_id = Some(field_id);
            }
            Ok(doc)
        },
        Err(e) => Err(e),
    }
}

/// The remote document that belongs to `local`.
pub fn load_remote(local: &EnvFile, secret: &AWSSecret, encryption: &Encryption) -> (res: Result<
    EnvFile,
    CliError,
>)
    ensures
        match remote_for(local@, secret@, encryption.password()) {
            Ok(doc) => res matches Ok(out) && out@ == doc,
            Err(cause) => res matches Err(e) && cause.describes(e@),
        },
{
    let (secret_id, field_id) = match required_ids(local) {
        Ok(ids) => ids,
        Err(e) => {
            return Err(e);
        },
    };
    let text = match remote_text(secret, encryption, field_id.clone()) {
        Ok(text) => text,
        Err(e) => {
            return Err(e);
        },
    };
    remote_document(text, secret_id, field_id)
}

/// Reconciles the local document with the remote field, once.
///
/// Pull: the remote document, with `path` as its place and its headers
/// written, is handed back for the caller to store. Push: the local text is
/// encrypted and put into the secret under the local field id, and the
/// secret's new payload is handed back for the caller to store; the payload
/// reads back as the secret's fields, and the field decrypts to the local
/// text. Conflict and up to date: nothing changes. On any error nothing
/// changes either. Once the remote document is read, nothing can fail any
/// more.
pub fn sync(local: &EnvFile, secret: &mut AWSSecret, encryption: &Encryption, path: PathBuf) -> (res:
    Result<SyncOutcome, CliError>)
    ensures
        match plan(local@, old(secret)@, encryption.password(), path) {
            Plan::Fail(cause) => res matches Err(e) && cause.describes(e@)
                && final(secret)@ == old(secret)@,
            Plan::Pull(doc) => res matches Ok(SyncOutcome::Pulled(out)) && out@ == doc
                && final(secret)@ == old(secret)@,
            Plan::Push { secret_id, field_id, sealed } => res matches Ok(
                SyncOutcome::Pushed { secret_id: id, payload },
            ) && id@ == secret_id && final(secret)@ == old(secret)@.insert(field_id, sealed)
                && json_fields(payload@) == Some(final(secret)@) && decrypted(
                encryption.password(),
                sealed,
            ) == Ok::<Seq<char>, Cause>(local@.body),
            Plan::Conflict => res matches Ok(SyncOutcome::Conflict)
                && final(secret)@ == old(secret)@,
            Plan::UpToDate => res matches Ok(SyncOutcome::UpToDate)
                && final(secret)@ == old(secret)@,
        },
        remote_for(local@, old(secret)@, encryption.password()) is Ok ==> res is Ok,
{
    let mut remote = match load_remote(local, secret, encryption) {
        Ok(remote) => remote,
        Err(e) => {
            return Err(e);
        },
    };
    match reconcile(local, &remote) {
        SyncAction::Pull => {
            remote.filepath = Some(path);
            match remote.write() {
                Ok(()) => Ok(SyncOutcome::Pulled(remote)),
                Err(e) => Err(e),
            }
        },
        SyncAction::Push => {
            let (secret_id, field_id) = match required_ids(local) {
                Ok(ids) => ids,
                Err(e) => {
                    return Err(e);
                },
            };
            let sealed = match encryption.encrypt(local.content.clone()) {
                Ok(sealed) => sealed,
                Err(e) => {
                    return Err(e);
                },
            };
            let _ = secret.put_field(field_id, sealed);
            match secret.to_string() {
                Ok(payload) => Ok(SyncOutcome::Pushed { secret_id, payload }),
                Err(e) => Err(e),
            }
        },
        SyncAction::Conflict => Ok(SyncOutcome::Conflict),
        SyncAction::UpToDate => Ok(SyncOutcome::UpToDate),
    }
}

/// The remote document, made ready to replace the local file at `path`
/// whatever its version: it gets version 1 if it has none, and its headers
/// are written into its text.
pub fn reset(local: &EnvFile, secret: &AWSSecret, encryption: &Encryption, path: PathBuf) -> (res:
    Result<EnvFile, CliError>)
    ensures
        match reset_plan(local@, secret@, encryption.password(), path) {
            Ok(doc) => res matches Ok(out) && out@ == doc,
            Err(cause) => res matches Err(e) && cause.describes(e@),
        },
{
    let mut remote = match load_remote(local, secret, encryption) {
        Ok(remote) => remote,
        Err(e) => {
            return Err(e);
        },
    };
    if remote.version.is_none() {
        remote.version = Some(1);
    }
    remote.filepath = Some(path);
    match remote.write() {
        Ok(()) => Ok(remote),
        Err(e) => Err(e),
    }
}

/// Raises the version of `doc` by one, a missing version counting as 0, and
/// writes the headers. Returns the new version. Without a secret id the
/// headers cannot be written: the version is raised all the same, and the
/// error says what is missing.
pub fn bump(doc: &mut EnvFile) -> (res: Result<u32, CliError>)
    requires
        version_or_zero(old(doc).version) < u32::MAX,
    ensures
        match bumped(old(doc)@).written() {
            Ok(written) => res matches Ok(v) && Some(v) == written.version && final(doc)@
                == written,
            Err(cause) => res matches Err(e) && cause.describes(e@) && final(doc)@ == bumped(
                old(doc)@,
            ),
        },
{
    let current: u32 = match doc.version {
        Some(v) => v,
        None => 0,
    };
    let new_version: u32 = current + 1;
    doc.version = Some(new_version);
    match doc.write() {
        Ok(()) => Ok(new_version),
        Err(e) => Err(e),
    }
}

/// What is still missing before `doc` can be reconciled: first a secret id,
/// then the secret itself, then a field id.
pub fn next_step(doc: &EnvFile, secret: Option<&AWSSecret>) -> (step: Step)
    ensures
        doc.secret_id is None ==> step is ChooseSecret,
        doc.secret_id is Some && secret is None ==> (step matches Step::FetchSecret(id) && id
            == doc.secret_id.unwrap()),
        doc.secret_id is Some && secret is Some && doc.field_id is None ==> (
        step matches Step::ChooseField(names) && lists_names(names@, secret.unwrap()@)),
        doc.secret_id is Some && secret is Some && doc.field_id is Some ==> step is Ready,
{
    match &doc.secret_id {
        None => Step::ChooseSecret,
        Some(secret_id) => match secret {
            None => Step::FetchSecret(secret_id.clone()),
            Some(secret) => if doc.field_id.is_none() {
                Step::ChooseField(secret.list_fields())
            } else {
                Step::Ready
            },
        },
    }
}

/// Makes the name at `selection` the secret id of `doc`.
pub fn select_secret(doc: &mut EnvFile, names: &Vec<String>, selection: usize)
    requires
        selection < names@.len(),
    ensures
        final(doc)@ == (Document { secret_id: Some(names@[selection as int]@), ..old(doc)@ }),
{
    doc.secret_id = Some(names[selection].clone());
}

/// Makes the name at `selection` the field id of `doc`.
pub fn select_field(doc: &mut EnvFile, names: &Vec<String>, selection: usize)
    requires
        selection < names@.len(),
    ensures
        final(doc)@ == (Document { field_id: Some(names@[selection as int]@), ..old(doc)@ }),
{
    doc.field_id = Some(names[selection].clone());
}

} // verus!
