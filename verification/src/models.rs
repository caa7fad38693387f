//! Installed models: what belongs to a model, and whether it is all there.
//!
//! What is on disk comes in as plain facts; the decisions are made here.

use vstd::prelude::*;

use crate::paths;
use crate::paths::{joining, PathStyle};
use crate::text;

verus! {

/// The engine that a model is for.
#[derive(Debug, Clone, Copy, PartialEq, Eq, Structural)]
pub enum ModelEngine {
    Whisper,
    Parakeet,
    Nemotron,
}

impl ModelEngine {
    /// The name of an engine.
    pub open spec fn name(self) -> Seq<char> {
        match self {
            ModelEngine::Whisper => "whisper"@,
            ModelEngine::Parakeet => "parakeet"@,
            ModelEngine::Nemotron => "nemotron"@,
        }
    }

    pub fn as_str(self) -> (r: &'static str)
        ensures
            r@ == self.name(),
    {
        match self {
            ModelEngine::Whisper => "whisper",
            ModelEngine::Parakeet => "parakeet",
            ModelEngine::Nemotron => "nemotron",
        }
    }
}

/// How the files of a Parakeet model are laid out.
#[derive(Debug, Clone, Copy, PartialEq, Eq, Structural)]
pub enum ModelLayout {
    ParakeetTdt,
    ParakeetUnified,
}

/// How an engine wants a model: as its directory, or as one file in it.
#[derive(Debug, Clone, PartialEq, Eq)]
pub enum ModelStorage {
    Directory,
    File { artifact: String },
}

/// A file of a model.
#[derive(Debug, Clone, PartialEq, Eq)]
pub struct RemoteFile {
    pub url: String,
    pub path: String,
    pub size_bytes: Option<u64>,
    pub sha256: Option<String>,
}

/// What is installed for a model.
#[derive(Debug, Clone, PartialEq, Eq)]
pub struct InstallSpec {
    pub id: String,
    pub engine: ModelEngine,
    pub storage: ModelStorage,
    pub files: Vec<RemoteFile>,
}

/// How much of a model is installed.
#[derive(Debug, Clone, PartialEq, Eq)]
pub struct ModelStatus {
    pub id: String,
    pub installed: bool,
    pub bytes_on_disk: u64,
    pub missing_files: Vec<String>,
    pub directory: String,
}

/// What a [`ModelStatus`] holds.
#[verifier::ext_equal]
pub ghost struct ModelStatusText {
    pub id: Seq<char>,
    pub installed: bool,
    pub bytes_on_disk: u64,
    pub missing_files: Seq<Seq<char>>,
    pub directory: Seq<char>,
}

impl View for ModelStatus {
    type V = ModelStatusText;

    open spec fn view(&self) -> ModelStatusText {
        ModelStatusText {
            id: self.id@,
            installed: self.installed,
            bytes_on_disk: self.bytes_on_disk,
            missing_files: text::texts(self.missing_files@),
            directory: self.directory@,
        }
    }
}

/// A model that can be loaded.
#[derive(Debug, Clone, PartialEq, Eq)]
pub struct ResolvedModel {
    pub id: String,
    pub path: String,
    pub engine: ModelEngine,
}

/// What a [`ResolvedModel`] holds.
#[verifier::ext_equal]
pub ghost struct ResolvedText {
    pub id: Seq<char>,
    pub path: Seq<char>,
    pub engine: ModelEngine,
}

impl View for ResolvedModel {
    type V = ResolvedText;

    open spec fn view(&self) -> ResolvedText {
        ResolvedText { id: self.id@, path: self.path@, engine: self.engine }
    }
}

/// Why a model cannot be used.
#[derive(Debug, Clone, PartialEq, Eq)]
pub enum ModelError {
    InvalidId(String),
    InvalidPath(String),
    NotInstalled { id: String, missing: Vec<String> },
    Unknown(String),
    NeedsDirectory { engine: ModelEngine, reference: String },
    UnreadableMetadata(String),
    UnreadableContents(String),
    UnexpectedSize { path: String, expected: u64, actual: u64 },
    UnexpectedSha256 { path: String, wanted: String, found: String },
}

/// What a [`ModelError`] holds.
pub ghost enum ModelErrorText {
    InvalidId(Seq<char>),
    InvalidPath(Seq<char>),
    NotInstalled { id: Seq<char>, missing: Seq<Seq<char>> },
    Unknown(Seq<char>),
    NeedsDirectory { engine: ModelEngine, reference: Seq<char> },
    UnreadableMetadata(Seq<char>),
    UnreadableContents(Seq<char>),
    UnexpectedSize { path: Seq<char>, expected: u64, actual: u64 },
    UnexpectedSha256 { path: Seq<char>, wanted: Seq<char>, found: Seq<char> },
}

impl View for ModelError {
    type V = ModelErrorText;

    open spec fn view(&self) -> ModelErrorText {
        match *self {
            ModelError::InvalidId(id) => ModelErrorText::InvalidId(id@),
            ModelError::InvalidPath(path) => ModelErrorText::InvalidPath(path@),
            ModelError::NotInstalled { id, missing } => ModelErrorText::NotInstalled {
                id: id@,
                missing: text::texts(missing@),
            },
            ModelError::Unknown(reference) => ModelErrorText::Unknown(reference@),
            ModelError::NeedsDirectory { engine, reference } => ModelErrorText::NeedsDirectory {
                engine,
                reference: reference@,
            },
            ModelError::UnreadableMetadata(path) => ModelErrorText::UnreadableMetadata(path@),
            ModelError::UnreadableContents(path) => ModelErrorText::UnreadableContents(path@),
            ModelError::UnexpectedSize { path, expected, actual } => ModelErrorText::UnexpectedSize {
                path: path@,
                expected,
                actual,
            },
            ModelError::UnexpectedSha256 { path, wanted, found } =>
                ModelErrorText::UnexpectedSha256 {
                path: path@,
                wanted: wanted@,
                found: found@,
            },
        }
    }
}

/// What is shown for an error.
pub open spec fn error_message(e: ModelErrorText) -> Seq<char> {
    match e {
        ModelErrorText::InvalidId(id) => "Invalid model id: "@ + id,
        ModelErrorText::InvalidPath(path) => "Invalid model file path: "@ + path,
        ModelErrorText::NotInstalled { id, missing } => id + " is not fully installed. Missing: "@
            + text::joined(missing, ", "@),
        ModelErrorText::Unknown(reference) => "Unknown model: "@ + reference,
        ModelErrorText::NeedsDirectory { engine, reference } => engine.name()
            + " models require a directory: "@ + reference,
        ModelErrorText::UnreadableMetadata(path) => "read metadata for "@ + path,
        ModelErrorText::UnreadableContents(path) => "checksum "@ + path,
        ModelErrorText::UnexpectedSize { path, expected, actual } => path
            + " has unexpected size: expected "@ + text::decimal(expected as nat) + ", got "@
            + text::decimal(actual as nat),
        ModelErrorText::UnexpectedSha256 { path, wanted, found } => path
            + " has unexpected sha256: expected "@ + wanted + ", got "@ + found,
    }
}

impl ModelError {
    /// What is shown for an error.
    pub fn message(&self) -> (r: String)
        ensures
            r@ == error_message(self@),
    {
        match self {
            ModelError::InvalidId(id) => text::concat2("Invalid model id: ", id.as_str()),
            ModelError::InvalidPath(path) => text::concat2(
                "Invalid model file path: ",
                path.as_str(),
            ),
            ModelError::NotInstalled { id, missing } => {
                let list = text::join(missing.as_slice(), ", ");
                text::concat3(id.as_str(), " is not fully installed. Missing: ", list.as_str())
            },
            ModelError::Unknown(reference) => text::concat2("Unknown model: ", reference.as_str()),
            ModelError::NeedsDirectory { engine, reference } => text::concat3(
                engine.as_str(),
                " models require a directory: ",
                reference.as_str(),
            ),
            ModelError::UnreadableMetadata(path) => text::concat2(
                "read metadata for ",
                path.as_str(),
            ),
            ModelError::UnreadableContents(path) => text::concat2("checksum ", path.as_str()),
            ModelError::UnexpectedSize { path, expected, actual } => {
                let mut out = path.clone();
                out.append(" has unexpected size: expected ");
                let wanted = text::decimal_of(*expected as u128);
                out.append(wanted.as_str());
                out.append(", got ");
                let found = text::decimal_of(*actual as u128);
                out.append(found.as_str());
                out
            },
            ModelError::UnexpectedSha256 { path, wanted, found } => {
                let mut out = path.clone();
                out.append(" has unexpected sha256: expected ");
                out.append(wanted.as_str());
                out.append(", got ");
                out.append(found.as_str());
                out
            },
        }
    }
}

// ---------------------------------------------------------------------------
// Validation
// ---------------------------------------------------------------------------

/// Whether a character may stand in the identifier of a model.
pub open spec fn id_char(c: char) -> bool {
    ||| 'a' <= c && c <= 'z'
    ||| 'A' <= c && c <= 'Z'
    ||| '0' <= c && c <= '9'
    ||| c == '-' || c == '_' || c == '.'
}

/// Whether a text identifies a model: it is a plain directory name.
pub open spec fn valid_id(id: Seq<char>) -> bool {
    &&& id.len() > 0
    &&& id != "."@
    &&& id != ".."@
    &&& forall|i: int| 0 <= i < id.len() ==> id_char(#[trigger] id[i])
}

/// Whether a path leads down from where it starts.
pub open spec fn valid_path(style: PathStyle, path: Seq<char>) -> bool {
    let pieces = paths::pieces(style, path);
    &&& path.len() > 0
    &&& !paths::separator(style, path[0])
    &&& !paths::has_drive(style, path)
    &&& pieces[0] != "."@
    &&& forall|i: int| 0 <= i < pieces.len() ==> #[trigger] pieces[i] != ".."@
}

/// The first invalid path of a list of files.
pub open spec fn invalid_file(style: PathStyle, files: Seq<RemoteFile>) -> Option<Seq<char>>
    decreases files.len(),
{
    if files.len() == 0 {
        None
    } else {
        let before = invalid_file(style, files.drop_last());
        if before is Some {
            before
        } else if valid_path(style, files.last().path@) {
            None
        } else {
            Some(files.last().path@)
        }
    }
}

/// What is wrong with a specification, if anything: its identifier, its
/// artifact, or the first invalid path of its files.
pub open spec fn spec_error(style: PathStyle, spec: InstallSpec) -> Option<ModelErrorText> {
    if !valid_id(spec.id@) {
        Some(ModelErrorText::InvalidId(spec.id@))
    } else if spec.storage matches ModelStorage::File { artifact } && !valid_path(style, artifact@) {
        Some(ModelErrorText::InvalidPath(spec.storage->artifact@))
    } else if invalid_file(style, spec.files@) is Some {
        Some(ModelErrorText::InvalidPath(invalid_file(style, spec.files@)->0))
    } else {
        None
    }
}

fn is_id_char(c: char) -> (r: bool)
    ensures
        r == id_char(c),
{
    ('a' <= c && c <= 'z') || ('A' <= c && c <= 'Z') || ('0' <= c && c <= '9') || c == '-' || c
        == '_' || c == '.'
}

/// Accepts identifiers that are plain directory names.
pub fn validate_model_id(id: &str) -> (r: Result<(), ModelError>)
    ensures
        match r {
            Ok(_) => valid_id(id@),
            Err(e) => !valid_id(id@) && e@ == ModelErrorText::InvalidId(id@),
        },
{
    if id.is_empty() || text::same(id, ".") || text::same(id, "..") {
        return Err(ModelError::InvalidId(text::owned(id)));
    }
    let x = text::chars_of(id);
    let mut i: usize = 0;
    while i < x.len()
        invariant
            x@ == id@,
            i <= x@.len(),
            forall|j: int| 0 <= j < i ==> id_char(#[trigger] x@[j]),
        decreases x@.len() - i,
    {
        if !is_id_char(x[i]) {
            assert(!id_char(id@[i as int]));
            return Err(ModelError::InvalidId(text::owned(id)));
        }
        i += 1;
    }
    Ok(())
}

fn is_valid_path(style: PathStyle, path: &str) -> (r: bool)
    ensures
        r == valid_path(style, path@),
{
    if path.is_empty() {
        return false;
    }
    if paths::begins_with_separator(style, path) || paths::begins_with_drive(style, path) {
        return false;
    }
    let pieces = paths::path_pieces(style, path);
    let ghost all = text::texts(pieces@);
    assert(all[0] == pieces@[0]@);
    if text::same(pieces[0].as_str(), ".") {
        return false;
    }
    let mut i: usize = 0;
    while i < pieces.len()
        invariant
            all == text::texts(pieces@),
            all == paths::pieces(style, path@),
            i <= pieces@.len(),
            forall|j: int| 0 <= j < i ==> #[trigger] all[j] != ".."@,
        decreases pieces@.len() - i,
    {
        assert(all[i as int] == pieces@[i as int]@);
        if text::same(pieces[i].as_str(), "..") {
            return false;
        }
        i += 1;
    }
    true
}

/// Accepts relative paths that lead down from where they start.
pub fn validate_relative_file_path(style: PathStyle, path: &str) -> (r: Result<(), ModelError>)
    ensures
        match r {
            Ok(_) => valid_path(style, path@),
            Err(e) => !valid_path(style, path@) && e@ == ModelErrorText::InvalidPath(path@),
        },
{
    if is_valid_path(style, path) {
        Ok(())
    } else {
        Err(ModelError::InvalidPath(text::owned(path)))
    }
}

proof fn lemma_invalid_file_stuck(style: PathStyle, files: Seq<RemoteFile>, k: int)
    requires
        0 <= k <= files.len(),
        invalid_file(style, files.take(k)) is Some,
    ensures
        invalid_file(style, files) == invalid_file(style, files.take(k)),
    decreases files.len() - k,
{
    if k == files.len() {
        assert(files.take(k) =~= files);
    } else {
        assert(files.take(k + 1).drop_last() =~= files.take(k));
        lemma_invalid_file_stuck(style, files, k + 1);
    }
}

/// Accepts specifications whose identifier and paths stay inside the cache.
pub fn validate_spec(style: PathStyle, spec: &InstallSpec) -> (r: Result<(), ModelError>)
    ensures
        match r {
            Ok(_) => spec_error(style, *spec) is None,
            Err(e) => spec_error(style, *spec) == Some(e@),
        },
{
    if let Err(e) = validate_model_id(spec.id.as_str()) {
        return Err(e);
    }
    match &spec.storage {
        ModelStorage::Directory => {},
        ModelStorage::File { artifact } => {
            if let Err(e) = validate_relative_file_path(style, artifact.as_str()) {
                return Err(e);
            }
        },
    }
    let mut i: usize = 0;
    while i < spec.files.len()
        invariant
            i <= spec.files@.len(),
            valid_id(spec.id@),
            spec.storage matches ModelStorage::File { artifact } ==> valid_path(style, artifact@),
            invalid_file(style, spec.files@.take(i as int)) is None,
        decreases spec.files@.len() - i,
    {
        proof {
            let next = spec.files@.take(i + 1);
            assert(next.drop_last() =~= spec.files@.take(i as int));
            assert(next.last() == spec.files@[i as int]);
        }
        if let Err(e) = validate_relative_file_path(style, spec.files[i].path.as_str()) {
            proof {
                lemma_invalid_file_stuck(style, spec.files@, i + 1);
            }
            return Err(e);
        }
        i += 1;
    }
    assert(spec.files@.take(i as int) =~= spec.files@);
    Ok(())
}

/// Where a model is loaded from.
pub open spec fn artifact_in(style: PathStyle, dir: Seq<char>, storage: ModelStorage) -> Seq<char> {
    match storage {
        ModelStorage::Directory => dir,
        ModelStorage::File { artifact } => paths::joined(style, dir, artifact@),
    }
}

fn artifact_of(style: PathStyle, dir: &str, storage: &ModelStorage) -> (r: String)
    ensures
        r@ == artifact_in(style, dir@, *storage),
{
    match storage {
        ModelStorage::Directory => text::owned(dir),
        ModelStorage::File { artifact } => paths::join(style, dir, artifact.as_str()),
    }
}

// ---------------------------------------------------------------------------
// What is on disk
// ---------------------------------------------------------------------------

/// What is on disk in the place of a file of a model.
#[derive(Debug, Clone, Copy, PartialEq, Eq, Structural)]
pub struct FileFact {
    pub is_file: bool,
    /// Its size, where that can be read.
    pub size: Option<u64>,
}

/// Whether a file is there in the size that is expected of it.
pub open spec fn ready(file: RemoteFile, fact: FileFact) -> bool {
    fact.is_file && (file.size_bytes is Some ==> fact.size == file.size_bytes)
}

/// The paths of the files that are not ready.
pub open spec fn missing(files: Seq<RemoteFile>, facts: Seq<FileFact>) -> Seq<Seq<char>>
    decreases files.len(),
{
    if files.len() == 0 {
        seq![]
    } else {
        let before = missing(files.drop_last(), facts);
        if ready(files.last(), facts[files.len() - 1]) {
            before
        } else {
            before.push(files.last().path@)
        }
    }
}

/// Whether a file is there in the size that is expected of it.
pub fn file_ready(file: &RemoteFile, fact: FileFact) -> (r: bool)
    ensures
        r == ready(*file, fact),
{
    if !fact.is_file {
        return false;
    }
    match file.size_bytes {
        Some(expected) => match fact.size {
            Some(actual) => actual == expected,
            None => false,
        },
        None => true,
    }
}

/// The paths of the files that are not ready.
pub fn missing_files(files: &[RemoteFile], facts: &[FileFact]) -> (r: Vec<String>)
    requires
        facts@.len() == files@.len(),
    ensures
        text::texts(r@) == missing(files@, facts@),
{
    broadcast use text::lemma_texts_push;

    let mut out: Vec<String> = Vec::new();
    let mut i: usize = 0;
    assert(text::texts(out@) =~= Seq::<Seq<char>>::empty());
    while i < files.len()
        invariant
            facts@.len() == files@.len(),
            i <= files@.len(),
            text::texts(out@) == missing(files@.take(i as int), facts@),
        decreases files@.len() - i,
    {
        proof {
            assert(files@.take(i + 1).drop_last() =~= files@.take(i as int));
            assert(files@.take(i + 1).last() == files@[i as int]);
        }
        if !file_ready(&files[i], facts[i]) {
            out.push(files[i].path.clone());
        }
        i += 1;
    }
    assert(files@.take(i as int) =~= files@);
    out
}

/// The status of a model, from what is in its directory.
pub open spec fn status_in(
    style: PathStyle,
    dir: Seq<char>,
    spec: InstallSpec,
    facts: Seq<FileFact>,
    dir_bytes: Option<u64>,
) -> ModelStatusText {
    ModelStatusText {
        id: spec.id@,
        installed: missing(spec.files@, facts).len() == 0 && dir_bytes is Some,
        bytes_on_disk: match dir_bytes {
            Some(bytes) => bytes,
            None => 0,
        },
        missing_files: missing(spec.files@, facts),
        directory: artifact_in(style, dir, spec.storage),
    }
}

fn status_from_spec(
    style: PathStyle,
    dir: &str,
    spec: &InstallSpec,
    facts: &[FileFact],
    dir_bytes: Option<u64>,
) -> (r: ModelStatus)
    requires
        facts@.len() == spec.files@.len(),
    ensures
        r@ == status_in(style, dir@, *spec, facts@, dir_bytes),
{
    let missing_files = missing_files(spec.files.as_slice(), facts);
    assert(text::texts(missing_files@).len() == missing_files@.len());
    let installed = missing_files.len() == 0 && dir_bytes.is_some();
    ModelStatus {
        id: spec.id.clone(),
        installed,
        bytes_on_disk: match dir_bytes {
            Some(bytes) => bytes,
            None => 0,
        },
        missing_files,
        directory: artifact_of(style, dir, &spec.storage),
    }
}

/// What is on disk under a loose reference.
#[derive(Debug, Clone)]
pub struct LooseFacts {
    /// The reference itself is a file.
    pub is_file: bool,
    /// The reference itself is a directory.
    pub is_dir: bool,
    /// It is a file in the cache.
    pub cached_file: bool,
    /// It is a directory in the cache.
    pub cached_dir: bool,
    /// What that directory holds.
    pub entries: Vec<DirEntryFact>,
}

/// An entry of a directory.
#[derive(Debug, Clone)]
pub struct DirEntryFact {
    pub path: String,
    pub is_file: bool,
}

/// Whether an entry is a file whose name does not start with a dot.
pub open spec fn visible_file(style: PathStyle, entry: DirEntryFact) -> bool {
    entry.is_file && !(paths::file_name_of(style, entry.path@) matches Some(name) && text::begins_with(
        name,
        "."@,
    ))
}

/// The visible files among the entries of a directory.
pub open spec fn visible_files(style: PathStyle, entries: Seq<DirEntryFact>) -> Seq<Seq<char>>
    decreases entries.len(),
{
    if entries.len() == 0 {
        seq![]
    } else {
        let before = visible_files(style, entries.drop_last());
        if visible_file(style, entries.last()) {
            before.push(entries.last().path@)
        } else {
            before
        }
    }
}

/// The only visible file of a directory.
pub open spec fn single_file(style: PathStyle, entries: Seq<DirEntryFact>) -> Option<Seq<char>> {
    if visible_files(style, entries).len() == 1 {
        Some(visible_files(style, entries)[0])
    } else {
        None
    }
}

fn is_visible_file(style: PathStyle, entry: &DirEntryFact) -> (r: bool)
    ensures
        r == visible_file(style, *entry),
{
    if !entry.is_file {
        return false;
    }
    match paths::file_name(style, entry.path.as_str()) {
        Some(name) => !text::starts_with(name.as_str(), "."),
        None => true,
    }
}

/// The only visible file of a directory.
pub fn single_file_in_dir(style: PathStyle, entries: &[DirEntryFact]) -> (r: Option<String>)
    ensures
        text::opt_text(r) == single_file(style, entries@),
{
    broadcast use text::lemma_texts_push;

    let mut found: Vec<String> = Vec::new();
    let mut i: usize = 0;
    assert(text::texts(found@) =~= Seq::<Seq<char>>::empty());
    while i < entries.len()
        invariant
            i <= entries@.len(),
            text::texts(found@) == visible_files(style, entries@.take(i as int)),
        decreases entries@.len() - i,
    {
        proof {
            assert(entries@.take(i + 1).drop_last() =~= entries@.take(i as int));
            assert(entries@.take(i + 1).last() == entries@[i as int]);
        }
        if is_visible_file(style, &entries[i]) {
            found.push(entries[i].path.clone());
        }
        i += 1;
    }
    proof {
        assert(entries@.take(i as int) =~= entries@);
        assert(text::texts(found@).len() == found@.len());
    }
    if found.len() == 1 {
        assert(text::texts(found@)[0] == found@[0]@);
        Some(found[0].clone())
    } else {
        None
    }
}

/// Where a loose reference leads.
pub open spec fn loose_path(
    style: PathStyle,
    cache_dir: Seq<char>,
    reference: Seq<char>,
    engine: ModelEngine,
    facts: LooseFacts,
) -> Option<Seq<char>> {
    let cached = paths::joined(style, cache_dir, reference);
    if engine == ModelEngine::Whisper {
        if facts.is_file {
            Some(reference)
        } else if facts.cached_file {
            Some(cached)
        } else {
            single_file(style, facts.entries@)
        }
    } else {
        if facts.is_dir {
            Some(reference)
        } else if facts.cached_dir {
            Some(cached)
        } else {
            None
        }
    }
}

/// What was read of a file of a model.
#[derive(Debug, Clone)]
pub struct FileEvidence {
    /// Its size, where that could be read.
    pub size: Option<u64>,
    /// The digest of its contents in hexadecimal, where they could be read.
    pub sha256: Option<String>,
}

/// What is wrong with a file, if anything.
pub open spec fn file_error(
    style: PathStyle,
    dir: Seq<char>,
    file: RemoteFile,
    seen: FileEvidence,
) -> Option<ModelErrorText> {
    if file.size_bytes is Some && seen.size is None {
        Some(ModelErrorText::UnreadableMetadata(file.path@))
    } else if file.size_bytes is Some && seen.size != file.size_bytes {
        Some(
            ModelErrorText::UnexpectedSize {
                path: file.path@,
                expected: file.size_bytes->0,
                actual: seen.size->0,
            },
        )
    } else if file.sha256 is Some && seen.sha256 is None {
        Some(ModelErrorText::UnreadableContents(paths::joined(style, dir, file.path@)))
    } else if file.sha256 is Some && text::ascii_lower(text::opt_text(seen.sha256)->0)
        != text::ascii_lower(text::opt_text(file.sha256)->0) {
        Some(
            ModelErrorText::UnexpectedSha256 {
                path: file.path@,
                wanted: text::opt_text(file.sha256)->0,
                found: text::opt_text(seen.sha256)->0,
            },
        )
    } else {
        None
    }
}

/// Holds a file against its specification.
pub fn verify_file(
    style: PathStyle,
    dir: &str,
    file: &RemoteFile,
    seen: &FileEvidence,
) -> (r: Result<(), ModelError>)
    ensures
        match r {
            Ok(_) => file_error(style, dir@, *file, *seen) is None,
            Err(e) => file_error(style, dir@, *file, *seen) == Some(e@),
        },
{
    if let Some(expected) = file.size_bytes {
        match seen.size {
            None => {
                return Err(ModelError::UnreadableMetadata(file.path.clone()));
            },
            Some(actual) => {
                if actual != expected {
                    return Err(
                        ModelError::UnexpectedSize { path: file.path.clone(), expected, actual },
                    );
                }
            },
        }
    }
    if let Some(expected) = &file.sha256 {
        match &seen.sha256 {
            None => {
                return Err(ModelError::UnreadableContents(paths::join(style, dir, file.path.as_str())));
            },
            Some(actual) => {
                if !text::eq_ignore_ascii_case(actual.as_str(), expected.as_str()) {
                    return Err(
                        ModelError::UnexpectedSha256 {
                            path: file.path.clone(),
                            wanted: expected.clone(),
                            found: actual.clone(),
                        },
                    );
                }
            },
        }
    }
    Ok(())
}

/// What is wrong with the first file that is not as specified.
pub open spec fn first_file_error(
    style: PathStyle,
    dir: Seq<char>,
    files: Seq<RemoteFile>,
    seen: Seq<FileEvidence>,
) -> Option<ModelErrorText>
    decreases files.len(),
{
    if files.len() == 0 {
        None
    } else {
        let before = first_file_error(style, dir, files.drop_last(), seen);
        if before is Some {
            before
        } else {
            file_error(style, dir, files.last(), seen[files.len() - 1])
        }
    }
}

proof fn lemma_first_file_error_stuck(
    style: PathStyle,
    dir: Seq<char>,
    files: Seq<RemoteFile>,
    seen: Seq<FileEvidence>,
    k: int,
)
    requires
        0 <= k <= files.len(),
        first_file_error(style, dir, files.take(k), seen) is Some,
    ensures
        first_file_error(style, dir, files, seen) == first_file_error(style, dir, files.take(k), seen),
    decreases files.len() - k,
{
    if k == files.len() {
        assert(files.take(k) =~= files);
    } else {
        assert(files.take(k + 1).drop_last() =~= files.take(k));
        lemma_first_file_error_stuck(style, dir, files, seen, k + 1);
    }
}

// ---------------------------------------------------------------------------
// The manager
// ---------------------------------------------------------------------------

/// The models in a cache directory.
#[derive(Debug, Clone)]
pub struct ModelInstallManager {
    cache_dir: String,
    style: PathStyle,
}

/// What a [`ModelInstallManager`] holds.
#[verifier::ext_equal]
pub ghost struct CacheText {
    pub dir: Seq<char>,
    pub style: PathStyle,
}

impl View for ModelInstallManager {
    type V = CacheText;

    closed spec fn view(&self) -> CacheText {
        CacheText { dir: self.cache_dir@, style: self.style }
    }
}

impl ModelInstallManager {
    /// The models in a directory whose path is written in a given style.
    pub fn new(cache_dir: &str, style: PathStyle) -> (r: Self)
        ensures
            r@ == (CacheText { dir: cache_dir@, style }),
    {
        ModelInstallManager { cache_dir: text::owned(cache_dir), style }
    }

    /// How the paths of the cache are written.
    pub fn style(&self) -> (r: PathStyle)
        ensures
            r == self@.style,
    {
        self.style
    }

    pub fn cache_dir(&self) -> (r: &str)
        ensures
            r@ == self@.dir,
    {
        self.cache_dir.as_str()
    }

    /// The directory of a model.
    pub fn model_dir(&self, id: &str) -> (r: String)
        ensures
            r@ == paths::joined(self@.style, self@.dir, id@),
    {
        paths::join(self.style, self.cache_dir.as_str(), id)
    }

    /// Where a model is loaded from.
    pub fn artifact_path(&self, spec: &InstallSpec) -> (r: String)
        ensures
            r@ == artifact_in(
                self@.style,
                paths::joined(self@.style, self@.dir, spec.id@),
                spec.storage,
            ),
    {
        let dir = self.model_dir(spec.id.as_str());
        artifact_of(self.style, dir.as_str(), &spec.storage)
    }

    /// The status of a model. `facts` tell of its files in order; `dir_bytes`
    /// is the size of its directory, where that exists.
    pub fn status(
        &self,
        spec: &InstallSpec,
        facts: &[FileFact],
        dir_bytes: Option<u64>,
    ) -> (r: Result<ModelStatus, ModelError>)
        requires
            facts@.len() == spec.files@.len(),
        ensures
            match r {
                Ok(status) => spec_error(self@.style, *spec) is None && status@ == status_in(
                    self@.style,
                    paths::joined(self@.style, self@.dir, spec.id@),
                    *spec,
                    facts@,
                    dir_bytes,
                ),
                Err(e) => spec_error(self@.style, *spec) == Some(e@),
            },
    {
        match validate_spec(self.style, spec) {
            Err(e) => Err(e),
            Ok(_) => {
                let dir = self.model_dir(spec.id.as_str());
                Ok(status_from_spec(self.style, dir.as_str(), spec, facts, dir_bytes))
            },
        }
    }

    /// A model that can be loaded. Whisper models are taken as they are;
    /// others have to be installed in full.
    pub fn resolve(
        &self,
        spec: &InstallSpec,
        facts: &[FileFact],
        dir_bytes: Option<u64>,
    ) -> (r: Result<ResolvedModel, ModelError>)
        requires
            facts@.len() == spec.files@.len(),
        ensures
            match r {
                Ok(resolved) => {
                    &&& spec_error(self@.style, *spec) is None
                    &&& spec.engine == ModelEngine::Whisper || status_in(
                        self@.style,
                        paths::joined(self@.style, self@.dir, spec.id@),
                        *spec,
                        facts@,
                        dir_bytes,
                    ).installed
                    &&& resolved@ == (ResolvedText {
                        id: spec.id@,
                        path: artifact_in(
                            self@.style,
                            paths::joined(self@.style, self@.dir, spec.id@),
                            spec.storage,
                        ),
                        engine: spec.engine,
                    })
                },
                Err(e) => {
                    ||| spec_error(self@.style, *spec) == Some(e@)
                    ||| spec_error(self@.style, *spec) is None && spec.engine != ModelEngine::Whisper
                        && !status_in(
                        self@.style,
                        paths::joined(self@.style, self@.dir, spec.id@),
                        *spec,
                        facts@,
                        dir_bytes,
                    ).installed && e@ == (ModelErrorText::NotInstalled {
                        id: spec.id@,
                        missing: missing(spec.files@, facts@),
                    })
                },
            },
    {
        match self.status(spec, facts, dir_bytes) {
            Err(e) => Err(e),
            Ok(status) => {
                if spec.engine != ModelEngine::Whisper && !status.installed {
                    return Err(
                        ModelError::NotInstalled {
                            id: spec.id.clone(),
                            missing: status.missing_files,
                        },
                    );
                }
                Ok(
                    ResolvedModel {
                        id: spec.id.clone(),
                        path: self.artifact_path(spec),
                        engine: spec.engine,
                    },
                )
            },
        }
    }

    /// A model named by a path or by its name in the cache.
    pub fn resolve_loose(
        &self,
        reference: &str,
        engine: ModelEngine,
        facts: &LooseFacts,
    ) -> (r: Result<ResolvedModel, ModelError>)
        ensures
            match r {
                Ok(resolved) => loose_path(self@.style, self@.dir, reference@, engine, *facts) == Some(
                    resolved.path@,
                ) && resolved.id@ == reference@ && resolved.engine == engine,
                Err(e) => {
                    &&& loose_path(self@.style, self@.dir, reference@, engine, *facts) is None
                    &&& e@ == (if engine == ModelEngine::Whisper {
                        ModelErrorText::Unknown(reference@)
                    } else {
                        ModelErrorText::NeedsDirectory { engine, reference: reference@ }
                    })
                },
            },
    {
        let path = if engine == ModelEngine::Whisper {
            if facts.is_file {
                text::owned(reference)
            } else if facts.cached_file {
                self.model_dir(reference)
            } else {
                match single_file_in_dir(self.style, facts.entries.as_slice()) {
                    Some(path) => path,
                    None => {
                        return Err(ModelError::Unknown(text::owned(reference)));
                    },
                }
            }
        } else {
            if facts.is_dir {
                text::owned(reference)
            } else if facts.cached_dir {
                self.model_dir(reference)
            } else {
                return Err(
                    ModelError::NeedsDirectory { engine, reference: text::owned(reference) },
                );
            }
        };
        Ok(ResolvedModel { id: text::owned(reference), path, engine })
    }

    /// Holds the files of a model against its specification. A model with
    /// missing files is reported as such and not looked into.
    pub fn verify(
        &self,
        spec: &InstallSpec,
        facts: &[FileFact],
        dir_bytes: Option<u64>,
        seen: &[FileEvidence],
    ) -> (r: Result<ModelStatus, ModelError>)
        requires
            facts@.len() == spec.files@.len(),
            seen@.len() == spec.files@.len(),
        ensures
            ({
                let dir = paths::joined(self@.style, self@.dir, spec.id@);
                let status = status_in(self@.style, dir, *spec, facts@, dir_bytes);
                let wrong = first_file_error(self@.style, dir, spec.files@, seen@);
                match r {
                    Ok(found) => {
                        &&& spec_error(self@.style, *spec) is None
                        &&& status.missing_files.len() > 0 || wrong is None
                        &&& found@ == status
                    },
                    Err(e) => {
                        ||| spec_error(self@.style, *spec) == Some(e@)
                        ||| spec_error(self@.style, *spec) is None && status.missing_files.len() == 0 && wrong
                            == Some(e@)
                    },
                }
            }),
    {
        let status = match self.status(spec, facts, dir_bytes) {
            Err(e) => {
                return Err(e);
            },
            Ok(status) => status,
        };
        assert(text::texts(status.missing_files@).len() == status.missing_files@.len());
        if status.missing_files.len() > 0 {
            return Ok(status);
        }
        let dir = self.model_dir(spec.id.as_str());
        let ghost files = spec.files@;
        let mut i: usize = 0;
        while i < spec.files.len()
            invariant
                files == spec.files@,
                i <= files.len(),
                seen@.len() == files.len(),
                spec_error(self@.style, *spec) is None,
                dir@ == paths::joined(self@.style, self@.dir, spec.id@),
                status_in(self@.style, dir@, *spec, facts@, dir_bytes).missing_files.len() == 0,
                first_file_error(self@.style, dir@, files.take(i as int), seen@) is None,
            decreases files.len() - i,
        {
            proof {
                assert(files.take(i + 1).drop_last() =~= files.take(i as int));
                assert(files.take(i + 1).last() == files[i as int]);
            }
            if let Err(e) = verify_file(self.style, dir.as_str(), &spec.files[i], &seen[i]) {
                proof {
                    lemma_first_file_error_stuck(self@.style, dir@, files, seen@, i + 1);
                }
                return Err(e);
            }
            i += 1;
        }
        assert(files.take(i as int) =~= files);
        Ok(status)
    }

    /// The status of a model after its directory is removed. Fails where the
    /// identifier could lead out of the cache.
    pub fn delete(&self, id: &str) -> (r: Result<ModelStatus, ModelError>)
        ensures
            match r {
                Ok(status) => valid_id(id@) && status@ == (ModelStatusText {
                    id: id@,
                    installed: false,
                    bytes_on_disk: 0,
                    missing_files: Seq::empty(),
                    directory: paths::joined(self@.style, self@.dir, id@),
                }),
                Err(e) => !valid_id(id@) && e@ == ModelErrorText::InvalidId(id@),
            },
    {
        match validate_model_id(id) {
            Err(e) => Err(e),
            Ok(_) => {
                let missing_files: Vec<String> = Vec::new();
                assert(text::texts(missing_files@) =~= Seq::<Seq<char>>::empty());
                Ok(
                    ModelStatus {
                        id: text::owned(id),
                        installed: false,
                        bytes_on_disk: 0,
                        missing_files,
                        directory: self.model_dir(id),
                    },
                )
            },
        }
    }
}

// ---------------------------------------------------------------------------
// Digests
// ---------------------------------------------------------------------------

/// The SHA-256 digest of bytes.
pub uninterp spec fn sha256(bytes: Seq<u8>) -> Seq<u8>;

/// `sha2::Sha256::digest`: the SHA-256 digest of bytes, 32 bytes that depend
/// on them alone.
#[verifier::external_body]
fn sha256_digest(bytes: &[u8]) -> (r: Vec<u8>)
    ensures
        r@ == sha256(bytes@),
        r@.len() == 32,
{
    <sha2::Sha256 as sha2::Digest>::digest(bytes).to_vec()
}

/// A digit in hexadecimal.
pub open spec fn hex_digit(v: int) -> char {
    if v < 10 {
        (v + '0' as int) as char
    } else {
        (v - 10 + 'a' as int) as char
    }
}

/// Bytes in lower-case hexadecimal, two digits each.
pub open spec fn hex_text(bytes: Seq<u8>) -> Seq<char>
    decreases bytes.len(),
{
    if bytes.len() == 0 {
        seq![]
    } else {
        hex_text(bytes.drop_last()).push(hex_digit(bytes.last() as int / 16)).push(
            hex_digit(bytes.last() as int % 16),
        )
    }
}

fn hex_char(v: u8) -> (r: char)
    requires
        v < 16,
    ensures
        r == hex_digit(v as int),
{
    if v < 10 {
        (v + 48) as char
    } else {
        (v + 87) as char
    }
}

/// Bytes in lower-case hexadecimal, two digits each.
pub fn hex_encode(bytes: &[u8]) -> (r: String)
    ensures
        r@ == hex_text(bytes@),
{
    let mut out = String::new();
    let mut i: usize = 0;
    while i < bytes.len()
        invariant
            i <= bytes@.len(),
            out@ == hex_text(bytes@.take(i as int)),
        decreases bytes@.len() - i,
    {
        proof {
            assert(bytes@.take(i + 1).drop_last() =~= bytes@.take(i as int));
            assert(bytes@.take(i + 1).last() == bytes@[i as int]);
        }
        out.push(hex_char(bytes[i] / 16));
        out.push(hex_char(bytes[i] % 16));
        i += 1;
    }
    assert(bytes@.take(i as int) =~= bytes@);
    out
}

/// The SHA-256 digest of the contents of a file, in hexadecimal.
pub fn sha256_hex(bytes: &[u8]) -> (r: String)
    ensures
        r@ == hex_text(sha256(bytes@)),
{
    let digest = sha256_digest(bytes);
    hex_encode(digest.as_slice())
}

/// What was read of a file: its size and its contents, each where it could be
/// read.
pub fn file_evidence(size: Option<u64>, contents: Option<&[u8]>) -> (r: FileEvidence)
    ensures
        r.size == size,
        text::opt_text(r.sha256) == (match contents {
            Some(bytes) => Some(hex_text(sha256(bytes@))),
            None => None,
        }),
{
    FileEvidence {
        size,
        sha256: match contents {
            Some(bytes) => Some(sha256_hex(bytes)),
            None => None,
        },
    }
}

// ---------------------------------------------------------------------------
// Laws
// ---------------------------------------------------------------------------

/// A valid path never leaves the directory that it is joined to: the names of
/// the directory come first, and no name leads back up. What the directory is
/// written with comes first too, though a verbatim path may be rewritten after
/// its drive or share. The directory is not the mere beginning of a network
/// share, which the path would complete.
pub proof fn law_valid_paths_stay_inside(style: PathStyle, dir: Seq<char>, path: Seq<char>)
    requires
        valid_path(style, path),
        joining::whole_share(style, dir),
    ensures
        paths::names(style, paths::joined(style, dir, path)) == paths::names(style, dir)
            + paths::names(style, path),
        !paths::verbatim(style, dir) ==> paths::joined(style, dir, path).take(dir.len() as int)
            == dir,
        paths::joined(style, dir, path).take(paths::prefix_len(style, dir) as int) == dir.take(
            paths::prefix_len(style, dir) as int,
        ),
        forall|i: int|
            0 <= i < paths::names(style, path).len() ==> #[trigger] paths::names(style, path)[i]
                != ".."@,
{
    let pieces = paths::pieces(style, path);
    assert(path.skip(0) =~= path);
    assert forall|i: int| 0 <= i < paths::names(style, path).len() implies #[trigger] paths::names(
        style,
        path,
    )[i] != ".."@ by {
        joining::lemma_names_among_pieces(false, pieces, i);
        let j = choose|j: int|
            0 <= j < pieces.len() && pieces[j] == paths::names_of(false, pieces)[i];
        assert(pieces[j] != ".."@);
    }
    paths::lemma_prefix_len(style, dir);
    joining::law_joined_names(style, dir, path);
}

/// The identifier of a model is one plain name, so that its directory lies
/// directly in the cache.
pub proof fn law_valid_ids_are_names(style: PathStyle, id: Seq<char>)
    requires
        valid_id(id),
    ensures
        valid_path(style, id),
        paths::names(style, id) == seq![id],
{
    assert forall|i: int| 0 <= i < id.len() implies #[trigger] id[i] != '/' && id[i] != '\\'
        && id[i] != ':' by {
        assert(id_char(id[i]));
    }
    assert(id[0] != '/');
    assert(paths::slashed(style, id) =~= id);
    text::lemma_split_none(id, '/');
    let pieces = paths::pieces(style, id);
    assert(pieces == seq![id]);
    assert(id.len() >= 2 ==> id[1] != ':');
    assert(paths::prefix_len(style, id) == 0);
    assert(id.skip(0) =~= id);
    assert(pieces.drop_last() =~= Seq::<Seq<char>>::empty());
    assert(paths::names_of(false, pieces.drop_last()) =~= Seq::<Seq<char>>::empty());
    assert(paths::names(style, id) =~= seq![id]);
}

/// A model with a file that is missing or of another size than expected is
/// not installed.
pub proof fn law_partial_models_are_not_installed(
    style: PathStyle,
    dir: Seq<char>,
    spec: InstallSpec,
    facts: Seq<FileFact>,
    dir_bytes: Option<u64>,
    i: int,
)
    requires
        0 <= i < spec.files@.len(),
        facts.len() == spec.files@.len(),
        !ready(spec.files@[i], facts[i]),
    ensures
        !status_in(style, dir, spec, facts, dir_bytes).installed,
        status_in(style, dir, spec, facts, dir_bytes).missing_files.contains(spec.files@[i].path@),
{
    lemma_missing_contains(spec.files@, facts, i);
}

proof fn lemma_missing_contains(files: Seq<RemoteFile>, facts: Seq<FileFact>, i: int)
    requires
        0 <= i < files.len(),
        !ready(files[i], facts[i]),
    ensures
        missing(files, facts).contains(files[i].path@),
    decreases files.len(),
{
    let before = missing(files.drop_last(), facts);
    let after = missing(files, facts);
    if i < files.len() - 1 {
        lemma_missing_contains(files.drop_last(), facts, i);
        let k = choose|k: int| 0 <= k < before.len() && before[k] == files[i].path@;
        assert(after[k] == files[i].path@);
    } else {
        assert(after[before.len() as int] == files[i].path@);
    }
}

/// Files without a first error have none at all: each has its expected size,
/// and its digest is the expected one up to letter case.
pub proof fn law_verified_files_match(
    style: PathStyle,
    dir: Seq<char>,
    files: Seq<RemoteFile>,
    seen: Seq<FileEvidence>,
    i: int,
)
    requires
        0 <= i < files.len(),
        first_file_error(style, dir, files, seen) is None,
    ensures
        files[i].size_bytes is Some ==> seen[i].size == files[i].size_bytes,
        files[i].sha256 matches Some(wanted) ==> {
            &&& seen[i].sha256 matches Some(found)
            &&& text::ascii_lower(found@) == text::ascii_lower(wanted@)
        },
    decreases files.len(),
{
    if i < files.len() - 1 {
        law_verified_files_match(style, dir, files.drop_last(), seen, i);
    } else {
        assert(file_error(style, dir, files[i], seen[i]) is None);
    }
}

/// An identifier is made of ASCII letters, digits, hyphens, underscores and
/// dots, and is neither empty nor one or two dots.
pub proof fn law_identifiers(id: Seq<char>)
    ensures
        valid_id(id) <==> {
            &&& id.len() > 0 && id != seq!['.'] && id != seq!['.', '.']
            &&& forall|i: int|
                0 <= i < id.len() ==> {
                    let c = #[trigger] id[i];
                    ('a' <= c <= 'z') || ('A' <= c <= 'Z') || ('0' <= c <= '9') || c == '-' || c
                        == '_' || c == '.'
                }
        },
{
    reveal_strlit(".");
    reveal_strlit("..");
    assert("."@ =~= seq!['.']);
    assert(".."@ =~= seq!['.', '.']);
}

/// The missing files of a model are those that are no files or have another size
/// than expected, in order. It is installed where none is missing and its
/// directory can be read.
pub proof fn law_missing_files(files: Seq<RemoteFile>, facts: Seq<FileFact>) -> (from: Seq<int>)
    requires
        facts.len() == files.len(),
    ensures
        from.len() == missing(files, facts).len(),
        forall|k: int|
            0 <= k < from.len() ==> {
                let i = #[trigger] from[k];
                &&& 0 <= i < files.len()
                &&& missing(files, facts)[k] == files[i].path@
                &&& !facts[i].is_file || (files[i].size_bytes is Some && facts[i].size
                    != files[i].size_bytes)
            },
        forall|k: int, l: int| 0 <= k < l < from.len() ==> #[trigger] from[k] < #[trigger] from[l],
        forall|i: int|
            #![trigger files[i]]
            0 <= i < files.len() && (!facts[i].is_file || (files[i].size_bytes is Some
                && facts[i].size != files[i].size_bytes)) ==> from.contains(i),
    decreases files.len(),
{
    lemma_missing(files, facts)
}

proof fn lemma_missing(files: Seq<RemoteFile>, facts: Seq<FileFact>) -> (from: Seq<int>)
    ensures
        from.len() == missing(files, facts).len(),
        forall|k: int|
            0 <= k < from.len() ==> {
                let i = #[trigger] from[k];
                &&& 0 <= i < files.len()
                &&& missing(files, facts)[k] == files[i].path@
                &&& !ready(files[i], facts[i])
            },
        forall|k: int, l: int| 0 <= k < l < from.len() ==> #[trigger] from[k] < #[trigger] from[l],
        forall|i: int|
            #![trigger files[i]]
            0 <= i < files.len() && !ready(files[i], facts[i]) ==> from.contains(i),
    decreases files.len(),
{
    if files.len() == 0 {
        seq![]
    } else {
        let init = files.drop_last();
        let m = init.len() as int;
        let before = lemma_missing(init, facts);
        let from = if ready(files.last(), facts[m]) {
            before
        } else {
            before.push(m)
        };
        assert forall|i: int|
            #![trigger files[i]]
            0 <= i < files.len() && !ready(files[i], facts[i]) implies from.contains(i) by {
            if i < m {
                assert(init[i] == files[i]);
                let k = choose|k: int| 0 <= k < before.len() && before[k] == i;
                assert(from[k] == i);
            } else {
                assert(from[before.len() as int] == i);
            }
        }
        from
    }
}

/// A status says which model it is about, where it lies, how much room it takes
/// up and what is missing; it is installed where nothing is missing and its
/// directory can be read.
pub proof fn law_statuses(
    style: PathStyle,
    dir: Seq<char>,
    spec: InstallSpec,
    facts: Seq<FileFact>,
    dir_bytes: Option<u64>,
)
    ensures
        ({
            let s = status_in(style, dir, spec, facts, dir_bytes);
            &&& s.id == spec.id@
            &&& s.installed <==> missing(spec.files@, facts).len() == 0 && dir_bytes is Some
            &&& dir_bytes is Some ==> s.bytes_on_disk == dir_bytes->0
            &&& dir_bytes is None ==> s.bytes_on_disk == 0
            &&& s.missing_files == missing(spec.files@, facts)
            &&& spec.storage is Directory ==> s.directory == dir
            &&& spec.storage matches ModelStorage::File { artifact } ==> s.directory
                == paths::joined(style, dir, artifact@)
        }),
{
}

/// A loose reference to a Whisper model leads to a file: to itself, into the
/// cache, or to the only visible file of a directory. One to another model leads
/// to a directory: to itself, or into the cache.
pub proof fn law_loose_references(
    style: PathStyle,
    cache_dir: Seq<char>,
    reference: Seq<char>,
    engine: ModelEngine,
    facts: LooseFacts,
)
    ensures
        ({
            let path = loose_path(style, cache_dir, reference, engine, facts);
            let cached = paths::joined(style, cache_dir, reference);
            let whisper = engine == ModelEngine::Whisper;
            &&& whisper && facts.is_file ==> path == Some(reference)
            &&& whisper && !facts.is_file && facts.cached_file ==> path == Some(cached)
            &&& whisper && !facts.is_file && !facts.cached_file ==> path == single_file(
                style,
                facts.entries@,
            )
            &&& !whisper && facts.is_dir ==> path == Some(reference)
            &&& !whisper && !facts.is_dir && facts.cached_dir ==> path == Some(cached)
            &&& !whisper && !facts.is_dir && !facts.cached_dir ==> path is None
        }),
{
}

/// A directory has a single file where exactly one of its entries is a file
/// whose name does not begin with a dot.
pub proof fn law_single_files(style: PathStyle, entries: Seq<DirEntryFact>, i: int)
    ensures
        0 <= i < entries.len() && visible_file(style, entries[i]) && (forall|j: int|
            0 <= j < entries.len() && j != i ==> !visible_file(style, #[trigger] entries[j]))
            ==> single_file(style, entries) == Some(entries[i].path@),
        single_file(style, entries) is Some ==> exists|j: int|
            0 <= j < entries.len() && visible_file(style, #[trigger] entries[j]) && single_file(
                style,
                entries,
            ) == Some(entries[j].path@),
        0 <= i < entries.len() && visible_file(style, entries[i]) ==> entries[i].is_file,
        0 <= i < entries.len() && entries[i].is_file && !visible_file(style, entries[i]) ==> (
        paths::file_name_of(style, entries[i].path@) matches Some(name) && name.len() > 0 && name[0]
            == '.'),
{
    let from = lemma_visible(style, entries);
    let list = visible_files(style, entries);
    if list.len() == 1 {
        assert(visible_file(style, entries[from[0]]));
    }
    if 0 <= i < entries.len() && visible_file(style, entries[i]) && (forall|j: int|
        0 <= j < entries.len() && j != i ==> !visible_file(style, #[trigger] entries[j])) {
        assert(from.contains(i));
        assert forall|k: int| 0 <= k < from.len() implies #[trigger] from[k] == i by {
            assert(visible_file(style, entries[from[k]]));
        }
        if from.len() > 1 {
            assert(from[0] < from[1]);
        }
    }
    reveal_strlit(".");
    if 0 <= i < entries.len() && entries[i].is_file && !visible_file(style, entries[i]) {
        let name = paths::file_name_of(style, entries[i].path@)->0;
        assert(name.subrange(0, 1)[0] == "."@[0]);
    }
}

proof fn lemma_visible(style: PathStyle, entries: Seq<DirEntryFact>) -> (from: Seq<int>)
    ensures
        from.len() == visible_files(style, entries).len(),
        forall|k: int|
            0 <= k < from.len() ==> 0 <= #[trigger] from[k] < entries.len() && visible_files(
                style,
                entries,
            )[k] == entries[from[k]].path@ && visible_file(style, entries[from[k]]),
        forall|k: int, l: int| 0 <= k < l < from.len() ==> #[trigger] from[k] < #[trigger] from[l],
        forall|i: int|
            0 <= i < entries.len() && visible_file(style, #[trigger] entries[i]) ==> from.contains(
                i,
            ),
    decreases entries.len(),
{
    if entries.len() == 0 {
        seq![]
    } else {
        let init = entries.drop_last();
        let m = init.len() as int;
        let before = lemma_visible(style, init);
        let from = if visible_file(style, entries.last()) {
            before.push(m)
        } else {
            before
        };
        assert forall|i: int|
            0 <= i < entries.len() && visible_file(style, #[trigger] entries[i])
            implies from.contains(i) by {
            if i < m {
                assert(init[i] == entries[i]);
                let k = choose|k: int| 0 <= k < before.len() && before[k] == i;
                assert(from[k] == i);
            } else {
                assert(from[before.len() as int] == i);
            }
        }
        from
    }
}

/// The digit of a value, as hexadecimal notation counts.
pub open spec fn hex_value(c: char) -> int {
    if '0' <= c <= '9' {
        c as int - '0' as int
    } else {
        c as int - 'a' as int + 10
    }
}

/// Hexadecimal notation gives each byte two digits, the higher first, of which
/// the byte can be read back; letters are small.
pub proof fn law_hexadecimal_notation(bytes: Seq<u8>, i: int)
    requires
        0 <= i < bytes.len(),
    ensures
        hex_text(bytes).len() == 2 * bytes.len(),
        hex_value(hex_text(bytes)[2 * i]) * 16 + hex_value(hex_text(bytes)[2 * i + 1]) == bytes[i],
        forall|k: int|
            2 * i <= k <= 2 * i + 1 ==> {
                let c = #[trigger] hex_text(bytes)[k];
                ('0' <= c <= '9') || ('a' <= c <= 'f')
            },
    decreases bytes.len(),
{
    lemma_hex_len(bytes);
    lemma_hex_len(bytes.drop_last());
    if i < bytes.len() - 1 {
        law_hexadecimal_notation(bytes.drop_last(), i);
        let t = hex_text(bytes.drop_last());
        assert forall|k: int| 2 * i <= k <= 2 * i + 1 implies hex_text(bytes)[k] == #[trigger] t[k] by {}
        assert(t[2 * i] == hex_text(bytes)[2 * i]);
        assert(t[2 * i + 1] == hex_text(bytes)[2 * i + 1]);
    }
}

proof fn lemma_hex_len(bytes: Seq<u8>)
    ensures
        hex_text(bytes).len() == 2 * bytes.len(),
    decreases bytes.len(),
{
    if bytes.len() > 0 {
        lemma_hex_len(bytes.drop_last());
    }
}

/// What is wrong with a file: its size cannot be read or is another, or its
/// contents cannot be read or have another digest; a file of which nothing is
/// expected is always right. What is reported of several is what is wrong with
/// the first.
pub proof fn law_first_wrong_files(
    style: PathStyle,
    dir: Seq<char>,
    files: Seq<RemoteFile>,
    seen: Seq<FileEvidence>,
    i: int,
)
    requires
        0 <= i < files.len(),
        file_error(style, dir, files[i], seen[i]) is Some,
        forall|j: int|
            #![trigger files[j]]
            0 <= j < i ==> file_error(style, dir, files[j], seen[j]) is None,
    ensures
        first_file_error(style, dir, files, seen) == file_error(style, dir, files[i], seen[i]),
        match file_error(style, dir, files[i], seen[i])->0 {
            ModelErrorText::UnexpectedSize { path, expected, actual } => path == files[i].path@
                && files[i].size_bytes == Some(expected) && seen[i].size == Some(actual) && expected
                != actual,
            ModelErrorText::UnexpectedSha256 { path, wanted, found } => path == files[i].path@
                && files[i].sha256 is Some && files[i].sha256->0@ == wanted
                && seen[i].sha256 is Some && seen[i].sha256->0@ == found && text::ascii_lower(wanted)
                != text::ascii_lower(found),
            ModelErrorText::UnreadableMetadata(path) => path == files[i].path@
                && seen[i].size is None && files[i].size_bytes is Some,
            ModelErrorText::UnreadableContents(path) => path == paths::joined(
                style,
                dir,
                files[i].path@,
            ) && seen[i].sha256 is None && files[i].sha256 is Some,
            _ => false,
        },
    decreases files.len(),
{
    let init = files.drop_last();
    if i < files.len() - 1 {
        assert(init[i] == files[i]);
        assert forall|j: int|
            #![trigger init[j]]
            0 <= j < i implies file_error(style, dir, init[j], seen[j]) is None by {
            assert(files[j] == init[j]);
        }
        law_first_wrong_files(style, dir, init, seen, i);
    } else {
        assert forall|j: int|
            #![trigger init[j]]
            0 <= j < init.len() implies file_error(style, dir, init[j], seen[j]) is None by {
            assert(files[j] == init[j]);
        }
        lemma_no_wrong_file(style, dir, init, seen);
    }
}

proof fn lemma_no_wrong_file(
    style: PathStyle,
    dir: Seq<char>,
    files: Seq<RemoteFile>,
    seen: Seq<FileEvidence>,
)
    requires
        forall|j: int|
            #![trigger files[j]]
            0 <= j < files.len() ==> file_error(style, dir, files[j], seen[j]) is None,
    ensures
        first_file_error(style, dir, files, seen) is None,
    decreases files.len(),
{
    if files.len() > 0 {
        let init = files.drop_last();
        assert forall|j: int|
            #![trigger init[j]]
            0 <= j < init.len() implies file_error(style, dir, init[j], seen[j]) is None by {
            assert(files[j] == init[j]);
        }
        lemma_no_wrong_file(style, dir, init, seen);
        assert(files[files.len() - 1] == files.last());
    }
}

/// A specification is refused for its identifier, else for its artifact, else
/// for the first file whose path does not lead down; and for nothing else.
pub proof fn law_refused_specifications(style: PathStyle, spec: InstallSpec, i: int)
    ensures
        !valid_id(spec.id@) ==> spec_error(style, spec) == Some(
            ModelErrorText::InvalidId(spec.id@),
        ),
        valid_id(spec.id@) && (spec.storage matches ModelStorage::File { artifact } && !valid_path(
            style,
            artifact@,
        )) ==> spec_error(style, spec) == Some(
            ModelErrorText::InvalidPath(spec.storage->artifact@),
        ),
        spec_error(style, spec) is None && 0 <= i < spec.files@.len() ==> valid_path(
            style,
            spec.files@[i].path@,
        ),
        spec_error(style, spec) is None ==> valid_id(spec.id@),
        valid_id(spec.id@) && (spec.storage matches ModelStorage::File { artifact } ==> valid_path(
            style,
            artifact@,
        )) && 0 <= i < spec.files@.len() && !valid_path(style, spec.files@[i].path@) && (forall|
            j: int,
        |
            0 <= j < i ==> valid_path(style, (#[trigger] spec.files@[j]).path@)) ==> spec_error(
            style,
            spec,
        ) == Some(ModelErrorText::InvalidPath(spec.files@[i].path@)),
{
    lemma_invalid_file(style, spec.files@, i);
}

proof fn lemma_invalid_file(style: PathStyle, files: Seq<RemoteFile>, i: int)
    ensures
        invalid_file(style, files) is None && 0 <= i < files.len() ==> valid_path(
            style,
            files[i].path@,
        ),
        0 <= i < files.len() && !valid_path(style, files[i].path@) && (forall|j: int|
            0 <= j < i ==> valid_path(style, (#[trigger] files[j]).path@)) ==> invalid_file(
            style,
            files,
        ) == Some(files[i].path@),
        (forall|j: int| 0 <= j < files.len() ==> valid_path(style, (#[trigger] files[j]).path@))
            ==> invalid_file(style, files) is None,
    decreases files.len(),
{
    if files.len() > 0 {
        let init = files.drop_last();
        lemma_invalid_file(style, init, i);
        assert forall|j: int| 0 <= j < init.len() implies init[j] == #[trigger] files[j] by {}
        assert(files[files.len() - 1] == files.last());
        if 0 <= i < files.len() && !valid_path(style, files[i].path@) && (forall|j: int|
            0 <= j < i ==> valid_path(style, (#[trigger] files[j]).path@)) {
            assert forall|j: int| 0 <= j < i implies valid_path(
                style,
                (#[trigger] init[j]).path@,
            ) by {
                assert(files[j] == init[j]);
            }
        }
        if forall|j: int| 0 <= j < files.len() ==> valid_path(style, (#[trigger] files[j]).path@) {
            assert forall|j: int| 0 <= j < init.len() implies valid_path(
                style,
                (#[trigger] init[j]).path@,
            ) by {
                assert(files[j] == init[j]);
            }
        }
    }
}

/// What statuses and resolved models hold is what their fields hold.
pub proof fn law_models_hold_their_fields(s: ModelStatus, m: ResolvedModel)
    ensures
        s@.id == s.id@ && s@.installed == s.installed && s@.bytes_on_disk == s.bytes_on_disk
            && s@.directory == s.directory@ && s@.missing_files == text::texts(s.missing_files@),
        m@.id == m.id@ && m@.path == m.path@ && m@.engine == m.engine,
{
}

/// What is shown for an error names what it is about.
pub proof fn law_error_messages(e: ModelError)
    ensures
        match e {
            ModelError::InvalidId(id) => error_message(e@) == "Invalid model id: "@ + id@,
            ModelError::InvalidPath(path) => error_message(e@) == "Invalid model file path: "@
                + path@,
            ModelError::NotInstalled { id, missing } => error_message(e@) == id@
                + " is not fully installed. Missing: "@ + text::joined(
                text::texts(missing@),
                ", "@,
            ),
            ModelError::Unknown(reference) => error_message(e@) == "Unknown model: "@ + reference@,
            ModelError::NeedsDirectory { engine, reference } => error_message(e@) == engine.name()
                + " models require a directory: "@ + reference@,
            ModelError::UnreadableMetadata(path) => error_message(e@) == "read metadata for "@
                + path@,
            ModelError::UnreadableContents(path) => error_message(e@) == "checksum "@ + path@,
            ModelError::UnexpectedSize { path, expected, actual } => error_message(e@) == path@
                + " has unexpected size: expected "@ + text::decimal(expected as nat) + ", got "@
                + text::decimal(actual as nat),
            ModelError::UnexpectedSha256 { path, wanted, found } => error_message(e@) == path@
                + " has unexpected sha256: expected "@ + wanted@ + ", got "@ + found@,
        },
{
}

/// Engines are called by their names.
pub proof fn law_names_of_engines(e: ModelEngine)
    ensures
        e == ModelEngine::Whisper ==> e.name() == "whisper"@,
        e == ModelEngine::Parakeet ==> e.name() == "parakeet"@,
        e == ModelEngine::Nemotron ==> e.name() == "nemotron"@,
{
}

/// A path with `..` between separators, or at either end, does not lead down;
/// nor does one that begins with a separator or, on Windows, with a drive.
pub proof fn law_paths_that_lead_up(style: PathStyle, before: Seq<char>, after: Seq<char>)
    requires
        before.len() == 0 || paths::separator(style, before.last()),
        after.len() == 0 || paths::separator(style, after[0]),
    ensures
        !valid_path(style, before + seq!['.', '.'] + after),
        after.len() > 0 ==> !valid_path(style, after),
        before.len() >= 2 && before[1] == ':' && (('a' <= before[0] <= 'z') || ('A' <= before[0]
            <= 'Z')) && style == PathStyle::Windows ==> !valid_path(style, before),
{
    let dots = seq!['.', '.'];
    reveal_strlit("..");
    assert(".."@ =~= dots);
    let path = before + dots + after;
    let pieces = paths::pieces(style, path);
    assert(paths::slashed(style, dots) =~= dots);
    text::lemma_split_none(dots, '/');
    let middle = dots + after;
    let tail = if after.len() > 0 {
        after.drop_first()
    } else {
        after
    };
    let flat_tail = paths::slashed(style, tail);
    let flat_middle = paths::slashed(style, middle);
    if after.len() > 0 {
        assert(flat_middle =~= dots.push('/') + flat_tail);
        text::lemma_split_concat(dots, flat_tail, '/');
        assert(text::split_on(flat_middle, '/')[0] == dots);
    } else {
        assert(flat_middle =~= dots);
        assert(text::split_on(flat_middle, '/')[0] == dots);
    }
    if before.len() > 0 {
        let front = before.drop_last();
        let flat_front = paths::slashed(style, front);
        assert(paths::slashed(style, path) =~= flat_front.push('/') + flat_middle);
        text::lemma_split_concat(flat_front, flat_middle, '/');
        let n = text::split_on(flat_front, '/').len() as int;
        assert(pieces[n] == dots);
    } else {
        assert(path =~= middle);
        assert(pieces[0] == dots);
    }
}

} // verus!
