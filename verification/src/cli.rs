//! The command line: what commands ask for and what they show.

use vstd::prelude::*;

use crate::api::ResponseFormat;
use crate::models::{InstallSpec, ModelEngine, ModelStatus, ModelStorage, RemoteFile};
use crate::remote::engine::RemoteConfig;
use crate::text;
use crate::TimestampGranularity;

verus! {

// ---------------------------------------------------------------------------
// Models
// ---------------------------------------------------------------------------

/// The last piece that is not empty.
pub open spec fn last_nonempty(pieces: Seq<Seq<char>>) -> Option<Seq<char>>
    decreases pieces.len(),
{
    if pieces.len() == 0 {
        None
    } else if pieces.last().len() > 0 {
        Some(pieces.last())
    } else {
        last_nonempty(pieces.drop_last())
    }
}

/// A path segment of a URL without query and fragment.
pub open spec fn bare_segment(segment: Seq<char>) -> Seq<char> {
    text::split_on(text::split_on(segment, '?')[0], '#')[0]
}

/// The file name that a URL suggests.
pub open spec fn suggested_name(url: Seq<char>) -> Seq<char> {
    match last_nonempty(text::split_on(url, '/')) {
        Some(segment) if bare_segment(segment).len() > 0 => bare_segment(segment),
        _ => "model.bin"@,
    }
}

/// The file name that a URL suggests: its last path segment, without query and
/// fragment, or `model.bin`.
pub fn filename_from_url(url: &str) -> (r: String)
    ensures
        r@ == suggested_name(url@),
{
    let pieces = text::split(url, '/');
    let ghost all = text::texts(pieces@);
    let mut n: usize = pieces.len();
    assert(all.take(n as int) =~= all);
    while n > 0
        invariant
            all == text::texts(pieces@),
            all == text::split_on(url@, '/'),
            n <= pieces@.len(),
            last_nonempty(all) == last_nonempty(all.take(n as int)),
        decreases n,
    {
        proof {
            assert(all.take(n as int).last() == pieces@[n - 1]@);
            assert(all.take(n as int).drop_last() =~= all.take(n - 1));
        }
        if !pieces[n - 1].as_str().is_empty() {
            let before_query = text::split(pieces[n - 1].as_str(), '?');
            assert(text::texts(before_query@)[0] == before_query@[0]@);
            let before_fragment = text::split(before_query[0].as_str(), '#');
            assert(text::texts(before_fragment@)[0] == before_fragment@[0]@);
            if before_fragment[0].as_str().is_empty() {
                return text::owned("model.bin");
            }
            return before_fragment[0].clone();
        }
        n -= 1;
    }
    text::owned("model.bin")
}

/// The specification of a Whisper model that is installed from a URL.
pub fn install_spec(
    id: String,
    url: String,
    artifact: Option<String>,
    size: Option<u64>,
    sha256: Option<String>,
) -> (r: InstallSpec)
    ensures
        ({
            let name = match artifact {
                Some(a) => a@,
                None => suggested_name(url@),
            };
            &&& r.id == id
            &&& r.engine == ModelEngine::Whisper
            &&& r.storage matches ModelStorage::File { artifact: a } && a@ == name
            &&& r.files@.len() == 1
            &&& r.files@[0].url == url
            &&& r.files@[0].path@ == name
            &&& r.files@[0].size_bytes == size
            &&& r.files@[0].sha256 == sha256
        }),
{
    let artifact = match artifact {
        Some(artifact) => artifact,
        None => filename_from_url(url.as_str()),
    };
    let path = artifact.clone();
    let mut files: Vec<RemoteFile> = Vec::new();
    files.push(RemoteFile { url, path, size_bytes: size, sha256 });
    InstallSpec {
        id,
        engine: ModelEngine::Whisper,
        storage: ModelStorage::File { artifact },
        files,
    }
}

/// The order of texts: by the first character in which they differ.
pub open spec fn text_le(a: Seq<char>, b: Seq<char>) -> bool
    decreases a.len(),
{
    if a.len() == 0 {
        true
    } else if b.len() == 0 {
        false
    } else if a[0] != b[0] {
        a[0] < b[0]
    } else {
        text_le(a.drop_first(), b.drop_first())
    }
}

proof fn lemma_text_le_total(a: Seq<char>, b: Seq<char>)
    ensures
        text_le(a, b) || text_le(b, a),
    decreases a.len(),
{
    if a.len() > 0 && b.len() > 0 && a[0] == b[0] {
        lemma_text_le_total(a.drop_first(), b.drop_first());
    }
}

proof fn lemma_text_le_trans(a: Seq<char>, b: Seq<char>, c: Seq<char>)
    requires
        text_le(a, b),
        text_le(b, c),
    ensures
        text_le(a, c),
    decreases a.len(),
{
    if a.len() > 0 && b.len() > 0 && c.len() > 0 && a[0] == b[0] && b[0] == c[0] {
        lemma_text_le_trans(a.drop_first(), b.drop_first(), c.drop_first());
    }
}

/// Whether texts are in order.
pub open spec fn texts_in_order(v: Seq<Seq<char>>) -> bool {
    forall|i: int, j: int| 0 <= i < j < v.len() ==> text_le(#[trigger] v[i], #[trigger] v[j])
}

fn is_text_le(a: &str, b: &str) -> (r: bool)
    ensures
        r == text_le(a@, b@),
{
    let x = text::chars_of(a);
    let y = text::chars_of(b);
    let mut i: usize = 0;
    proof {
        assert(a@.skip(0) =~= a@);
        assert(b@.skip(0) =~= b@);
    }
    while i < x.len() && i < y.len()
        invariant
            x@ == a@,
            y@ == b@,
            i <= x@.len(),
            i <= y@.len(),
            text_le(a@, b@) == text_le(a@.skip(i as int), b@.skip(i as int)),
        decreases x@.len() - i,
    {
        proof {
            assert(a@.skip(i as int)[0] == x@[i as int]);
            assert(b@.skip(i as int)[0] == y@[i as int]);
            assert(a@.skip(i as int).drop_first() =~= a@.skip(i + 1));
            assert(b@.skip(i as int).drop_first() =~= b@.skip(i + 1));
        }
        if x[i] != y[i] {
            return x[i] < y[i];
        }
        i += 1;
    }
    i == x.len()
}

/// Puts a text in its place among texts that are in order.
fn insert_text(v: &mut Vec<String>, s: String)
    requires
        texts_in_order(text::texts(old(v)@)),
    ensures
        texts_in_order(text::texts(final(v)@)),
        text::texts(final(v)@).to_multiset() == text::texts(old(v)@).to_multiset().insert(s@),
{
    let ghost before = text::texts(v@);
    let mut at: usize = v.len();
    while at > 0 && !is_text_le(v[at - 1].as_str(), s.as_str())
        invariant
            before == text::texts(v@),
            at <= v@.len(),
            forall|j: int| at <= j < v@.len() ==> !text_le(#[trigger] before[j], s@),
        decreases at,
    {
        assert(before[at - 1] == v@[at - 1]@);
        at -= 1;
    }
    proof {
        if at > 0 {
            assert(before[at - 1] == v@[at - 1]@);
        }
    }
    let ghost added = s@;
    v.insert(at, s);
    proof {
        let after = text::texts(v@);
        assert(after =~= before.insert(at as int, added));
        vstd::seq_lib::to_multiset_insert(before, at as int, added);
        assert forall|i: int, j: int| 0 <= i < j < after.len() implies text_le(
            #[trigger] after[i],
            #[trigger] after[j],
        ) by {
            if i < at && j < at {
                assert(text_le(before[i], before[j]));
            } else if i < at && j == at {
                if i < at - 1 {
                    assert(text_le(before[i], before[at - 1]));
                    lemma_text_le_trans(before[i], before[at - 1], added);
                }
            } else if i < at && j > at {
                assert(text_le(before[i], before[j - 1]));
            } else if i == at {
                assert(!text_le(before[j - 1], added));
                lemma_text_le_total(before[j - 1], added);
            } else {
                assert(text_le(before[i - 1], before[j - 1]));
            }
        }
    }
}

/// The identifiers of installed models in order, from the names of the
/// directories in the cache.
pub fn installed_model_ids(names: &[String]) -> (r: Vec<String>)
    ensures
        text::texts(r@).to_multiset() == text::texts(names@).to_multiset(),
        texts_in_order(text::texts(r@)),
{
    let ghost all = text::texts(names@);
    let mut out: Vec<String> = Vec::new();
    let mut i: usize = 0;
    assert(text::texts(out@) =~= all.take(0));
    while i < names.len()
        invariant
            all == text::texts(names@),
            i <= names@.len(),
            texts_in_order(text::texts(out@)),
            text::texts(out@).to_multiset() == all.take(i as int).to_multiset(),
        decreases names@.len() - i,
    {
        proof {
            all.take(i as int).to_multiset_ensures();
            assert(all.take(i + 1) =~= all.take(i as int).push(names@[i as int]@));
        }
        insert_text(&mut out, names[i].clone());
        i += 1;
    }
    assert(all.take(i as int) =~= all);
    out
}

/// What is shown of the status of a model.
pub fn status_line(status: &ModelStatus) -> (r: String)
    ensures
        r@ == (if status.installed {
            status.id@ + " installed at "@ + status.directory@
        } else {
            status.id@ + " not installed; missing: "@ + text::joined(
                text::texts(status.missing_files@),
                ", "@,
            )
        }),
{
    if status.installed {
        text::concat3(status.id.as_str(), " installed at ", status.directory.as_str())
    } else {
        let list = text::join(status.missing_files.as_slice(), ", ");
        text::concat3(status.id.as_str(), " not installed; missing: ", list.as_str())
    }
}

/// What is shown of a list of models.
pub fn models_text(ids: &[String], cache_dir: &str) -> (r: String)
    ensures
        r@ == (if ids@.len() == 0 {
            "No models installed in "@ + cache_dir@
        } else {
            text::joined(text::texts(ids@), "\n"@)
        }),
{
    if ids.len() == 0 {
        text::concat2("No models installed in ", cache_dir)
    } else {
        text::join(ids, "\n")
    }
}

// ---------------------------------------------------------------------------
// Transcriptions
// ---------------------------------------------------------------------------

/// How a transcription is asked for and shown.
#[derive(Debug, Clone, Copy, PartialEq, Eq)]
pub struct TranscribePlan {
    pub format: ResponseFormat,
    pub timestamps: bool,
    pub timestamp_granularity: Option<TimestampGranularity>,
}

/// How a transcription is asked for and shown. JSON output turns text into
/// JSON; formats that show times ask for them.
pub fn plan_transcribe(response_format: ResponseFormat, json: bool, timestamps: bool) -> (r:
    TranscribePlan)
    ensures
        r.format == (if response_format == ResponseFormat::Text && json {
            ResponseFormat::Json
        } else {
            response_format
        }),
        r.timestamps == (timestamps || r.format is VerboseJson || r.format is Srt
            || r.format is Vtt),
        r.timestamp_granularity == (if r.timestamps {
            Some(TimestampGranularity::Segment)
        } else {
            None
        }),
{
    let format = if response_format == ResponseFormat::Text && json {
        ResponseFormat::Json
    } else {
        response_format
    };
    let timestamps = timestamps || format.needs_timestamps();
    let timestamp_granularity = if timestamps {
        Some(TimestampGranularity::Segment)
    } else {
        None
    };
    TranscribePlan { format, timestamps, timestamp_granularity }
}

// ---------------------------------------------------------------------------
// Serving
// ---------------------------------------------------------------------------

/// What the server reports once it listens, before its address.
pub const LISTENING_PREFIX: &'static str = "Local API listening on ";

/// The options of the server.
#[derive(Debug, Clone)]
pub struct ServeOptions {
    pub model: Option<String>,
    pub api_key: Option<String>,
    pub remote_endpoint: Option<String>,
    pub remote_api_key: Option<String>,
    pub remote_model: Option<String>,
    pub cors: bool,
    pub no_cors: bool,
}

/// What the server does.
#[derive(Debug, Clone)]
pub struct ServePlan {
    pub cors_enabled: bool,
    pub api_key_required: bool,
    /// The model that is loaded before the server starts.
    pub warm_model: Option<String>,
    /// The endpoint that transcriptions are passed on to.
    pub remote: Option<RemoteConfig>,
}

/// A text that is not blank, trimmed.
pub open spec fn real_text(value: Option<Seq<char>>) -> Option<Seq<char>> {
    match value {
        Some(v) if !text::blank(v) => Some(text::trimmed(v)),
        _ => None,
    }
}

/// A model for the remote endpoint: its own option, else the local model, and
/// none where that is blank.
pub open spec fn remote_model_of(options: ServeOptions) -> Option<Seq<char>> {
    let named = match options.remote_model {
        Some(m) => Some(m@),
        None => text::opt_text(options.model),
    };
    match named {
        Some(m) if !text::blank(m) => Some(m),
        _ => None,
    }
}

fn trimmed_endpoint(value: &Option<String>) -> (r: Option<String>)
    ensures
        text::opt_text(r) == real_text(text::opt_text(*value)),
{
    match value {
        Some(value) => {
            let trimmed = text::trim(value.as_str());
            if trimmed.as_str().is_empty() {
                None
            } else {
                Some(trimmed)
            }
        },
        None => None,
    }
}

/// What the server does. With a remote endpoint no local model is loaded in
/// advance.
pub fn plan_serve(options: &ServeOptions) -> (r: ServePlan)
    ensures
        r.cors_enabled == (options.cors && !options.no_cors),
        r.api_key_required == (options.api_key matches Some(k) && !text::blank(k@)),
        r.remote is Some <==> real_text(text::opt_text(options.remote_endpoint)) is Some,
        r.remote matches Some(c) ==> {
            &&& Some(c.endpoint@) == real_text(text::opt_text(options.remote_endpoint))
            &&& c.api_key@ == (match options.remote_api_key {
                Some(k) => k@,
                None => ""@,
            })
            &&& text::opt_text(c.model) == remote_model_of(*options)
        },
        text::opt_text(r.warm_model) == (if r.remote is Some {
            None
        } else {
            text::opt_text(options.model)
        }),
{
    let api_key_required = match &options.api_key {
        Some(key) => !text::is_blank(key.as_str()),
        None => false,
    };
    let cors_enabled = options.cors && !options.no_cors;
    match trimmed_endpoint(&options.remote_endpoint) {
        Some(endpoint) => {
            let api_key = match &options.remote_api_key {
                Some(key) => key.clone(),
                None => text::owned(""),
            };
            let named = match &options.remote_model {
                Some(model) => Some(model.clone()),
                None => options.model.clone(),
            };
            let model = match named {
                Some(model) => {
                    if text::is_blank(model.as_str()) {
                        None
                    } else {
                        Some(model)
                    }
                },
                None => None,
            };
            ServePlan {
                cors_enabled,
                api_key_required,
                warm_model: None,
                remote: Some(RemoteConfig { endpoint, api_key, model }),
            }
        },
        None => ServePlan {
            cors_enabled,
            api_key_required,
            warm_model: options.model.clone(),
            remote: None,
        },
    }
}

/// What is shown when the server starts.
#[derive(Debug, Clone)]
pub struct ServeBanner {
    pub model_cache_dir: String,
    pub warm_model: Option<String>,
    pub engine: ModelEngine,
    pub remote_enabled: bool,
    pub api_key_required: bool,
    pub cors_enabled: bool,
}

/// What is shown when the server starts.
pub open spec fn banner_text(b: ServeBanner, base_url: Seq<char>) -> Seq<char> {
    "Now serving Glimpse Speech API\nBase URL: "@ + base_url
        + "\nServing:\n- Models: GET "@ + base_url + "/v1/models\n- Transcriptions: POST "@
        + base_url + "/v1/audio/transcriptions\n- Health: GET "@ + base_url
        + "/health\nModel cache: "@ + b.model_cache_dir@ + "\nBackend: "@ + (if b.remote_enabled {
        "remote proxy"@
    } else {
        "local"@
    }) + "\nEngine: "@ + b.engine.name() + "\nModel: "@ + (match b.warm_model {
        Some(m) => m@,
        None => if b.remote_enabled {
            "configured remote model"@
        } else {
            "none"@
        },
    }) + "\nAuth: "@ + (if b.api_key_required {
        "API key required"@
    } else {
        "none"@
    }) + "\nCORS: "@ + (if b.cors_enabled {
        "enabled"@
    } else {
        "disabled"@
    })
}

impl ServeBanner {
    /// What is shown when the server starts.
    pub fn render(&self, base_url: &str) -> (r: String)
        ensures
            r@ == banner_text(*self, base_url@),
    {
        let auth = if self.api_key_required {
            "API key required"
        } else {
            "none"
        };
        let cors = if self.cors_enabled {
            "enabled"
        } else {
            "disabled"
        };
        let backend = if self.remote_enabled {
            "remote proxy"
        } else {
            "local"
        };
        let warm = match &self.warm_model {
            Some(model) => model.as_str(),
            None => {
                if self.remote_enabled {
                    "configured remote model"
                } else {
                    "none"
                }
            },
        };
        let mut out = text::owned("Now serving Glimpse Speech API\nBase URL: ");
        out.append(base_url);
        out.append("\nServing:\n- Models: GET ");
        out.append(base_url);
        out.append("/v1/models\n- Transcriptions: POST ");
        out.append(base_url);
        out.append("/v1/audio/transcriptions\n- Health: GET ");
        out.append(base_url);
        out.append("/health\nModel cache: ");
        out.append(self.model_cache_dir.as_str());
        out.append("\nBackend: ");
        out.append(backend);
        out.append("\nEngine: ");
        out.append(self.engine.as_str());
        out.append("\nModel: ");
        out.append(warm);
        out.append("\nAuth: ");
        out.append(auth);
        out.append("\nCORS: ");
        out.append(cors);
        out
    }
}

/// The address in a report that the server listens.
pub fn listening_address(message: &str) -> (r: Option<String>)
    ensures
        text::opt_text(r) == (if text::begins_with(message@, LISTENING_PREFIX@) {
            Some(message@.skip(LISTENING_PREFIX@.len() as int))
        } else {
            None
        }),
{
    if !text::starts_with(message, LISTENING_PREFIX) {
        return None;
    }
    let x = text::chars_of(message);
    let prefix = text::chars_of(LISTENING_PREFIX);
    let rest = text::string_between(x.as_slice(), prefix.len(), x.len());
    assert(rest@ =~= message@.skip(LISTENING_PREFIX@.len() as int));
    Some(rest)
}

/// The file name that a URL suggests is what stands after its last slash, or
/// before slashes at its end, up to a question mark or a number sign. Without any
/// it is `model.bin`.
pub proof fn law_suggested_names(front: Seq<char>, name: Seq<char>, more: Seq<char>)
    requires
        name.len() > 0,
        !name.contains('/') && !name.contains('?') && !name.contains('#'),
        !more.contains('/'),
    ensures
        suggested_name(front.push('/') + name) == name,
        suggested_name(name) == name,
        suggested_name(front.push('/') + name.push('?') + more) == name,
        !more.contains('?') ==> suggested_name(front.push('/') + name.push('#') + more) == name,
        suggested_name(""@) == "model.bin"@,
{
    reveal_strlit("");
    let none = Seq::<char>::empty();
    assert(""@ =~= none);
    text::lemma_split_none(none, '/');
    assert(seq![none].drop_last() =~= Seq::<Seq<char>>::empty());
    assert(last_nonempty(seq![none]) == last_nonempty(seq![none].drop_last()));
    lemma_free(name, '/');
    lemma_free(name, '?');
    lemma_free(name, '#');
    text::lemma_split_none(name, '/');
    text::lemma_split_none(name, '?');
    text::lemma_split_none(name, '#');
    text::lemma_split_concat(front, name, '/');
    assert((text::split_on(front, '/') + seq![name]).last() == name);
    let asked = name.push('?') + more;
    lemma_no_slash(name, '?', more);
    text::lemma_split_none(asked, '/');
    text::lemma_split_concat(front, asked, '/');
    assert((text::split_on(front, '/') + seq![asked]).last() == asked);
    assert(front.push('/') + name.push('?') + more =~= front.push('/') + asked);
    text::lemma_split_concat(name, more, '?');
    if !more.contains('?') {
        let part = name.push('#') + more;
        lemma_no_slash(name, '#', more);
        lemma_free(more, '?');
        assert forall|i: int| 0 <= i < part.len() implies #[trigger] part[i] != '?' by {
            if i > name.len() {
                assert(part[i] == more[i - name.len() - 1]);
            }
        }
        text::lemma_split_none(part, '/');
        text::lemma_split_none(part, '?');
        text::lemma_split_concat(front, part, '/');
        assert((text::split_on(front, '/') + seq![part]).last() == part);
        assert(front.push('/') + name.push('#') + more =~= front.push('/') + part);
        text::lemma_split_concat(name, more, '#');
    }
}

proof fn lemma_free(s: Seq<char>, c: char)
    requires
        !s.contains(c),
    ensures
        forall|i: int| 0 <= i < s.len() ==> #[trigger] s[i] != c,
{
    assert forall|i: int| 0 <= i < s.len() implies #[trigger] s[i] != c by {
        assert(s.contains(s[i]));
    }
}

proof fn lemma_no_slash(name: Seq<char>, c: char, more: Seq<char>)
    requires
        c != '/',
        !name.contains('/'),
        !more.contains('/'),
    ensures
        forall|i: int|
            0 <= i < (name.push(c) + more).len() ==> #[trigger] (name.push(c) + more)[i] != '/',
{
    lemma_free(name, '/');
    lemma_free(more, '/');
    let whole = name.push(c) + more;
    assert forall|i: int| 0 <= i < whole.len() implies #[trigger] whole[i] != '/' by {
        if i < name.len() {
            assert(whole[i] == name[i]);
        } else if i > name.len() {
            assert(whole[i] == more[i - name.len() - 1]);
        }
    }
}

/// Texts are ordered by the first character in which they differ, and one that
/// begins another comes before it.
pub proof fn law_order_of_texts(front: Seq<char>, a: Seq<char>, b: Seq<char>)
    ensures
        text_le(front, front + a),
        a.len() > 0 && b.len() > 0 && a[0] != b[0] ==> (text_le(front + a, front + b) <==> a[0]
            < b[0]),
    decreases front.len(),
{
    if front.len() == 0 {
        assert(front + a =~= a);
        assert(front + b =~= b);
    } else {
        law_order_of_texts(front.drop_first(), a, b);
        assert((front + a).drop_first() =~= front.drop_first() + a);
        assert((front + b).drop_first() =~= front.drop_first() + b);
    }
}

/// A blank value is none, and any other is trimmed; the model of a remote
/// endpoint is its own, or else the local one, as it was given.
pub proof fn law_blank_values_are_none(value: Seq<char>, options: ServeOptions)
    ensures
        real_text(None) is None,
        text::trimmed(value).len() == 0 ==> real_text(Some(value)) is None,
        text::trimmed(value).len() > 0 ==> real_text(Some(value)) == Some(text::trimmed(value)),
        ({
            let given = if options.remote_model is Some {
                Some(options.remote_model->0@)
            } else if options.model is Some {
                Some(options.model->0@)
            } else {
                None
            };
            &&& given is Some && text::trimmed(given->0).len() > 0 ==> remote_model_of(options)
                == given
            &&& given is None || text::trimmed(given->0).len() == 0 ==> remote_model_of(
                options,
            ) is None
        }),
{
}

/// What is shown when the server starts says last whether it takes calls from
/// other pages, before that whether it asks for a key, and before that which
/// model, engine and backend it has; its address comes first.
pub proof fn law_banners(b: ServeBanner, base_url: Seq<char>) -> (front: Seq<char>)
    ensures
        banner_text(b, base_url) == "Now serving Glimpse Speech API\nBase URL: "@ + base_url + front
            + "\nModel cache: "@ + b.model_cache_dir@ + "\nBackend: "@ + (if b.remote_enabled {
            "remote proxy"@
        } else {
            "local"@
        }) + "\nEngine: "@ + b.engine.name() + "\nModel: "@ + (if b.warm_model is Some {
            b.warm_model->0@
        } else if b.remote_enabled {
            "configured remote model"@
        } else {
            "none"@
        }) + "\nAuth: "@ + (if b.api_key_required {
            "API key required"@
        } else {
            "none"@
        }) + "\nCORS: "@ + (if b.cors_enabled {
            "enabled"@
        } else {
            "disabled"@
        }),
        front == "\nServing:\n- Models: GET "@ + base_url + "/v1/models\n- Transcriptions: POST "@
            + base_url + "/v1/audio/transcriptions\n- Health: GET "@ + base_url + "/health"@,
{
    reveal_strlit("/health\nModel cache: ");
    reveal_strlit("/health");
    reveal_strlit("\nModel cache: ");
    assert("/health\nModel cache: "@ =~= "/health"@ + "\nModel cache: "@);
    let head = "Now serving Glimpse Speech API\nBase URL: "@ + base_url;
    let a = "\nServing:\n- Models: GET "@;
    let c = "/v1/models\n- Transcriptions: POST "@;
    let d = "/v1/audio/transcriptions\n- Health: GET "@;
    let front = a + base_url + c + base_url + d + base_url + "/health"@;
    assert(head + a + base_url + c + base_url + d + base_url + ("/health"@ + "\nModel cache: "@)
        =~= head + front + "\nModel cache: "@);
    front
}

} // verus!
