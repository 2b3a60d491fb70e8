//! Finding the directory of a model and the name that it is served under.

use crate::error::ModelError;
use crate::text;
use vstd::prelude::*;

verus! {

/// A path as its parts between slashes. A part that is not valid text is
/// `None`.
pub struct ModelPath {
    pub segments: Vec<Option<String>>,
}

pub open spec fn segment_view(segment: Option<String>) -> Option<Seq<char>> {
    match segment {
        Some(text) => Some(text@),
        None => None,
    }
}

impl View for ModelPath {
    type V = Seq<Option<Seq<char>>>;

    open spec fn view(&self) -> Seq<Option<Seq<char>>> {
        self.segments@.map_values(|segment: Option<String>| segment_view(segment))
    }
}

/// The path that a text spells.
pub open spec fn path_of(text: Seq<char>) -> Seq<Option<Seq<char>>> {
    text::split_at_every(text, '/').map_values(|part: Seq<char>| Some(part))
}

/// The text of a path, if all of it is valid.
pub open spec fn path_text(path: Seq<Option<Seq<char>>>) -> Option<Seq<char>> {
    if forall|i: int| 0 <= i < path.len() ==> (#[trigger] path[i]) is Some {
        Some(
            text::joined(path.map_values(|part: Option<Seq<char>>| part->0), "/"@),
        )
    } else {
        None
    }
}

/// A path below another. The slash at the end of the first counts once.
pub open spec fn path_joined(
    path: Seq<Option<Seq<char>>>,
    below: Seq<Option<Seq<char>>>,
) -> Seq<Option<Seq<char>>> {
    if path.len() > 0 && path.last() == Some(Seq::<char>::empty()) {
        path.drop_last() + below
    } else {
        path + below
    }
}

fn is_text(segment: &Option<String>, expected: &str) -> (answer: bool)
    ensures
        answer == (segment_view(*segment) == Some(expected@)),
{
    match segment {
        Some(text) => text::same(text.as_str(), expected),
        None => false,
    }
}

fn copy_segment(segment: &Option<String>) -> (out: Option<String>)
    ensures
        segment_view(out) == segment_view(*segment),
{
    match segment {
        Some(text) => Some(text.clone()),
        None => None,
    }
}

impl ModelPath {
    pub fn from_text(text: &str) -> (path: ModelPath)
        ensures
            path@ == path_of(text@),
    {
        let parts = text::split(text, '/');
        let mut segments: Vec<Option<String>> = Vec::new();
        let mut i: usize = 0;
        while i < parts.len()
            invariant
                i <= parts@.len(),
                segments@.len() == i,
                forall|j: int|
                    0 <= j < i ==> segment_view(#[trigger] segments@[j]) == Some(parts@[j]@),
            decreases parts.len() - i,
        {
            segments.push(Some(parts[i].to_owned()));
            i += 1;
        }
        let path = ModelPath { segments };
        assert(text::views(parts@) =~= text::split_at_every(text@, '/'));
        assert forall|j: int| 0 <= j < path@.len() implies path@[j] == path_of(text@)[j] by {
            assert(segment_view(segments@[j]) == Some(parts@[j]@));
            assert(text::views(parts@)[j] == parts@[j]@);
        }
        assert(path@ =~= path_of(text@));
        path
    }

    /// An equal path.
    pub fn copy(&self) -> (out: ModelPath)
        ensures
            out@ == self@,
    {
        let mut segments: Vec<Option<String>> = Vec::new();
        let mut i: usize = 0;
        while i < self.segments.len()
            invariant
                i <= self.segments@.len(),
                segments@.len() == i,
                forall|j: int|
                    0 <= j < i ==> segment_view(#[trigger] segments@[j]) == segment_view(
                        self.segments@[j],
                    ),
            decreases self.segments.len() - i,
        {
            segments.push(copy_segment(&self.segments[i]));
            i += 1;
        }
        let out = ModelPath { segments };
        assert(out@ =~= self@);
        out
    }

    /// The path `below` this one. A relative path is meant.
    pub fn join(&self, below: &str) -> (out: ModelPath)
        ensures
            out@ == path_joined(self@, path_of(below@)),
    {
        let mut out = self.copy();
        proof {
            reveal_strlit("");
            assert(""@ =~= Seq::<char>::empty());
        }
        let n: usize = out.segments.len();
        let ghost start = out@;
        if n > 0 && is_text(&out.segments[n - 1], "") {
            assert(start.last() == segment_view(out.segments@[n - 1]));
            let _ = out.segments.pop();
            assert(out@ =~= start.drop_last());
        } else if n > 0 {
            assert(start.last() == segment_view(out.segments@[n - 1]));
        }
        let ghost kept = out@;
        let tail = ModelPath::from_text(below);
        let ghost added = tail@;
        let mut rest = tail.segments;
        out.segments.append(&mut rest);
        assert(out@ =~= kept + added);
        out
    }

    /// The text of the path, if all of it is valid.
    pub fn to_text(&self) -> (text: Option<String>)
        ensures
            match text {
                Some(text) => path_text(self@) == Some(text@),
                None => path_text(self@) is None,
            },
    {
        let mut parts: Vec<String> = Vec::new();
        let mut i: usize = 0;
        while i < self.segments.len()
            invariant
                i <= self.segments@.len(),
                parts@.len() == i,
                forall|j: int|
                    0 <= j < i ==> self@[j] == Some((#[trigger] parts@[j])@),
            decreases self.segments.len() - i,
        {
            assert(self@[i as int] == segment_view(self.segments@[i as int]));
            match &self.segments[i] {
                Some(part) => parts.push(part.clone()),
                None => return None,
            }
            i += 1;
        }
        let text = text::join(&parts, "/");
        assert forall|j: int| 0 <= j < self@.len() implies (#[trigger] self@[j]) is Some by {
            assert(self@[j] == Some(parts@[j]@));
        }
        proof {
            let shown = text::string_views(parts@);
            let expected = self@.map_values(|part: Option<Seq<char>>| part->0);
            assert forall|j: int| 0 <= j < shown.len() implies shown[j] == expected[j] by {
                assert(self@[j] == Some(parts@[j]@));
            }
            assert(shown =~= expected);
        }
        Some(text)
    }
}

/// An owner and a name with a slash between them, neither empty.
pub open spec fn repository_id(path: Seq<Option<Seq<char>>>) -> bool {
    &&& path.len() == 2
    &&& path[0] is Some && path[0]->0.len() > 0
    &&& path[1] is Some && path[1]->0.len() > 0
}

fn is_hugging_face_id(path: &ModelPath) -> (answer: bool)
    ensures
        answer == repository_id(path@),
{
    if path.segments.len() != 2 {
        return false;
    }
    assert(path@[0] == segment_view(path.segments@[0]));
    assert(path@[1] == segment_view(path.segments@[1]));
    match (&path.segments[0], &path.segments[1]) {
        (Some(owner), Some(name)) => {
            proof {
                reveal_strlit("");
                assert(""@ =~= Seq::<char>::empty());
                if owner@.len() == 0 {
                    assert(owner@ =~= ""@);
                }
                if name@.len() == 0 {
                    assert(name@ =~= ""@);
                }
            }
            !text::same(owner.as_str(), "") && !text::same(name.as_str(), "")
        },
        _ => false,
    }
}

/// The repository that a path names, if it is the identifier of one.
pub fn hugging_face_model_id(model: &ModelPath) -> (id: Option<String>)
    ensures
        match id {
            Some(id) => repository_id(model@) && path_text(model@) == Some(id@),
            None => !repository_id(model@),
        },
{
    if is_hugging_face_id(model) {
        assert(path_text(model@) is Some) by {
            assert forall|i: int| 0 <= i < model@.len() implies (#[trigger] model@[i]) is Some by {
                assert(i == 0 || i == 1);
            }
        }
        model.to_text()
    } else {
        None
    }
}

/// `s` with a slash for each pair of hyphens, from the left.
pub open spec fn with_slashes(s: Seq<char>) -> Seq<char>
    decreases s.len(),
{
    if s.len() == 0 {
        s
    } else if s.len() >= 2 && s[0] == '-' && s[1] == '-' {
        "/"@ + with_slashes(s.skip(2))
    } else {
        seq![s[0]] + with_slashes(s.drop_first())
    }
}

fn replace_hyphens(s: &str) -> (out: String)
    ensures
        out@ == with_slashes(s@),
{
    let list = text::chars(s);
    let mut out = String::new();
    let mut i: usize = 0;
    assert(s@.skip(0) =~= s@);
    assert(out@ + with_slashes(s@.skip(0)) =~= with_slashes(s@));
    while i < list.len()
        invariant
            i <= list@.len(),
            list@ == s@,
            out@ + with_slashes(s@.skip(i as int)) == with_slashes(s@),
        decreases list.len() - i,
    {
        let ghost before = out@;
        let ghost rest = s@.skip(i as int);
        assert(rest[0] == list@[i as int]);
        if list.len() - i >= 2 && list[i] == '-' && list[i + 1] == '-' {
            assert(rest[1] == list@[i + 1]);
            out.append("/");
            assert(rest.skip(2) =~= s@.skip(i + 2));
            assert(before + ("/"@ + with_slashes(rest.skip(2))) =~= out@ + with_slashes(
                s@.skip(i + 2),
            ));
            i += 2;
        } else {
            assert(rest.len() >= 2 ==> rest[1] == list@[i + 1]);
            let c = s.substring_char(i, i + 1);
            out.append(c);
            assert(c@ =~= seq![rest[0]]);
            assert(rest.drop_first() =~= s@.skip(i + 1));
            assert(before + (seq![rest[0]] + with_slashes(rest.drop_first())) =~= out@
                + with_slashes(s@.skip(i + 1)));
            i += 1;
        }
    }
    assert(with_slashes(s@.skip(i as int)) =~= Seq::empty());
    assert(out@ =~= with_slashes(s@));
    out
}

/// The repository of the last part that a cache directory is named by.
pub open spec fn cached_repository(path: Seq<Option<Seq<char>>>) -> Option<Seq<char>>
    decreases path.len(),
{
    if path.len() == 0 {
        None
    } else {
        match path.last() {
            Some(name) if text::starts_with(name, "models--"@) => Some(
                with_slashes(name.skip("models--"@.len() as int)),
            ),
            _ => cached_repository(path.drop_last()),
        }
    }
}

/// The name at the end of a path. Empty parts and single dots do not count, and
/// a path that ends by going up has none.
pub open spec fn file_name(path: Seq<Option<Seq<char>>>) -> Option<Seq<char>>
    decreases path.len(),
{
    if path.len() == 0 {
        None
    } else {
        match path.last() {
            Some(name) => if name == ""@ || name == "."@ {
                file_name(path.drop_last())
            } else if name == ".."@ {
                None
            } else {
                Some(name)
            },
            None => None,
        }
    }
}

/// The name of the model in a directory.
pub open spec fn inferred_id(path: Seq<Option<Seq<char>>>) -> Seq<char> {
    match cached_repository(path) {
        Some(repository) => repository,
        None => match file_name(path) {
            Some(name) => name,
            None => "qwen3"@,
        },
    }
}

/// The name of the model in a directory: the repository that the cache keeps it
/// for, or the name of the directory.
pub fn infer_model_id(path: &ModelPath) -> (id: String)
    ensures
        id@ == inferred_id(path@),
{
    let ghost all = path@;
    let mut n: usize = path.segments.len();
    assert(all.take(n as int) =~= all);
    while n > 0
        invariant
            n <= path.segments@.len(),
            all == path@,
            cached_repository(all) == cached_repository(all.take(n as int)),
        decreases n,
    {
        let ghost shown = all.take(n as int);
        assert(shown.last() == segment_view(path.segments@[n - 1]));
        assert(shown.drop_last() =~= all.take(n - 1));
        match &path.segments[n - 1] {
            Some(name) => match text::strip_prefix(name.as_str(), "models--") {
                Some(repository) => return replace_hyphens(repository),
                None => {},
            },
            None => {},
        }
        n -= 1;
    }
    assert(cached_repository(all) is None);
    let mut n: usize = path.segments.len();
    assert(all.take(n as int) =~= all);
    while n > 0
        invariant
            n <= path.segments@.len(),
            all == path@,
            cached_repository(all) is None,
            file_name(all) == file_name(all.take(n as int)),
        decreases n,
    {
        let ghost shown = all.take(n as int);
        assert(shown.last() == segment_view(path.segments@[n - 1]));
        assert(shown.drop_last() =~= all.take(n - 1));
        match &path.segments[n - 1] {
            Some(name) => {
                if text::same(name.as_str(), "..") {
                    proof {
                        reveal_strlit("..");
                        reveal_strlit(".");
                        reveal_strlit("");
                        assert(".."@.len() == 2 && "."@.len() == 1 && ""@.len() == 0);
                    }
                    return "qwen3".to_owned();
                }
                if !text::same(name.as_str(), "") && !text::same(name.as_str(), ".") {
                    return name.clone();
                }
            },
            None => return "qwen3".to_owned(),
        }
        n -= 1;
    }
    "qwen3".to_owned()
}

/// The directory of the Hugging Face cache, from the three variables that may
/// name it.
pub open spec fn cache_root(
    hub_cache: Option<Seq<Option<Seq<char>>>>,
    hf_home: Option<Seq<Option<Seq<char>>>>,
    home: Option<Seq<Option<Seq<char>>>>,
) -> Option<Seq<Option<Seq<char>>>> {
    match (hub_cache, hf_home, home) {
        (Some(path), _, _) => Some(path),
        (None, Some(path), _) => Some(path_joined(path, path_of("hub"@))),
        (None, None, Some(path)) => Some(path_joined(path, path_of(".cache/huggingface/hub"@))),
        (None, None, None) => None,
    }
}

pub open spec fn path_view(path: Option<ModelPath>) -> Option<Seq<Option<Seq<char>>>> {
    match path {
        Some(path) => Some(path@),
        None => None,
    }
}

/// The directory of the cache from HUGGINGFACE_HUB_CACHE, HF_HOME and HOME.
pub fn hugging_face_cache_root(
    hub_cache: Option<ModelPath>,
    hf_home: Option<ModelPath>,
    home: Option<ModelPath>,
) -> (root: Option<ModelPath>)
    ensures
        path_view(root) == cache_root(path_view(hub_cache), path_view(hf_home), path_view(home)),
{
    match hub_cache {
        Some(path) => Some(path),
        None => match hf_home {
            Some(path) => Some(path.join("hub")),
            None => match home {
                Some(path) => Some(path.join(".cache/huggingface/hub")),
                None => None,
            },
        },
    }
}

/// One character right behind another.
pub open spec fn has_pair(s: Seq<char>, a: char, b: char) -> bool {
    exists|i: int| 0 <= i < s.len() - 1 && #[trigger] s[i] == a && s[i + 1] == b
}

/// The revision that a reference file names, if it can be a directory name.
pub open spec fn revision_of(content: Seq<char>) -> Option<Seq<char>> {
    let revision = text::trimmed(content);
    if revision.len() > 0 && !revision.contains('/') && !has_pair(revision, '.', '.') {
        Some(revision)
    } else {
        None
    }
}

/// The revision in a reference file that was read.
pub fn usable_revision(content: &str) -> (revision: Option<String>)
    ensures
        match revision {
            Some(revision) => revision_of(content@) == Some(revision@),
            None => revision_of(content@) is None,
        },
{
    let revision = text::trim(content);
    let list = text::chars(revision);
    if list.len() == 0 {
        return None;
    }
    let mut i: usize = 0;
    while i < list.len()
        invariant
            i <= list@.len(),
            list@ == revision@,
            revision@ == text::trimmed(content@),
            forall|j: int| 0 <= j < i ==> list@[j] != '/',
            forall|j: int|
                0 <= j < i && j + 1 < list@.len() ==> !(#[trigger] list@[j] == '.' && list@[j + 1]
                    == '.'),
        decreases list.len() - i,
    {
        if list[i] == '/' {
            assert(revision@.contains(revision@[i as int]));
            return None;
        }
        if list[i] == '.' && i + 1 < list.len() && list[i + 1] == '.' {
            assert(has_pair(revision@, '.', '.'));
            return None;
        }
        i += 1;
    }
    Some(revision.to_owned())
}

/// The index of the newest entry: the last of those with the greatest time. An
/// entry without a time is older than any other.
pub open spec fn is_newest(times: Seq<Option<i128>>, at: int) -> bool {
    &&& 0 <= at < times.len()
    &&& forall|i: int| 0 <= i < times.len() ==> !later(#[trigger] times[i], times[at])
    &&& forall|i: int| at < i < times.len() ==> later(times[at], #[trigger] times[i])
}

pub open spec fn later(a: Option<i128>, b: Option<i128>) -> bool {
    match (a, b) {
        (Some(a), Some(b)) => a > b,
        (Some(_), None) => true,
        (None, _) => false,
    }
}

fn is_later(a: Option<i128>, b: Option<i128>) -> (answer: bool)
    ensures
        answer == later(a, b),
{
    match (a, b) {
        (Some(a), Some(b)) => a > b,
        (Some(_), None) => true,
        (None, _) => false,
    }
}

/// The newest of the snapshots, by the times that they were changed.
pub fn newest_snapshot(times: &Vec<Option<i128>>) -> (newest: Option<usize>)
    ensures
        match newest {
            Some(at) => is_newest(times@, at as int),
            None => times@.len() == 0,
        },
{
    if times.len() == 0 {
        return None;
    }
    let mut best: usize = 0;
    let mut i: usize = 1;
    while i < times.len()
        invariant
            best < i <= times@.len(),
            forall|j: int| 0 <= j < i ==> !later(#[trigger] times@[j], times@[best as int]),
            forall|j: int| best < j < i ==> later(times@[best as int], #[trigger] times@[j]),
        decreases times.len() - i,
    {
        if !is_later(times[best], times[i]) {
            best = i;
        }
        i += 1;
    }
    Some(best)
}

/// An entry of the snapshot directory: where it is, and when it was changed.
pub struct Snapshot {
    pub path: ModelPath,
    pub modified: Option<i128>,
}

pub open spec fn times_of(entries: Seq<Snapshot>) -> Seq<Option<i128>> {
    entries.map_values(|entry: Snapshot| entry.modified)
}

/// What the file system answered.
pub enum Answer {
    /// Whether the model path is a directory.
    Directory(bool),
    /// The reference file of the repository, if it could be read.
    Revision(Option<String>),
    /// The directories in the snapshot directory, nothing if there is none.
    Snapshots(Option<Vec<Snapshot>>),
    /// The snapshot directory is there but could not be listed.
    Unlistable,
    /// Whether a snapshot has its configuration and its tokenizer.
    Snapshot { has_config: bool, has_tokenizer: bool },
}

/// What to ask the file system next.
pub enum Question {
    /// Is the model path a directory?
    IsDirectory,
    /// What does `refs/main` of this repository hold?
    Revision { repository: ModelPath },
    /// What does this directory list?
    Snapshots { directory: ModelPath },
    /// Does this snapshot have `config.json` and `tokenizer.json`?
    Snapshot { snapshot: ModelPath },
    /// Nothing more: the directory, or why there is none.
    Nothing { outcome: Result<ModelPath, ModelError> },
}

/// The search for the directory of a model.
pub struct Locator {
    pub model: ModelPath,
    pub cache: Option<ModelPath>,
    pub question: Question,
}

#[verifier::ext_equal]
pub enum Search {
    IsDirectory,
    Revision { repository: Seq<Option<Seq<char>>> },
    Snapshots { directory: Seq<Option<Seq<char>>> },
    Snapshot { snapshot: Seq<Option<Seq<char>>> },
    Found { directory: Seq<Option<Seq<char>>> },
    Failed { error: ModelError },
}

impl View for Question {
    type V = Search;

    open spec fn view(&self) -> Search {
        match self {
            Question::IsDirectory => Search::IsDirectory,
            Question::Revision { repository } => Search::Revision { repository: repository@ },
            Question::Snapshots { directory } => Search::Snapshots { directory: directory@ },
            Question::Snapshot { snapshot } => Search::Snapshot { snapshot: snapshot@ },
            Question::Nothing { outcome: Ok(directory) } => Search::Found { directory: directory@ },
            Question::Nothing { outcome: Err(error) } => Search::Failed { error: *error },
        }
    }
}

/// The directory that the cache keeps a repository in.
pub open spec fn repository_path(
    cache: Seq<Option<Seq<char>>>,
    owner: Seq<char>,
    name: Seq<char>,
) -> Seq<Option<Seq<char>>> {
    path_joined(cache, path_of("models--"@ + owner + "--"@ + name))
}

/// The search goes on in the cache if the model is the identifier of a
/// repository.
pub open spec fn not_a_directory(
    model: Seq<Option<Seq<char>>>,
    cache: Option<Seq<Option<Seq<char>>>>,
) -> Search {
    if path_text(model) is None {
        Search::Failed { error: ModelError::NonUtf8ModelPath }
    } else if !repository_id(model) {
        Search::Failed { error: ModelError::ModelDirectoryMissing }
    } else {
        match cache {
            None => Search::Failed { error: ModelError::HuggingFaceCacheMissing },
            Some(cache) => Search::Revision {
                repository: repository_path(cache, model[0]->0, model[1]->0),
            },
        }
    }
}

/// The search after an answer to its question. Other answers change nothing.
pub open spec fn searched(
    model: Seq<Option<Seq<char>>>,
    cache: Option<Seq<Option<Seq<char>>>>,
    search: Search,
    answer: Answer,
    after: Search,
) -> bool {
    match (search, answer) {
        (Search::IsDirectory, Answer::Directory(is_directory)) => after == if is_directory {
            Search::Found { directory: model }
        } else {
            not_a_directory(model, cache)
        },
        (Search::Revision { repository }, Answer::Revision(content)) => {
            let snapshots = path_joined(repository, path_of("snapshots"@));
            after == match content {
                Some(content) => match revision_of(content@) {
                    Some(revision) => Search::Snapshot {
                        snapshot: path_joined(snapshots, path_of(revision)),
                    },
                    None => Search::Snapshots { directory: snapshots },
                },
                None => Search::Snapshots { directory: snapshots },
            }
        },
        (Search::Snapshots { .. }, Answer::Snapshots(listed)) => match listed {
            Some(entries) if entries@.len() > 0 => exists|at: int|
                #[trigger] is_newest(times_of(entries@), at) && after == (Search::Snapshot {
                    snapshot: entries@[at].path@,
                }),
            _ => after == (Search::Failed { error: ModelError::ModelNotCached }),
        },
        (Search::Snapshots { .. }, Answer::Unlistable) => after == (Search::Failed {
            error: ModelError::Io,
        }),
        (Search::Snapshot { snapshot }, Answer::Snapshot { has_config, has_tokenizer }) => after
            == if has_config && has_tokenizer {
            Search::Found { directory: snapshot }
        } else {
            Search::Failed { error: ModelError::ModelNotCached }
        },
        _ => after == search,
    }
}

impl Locator {
    pub fn new(model: ModelPath, cache: Option<ModelPath>) -> (locator: Locator)
        ensures
            locator.model@ == model@,
            path_view(locator.cache) == path_view(cache),
            locator.question@ == Search::IsDirectory,
    {
        Locator { model, cache, question: Question::IsDirectory }
    }

    /// The next question after an answer.
    pub fn answered(self, answer: Answer) -> (next: Locator)
        ensures
            next.model@ == self.model@,
            path_view(next.cache) == path_view(self.cache),
            searched(
                self.model@,
                path_view(self.cache),
                self.question@,
                answer,
                next.question@,
            ),
    {
        let Locator { model, cache, question } = self;
        let question = match question {
            Question::IsDirectory => match answer {
                Answer::Directory(true) => Question::Nothing { outcome: Ok(model.copy()) },
                Answer::Directory(false) => look_in_cache(&model, &cache),
                _ => Question::IsDirectory,
            },
            Question::Revision { repository } => match answer {
                Answer::Revision(content) => {
                    let snapshots = repository.join("snapshots");
                    let revision = match content {
                        Some(content) => usable_revision(content.as_str()),
                        None => None,
                    };
                    match revision {
                        Some(revision) => Question::Snapshot {
                            snapshot: snapshots.join(revision.as_str()),
                        },
                        None => Question::Snapshots { directory: snapshots },
                    }
                },
                _ => Question::Revision { repository },
            },
            Question::Snapshots { directory } => match answer {
                Answer::Snapshots(None) => Question::Nothing {
                    outcome: Err(ModelError::ModelNotCached),
                },
                Answer::Snapshots(Some(entries)) => take_newest(entries),
                Answer::Unlistable => Question::Nothing { outcome: Err(ModelError::Io) },
                _ => Question::Snapshots { directory },
            },
            Question::Snapshot { snapshot } => match answer {
                Answer::Snapshot { has_config, has_tokenizer } => if has_config && has_tokenizer {
                    Question::Nothing { outcome: Ok(snapshot) }
                } else {
                    Question::Nothing { outcome: Err(ModelError::ModelNotCached) }
                },
                _ => Question::Snapshot { snapshot },
            },
            Question::Nothing { outcome } => Question::Nothing { outcome },
        };
        Locator { model, cache, question }
    }
}

fn look_in_cache(model: &ModelPath, cache: &Option<ModelPath>) -> (question: Question)
    ensures
        question@ == not_a_directory(model@, path_view(*cache)),
{
    if model.to_text().is_none() {
        return Question::Nothing { outcome: Err(ModelError::NonUtf8ModelPath) };
    }
    if !is_hugging_face_id(model) {
        return Question::Nothing { outcome: Err(ModelError::ModelDirectoryMissing) };
    }
    match cache {
        None => Question::Nothing { outcome: Err(ModelError::HuggingFaceCacheMissing) },
        Some(cache) => {
            assert(model@[0] == segment_view(model.segments@[0]));
            assert(model@[1] == segment_view(model.segments@[1]));
            match (&model.segments[0], &model.segments[1]) {
                (Some(owner), Some(name)) => {
                    let mut directory = "models--".to_owned();
                    directory.append(owner.as_str());
                    directory.append("--");
                    directory.append(name.as_str());
                    Question::Revision { repository: cache.join(directory.as_str()) }
                },
                _ => vstd::pervasive::unreached(),
            }
        },
    }
}

fn take_newest(entries: Vec<Snapshot>) -> (question: Question)
    ensures
        entries@.len() == 0 ==> question@ == (Search::Failed { error: ModelError::ModelNotCached }),
        entries@.len() > 0 ==> exists|at: int| #[trigger]
            is_newest(times_of(entries@), at) && question@ == (
            Search::Snapshot { snapshot: entries@[at].path@ }),
{
    let mut times: Vec<Option<i128>> = Vec::new();
    let mut i: usize = 0;
    while i < entries.len()
        invariant
            i <= entries@.len(),
            times@.len() == i,
            forall|j: int| 0 <= j < i ==> (#[trigger] times@[j]) == entries@[j].modified,
        decreases entries.len() - i,
    {
        times.push(entries[i].modified);
        i += 1;
    }
    assert(times@ =~= times_of(entries@));
    match newest_snapshot(&times) {
        Some(at) => Question::Snapshot { snapshot: entries[at].path.copy() },
        None => Question::Nothing { outcome: Err(ModelError::ModelNotCached) },
    }
}

/// Where a model lies, and the name that it is served under.
pub struct ModelSource {
    pub directory: ModelPath,
    pub model_id: String,
}

impl ModelSource {
    /// The source of a model whose search has ended. The identifier of a
    /// repository names itself.
    pub fn resolve(model: &ModelPath, located: Result<ModelPath, ModelError>) -> (result: Result<
        ModelSource,
        ModelError,
    >)
        ensures
            match located {
                Err(error) => result == Err::<ModelSource, ModelError>(error),
                Ok(directory) => {
                    &&& result is Ok
                    &&& result->Ok_0.directory@ == directory@
                    &&& if repository_id(model@) {
                        path_text(model@) == Some(result->Ok_0.model_id@)
                    } else {
                        result->Ok_0.model_id@ == inferred_id(directory@)
                    }
                },
            },
    {
        let directory = located?;
        let model_id = match hugging_face_model_id(model) {
            Some(id) => id,
            None => infer_model_id(&directory),
        };
        Ok(ModelSource { directory, model_id })
    }
}

proof fn lemma_without_pairs(s: Seq<char>)
    requires
        !has_pair(s, '-', '-'),
    ensures
        with_slashes(s) == s,
    decreases s.len(),
{
    if s.len() > 0 {
        let rest = s.drop_first();
        assert(!has_pair(rest, '-', '-')) by {
            if has_pair(rest, '-', '-') {
                let i = choose|i: int|
                    0 <= i < rest.len() - 1 && #[trigger] rest[i] == '-' && rest[i + 1] == '-';
                assert(s[i + 1] == '-' && s[i + 1 + 1] == '-');
            }
        }
        lemma_without_pairs(rest);
        assert(seq![s[0]] + rest =~= s);
        if s.len() >= 2 && s[0] == '-' {
            assert(s[0int + 1] != '-');
        }
    }
}

proof fn lemma_slash_between(owner: Seq<char>, name: Seq<char>)
    requires
        !has_pair(owner, '-', '-'),
        owner.len() > 0 ==> owner.last() != '-',
    ensures
        with_slashes(owner + "--"@ + name) == owner + "/"@ + with_slashes(name),
    decreases owner.len(),
{
    reveal_strlit("--");
    let s = owner + "--"@ + name;
    if owner.len() == 0 {
        assert(s.skip(2) =~= name);
        assert(owner + "/"@ =~= "/"@);
    } else {
        let rest = owner.drop_first();
        assert(!has_pair(rest, '-', '-')) by {
            if has_pair(rest, '-', '-') {
                let i = choose|i: int|
                    0 <= i < rest.len() - 1 && #[trigger] rest[i] == '-' && rest[i + 1] == '-';
                assert(owner[i + 1] == '-' && owner[i + 1 + 1] == '-');
            }
        }
        lemma_slash_between(rest, name);
        assert(s.drop_first() =~= rest + "--"@ + name);
        if owner.len() >= 2 && owner[0] == '-' {
            assert(owner[0int + 1] != '-');
        }
        assert(seq![s[0]] + (rest + "/"@ + with_slashes(name)) =~= owner + "/"@ + with_slashes(name));
    }
}

proof fn lemma_single_part(text: Seq<char>)
    requires
        !text.contains('/'),
    ensures
        path_of(text) == seq![Some(text)],
{
    text::lemma_split_once_absent(text, '/');
    assert(path_of(text) =~= seq![Some(text)]);
}

/// A snapshot that the cache keeps for a repository is named after that
/// repository, unless hyphens that belong to the repository could be taken for
/// those that stand for the slash.
pub proof fn snapshots_carry_the_repository_name(
    cache: Seq<Option<Seq<char>>>,
    owner: Seq<char>,
    name: Seq<char>,
    revision: Seq<char>,
)
    requires
        owner.len() > 0,
        !owner.contains('/'),
        !name.contains('/'),
        !has_pair(owner, '-', '-'),
        !has_pair(name, '-', '-'),
        owner.last() != '-',
        !revision.contains('/'),
        !text::starts_with(revision, "models--"@),
    ensures
        inferred_id(
            path_joined(
                path_joined(repository_path(cache, owner, name), path_of("snapshots"@)),
                path_of(revision),
            ),
        ) == owner + "/"@ + name,
{
    reveal_strlit("models--");
    reveal_strlit("--");
    reveal_strlit("snapshots");
    let kept = "models--"@ + owner + "--"@ + name;
    assert(!kept.contains('/')) by {
        if kept.contains('/') {
            let i = choose|i: int| 0 <= i < kept.len() && kept[i] == '/';
            if 8 <= i < 8 + owner.len() {
                assert(owner[i - 8] == '/');
            } else if i >= 10 + owner.len() {
                assert(name[i - 10 - owner.len()] == '/');
            }
        }
    }
    assert(!"snapshots"@.contains('/'));
    lemma_single_part(kept);
    lemma_single_part("snapshots"@);
    lemma_single_part(revision);
    let repository = repository_path(cache, owner, name);
    assert(repository.last() == Some(kept));
    let snapshots = path_joined(repository, path_of("snapshots"@));
    assert(snapshots =~= repository.push(Some("snapshots"@)));
    let snapshot = path_joined(snapshots, path_of(revision));
    assert("snapshots"@.len() > 0);
    assert(snapshot =~= snapshots.push(Some(revision)));
    assert(snapshot.drop_last() =~= snapshots);
    assert(snapshots.drop_last() =~= repository);
    assert("snapshots"@[0] == 's' && "models--"@[0] == 'm');
    assert("snapshots"@.take(8)[0] == 's');
    assert(!text::starts_with("snapshots"@, "models--"@));
    assert(kept.take(8) =~= "models--"@);
    assert(kept.skip(8) =~= owner + "--"@ + name);
    assert(cached_repository(snapshot) == cached_repository(snapshots));
    assert(cached_repository(snapshots) == cached_repository(repository));
    lemma_slash_between(owner, name);
    lemma_without_pairs(name);
}

/// The variables that may name the cache say the same: a home directory stands for the
/// `.cache/huggingface` below it, that or the directory of the second variable for the
/// `hub` below it, and the first variable for itself, whatever the others are.
pub proof fn each_variable_names_the_cache_of_the_next(
    path: Seq<Option<Seq<char>>>,
    second: Option<Seq<Option<Seq<char>>>>,
    third: Option<Seq<Option<Seq<char>>>>,
)
    ensures
        cache_root(Some(path), second, third) == Some(path),
        cache_root(None, Some(path), third) == cache_root(
            Some(path_joined(path, path_of("hub"@))),
            None,
            None,
        ),
        cache_root(None, None, Some(path)) == cache_root(
            None,
            Some(path_joined(path, path_of(".cache/huggingface"@))),
            None,
        ),
        cache_root(None, None, None) is None,
{
    reveal_strlit("hub");
    reveal_strlit(".cache/huggingface");
    reveal_strlit(".cache/huggingface/hub");
    reveal_strlit(".cache");
    reveal_strlit("huggingface");
    let a = ".cache"@;
    let b = "huggingface"@;
    let c = "hub"@;
    let sep = seq!['/'];
    assert forall|i: int| 0 <= i < a.len() implies a[i] != '/' by {}
    assert forall|i: int| 0 <= i < b.len() implies b[i] != '/' by {}
    assert forall|i: int| 0 <= i < c.len() implies c[i] != '/' by {}
    assert(!a.contains('/') && !b.contains('/') && !c.contains('/'));
    text::lemma_split_joined(seq![a, b], '/');
    text::lemma_split_joined(seq![a, b, c], '/');
    text::lemma_split_joined(seq![c], '/');
    reveal_with_fuel(text::joined, 4);
    assert(seq![a, b].drop_first() =~= seq![b]);
    assert(seq![a, b, c].drop_first() =~= seq![b, c]);
    assert(seq![b, c].drop_first() =~= seq![c]);
    assert(text::joined(seq![a, b], sep) =~= ".cache/huggingface"@);
    assert(text::joined(seq![a, b, c], sep) =~= ".cache/huggingface/hub"@);
    assert(text::joined(seq![c], sep) =~= c);
    let two = path_of(".cache/huggingface"@);
    let three = path_of(".cache/huggingface/hub"@);
    let one = path_of("hub"@);
    assert(two =~= seq![Some(a), Some(b)]);
    assert(three =~= seq![Some(a), Some(b), Some(c)]);
    assert(one =~= seq![Some(c)]);
    let below = path_joined(path, two);
    assert(below.last() == Some(b));
    assert(b.len() == 11);
    assert(path_joined(below, one) =~= path_joined(path, three));
}

/// A path is spelled as it was read: the text of a path that a text spells is that text.
pub proof fn a_path_is_spelled_as_it_was_read(text: Seq<char>)
    ensures
        path_text(path_of(text)) == Some(text),
{
    reveal_strlit("/");
    let parts = text::split_at_every(text, '/');
    text::parts_join_to_the_text(text, '/');
    assert("/"@ =~= seq!['/']);
    assert(path_of(text).map_values(|part: Option<Seq<char>>| part->0) =~= parts);
}

/// A directory is found only where the model path itself is one, or where a snapshot has
/// both its configuration and its tokenizer; and such a snapshot is found.
pub proof fn only_complete_snapshots_are_found(
    model: Seq<Option<Seq<char>>>,
    cache: Option<Seq<Option<Seq<char>>>>,
    search: Search,
    answer: Answer,
    after: Search,
)
    requires
        searched(model, cache, search, answer, after),
        !(search is Found),
    ensures
        after matches Search::Found { directory } ==> {
            ||| search is IsDirectory && answer == Answer::Directory(true) && directory == model
            ||| search == (Search::Snapshot { snapshot: directory }) && answer == (
            Answer::Snapshot { has_config: true, has_tokenizer: true })
        },
        search is IsDirectory && answer == Answer::Directory(true) ==> after == (Search::Found {
            directory: model,
        }),
        search matches Search::Snapshot { snapshot } ==> answer == (Answer::Snapshot {
            has_config: true,
            has_tokenizer: true,
        }) ==> after == (Search::Found { directory: snapshot }),
{
    if search is IsDirectory && answer is Directory && answer->Directory_0 {
        assert(answer == Answer::Directory(true));
    }
}

/// A revision is looked for below the snapshots of its repository, under its own name,
/// which cannot lead out of them.
pub proof fn a_revision_lies_below_its_snapshots(
    model: Seq<Option<Seq<char>>>,
    cache: Option<Seq<Option<Seq<char>>>>,
    repository: Seq<Option<Seq<char>>>,
    content: String,
    after: Search,
)
    requires
        searched(
            model,
            cache,
            Search::Revision { repository },
            Answer::Revision(Some(content)),
            after,
        ),
        repository.len() > 0,
        repository.last() != Some(Seq::<char>::empty()),
    ensures
        ({
            let name = text::trimmed(content@);
            let snapshots = repository.push(Some("snapshots"@));
            let usable = name.len() > 0 && !name.contains('/') && !has_pair(name, '.', '.');
            &&& usable ==> after == (Search::Snapshot { snapshot: snapshots.push(Some(name)) })
            &&& !usable ==> after == (Search::Snapshots { directory: snapshots })
        }),
{
    reveal_strlit("snapshots");
    let word = "snapshots"@;
    assert forall|i: int| 0 <= i < word.len() implies word[i] != '/' by {}
    assert(!word.contains('/'));
    lemma_plain_path(word);
    let snapshots = repository.push(Some(word));
    assert(path_joined(repository, path_of(word)) =~= snapshots);
    assert(snapshots.last() == Some(word));
    assert(word.len() == 9);
    let name = text::trimmed(content@);
    if revision_of(content@) is Some {
        lemma_plain_path(name);
        assert(path_joined(snapshots, path_of(name)) =~= snapshots.push(Some(name)));
    }
}

/// A name without a slash is a path of one part.
proof fn lemma_plain_path(name: Seq<char>)
    requires
        !name.contains('/'),
    ensures
        path_of(name) == seq![Some(name)],
{
    text::lemma_split_once_absent(name, '/');
    assert(text::split_at_every(name, '/') =~= seq![name]);
    assert(path_of(name) =~= seq![Some(name)]);
}

} // verus!
