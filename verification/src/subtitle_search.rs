//! Finding a subtitle for a movie: search by the file's hash first, by the
//! movie's IMDb id when that finds nothing, then download the first file of
//! the best result.  The caller makes the searches and the download and
//! hands back what came of them; this machine decides what comes next and
//! what is reported.
use vstd::prelude::*;
use crate::text::{to_chars, from_chars, push_str};

verus! {

/// Where a search stands.
#[derive(PartialEq, Eq, Structural, Clone, Copy, Debug)]
pub enum SearchStage {
    /// Nothing asked yet.
    Start,
    /// Waiting for the search by hash.
    ByHash,
    /// Waiting for the search by IMDb id.
    ByImdb,
    /// Waiting for the download.
    Downloading,
    /// The end has been reported.
    Done,
}

/// A subtitle search in progress: its stage, the movie's title and IMDb id.
pub struct SubtitleSearch {
    pub stage: SearchStage,
    pub title: String,
    pub imdb_id: Option<String>,
}

/// What the caller hands back.
pub enum SearchEvent {
    /// The movie has no file.
    NoFile,
    /// The movie and its file were found: the title, the file's hash when
    /// it could be computed, and the IMDb id when the movie has one.
    Begin { title: String, hash: Option<String>, imdb_id: Option<String> },
    /// A search ended: nothing when it failed or found no result, otherwise
    /// the id of the first file of the first result, if it lists any.
    Searched(Option<Option<i64>>),
    /// The download ended: where the subtitle was saved, or nothing when it
    /// failed.
    Downloaded(Option<String>),
}

/// What the caller does next.
pub enum SearchAction {
    /// Report progress (`message`, `debug`) and search by `hash`.
    QueryHash { hash: String, message: String, debug: String },
    /// Report progress (`message`, `debug`) and search by IMDb id.
    QueryImdb { imdb_id: String, message: String, debug: String },
    /// Download the subtitle file with this id next to the movie file.
    Download(i64),
    /// Report the end: completed, or failed, with `message`.
    Finish { completed: bool, message: String },
    /// Nothing: the event does not belong to this stage.
    Nothing,
}

pub struct SearchView {
    pub stage: SearchStage,
    pub title: Seq<char>,
    pub imdb_id: Option<Seq<char>>,
}

pub enum EventView {
    NoFile,
    Begin(Seq<char>, Option<Seq<char>>, Option<Seq<char>>),
    Searched(Option<Option<i64>>),
    Downloaded(Option<Seq<char>>),
}

pub enum ActionView {
    QueryHash(Seq<char>, Seq<char>, Seq<char>),
    QueryImdb(Seq<char>, Seq<char>, Seq<char>),
    Download(i64),
    Finish(bool, Seq<char>),
    Nothing,
}

pub open spec fn opt_view(o: Option<String>) -> Option<Seq<char>> {
    match o {
        Some(s) => Some(s@),
        None => None,
    }
}

impl View for SubtitleSearch {
    type V = SearchView;

    open spec fn view(&self) -> SearchView {
        SearchView { stage: self.stage, title: self.title@, imdb_id: opt_view(self.imdb_id) }
    }
}

impl View for SearchEvent {
    type V = EventView;

    open spec fn view(&self) -> EventView {
        match self {
            SearchEvent::NoFile => EventView::NoFile,
            SearchEvent::Begin { title, hash, imdb_id } => EventView::Begin(
                title@,
                opt_view(*hash),
                opt_view(*imdb_id),
            ),
            SearchEvent::Searched(r) => EventView::Searched(*r),
            SearchEvent::Downloaded(p) => EventView::Downloaded(opt_view(*p)),
        }
    }
}

impl View for SearchAction {
    type V = ActionView;

    open spec fn view(&self) -> ActionView {
        match self {
            SearchAction::QueryHash { hash, message, debug } => ActionView::QueryHash(
                hash@,
                message@,
                debug@,
            ),
            SearchAction::QueryImdb { imdb_id, message, debug } => ActionView::QueryImdb(
                imdb_id@,
                message@,
                debug@,
            ),
            SearchAction::Download(id) => ActionView::Download(*id),
            SearchAction::Finish { completed, message } => ActionView::Finish(*completed, message@),
            SearchAction::Nothing => ActionView::Nothing,
        }
    }
}

/// The progress message while a movie's subtitles are searched.
pub open spec fn searching_message(title: Seq<char>) -> Seq<char> {
    "Searching subtitles for: "@ + title
}

/// The end reported when no search found anything.
pub open spec fn search_failed() -> ActionView {
    ActionView::Finish(false, "Subtitle search failed or no matches found"@)
}

/// The end reported when a result held no file that could be fetched.
pub open spec fn nothing_found() -> ActionView {
    ActionView::Finish(true, "No matching subtitles found"@)
}

pub open spec fn with_stage(s: SearchView, stage: SearchStage) -> SearchView {
    SearchView { stage, ..s }
}

/// Search by IMDb id when there is one, else report the failure.
pub open spec fn imdb_or_fail(s: SearchView) -> (SearchView, ActionView) {
    match s.imdb_id {
        Some(i) => (
            with_stage(s, SearchStage::ByImdb),
            ActionView::QueryImdb(
                i,
                searching_message(s.title),
                "Querying OpenSubtitles for IMDB: "@ + i,
            ),
        ),
        None => (with_stage(s, SearchStage::Done), search_failed()),
    }
}

/// A search found results: download the first file of the first, if any.
pub open spec fn after_hit(s: SearchView, hit: Option<i64>) -> (SearchView, ActionView) {
    match hit {
        Some(id) => (with_stage(s, SearchStage::Downloading), ActionView::Download(id)),
        None => (with_stage(s, SearchStage::Done), nothing_found()),
    }
}

/// The next stage and action of a search in state `s` on event `e`.
pub open spec fn search_step(s: SearchView, e: EventView) -> (SearchView, ActionView) {
    match (s.stage, e) {
        (SearchStage::Start, EventView::NoFile) => (
            with_stage(s, SearchStage::Done),
            ActionView::Finish(false, "Movie file not found"@),
        ),
        (SearchStage::Start, EventView::Begin(title, hash, imdb_id)) => {
            let t = SearchView { stage: SearchStage::Start, title, imdb_id };
            match hash {
                Some(h) => (
                    with_stage(t, SearchStage::ByHash),
                    ActionView::QueryHash(
                        h,
                        searching_message(title),
                        "Querying OpenSubtitles by Hash: "@ + h,
                    ),
                ),
                None => imdb_or_fail(t),
            }
        },
        (SearchStage::ByHash, EventView::Searched(r)) => match r {
            Some(hit) => after_hit(s, hit),
            None => imdb_or_fail(s),
        },
        (SearchStage::ByImdb, EventView::Searched(r)) => match r {
            Some(hit) => after_hit(s, hit),
            None => (with_stage(s, SearchStage::Done), search_failed()),
        },
        (SearchStage::Downloading, EventView::Downloaded(p)) => match p {
            Some(path) => (
                with_stage(s, SearchStage::Done),
                ActionView::Finish(true, "Subtitle saved: "@ + path),
            ),
            None => (with_stage(s, SearchStage::Done), nothing_found()),
        },
        _ => (s, ActionView::Nothing),
    }
}

fn concat(a: &str, b: &str) -> (r: String)
    ensures
        r@ == a@ + b@,
{
    let mut v = to_chars(a);
    push_str(&mut v, b);
    from_chars(&v)
}

fn copy_string(s: &String) -> (r: String)
    ensures
        r@ == s@,
{
    let v = to_chars(s.as_str());
    from_chars(&v)
}

fn literal(s: &str) -> (r: String)
    ensures
        r@ == s@,
{
    let v = to_chars(s);
    from_chars(&v)
}

impl SubtitleSearch {
    /// A search that has not begun.
    pub fn new() -> (r: Self)
        ensures
            r@.stage == SearchStage::Start,
            r@.title.len() == 0,
            r@.imdb_id is None,
    {
        let title = from_chars(&Vec::new());
        SubtitleSearch { stage: SearchStage::Start, title, imdb_id: None }
    }

    fn search_imdb_or_fail(&mut self) -> (a: SearchAction)
        ensures
            (final(self)@, a@) == imdb_or_fail(old(self)@),
    {
        match &self.imdb_id {
            Some(i) => {
                let imdb_id = copy_string(i);
                let message = concat("Searching subtitles for: ", self.title.as_str());
                let debug = concat("Querying OpenSubtitles for IMDB: ", i.as_str());
                self.stage = SearchStage::ByImdb;
                SearchAction::QueryImdb { imdb_id, message, debug }
            },
            None => {
                self.stage = SearchStage::Done;
                SearchAction::Finish {
                    completed: false,
                    message: literal("Subtitle search failed or no matches found"),
                }
            },
        }
    }

    fn take_hit(&mut self, hit: Option<i64>) -> (a: SearchAction)
        ensures
            (final(self)@, a@) == after_hit(old(self)@, hit),
    {
        match hit {
            Some(id) => {
                self.stage = SearchStage::Downloading;
                SearchAction::Download(id)
            },
            None => {
                self.stage = SearchStage::Done;
                SearchAction::Finish {
                    completed: true,
                    message: literal("No matching subtitles found"),
                }
            },
        }
    }

    /// Takes what came of the last action and says what to do next.
    pub fn step(&mut self, event: SearchEvent) -> (a: SearchAction)
        ensures
            (final(self)@, a@) == search_step(old(self)@, event@),
    {
        match event {
            SearchEvent::NoFile => {
                if self.stage == SearchStage::Start {
                    self.stage = SearchStage::Done;
                    SearchAction::Finish { completed: false, message: literal("Movie file not found") }
                } else {
                    SearchAction::Nothing
                }
            },
            SearchEvent::Begin { title, hash, imdb_id } => {
                if self.stage == SearchStage::Start {
                    self.title = title;
                    self.imdb_id = imdb_id;
                    match hash {
                        Some(h) => {
                            let message = concat("Searching subtitles for: ", self.title.as_str());
                            let debug = concat("Querying OpenSubtitles by Hash: ", h.as_str());
                            self.stage = SearchStage::ByHash;
                            SearchAction::QueryHash { hash: h, message, debug }
                        },
                        None => self.search_imdb_or_fail(),
                    }
                } else {
                    SearchAction::Nothing
                }
            },
            SearchEvent::Searched(r) => {
                if self.stage == SearchStage::ByHash {
                    match r {
                        Some(hit) => self.take_hit(hit),
                        None => self.search_imdb_or_fail(),
                    }
                } else if self.stage == SearchStage::ByImdb {
                    match r {
                        Some(hit) => self.take_hit(hit),
                        None => {
                            self.stage = SearchStage::Done;
                            SearchAction::Finish {
                                completed: false,
                                message: literal("Subtitle search failed or no matches found"),
                            }
                        },
                    }
                } else {
                    SearchAction::Nothing
                }
            },
            SearchEvent::Downloaded(p) => {
                if self.stage == SearchStage::Downloading {
                    self.stage = SearchStage::Done;
                    match p {
                        Some(path) => SearchAction::Finish {
                            completed: true,
                            message: concat("Subtitle saved: ", path.as_str()),
                        },
                        None => SearchAction::Finish {
                            completed: true,
                            message: literal("No matching subtitles found"),
                        },
                    }
                } else {
                    SearchAction::Nothing
                }
            },
        }
    }
}

/// A search reports its end once: every step that reports the end leaves
/// the search done, and a done search does nothing more, whatever it is
/// handed.
pub proof fn lemma_end_is_reported_once(s: SearchView, e: EventView)
    ensures
        search_step(s, e).1 is Finish ==> search_step(s, e).0.stage == SearchStage::Done,
        s.stage == SearchStage::Done ==> search_step(s, e) == (s, ActionView::Nothing),
{
}

/// The event starts a search for a file whose hash could (or could not)
/// be computed.
pub open spec fn begins_with_hash(e: EventView, with_hash: bool) -> bool {
    match e {
        EventView::Begin(_, h, _) => (h is Some) == with_hash,
        _ => false,
    }
}

/// The IMDb id is asked only when there was no hash or the search by hash
/// found nothing, and a hash, when there is one, is always asked first.
pub proof fn lemma_hash_first(s: SearchView, e: EventView)
    ensures
        search_step(s, e).1 is QueryImdb ==> (s.stage == SearchStage::Start && begins_with_hash(
            e,
            false,
        )) || (s.stage == SearchStage::ByHash && e == EventView::Searched(None)),
        s.stage == SearchStage::Start && begins_with_hash(e, true) ==> search_step(s, e).1 is QueryHash,
{
}

/// The OpenSubtitles key a search uses: the one from the environment
/// unless it is empty, else the one stored in the settings; none when
/// that is missing or empty too (the search is then refused).
pub open spec fn api_key_for(env_key: Seq<char>, stored: Option<Seq<char>>) -> Option<Seq<char>> {
    let k = if env_key.len() > 0 {
        env_key
    } else {
        match stored {
            Some(t) => t,
            None => Seq::<char>::empty(),
        }
    };
    if k.len() > 0 {
        Some(k)
    } else {
        None
    }
}

/// Picks the key for a subtitle search (see `api_key_for`).
pub fn subtitle_api_key(env_key: &str, stored: &Option<String>) -> (r: Option<String>)
    ensures
        opt_view(r) == api_key_for(env_key@, opt_view(*stored)),
{
    if env_key.unicode_len() > 0 {
        return Some(literal(env_key));
    }
    match stored {
        Some(t) => {
            if t.as_str().unicode_len() > 0 {
                Some(copy_string(t))
            } else {
                None
            }
        },
        None => None,
    }
}

/// The answer when no key is found: the search is refused with this text
/// and nothing is searched, downloaded or reported.
pub open spec fn missing_key_message() -> Seq<char> {
    "OpenSubtitles API Key missing. Please add it in Settings (opensubtitles_api_key)."@
}

/// Whether a subtitle search may begin: with the key it uses (see
/// `api_key_for`), or refused with `missing_key_message` when there is
/// none, in which case no `SubtitleSearch` is begun.
pub fn begin_subtitle_search(env_key: &str, stored: &Option<String>) -> (r: Result<String, String>)
    ensures
        match api_key_for(env_key@, opt_view(*stored)) {
            Some(k) => r matches Ok(x) && x@ == k,
            None => r matches Err(m) && m@ == missing_key_message(),
        },
{
    match subtitle_api_key(env_key, stored) {
        Some(k) => Ok(k),
        None => Err(literal("OpenSubtitles API Key missing. Please add it in Settings (opensubtitles_api_key).")),
    }
}

} // verus!
