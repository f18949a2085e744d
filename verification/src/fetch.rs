//! The fetch cache: how a declared input gets into the store.
//!
//! The cache is driven step by step. The caller holds the fetch lock, does
//! what an action asks (look at the cached file, download a source, move
//! the download into place and write the torrent mirror) and reports what
//! came of it as an event; [`FetchCache::step`] then says what is next.
//! The rules are all here: a cached file is used only if its digest is the
//! declared one; torrent-like sources are tried first; a download with the
//! wrong digest is thrown away and the next source is tried; when no
//! source is left the last error is the result; and a path is handed out
//! only after the torrent mirror was written for it.

use vstd::prelude::*;
use crate::error::{MagError, MagErrorView};
use crate::package::{strings_view, FetchResource};
use crate::store::{join_spec, temp_path_for, temp_path_spec, PackageStore};
use crate::text::{lower_spec, str_eq, str_to_ascii_lowercase, str_trim, trim_spec};
use crate::transport::{prioritize_urls, prioritized_spec};

verus! {

/// A digest computed from a file is the declared one when it equals the
/// declared text, trimmed and in lower case.
pub open spec fn digest_matches_spec(actual: Seq<char>, declared: Seq<char>) -> bool {
    actual == lower_spec(trim_spec(declared))
}

/// Whether the digest `actual`, computed from a file, is the declared one.
pub fn digest_matches(actual: &str, declared: &str) -> (r: bool)
    ensures
        r == digest_matches_spec(actual@, declared@),
{
    let trimmed = str_trim(declared);
    let lower = str_to_ascii_lowercase(trimmed.as_str());
    str_eq(actual, lower.as_str())
}

/// Where a fetch stands.
#[derive(Clone, Copy, Debug, PartialEq, Eq, Structural)]
pub enum FetchPhase {
    /// Waiting to hear whether a cached file is there, and its digest.
    CheckingCache,
    /// Waiting for a cached file with a wrong digest to be removed.
    RemovingStale,
    /// Waiting for the download of the source at hand.
    Downloading,
    /// Waiting for a verified download to be moved into place and mirrored.
    Storing,
    /// Waiting for the mirror of a verified cached file to be refreshed.
    Refreshing,
    /// The fetch has ended.
    Finished,
}

/// The state of one fetch.
#[derive(Debug)]
pub struct FetchCache {
    pub phase: FetchPhase,
    /// The file name of the fetch, for diagnostics.
    pub filename: String,
    /// The declared digest.
    pub declared: String,
    /// The place of the cached file.
    pub dest: String,
    /// The place of a partial download.
    pub temp: String,
    /// The sources in the order of trial.
    pub urls: Vec<String>,
    /// The index of the source at hand.
    pub next: usize,
    /// The last error that a source gave.
    pub last_err: Option<MagError>,
    /// Whether a file with the declared digest was seen.
    pub verified: bool,
    /// Whether the torrent mirror was written or refreshed.
    pub mirrored: bool,
}

/// What the caller reports.
#[derive(Debug)]
pub enum FetchEvent {
    /// The cached file was looked at: its digest, or nothing if there is no file.
    CacheChecked { digest: Option<String> },
    /// The cached file with the wrong digest was removed.
    StaleRemoved,
    /// The download ended: the digest of what was downloaded, or the transport's error.
    Downloaded { outcome: Result<String, MagError> },
    /// The download was moved into place and the torrent mirror written.
    Stored,
    /// The cached file was touched and its torrent mirror refreshed.
    Refreshed,
}

/// What the caller is to do next.
#[derive(Debug)]
pub enum FetchAction {
    /// Look at the cached file at `path` and compute its digest.
    CheckCache { path: String },
    /// Remove the cached file at `path`.
    RemoveStale { path: String },
    /// Download `url` to `temp`, after removing what an earlier download left there.
    Download { url: String, temp: String, discard_temp: bool },
    /// Move `temp` to `dest` and write the torrent mirror.
    Store { temp: String, dest: String },
    /// Touch the cached file at `path` and refresh its torrent mirror.
    Refresh { path: String },
    /// End the fetch with `result`, after removing what a download left behind.
    Done { result: Result<String, MagError>, discard_temp: bool },
}

/// The diagnostic for an event that does not answer the last action.
pub open spec fn out_of_order() -> MagErrorView {
    MagErrorView::Generic("fetch steps reported out of order"@)
}

/// The value of an optional error.
pub open spec fn err_view(e: Option<MagError>) -> Option<MagErrorView> {
    match e {
        Some(x) => Some(x@),
        None => None,
    }
}

impl FetchCache {
    /// `after` is `self` but for the fields that a step may change.
    pub open spec fn same_fetch(&self, after: &FetchCache) -> bool {
        &&& after.filename@ == self.filename@
        &&& after.declared@ == self.declared@
        &&& after.dest@ == self.dest@
        &&& after.temp@ == self.temp@
        &&& strings_view(after.urls@) == strings_view(self.urls@)
    }

    /// `after` stands at the same source as `self`, with the same last error.
    pub open spec fn same_progress(&self, after: &FetchCache) -> bool {
        after.next == self.next && err_view(after.last_err) == err_view(self.last_err)
    }

    /// The action is `Download` of source `index`.
    pub open spec fn asks_download(&self, action: FetchAction, index: int, discard: bool) -> bool {
        match action {
            FetchAction::Download { url, temp, discard_temp } => url@ == self.urls@[index]@ && temp@
                == self.temp@ && discard_temp == discard,
            _ => false,
        }
    }

    /// The action is `Done` with the error `e`.
    pub open spec fn asks_fail(action: FetchAction, e: MagErrorView, discard: bool) -> bool {
        match action {
            FetchAction::Done { result: Err(x), discard_temp } => x@ == e && discard_temp
                == discard,
            _ => false,
        }
    }

    /// What follows when the cache holds no usable file: the first source
    /// is tried; a fetch without sources fails.
    pub open spec fn begins(&self, after: &FetchCache, action: FetchAction) -> bool {
        &&& after.verified == self.verified
        &&& after.mirrored == self.mirrored
        &&& err_view(after.last_err) == err_view(self.last_err)
        &&& if self.urls@.len() == 0 {
            &&& after.phase == FetchPhase::Finished
            &&& Self::asks_fail(
                action,
                MagErrorView::NoUrls { filename: self.filename@ },
                false,
            )
        } else {
            &&& after.phase == FetchPhase::Downloading
            &&& after.next == 0
            &&& self.asks_download(action, 0, false)
        }
    }

    /// What follows when the source at hand has failed with `e`: the next
    /// source is tried; after the last one the fetch fails with `e`.
    pub open spec fn moves_on(
        &self,
        after: &FetchCache,
        action: FetchAction,
        e: MagErrorView,
        discard: bool,
    ) -> bool {
        &&& after.verified == self.verified
        &&& after.mirrored == self.mirrored
        &&& err_view(after.last_err) == Some(e)
        &&& if self.next + 1 < self.urls@.len() {
            &&& after.phase == FetchPhase::Downloading
            &&& after.next == self.next + 1
            &&& self.asks_download(action, self.next + 1, discard)
        } else {
            &&& after.phase == FetchPhase::Finished
            &&& Self::asks_fail(action, e, discard)
        }
    }

    /// The rules of the fetch cache: what state and what action follow
    /// from a state and an event.
    pub open spec fn steps_to(
        &self,
        event: FetchEvent,
        after: &FetchCache,
        action: FetchAction,
    ) -> bool {
        &&& self.same_fetch(after)
        &&& match (self.phase, event) {
            (FetchPhase::CheckingCache, FetchEvent::CacheChecked { digest: Some(d) }) => {
                if digest_matches_spec(d@, self.declared@) {
                    &&& after.phase == FetchPhase::Refreshing
                    &&& after.verified
                    &&& after.mirrored == self.mirrored
                    &&& self.same_progress(after)
                    &&& action matches FetchAction::Refresh { path }
                    &&& path@ == self.dest@
                } else {
                    &&& after.phase == FetchPhase::RemovingStale
                    &&& after.verified == self.verified
                    &&& after.mirrored == self.mirrored
                    &&& self.same_progress(after)
                    &&& action matches FetchAction::RemoveStale { path }
                    &&& path@ == self.dest@
                }
            },
            (FetchPhase::CheckingCache, FetchEvent::CacheChecked { digest: None }) => self.begins(
                after,
                action,
            ),
            (FetchPhase::RemovingStale, FetchEvent::StaleRemoved) => self.begins(after, action),
            (FetchPhase::Downloading, FetchEvent::Downloaded { outcome: Ok(d) }) => {
                if digest_matches_spec(d@, self.declared@) {
                    &&& after.phase == FetchPhase::Storing
                    &&& after.verified
                    &&& after.mirrored == self.mirrored
                    &&& self.same_progress(after)
                    &&& action matches FetchAction::Store { temp, dest }
                    &&& temp@ == self.temp@
                    &&& dest@ == self.dest@
                } else {
                    self.moves_on(
                        after,
                        action,
                        MagErrorView::HashMismatch { filename: self.filename@ },
                        true,
                    )
                }
            },
            (FetchPhase::Downloading, FetchEvent::Downloaded { outcome: Err(e) }) => self.moves_on(
                after,
                action,
                e@,
                false,
            ),
            (FetchPhase::Storing, FetchEvent::Stored) => self.ends_well(after, action),
            (FetchPhase::Refreshing, FetchEvent::Refreshed) => self.ends_well(after, action),
            _ => {
                &&& after.phase == FetchPhase::Finished
                &&& after.verified == self.verified
                &&& after.mirrored == self.mirrored
                &&& self.same_progress(after)
                &&& Self::asks_fail(action, out_of_order(), false)
            },
        }
    }

    /// The fetch ends with the path of the cached file.
    pub open spec fn ends_well(&self, after: &FetchCache, action: FetchAction) -> bool {
        &&& after.phase == FetchPhase::Finished
        &&& after.verified == self.verified
        &&& after.mirrored
        &&& self.same_progress(after)
        &&& action matches FetchAction::Done { result: Ok(path), discard_temp }
        &&& path@ == self.dest@
        &&& !discard_temp
    }

    /// What holds of a fetch at every step: a file is moved into place or
    /// refreshed only after its digest was found to be the declared one, and
    /// the source at hand is one of the sources.
    pub open spec fn inv(&self) -> bool {
        &&& (self.phase == FetchPhase::Storing || self.phase == FetchPhase::Refreshing)
            ==> self.verified
        &&& self.phase == FetchPhase::Downloading ==> self.next < self.urls@.len()
    }

    /// Begins the fetch of `fetch` into `store`: the cached file is looked at first.
    pub fn start(fetch: &FetchResource, store: &PackageStore) -> (r: (FetchCache, FetchAction))
        ensures
            r.0.inv(),
            r.0.phase == FetchPhase::CheckingCache,
            !r.0.verified,
            !r.0.mirrored,
            r.0.last_err is None,
            r.0.filename@ == fetch.filename@,
            r.0.declared@ == fetch.sha256@,
            r.0.dest@ == join_spec(store.fetch_root@, fetch.sha256@),
            r.0.temp@ == temp_path_spec(r.0.dest@),
            strings_view(r.0.urls@) == prioritized_spec(strings_view(fetch.urls@)),
            r.1 matches FetchAction::CheckCache { path } && path@ == r.0.dest@,
    {
        let dest = store.fetch_path(fetch.sha256.as_str());
        let temp = temp_path_for(dest.as_str());
        let state = FetchCache {
            phase: FetchPhase::CheckingCache,
            filename: fetch.filename.clone(),
            declared: fetch.sha256.clone(),
            dest: dest.clone(),
            temp,
            urls: prioritize_urls(&fetch.urls),
            next: 0,
            last_err: None,
            verified: false,
            mirrored: false,
        };
        (state, FetchAction::CheckCache { path: dest })
    }

    fn begin_downloads(&mut self) -> (action: FetchAction)
        ensures
            old(self).same_fetch(final(self)),
            old(self).begins(final(self), action),
            final(self).inv(),
    {
        if self.urls.len() == 0 {
            self.phase = FetchPhase::Finished;
            FetchAction::Done {
                result: Err(MagError::NoUrls { filename: self.filename.clone() }),
                discard_temp: false,
            }
        } else {
            self.phase = FetchPhase::Downloading;
            self.next = 0;
            FetchAction::Download {
                url: self.urls[0].clone(),
                temp: self.temp.clone(),
                discard_temp: false,
            }
        }
    }

    fn next_source(&mut self, e: MagError, discard: bool) -> (action: FetchAction)
        requires
            old(self).phase == FetchPhase::Downloading,
        ensures
            old(self).same_fetch(final(self)),
            old(self).moves_on(final(self), action, e@, discard),
            final(self).inv(),
    {
        let count: usize = self.urls.len();
        if count > 0 && self.next < count - 1 {
            self.last_err = Some(e);
            self.next = self.next + 1;
            FetchAction::Download {
                url: self.urls[self.next].clone(),
                temp: self.temp.clone(),
                discard_temp: discard,
            }
        } else {
            let result = e.duplicate();
            self.last_err = Some(e);
            self.phase = FetchPhase::Finished;
            FetchAction::Done { result: Err(result), discard_temp: discard }
        }
    }

    fn end_well(&mut self) -> (action: FetchAction)
        ensures
            old(self).same_fetch(final(self)),
            old(self).same_progress(final(self)),
            old(self).ends_well(final(self), action),
            final(self).inv(),
    {
        self.phase = FetchPhase::Finished;
        self.mirrored = true;
        FetchAction::Done { result: Ok(self.dest.clone()), discard_temp: false }
    }

    fn end_out_of_order(&mut self) -> (action: FetchAction)
        ensures
            old(self).same_fetch(final(self)),
            final(self).phase == FetchPhase::Finished,
            final(self).verified == old(self).verified,
            final(self).mirrored == old(self).mirrored,
            old(self).same_progress(final(self)),
            Self::asks_fail(action, out_of_order(), false),
            final(self).inv(),
    {
        self.phase = FetchPhase::Finished;
        FetchAction::Done {
            result: Err(MagError::Generic(String::from_str("fetch steps reported out of order"))),
            discard_temp: false,
        }
    }

    /// Takes what the caller reports and says what is to be done next.
    pub fn step(&mut self, event: FetchEvent) -> (action: FetchAction)
        ensures
            old(self).inv() ==> final(self).inv(),
            old(self).steps_to(event, final(self), action),
    {
        match (self.phase, event) {
            (FetchPhase::CheckingCache, FetchEvent::CacheChecked { digest: Some(d) }) => {
                if digest_matches(d.as_str(), self.declared.as_str()) {
                    self.phase = FetchPhase::Refreshing;
                    self.verified = true;
                    FetchAction::Refresh { path: self.dest.clone() }
                } else {
                    self.phase = FetchPhase::RemovingStale;
                    FetchAction::RemoveStale { path: self.dest.clone() }
                }
            },
            (FetchPhase::CheckingCache, FetchEvent::CacheChecked { digest: None }) => {
                self.begin_downloads()
            },
            (FetchPhase::RemovingStale, FetchEvent::StaleRemoved) => self.begin_downloads(),
            (FetchPhase::Downloading, FetchEvent::Downloaded { outcome: Ok(d) }) => {
                if digest_matches(d.as_str(), self.declared.as_str()) {
                    self.phase = FetchPhase::Storing;
                    self.verified = true;
                    FetchAction::Store { temp: self.temp.clone(), dest: self.dest.clone() }
                } else {
                    let e = MagError::HashMismatch { filename: self.filename.clone() };
                    self.next_source(e, true)
                }
            },
            (FetchPhase::Downloading, FetchEvent::Downloaded { outcome: Err(e) }) => {
                self.next_source(e, false)
            },
            (FetchPhase::Storing, FetchEvent::Stored) => self.end_well(),
            (FetchPhase::Refreshing, FetchEvent::Refreshed) => self.end_well(),
            _ => self.end_out_of_order(),
        }
    }
}

/// A fetch hands out a path only for a file whose digest was found to be
/// the declared one, and only once the torrent mirror was written or
/// refreshed for it: the event that ends a fetch well is `Stored` or
/// `Refreshed`, a matching digest was reported before, and the path is
/// that of the cached file.
pub proof fn lemma_success_is_verified_and_mirrored(
    before: &FetchCache,
    event: FetchEvent,
    after: &FetchCache,
    action: FetchAction,
)
    requires
        before.inv(),
        before.steps_to(event, after, action),
        action matches FetchAction::Done { result: Ok(_), .. },
    ensures
        before.verified,
        after.verified,
        after.mirrored,
        event is Stored || event is Refreshed,
        action matches FetchAction::Done { result: Ok(path), .. } && path@ == before.dest@,
{
}

/// A fetch takes a file for verified only when a digest was reported that
/// is the declared one.
pub proof fn lemma_verified_by_digest(
    before: &FetchCache,
    event: FetchEvent,
    after: &FetchCache,
    action: FetchAction,
)
    requires
        before.steps_to(event, after, action),
        !before.verified,
        after.verified,
    ensures
        match event {
            FetchEvent::CacheChecked { digest: Some(d) } => digest_matches_spec(
                d@,
                before.declared@,
            ),
            FetchEvent::Downloaded { outcome: Ok(d) } => digest_matches_spec(d@, before.declared@),
            _ => false,
        },
{
}

/// While a verified download is on offer no further source is contacted:
/// a matching digest is followed by `Store` or `Refresh`, never by `Download`.
pub proof fn lemma_match_stops_downloads(
    before: &FetchCache,
    event: FetchEvent,
    after: &FetchCache,
    action: FetchAction,
)
    requires
        before.steps_to(event, after, action),
        before.phase == FetchPhase::Downloading || before.phase == FetchPhase::CheckingCache,
        match event {
            FetchEvent::CacheChecked { digest: Some(d) } => digest_matches_spec(
                d@,
                before.declared@,
            ),
            FetchEvent::Downloaded { outcome: Ok(d) } => digest_matches_spec(d@, before.declared@),
            _ => false,
        },
    ensures
        !(action is Download),
        after.phase == FetchPhase::Storing || after.phase == FetchPhase::Refreshing
            || after.phase == FetchPhase::Finished,
{
}

} // verus!
