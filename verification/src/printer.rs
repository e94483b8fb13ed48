//! Collecting the posts' records for one write at the end of a run.

use crate::post::GelbooruPost;
use crate::store::{by_hash, record, record_all, sorted_by_hash, AggregateStore};
use vstd::prelude::*;

verus! {

/// Where the records are written.
#[derive(Debug, PartialEq, Eq)]
pub enum Sink {
    /// The diagnostic stream.
    Stderr,
    /// A file, named relative to the output directory.
    File(String),
}

/// A [`Sink`] with its path as plain text.
pub enum SinkView {
    Stderr,
    File(Seq<char>),
}

impl View for Sink {
    type V = SinkView;

    open spec fn view(&self) -> SinkView {
        match self {
            Sink::Stderr => SinkView::Stderr,
            Sink::File(path) => SinkView::File(path@),
        }
    }
}

impl Clone for Sink {
    fn clone(&self) -> (copy: Self)
        ensures
            copy == *self,
    {
        match self {
            Sink::Stderr => Sink::Stderr,
            Sink::File(path) => Sink::File(path.clone()),
        }
    }
}

/// Whether records are written, in which layout and where.
#[derive(Debug, PartialEq, Eq)]
pub enum EmissionMode {
    Off,
    Compact(Sink),
    Pretty(Sink),
}

/// An [`EmissionMode`] over plain text.
pub enum EmissionModeView {
    Off,
    Compact(SinkView),
    Pretty(SinkView),
}

impl View for EmissionMode {
    type V = EmissionModeView;

    open spec fn view(&self) -> EmissionModeView {
        match self {
            EmissionMode::Off => EmissionModeView::Off,
            EmissionMode::Compact(sink) => EmissionModeView::Compact(sink@),
            EmissionMode::Pretty(sink) => EmissionModeView::Pretty(sink@),
        }
    }
}

impl EmissionMode {
    /// Where the records go, if they are written at all.
    pub fn sink(&self) -> (sink: Option<&Sink>)
        ensures
            match self {
                EmissionMode::Off => sink is None,
                EmissionMode::Compact(to) => sink == Some(to),
                EmissionMode::Pretty(to) => sink == Some(to),
            },
    {
        match self {
            EmissionMode::Off => None,
            EmissionMode::Compact(to) => Some(to),
            EmissionMode::Pretty(to) => Some(to),
        }
    }
}

/// What is to be written at the end of a run: every recorded post as one
/// object keyed by content hash.
#[derive(Debug, PartialEq, Eq)]
pub struct Emission {
    pub sink: Sink,
    /// Indented layout where set, compact otherwise.
    pub pretty: bool,
    /// The records, one for each hash, in the order of the hashes.
    pub posts: Vec<GelbooruPost>,
}

/// An [`Emission`] over plain text, with its records by hash.
pub struct EmissionView {
    pub sink: SinkView,
    pub pretty: bool,
    pub posts: Map<Seq<char>, GelbooruPost>,
}

impl View for Emission {
    type V = EmissionView;

    open spec fn view(&self) -> EmissionView {
        EmissionView { sink: self.sink@, pretty: self.pretty, posts: by_hash(self.posts@) }
    }
}

impl Emission {
    /// The records stand in the order of their hashes, each hash once.
    pub open spec fn wf(&self) -> bool {
        sorted_by_hash(self.posts@)
    }
}

/// What a [`JsonPrinter`] stands for: its mode and the posts by hash.
pub struct PrinterView {
    pub mode: EmissionModeView,
    pub posts: Map<Seq<char>, GelbooruPost>,
}

/// Gathers the posts of every page and hands them over once, when the run
/// has ended. Switched off, it gathers nothing.
pub struct JsonPrinter {
    mode: EmissionMode,
    store: AggregateStore,
}

impl View for JsonPrinter {
    type V = PrinterView;

    closed spec fn view(&self) -> PrinterView {
        PrinterView { mode: self.mode@, posts: self.store@ }
    }
}

impl JsonPrinter {
    /// A printer that writes to `sink` without white space.
    pub fn compact(sink: Sink) -> (printer: Self)
        ensures
            printer@.mode == EmissionModeView::Compact(sink@),
            printer@.posts == Map::<Seq<char>, GelbooruPost>::empty(),
    {
        JsonPrinter { mode: EmissionMode::Compact(sink), store: AggregateStore::new() }
    }

    /// A printer that writes to `sink` with indentation.
    pub fn pretty(sink: Sink) -> (printer: Self)
        ensures
            printer@.mode == EmissionModeView::Pretty(sink@),
            printer@.posts == Map::<Seq<char>, GelbooruPost>::empty(),
    {
        JsonPrinter { mode: EmissionMode::Pretty(sink), store: AggregateStore::new() }
    }

    /// A printer that writes nothing.
    pub fn noop() -> (printer: Self)
        ensures
            printer@.mode == EmissionModeView::Off,
            printer@.posts == Map::<Seq<char>, GelbooruPost>::empty(),
    {
        JsonPrinter { mode: EmissionMode::Off, store: AggregateStore::new() }
    }

    /// The printer for a mode.
    pub fn for_mode(mode: EmissionMode) -> (printer: Self)
        ensures
            printer@.mode == mode@,
            printer@.posts == Map::<Seq<char>, GelbooruPost>::empty(),
    {
        JsonPrinter { mode, store: AggregateStore::new() }
    }

    /// Records one post by its hash, in place of any earlier post with the
    /// same hash. Nothing is kept where the printer is switched off.
    pub fn insert_post(&mut self, post: &GelbooruPost)
        ensures
            final(self)@ == spec_insert_post(old(self)@, *post),
    {
        match self.mode {
            EmissionMode::Off => {},
            _ => {
                self.store.insert(post);
            },
        }
    }

    /// Records the posts of a page by hash; a later post takes the place of
    /// an earlier one with the same hash. Nothing is kept where the printer
    /// is switched off.
    pub fn insert_posts(&mut self, posts: &[GelbooruPost])
        ensures
            final(self)@ == spec_insert_posts(old(self)@, posts@),
    {
        match self.mode {
            EmissionMode::Off => {},
            _ => {
                self.store.insert_all(posts);
            },
        }
    }

    /// Ends the gathering. Gives what is to be written, or `None` where
    /// the printer is switched off.
    pub fn finish(self) -> (out: Option<Emission>)
        ensures
            emission_view(out) == spec_emission(self@),
            out matches Some(emission) ==> emission.wf(),
    {
        match self.mode {
            EmissionMode::Off => None,
            EmissionMode::Compact(sink) => Some(
                Emission { sink, pretty: false, posts: self.store.into_entries() },
            ),
            EmissionMode::Pretty(sink) => Some(
                Emission { sink, pretty: true, posts: self.store.into_entries() },
            ),
        }
    }
}

/// The view of an emission, if there is one.
pub open spec fn emission_view(out: Option<Emission>) -> Option<EmissionView> {
    match out {
        None => None,
        Some(emission) => Some(emission@),
    }
}

/// What the printer `p` hands over at the end.
pub open spec fn spec_emission(p: PrinterView) -> Option<EmissionView> {
    match p.mode {
        EmissionModeView::Off => None,
        EmissionModeView::Compact(sink) => Some(
            EmissionView { sink, pretty: false, posts: p.posts },
        ),
        EmissionModeView::Pretty(sink) => Some(EmissionView { sink, pretty: true, posts: p.posts }),
    }
}

/// The printer `p` once `post` is recorded.
pub open spec fn spec_insert_post(p: PrinterView, post: GelbooruPost) -> PrinterView {
    if p.mode is Off {
        p
    } else {
        PrinterView { mode: p.mode, posts: record(p.posts, post) }
    }
}

/// The printer `p` once the posts of a page are recorded.
pub open spec fn spec_insert_posts(p: PrinterView, posts: Seq<GelbooruPost>) -> PrinterView {
    if p.mode is Off {
        p
    } else {
        PrinterView { mode: p.mode, posts: record_all(p.posts, posts) }
    }
}

} // verus!
