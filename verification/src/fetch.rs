//! How a remote list is had: downloaded, or from the copy that is kept of it.
use vstd::prelude::*;

use std::collections::hash_map::DefaultHasher;
use std::hash::Hasher;

use vstd::std_specs::hash::DefaultHasherAdditionalSpecFns;

use crate::filtering;
use crate::filtering::{FilterConfig, FilterView};
use crate::number;
use crate::text;

verus! {

/// How many seconds it may take to reach the server of a list.
pub const DEFAULT_FILTER_CONNECT_TIMEOUT_SECS: u64 = 10;

/// How many seconds the server of a list may be silent.
pub const DEFAULT_FILTER_READ_TIMEOUT_SECS: u64 = 30;

/// Whether a kept copy is good enough, or only for want of a new one.
#[derive(Clone, Copy, Debug, PartialEq, Eq, Structural)]
pub enum FilterFetchMode {
    CacheFirst,
    Refresh,
}

/// Where copies are kept, and how long a download may take.
#[derive(Debug)]
pub struct FilterFetchOptions {
    pub cache_dir: String,
    pub connect_timeout_secs: u64,
    pub read_timeout_secs: u64,
}

/// The number that the address of a list is kept under: the hash of its
/// bytes and of one that no text holds.
pub open spec fn url_hash(url: Seq<char>) -> u64 {
    DefaultHasher::spec_finish(seq![vstd::utf8::encode_utf8(url), seq![0xffu8]])
}

/// The name of the file that a copy is kept in.
pub open spec fn cache_file(filter: FilterView) -> Seq<char> {
    (match filter.id {
        Some(id) => number::decimal(id as nat),
        None => number::hex(url_hash(filter.url) as nat, 16),
    }) + ".txt"@
}

/// The path of a file in a directory.
pub open spec fn joined_path(dir: Seq<char>, file: Seq<char>) -> Seq<char> {
    if dir.len() == 0 || dir.last() == '/' {
        dir + file
    } else {
        dir + "/"@ + file
    }
}

/// The name of the file that a copy is kept in.
pub fn cache_file_name(filter: &FilterConfig) -> (r: String)
    ensures
        r@ == cache_file(filter@),
{
    let key = match filter.id {
        Some(id) => number::write_decimal(id),
        None => {
            let mut hasher = DefaultHasher::new();
            hasher.write(filter.url.as_str().as_bytes());
            let end: [u8; 1] = [0xff];
            hasher.write(&end);
            proof {
                assert(end@ =~= seq![0xffu8]);
                assert(hasher@ =~= seq![vstd::utf8::encode_utf8(filter.url@), seq![0xffu8]]);
            }
            number::write_hex(hasher.finish(), 16)
        },
    };
    let mut name = text::string_of(&key);
    name.append(".txt");
    name
}

impl FilterFetchOptions {
    /// Options for copies in `cache_dir`.
    pub fn new(cache_dir: String) -> (r: FilterFetchOptions)
        ensures
            r.cache_dir@ == cache_dir@,
            r.connect_timeout_secs == DEFAULT_FILTER_CONNECT_TIMEOUT_SECS,
            r.read_timeout_secs == DEFAULT_FILTER_READ_TIMEOUT_SECS,
    {
        FilterFetchOptions {
            cache_dir,
            connect_timeout_secs: DEFAULT_FILTER_CONNECT_TIMEOUT_SECS,
            read_timeout_secs: DEFAULT_FILTER_READ_TIMEOUT_SECS,
        }
    }

    /// The path of the file that a copy is kept in.
    pub fn cache_path_for(&self, filter: &FilterConfig) -> (r: String)
        ensures
            r@ == joined_path(self.cache_dir@, cache_file(filter@)),
    {
        let dir = text::chars_of(self.cache_dir.as_str());
        let file = cache_file_name(filter);
        let mut path = self.cache_dir.clone();
        if dir.len() > 0 && dir[dir.len() - 1] != '/' {
            path.append("/");
        }
        path.append(file.as_str());
        path
    }
}

/// Something that failed on a path: the path as it is shown, and the words
/// of the error.
#[derive(Debug)]
pub struct PathFault {
    pub path: String,
    pub err: String,
}

/// What a `PathFault` says.
#[verifier::ext_equal]
pub struct FaultView {
    pub path: Seq<char>,
    pub err: Seq<char>,
}

/// What is being waited for while a list is fetched.
#[derive(Debug)]
pub enum FetchState {
    /// The kept copy, which will do.
    ReadingCopy,
    /// The download.
    Downloading,
    /// The kept copy, to be compared with the downloaded list.
    Comparing(String),
    /// The directory for the copy of the downloaded list.
    MakingDirectory(String),
    /// The copy of the downloaded list.
    Writing(String),
    /// The kept copy, after a download that failed with these words.
    FallingBack(String),
}

/// What comes of what was waited for.
#[derive(Debug)]
pub enum FetchEvent {
    /// The kept copy, if it can be read.
    Copy(Option<String>),
    /// The downloaded list, or the words of the error.
    Downloaded(Result<String, String>),
    /// The directory, or what failed.
    Directory(Result<(), PathFault>),
    /// The written copy, or what failed.
    Written(Result<(), PathFault>),
}

/// What happens next: something else is waited for, or the fetch is over.
#[derive(Debug)]
pub enum FetchStep {
    Next(FetchState),
    Done(Result<String, String>),
}

/// What a `FetchState` holds.
pub enum StateView {
    ReadingCopy,
    Downloading,
    Comparing(Seq<char>),
    MakingDirectory(Seq<char>),
    Writing(Seq<char>),
    FallingBack(Seq<char>),
}

/// What a `FetchEvent` says.
pub enum EventView {
    Copy(Option<Seq<char>>),
    Downloaded(Result<Seq<char>, Seq<char>>),
    Directory(Option<FaultView>),
    Written(Option<FaultView>),
}

/// What a `FetchStep` says.
pub enum StepView {
    Next(StateView),
    Done(Result<Seq<char>, Seq<char>>),
}

pub open spec fn result_view(r: Result<String, String>) -> Result<Seq<char>, Seq<char>> {
    match r {
        Ok(t) => Ok(t@),
        Err(e) => Err(e@),
    }
}

pub open spec fn fault_view(r: Result<(), PathFault>) -> Option<FaultView> {
    match r {
        Ok(()) => None,
        Err(fault) => Some(FaultView { path: fault.path@, err: fault.err@ }),
    }
}

impl View for FetchState {
    type V = StateView;

    open spec fn view(&self) -> StateView {
        match *self {
            FetchState::ReadingCopy => StateView::ReadingCopy,
            FetchState::Downloading => StateView::Downloading,
            FetchState::Comparing(contents) => StateView::Comparing(contents@),
            FetchState::MakingDirectory(contents) => StateView::MakingDirectory(contents@),
            FetchState::Writing(contents) => StateView::Writing(contents@),
            FetchState::FallingBack(err) => StateView::FallingBack(err@),
        }
    }
}

impl View for FetchEvent {
    type V = EventView;

    open spec fn view(&self) -> EventView {
        match *self {
            FetchEvent::Copy(copy) => EventView::Copy(filtering::text_view(copy)),
            FetchEvent::Downloaded(r) => EventView::Downloaded(result_view(r)),
            FetchEvent::Directory(r) => EventView::Directory(fault_view(r)),
            FetchEvent::Written(r) => EventView::Written(fault_view(r)),
        }
    }
}

impl View for FetchStep {
    type V = StepView;

    open spec fn view(&self) -> StepView {
        match *self {
            FetchStep::Next(state) => StepView::Next(state@),
            FetchStep::Done(r) => StepView::Done(result_view(r)),
        }
    }
}

impl StateView {
    /// Whether the event is one that is being waited for.
    pub open spec fn awaits(self, event: EventView) -> bool {
        match self {
            StateView::ReadingCopy | StateView::Comparing(_) | StateView::FallingBack(_) =>
                event is Copy,
            StateView::Downloading => event is Downloaded,
            StateView::MakingDirectory(_) => event is Directory,
            StateView::Writing(_) => event is Written,
        }
    }
}

/// What a fetch waits for first.
pub open spec fn first_state(mode: FilterFetchMode) -> StateView {
    match mode {
        FilterFetchMode::CacheFirst => StateView::ReadingCopy,
        FilterFetchMode::Refresh => StateView::Downloading,
    }
}

/// The words about a list that can be had neither way.
pub open spec fn no_copy_text(url: Seq<char>, err: Seq<char>) -> Seq<char> {
    "failed to download filter "@ + url + " and no cached copy was available: "@ + err
}

/// The words about a directory that cannot be made.
pub open spec fn bad_directory_text(fault: FaultView) -> Seq<char> {
    "failed to create filter cache directory "@ + fault.path + ": "@ + fault.err
}

/// The words about a copy that cannot be written.
pub open spec fn bad_write_text(fault: FaultView) -> Seq<char> {
    "failed to write filter cache "@ + fault.path + ": "@ + fault.err
}

/// What happens next in the fetch of the list at `url`.
pub open spec fn next_step(url: Seq<char>, state: StateView, event: EventView) -> StepView {
    match (state, event) {
        (StateView::ReadingCopy, EventView::Copy(Some(copy))) => StepView::Done(Ok(copy)),
        (StateView::ReadingCopy, EventView::Copy(None)) => StepView::Next(StateView::Downloading),
        (StateView::Downloading, EventView::Downloaded(Ok(contents))) => StepView::Next(
            StateView::Comparing(contents),
        ),
        (StateView::Downloading, EventView::Downloaded(Err(err))) => StepView::Next(
            StateView::FallingBack(err),
        ),
        (StateView::Comparing(contents), EventView::Copy(copy)) => if copy == Some(contents) {
            StepView::Done(Ok(contents))
        } else {
            StepView::Next(StateView::MakingDirectory(contents))
        },
        (StateView::MakingDirectory(contents), EventView::Directory(None)) => StepView::Next(
            StateView::Writing(contents),
        ),
        (StateView::MakingDirectory(_), EventView::Directory(Some(fault))) => StepView::Done(
            Err(bad_directory_text(fault)),
        ),
        (StateView::Writing(contents), EventView::Written(None)) => StepView::Done(Ok(contents)),
        (StateView::Writing(_), EventView::Written(Some(fault))) => StepView::Done(
            Err(bad_write_text(fault)),
        ),
        (StateView::FallingBack(_), EventView::Copy(Some(copy))) => StepView::Done(Ok(copy)),
        (StateView::FallingBack(err), EventView::Copy(None)) => StepView::Done(
            Err(no_copy_text(url, err)),
        ),
        _ => StepView::Next(state),
    }
}

/// Starts the fetch of a list.
pub fn start_fetch(mode: FilterFetchMode) -> (r: FetchState)
    ensures
        r@ == first_state(mode),
{
    match mode {
        FilterFetchMode::CacheFirst => FetchState::ReadingCopy,
        FilterFetchMode::Refresh => FetchState::Downloading,
    }
}

fn fault_text(what: &str, fault: &PathFault) -> (r: String)
    ensures
        r@ == what@ + fault.path@ + ": "@ + fault.err@,
{
    let mut message = what.to_owned();
    message.append(fault.path.as_str());
    message.append(": ");
    message.append(fault.err.as_str());
    message
}

/// Goes on with the fetch of a list, once what was waited for is there.
pub fn fetch_filter(filter: &FilterConfig, state: FetchState, event: FetchEvent) -> (r: FetchStep)
    requires
        state@.awaits(event@),
    ensures
        r@ == next_step(filter.url@, state@, event@),
{
    match (state, event) {
        (FetchState::ReadingCopy, FetchEvent::Copy(Some(copy))) => FetchStep::Done(Ok(copy)),
        (FetchState::ReadingCopy, _) => FetchStep::Next(FetchState::Downloading),
        (FetchState::Downloading, FetchEvent::Downloaded(Ok(contents))) => FetchStep::Next(
            FetchState::Comparing(contents),
        ),
        (FetchState::Downloading, FetchEvent::Downloaded(Err(err))) => FetchStep::Next(
            FetchState::FallingBack(err),
        ),
        (FetchState::Comparing(contents), FetchEvent::Copy(Some(copy))) => {
            if text::same_text(copy.as_str(), contents.as_str()) {
                FetchStep::Done(Ok(contents))
            } else {
                FetchStep::Next(FetchState::MakingDirectory(contents))
            }
        },
        (FetchState::Comparing(contents), _) => FetchStep::Next(
            FetchState::MakingDirectory(contents),
        ),
        (FetchState::MakingDirectory(contents), FetchEvent::Directory(Ok(()))) => FetchStep::Next(
            FetchState::Writing(contents),
        ),
        (FetchState::MakingDirectory(_), FetchEvent::Directory(Err(fault))) => FetchStep::Done(
            Err(fault_text("failed to create filter cache directory ", &fault)),
        ),
        (FetchState::Writing(contents), FetchEvent::Written(Ok(()))) => FetchStep::Done(
            Ok(contents),
        ),
        (FetchState::Writing(_), FetchEvent::Written(Err(fault))) => FetchStep::Done(
            Err(fault_text("failed to write filter cache ", &fault)),
        ),
        (FetchState::FallingBack(_), FetchEvent::Copy(Some(copy))) => FetchStep::Done(Ok(copy)),
        (FetchState::FallingBack(err), _) => {
            let mut message = "failed to download filter ".to_owned();
            message.append(filter.url.as_str());
            message.append(" and no cached copy was available: ");
            message.append(err.as_str());
            FetchStep::Done(Err(message))
        },
        (state, _) => FetchStep::Next(state),
    }
}

/// What is outside: the kept copy, if it can be read, what a download gives,
/// and what fails when the directory is made and the copy is written.
pub struct OutsideView {
    pub copy: Option<Seq<char>>,
    pub download: Result<Seq<char>, Seq<char>>,
    pub directory: Option<FaultView>,
    pub written: Option<FaultView>,
}

impl OutsideView {
    /// What comes of what a state waits for.
    pub open spec fn event(self, state: StateView) -> EventView {
        match state {
            StateView::ReadingCopy | StateView::Comparing(_) | StateView::FallingBack(_) =>
                EventView::Copy(self.copy),
            StateView::Downloading => EventView::Downloaded(self.download),
            StateView::MakingDirectory(_) => EventView::Directory(self.directory),
            StateView::Writing(_) => EventView::Written(self.written),
        }
    }
}

/// What is waited for in a fetch from `state` on, and what it ends with,
/// where it takes no more than `n` steps.
pub open spec fn course(url: Seq<char>, state: StateView, outside: OutsideView, n: nat) -> (
    Seq<StateView>,
    Option<Result<Seq<char>, Seq<char>>>,
)
    decreases n,
{
    if n == 0 {
        (Seq::empty(), None)
    } else {
        match next_step(url, state, outside.event(state)) {
            StepView::Done(r) => (seq![state], Some(r)),
            StepView::Next(next) => {
                let (rest, r) = course(url, next, outside, (n - 1) as nat);
                (seq![state] + rest, r)
            },
        }
    }
}

/// What a fetch ends with. A kept copy will do where the mode says so, and
/// for want of a download; a downloaded list has to be kept unless the copy
/// is the same.
pub open spec fn fetched(url: Seq<char>, mode: FilterFetchMode, outside: OutsideView) -> Result<
    Seq<char>,
    Seq<char>,
> {
    if mode == FilterFetchMode::CacheFirst && outside.copy is Some {
        Ok(outside.copy.unwrap())
    } else {
        match outside.download {
            Ok(contents) => if outside.copy == Some(contents) {
                Ok(contents)
            } else if outside.directory is Some {
                Err(bad_directory_text(outside.directory.unwrap()))
            } else if outside.written is Some {
                Err(bad_write_text(outside.written.unwrap()))
            } else {
                Ok(contents)
            },
            Err(err) => match outside.copy {
                Some(copy) => Ok(copy),
                None => Err(no_copy_text(url, err)),
            },
        }
    }
}

/// Every fetch comes to an end, with what `fetched` says.
pub proof fn law_fetch_ends(url: Seq<char>, mode: FilterFetchMode, outside: OutsideView)
    ensures
        course(url, first_state(mode), outside, 5).1 == Some(fetched(url, mode, outside)),
{
    reveal_with_fuel(course, 6);
}

/// Where a kept copy will do and can be read, nothing is downloaded and
/// nothing is written.
pub proof fn law_cache_first_stays_local(url: Seq<char>, outside: OutsideView, n: nat)
    requires
        outside.copy is Some,
    ensures
        forall|i: int|
            0 <= i < course(url, first_state(FilterFetchMode::CacheFirst), outside, n).0.len()
                ==> #[trigger] course(
                url,
                first_state(FilterFetchMode::CacheFirst),
                outside,
                n,
            ).0[i] == StateView::ReadingCopy,
{
    reveal_with_fuel(course, 2);
}

/// A copy is not written where it is the same as the downloaded list.
pub proof fn law_same_copy_is_not_written(
    url: Seq<char>,
    mode: FilterFetchMode,
    outside: OutsideView,
)
    requires
        outside.copy is Some,
        outside.download == Ok::<Seq<char>, Seq<char>>(outside.copy.unwrap()),
    ensures
        forall|i: int|
            0 <= i < course(url, first_state(mode), outside, 5).0.len() ==> !(
            #[trigger] course(url, first_state(mode), outside, 5).0[i] is Writing),
{
    reveal_with_fuel(course, 6);
}

} // verus!
