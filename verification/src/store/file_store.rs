//! Loading, saving, and settling what was decided.
use vstd::prelude::*;

use crate::clock::unix_seconds_now;
use crate::format::current::{FileView, RuntimeStateFileWire};
use crate::state::model::RuntimeState;
use crate::state::view::StateView;
use crate::text::join4;

verus! {

/// The model of a [`StateFileContent`].
#[verifier::ext_equal]
pub enum ContentView {
    Missing,
    Unreadable(Seq<char>),
    Malformed(Seq<char>),
    Decoded(FileView),
}

/// What a state file held when it was last looked at: nothing, because it is not
/// there; nothing, because it cannot be read; text that is no state file; or a
/// state file.
#[derive(Debug, PartialEq, Eq)]
pub enum StateFileContent {
    Missing,
    Unreadable(String),
    Malformed(String),
    Decoded(RuntimeStateFileWire),
}

impl View for StateFileContent {
    type V = ContentView;

    open spec fn view(&self) -> ContentView {
        match self {
            StateFileContent::Missing => ContentView::Missing,
            StateFileContent::Unreadable(e) => ContentView::Unreadable(e@),
            StateFileContent::Malformed(e) => ContentView::Malformed(e@),
            StateFileContent::Decoded(file) => ContentView::Decoded(file@),
        }
    }
}

/// The model of a [`StoreAction`].
#[verifier::ext_equal]
pub enum ActionView {
    Keep,
    ConfirmDurable,
    Write(StateView),
}

/// What has to happen to the state file before an outcome may be used: nothing, a
/// confirmation that what is there is durable, or a new content.
#[derive(Debug, PartialEq, Eq)]
pub enum StoreAction {
    Keep,
    ConfirmDurable,
    Write(RuntimeState),
}

impl View for StoreAction {
    type V = ActionView;

    open spec fn view(&self) -> ActionView {
        match self {
            StoreAction::Keep => ActionView::Keep,
            StoreAction::ConfirmDurable => ActionView::ConfirmDurable,
            StoreAction::Write(state) => ActionView::Write(state@),
        }
    }
}

/// An outcome, and what has to happen before it may be used.
#[derive(Debug, PartialEq, Eq)]
pub struct Transition<T> {
    pub outcome: T,
    pub action: StoreAction,
}

/// How an action on the state file went: it was done; it failed and left the file
/// as it was; or it failed after the file had its new content.
#[derive(Debug, PartialEq, Eq)]
pub enum DiskReport {
    Done,
    NotReplaced(String),
    Replaced(String),
}

/// The model of a [`StateStore`].
#[verifier::ext_equal]
pub struct StoreView {
    pub path: Seq<char>,
    pub content: ContentView,
}

impl StoreView {
    pub open spec fn read_error(self, e: Seq<char>) -> Seq<char> {
        "failed to read runtime state "@ + self.path + ": "@ + e
    }

    pub open spec fn parse_error(self, e: Seq<char>) -> Seq<char> {
        "failed to parse "@ + self.path + ": "@ + e
    }

    pub open spec fn save_error(self, e: Seq<char>) -> Seq<char> {
        "failed to save runtime state "@ + self.path + ": "@ + e
    }

    pub open spec fn confirm_error(self, e: Seq<char>) -> Seq<char> {
        "failed to confirm runtime state "@ + self.path + " durability: "@ + e
    }

    /// The state that the file holds; none where there is no file.
    pub open spec fn existing(self) -> Result<Option<StateView>, Seq<char>> {
        match self.content {
            ContentView::Missing => Ok(None),
            ContentView::Unreadable(e) => Err(self.read_error(e)),
            ContentView::Malformed(e) => Err(self.parse_error(e)),
            ContentView::Decoded(file) => match file.decoded() {
                Ok(state) => Ok(Some(state)),
                Err(e) => Err(self.parse_error(e)),
            },
        }
    }

    /// The state that is loaded at `now`: that of the file, or an empty one.
    pub open spec fn loaded(self, now: u64) -> Result<StateView, Seq<char>> {
        match self.existing() {
            Err(e) => Err(e),
            Ok(Some(state)) => Ok(state),
            Ok(None) => Ok(StateView::fresh(now)),
        }
    }

    /// This store once its file holds `state`.
    pub open spec fn holding(self, state: StateView) -> StoreView {
        StoreView { content: ContentView::Decoded(FileView::of_state(state)), ..self }
    }

    /// This store after an action was carried out as `report` says.
    pub open spec fn settled(self, action: ActionView, report: DiskReport) -> StoreView {
        match action {
            ActionView::Write(state) => if report is NotReplaced {
                self
            } else {
                self.holding(state)
            },
            _ => self,
        }
    }

    /// Why the outcome of an action may not be used, if it may not.
    pub open spec fn settle_error(self, action: ActionView, report: DiskReport) -> Option<
        Seq<char>,
    > {
        match action {
            ActionView::Keep => None,
            ActionView::Write(_) => match report {
                DiskReport::Done => None,
                DiskReport::NotReplaced(e) => Some(self.save_error(e@)),
                DiskReport::Replaced(e) => Some(self.save_error(e@)),
            },
            ActionView::ConfirmDurable => match report {
                DiskReport::Done => None,
                DiskReport::NotReplaced(e) => Some(self.confirm_error(e@)),
                DiskReport::Replaced(e) => Some(self.confirm_error(e@)),
            },
        }
    }

    /// Writing `state` back: only a valid state is written.
    pub open spec fn write(self, state: StateView) -> Result<ActionView, Seq<char>> {
        match state.fault() {
            Some(e) => Err(e),
            None => Ok(ActionView::Write(state)),
        }
    }
}

/// An action comes out as `outcome` says.
pub open spec fn gives_action(
    r: Result<StoreAction, String>,
    outcome: Result<ActionView, Seq<char>>,
) -> bool {
    match r {
        Ok(action) => outcome == Ok::<ActionView, Seq<char>>(action@),
        Err(e) => outcome == Err::<ActionView, Seq<char>>(e@),
    }
}

/// A transition comes out as `outcome` says.
pub open spec fn gives<T: View>(
    r: Result<Transition<T>, String>,
    outcome: Result<(T::V, ActionView), Seq<char>>,
) -> bool {
    match r {
        Ok(transition) => outcome == Ok::<(T::V, ActionView), Seq<char>>(
            (transition.outcome@, transition.action@),
        ),
        Err(e) => outcome == Err::<(T::V, ActionView), Seq<char>>(e@),
    }
}

/// A store of the runtime state in one file.
#[derive(Debug, PartialEq, Eq)]
pub struct StateStore {
    pub path: String,
    pub content: StateFileContent,
}

impl View for StateStore {
    type V = StoreView;

    open spec fn view(&self) -> StoreView {
        StoreView { path: self.path@, content: self.content@ }
    }
}

impl StateStore {
    /// A store on a file that is not there yet.
    pub fn new(path: &str) -> (r: StateStore)
        ensures
            r@ == (StoreView { path: path@, content: ContentView::Missing }),
    {
        StateStore { path: path.to_owned(), content: StateFileContent::Missing }
    }

    pub fn path(&self) -> (r: &str)
        ensures
            r@ == self@.path,
    {
        self.path.as_str()
    }

    /// Takes note of what the file holds now.
    pub fn refresh(&mut self, content: StateFileContent)
        ensures
            final(self)@ == (StoreView { content: content@, ..old(self)@ }),
    {
        self.content = content;
    }

    /// The state that the file holds; none where there is no file.
    pub fn load_existing_for_merge(&self) -> (r: Result<Option<RuntimeState>, String>)
        ensures
            match r {
                Ok(Some(state)) => self@.existing() == Ok::<Option<StateView>, Seq<char>>(
                    Some(state@),
                ),
                Ok(None) => self@.existing() == Ok::<Option<StateView>, Seq<char>>(None),
                Err(e) => self@.existing() == Err::<Option<StateView>, Seq<char>>(e@),
            },
    {
        match &self.content {
            StateFileContent::Missing => Ok(None),
            StateFileContent::Unreadable(e) => Err(
                join4("failed to read runtime state ", self.path.as_str(), ": ", e.as_str()),
            ),
            StateFileContent::Malformed(e) => Err(
                join4("failed to parse ", self.path.as_str(), ": ", e.as_str()),
            ),
            StateFileContent::Decoded(file) => match file.clone().into_state() {
                Ok(state) => Ok(Some(state)),
                Err(e) => Err(join4("failed to parse ", self.path.as_str(), ": ", e.as_str())),
            },
        }
    }

    /// The state that the file holds, or an empty one where there is no file.
    pub fn load(&self) -> (r: Result<RuntimeState, String>)
        ensures
            exists|now: u64|
                crate::state::persisted::gives_state(r, #[trigger] self@.loaded(now)),
    {
        self.load_at(unix_seconds_now())
    }

    /// The state that is loaded at `now`.
    pub fn load_at(&self, now: u64) -> (r: Result<RuntimeState, String>)
        ensures
            crate::state::persisted::gives_state(r, self@.loaded(now)),
    {
        match self.load_existing_for_merge() {
            Ok(Some(state)) => Ok(state),
            Ok(None) => Ok(RuntimeState::new_at(now)),
            Err(e) => Err(e),
        }
    }

    /// Decides to write `state`, where it is valid.
    pub(crate) fn write_unlocked(&self, state: RuntimeState) -> (r: Result<StoreAction, String>)
        ensures
            gives_action(r, self@.write(state@)),
    {
        match state.validate() {
            Ok(()) => Ok(StoreAction::Write(state)),
            Err(e) => Err(e),
        }
    }

    /// Settles a transition as its action went: the outcome may be used only where
    /// the action was done, and the store knows what the file holds either way.
    pub fn settle<T>(&mut self, transition: Transition<T>, report: DiskReport) -> (r: Result<
        T,
        String,
    >)
        ensures
            final(self)@ == old(self)@.settled(transition.action@, report),
            match r {
                Ok(outcome) => {
                    &&& outcome == transition.outcome
                    &&& old(self)@.settle_error(transition.action@, report) is None
                },
                Err(e) => old(self)@.settle_error(transition.action@, report) == Some(e@),
            },
    {
        let Transition { outcome, action } = transition;
        match action {
            StoreAction::Keep => Ok(outcome),
            StoreAction::ConfirmDurable => match report {
                DiskReport::Done => Ok(outcome),
                DiskReport::NotReplaced(e) | DiskReport::Replaced(e) => Err(
                    join4(
                        "failed to confirm runtime state ",
                        self.path.as_str(),
                        " durability: ",
                        e.as_str(),
                    ),
                ),
            },
            StoreAction::Write(state) => match report {
                DiskReport::Done => {
                    self.content = StateFileContent::Decoded(RuntimeStateFileWire::of_state(state));
                    Ok(outcome)
                },
                DiskReport::NotReplaced(e) => Err(
                    join4("failed to save runtime state ", self.path.as_str(), ": ", e.as_str()),
                ),
                DiskReport::Replaced(e) => {
                    self.content = StateFileContent::Decoded(RuntimeStateFileWire::of_state(state));
                    Err(join4("failed to save runtime state ", self.path.as_str(), ": ", e.as_str()))
                },
            },
        }
    }
}

/// What is written to the file, and valid, is what is loaded from it afterwards,
/// whenever that is.
pub proof fn law_load_gives_back_what_was_written(store: StoreView, state: StateView, now: u64)
    requires
        state.valid(),
    ensures
        store.settled(ActionView::Write(state), DiskReport::Done).loaded(now) == Ok::<
            StateView,
            Seq<char>,
        >(state),
{
    crate::format::current::law_file_round_trip(state);
}

/// Whatever the file holds, a state that is loaded is valid.
pub proof fn law_loaded_states_are_valid(store: StoreView, now: u64)
    ensures
        store.loaded(now) matches Ok(state) ==> state.valid(),
{
    match store.content {
        ContentView::Decoded(file) => {
            crate::format::current::law_decoded_states_are_valid(file);
        },
        _ => {},
    }
}

} // verus!
