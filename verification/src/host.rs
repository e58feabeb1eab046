//! Many matches in one process: bounded placement, drains that stick, and removal of idle matches.

use crate::runtime::{MatchRuntime, RuntimeView};
use crate::simulation::GameSimulation;
use crate::text::{characters, comes_before, push_decimal, push_quoted, same_text};
use vstd::prelude::*;
use vstd::string::*;

verus! {

pub const MAX_MATCH_ID_BYTES: usize = 64;

/// The name of a match: short, and safe in a path.
#[derive(Debug, Eq, Ord, PartialEq, PartialOrd)]
pub struct MatchId(String);

impl View for MatchId {
    type V = Seq<char>;

    closed spec fn view(&self) -> Seq<char> {
        self.0@
    }
}

impl Clone for MatchId {
    fn clone(&self) -> (copy: Self)
        ensures
            copy == *self,
    {
        proof {
            use_type_invariant(self);
        }
        MatchId(self.0.clone())
    }
}

/// Whether a character may stand in a route segment: an ASCII letter or digit, `-` or `_`.
pub open spec fn route_safe(character: char) -> bool {
    ||| '0' <= character <= '9'
    ||| 'A' <= character <= 'Z'
    ||| 'a' <= character <= 'z'
    ||| character == '-'
    ||| character == '_'
}

pub fn is_route_safe(character: char) -> (safe: bool)
    ensures
        safe == route_safe(character),
{
    ('0' <= character && character <= '9') || ('A' <= character && character <= 'Z') || ('a'
        <= character && character <= 'z') || character == '-' || character == '_'
}

/// The first rule that a text breaks as the name of a match, if it breaks one.
pub open spec fn match_id_fault(text: Seq<char>) -> Option<MatchIdError> {
    let bytes = vstd::utf8::encode_utf8(text).len();
    if text.len() == 0 {
        Some(MatchIdError::Empty)
    } else if bytes > MAX_MATCH_ID_BYTES {
        Some(
            MatchIdError::TooLong { maximum: MAX_MATCH_ID_BYTES, actual: bytes as usize },
        )
    } else if exists|i: int| 0 <= i < text.len() && !route_safe(#[trigger] text[i]) {
        Some(MatchIdError::InvalidCharacter(first_unsafe(text)))
    } else {
        None
    }
}

/// The first character of a text that may not stand in a route segment.
pub open spec fn first_unsafe(text: Seq<char>) -> char
    decreases text.len(),
{
    if text.len() == 0 || !route_safe(text[0]) {
        text[0]
    } else {
        first_unsafe(text.drop_first())
    }
}

proof fn lemma_first_unsafe(text: Seq<char>, index: int)
    requires
        0 <= index < text.len(),
        !route_safe(text[index]),
        forall|i: int| 0 <= i < index ==> route_safe(#[trigger] text[i]),
    ensures
        first_unsafe(text) == text[index],
    decreases text.len(),
{
    if index > 0 {
        assert(route_safe(text[0]));
        assert forall|i: int| 0 <= i < index - 1 implies route_safe(
            #[trigger] text.drop_first()[i],
        ) by {
            assert(text.drop_first()[i] == text[i + 1]);
        }
        lemma_first_unsafe(text.drop_first(), index - 1);
    }
}

impl MatchId {
    /// A name breaks no rule.
    #[verifier::type_invariant]
    spec fn well_formed(self) -> bool {
        match_id_fault(self.0@) is None
    }

    /// The name that `value` converts into.
    pub fn new<T: Into<String>>(value: T) -> (result: Result<Self, MatchIdError>)
        ensures
            exists|text: String| #[trigger]
                call_ensures(T::into, (value,), text) && match result {
                    Ok(id) => match_id_fault(text@) is None && id@ == text@,
                    Err(error) => match_id_fault(text@) == Some(error),
                },
    {
        let text = value.into();
        assert(call_ensures(T::into, (value,), text));
        Self::from_text(text)
    }

    /// The name that a text spells.
    pub fn from_text(text: String) -> (result: Result<Self, MatchIdError>)
        ensures
            match result {
                Ok(id) => match_id_fault(text@) is None && id@ == text@,
                Err(error) => match_id_fault(text@) == Some(error),
            },
    {
        let length: usize = text.as_str().as_bytes().len();
        let chars = characters(text.as_str());
        if chars.len() == 0 {
            return Err(MatchIdError::Empty);
        }
        if length > MAX_MATCH_ID_BYTES {
            return Err(MatchIdError::TooLong { maximum: MAX_MATCH_ID_BYTES, actual: length });
        }
        let mut i: usize = 0;
        while i < chars.len()
            invariant
                i <= chars.len(),
                chars@ == text@,
                chars@.len() > 0,
                vstd::utf8::encode_utf8(text@).len() <= MAX_MATCH_ID_BYTES,
                forall|j: int| 0 <= j < i ==> route_safe(#[trigger] text@[j]),
            decreases chars.len() - i,
        {
            if !is_route_safe(chars[i]) {
                proof {
                    lemma_first_unsafe(text@, i as int);
                }
                return Err(MatchIdError::InvalidCharacter(chars[i]));
            }
            i = i + 1;
        }
        Ok(MatchId(text))
    }

    pub fn as_str(&self) -> (text: &str)
        ensures
            text@ == self@,
            match_id_fault(self@) is None,
    {
        proof {
            use_type_invariant(self);
        }
        self.0.as_str()
    }

    pub fn to_string(&self) -> (text: String)
        ensures
            text@ == self@,
    {
        self.0.clone()
    }

    /// Whether two names are the same.
    pub fn same_as(&self, other: &Self) -> (same: bool)
        ensures
            same == (self@ == other@),
    {
        same_text(self.as_str(), other.as_str())
    }
}

impl TryFrom<&str> for MatchId {
    type Error = MatchIdError;

    fn try_from(value: &str) -> (result: Result<Self, MatchIdError>)
        ensures
            match result {
                Ok(id) => match_id_fault(value@) is None && id@ == value@,
                Err(error) => match_id_fault(value@) == Some(error),
            },
    {
        Self::from_text(value.to_owned())
    }
}

impl vstd::std_specs::convert::TryFromSpecImpl<&str> for MatchId {
    open spec fn obeys_try_from_spec() -> bool {
        false
    }

    open spec fn try_from_spec(value: &str) -> Result<Self, MatchIdError> {
        arbitrary()
    }
}

#[derive(Clone, Copy, Debug, Eq, PartialEq, Structural)]
pub enum MatchIdError {
    Empty,
    TooLong { maximum: usize, actual: usize },
    InvalidCharacter(char),
}

impl MatchIdError {
    /// The sentence that describes the error.
    pub open spec fn message(self) -> Seq<char> {
        match self {
            MatchIdError::Empty => "match id must not be empty"@,
            MatchIdError::TooLong { maximum, actual } => "match id length "@
                + crate::text::decimal(actual as nat) + " exceeds maximum "@
                + crate::text::decimal(maximum as nat),
            MatchIdError::InvalidCharacter(character) =>
                "match id contains unsupported character "@ + crate::text::quoted_char(character)
                + "; use ASCII letters, digits, '-' or '_'"@,
        }
    }

    pub fn to_string(&self) -> (text: String)
        ensures
            text@ == self.message(),
    {
        match self {
            MatchIdError::Empty => "match id must not be empty".to_owned(),
            MatchIdError::TooLong { maximum, actual } => {
                let mut text = "match id length ".to_owned();
                push_decimal(&mut text, *actual as u64);
                text.push_str(" exceeds maximum ");
                push_decimal(&mut text, *maximum as u64);
                text
            },
            MatchIdError::InvalidCharacter(character) => {
                let mut text = "match id contains unsupported character ".to_owned();
                push_quoted(&mut text, *character);
                text.push_str("; use ASCII letters, digits, '-' or '_'");
                text
            },
        }
    }
}

#[derive(Debug, Eq, PartialEq)]
pub enum HostError {
    ZeroCapacity,
    Draining,
    DuplicateMatch(MatchId),
    AtCapacity { maximum: usize },
    UnknownMatch(MatchId),
    MatchNotDraining(MatchId),
    MatchNotIdle { id: MatchId, active_players: usize, occupied_slots: usize },
}

impl Clone for HostError {
    fn clone(&self) -> (copy: Self)
        ensures
            copy == *self,
    {
        match self {
            HostError::ZeroCapacity => HostError::ZeroCapacity,
            HostError::Draining => HostError::Draining,
            HostError::DuplicateMatch(id) => HostError::DuplicateMatch(id.clone()),
            HostError::AtCapacity { maximum } => HostError::AtCapacity { maximum: *maximum },
            HostError::UnknownMatch(id) => HostError::UnknownMatch(id.clone()),
            HostError::MatchNotDraining(id) => HostError::MatchNotDraining(id.clone()),
            HostError::MatchNotIdle { id, active_players, occupied_slots } =>
                HostError::MatchNotIdle {
                id: id.clone(),
                active_players: *active_players,
                occupied_slots: *occupied_slots,
            },
        }
    }
}

impl HostError {
    /// The sentence that describes the error.
    pub open spec fn message(self) -> Seq<char> {
        match self {
            HostError::ZeroCapacity => "match host capacity must be non-zero"@,
            HostError::Draining => "match host is draining and rejects placement"@,
            HostError::DuplicateMatch(id) => "match "@ + id@ + " is already hosted"@,
            HostError::AtCapacity { maximum } => "match host has reached capacity "@
                + crate::text::decimal(maximum as nat),
            HostError::UnknownMatch(id) => "match "@ + id@ + " is not hosted"@,
            HostError::MatchNotDraining(id) => "match "@ + id@
                + " must be draining before removal"@,
            HostError::MatchNotIdle { id, active_players, occupied_slots } => "match "@ + id@
                + " still owns "@ + crate::text::decimal(occupied_slots as nat)
                + " player slot(s), including "@ + crate::text::decimal(active_players as nat)
                + " active connection(s)"@,
        }
    }

    pub fn to_string(&self) -> (text: String)
        ensures
            text@ == self.message(),
    {
        match self {
            HostError::ZeroCapacity => "match host capacity must be non-zero".to_owned(),
            HostError::Draining => "match host is draining and rejects placement".to_owned(),
            HostError::DuplicateMatch(id) => {
                let mut text = "match ".to_owned();
                text.push_str(id.as_str());
                text.push_str(" is already hosted");
                text
            },
            HostError::AtCapacity { maximum } => {
                let mut text = "match host has reached capacity ".to_owned();
                push_decimal(&mut text, *maximum as u64);
                text
            },
            HostError::UnknownMatch(id) => {
                let mut text = "match ".to_owned();
                text.push_str(id.as_str());
                text.push_str(" is not hosted");
                text
            },
            HostError::MatchNotDraining(id) => {
                let mut text = "match ".to_owned();
                text.push_str(id.as_str());
                text.push_str(" must be draining before removal");
                text
            },
            HostError::MatchNotIdle { id, active_players, occupied_slots } => {
                let mut text = "match ".to_owned();
                text.push_str(id.as_str());
                text.push_str(" still owns ");
                push_decimal(&mut text, *occupied_slots as u64);
                text.push_str(" player slot(s), including ");
                push_decimal(&mut text, *active_players as u64);
                text.push_str(" active connection(s)");
                text
            },
        }
    }
}

/// A match that could not be placed, with everything that it brought along.
#[verifier::reject_recursive_types(S)]
pub struct PlacementFailure<S> {
    error: HostError,
    id: MatchId,
    runtime: MatchRuntime<S>,
}

/// `core::fmt::Formatter`, where a debug form is written. It is only handed on.
#[verifier::external_type_specification]
#[verifier::external_body]
pub struct ExFormatter<'a>(core::fmt::Formatter<'a>);

/// `core::fmt::Error`, the error of a debug form that could not be written. It is only handed on.
#[verifier::external_type_specification]
#[verifier::external_body]
pub struct ExFormatError(core::fmt::Error);

/// `Formatter::debug_struct`: writes the debug form of a structure from the given fields. Nothing is
/// claimed of what is written.
#[verifier::external_body]
fn write_failure(
    formatter: &mut core::fmt::Formatter<'_>,
    error: &HostError,
    id: &MatchId,
    runtime: &'static str,
) -> (result: Result<(), core::fmt::Error>)
{
    formatter
        .debug_struct("PlacementFailure")
        .field("error", error)
        .field("id", id)
        .field("runtime", &runtime)
        .finish()
}

impl<S: GameSimulation> core::fmt::Debug for PlacementFailure<S> {
    /// Shows why the match could not be placed, and under which name, but nothing of the match, which
    /// holds its players' tokens.
    fn fmt(&self, formatter: &mut core::fmt::Formatter<'_>) -> (result: Result<
        (),
        core::fmt::Error,
    >) {
        write_failure(formatter, &self.error, &self.id, "<retained>")
    }
}

impl<S: GameSimulation> PlacementFailure<S> {
    /// Why the match could not be placed.
    pub closed spec fn cause(&self) -> HostError {
        self.error
    }

    /// The name that the match came with.
    pub closed spec fn name(&self) -> MatchId {
        self.id
    }

    /// The match itself.
    pub closed spec fn retained(&self) -> MatchRuntime<S> {
        self.runtime
    }

    fn new(error: HostError, id: MatchId, runtime: MatchRuntime<S>) -> (failure: Self)
        ensures
            failure.cause() == error,
            failure.name() == id,
            failure.retained() == runtime,
    {
        PlacementFailure { error, id, runtime }
    }

    pub fn error(&self) -> (error: &HostError)
        ensures
            *error == self.cause(),
    {
        &self.error
    }

    pub fn id(&self) -> (id: &MatchId)
        ensures
            *id == self.name(),
    {
        &self.id
    }

    pub fn into_parts(self) -> (parts: (HostError, MatchId, MatchRuntime<S>))
        ensures
            parts == (self.cause(), self.name(), self.retained()),
    {
        (self.error, self.id, self.runtime)
    }

    pub fn to_string(&self) -> (text: String)
        ensures
            text@ == self.cause().message(),
    {
        self.error.to_string()
    }
}

#[derive(Clone, Copy, Debug, Eq, PartialEq)]
pub struct HostStatus {
    pub draining: bool,
    pub hosted_matches: usize,
    pub max_matches: usize,
    pub active_players: usize,
    pub occupied_player_slots: usize,
    pub player_capacity: usize,
}

impl HostStatus {
    pub fn remaining_match_capacity(self) -> (remaining: usize)
        ensures
            remaining == if self.max_matches >= self.hosted_matches {
                self.max_matches - self.hosted_matches
            } else {
                0
            },
    {
        self.max_matches.saturating_sub(self.hosted_matches)
    }

    pub fn ready_for_new_match(self) -> (ready: bool)
        ensures
            ready == (!self.draining && self.hosted_matches < self.max_matches),
    {
        !self.draining && self.hosted_matches < self.max_matches
    }
}

#[derive(Clone, Debug, Eq, PartialEq)]
pub struct MatchStatus {
    pub id: MatchId,
    pub draining: bool,
    pub frozen: bool,
    pub current_tick: u64,
    pub active_players: usize,
    pub occupied_player_slots: usize,
    pub max_players: usize,
}

/// A hosted match: its name and its runtime.
#[verifier::reject_recursive_types(S)]
#[verifier::ext_equal]
pub struct EntryView<S> {
    pub id: Seq<char>,
    pub runtime: RuntimeView<S>,
}

impl MatchStatus {
    /// Whether the status tells the facts of a hosted match.
    pub open spec fn tells<S: GameSimulation>(self, entry: EntryView<S>) -> bool {
        &&& self.id@ == entry.id
        &&& self.draining == entry.runtime.draining
        &&& self.frozen == entry.runtime.frozen
        &&& self.current_tick == entry.runtime.simulation.tick()
        &&& self.active_players == entry.runtime.sessions.active_ids().len()
        &&& self.occupied_player_slots == entry.runtime.sessions.players.dom().len()
        &&& self.max_players == entry.runtime.simulation.capacity()
    }
}

/// A total as far as the machine can count.
pub open spec fn capped(total: nat) -> usize {
    if total > usize::MAX {
        usize::MAX
    } else {
        total as usize
    }
}

/// The connections of all matches together.
pub open spec fn total_active<S: GameSimulation>(entries: Seq<EntryView<S>>) -> nat
    decreases entries.len(),
{
    if entries.len() == 0 {
        0
    } else {
        total_active(entries.drop_last()) + entries.last().runtime.sessions.active_ids().len()
    }
}

/// The slots in use of all matches together.
pub open spec fn total_occupied<S: GameSimulation>(entries: Seq<EntryView<S>>) -> nat
    decreases entries.len(),
{
    if entries.len() == 0 {
        0
    } else {
        total_occupied(entries.drop_last()) + entries.last().runtime.sessions.players.dom().len()
    }
}

/// The player limits of all matches together.
pub open spec fn total_capacity<S: GameSimulation>(entries: Seq<EntryView<S>>) -> nat
    decreases entries.len(),
{
    if entries.len() == 0 {
        0
    } else {
        total_capacity(entries.drop_last()) + entries.last().runtime.simulation.capacity() as nat
    }
}

/// What a host holds: its matches in the order of their names, its limit, and whether it drains.
#[verifier::reject_recursive_types(S)]
#[verifier::ext_equal]
pub struct HostView<S> {
    pub entries: Seq<EntryView<S>>,
    pub max_matches: usize,
    pub draining: bool,
}

impl<S: GameSimulation> HostView<S> {
    /// Every match is sound, no name occurs twice, the names are in order, the limit holds, and a
    /// draining host has only draining matches.
    pub open spec fn valid(self) -> bool {
        &&& 0 < self.max_matches
        &&& self.entries.len() <= self.max_matches
        &&& forall|i: int| 0 <= i < self.entries.len() ==> (#[trigger] self.entries[i]).runtime.valid()
        &&& forall|i: int, j: int|
            0 <= i < j < self.entries.len() ==> crate::text::precedes(
                (#[trigger] self.entries[i]).id,
                (#[trigger] self.entries[j]).id,
            )
        &&& self.draining ==> forall|i: int|
            0 <= i < self.entries.len() ==> (#[trigger] self.entries[i]).runtime.draining
    }

    /// Whether the match at `index` has the given name.
    pub open spec fn is_at(self, id: Seq<char>, index: int) -> bool {
        0 <= index < self.entries.len() && self.entries[index].id == id
    }

    /// Whether a match of that name is hosted.
    pub open spec fn hosts(self, id: Seq<char>) -> bool {
        exists|index: int| #[trigger] self.is_at(id, index)
    }

    /// Whether `index` is the place of a new name.
    pub open spec fn fits_at(self, id: Seq<char>, index: int) -> bool {
        &&& 0 <= index <= self.entries.len()
        &&& forall|i: int|
            0 <= i < index ==> crate::text::precedes((#[trigger] self.entries[i]).id, id)
        &&& forall|i: int|
            index <= i < self.entries.len() ==> crate::text::precedes(
                id,
                (#[trigger] self.entries[i]).id,
            )
    }

    /// The host after an operation left the match at `index` as `after`, but for a drain that had
    /// begun and stays.
    pub open spec fn worked_over(self, index: int, after: RuntimeView<S>) -> HostView<S> {
        let entry = self.entries[index];
        HostView {
            entries: self.entries.update(
                index,
                EntryView {
                    id: entry.id,
                    runtime: if self.draining || entry.runtime.draining {
                        RuntimeView { draining: true, ..after }
                    } else {
                        after
                    },
                },
            ),
            ..self
        }
    }

    /// Why a match of that name cannot be placed, if it cannot.
    pub open spec fn placement_refusal(self, id: MatchId) -> Option<HostError> {
        if self.draining {
            Some(HostError::Draining)
        } else if self.hosts(id@) {
            Some(HostError::DuplicateMatch(id))
        } else if self.entries.len() >= self.max_matches {
            Some(HostError::AtCapacity { maximum: self.max_matches })
        } else {
            None
        }
    }

    /// Why the match at `index` cannot be removed, if it cannot.
    pub open spec fn removal_refusal(self, id: MatchId, index: int) -> Option<HostError> {
        let runtime = self.entries[index].runtime;
        let active = runtime.sessions.active_ids().len();
        let occupied = runtime.sessions.players.dom().len();
        if !runtime.draining {
            Some(HostError::MatchNotDraining(id))
        } else if active != 0 || occupied != 0 {
            Some(
                HostError::MatchNotIdle {
                    id,
                    active_players: active as usize,
                    occupied_slots: occupied as usize,
                },
            )
        } else {
            None
        }
    }
}

/// A match under its name.
#[verifier::reject_recursive_types(S)]
#[derive(Debug)]
pub struct HostedMatch<S> {
    pub id: MatchId,
    pub runtime: MatchRuntime<S>,
}

impl<S> View for HostedMatch<S> {
    type V = EntryView<S>;

    open spec fn view(&self) -> EntryView<S> {
        EntryView { id: self.id@, runtime: self.runtime@ }
    }
}

/// The matches of a host.
pub open spec fn entry_views<S>(matches: Seq<HostedMatch<S>>) -> Seq<EntryView<S>> {
    matches.map_values(|hosted: HostedMatch<S>| hosted@)
}

/// Several matches in one process.
#[verifier::reject_recursive_types(S)]
#[derive(Debug)]
pub struct MatchHost<S> {
    matches: Vec<HostedMatch<S>>,
    max_matches: usize,
    draining: bool,
}

impl<S> View for MatchHost<S> {
    type V = HostView<S>;

    closed spec fn view(&self) -> HostView<S> {
        HostView {
            entries: entry_views(self.matches@),
            max_matches: self.max_matches,
            draining: self.draining,
        }
    }
}

impl<S: GameSimulation> MatchHost<S> {
    /// A host with room for the given number of matches.
    pub fn new(max_matches: usize) -> (result: Result<Self, HostError>)
        ensures
            match result {
                Ok(host) => {
                    &&& max_matches > 0
                    &&& host@.valid()
                    &&& host@ == (HostView::<S> {
                        entries: Seq::empty(),
                        max_matches,
                        draining: false,
                    })
                },
                Err(error) => max_matches == 0 && error == HostError::ZeroCapacity,
            },
    {
        if max_matches == 0 {
            return Err(HostError::ZeroCapacity);
        }
        let host = MatchHost { matches: Vec::new(), max_matches, draining: false };
        assert(host@.entries =~= Seq::<EntryView<S>>::empty());
        Ok(host)
    }

    pub fn max_matches(&self) -> (maximum: usize)
        ensures
            maximum == self@.max_matches,
    {
        self.max_matches
    }

    pub fn len(&self) -> (length: usize)
        ensures
            length == self@.entries.len(),
    {
        self.matches.len()
    }

    pub fn is_empty(&self) -> (empty: bool)
        ensures
            empty == (self@.entries.len() == 0),
    {
        self.matches.len() == 0
    }

    pub fn is_draining(&self) -> (draining: bool)
        ensures
            draining == self@.draining,
    {
        self.draining
    }

    /// Where a match of that name stands, or where it would have to be put.
    fn position(&self, id: &MatchId) -> (place: (usize, bool))
        requires
            self@.valid(),
        ensures
            place.1 ==> self@.is_at(id@, place.0 as int),
            !place.1 ==> self@.fits_at(id@, place.0 as int) && !self@.hosts(id@),
    {
        let mut i: usize = 0;
        while i < self.matches.len()
            invariant
                i <= self.matches.len(),
                self@.valid(),
                forall|j: int|
                    0 <= j < i ==> crate::text::precedes((#[trigger] self@.entries[j]).id, id@),
            decreases self.matches.len() - i,
        {
            let entry = &self.matches[i];
            assert(self@.entries[i as int].id == entry.id@);
            if entry.id.same_as(id) {
                assert(self@.is_at(id@, i as int));
                return (i, true);
            }
            if !comes_before(entry.id.as_str(), id.as_str()) {
                proof {
                    assert forall|j: int| i <= j < self@.entries.len() implies crate::text::precedes(
                        id@,
                        (#[trigger] self@.entries[j]).id,
                    ) by {
                        if j > i {
                            crate::text::lemma_precedes_transitive(
                                id@,
                                self@.entries[i as int].id,
                                self@.entries[j].id,
                            );
                        }
                    }
                    self.lemma_not_hosted(id@, i as int);
                }
                return (i, false);
            }
            i = i + 1;
        }
        proof {
            self.lemma_not_hosted(id@, i as int);
        }
        (i, false)
    }

    proof fn lemma_not_hosted(&self, id: Seq<char>, index: int)
        requires
            self@.fits_at(id, index),
        ensures
            !self@.hosts(id),
    {
        assert forall|i: int| !self@.is_at(id, i) by {
            if self@.is_at(id, i) {
                crate::text::lemma_precedes_irreflexive(id);
                assert(self@.entries[i].id == id);
            }
        }
    }

    /// The facts of the whole host, counted afresh.
    pub fn status(&self) -> (status: HostStatus)
        requires
            self@.valid(),
        ensures
            status.draining == self@.draining,
            status.hosted_matches == self@.entries.len(),
            status.max_matches == self@.max_matches,
            status.active_players == capped(total_active(self@.entries)),
            status.occupied_player_slots == capped(total_occupied(self@.entries)),
            status.player_capacity == capped(total_capacity(self@.entries)),
    {
        let mut active_players: usize = 0;
        let mut occupied_player_slots: usize = 0;
        let mut player_capacity: usize = 0;
        let ghost all = self@.entries;
        let mut i: usize = 0;
        assert(all.take(0) =~= Seq::<EntryView<S>>::empty());
        while i < self.matches.len()
            invariant
                i <= self.matches.len(),
                self@.valid(),
                all == self@.entries,
                active_players == capped(total_active(all.take(i as int))),
                occupied_player_slots == capped(total_occupied(all.take(i as int))),
                player_capacity == capped(total_capacity(all.take(i as int))),
            decreases self.matches.len() - i,
        {
            let runtime = &self.matches[i].runtime;
            assert(all[i as int].runtime == runtime@);
            assert(all.take(i + 1).drop_last() =~= all.take(i as int));
            assert(all.take(i + 1).last() == all[i as int]);
            active_players = active_players.saturating_add(runtime.active_count());
            occupied_player_slots = occupied_player_slots.saturating_add(runtime.slot_count());
            player_capacity = player_capacity.saturating_add(runtime.max_players());
            i = i + 1;
        }
        assert(all.take(i as int) =~= all);
        HostStatus {
            draining: self.draining,
            hosted_matches: self.matches.len(),
            max_matches: self.max_matches,
            active_players,
            occupied_player_slots,
            player_capacity,
        }
    }

    fn status_at(&self, index: usize) -> (status: MatchStatus)
        requires
            self@.valid(),
            index < self@.entries.len(),
        ensures
            status.tells(self@.entries[index as int]),
    {
        let entry = &self.matches[index];
        assert(self@.entries[index as int] == entry@);
        MatchStatus {
            id: entry.id.clone(),
            draining: entry.runtime.is_draining(),
            frozen: entry.runtime.is_frozen(),
            current_tick: entry.runtime.current_tick(),
            active_players: entry.runtime.active_count(),
            occupied_player_slots: entry.runtime.slot_count(),
            max_players: entry.runtime.max_players(),
        }
    }

    /// The facts of every match, in the order of the names.
    pub fn statuses(&self) -> (statuses: Vec<MatchStatus>)
        requires
            self@.valid(),
        ensures
            statuses@.len() == self@.entries.len(),
            forall|i: int|
                0 <= i < statuses@.len() ==> (#[trigger] statuses@[i]).tells(self@.entries[i]),
    {
        let mut statuses: Vec<MatchStatus> = Vec::new();
        let mut i: usize = 0;
        while i < self.matches.len()
            invariant
                i <= self.matches.len(),
                self.matches.len() == self@.entries.len(),
                self@.valid(),
                statuses@.len() == i,
                forall|j: int|
                    0 <= j < i ==> (#[trigger] statuses@[j]).tells(self@.entries[j]),
            decreases self.matches.len() - i,
        {
            statuses.push(self.status_at(i));
            i = i + 1;
        }
        statuses
    }

    /// The facts of one match.
    pub fn match_status(&self, id: &MatchId) -> (status: Option<MatchStatus>)
        requires
            self@.valid(),
        ensures
            match status {
                Some(status) => exists|index: int| #[trigger]
                    self@.is_at(id@, index) && status.tells(self@.entries[index]),
                None => !self@.hosts(id@),
            },
    {
        let (index, found) = self.position(id);
        if found {
            Some(self.status_at(index))
        } else {
            None
        }
    }

    /// Places a match. One that cannot be placed comes back whole.
    pub fn insert(&mut self, id: MatchId, runtime: MatchRuntime<S>) -> (result: Result<
        (),
        PlacementFailure<S>,
    >)
        requires
            old(self)@.valid(),
            runtime@.valid(),
        ensures
            final(self)@.valid(),
            match result {
                Ok(_) => {
                    &&& old(self)@.placement_refusal(id) is None
                    &&& exists|index: int| #[trigger]
                        old(self)@.fits_at(id@, index) && final(self)@ == (HostView {
                            entries: old(self)@.entries.insert(
                                index,
                                EntryView { id: id@, runtime: runtime@ },
                            ),
                            ..old(self)@
                        })
                },
                Err(failure) => {
                    &&& old(self)@.placement_refusal(id) == Some(failure.cause())
                    &&& failure.name() == id
                    &&& failure.retained() == runtime
                    &&& final(self)@ == old(self)@
                },
            },
    {
        if self.draining {
            return Err(PlacementFailure::new(HostError::Draining, id, runtime));
        }
        let (index, found) = self.position(&id);
        if found {
            return Err(PlacementFailure::new(HostError::DuplicateMatch(id.clone()), id, runtime));
        }
        if self.matches.len() >= self.max_matches {
            let error = HostError::AtCapacity { maximum: self.max_matches };
            return Err(PlacementFailure::new(error, id, runtime));
        }
        let ghost before = self@;
        let ghost entry = EntryView { id: id@, runtime: runtime@ };
        self.matches.insert(index, HostedMatch { id, runtime });
        proof {
            assert(self@.entries =~= before.entries.insert(index as int, entry));
            let after = self@.entries;
            assert forall|i: int, j: int| 0 <= i < j < after.len() implies crate::text::precedes(
                (#[trigger] after[i]).id,
                (#[trigger] after[j]).id,
            ) by {
                let at = index as int;
                if i < at {
                    assert(after[i] == before.entries[i]);
                } else if i > at {
                    assert(after[i] == before.entries[i - 1]);
                }
                if j < at {
                    assert(after[j] == before.entries[j]);
                } else if j > at {
                    assert(after[j] == before.entries[j - 1]);
                }
            }
            assert forall|i: int| 0 <= i < after.len() implies (#[trigger] after[i]).runtime.valid()
                by {
                if i < index {
                    assert(after[i] == before.entries[i]);
                } else if i > index {
                    assert(after[i] == before.entries[i - 1]);
                }
            }
        }
        Ok(())
    }

    /// The match of that name.
    pub fn runtime(&self, id: &MatchId) -> (runtime: Option<&MatchRuntime<S>>)
        requires
            self@.valid(),
        ensures
            match runtime {
                Some(runtime) => exists|index: int| #[trigger]
                    self@.is_at(id@, index) && runtime@ == self@.entries[index].runtime,
                None => !self@.hosts(id@),
            },
    {
        let (index, found) = self.position(id);
        if found {
            assert(self@.entries[index as int].runtime == self.matches@[index as int].runtime@);
            Some(&self.matches[index].runtime)
        } else {
            None
        }
    }

    /// Lets an operation work on one match. A drain that has begun stays, whatever the operation
    /// does.
    pub fn with_runtime_mut<R, F: FnOnce(&mut MatchRuntime<S>) -> R>(
        &mut self,
        id: &MatchId,
        operation: F,
    ) -> (result: Option<R>)
        requires
            old(self)@.valid(),
            forall|target: &mut MatchRuntime<S>|
                target@.valid() ==> #[trigger] call_requires(operation, (target,)),
            forall|target: &mut MatchRuntime<S>, output: R| #[trigger]
                call_ensures(operation, (target,), output) && target@.valid()
                    ==> final(target)@.valid(),
        ensures
            final(self)@.valid(),
            match result {
                Some(output) => exists|index: int, target: &mut MatchRuntime<S>| #[trigger]
                    old(self)@.is_at(id@, index) && #[trigger] call_ensures(
                        operation,
                        (target,),
                        output,
                    ) && target@ == old(self)@.entries[index].runtime && final(self)@
                        == old(self)@.worked_over(index, final(target)@),
                None => !old(self)@.hosts(id@) && final(self)@ == old(self)@,
            },
    {
        let (index, found) = self.position(id);
        if !found {
            return None;
        }
        let host_draining = self.draining;
        let ghost before = self@;
        assert(before.entries[index as int] == self.matches@[index as int]@);
        let runtime = &mut self.matches[index].runtime;
        let preserve_drain = host_draining || runtime.is_draining();
        let output = operation(&mut *runtime);
        let ghost worked = runtime@;
        assert(exists|target: &mut MatchRuntime<S>| #[trigger]
            call_ensures(operation, (target,), output) && target@
                == before.entries[index as int].runtime && final(target)@ == worked);
        if preserve_drain {
            runtime.begin_drain();
        }
        proof {
            assert(self@.entries =~= before.worked_over(index as int, worked).entries);
            assert(self@ == before.worked_over(index as int, worked));
            assert(before.is_at(id@, index as int));
        }
        let ghost told = output;
        assert(exists|index: int, target: &mut MatchRuntime<S>| #[trigger]
            before.is_at(id@, index) && #[trigger] call_ensures(operation, (target,), told)
                && target@ == before.entries[index].runtime && self@ == before.worked_over(
                index,
                final(target)@,
            ));
        let result = Some(output);
        assert(result->0 == told);
        assert(exists|index: int, target: &mut MatchRuntime<S>| #[trigger]
            before.is_at(id@, index) && #[trigger] call_ensures(operation, (target,), result->0)
                && target@ == before.entries[index].runtime && self@ == before.worked_over(
                index,
                final(target)@,
            ));
        result
    }

    /// Begins the drain of one match.
    pub fn begin_match_drain(&mut self, id: &MatchId) -> (result: Result<(), HostError>)
        requires
            old(self)@.valid(),
        ensures
            final(self)@.valid(),
            match result {
                Ok(_) => exists|index: int| #[trigger]
                    old(self)@.is_at(id@, index) && final(self)@ == (HostView {
                        entries: old(self)@.entries.update(
                            index,
                            EntryView {
                                id: id@,
                                runtime: RuntimeView {
                                    draining: true,
                                    ..old(self)@.entries[index].runtime
                                },
                            },
                        ),
                        ..old(self)@
                    }),
                Err(error) => !old(self)@.hosts(id@) && error == HostError::UnknownMatch(*id)
                    && final(self)@ == old(self)@,
            },
    {
        let (index, found) = self.position(id);
        if !found {
            return Err(HostError::UnknownMatch(id.clone()));
        }
        let ghost before = self@;
        assert(before.entries[index as int] == self.matches@[index as int]@);
        self.matches[index].runtime.begin_drain();
        proof {
            let after = self@.entries;
            assert(after =~= before.entries.update(index as int, after[index as int]));
        }
        Ok(())
    }

    /// Begins the drain of the host and of every match.
    pub fn begin_drain(&mut self)
        requires
            old(self)@.valid(),
        ensures
            final(self)@.valid(),
            final(self)@ == (HostView {
                entries: old(self)@.entries.map_values(
                    |entry: EntryView<S>|
                        EntryView {
                            id: entry.id,
                            runtime: RuntimeView { draining: true, ..entry.runtime },
                        },
                ),
                draining: true,
                ..old(self)@
            }),
    {
        let ghost before = self@.entries;
        let ghost drained = before.map_values(
            |entry: EntryView<S>|
                EntryView {
                    id: entry.id,
                    runtime: RuntimeView { draining: true, ..entry.runtime },
                },
        );
        self.draining = true;
        let mut i: usize = 0;
        while i < self.matches.len()
            invariant
                i <= self.matches.len(),
                before == old(self)@.entries,
                drained == before.map_values(
                    |entry: EntryView<S>|
                        EntryView {
                            id: entry.id,
                            runtime: RuntimeView { draining: true, ..entry.runtime },
                        },
                ),
                self.draining,
                self.max_matches == old(self)@.max_matches,
                self@.entries.len() == before.len(),
                forall|j: int|
                    0 <= j < self@.entries.len() ==> #[trigger] self@.entries[j] == if j < i {
                        drained[j]
                    } else {
                        before[j]
                    },
            decreases self.matches.len() - i,
        {
            let ghost entries = self@.entries;
            assert(entries[i as int] == self.matches@[i as int]@);
            self.matches[i].runtime.begin_drain();
            proof {
                assert(self@.entries =~= entries.update(i as int, self.matches@[i as int]@));
            }
            i = i + 1;
        }
        proof {
            assert(self@.entries =~= drained);
            let after = self@.entries;
            assert forall|a: int, b: int| 0 <= a < b < after.len() implies crate::text::precedes(
                (#[trigger] after[a]).id,
                (#[trigger] after[b]).id,
            ) by {
                assert(crate::text::precedes(before[a].id, before[b].id));
            }
            assert forall|a: int| 0 <= a < after.len() implies (#[trigger] after[a]).runtime.valid()
                by {
                assert(before[a].runtime.valid());
            }
        }
    }

    /// Takes a drained match without any slot in use out of the host.
    pub fn remove_drained(&mut self, id: &MatchId) -> (result: Result<MatchRuntime<S>, HostError>)
        requires
            old(self)@.valid(),
        ensures
            final(self)@.valid(),
            match result {
                Ok(runtime) => exists|index: int| #[trigger]
                    old(self)@.is_at(id@, index) && old(self)@.removal_refusal(*id, index) is None
                        && runtime@ == old(self)@.entries[index].runtime && final(self)@
                        == (HostView {
                        entries: old(self)@.entries.remove(index),
                        ..old(self)@
                    }),
                Err(error) => final(self)@ == old(self)@ && if old(self)@.hosts(id@) {
                    exists|index: int| #[trigger]
                        old(self)@.is_at(id@, index) && old(self)@.removal_refusal(*id, index)
                            == Some(error)
                } else {
                    error == HostError::UnknownMatch(*id)
                },
            },
    {
        let (index, found) = self.position(id);
        if !found {
            return Err(HostError::UnknownMatch(id.clone()));
        }
        let ghost before = self@;
        assert(before.entries[index as int] == self.matches@[index as int]@);
        let runtime = &self.matches[index].runtime;
        if !runtime.is_draining() {
            return Err(HostError::MatchNotDraining(id.clone()));
        }
        let active_players: usize = runtime.active_count();
        let occupied_slots: usize = runtime.slot_count();
        if active_players != 0 || occupied_slots != 0 {
            return Err(
                HostError::MatchNotIdle { id: id.clone(), active_players, occupied_slots },
            );
        }
        let removed = self.matches.remove(index);
        proof {
            assert(self@.entries =~= before.entries.remove(index as int));
            let after = self@.entries;
            assert forall|i: int, j: int| 0 <= i < j < after.len() implies crate::text::precedes(
                (#[trigger] after[i]).id,
                (#[trigger] after[j]).id,
            ) by {
                let i_before = if i < index { i } else { i + 1 };
                let j_before = if j < index { j } else { j + 1 };
                assert(after[i] == before.entries[i_before]);
                assert(after[j] == before.entries[j_before]);
            }
            assert forall|i: int| 0 <= i < after.len() implies (#[trigger] after[i]).runtime.valid()
                && (before.draining ==> after[i].runtime.draining) by {
                let i_before = if i < index { i } else { i + 1 };
                assert(after[i] == before.entries[i_before]);
            }
        }
        Ok(removed.runtime)
    }

    /// Every match under its name, in the order of the names.
    pub fn into_runtimes(self) -> (matches: Vec<HostedMatch<S>>)
        ensures
            entry_views(matches@) == self@.entries,
    {
        self.matches
    }
}

/// No two hosted matches have the same name.
pub proof fn law_names_are_unique<S: GameSimulation>(host: HostView<S>, id: Seq<char>, a: int, b: int)
    requires
        host.valid(),
        host.is_at(id, a),
        host.is_at(id, b),
    ensures
        a == b,
{
    crate::text::lemma_precedes_irreflexive(id);
    if a < b {
        assert(crate::text::precedes(host.entries[a].id, host.entries[b].id));
    } else if b < a {
        assert(crate::text::precedes(host.entries[b].id, host.entries[a].id));
    }
}

/// A drain that has begun, of the host or of a match, survives every operation on a match, and a
/// host that drains takes no match in.
pub proof fn law_drain_is_preserved<S: GameSimulation>(
    host: HostView<S>,
    index: int,
    after: RuntimeView<S>,
    id: MatchId,
)
    requires
        host.valid(),
        0 <= index < host.entries.len(),
    ensures
        host.draining || host.entries[index].runtime.draining ==> host.worked_over(
            index,
            after,
        ).entries[index].runtime.draining,
        host.worked_over(index, after).draining == host.draining,
        forall|other: int|
            0 <= other < host.entries.len() && other != index ==> host.worked_over(
                index,
                after,
            ).entries[other] == #[trigger] host.entries[other],
        host.draining ==> host.placement_refusal(id) == Some(HostError::Draining),
{
}

} // verus!
