//! What several matches leave behind for a restart: a directory with a manifest and one image for
//! each match.

use crate::host::{EntryView, HostView, MatchHost, MatchId};
use crate::recovery::{ImageView, RecoveryError, RecoveryImage};
use crate::runtime::{MatchRuntime, RuntimeRecoveryError, RuntimeView};
use crate::simulation::GameSimulation;
use crate::text::{comes_before, push_decimal, quote_list, same_text, split_lines};
use std::path::PathBuf;
use vstd::prelude::*;
use vstd::string::*;

verus! {

pub const HOST_RECOVERY_BUNDLE_VERSION: u8 = 1;

pub const MANIFEST_FILE_NAME: &'static str = "manifest";

pub const MANIFEST_HEADER: &'static str = "GSHR 1";

pub const RECOVERY_FILE_SUFFIX: &'static str = ".recovery";

pub const MAX_MANIFEST_BYTES: usize = 1048576;

#[derive(Debug, Eq, PartialEq)]
pub struct MatchHostRecoveryConfig {
    pub directory: PathBuf,
}

impl Clone for MatchHostRecoveryConfig {
    fn clone(&self) -> (copy: Self)
        ensures
            copy == *self,
    {
        MatchHostRecoveryConfig { directory: self.directory.clone() }
    }
}

/// Where the bundle is kept, and whether one was there at the start and has to be used up.
#[derive(Debug)]
pub struct MatchHostRecoveryPlan {
    pub directory: PathBuf,
    pub consume_on_start: bool,
}

impl Clone for MatchHostRecoveryPlan {
    fn clone(&self) -> (copy: Self)
        ensures
            copy == *self,
    {
        MatchHostRecoveryPlan {
            directory: self.directory.clone(),
            consume_on_start: self.consume_on_start,
        }
    }
}

/// A host that can be served, and what is to become of its bundle.
#[verifier::reject_recursive_types(S)]
#[derive(Debug)]
pub struct PreparedMatchHost<S> {
    pub host: MatchHost<S>,
    pub recovery: MatchHostRecoveryPlan,
}

#[derive(Clone, Debug, Eq, PartialEq)]
pub enum MatchHostRecoveryError {
    EmptyMatchSet,
    DuplicateMatch(MatchId),
    Host(String),
    Manifest(String),
    Match { id: MatchId, error: String },
    Io(String),
}

impl MatchHostRecoveryError {
    /// The sentence that describes the error.
    pub open spec fn message(self) -> Seq<char> {
        match self {
            MatchHostRecoveryError::EmptyMatchSet =>
                "hosted recovery requires at least one match"@,
            MatchHostRecoveryError::DuplicateMatch(id) => "hosted recovery match "@ + id@
                + " is configured more than once"@,
            MatchHostRecoveryError::Host(error) => "hosted recovery host error: "@ + error@,
            MatchHostRecoveryError::Manifest(error) => "hosted recovery manifest error: "@ + error@,
            MatchHostRecoveryError::Match { id, error } => "hosted recovery for match "@ + id@
                + " failed: "@ + error@,
            MatchHostRecoveryError::Io(error) => "hosted recovery I/O error: "@ + error@,
        }
    }

    pub fn to_string(&self) -> (text: String)
        ensures
            text@ == self.message(),
    {
        match self {
            MatchHostRecoveryError::EmptyMatchSet =>
                "hosted recovery requires at least one match".to_owned(),
            MatchHostRecoveryError::DuplicateMatch(id) => {
                let mut text = "hosted recovery match ".to_owned();
                text.push_str(id.as_str());
                text.push_str(" is configured more than once");
                text
            },
            MatchHostRecoveryError::Host(error) => {
                let mut text = "hosted recovery host error: ".to_owned();
                text.push_str(error.as_str());
                text
            },
            MatchHostRecoveryError::Manifest(error) => {
                let mut text = "hosted recovery manifest error: ".to_owned();
                text.push_str(error.as_str());
                text
            },
            MatchHostRecoveryError::Match { id, error } => {
                let mut text = "hosted recovery for match ".to_owned();
                text.push_str(id.as_str());
                text.push_str(" failed: ");
                text.push_str(error.as_str());
                text
            },
            MatchHostRecoveryError::Io(error) => {
                let mut text = "hosted recovery I/O error: ".to_owned();
                text.push_str(error.as_str());
                text
            },
        }
    }
}

/// The names of matches.
pub open spec fn id_views(ids: Seq<MatchId>) -> Seq<Seq<char>> {
    ids.map_values(|id: MatchId| id@)
}

/// Whether texts are in order and none occurs twice.
pub open spec fn rising(texts: Seq<Seq<char>>) -> bool {
    forall|i: int, j: int|
        0 <= i < j < texts.len() ==> crate::text::precedes(#[trigger] texts[i], #[trigger] texts[j])
}

/// Puts a text in its place among others that are in order, unless it is there already. Returns the
/// place, if it was put there.
fn place(texts: &mut Vec<String>, text: String) -> (place: Option<usize>)
    requires
        rising(crate::text::string_views(old(texts)@)),
    ensures
        ({
            let before = crate::text::string_views(old(texts)@);
            let after = crate::text::string_views(final(texts)@);
            &&& rising(after)
            &&& match place {
                Some(index) => {
                    &&& !before.contains(text@)
                    &&& index <= before.len()
                    &&& after == before.insert(index as int, text@)
                },
                None => before.contains(text@) && after == before,
            }
            &&& after.contains(text@)
            &&& forall|other: Seq<char>| #[trigger] after.contains(other) <==> (before.contains(
                other,
            ) || other == text@)
        }),
{
    let ghost before = crate::text::string_views(texts@);
    let ghost added = text@;
    let mut i: usize = 0;
    while i < texts.len()
        invariant
            i <= texts@.len(),
            before == crate::text::string_views(texts@),
            texts@ == old(texts)@,
            added == text@,
            rising(before),
            forall|j: int| 0 <= j < i ==> crate::text::precedes(#[trigger] before[j], text@),
        decreases texts@.len() - i,
    {
        assert(before[i as int] == texts@[i as int]@);
        if same_text(texts[i].as_str(), text.as_str()) {
            assert(before[i as int] == text@);
            assert(before.contains(text@));
            return None;
        }
        if !comes_before(texts[i].as_str(), text.as_str()) {
            proof {
                assert forall|j: int| i <= j < before.len() implies crate::text::precedes(
                    text@,
                    #[trigger] before[j],
                ) by {
                    if j > i {
                        crate::text::lemma_precedes_transitive(
                            text@,
                            before[i as int],
                            before[j],
                        );
                    }
                }
            }
            texts.insert(i, text);
            proof {
                lemma_placed(before, i as int, added);
                assert(crate::text::string_views(texts@) =~= before.insert(i as int, added));
            }
            return Some(i);
        }
        i = i + 1;
    }
    texts.push(text);
    proof {
        lemma_placed(before, i as int, added);
        assert(crate::text::string_views(texts@) =~= before.insert(i as int, added));
    }
    Some(i)
}

proof fn lemma_placed(before: Seq<Seq<char>>, index: int, text: Seq<char>)
    requires
        0 <= index <= before.len(),
        rising(before),
        forall|j: int| 0 <= j < index ==> crate::text::precedes(#[trigger] before[j], text),
        forall|j: int|
            index <= j < before.len() ==> crate::text::precedes(text, #[trigger] before[j]),
    ensures
        !before.contains(text),
        rising(before.insert(index, text)),
        before.insert(index, text).contains(text),
        forall|other: Seq<char>| #[trigger]
            before.insert(index, text).contains(other) <==> (before.contains(other) || other
                == text),
{
    let after = before.insert(index, text);
    crate::text::lemma_precedes_irreflexive(text);
    assert(after[index] == text);
    assert forall|i: int, j: int| 0 <= i < j < after.len() implies crate::text::precedes(
        #[trigger] after[i],
        #[trigger] after[j],
    ) by {
        if i < index {
            assert(after[i] == before[i]);
        } else if i > index {
            assert(after[i] == before[i - 1]);
        }
        if j < index {
            assert(after[j] == before[j]);
        } else if j > index {
            assert(after[j] == before[j - 1]);
        }
    }
    assert forall|other: Seq<char>| #[trigger] after.contains(other) <==> (before.contains(other)
        || other == text) by {
        if before.contains(other) {
            let k = choose|k: int| 0 <= k < before.len() && before[k] == other;
            if k < index {
                assert(after[k] == other);
            } else {
                assert(after[k + 1] == other);
            }
        }
        if after.contains(other) {
            let k = choose|k: int| 0 <= k < after.len() && after[k] == other;
            if k < index {
                assert(before[k] == other);
            } else if k > index {
                assert(before[k - 1] == other);
            }
        }
    }
}

/// The names of configured matches, in the order of configuration.
pub open spec fn configured<S>(matches: Seq<(MatchId, S)>) -> Seq<Seq<char>> {
    matches.map_values(|entry: (MatchId, S)| entry.0@)
}

/// Whether the match at `index` is the first whose name came before.
pub open spec fn first_repeated(names: Seq<Seq<char>>, index: int) -> bool {
    &&& 0 <= index < names.len()
    &&& names.take(index).contains(names[index])
    &&& forall|i: int| 0 <= i < index ==> !names.take(i).contains(#[trigger] names[i])
}

/// The names of configured matches in order, or the first name that is configured twice.
pub fn expected_ids<S>(matches: &Vec<(MatchId, S)>) -> (result: Result<
    Vec<MatchId>,
    MatchHostRecoveryError,
>)
    ensures
        match result {
            Ok(ids) => {
                &&& matches@.len() > 0
                &&& rising(id_views(ids@))
                &&& ids@.len() == matches@.len()
                &&& forall|name: Seq<char>| #[trigger]
                    id_views(ids@).contains(name) <==> configured(matches@).contains(name)
            },
            Err(MatchHostRecoveryError::EmptyMatchSet) => matches@.len() == 0,
            Err(MatchHostRecoveryError::DuplicateMatch(id)) => exists|index: int| #[trigger]
                first_repeated(configured(matches@), index) && id@ == configured(matches@)[index],
            Err(_) => false,
        },
{
    if matches.len() == 0 {
        return Err(MatchHostRecoveryError::EmptyMatchSet);
    }
    let ghost names = configured(matches@);
    let mut texts: Vec<String> = Vec::new();
    let mut ids: Vec<MatchId> = Vec::new();
    let mut i: usize = 0;
    assert(id_views(ids@) =~= crate::text::string_views(texts@));
    while i < matches.len()
        invariant
            i <= matches@.len(),
            matches@.len() > 0,
            names == configured(matches@),
            id_views(ids@) == crate::text::string_views(texts@),
            rising(id_views(ids@)),
            ids@.len() == i,
            forall|name: Seq<char>| #[trigger]
                id_views(ids@).contains(name) <==> names.take(i as int).contains(name),
            forall|j: int| 0 <= j < i ==> !names.take(j).contains(#[trigger] names[j]),
        decreases matches@.len() - i,
    {
        let ghost before = id_views(ids@);
        let id = matches[i].0.clone();
        assert(names[i as int] == id@);
        match place(&mut texts, id.to_string()) {
            Some(index) => {
                let ghost name = id@;
                ids.insert(index, id);
                proof {
                    assert(id_views(ids@) =~= before.insert(index as int, name));
                    assert forall|other: Seq<char>| #[trigger]
                        id_views(ids@).contains(other) <==> names.take(i + 1).contains(other) by {
                        crate::session::lemma_push_contains(names.take(i as int), name, other);
                        assert(names.take(i + 1) =~= names.take(i as int).push(name));
                    }
                }
            },
            None => {
                assert(first_repeated(names, i as int));
                return Err(MatchHostRecoveryError::DuplicateMatch(id));
            },
        }
        i = i + 1;
    }
    assert(names.take(i as int) =~= names);
    Ok(ids)
}

/// The lines of names, each ended.
pub open spec fn name_lines(names: Seq<Seq<char>>) -> Seq<char>
    decreases names.len(),
{
    if names.len() == 0 {
        Seq::empty()
    } else {
        name_lines(names.drop_last()) + names.last() + seq!['\n']
    }
}

/// The manifest of a bundle: its format and version, then the name of each match on a line.
pub open spec fn manifest_text(names: Seq<Seq<char>>) -> Seq<char> {
    MANIFEST_HEADER@ + seq!['\n'] + name_lines(names)
}

/// Writes the manifest of a bundle.
pub fn encode_manifest(ids: &[MatchId]) -> (manifest: String)
    ensures
        manifest@ == manifest_text(id_views(ids@)),
{
    let mut manifest = MANIFEST_HEADER.to_owned();
    manifest.push('\n');
    let ghost names = id_views(ids@);
    let mut i: usize = 0;
    assert(manifest@ =~= manifest_text(names.take(0)));
    while i < ids.len()
        invariant
            i <= ids@.len(),
            names == id_views(ids@),
            manifest@ == manifest_text(names.take(i as int)),
        decreases ids@.len() - i,
    {
        assert(names.take(i + 1).drop_last() =~= names.take(i as int));
        manifest.push_str(ids[i].as_str());
        manifest.push('\n');
        i = i + 1;
        assert(manifest@ =~= manifest_text(names.take(i as int)));
    }
    assert(names.take(i as int) =~= names);
    manifest
}

/// What is wrong with a manifest, if something is: it has to name the expected matches, all of them,
/// nothing else, and in order.
pub open spec fn manifest_fault(manifest: Seq<char>, expected: Seq<Seq<char>>) -> Option<
    Seq<char>,
> {
    let lines = crate::text::lines(manifest);
    if lines.len() == 0 || lines[0] != MANIFEST_HEADER@ {
        Some("missing or unsupported bundle header"@)
    } else if lines.skip(1) != expected {
        Some(
            "configured matches "@ + crate::text::quoted_list(expected, "["@, "]"@)
                + " do not match bundle matches "@ + crate::text::quoted_list(
                lines.skip(1),
                "["@,
                "]"@,
            ),
        )
    } else {
        None
    }
}

/// Whether a result reports what is wrong with a bundle.
pub open spec fn reports_manifest(
    result: Result<(), MatchHostRecoveryError>,
    fault: Option<Seq<char>>,
) -> bool {
    match fault {
        None => result is Ok,
        Some(words) => result matches Err(MatchHostRecoveryError::Manifest(text)) && text@
            == words,
    }
}

/// The texts of names.
fn id_texts(ids: &[MatchId]) -> (texts: Vec<String>)
    ensures
        crate::text::string_views(texts@) == id_views(ids@),
{
    let mut texts: Vec<String> = Vec::new();
    let mut i: usize = 0;
    while i < ids.len()
        invariant
            i <= ids@.len(),
            crate::text::string_views(texts@) == id_views(ids@).take(i as int),
        decreases ids@.len() - i,
    {
        let ghost before = crate::text::string_views(texts@);
        let text = ids[i].to_string();
        let ghost view = text@;
        texts.push(text);
        i = i + 1;
        assert(crate::text::string_views(texts@) =~= before.push(view));
        assert(before.push(view) =~= id_views(ids@).take(i as int));
    }
    assert(id_views(ids@).take(i as int) =~= id_views(ids@));
    texts
}

/// Whether two lists of texts are the same.
fn same_texts(left: &[String], right: &[String]) -> (same: bool)
    ensures
        same == (crate::text::string_views(left@) == crate::text::string_views(right@)),
{
    let ghost a = crate::text::string_views(left@);
    let ghost b = crate::text::string_views(right@);
    if left.len() != right.len() {
        assert(a.len() != b.len());
        return false;
    }
    let mut i: usize = 0;
    while i < left.len()
        invariant
            i <= left@.len(),
            left@.len() == right@.len(),
            a == crate::text::string_views(left@),
            b == crate::text::string_views(right@),
            forall|j: int| 0 <= j < i ==> a[j] == b[j],
        decreases left@.len() - i,
    {
        if !same_text(left[i].as_str(), right[i].as_str()) {
            assert(a[i as int] != b[i as int]);
            return false;
        }
        i = i + 1;
    }
    assert(a =~= b);
    true
}

/// Checks a manifest against the expected matches.
pub fn validate_manifest(manifest: &str, expected: &[MatchId]) -> (result: Result<
    (),
    MatchHostRecoveryError,
>)
    ensures
        reports_manifest(result, manifest_fault(manifest@, id_views(expected@))),
{
    let mut lines = split_lines(manifest);
    let ghost all = crate::text::lines(manifest@);
    assert(lines@.len() == all.len());
    if lines.len() == 0 {
        return Err(
            MatchHostRecoveryError::Manifest("missing or unsupported bundle header".to_owned()),
        );
    }
    assert(all[0] == lines@[0]@);
    let header = lines.remove(0);
    assert(crate::text::string_views(lines@) =~= all.skip(1));
    if !same_text(header.as_str(), MANIFEST_HEADER) {
        return Err(
            MatchHostRecoveryError::Manifest("missing or unsupported bundle header".to_owned()),
        );
    }
    let texts = id_texts(expected);
    if !same_texts(lines.as_slice(), texts.as_slice()) {
        let mut text = "configured matches ".to_owned();
        text.push_str(quote_list(texts.as_slice(), "[", "]").as_str());
        text.push_str(" do not match bundle matches ");
        text.push_str(quote_list(lines.as_slice(), "[", "]").as_str());
        return Err(MatchHostRecoveryError::Manifest(text));
    }
    Ok(())
}

/// Checks that a manifest is not too long to be read.
pub fn validate_manifest_size(length: u64) -> (result: Result<(), MatchHostRecoveryError>)
    ensures
        reports_manifest(
            result,
            if length > MAX_MANIFEST_BYTES {
                Some(
                    "manifest size "@ + crate::text::decimal(
                        if length > usize::MAX {
                            usize::MAX as nat
                        } else {
                            length as nat
                        },
                    ) + " exceeds limit "@ + crate::text::decimal(MAX_MANIFEST_BYTES as nat),
                )
            } else {
                None
            },
        ),
{
    if length > MAX_MANIFEST_BYTES as u64 {
        let counted: u64 = if length > usize::MAX as u64 {
            usize::MAX as u64
        } else {
            length
        };
        let mut text = "manifest size ".to_owned();
        push_decimal(&mut text, counted);
        text.push_str(" exceeds limit ");
        push_decimal(&mut text, MAX_MANIFEST_BYTES as u64);
        return Err(MatchHostRecoveryError::Manifest(text));
    }
    Ok(())
}

/// The name of a match's image in a bundle.
pub open spec fn image_name(id: Seq<char>) -> Seq<char> {
    id + RECOVERY_FILE_SUFFIX@
}

pub fn recovery_file_name(id: &MatchId) -> (name: String)
    ensures
        name@ == image_name(id@),
{
    let mut name = id.to_string();
    name.push_str(RECOVERY_FILE_SUFFIX);
    name
}

/// The name beside a bundle under which it is written or used up.
pub fn sibling_name(file_name: &str, suffix: &str) -> (name: String)
    ensures
        name@ == file_name@ + suffix@,
{
    let mut name = file_name.to_owned();
    name.push_str(suffix);
    name
}

/// Whether a name belongs in a bundle of the given matches.
pub open spec fn belongs(expected: Seq<Seq<char>>, name: Seq<char>) -> bool {
    name == MANIFEST_FILE_NAME@ || exists|i: int|
        0 <= i < expected.len() && name == image_name(#[trigger] expected[i])
}

/// Whether texts in order are exactly those that a bundle holds.
pub open spec fn lists_held(sorted: Seq<Seq<char>>, actual: Seq<Seq<char>>) -> bool {
    rising(sorted) && forall|name: Seq<char>| #[trigger]
        sorted.contains(name) <==> actual.contains(name)
}

/// Whether texts in order are exactly those that belong in a bundle.
pub open spec fn lists_wanted(sorted: Seq<Seq<char>>, expected: Seq<Seq<char>>) -> bool {
    rising(sorted) && forall|name: Seq<char>| #[trigger]
        sorted.contains(name) <==> belongs(expected, name)
}

/// Whether checking what a bundle holds may end in `result`: it has to hold the manifest and the
/// image of each match, and nothing else.
pub open spec fn entries_checked(
    actual: Seq<Seq<char>>,
    expected: Seq<Seq<char>>,
    result: Result<(), MatchHostRecoveryError>,
) -> bool {
    if forall|name: Seq<char>| #[trigger] actual.contains(name) <==> belongs(expected, name) {
        result is Ok
    } else {
        exists|held: Seq<Seq<char>>, wanted: Seq<Seq<char>>|
            #![trigger lists_held(held, actual), lists_wanted(wanted, expected)]
            lists_held(held, actual) && lists_wanted(wanted, expected) && reports_manifest(
                result,
                Some(
                    "bundle entries "@ + crate::text::quoted_list(held, "{"@, "}"@)
                        + " do not match expected entries "@ + crate::text::quoted_list(
                        wanted,
                        "{"@,
                        "}"@,
                    ),
                ),
            )
    }
}

/// Two lists in order with the same members are the same list.
proof fn lemma_rising_determined(a: Seq<Seq<char>>, b: Seq<Seq<char>>)
    requires
        rising(a),
        rising(b),
        forall|name: Seq<char>| #[trigger] a.contains(name) <==> b.contains(name),
    ensures
        a == b,
    decreases a.len(),
{
    if a.len() == 0 {
        if b.len() > 0 {
            assert(b.contains(b[0]));
            assert(a.contains(b[0]));
        }
        assert(a =~= b);
    } else {
        assert(a.contains(a.last()));
        assert(b.len() > 0);
        assert(b.contains(b.last()));
        assert(a.contains(b.last()));
        if a.last() != b.last() {
            let i = choose|i: int| 0 <= i < a.len() && a[i] == b.last();
            let j = choose|j: int| 0 <= j < b.len() && b[j] == a.last();
            assert(crate::text::precedes(a[i], a[a.len() - 1]));
            assert(crate::text::precedes(b[j], b[b.len() - 1]));
            crate::text::lemma_precedes_transitive(a.last(), b.last(), a.last());
            crate::text::lemma_precedes_irreflexive(a.last());
        }
        let shorter_a = a.drop_last();
        let shorter_b = b.drop_last();
        assert forall|name: Seq<char>| #[trigger] shorter_a.contains(name) implies
            shorter_b.contains(name) by {
            lemma_last_is_alone(a, b, name);
        }
        assert forall|name: Seq<char>| #[trigger] shorter_b.contains(name) implies
            shorter_a.contains(name) by {
            lemma_last_is_alone(b, a, name);
        }
        lemma_rising_determined(shorter_a, shorter_b);
        assert(a =~= shorter_a.push(a.last()));
        assert(b =~= shorter_b.push(b.last()));
    }
}

proof fn lemma_last_is_alone(a: Seq<Seq<char>>, b: Seq<Seq<char>>, name: Seq<char>)
    requires
        a.len() > 0,
        b.len() > 0,
        rising(a),
        a.last() == b.last(),
        a.drop_last().contains(name),
        forall|other: Seq<char>| #[trigger] a.contains(other) <==> b.contains(other),
    ensures
        b.drop_last().contains(name),
{
    let i = choose|i: int| 0 <= i < a.drop_last().len() && a.drop_last()[i] == name;
    assert(a[i] == name);
    assert(a.contains(name));
    let j = choose|j: int| 0 <= j < b.len() && b[j] == name;
    if j == b.len() - 1 {
        assert(crate::text::precedes(a[i], a[a.len() - 1]));
        crate::text::lemma_precedes_irreflexive(name);
    }
    assert(b.drop_last()[j] == name);
}

/// Checks what a bundle holds against the expected matches.
pub fn validate_bundle_entries(actual: &[String], expected: &[MatchId]) -> (result: Result<
    (),
    MatchHostRecoveryError,
>)
    ensures
        entries_checked(crate::text::string_views(actual@), id_views(expected@), result),
{
    let ghost found = crate::text::string_views(actual@);
    let ghost names = id_views(expected@);
    let mut wanted: Vec<String> = Vec::new();
    place(&mut wanted, MANIFEST_FILE_NAME.to_owned());
    let mut i: usize = 0;
    while i < expected.len()
        invariant
            i <= expected@.len(),
            names == id_views(expected@),
            rising(crate::text::string_views(wanted@)),
            forall|name: Seq<char>| #[trigger]
                crate::text::string_views(wanted@).contains(name) <==> belongs(
                    names.take(i as int),
                    name,
                ),
        decreases expected@.len() - i,
    {
        let ghost before = crate::text::string_views(wanted@);
        place(&mut wanted, recovery_file_name(&expected[i]));
        proof {
            let after = crate::text::string_views(wanted@);
            assert(names[i as int] == expected@[i as int]@);
            assert forall|name: Seq<char>| #[trigger] after.contains(name) <==> belongs(
                names.take(i + 1),
                name,
            ) by {
                if belongs(names.take(i as int), name) && name != MANIFEST_FILE_NAME@ {
                    let k = choose|k: int|
                        0 <= k < names.take(i as int).len() && name == image_name(
                            #[trigger] names.take(i as int)[k],
                        );
                    assert(names.take(i + 1)[k] == names[k]);
                }
                if belongs(names.take(i + 1), name) && name != MANIFEST_FILE_NAME@ {
                    let k = choose|k: int|
                        0 <= k < names.take(i + 1).len() && name == image_name(
                            #[trigger] names.take(i + 1)[k],
                        );
                    if k < i {
                        assert(names.take(i as int)[k] == names[k]);
                    }
                }
                assert(names.take(i + 1)[i as int] == names[i as int]);
            }
        }
        i = i + 1;
    }
    assert(names.take(i as int) =~= names);
    let mut held: Vec<String> = Vec::new();
    let mut k: usize = 0;
    while k < actual.len()
        invariant
            k <= actual@.len(),
            found == crate::text::string_views(actual@),
            rising(crate::text::string_views(held@)),
            forall|name: Seq<char>| #[trigger]
                crate::text::string_views(held@).contains(name) <==> found.take(k as int).contains(
                    name,
                ),
        decreases actual@.len() - k,
    {
        place(&mut held, actual[k].clone());
        proof {
            let after = crate::text::string_views(held@);
            assert forall|name: Seq<char>| #[trigger] after.contains(name) <==> found.take(
                k + 1,
            ).contains(name) by {
                crate::session::lemma_push_contains(
                    found.take(k as int),
                    found[k as int],
                    name,
                );
                assert(found.take(k + 1) =~= found.take(k as int).push(found[k as int]));
            }
        }
        k = k + 1;
    }
    assert(found.take(k as int) =~= found);
    let ghost held_views = crate::text::string_views(held@);
    let ghost wanted_views = crate::text::string_views(wanted@);
    assert(lists_held(held_views, found));
    assert(lists_wanted(wanted_views, names));
    if !same_texts(held.as_slice(), wanted.as_slice()) {
        proof {
            if forall|name: Seq<char>| #[trigger] found.contains(name) <==> belongs(names, name) {
                assert forall|name: Seq<char>| #[trigger] held_views.contains(name) <==>
                    wanted_views.contains(name) by {}
                lemma_rising_determined(held_views, wanted_views);
            }
        }
        let mut text = "bundle entries ".to_owned();
        text.push_str(quote_list(held.as_slice(), "{", "}").as_str());
        text.push_str(" do not match expected entries ");
        text.push_str(quote_list(wanted.as_slice(), "{", "}").as_str());
        return Err(MatchHostRecoveryError::Manifest(text));
    }
    assert forall|name: Seq<char>| #[trigger] found.contains(name) <==> belongs(names, name) by {
        assert(held_views.contains(name) <==> wanted_views.contains(name));
    }
    Ok(())
}

/// The images of a bundle under the names of their matches.
pub open spec fn image_at(images: Seq<(MatchId, RecoveryImage)>, id: Seq<char>, index: int) -> bool {
    &&& 0 <= index < images.len()
    &&& images[index].0@ == id
    &&& forall|i: int| 0 <= i < index ==> (#[trigger] images[i]).0@ != id
}

/// Whether a configured match may be brought up as `runtime`: from its image where a bundle was
/// there, and anew with its history captured otherwise.
pub open spec fn brings_up<S: GameSimulation>(
    simulation: S,
    id: Seq<char>,
    reconnect_grace_ticks: u64,
    images: Option<Seq<(MatchId, RecoveryImage)>>,
    runtime: RuntimeView<S>,
) -> bool {
    match images {
        None => runtime == crate::transport::started_anew(simulation, reconnect_grace_ticks, true),
        Some(images) => comes_up(simulation, id, images, runtime),
    }
}

/// Whether a match may be restored from its image as `runtime`.
pub open spec fn comes_up<S: GameSimulation>(
    simulation: S,
    id: Seq<char>,
    images: Seq<(MatchId, RecoveryImage)>,
    runtime: RuntimeView<S>,
) -> bool {
    exists|index: int| #[trigger]
        image_at(images, id, index) && crate::runtime::restores(
            simulation,
            images[index].1@,
            runtime,
        )
}

/// Whether restoring a match from its image may fail with these words.
pub open spec fn stays_down<S: GameSimulation>(
    simulation: S,
    image: ImageView,
    words: Seq<char>,
) -> bool {
    exists|cause: RecoveryError| #[trigger]
        crate::runtime::restore_fails(simulation, image, cause) && words
            == RuntimeRecoveryError::Recovery(cause).message()
}

/// Whether a match may fail to be restored from its image with these words.
pub open spec fn image_fails<S: GameSimulation>(
    simulation: S,
    id: Seq<char>,
    images: Seq<(MatchId, RecoveryImage)>,
    words: Seq<char>,
) -> bool {
    exists|index: int| #[trigger]
        image_at(images, id, index) && stays_down(simulation, images[index].1@, words)
}

/// Whether bringing up a configured match may fail with `error`.
pub open spec fn fails_to_come_up<S: GameSimulation>(
    simulation: S,
    id: Seq<char>,
    images: Option<Seq<(MatchId, RecoveryImage)>>,
    error: MatchHostRecoveryError,
) -> bool {
    match images {
        None => false,
        Some(images) => match error {
            MatchHostRecoveryError::Manifest(text) => {
                &&& forall|index: int| !#[trigger] image_at(images, id, index)
                &&& text@ == "recovery image for configured match "@ + id + " is missing"@
            },
            MatchHostRecoveryError::Match { id: named, error: text } => {
                &&& named@ == id
                &&& image_fails(simulation, id, images, text@)
            },
            _ => false,
        },
    }
}

/// Whether one configured match may join a host.
pub open spec fn joins<S: GameSimulation>(
    before: HostView<S>,
    entry: (MatchId, S),
    reconnect_grace_ticks: u64,
    images: Option<Seq<(MatchId, RecoveryImage)>>,
    after: HostView<S>,
) -> bool {
    exists|runtime: RuntimeView<S>, index: int|
        #![trigger brings_up(entry.1, entry.0@, reconnect_grace_ticks, images, runtime), before.fits_at(entry.0@, index)]
        {
            &&& brings_up(entry.1, entry.0@, reconnect_grace_ticks, images, runtime)
            &&& before.placement_refusal(entry.0) is None
            &&& before.fits_at(entry.0@, index)
            &&& after == HostView {
                entries: before.entries.insert(index, EntryView { id: entry.0@, runtime }),
                ..before
            }
        }
}

/// Whether configured matches may fill a host one after the other.
pub open spec fn fills<S: GameSimulation>(
    matches: Seq<(MatchId, S)>,
    max_matches: usize,
    reconnect_grace_ticks: u64,
    images: Option<Seq<(MatchId, RecoveryImage)>>,
    host: HostView<S>,
) -> bool
    decreases matches.len(),
{
    if matches.len() == 0 {
        host == HostView::<S> { entries: Seq::empty(), max_matches, draining: false }
    } else {
        exists|before: HostView<S>|
            fills(matches.drop_last(), max_matches, reconnect_grace_ticks, images, before)
                && #[trigger] joins(
                before,
                matches.last(),
                reconnect_grace_ticks,
                images,
                host,
            )
    }
}

/// Whether the match at `count` may keep a host from being filled, after those before have joined.
pub open spec fn fill_fails<S: GameSimulation>(
    matches: Seq<(MatchId, S)>,
    max_matches: usize,
    reconnect_grace_ticks: u64,
    images: Option<Seq<(MatchId, RecoveryImage)>>,
    count: int,
    error: MatchHostRecoveryError,
) -> bool {
    &&& 0 <= count < matches.len()
    &&& exists|before: HostView<S>|
        {
            &&& #[trigger] fills(
                matches.take(count),
                max_matches,
                reconnect_grace_ticks,
                images,
                before,
            )
            &&& {
                ||| fails_to_come_up(matches[count].1, matches[count].0@, images, error)
                ||| before.placement_refusal(matches[count].0) matches Some(refusal) && (
                error matches MatchHostRecoveryError::Host(text) && text@ == refusal.message())
            }
        }
}

/// Whether bringing up configured matches may end in `result`.
pub open spec fn brings_all_up<S: GameSimulation>(
    matches: Seq<(MatchId, S)>,
    max_matches: usize,
    reconnect_grace_ticks: u64,
    images: Option<Seq<(MatchId, RecoveryImage)>>,
    result: Result<MatchHost<S>, MatchHostRecoveryError>,
) -> bool {
    match result {
        Ok(host) => max_matches > 0 && fills(
            matches,
            max_matches,
            reconnect_grace_ticks,
            images,
            host@,
        ),
        Err(error) => if max_matches == 0 {
            error matches MatchHostRecoveryError::Host(text) && text@
                == crate::host::HostError::ZeroCapacity.message()
        } else {
            exists|count: int| #[trigger]
                fill_fails(
                    matches,
                    max_matches,
                    reconnect_grace_ticks,
                    images,
                    count,
                    error,
                )
        },
    }
}

fn find_image(images: &Vec<(MatchId, RecoveryImage)>, id: &MatchId) -> (found: Option<usize>)
    ensures
        match found {
            Some(index) => image_at(images@, id@, index as int),
            None => forall|index: int| !#[trigger] image_at(images@, id@, index),
        },
{
    let mut i: usize = 0;
    while i < images.len()
        invariant
            i <= images@.len(),
            forall|j: int| 0 <= j < i ==> (#[trigger] images@[j]).0@ != id@,
        decreases images@.len() - i,
    {
        if images[i].0.same_as(id) {
            return Some(i);
        }
        i = i + 1;
    }
    None
}

/// Restores a match from its image.
fn restore_image<S: GameSimulation>(simulation: S, image: &RecoveryImage) -> (result: Result<
    MatchRuntime<S>,
    String,
>)
    ensures
        match result {
            Ok(runtime) => runtime@.valid() && crate::runtime::restores(
                simulation,
                image@,
                runtime@,
            ),
            Err(text) => stays_down(simulation, image@, text@),
        },
{
    match MatchRuntime::restore_from_recovery(simulation, image.clone()) {
        Ok(runtime) => Ok(runtime),
        Err(error) => {
            assert(crate::runtime::restore_fails(simulation, image@, error->Recovery_0));
            Err(error.to_string())
        },
    }
}

/// Restores one configured match from its image.
fn bring_back<S: GameSimulation>(
    simulation: S,
    id: &MatchId,
    images: &Vec<(MatchId, RecoveryImage)>,
) -> (result: Result<MatchRuntime<S>, MatchHostRecoveryError>)
    ensures
        match result {
            Ok(runtime) => runtime@.valid() && comes_up(simulation, id@, images@, runtime@),
            Err(error) => fails_to_come_up(simulation, id@, Some(images@), error),
        },
{
    let index: usize = match find_image(images, id) {
        Some(index) => index,
        None => {
            let mut text = "recovery image for configured match ".to_owned();
            text.push_str(id.as_str());
            text.push_str(" is missing");
            return Err(MatchHostRecoveryError::Manifest(text));
        },
    };
    let image = &images[index].1;
    assert(image_at(images@, id@, index as int) && *image == images@[index as int].1);
    match restore_image(simulation, image) {
        Ok(runtime) => Ok(runtime),
        Err(error) => {
            assert(image_fails(simulation, id@, images@, error@));
            Err(MatchHostRecoveryError::Match { id: id.clone(), error })
        },
    }
}

/// Brings up one configured match.
fn bring_up<S: GameSimulation>(
    simulation: S,
    id: &MatchId,
    reconnect_grace_ticks: u64,
    images: &Option<Vec<(MatchId, RecoveryImage)>>,
) -> (result: Result<MatchRuntime<S>, MatchHostRecoveryError>)
    ensures
        match result {
            Ok(runtime) => runtime@.valid() && brings_up(
                simulation,
                id@,
                reconnect_grace_ticks,
                stored_images(*images),
                runtime@,
            ),
            Err(error) => fails_to_come_up(simulation, id@, stored_images(*images), error),
        },
{
    match images {
        Some(images) => bring_back(simulation, id, images),
        None => Ok(MatchRuntime::new_with_replay_capture(simulation, reconnect_grace_ticks)),
    }
}

/// The images that were read, if a bundle was there.
pub open spec fn stored_images(images: Option<Vec<(MatchId, RecoveryImage)>>) -> Option<
    Seq<(MatchId, RecoveryImage)>,
> {
    match images {
        Some(images) => Some(images@),
        None => None,
    }
}

/// Brings up configured matches in one host.
pub fn prepare_host<S: GameSimulation>(
    matches: Vec<(MatchId, S)>,
    max_matches: usize,
    reconnect_grace_ticks: u64,
    images: Option<Vec<(MatchId, RecoveryImage)>>,
) -> (result: Result<MatchHost<S>, MatchHostRecoveryError>)
    ensures
        result matches Ok(host) ==> host@.valid(),
        brings_all_up(
            matches@,
            max_matches,
            reconnect_grace_ticks,
            stored_images(images),
            result,
        ),
{
    let mut host = match MatchHost::new(max_matches) {
        Ok(host) => host,
        Err(error) => {
            return Err(MatchHostRecoveryError::Host(error.to_string()));
        },
    };
    let ghost all = matches@;
    let ghost stored = stored_images(images);
    let ghost mut count: int = 0;
    let mut rest = matches;
    assert(all.take(0) =~= Seq::<(MatchId, S)>::empty());
    assert(all.skip(0) =~= all);
    while rest.len() > 0
        invariant
            max_matches > 0,
            all == matches@,
            0 <= count <= all.len(),
            rest@ == all.skip(count),
            stored == stored_images(images),
            host@.valid(),
            fills(all.take(count), max_matches, reconnect_grace_ticks, stored, host@),
        decreases rest@.len(),
    {
        let ghost before = host@;
        let (id, simulation) = rest.remove(0);
        proof {
            assert((id, simulation) == all[count]);
            assert(rest@ =~= all.skip(count + 1));
            assert(all.take(count + 1).drop_last() =~= all.take(count));
            assert(all.take(count + 1).last() == (id, simulation));
        }
        let ghost entry = (id, simulation);
        let runtime = match bring_up(simulation, &id, reconnect_grace_ticks, &images) {
            Ok(runtime) => runtime,
            Err(error) => {
                assert(fill_fails(
                    all,
                    max_matches,
                    reconnect_grace_ticks,
                    stored,
                    count,
                    error,
                ));
                return Err(error);
            },
        };
        let ghost up = runtime@;
        match host.insert(id, runtime) {
            Ok(_) => {
                proof {
                    assert(brings_up(entry.1, entry.0@, reconnect_grace_ticks, stored, up));
                    let index = choose|index: int| #[trigger]
                        before.fits_at(entry.0@, index) && host@ == (HostView {
                            entries: before.entries.insert(
                                index,
                                EntryView { id: entry.0@, runtime: up },
                            ),
                            ..before
                        });
                    assert(before.fits_at(entry.0@, index));
                    assert(joins(before, entry, reconnect_grace_ticks, stored, host@));
                    assert(fills(
                        all.take(count + 1),
                        max_matches,
                        reconnect_grace_ticks,
                        stored,
                        host@,
                    ));
                    count = count + 1;
                }
            },
            Err(failure) => {
                let error = MatchHostRecoveryError::Host(failure.error().to_string());
                assert(fill_fails(
                    all,
                    max_matches,
                    reconnect_grace_ticks,
                    stored,
                    count,
                    error,
                ));
                return Err(error);
            },
        }
    }
    assert(all.take(count) =~= all);
    Ok(host)
}

/// Whether a text stands on one line.
pub open spec fn on_one_line(text: Seq<char>) -> bool {
    forall|i: int| 0 <= i < text.len() ==> #[trigger] text[i] != '\n' && text[i] != '\r'
}

proof fn lemma_manifest_parts(names: Seq<Seq<char>>)
    requires
        forall|i: int| 0 <= i < names.len() ==> on_one_line(#[trigger] names[i]),
    ensures
        crate::text::parts(manifest_text(names), '\n') == (seq![MANIFEST_HEADER@] + names).push(
            Seq::empty(),
        ),
    decreases names.len(),
{
    let parts = crate::text::parts(manifest_text(names), '\n');
    let wanted = (seq![MANIFEST_HEADER@] + names).push(Seq::<char>::empty());
    if names.len() == 0 {
        reveal_strlit("GSHR 1");
        let header = MANIFEST_HEADER@;
        crate::text::lemma_parts_lengthen(Seq::empty(), header, '\n');
        assert(Seq::<char>::empty() + header =~= header);
        assert(crate::text::parts(Seq::<char>::empty(), '\n') =~= seq![Seq::<char>::empty()]);
        assert(crate::text::parts(header, '\n') =~= seq![header]);
        crate::text::lemma_parts_separate(header, '\n');
        assert(manifest_text(names) =~= header.push('\n'));
        assert(parts =~= wanted);
    } else {
        let earlier = names.drop_last();
        let name = names.last();
        assert forall|i: int| 0 <= i < earlier.len() implies on_one_line(#[trigger] earlier[i]) by {
            assert(earlier[i] == names[i]);
        }
        lemma_manifest_parts(earlier);
        let before = crate::text::parts(manifest_text(earlier), '\n');
        assert(on_one_line(name));
        crate::text::lemma_parts_lengthen(manifest_text(earlier), name, '\n');
        let middle = manifest_text(earlier) + name;
        assert(before.last() + name =~= name);
        crate::text::lemma_parts_separate(middle, '\n');
        assert(manifest_text(names) =~= middle.push('\n'));
        assert(parts =~= wanted);
    }
}

/// The manifest that is written for some matches is accepted for exactly those matches, in that
/// order.
pub proof fn law_manifest_is_exact(names: Seq<Seq<char>>, expected: Seq<Seq<char>>)
    requires
        forall|i: int| 0 <= i < names.len() ==> on_one_line(#[trigger] names[i]),
    ensures
        manifest_fault(manifest_text(names), expected) is None <==> expected == names,
{
    lemma_manifest_parts(names);
    let text = manifest_text(names);
    let pieces = crate::text::parts(text, '\n');
    let ended = pieces.drop_last().map_values(|line: Seq<char>| crate::text::without_return(line));
    assert(pieces.drop_last() =~= seq![MANIFEST_HEADER@] + names);
    reveal_strlit("GSHR 1");
    assert forall|i: int| 0 <= i < ended.len() implies #[trigger] ended[i] == pieces[i] by {
        if i > 0 {
            assert(pieces[i] == names[i - 1]);
            assert(on_one_line(names[i - 1]));
        }
    }
    assert(ended =~= seq![MANIFEST_HEADER@] + names);
    assert(crate::text::lines(text).skip(1) =~= names);
}

/// A host that is filled hosts every configured match, and no other.
pub proof fn law_every_match_is_hosted<S: GameSimulation>(
    matches: Seq<(MatchId, S)>,
    max_matches: usize,
    reconnect_grace_ticks: u64,
    images: Option<Seq<(MatchId, RecoveryImage)>>,
    host: HostView<S>,
    name: Seq<char>,
)
    requires
        fills(matches, max_matches, reconnect_grace_ticks, images, host),
    ensures
        host.entries.len() == matches.len(),
        !host.draining,
        host.max_matches == max_matches,
        host.hosts(name) <==> configured(matches).contains(name),
    decreases matches.len(),
{
    let names = configured(matches);
    if matches.len() == 0 {
        assert(!host.hosts(name));
    } else {
        let before = choose|before: HostView<S>|
            fills(matches.drop_last(), max_matches, reconnect_grace_ticks, images, before)
                && #[trigger] joins(
                before,
                matches.last(),
                reconnect_grace_ticks,
                images,
                host,
            );
        law_every_match_is_hosted(
            matches.drop_last(),
            max_matches,
            reconnect_grace_ticks,
            images,
            before,
            name,
        );
        let entry = matches.last();
        let (runtime, index) = choose|runtime: RuntimeView<S>, index: int|
            #![trigger brings_up(entry.1, entry.0@, reconnect_grace_ticks, images, runtime), before.fits_at(entry.0@, index)]
            {
                &&& brings_up(entry.1, entry.0@, reconnect_grace_ticks, images, runtime)
                &&& before.placement_refusal(entry.0) is None
                &&& before.fits_at(entry.0@, index)
                &&& host == HostView {
                    entries: before.entries.insert(index, EntryView { id: entry.0@, runtime }),
                    ..before
                }
            };
        assert(configured(matches.drop_last()) =~= names.drop_last());
        crate::session::lemma_push_contains(names.drop_last(), names.last(), name);
        assert(names =~= names.drop_last().push(names.last()));
        if before.hosts(name) {
            let k = choose|k: int| #[trigger] before.is_at(name, k);
            if k < index {
                assert(host.is_at(name, k));
            } else {
                assert(host.is_at(name, k + 1));
            }
        }
        if name == entry.0@ {
            assert(host.is_at(name, index));
        }
        if host.hosts(name) {
            let k = choose|k: int| #[trigger] host.is_at(name, k);
            if k < index {
                assert(before.is_at(name, k));
            } else if k > index {
                assert(before.is_at(name, k - 1));
            }
        }
    }
}

} // verus!
