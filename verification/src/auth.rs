//! The stored API key.

use crate::config::{key_of, read_key};
use crate::error::{failure, ErrorView, TickError};
use crate::path::{join_path, path_join};
use crate::text::{blank, concat4, lemma_trim, opt_text, same_text, trim, trimmed, white};
use vstd::prelude::*;

verus! {

/// A place that keeps an API key.
pub trait CredentialStore {
    /// The key that is kept.
    fn get_api_key(&self) -> (out: Result<Option<String>, TickError>);

    /// Keeps a key.
    fn set_api_key(&self, api_key: &str) -> (out: Result<(), TickError>);
}

/// The key as it is kept: without white space around it. One of white space alone is refused.
pub fn checked_key(raw: &str) -> (out: Result<String, TickError>)
    ensures
        blank(raw@) ==> failure(out) == Some(ErrorView::InvalidArgument("API key cannot be empty"@)),
        !blank(raw@) ==> (out matches Ok(key) && key@ == trim(raw@)),
{
    let key = trimmed(raw);
    if key.as_str().unicode_len() == 0 {
        return Err(TickError::InvalidArgument("API key cannot be empty".to_owned()));
    }
    Ok(key)
}

/// Keeps a key that the user typed. The store is asked only where there is one, and its answer is the
/// answer.
pub fn store_typed_key<S: CredentialStore>(store: &S, raw: &str) -> (out: Result<(), TickError>)
    ensures
        blank(raw@) ==> failure(out) == Some(ErrorView::InvalidArgument("API key cannot be empty"@)),
        !blank(raw@) ==> exists|key: &str|
            key@ == trim(raw@) && #[trigger] call_ensures(S::set_api_key, (store, key), out),
{
    match checked_key(raw) {
        Ok(key) => {
            let text = key.as_str();
            store.set_api_key(text)
        },
        Err(error) => Err(error),
    }
}

/// The file that keeps a key where the system keeps none, under the data directory of the tool.
pub fn credential_fallback_path(data_dir: Option<String>) -> (out: Result<String, TickError>)
    ensures
        match data_dir {
            Some(dir) => out matches Ok(path) && path@ == path_join(
                path_join(dir@, "account"@),
                "api-key.txt"@,
            ),
            None => failure(out) == Some(
                ErrorView::Other("unable to determine platform data directory"@),
            ),
        },
{
    match data_dir {
        Some(dir) => {
            let account = join_path(dir.as_str(), "account");
            Ok(join_path(account.as_str(), "api-key.txt"))
        },
        None => Err(TickError::Other("unable to determine platform data directory".to_owned())),
    }
}

// ---------------------------------------------------------------------------
// Finding the key
// ---------------------------------------------------------------------------

/// The places that keep a key, in the order in which they are asked.
#[derive(Debug, Clone, Copy, PartialEq, Eq, Structural)]
pub enum CredentialSource {
    /// The credential store of the system, under the tool's name.
    PrimaryEntry,
    /// The credential store of the system, under the tool's old name.
    LegacyEntry,
    /// The file under the tool's data directory.
    PrimaryFile,
    /// The file under the data directory of the tool's old name.
    LegacyFile,
}

/// A search for the key that is under way.
#[derive(Debug)]
pub struct CredentialLookup {
    /// The place that is asked next.
    pub source: CredentialSource,
    /// The first fault of the system's store.
    pub fault: Option<TickError>,
}

/// What follows an answer.
#[derive(Debug)]
pub enum LookupStep {
    /// The next place is asked.
    Next(CredentialLookup),
    /// The search is over.
    Done(Result<Option<String>, TickError>),
}

/// An answer: a key, none, or a fault.
pub type AnswerView = Result<Option<Seq<char>>, ErrorView>;

/// What an answer says: white space around a key does not count, and a key of white space alone is
/// none.
pub open spec fn answer_view(answer: Result<Option<String>, TickError>) -> AnswerView {
    match answer {
        Ok(key) => Ok(key_of(opt_text(key))),
        Err(error) => Err(error@),
    }
}

/// What a search found.
pub open spec fn result_view(result: Result<Option<String>, TickError>) -> AnswerView {
    match result {
        Ok(key) => Ok(opt_text(key)),
        Err(error) => Err(error@),
    }
}

/// What the places together say: the first key that one has. A fault of the system's store counts
/// only where nothing else has a key, a fault of a file ends the search.
pub open spec fn lookup_result(
    primary: AnswerView,
    legacy: AnswerView,
    primary_file: AnswerView,
    legacy_file: AnswerView,
) -> AnswerView {
    if primary matches Ok(Some(key)) {
        primary
    } else if legacy matches Ok(Some(key)) {
        legacy
    } else if primary_file is Err || primary_file->Ok_0 is Some {
        primary_file
    } else if legacy_file is Err || legacy_file->Ok_0 is Some {
        legacy_file
    } else if primary is Err {
        primary
    } else if legacy is Err {
        legacy
    } else {
        Ok(None)
    }
}

/// What the search comes to from here on, when the places that were not asked yet answer so.
pub open spec fn outlook(
    lookup: CredentialLookup,
    primary: AnswerView,
    legacy: AnswerView,
    primary_file: AnswerView,
    legacy_file: AnswerView,
) -> AnswerView {
    let nothing: AnswerView = Ok(None);
    let before: AnswerView = match lookup.fault {
        Some(error) => Err(error@),
        None => Ok(None),
    };
    match lookup.source {
        CredentialSource::PrimaryEntry => lookup_result(primary, legacy, primary_file, legacy_file),
        CredentialSource::LegacyEntry => lookup_result(before, legacy, primary_file, legacy_file),
        CredentialSource::PrimaryFile => lookup_result(before, nothing, primary_file, legacy_file),
        CredentialSource::LegacyFile => lookup_result(before, nothing, nothing, legacy_file),
    }
}

/// What a step comes to, when the places that were not asked yet answer so.
pub open spec fn step_outlook(
    step: LookupStep,
    primary: AnswerView,
    legacy: AnswerView,
    primary_file: AnswerView,
    legacy_file: AnswerView,
) -> AnswerView {
    match step {
        LookupStep::Next(lookup) => outlook(lookup, primary, legacy, primary_file, legacy_file),
        LookupStep::Done(result) => result_view(result),
    }
}

/// The answer of the place that is asked next.
pub open spec fn asked(
    source: CredentialSource,
    primary: AnswerView,
    legacy: AnswerView,
    primary_file: AnswerView,
    legacy_file: AnswerView,
) -> AnswerView {
    match source {
        CredentialSource::PrimaryEntry => primary,
        CredentialSource::LegacyEntry => legacy,
        CredentialSource::PrimaryFile => primary_file,
        CredentialSource::LegacyFile => legacy_file,
    }
}

/// How many places can still be asked.
pub open spec fn places_left(source: CredentialSource) -> nat {
    match source {
        CredentialSource::PrimaryEntry => 4,
        CredentialSource::LegacyEntry => 3,
        CredentialSource::PrimaryFile => 2,
        CredentialSource::LegacyFile => 1,
    }
}

impl CredentialLookup {
    /// A search that has not asked yet.
    pub fn new() -> (out: CredentialLookup)
        ensures
            out.source == CredentialSource::PrimaryEntry,
            out.fault is None,
            forall|a: AnswerView, b: AnswerView, c: AnswerView, d: AnswerView| #[trigger]
                outlook(out, a, b, c, d) == lookup_result(a, b, c, d),
    {
        CredentialLookup { source: CredentialSource::PrimaryEntry, fault: None }
    }

    /// What follows the answer of the place that was asked: whatever the other places would answer,
    /// the search comes to the same.
    pub fn answer(self, answer: Result<Option<String>, TickError>) -> (out: LookupStep)
        ensures
            forall|a: AnswerView, b: AnswerView, c: AnswerView, d: AnswerView|
                asked(self.source, a, b, c, d) == answer_view(answer) ==> #[trigger] step_outlook(
                    out,
                    a,
                    b,
                    c,
                    d,
                ) == outlook(self, a, b, c, d),
            out matches LookupStep::Next(next) ==> places_left(next.source) < places_left(
                self.source,
            ),
            out matches LookupStep::Done(result) ==> (answer_view(answer) matches Ok(Some(key)))
                || self.source == CredentialSource::LegacyFile || (answer is Err && self.source
                == CredentialSource::PrimaryFile),
    {
        let CredentialLookup { source, fault } = self;
        let answer = match answer {
            Ok(key) => {
                let key = read_key(key);
                if key.is_some() {
                    return LookupStep::Done(Ok(key));
                }
                None
            },
            Err(error) => Some(error),
        };
        match source {
            CredentialSource::PrimaryEntry => LookupStep::Next(
                CredentialLookup { source: CredentialSource::LegacyEntry, fault: answer },
            ),
            CredentialSource::LegacyEntry => LookupStep::Next(
                CredentialLookup {
                    source: CredentialSource::PrimaryFile,
                    fault: if fault.is_some() {
                        fault
                    } else {
                        answer
                    },
                },
            ),
            CredentialSource::PrimaryFile => match answer {
                Some(error) => LookupStep::Done(Err(error)),
                None => LookupStep::Next(
                    CredentialLookup { source: CredentialSource::LegacyFile, fault },
                ),
            },
            CredentialSource::LegacyFile => match answer {
                Some(error) => LookupStep::Done(Err(error)),
                None => match fault {
                    Some(error) => LookupStep::Done(Err(error)),
                    None => LookupStep::Done(Ok(None)),
                },
            },
        }
    }
}

// ---------------------------------------------------------------------------
// Keeping the key
// ---------------------------------------------------------------------------

/// What is wrong with the system's store, if anything: the key could not be put there, or what is read
/// back is another.
pub fn keychain_problem(stored: bool, read_back: &Option<String>, key: &str) -> (out: Option<
    &'static str,
>)
    ensures
        !stored ==> (out matches Some(message) && message@
            == "failed to store Polaris API key in OS credential store"@),
        stored && opt_text(*read_back) != Some(key@) ==> (out matches Some(message) && message@
            == "stored Polaris API key could not be read back from OS credential store"@),
        stored && opt_text(*read_back) == Some(key@) ==> out is None,
{
    if !stored {
        return Some("failed to store Polaris API key in OS credential store");
    }
    let same = match read_back {
        Some(text) => same_text(text.as_str(), key),
        None => false,
    };
    if same {
        None
    } else {
        Some("stored Polaris API key could not be read back from OS credential store")
    }
}

/// What came of writing the key to a file: the second file is tried where the first could not be
/// written, and one of them is enough.
pub fn fallback_result(primary: Result<(), TickError>, legacy: Option<Result<(), TickError>>) -> (out:
    Result<(), TickError>)
    requires
        primary is Err ==> legacy is Some,
    ensures
        out is Ok <==> primary is Ok || legacy->0 is Ok,
        out is Err ==> failure(out) == Some(
            ErrorView::Other(
                "failed to persist Polaris API key in fallback file stores: "@
                    + primary->Err_0@.text() + "; "@ + legacy->0->Err_0@.text(),
            ),
        ),
{
    match primary {
        Ok(()) => Ok(()),
        Err(first) => match legacy {
            Some(Err(second)) => {
                let a = first.text();
                let b = second.text();
                Err(
                    TickError::Other(
                        concat4(
                            "failed to persist Polaris API key in fallback file stores: ",
                            a.as_str(),
                            "; ",
                            b.as_str(),
                        ),
                    ),
                )
            },
            _ => Ok(()),
        },
    }
}

/// A key is looked for in order: in the credential store of the system, under the tool's name and then
/// under its old name, and then in the file of each. The first that has one gives it. A store that
/// cannot be read does not stop the search, a file that cannot be read does.
pub proof fn lemma_places_are_asked_in_order(
    primary: AnswerView,
    legacy: AnswerView,
    primary_file: AnswerView,
    legacy_file: AnswerView,
    key: Seq<char>,
)
    ensures
        ({
            let found = lookup_result(primary, legacy, primary_file, legacy_file);
            let here: AnswerView = Ok(Some(key));
            let in_primary = primary is Ok && primary->Ok_0 is Some;
            let in_legacy = legacy is Ok && legacy->Ok_0 is Some;
            let in_file = primary_file is Ok && primary_file->Ok_0 is Some;
            let in_old_file = legacy_file is Ok && legacy_file->Ok_0 is Some;
            &&& primary == here ==> found == here
            &&& !in_primary && legacy == here ==> found == here
            &&& !in_primary && !in_legacy && primary_file == here ==> found == here
            &&& !in_primary && !in_legacy && primary_file == Ok::<Option<Seq<char>>, ErrorView>(None)
                && legacy_file == here ==> found == here
            &&& !in_primary && !in_legacy && primary_file is Err ==> found == primary_file
            &&& !in_primary && !in_legacy && !in_file && !in_old_file ==> !(found is Ok
                && found->Ok_0 is Some)
            &&& !in_primary && !in_legacy && primary_file == Ok::<Option<Seq<char>>, ErrorView>(None)
                && legacy_file == Ok::<Option<Seq<char>>, ErrorView>(None) ==> {
                &&& found is Err <==> primary is Err || legacy is Err
                &&& primary is Err ==> found == primary
                &&& primary is Ok && legacy is Err ==> found == legacy
            }
        }),
{
}

/// A key that is kept is what was typed, without white space around it. What is white space alone is
/// no key.
pub proof fn lemma_typed_key(raw: &str, out: Result<String, TickError>) -> (at: int)
    requires
        call_ensures(checked_key, (raw,), out),
    ensures
        out is Err <==> forall|i: int| 0 <= i < raw@.len() ==> white(#[trigger] raw@[i]),
        out matches Ok(key) ==> {
            &&& 0 <= at && at + key@.len() <= raw@.len()
            &&& raw@.subrange(at, at + key@.len()) == key@
            &&& key@.len() > 0 && !white(key@[0]) && !white(key@.last())
            &&& forall|i: int|
                0 <= i < at || at + key@.len() <= i < raw@.len() ==> white(#[trigger] raw@[i])
        },
{
    lemma_trim(raw@)
}

/// The store of the system is fine if and only if the key was put there and is read back as it is.
pub proof fn lemma_key_is_read_back(
    stored: bool,
    read_back: Option<String>,
    key: &str,
    out: Option<&'static str>,
)
    requires
        call_ensures(keychain_problem, (stored, &read_back, key), out),
    ensures
        out is None <==> stored && read_back is Some && read_back->0@ == key@,
{
}

/// A key is kept in a file where one of the two files could be written. Where neither could, both
/// reasons are told.
pub proof fn lemma_one_file_is_enough(
    primary: Result<(), TickError>,
    legacy: Option<Result<(), TickError>>,
    out: Result<(), TickError>,
)
    requires
        call_ensures(fallback_result, (primary, legacy), out),
        primary is Err ==> legacy is Some,
    ensures
        primary is Ok ==> out is Ok,
        primary is Err && legacy->0 is Ok ==> out is Ok,
        primary is Err && legacy->0 is Err ==> out is Err,
{
}

} // verus!
