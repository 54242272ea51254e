//! What a node says about itself when asked whether it is well.
//!
//! Two routes ask nearly the same question and a caller acts on the difference, so both answer
//! with the same type and neither is the other's alias.

use vstd::prelude::*;

use crate::error::Error;
use crate::http::json::{count_at, find_count, find_text, said, text_at};
use crate::text::same_text;

verus! {

/// A node's own report on its condition.
///
/// The node answers with three different field sets, not with one shape carrying absent fields: a
/// well node reports its commit position, an unwell one adds what it is complaining about, and a
/// node that is leaving reports neither. So the shapes are variants and not one struct of options.
#[derive(Debug, Clone, PartialEq, Eq)]
#[non_exhaustive]
pub enum Condition {
    /// The store is well, and this is how far it has committed.
    Well {
        /// The sequence number of the last commit.
        committed: u64,
    },
    /// The store is answering, and is complaining.
    ///
    /// The node still serves in this state; what it is saying is that it should not be relied on.
    Unwell {
        /// The sequence number of the last commit.
        committed: u64,
        /// How many background operations have failed.
        background_errors: u64,
        /// What the store is complaining about, in its own words.
        complaint: String,
    },
    /// The node is shutting down and no longer wants new work.
    ///
    /// It is still serving, so this is an instruction to route elsewhere, not a report that
    /// anything has failed.
    Leaving,
}

/// What a node reports about itself.
#[verifier::ext_equal]
pub enum ConditionView {
    /// The store is well.
    Well {
        /// The last commit.
        committed: u64,
    },
    /// The store is complaining.
    Unwell {
        /// The last commit.
        committed: u64,
        /// How many background operations have failed.
        background_errors: u64,
        /// What it is complaining about.
        complaint: Seq<char>,
    },
    /// The node is shutting down.
    Leaving,
}

impl View for Condition {
    type V = ConditionView;

    open spec fn view(&self) -> ConditionView {
        match self {
            Condition::Well { committed } => ConditionView::Well { committed: *committed },
            Condition::Unwell { committed, background_errors, complaint } =>
                ConditionView::Unwell {
                committed: *committed,
                background_errors: *background_errors,
                complaint: complaint@,
            },
            Condition::Leaving => ConditionView::Leaving,
        }
    }
}

/// The condition that four fields of a report make, where they make one. A status this build does
/// not know makes none, and neither does one without the fields it needs.
pub open spec fn condition_of(
    status: Option<Seq<char>>,
    committed: Option<u64>,
    background_errors: Option<u64>,
    complaint: Option<Seq<char>>,
) -> Option<ConditionView> {
    match status {
        None => None,
        Some(status) => if status == "ok"@ {
            match committed {
                Some(committed) => Some(ConditionView::Well { committed }),
                None => None,
            }
        } else if status == "unwell"@ {
            match (committed, background_errors, complaint) {
                (Some(committed), Some(background_errors), Some(complaint)) => Some(
                    ConditionView::Unwell { committed, background_errors, complaint },
                ),
                _ => None,
            }
        } else if status == "leaving"@ {
            Some(ConditionView::Leaving)
        } else {
            None
        },
    }
}

/// The condition that a body reports, where it reports one.
pub open spec fn condition_in(body: Seq<u8>) -> Option<ConditionView> {
    condition_of(
        text_at(body, "status"@),
        count_at(body, "committed"@),
        count_at(body, "background_errors"@),
        text_at(body, "complaint"@),
    )
}

impl Condition {
    /// The condition that the four fields of a report make.
    ///
    /// A status this build does not know is [`Error::Malformed`] rather than a guess: a client
    /// that treats an unfamiliar state as one it recognises reports a healthy node during whatever
    /// the new state was invented to describe. A field that is absent and one that is not of its
    /// type are the same failure, because a caller has no way to act on the difference.
    pub fn from_fields(
        status: Option<String>,
        committed: Option<u64>,
        background_errors: Option<u64>,
        complaint: Option<String>,
    ) -> (made: Result<Self, Error>)
        ensures
            match made {
                Ok(condition) => condition_of(
                    said(status),
                    committed,
                    background_errors,
                    said(complaint),
                ) == Some(condition@),
                Err(error) => error == Error::Malformed && condition_of(
                    said(status),
                    committed,
                    background_errors,
                    said(complaint),
                ) is None,
            },
    {
        let status = match status {
            Some(status) => status,
            None => return Err(Error::Malformed),
        };
        proof {
            reveal_strlit("ok");
            reveal_strlit("unwell");
            reveal_strlit("leaving");
        }
        if same_text(status.as_str(), "ok") {
            match committed {
                Some(committed) => Ok(Condition::Well { committed }),
                None => Err(Error::Malformed),
            }
        } else if same_text(status.as_str(), "unwell") {
            match (committed, background_errors, complaint) {
                (Some(committed), Some(background_errors), Some(complaint)) => Ok(
                    Condition::Unwell { committed, background_errors, complaint },
                ),
                _ => Err(Error::Malformed),
            }
        } else if same_text(status.as_str(), "leaving") {
            Ok(Condition::Leaving)
        } else {
            Err(Error::Malformed)
        }
    }

    /// Read one of the three shapes, or refuse.
    pub fn read(body: &[u8]) -> (read: Result<Self, Error>)
        ensures
            match read {
                Ok(condition) => condition_in(body@) == Some(condition@),
                Err(error) => error == Error::Malformed && condition_in(body@) is None,
            },
    {
        Condition::from_fields(
            find_text(body, "status"),
            find_count(body, "committed"),
            find_count(body, "background_errors"),
            find_text(body, "complaint"),
        )
    }
}

/// A node is well where it says `ok` and how far it has committed, unwell where it says `unwell`
/// with the commit, the count of errors and the complaint, and leaving where it says `leaving`,
/// whatever else it says. It is in no other condition, and each is told with what was said.
pub proof fn law_conditions_are_what_was_said(
    status: Option<Seq<char>>,
    committed: Option<u64>,
    background_errors: Option<u64>,
    complaint: Option<Seq<char>>,
    commit: u64,
    errors: u64,
    words: Seq<char>,
)
    ensures
        condition_of(status, committed, background_errors, complaint) == Some(
            ConditionView::Well { committed: commit },
        ) <==> status == Some("ok"@) && committed == Some(commit),
        condition_of(status, committed, background_errors, complaint) == Some(
            ConditionView::Unwell {
                committed: commit,
                background_errors: errors,
                complaint: words,
            },
        ) <==> status == Some("unwell"@) && committed == Some(commit) && background_errors == Some(
            errors,
        ) && complaint == Some(words),
        condition_of(status, committed, background_errors, complaint) == Some(
            ConditionView::Leaving,
        ) <==> status == Some("leaving"@),
{
    reveal_strlit("ok");
    reveal_strlit("unwell");
    reveal_strlit("leaving");
    assert("ok"@.len() == 2 && "unwell"@.len() == 6 && "leaving"@.len() == 7);
}

/// A report is read from the members `status`, `committed`, `background_errors` and `complaint` of
/// its body, and from no other.
pub proof fn law_reports_are_read_by_their_members(body: Seq<u8>, other: Seq<u8>)
    requires
        text_at(body, "status"@) == text_at(other, "status"@),
        count_at(body, "committed"@) == count_at(other, "committed"@),
        text_at(body, "status"@) == Some("unwell"@) ==> count_at(body, "background_errors"@)
            == count_at(other, "background_errors"@) && text_at(body, "complaint"@) == text_at(
            other,
            "complaint"@,
        ),
    ensures
        condition_in(body) == condition_in(other),
        condition_in(body) is Some ==> text_at(body, "status"@) is Some,
        condition_in(body) matches Some(ConditionView::Well { committed }) ==> count_at(
            body,
            "committed"@,
        ) == Some(committed),
        condition_in(body) matches Some(
            ConditionView::Unwell { committed, background_errors, complaint },
        ) ==> count_at(body, "committed"@) == Some(committed) && count_at(
            body,
            "background_errors"@,
        ) == Some(background_errors) && text_at(body, "complaint"@) == Some(complaint),
        text_at(body, "status"@) == Some("ok"@) && count_at(body, "committed"@) is Some
            ==> condition_in(body) is Some,
        text_at(body, "status"@) == Some("leaving"@) ==> condition_in(body) == Some(
            ConditionView::Leaving,
        ),
        text_at(body, "status"@) == Some("unwell"@) && count_at(body, "committed"@) is Some
            && count_at(body, "background_errors"@) is Some && text_at(body, "complaint"@) is Some
            ==> condition_in(body) is Some,
{
    reveal_strlit("ok");
    reveal_strlit("unwell");
    reveal_strlit("leaving");
    assert("ok"@.len() == 2 && "unwell"@.len() == 6 && "leaving"@.len() == 7);
}

/// A condition is seen as it is.
pub proof fn law_conditions_are_seen_as_they_are(condition: Condition)
    ensures
        match condition {
            Condition::Well { committed } => condition@ == (ConditionView::Well { committed }),
            Condition::Unwell { committed, background_errors, complaint } => condition@ == (
            ConditionView::Unwell { committed, background_errors, complaint: complaint@ }),
            Condition::Leaving => condition@ == ConditionView::Leaving,
        },
{
}

}
