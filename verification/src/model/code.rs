//! Error codes for lints that have failed.
use vstd::prelude::*;

verus! {

/// Error codes for lints that have failed
///
/// Useful for exit codes and other user facing things: [`Code::number`]
/// gives each code its number, from 3 for the first in declaration order.
#[derive(Clone, Copy, Debug, PartialEq, Eq, Structural)]
pub enum Code {
    /// Unique ID for `InitialNotMatchedToAuthor` failure
    InitialNotMatchedToAuthor,
    /// Unique ID for `UnparsableAuthorFile` failure
    UnparsableAuthorFile,
    /// Unique ID for `StaleAuthor` failure
    StaleAuthor,
    /// Unique ID for `DuplicatedTrailers` failure
    DuplicatedTrailers,
    /// Unique ID for `PivotalTrackerIdMissing` failure
    PivotalTrackerIdMissing,
    /// Unique ID for `JiraIssueKeyMissing` failure
    JiraIssueKeyMissing,
    /// Unique ID for `GitHubIdMissing` failure
    GitHubIdMissing,
    /// Unique ID for `SubjectNotSeparateFromBody` failure
    SubjectNotSeparateFromBody,
    /// Unique ID for `SubjectLongerThan72Characters` failure
    SubjectLongerThan72Characters,
    /// Unique ID for `SubjectNotCapitalized` failure
    SubjectNotCapitalized,
    /// Unique ID for `SubjectEndsWithPeriod` failure
    SubjectEndsWithPeriod,
    /// Unique ID for `BodyWiderThan72Characters` failure
    BodyWiderThan72Characters,
    /// Unique ID for `NotConventionalCommit` failure
    NotConventionalCommit,
    /// Unique ID for `NotEmojiLog` failure
    NotEmojiLog,
}

/// Every code, in declaration order.
pub open spec fn all_codes() -> Seq<Code> {
    seq![
        Code::InitialNotMatchedToAuthor,
        Code::UnparsableAuthorFile,
        Code::StaleAuthor,
        Code::DuplicatedTrailers,
        Code::PivotalTrackerIdMissing,
        Code::JiraIssueKeyMissing,
        Code::GitHubIdMissing,
        Code::SubjectNotSeparateFromBody,
        Code::SubjectLongerThan72Characters,
        Code::SubjectNotCapitalized,
        Code::SubjectEndsWithPeriod,
        Code::BodyWiderThan72Characters,
        Code::NotConventionalCommit,
        Code::NotEmojiLog,
    ]
}

/// The number of a code: codes are numbered from 3 in declaration order.
pub open spec fn code_number(code: Code) -> i32 {
    match code {
        Code::InitialNotMatchedToAuthor => 3,
        Code::UnparsableAuthorFile => 4,
        Code::StaleAuthor => 5,
        Code::DuplicatedTrailers => 6,
        Code::PivotalTrackerIdMissing => 7,
        Code::JiraIssueKeyMissing => 8,
        Code::GitHubIdMissing => 9,
        Code::SubjectNotSeparateFromBody => 10,
        Code::SubjectLongerThan72Characters => 11,
        Code::SubjectNotCapitalized => 12,
        Code::SubjectEndsWithPeriod => 13,
        Code::BodyWiderThan72Characters => 14,
        Code::NotConventionalCommit => 15,
        Code::NotEmojiLog => 16,
    }
}

impl Code {
    /// Every code, in declaration order.
    pub fn get_codes() -> (codes: Vec<Code>)
        ensures
            codes@ == all_codes(),
    {
        let codes = vec![
            Code::InitialNotMatchedToAuthor,
            Code::UnparsableAuthorFile,
            Code::StaleAuthor,
            Code::DuplicatedTrailers,
            Code::PivotalTrackerIdMissing,
            Code::JiraIssueKeyMissing,
            Code::GitHubIdMissing,
            Code::SubjectNotSeparateFromBody,
            Code::SubjectLongerThan72Characters,
            Code::SubjectNotCapitalized,
            Code::SubjectEndsWithPeriod,
            Code::BodyWiderThan72Characters,
            Code::NotConventionalCommit,
            Code::NotEmojiLog,
            ];
        assert(codes@ =~= all_codes());
        codes
    }

    /// The number of this code, suitable as a process exit code.
    pub fn number(self) -> (n: i32)
        ensures
            n == code_number(self),
    {
        match self {
            Code::InitialNotMatchedToAuthor => 3,
            Code::UnparsableAuthorFile => 4,
            Code::StaleAuthor => 5,
            Code::DuplicatedTrailers => 6,
            Code::PivotalTrackerIdMissing => 7,
            Code::JiraIssueKeyMissing => 8,
            Code::GitHubIdMissing => 9,
            Code::SubjectNotSeparateFromBody => 10,
            Code::SubjectLongerThan72Characters => 11,
            Code::SubjectNotCapitalized => 12,
            Code::SubjectEndsWithPeriod => 13,
            Code::BodyWiderThan72Characters => 14,
            Code::NotConventionalCommit => 15,
            Code::NotEmojiLog => 16,
            }
    }
}

/// Every code is listed exactly once, and codes have distinct numbers.
pub proof fn lemma_codes_listed_once(code: Code)
    ensures
        all_codes().contains(code),
        forall|i: int, j: int|
            0 <= i < j < all_codes().len() ==> #[trigger] all_codes()[i] != #[trigger] all_codes()[j],
        forall|other: Code| code_number(other) == code_number(code) ==> other == code,
{
    let codes = all_codes();
    match code {
        Code::InitialNotMatchedToAuthor => assert(codes[0] == code),
        Code::UnparsableAuthorFile => assert(codes[1] == code),
        Code::StaleAuthor => assert(codes[2] == code),
        Code::DuplicatedTrailers => assert(codes[3] == code),
        Code::PivotalTrackerIdMissing => assert(codes[4] == code),
        Code::JiraIssueKeyMissing => assert(codes[5] == code),
        Code::GitHubIdMissing => assert(codes[6] == code),
        Code::SubjectNotSeparateFromBody => assert(codes[7] == code),
        Code::SubjectLongerThan72Characters => assert(codes[8] == code),
        Code::SubjectNotCapitalized => assert(codes[9] == code),
        Code::SubjectEndsWithPeriod => assert(codes[10] == code),
        Code::BodyWiderThan72Characters => assert(codes[11] == code),
        Code::NotConventionalCommit => assert(codes[12] == code),
        Code::NotEmojiLog => assert(codes[13] == code),
    }
}

} // verus!
