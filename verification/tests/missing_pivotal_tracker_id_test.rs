use mit_lint::checks::missing_pivotal_tracker_id::{lint, ERROR, HELP_MESSAGE};
use mit_lint::{Code, CommitMessage, Problem};

#[test]
fn with_id() {
    test_has_missing_pivotal_tracker_id(
        "An example commit

This is an example commit

[#12345678]
# Some comment
",
        &None,
    );
}

fn test_has_missing_pivotal_tracker_id(message: &str, expected: &Option<Problem>) {
    let actual = &lint(&CommitMessage::parse(&*message));
    assert_eq!(
        actual, expected,
        "Message {message:?} should have returned {expected:?}, found {actual:?}"
    );
}

#[test]
fn multiple_ids() {
    test_has_missing_pivotal_tracker_id(
        "An example commit

This is an example commit

[#12345678,#87654321]
# some comment
",
        &None,
    );
    test_has_missing_pivotal_tracker_id(
        "An example commit

This is an example commit

[#12345678,#87654321,#11223344]
# some comment
",
        &None,
    );
    test_has_missing_pivotal_tracker_id(
        "An example commit

This is an example commit

[#12345678 #87654321 #11223344]
# some comment
",
        &None,
    );
}

#[test]
fn id_with_fixed_state_change() {
    test_has_missing_pivotal_tracker_id(
        "An example commit

This is an example commit

[fix #12345678]
# some comment
",
        &None,
    );
    test_has_missing_pivotal_tracker_id(
        "An example commit

This is an example commit

[FIX #12345678]
# some comment
",
        &None,
    );
    test_has_missing_pivotal_tracker_id(
        "An example commit

This is an example commit

[Fix #12345678]
# some comment
",
        &None,
    );
    test_has_missing_pivotal_tracker_id(
        "An example commit

This is an example commit

[fixed #12345678]
# some comment
",
        &None,
    );
    test_has_missing_pivotal_tracker_id(
        "An example commit

This is an example commit

[fixes #12345678]
# some comment
",
        &None,
    );
}

#[test]
fn id_with_complete_state_change() {
    test_has_missing_pivotal_tracker_id(
        "An example commit

This is an example commit

[complete #12345678]
# some comment
",
        &None,
    );

    test_has_missing_pivotal_tracker_id(
        "An example commit

This is an example commit

[completed #12345678]
# some comment
",
        &None,
    );

    test_has_missing_pivotal_tracker_id(
        "An example commit

This is an example commit

[Completed #12345678]
# some comment
",
        &None,
    );

    test_has_missing_pivotal_tracker_id(
        "An example commit

This is an example commit

[completes #12345678]
# some comment
",
        &None,
    );
}

#[test]
fn id_with_finished_state_change() {
    test_has_missing_pivotal_tracker_id(
        "An example commit

This is an example commit

[finish #12345678]
# some comment
",
        &None,
    );

    test_has_missing_pivotal_tracker_id(
        "An example commit

This is an example commit

[finished #12345678]
# some comment
",
        &None,
    );
    test_has_missing_pivotal_tracker_id(
        "An example commit

This is an example commit

[finishes #12345678]
# some comment
",
        &None,
    );
}

#[test]
fn id_with_delivered_state_change() {
    test_has_missing_pivotal_tracker_id(
        "An example commit

This is an example commit

[deliver #12345678]
# some comment
",
        &None,
    );

    test_has_missing_pivotal_tracker_id(
        "An example commit

This is an example commit

[delivered #12345678]
# some comment
",
        &None,
    );
    test_has_missing_pivotal_tracker_id(
        "An example commit

This is an example commit

[delivers #12345678]
# some comment
",
        &None,
    );
}

#[test]
fn id_with_state_change_and_multiple_ids() {
    test_has_missing_pivotal_tracker_id(
        "An example commit

This is an example commit

[fix #12345678 #12345678]
# some comment
",
        &None,
    );
}

#[test]
fn id_with_prefixed_text() {
    test_has_missing_pivotal_tracker_id(
        "An example commit

This is an example commit

Finally [fix #12345678 #12345678]
",
        &None,
    );
}

#[test]
fn invalid_state_change() {
    let message = "An example commit

This is an example commit

[fake #12345678]
# some comment
";
    test_has_missing_pivotal_tracker_id(
        message,
        &Some(Problem::new(
            ERROR.into(),
            HELP_MESSAGE.into(),
            Code::PivotalTrackerIdMissing,
            &CommitMessage::parse(&*message),
            Some(vec![("No Pivotal Tracker ID".to_string(), 63, 14)]),
            Some("https://www.pivotaltracker.com/help/api?version=v5#Tracker_Updates_in_SCM_Post_Commit_Hooks".parse().unwrap()),
        )),
    );
}

#[test]
fn missing_id_with_square_brackets() {
    let message_1 = "An example commit

This is an example commit
";
    test_has_missing_pivotal_tracker_id(
        message_1,
        &Some(Problem::new(
            ERROR.into(),
            HELP_MESSAGE.into(),
            Code::PivotalTrackerIdMissing,
            &CommitMessage::parse(&*message_1),
            Some(vec![("No Pivotal Tracker ID".to_string(), 19, 25)]),
            Some("https://www.pivotaltracker.com/help/api?version=v5#Tracker_Updates_in_SCM_Post_Commit_Hooks".parse().unwrap()),
        )),
    );

    let message_2 = "An example commit

This is an example commit

[#]
# some comment
";
    test_has_missing_pivotal_tracker_id(
        message_2,
        &Some(Problem::new(
            ERROR.into(),
            HELP_MESSAGE.into(),
            Code::PivotalTrackerIdMissing,
            &CommitMessage::parse(&*message_2),
            Some(vec![("No Pivotal Tracker ID".to_string(), 50, 14)]),
            Some("https://www.pivotaltracker.com/help/api?version=v5#Tracker_Updates_in_SCM_Post_Commit_Hooks".parse().unwrap()),
        )),
    );
}
