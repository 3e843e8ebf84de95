use mit_lint::checks::duplicate_trailers::{lint, ERROR};
use mit_lint::{Code, CommitMessage, Problem};

#[test]
fn commit_without_trailers() {
    test_lint_duplicated_trailers(
        "An example commit

This is an example commit without any duplicate trailers
"
        .into(),
        &None,
    );
}

#[test]
fn two_duplicates() {
    let message = "An example commit

This is an example commit without any duplicate trailers

Signed-off-by: Billie Thompson <email@example.com>
Signed-off-by: Billie Thompson <email@example.com>
Co-authored-by: Billie Thompson <email@example.com>
Co-authored-by: Billie Thompson <email@example.com>
";
    test_lint_duplicated_trailers(
        message.into(),
        &Some(Problem::new(
            ERROR.into(),
            "These are normally added accidentally when you\'re rebasing or amending to a \
                 commit, sometimes in the text editor, but often by git hooks.\n\nYou can fix \
                 this by deleting the duplicated \"Co-authored-by\", \"Signed-off-by\" fields"
                .into(),
            Code::DuplicatedTrailers,
            &CommitMessage::parse(&*message),
            Some(vec![
                (
                    "Duplicated `Co-authored-by`".to_string(),
                    231_usize,
                    51_usize,
                ),
                (
                    "Duplicated `Signed-off-by`".to_string(),
                    128_usize,
                    50_usize,
                ),
            ]),
            Some(
                "https://git-scm.com/docs/githooks#_commit_msg"
                    .parse()
                    .unwrap(),
            ),
        )),
    );
}

#[test]
fn signed_off_by() {
    let message = "An example commit

This is an example commit without any duplicate trailers

Signed-off-by: Billie Thompson <email@example.com>
Signed-off-by: Billie Thompson <email@example.com>
";
    test_lint_duplicated_trailers(
        message.into(),
        &Some(Problem::new(
            ERROR.into(),
            "These are normally added accidentally when you\'re rebasing or amending to a \
                 commit, sometimes in the text editor, but often by git hooks.\n\nYou can fix \
                 this by deleting the duplicated \"Signed-off-by\" field"
                .into(),
            Code::DuplicatedTrailers,
            &CommitMessage::parse(&*message),
            Some(vec![("Duplicated `Signed-off-by`".to_string(), 128, 50)]),
            Some(
                "https://git-scm.com/docs/githooks#_commit_msg"
                    .parse()
                    .unwrap(),
            ),
        )),
    );
}

#[test]
fn co_authored_by() {
    let message = "An example commit

This is an example commit without any duplicate trailers

Co-authored-by: Billie Thompson <email@example.com>
Co-authored-by: Billie Thompson <email@example.com>
";
    test_lint_duplicated_trailers(
        message.into(),
        &Some(Problem::new(
            ERROR.into(),
            "These are normally added accidentally when you\'re rebasing or amending to a \
                 commit, sometimes in the text editor, but often by git hooks.\n\nYou can fix \
                 this by deleting the duplicated \"Co-authored-by\" field"
                .into(),
            Code::DuplicatedTrailers,
            &CommitMessage::parse(&*message),
            Some(vec![("Duplicated `Co-authored-by`".to_string(), 129, 51)]),
            Some("https://git-scm.com/docs/githooks#_commit_msg".to_string()),
        )),
    );
}

#[test]
fn relates_to() {
    let message = "An example commit

This is an example commit without any duplicate trailers

Relates-to: #315
Relates-to: #315
";
    test_lint_duplicated_trailers(
        message.into(),
        &Some(Problem::new(
            ERROR.into(),
            "These are normally added accidentally when you\'re rebasing or amending to a \
                 commit, sometimes in the text editor, but often by git hooks.\n\nYou can fix \
                 this by deleting the duplicated \"Relates-to\" field"
                .into(),
            Code::DuplicatedTrailers,
            &CommitMessage::parse(&*message),
            Some(vec![("Duplicated `Relates-to`".to_string(), 94, 16)]),
            Some("https://git-scm.com/docs/githooks#_commit_msg".to_string()),
        )),
    );
}

#[test]
fn trailer_like_duplicates_in_the_scissors_section() {
    test_lint_duplicated_trailers(
        "Move to specdown
# Bitte geben Sie eine Commit-Beschreibung fur Ihre Anderungen ein. Zeilen,
# die mit '#' beginnen, werden ignoriert, und eine leere Beschreibung

# ------------------------ >8 ------------------------
# Andern oder entfernen Sie nicht die obige Zeile.
# Alles unterhalb von ihr wird ignoriert.
diff --git a/Makefile b/Makefile
index 0d3fc98..38a2784 100644
--- a/Makefile
+++ b/Makefile
+
 This is a commit message that has trailers and is invalid

-Signed-off-by: Someone Else <someone@example.com>
-Signed-off-by: Someone Else <someone@example.com>
 Co-authored-by: Billie Thompson <billie@example.com>
 Co-authored-by: Billie Thompson <billie@example.com>
+Signed-off-by: Someone Else <someone@example.com>
+Signed-off-by: Someone Else <someone@example.com>


 ---
@@ -82,6 +82,7 @@ Co-authored-by: Billie Thompson <billie@example.com>
 Your commit message has duplicated trailers

 You can fix this by deleting the duplicated \"Signed-off-by\", \"Co-authored-by\" \
 fields
+
"
        .into(),
        &None,
    );
}

#[test]
fn other_trailers() {
    test_lint_duplicated_trailers(
        "An example commit

This is an example commit without any duplicate trailers

Anything: Billie Thompson <email@example.com>
Anything: Billie Thompson <email@example.com>
"
        .into(),
        &None,
    );
}

fn test_lint_duplicated_trailers(message: String, expected: &Option<Problem>) {
    let actual = &lint(&CommitMessage::parse(&*message));
    assert_eq!(
        actual, expected,
        "Expected {:?}, found {:?}",
        expected, actual
    );
}
