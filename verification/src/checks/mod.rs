//! The checks behind each lint.
pub mod duplicate_trailers;
pub mod missing_github_id;
pub mod missing_jira_issue_key;
pub mod missing_pivotal_tracker_id;
pub mod not_conventional_commit;
pub mod subject_line_ends_with_period;
pub mod subject_longer_than_72_characters;
pub mod subject_not_capitalized;
pub mod not_emoji_log;
pub mod subject_not_separate_from_body;
pub mod body_wider_than_72_characters;
