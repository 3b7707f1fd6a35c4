use watame::database::enums::{Perms, PostSorting, Rating};
use watame::error::APIError;

#[test]
fn every_error_has_its_status() {
    assert_eq!(APIError::InternalError.status_code(), 500);
    assert_eq!(APIError::BadRequestData.status_code(), 400);
    assert_eq!(APIError::Timeout.status_code(), 504);
    assert_eq!(APIError::Auth.status_code(), 401);
    assert_eq!(APIError::PayloadSize.status_code(), 413);
    assert_eq!(APIError::MimeType.status_code(), 415);
    assert_eq!(APIError::TagLimit.status_code(), 400);
    assert_eq!(APIError::BadTags.status_code(), 400);
    assert_eq!(APIError::PageSize.status_code(), 400);
    assert_eq!(APIError::UserExists.status_code(), 400);
    assert_eq!(APIError::BadPassword.status_code(), 400);
    assert_eq!(APIError::BadCredentials.status_code(), 400);
}

#[test]
fn every_error_has_its_message() {
    assert_eq!(APIError::InternalError.message(), r#"{"error":"internal server error"}"#);
    assert_eq!(APIError::BadRequestData.message(), r#"{"error":"bad request"}"#);
    assert_eq!(APIError::Timeout.message(), r#"{"error":"timeout"}"#);
    assert_eq!(APIError::Auth.message(), r#"{"error":"unauthorised"}"#);
    assert_eq!(APIError::PayloadSize.message(), r#"{"error":"payload to large"}"#);
    assert_eq!(APIError::MimeType.message(), r#"{"error":"unsupported mime type"}"#);
    assert_eq!(
        APIError::TagLimit.message(),
        r#"{"error":"too many tags, please reduce amount"}"#
    );
    assert_eq!(
        APIError::BadTags.message(),
        r#"{"error":"one or more tags contained invalid characters"}"#
    );
    assert_eq!(
        APIError::PageSize.message(),
        r#"{"error":"too many items per page, please reduce amount"}"#
    );
    assert_eq!(
        APIError::UserExists.message(),
        r#"{"error":"account details have already been used"}"#
    );
    assert_eq!(APIError::BadPassword.message(), r#"{"error":"password is too weak"}"#);
    assert_eq!(
        APIError::BadCredentials.message(),
        r#"{"error":"password or username where not correct"}"#
    );
}

#[test]
fn the_default_rating_is_sketchy() {
    assert_eq!(Rating::default(), Rating::Sketchy);
}

#[test]
fn staff_are_moderators_and_administrators() {
    assert!(!Perms::Guest.staff());
    assert!(!Perms::User.staff());
    assert!(Perms::Moderator.staff());
    assert!(Perms::Admin.staff());
}

#[test]
fn every_order_ends_on_the_identifier() {
    assert_eq!(PostSorting::DateAscending.to_sql(), "ORDER BY create_date ASC, id ASC");
    assert_eq!(PostSorting::DateDescending.to_sql(), "ORDER BY create_date DESC, id DESC");
    assert_eq!(PostSorting::VoteAscending.to_sql(), "ORDER BY score ASC, id ASC");
    assert_eq!(PostSorting::VoteDescending.to_sql(), "ORDER BY score DESC, id DESC");
}
