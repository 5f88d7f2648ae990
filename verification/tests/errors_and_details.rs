use rental_api::errors::{affected_or_not_found, from_db_failure, lookup_failure, not_found, not_found_message, AppError, DbFailure};
use rental_api::validation::{details_of, validation_error, FieldIssues, FieldReport, IndexedReport, ValidationReport};

#[test]
fn status_codes_follow_the_error_kind() {
    assert_eq!(AppError::NotFound("x".to_string()).status_code(), 404);
    assert_eq!(AppError::Conflict("x".to_string()).status_code(), 409);
    assert_eq!(AppError::UnprocessableEntity("x".to_string()).status_code(), 422);
    assert_eq!(AppError::ValidationError(vec![]).status_code(), 400);
    assert_eq!(AppError::Internal("x".to_string()).status_code(), 500);
}

#[test]
fn messages_follow_the_error_kind() {
    assert_eq!(AppError::NotFound("house 3 not found".to_string()).message(), "not found: house 3 not found");
    assert_eq!(AppError::Conflict("dup".to_string()).message(), "conflict: dup");
    assert_eq!(AppError::UnprocessableEntity("bad".to_string()).message(), "bad");
    assert_eq!(AppError::ValidationError(vec!["a: b".to_string()]).message(), "validation failed");
    assert_eq!(AppError::Internal("secret".to_string()).message(), "internal server error");
}

#[test]
fn response_body_hides_internal_text_and_lists_details() {
    let b = AppError::Internal("connection refused".to_string()).response_body();
    assert_eq!(b.error, "internal server error");
    assert!(b.details.is_none());
    let b = AppError::ValidationError(vec!["name: length".to_string()]).response_body();
    assert_eq!(b.error, "validation failed");
    assert_eq!(b.details, Some(vec!["name: length".to_string()]));
    let b = AppError::Conflict("dup".to_string()).response_body();
    assert_eq!(b.error, "conflict: dup");
    assert!(b.details.is_none());
}

#[test]
fn validation_details_are_empty_for_other_errors() {
    let d = AppError::ValidationError(vec!["a: b".to_string(), "c: d".to_string()]).validation_details();
    assert_eq!(d, vec!["a: b".to_string(), "c: d".to_string()]);
    assert!(AppError::NotFound("x".to_string()).validation_details().is_empty());
    assert!(AppError::Internal("x".to_string()).validation_details().is_empty());
}

#[test]
fn database_failures_map_to_errors() {
    assert!(matches!(from_db_failure(DbFailure::RowNotFound), AppError::NotFound(m) if m == "resource not found"));
    let unique = DbFailure::Database { code: Some("23505".to_string()), message: "duplicate key".to_string(), text: "t".to_string() };
    assert!(matches!(from_db_failure(unique), AppError::Conflict(m) if m == "duplicate key"));
    let fk = DbFailure::Database { code: Some("23503".to_string()), message: "missing parent".to_string(), text: "t".to_string() };
    assert!(matches!(from_db_failure(fk), AppError::Conflict(m) if m == "missing parent"));
    let other = DbFailure::Database { code: Some("22001".to_string()), message: "too long".to_string(), text: "error returned from database: too long".to_string() };
    assert!(matches!(from_db_failure(other), AppError::Internal(m) if m == "error returned from database: too long"));
    let none = DbFailure::Database { code: None, message: "m".to_string(), text: "t".to_string() };
    assert!(matches!(from_db_failure(none), AppError::Internal(_)));
    assert!(matches!(from_db_failure(DbFailure::Other("pool timed out".to_string())), AppError::Internal(m) if m == "pool timed out"));
}

#[test]
fn lookups_name_the_missing_entity() {
    assert_eq!(not_found_message("booking", 42), "booking 42 not found");
    assert_eq!(not_found_message("house", -7), "house -7 not found");
    assert!(matches!(not_found("person", 0), AppError::NotFound(m) if m == "person 0 not found"));
    assert!(matches!(lookup_failure(DbFailure::RowNotFound, "booking", 5), AppError::NotFound(m) if m == "booking 5 not found"));
    assert!(matches!(lookup_failure(DbFailure::Other("x".to_string()), "booking", 5), AppError::Internal(_)));
}

fn field(name: &str, codes: &[&str]) -> FieldReport {
    FieldReport { field: name.to_string(), issues: FieldIssues::Field(codes.iter().map(|c| c.to_string()).collect()) }
}

#[test]
fn validation_details_name_field_and_code() {
    let r = ValidationReport { fields: vec![field("name", &["length"]), field("email", &["email", "length"])] };
    assert_eq!(details_of(&r), vec!["name: length".to_string(), "email: email".to_string(), "email: length".to_string()]);
}

#[test]
fn nested_and_listed_details_are_prefixed() {
    let inner = ValidationReport { fields: vec![field("city", &["length"])] };
    let item = ValidationReport { fields: vec![field("x", &["range"])] };
    let r = ValidationReport {
        fields: vec![
            FieldReport { field: "address".to_string(), issues: FieldIssues::Struct(Box::new(inner)) },
            FieldReport {
                field: "items".to_string(),
                issues: FieldIssues::List(vec![IndexedReport { index: 2, report: Box::new(item) }]),
            },
        ],
    };
    let e = validation_error(&r);
    match e {
        AppError::ValidationError(d) => {
            assert_eq!(d, vec!["address.city: length".to_string(), "items[2].x: range".to_string()])
        }
        other => panic!("unexpected {other:?}"),
    }
}

#[test]
fn touching_no_row_is_not_found() {
    assert!(matches!(affected_or_not_found(0, "country", 12), Err(AppError::NotFound(m)) if m == "country 12 not found"));
    assert!(affected_or_not_found(1, "country", 12).is_ok());
}
