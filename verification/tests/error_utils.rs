use textutils::errors::{IoErrorKind, ProgramError, ProgramErrorParams};

fn kind_of(err: &std::io::Error) -> IoErrorKind {
    match err.kind() {
        std::io::ErrorKind::NotFound => IoErrorKind::NotFound,
        std::io::ErrorKind::PermissionDenied => IoErrorKind::PermissionDenied,
        _ => IoErrorKind::Other,
    }
}

#[test]
fn translate_not_found_error() {
    let err = std::io::Error::new(std::io::ErrorKind::NotFound, "file not found");
    let params = ProgramErrorParams::new()
        .pathname("blargh")
        .program("findr")
        .build()
        .unwrap();

    let actual = ProgramError::from_io(kind_of(&err), &err.to_string(), params);
    assert_eq!(
        actual.message(),
        "findr: blargh: File or directory not found"
    );
}

#[test]
fn translate_permission_error() {
    let err = std::io::Error::new(std::io::ErrorKind::PermissionDenied, "you can't access this");
    let params = ProgramErrorParams::new()
        .pathname("blargh")
        .program("findr")
        .build()
        .unwrap();

    let actual = ProgramError::from_io(kind_of(&err), &err.to_string(), params);
    assert_eq!(actual.message(), "findr: blargh: Permission denied");
}

#[test]
fn translate_non_io_error() {
    let err = "a12".parse::<i32>().err().unwrap();
    let params = ProgramErrorParams::new()
        .pathname("blargh")
        .program("findr")
        .build()
        .unwrap();

    let actual = ProgramError::from_any(None, &err.to_string(), params);
    assert_eq!(
        actual.message(),
        "findr: blargh: invalid digit found in string"
    );
}

#[test]
fn build_requires_both_names() {
    let missing = ProgramErrorParams::new().pathname("blargh").build();
    assert_eq!(
        missing.err().unwrap(),
        "Both prg_name and pathname are required!"
    );
}

#[test]
fn other_errors_keep_their_reason() {
    let params = ProgramErrorParams::new()
        .pathname("somewhere")
        .program("headr")
        .build()
        .unwrap();
    let actual = ProgramError::from_io(IoErrorKind::Other, "strange failure", params);
    assert_eq!(actual.message(), "headr: somewhere: strange failure");
}
