use sum_floats::input_stream::{InputStream, InputStreamError};

#[test]
fn empty_argument_refused() {
    assert!(matches!(InputStream::resolve("", false, false), Err(InputStreamError::Empty)));
    assert!(matches!(InputStream::resolve("", true, true), Err(InputStreamError::Empty)));
}

#[test]
fn dash_is_stdin() {
    assert!(matches!(InputStream::resolve("-", false, false), Ok(InputStream::Stdin)));
    assert!(matches!(InputStream::resolve("-", true, true), Ok(InputStream::Stdin)));
}

#[test]
fn missing_path() {
    match InputStream::resolve("no/such/file", false, false) {
        Err(InputStreamError::DoesNotExist(p)) => assert_eq!(p, "no/such/file"),
        other => panic!("{other:?}"),
    }
}

#[test]
fn directory_is_not_file() {
    match InputStream::resolve("/tmp", true, false) {
        Err(InputStreamError::NotFile(p)) => assert_eq!(p, "/tmp"),
        other => panic!("{other:?}"),
    }
}

#[test]
fn regular_file_accepted() {
    match InputStream::resolve("numbers.txt", true, true) {
        Ok(InputStream::Path(p)) => assert_eq!(p, "numbers.txt"),
        other => panic!("{other:?}"),
    }
}

#[test]
fn default_is_stdin() {
    assert!(matches!(InputStream::default(), InputStream::Stdin));
}

#[test]
fn display_names_source() {
    assert_eq!(InputStream::Stdin.display(), "-");
    assert_eq!(InputStream::Path("a/b.txt".to_string()).display(), "a/b.txt");
}
