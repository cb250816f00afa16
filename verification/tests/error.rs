use hanzi_sort::{HanziSortError, PinyinSortError};

#[test]
fn messages_of_argument_and_override_errors_are_the_message() {
    let argument = HanziSortError::InvalidArgument("bad option".to_string());
    assert_eq!(argument.to_string(), "bad option");
    let table = PinyinSortError::InvalidOverride("bad table".to_string());
    assert_eq!(table.to_string(), "bad table");
}

#[test]
fn io_errors_lead_with_their_context() {
    let source = std::io::Error::new(std::io::ErrorKind::NotFound, "no such file");
    let error = PinyinSortError::io("failed to read stdin".to_string(), source);
    assert_eq!(error.to_string(), "failed to read stdin: no such file");
}
