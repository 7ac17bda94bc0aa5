use bluebrick_bindings_generator::error::{BindingError, Error, ParseError, ValidateError};
use bluebrick_bindings_generator::log::{Logger as Sink, Severity};
use bluebrick_bindings_generator::logger::{LogEntry, Logger, LoggerError};
use bluebrick_bindings_generator::number::{Number, NumberFault};
use bluebrick_bindings_generator::rect::CharRect;
use bluebrick_bindings_generator::text::{decimal_text, glue3, glue5, text_is};

#[test]
fn decimal_text_writes_numbers() {
    assert_eq!(decimal_text(0), "0");
    assert_eq!(decimal_text(7), "7");
    assert_eq!(decimal_text(10), "10");
    assert_eq!(decimal_text(1234567890), "1234567890");
    assert_eq!(decimal_text(usize::MAX), usize::MAX.to_string());
    for n in 0..1200usize {
        assert_eq!(decimal_text(n), n.to_string());
    }
}

#[test]
fn glue_puts_texts_together() {
    assert_eq!(glue3("a", "", "c"), "ac");
    assert_eq!(glue3("one ", "two", " three"), "one two three");
    assert_eq!(glue5("1", "2", "3", "4", "5"), "12345");
}

#[test]
fn text_is_compares_texts() {
    assert!(text_is(&"mod".to_string(), "mod"));
    assert!(!text_is(&"mod".to_string(), "mode"));
    assert!(!text_is(&"mod".to_string(), ""));
    assert!(text_is(&String::new(), ""));
}

#[test]
fn number_types_know_their_names_and_read_numbers() {
    assert_eq!(<u32 as Number>::type_label(), "u32");
    assert_eq!(<usize as Number>::type_label(), "usize");
    assert_eq!(<u32 as Number>::from_str_radix("zz", 36), Ok(35 * 36 + 35));
    assert_eq!(<u32 as Number>::from_str_radix("101", 2), Ok(5));
    assert_eq!(<u32 as Number>::from_str_radix("102", 2), Err(NumberFault::InvalidDigit));
    assert_eq!(<u32 as Number>::from_str_radix("", 10), Err(NumberFault::Empty));
    assert_eq!(<usize as Number>::from_str_radix("+17", 8), Ok(15));
    assert_eq!(<usize as Number>::from_str_radix("99999999999999999999999999", 10), Err(NumberFault::PosOverflow));
}

#[test]
fn number_faults_in_words() {
    assert_eq!(NumberFault::Empty.to_string(), "cannot parse integer from empty string");
    assert_eq!(NumberFault::InvalidDigit.to_string(), "invalid digit found in string");
    assert_eq!(NumberFault::PosOverflow.to_string(), "number too large to fit in target type");
    assert_eq!(NumberFault::NegOverflow.to_string(), "number too small to fit in target type");
    assert_eq!(NumberFault::Zero.to_string(), "number would be zero for non-zero type");
    assert_eq!(NumberFault::Other.to_string(), "not a number");
}

#[test]
fn parse_errors_in_words() {
    let options = vec!["a".to_string(), "b \"c\"".to_string()];
    assert_eq!(ParseError::WantWordGotReserved("::".to_string()).to_string(), "Unexpected reserved: ::");
    assert_eq!(ParseError::WantWordGotEOF().to_string(), "Unexpected EOF");
    assert_eq!(
        ParseError::UnexpectedWord { word: "x".to_string(), options: options.clone() }.to_string(),
        "Unexpected word \"x\", expected one of [\"a\", \"b \\\"c\\\"\"]"
    );
    assert_eq!(ParseError::WantReservedGotWord("w".to_string()).to_string(), "Unexpected word: w");
    assert_eq!(ParseError::WantReservedGotEOF().to_string(), "Unexpected EOF");
    assert_eq!(ParseError::NotAReserved("begin".to_string()).to_string(), "Word 'begin' is not reserved");
    assert_eq!(
        ParseError::UnexpectedReserved { reserved: "(".to_string(), options: vec!["[".to_string()] }.to_string(),
        "Unexpected reserved '(', expected one of [\"[\"]"
    );
    assert_eq!(
        ParseError::UnexpectedReserved { reserved: "(".to_string(), options: Vec::new() }.to_string(),
        "Unexpected reserved '(', expected one of []"
    );
    assert_eq!(
        ParseError::InvalidNumber { word: "ZZ".to_string(), num_type: "u32".to_string(), e: NumberFault::InvalidDigit }.to_string(),
        "\"ZZ\" is not a valid u32: invalid digit found in string"
    );
    assert_eq!(
        ParseError::RanOutOfUsedBasics.to_string(),
        "Ran out of tracked basic tokens that were used. Tokens must have been ended more times than they were started"
    );
    assert_eq!(
        ParseError::NoLastUsedBasic.to_string(),
        "Tried to access last used basic token when none have been used yet"
    );
    assert_eq!(ParseError::InvalidCallConv("pascal".to_string()).to_string(), "\"pascal\" is not a valid calling convention");
    assert_eq!(ParseError::ExpectedDelimiter(",".to_string()).to_string(), "Expected delimiter \",\"");
    assert_eq!(ParseError::EmptyModule.to_string(), "Expected module, found nothing");
}

#[test]
fn validation_and_binding_errors_in_words() {
    let missing = ValidateError::MissingModule { file_name: "Foo".to_string() };
    assert_eq!(missing.to_string(), "File Foo requires a module (e.g. \"mod path::name\")");
    assert_eq!(
        BindingError::Compute(ValidateError::MissingModule { file_name: "Foo".to_string() }).to_string(),
        "File Foo requires a module (e.g. \"mod path::name\")"
    );
    assert_eq!(BindingError::Parse(ParseError::EmptyModule).to_string(), "Expected module, found nothing");
    assert!(matches!(BindingError::from(ParseError::EmptyModule), BindingError::Parse(ParseError::EmptyModule)));
    assert!(matches!(
        BindingError::from(ValidateError::MissingModule { file_name: "f".to_string() }),
        BindingError::Compute(ValidateError::MissingModule { .. })
    ));
}

#[test]
fn errors_in_words_name_file_span_and_failure() {
    let e = Error {
        file_name: "a/b.bb".to_string(),
        char_rect: CharRect::new((3, 4), (5, 60)),
        err: BindingError::Parse(ParseError::ExpectedDelimiter("::".to_string())),
    };
    assert_eq!(e.to_string(), "Failed to parse a/b.bb from 3, 4, to 5, 60: Expected delimiter \"::\"");
}

#[test]
fn logger_errors_in_words() {
    let path = "out/logs".to_string();
    let cause = "denied".to_string();
    assert_eq!(
        LoggerError::CheckRootExist(path.clone(), cause.clone()).to_string(),
        "Could not check if log folder exists: out/logs\ndenied"
    );
    assert_eq!(
        LoggerError::ResetRoot(path.clone(), cause.clone()).to_string(),
        "Could not reset log foler: out/logs\ndenied"
    );
    assert_eq!(
        LoggerError::CreateRoot(path.clone(), cause.clone()).to_string(),
        "Could not create log folder: out/logs\ndenied"
    );
    assert_eq!(
        LoggerError::GetLogFileParent(path.clone()).to_string(),
        "Unexpected! Log file path has no parent: out/logs"
    );
    assert_eq!(
        LoggerError::CreateLogFolder(path.clone(), cause.clone()).to_string(),
        "Could not create folder for log file: out/logs\ndenied"
    );
    assert_eq!(
        LoggerError::OpenLogFile(path.clone(), cause.clone()).to_string(),
        "Could not create or open log file in append mode: out/logs\ndenied"
    );
    assert_eq!(
        LoggerError::WriteLogFile(path, cause).to_string(),
        "Could not write to log file: out/logs\ndenied"
    );
}

fn seen(entry: &LogEntry) -> (String, String, Severity) {
    (entry.file.clone(), entry.msg.clone(), entry.severity)
}

#[test]
fn logger_keeps_entries_in_order() {
    let mut logger = Logger::new();
    assert!(logger.entries().is_empty());
    logger.log("a.bb", "first");
    logger.elog("walk", "second");
    logger.log_with_severity("x", "third", Severity::Warning);
    logger.log_with_severity("x", "fourth", Severity::Debug);
    let lines: Vec<(String, String, Severity)> = logger.entries().iter().map(seen).collect();
    assert_eq!(
        lines,
        vec![
            ("a.bb".to_string(), "first".to_string(), Severity::Info),
            ("walk".to_string(), "second".to_string(), Severity::Error),
            ("x".to_string(), "third".to_string(), Severity::Warning),
            ("x".to_string(), "fourth".to_string(), Severity::Debug),
        ]
    );
}

#[test]
fn logger_takes_messages_without_a_file() {
    let mut logger = Logger::new();
    Sink::log(&mut logger, "one");
    Sink::log_debug(&mut logger, "two");
    Sink::log_warning(&mut logger, "three");
    Sink::log_error(&mut logger, "four");
    Sink::log_with_severity(&mut logger, "five", Severity::Info);
    let lines: Vec<(String, String, Severity)> = logger.entries().iter().map(seen).collect();
    assert_eq!(
        lines,
        vec![
            ("log".to_string(), "one".to_string(), Severity::Info),
            ("log".to_string(), "two".to_string(), Severity::Debug),
            ("log".to_string(), "three".to_string(), Severity::Warning),
            ("log".to_string(), "four".to_string(), Severity::Error),
            ("log".to_string(), "five".to_string(), Severity::Info),
        ]
    );
}
