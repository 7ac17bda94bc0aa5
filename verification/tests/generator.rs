use bluebrick_bindings_generator::error::{BindingError, Error, ParseError, ValidateError};
use bluebrick_bindings_generator::generator::{
    assemble, compute_rust, emit_declarations, generate_bluebrick_bindings, group_modules,
    parse_bb_bindings, validate_results, BBFile, Generated, ModuleGroup, RustFile,
};
use bluebrick_bindings_generator::log::Severity;
use bluebrick_bindings_generator::logger::{LogEntry, Logger};
use bluebrick_bindings_generator::rect::CharRect;
use bluebrick_bindings_generator::tokens::{FileToken, RootToken};

fn source(name: &str, text: &str) -> BBFile {
    BBFile { name: name.to_string(), path: format!("src/{}.bb", name), contents: text.to_string() }
}

fn show(root: &RootToken) -> Result<String, Error> {
    match root {
        RootToken::Module(m) => Ok(format!("mod {};", m.name)),
        RootToken::UseModule(m) => Ok(format!("use {};", m.name)),
        RootToken::Class(c) if c.name.starts_with("Bad") => Err(Error {
            file_name: c.name.clone(),
            char_rect: c.char_rect,
            err: BindingError::Parse(ParseError::UnexpectedWord { word: c.name.clone(), options: Vec::new() }),
        }),
        RootToken::Class(c) => Ok(format!("class {};", c.name)),
        RootToken::Enum(e) => Ok(format!("enum {};", e.name)),
        RootToken::Globals(_) => Ok("globals;".to_string()),
    }
}

fn run(files: Vec<BBFile>) -> (Generated, Vec<(String, String, Severity)>) {
    let mut logger = Logger::new();
    let generated = generate_bluebrick_bindings(files, &show, &mut logger);
    let lines = logger.entries().iter().map(line).collect();
    (generated, lines)
}

fn line(entry: &LogEntry) -> (String, String, Severity) {
    (entry.file.clone(), entry.msg.clone(), entry.severity)
}

fn unit(file: &RustFile) -> (String, String, String) {
    (file.path.clone(), file.name.clone(), file.contents.clone())
}

fn units(generated: &Generated) -> Vec<(String, String, String)> {
    generated.files.iter().map(unit).collect()
}

fn u(path: &str, name: &str, contents: &str) -> (String, String, String) {
    (path.to_string(), name.to_string(), contents.to_string())
}

fn kinds(group: &ModuleGroup) -> Vec<String> {
    group
        .contents
        .iter()
        .map(|root| match root {
            RootToken::Module(m) => format!("mod {}", m.name),
            RootToken::UseModule(m) => format!("use {}", m.name),
            RootToken::Class(c) => format!("class {}", c.name),
            RootToken::Enum(e) => format!("enum {}", e.name),
            RootToken::Globals(_) => "globals".to_string(),
        })
        .collect()
}

fn parsed_files(sources: Vec<BBFile>) -> Vec<FileToken> {
    parse_bb_bindings(sources).into_iter().map(|r| r.unwrap()).collect()
}

fn failure(name: &str) -> Error {
    Error {
        file_name: name.to_string(),
        char_rect: CharRect::default(),
        err: BindingError::Parse(ParseError::EmptyModule),
    }
}

#[test]
fn parse_bb_bindings_parses_each_file_on_its_own() {
    let results = parse_bb_bindings(vec![
        source("good", "mod a"),
        source("bad", "mod ="),
        source("also_good", "mod b class K []"),
    ]);
    assert_eq!(results.len(), 3);
    assert_eq!(results[0].as_ref().unwrap().name, "good");
    assert_eq!(results[1].as_ref().unwrap_err().file_name, "src/bad.bb");
    assert_eq!(results[2].as_ref().unwrap().children.len(), 2);
}

#[test]
fn validate_results_parts_successes_and_errors() {
    let results = parse_bb_bindings(vec![
        source("one", "mod a"),
        source("two", "="),
        source("three", "mod c"),
        source("four", "class"),
    ]);
    let (good, bad) = validate_results(results);
    let names: Vec<String> = good.iter().map(|f| f.name.clone()).collect();
    assert_eq!(names, vec!["one", "three"]);
    let places: Vec<String> = bad.iter().map(|e| e.file_name.clone()).collect();
    assert_eq!(places, vec!["src/two.bb", "src/four.bb"]);
    let (good, bad) = validate_results::<FileToken>(Vec::new());
    assert!(good.is_empty());
    assert!(bad.is_empty());
}

#[test]
fn group_modules_groups_parsed_files() {
    let files = parsed_files(vec![
        source("a1", "mod a class A1 []"),
        source("none", "class N []"),
        source("b1", "mod b"),
        source("a2", "mod a use b"),
    ]);
    let (groups, errors) = group_modules(files);
    assert_eq!(groups.len(), 2);
    assert_eq!(groups[0].name, "a");
    assert_eq!(groups[0].path, "");
    assert_eq!(kinds(&groups[0]), vec!["mod a", "class A1", "mod a", "use b"]);
    assert_eq!(kinds(&groups[1]), vec!["mod b"]);
    assert_eq!(errors.len(), 1);
    assert_eq!(errors[0].file_name, "none");
    let (groups, errors) = group_modules(Vec::new());
    assert!(groups.is_empty());
    assert!(errors.is_empty());
}

#[test]
fn groups_come_in_the_order_in_which_modules_are_first_seen() {
    let files = parsed_files(vec![
        source("f1", "mod z class A []"),
        source("f2", "mod a::m class B []"),
        source("f3", "mod z class C []"),
        source("f4", "mod a::n class D []"),
        source("f5", "mod a::m class E []"),
    ]);
    let (groups, errors) = group_modules(files);
    assert!(errors.is_empty());
    let names: Vec<(String, String)> = groups.iter().map(|g| (g.path.clone(), g.name.clone())).collect();
    assert_eq!(
        names,
        vec![
            ("".to_string(), "z".to_string()),
            ("a".to_string(), "m".to_string()),
            ("a".to_string(), "n".to_string()),
        ]
    );
    assert_eq!(kinds(&groups[0]), vec!["mod z", "class A", "mod z", "class C"]);
    assert_eq!(kinds(&groups[1]), vec!["mod m", "class B", "mod m", "class E"]);
    assert_eq!(kinds(&groups[2]), vec!["mod n", "class D"]);
}

#[test]
fn the_first_module_declaration_of_a_file_decides() {
    let (groups, _) = group_modules(parsed_files(vec![source("f", "class K [] mod a::b mod c::d")]));
    assert_eq!(groups.len(), 1);
    assert_eq!(groups[0].name, "b");
    assert_eq!(groups[0].path, "a");
    assert_eq!(kinds(&groups[0]), vec!["class K", "mod b", "mod d"]);
}

#[test]
fn emit_declarations_asks_for_each_declaration_in_order() {
    let (groups, _) =
        group_modules(parsed_files(vec![source("f", "mod m class A [] enum E [] class BadB [] globals {}")]));
    let outcomes = emit_declarations(&groups[0], &show);
    assert_eq!(outcomes.len(), 5);
    assert_eq!(outcomes[0].as_ref().unwrap(), "mod m;");
    assert_eq!(outcomes[1].as_ref().unwrap(), "class A;");
    assert_eq!(outcomes[2].as_ref().unwrap(), "enum E;");
    assert_eq!(outcomes[3].as_ref().unwrap_err().file_name, "BadB");
    assert_eq!(outcomes[4].as_ref().unwrap(), "globals;");
}

#[test]
fn assemble_joins_fragments_and_keeps_errors() {
    let (groups, _) = group_modules(parsed_files(vec![source("f", "mod a::m")]));
    let outcomes = vec![
        Ok("one ".to_string()),
        Err(failure("x")),
        Ok("two ".to_string()),
        Ok("three".to_string()),
        Err(failure("y")),
    ];
    let (file, errors) = assemble(&groups[0], outcomes);
    assert_eq!(unit(&file), u("a", "m", "one two three"));
    let places: Vec<String> = errors.iter().map(|e| e.file_name.clone()).collect();
    assert_eq!(places, vec!["x", "y"]);
    let (file, errors) = assemble(&groups[0], Vec::new());
    assert_eq!(file.contents, "");
    assert!(errors.is_empty());
}

#[test]
fn compute_rust_groups_and_emits() {
    let files = parsed_files(vec![
        source("f1", "mod a::m class A []"),
        source("none", "enum N []"),
        source("f2", "mod b use a::m class Bad1 [] enum E []"),
        source("f3", "mod a::m class Bad2 [] class C []"),
    ]);
    let (files, errors) = compute_rust(files, &show);
    let texts: Vec<(String, String, String)> = files.iter().map(unit).collect();
    assert_eq!(
        texts,
        vec![u("a", "m", "mod m;class A;mod m;class C;"), u("", "b", "mod b;use m;enum E;")]
    );
    let places: Vec<String> = errors.iter().map(|e| e.file_name.clone()).collect();
    assert_eq!(places, vec!["none", "Bad2", "Bad1"]);
}

#[test]
fn file_without_module_fails_generation() {
    let (generated, _) = run(vec![source("Foo", "class Foo [ fields = [ 0 = x: i32 ] ]")]);
    assert!(generated.files.is_empty());
    assert_eq!(generated.errors.len(), 1);
    let e = generated.finish().unwrap_err();
    assert_eq!(e.file_name, "Foo");
    assert_eq!(e.char_rect, CharRect::new((1, 1), (1, 37)));
    assert!(matches!(&e.err, BindingError::Compute(ValidateError::MissingModule { file_name }) if file_name == "Foo"));
    assert_eq!(
        e.to_string(),
        "Failed to parse Foo from 1, 1, to 1, 37: File Foo requires a module (e.g. \"mod path::name\")"
    );
}

#[test]
fn files_of_one_module_make_one_unit() {
    let (generated, _) = run(vec![
        source("first", "mod a::b class One []"),
        source("second", "mod a::b enum Two [] class Three []"),
    ]);
    assert_eq!(units(&generated), vec![u("a", "b", "mod b;class One;mod b;enum Two;class Three;")]);
    assert!(generated.errors.is_empty());
    assert!(generated.finish().is_ok());
}

#[test]
fn same_module_at_different_places_in_the_files_is_the_same_module() {
    let (generated, _) = run(vec![
        source("first", "mod a::b"),
        source("second", "\n\n// elsewhere\n   mod a  ::  b"),
    ]);
    assert_eq!(units(&generated), vec![u("a", "b", "mod b;mod b;")]);
}

#[test]
fn modules_with_the_same_parents_and_different_names_are_different() {
    let (generated, _) = run(vec![source("f1", "mod a::b"), source("f2", "mod a::c")]);
    assert_eq!(generated.files.len(), 2);
    let (generated, _) = run(vec![source("f1", "mod a::b"), source("f2", "mod b")]);
    assert_eq!(generated.files.len(), 2);
    let (generated, _) = run(vec![source("f1", "mod a::b::c"), source("f2", "mod a::b")]);
    assert_eq!(generated.files.len(), 2);
}

#[test]
fn one_file_in_error_does_not_stop_the_others() {
    let (generated, log) = run(vec![
        source("broken", "mod x class [ ]"),
        source("fine", "mod y class K []"),
    ]);
    assert_eq!(units(&generated), vec![u("", "y", "mod y;class K;")]);
    assert_eq!(generated.errors.len(), 1);
    assert_eq!(generated.errors[0].file_name, "src/broken.bb");
    assert!(matches!(
        &generated.errors[0].err,
        BindingError::Parse(ParseError::WantWordGotReserved(r)) if r == "["
    ));
    let error_text = generated.errors[0].to_string();
    assert_eq!(
        error_text,
        "Failed to parse src/broken.bb from 1, 13, to 1, 13: Unexpected reserved: ["
    );
    assert_eq!(
        log,
        vec![
            ("validate_results".to_string(), "Parsed 2 files".to_string(), Severity::Info),
            ("validate_results".to_string(), error_text, Severity::Error),
            ("validate_results".to_string(), "Parsed fine".to_string(), Severity::Info),
            ("generated".to_string(), "Generated 1 files".to_string(), Severity::Info),
        ]
    );
    let e = generated.finish().unwrap_err();
    assert_eq!(e.file_name, "src/broken.bb");
}

#[test]
fn the_last_error_is_the_error_of_the_run() {
    let (generated, log) = run(vec![
        source("broken_one", "mod"),
        source("nomod", "class K []"),
        source("broken_two", "enum"),
        source("nomod2", "enum E []"),
    ]);
    assert!(generated.files.is_empty());
    let places: Vec<String> = generated.errors.iter().map(|e| e.file_name.clone()).collect();
    assert_eq!(places, vec!["src/broken_one.bb", "src/broken_two.bb", "nomod", "nomod2"]);
    assert_eq!(log.len(), 1 + 4 + 1 + 2);
    assert_eq!(log[5].1, "Generated 0 files");
    assert_eq!(
        log[6],
        (
            "generated".to_string(),
            "Failed to parse nomod from 1, 1, to 1, 10: File nomod requires a module (e.g. \"mod path::name\")".to_string(),
            Severity::Error
        )
    );
    assert_eq!(log[7].2, Severity::Error);
    let e = generated.finish().unwrap_err();
    assert_eq!(e.file_name, "nomod2");
}

#[test]
fn the_last_error_may_be_a_parse_error() {
    let (generated, _) = run(vec![source("first", "mod a"), source("second", "mod =")]);
    assert_eq!(generated.files.len(), 1);
    let e = generated.finish().unwrap_err();
    assert_eq!(e.file_name, "src/second.bb");
}

#[test]
fn a_declaration_that_cannot_be_emitted_is_left_out_and_fails_the_run() {
    let (generated, log) = run(vec![
        source("nomod", "class K []"),
        source("f1", "mod a class Bad1 [] class Good []"),
        source("broken", "mod ="),
        source("f2", "mod b class Bad2 []"),
    ]);
    assert_eq!(units(&generated), vec![u("", "a", "mod a;class Good;"), u("", "b", "mod b;")]);
    let places: Vec<String> = generated.errors.iter().map(|e| e.file_name.clone()).collect();
    assert_eq!(places, vec!["src/broken.bb", "nomod", "Bad1", "Bad2"]);
    assert_eq!(log.len(), 1 + 4 + 1 + 3);
    assert_eq!(log[5].1, "Generated 2 files");
    assert_eq!(
        log[7],
        (
            "generated".to_string(),
            "Failed to parse Bad1 from 1, 13, to 1, 19: Unexpected word \"Bad1\", expected one of []".to_string(),
            Severity::Error
        )
    );
    assert_eq!(generated.finish().unwrap_err().file_name, "Bad2");
}

#[test]
fn no_files_no_units_no_errors() {
    let (generated, log) = run(Vec::new());
    assert!(generated.files.is_empty());
    assert!(generated.errors.is_empty());
    assert_eq!(
        log,
        vec![
            ("validate_results".to_string(), "Parsed 0 files".to_string(), Severity::Info),
            ("generated".to_string(), "Generated 0 files".to_string(), Severity::Info),
        ]
    );
    assert!(generated.finish().is_ok());
}

#[test]
fn generation_adds_to_the_log_and_keeps_what_was_there() {
    let mut logger = Logger::new();
    logger.log("before", "kept");
    let _ = generate_bluebrick_bindings(vec![source("a", "mod a")], &show, &mut logger);
    let lines: Vec<(String, String, Severity)> = logger.entries().iter().map(line).collect();
    assert_eq!(lines.len(), 4);
    assert_eq!(lines[0], ("before".to_string(), "kept".to_string(), Severity::Info));
    assert_eq!(lines[2].1, "Parsed a");
}

#[test]
fn unit_path_joins_the_parents_with_slashes() {
    let (generated, _) = run(vec![source("deep", "mod a::b::c::d")]);
    assert_eq!(units(&generated), vec![u("a/b/c", "d", "mod d;")]);
}

#[test]
fn generating_twice_gives_the_same_outcome() {
    let files = || {
        vec![
            source("one", "mod a::b class K<T> [ fields = [ 0x0 = x: ptr T ] ]"),
            source("two", "mod a::b enum E [ type = u8 ]"),
            source("three", "class"),
        ]
    };
    let (first, first_log) = run(files());
    let (second, second_log) = run(files());
    assert_eq!(format!("{:?}", first.files), format!("{:?}", second.files));
    assert_eq!(format!("{:?}", first.errors), format!("{:?}", second.errors));
    assert_eq!(first_log, second_log);
}

#[test]
fn finish_hands_out_the_last_error() {
    let generated =
        Generated { files: Vec::new(), errors: vec![failure("a"), failure("b"), failure("c")] };
    assert_eq!(generated.finish().unwrap_err().file_name, "c");
    let generated = Generated { files: Vec::new(), errors: Vec::new() };
    assert!(generated.finish().is_ok());
}
