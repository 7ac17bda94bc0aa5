//! Source files going in, generated units coming out.
//!
//! Every file is parsed on its own, so that one file in error does not keep
//! the others from being parsed. The files that parsed are grouped by the
//! module they declare, one group for each module, in the order in which the
//! modules were first seen. Each group is emitted as one unit of source
//! text; what the text of a declaration is, the caller decides. All errors
//! are kept, in the order in which they arose; the run has failed when there
//! is at least one, and its error is then the last one.

use crate::error::{Error, ErrorView};
use crate::lexer::lex;
use crate::log::Severity;
use crate::logger::{LogEntryView, Logger};
use crate::model::{lemma_views_push, result_view, views};
use crate::parser::{Cursor, Parser};
use crate::text::{decimal, decimal_text, glue3, joined};
use crate::tokens::{FileToken, FileView, RootToken, RootView};
use vstd::prelude::*;
use vstd::string::StringExecFns;

verus! {

/// One BB source file as it was found: its stem, its path below the source
/// root, and its text.
#[derive(Debug)]
pub struct BBFile {
    pub name: String,
    pub path: String,
    pub contents: String,
}

/// The mathematical value of a [`BBFile`].
pub struct BBFileView {
    pub name: Seq<char>,
    pub path: Seq<char>,
    pub contents: Seq<char>,
}

impl View for BBFile {
    type V = BBFileView;

    open spec fn view(&self) -> BBFileView {
        BBFileView { name: self.name@, path: self.path@, contents: self.contents@ }
    }
}

/// The declarations of one module: the name of the module, the directory it
/// lies in, and the declarations of all its files, in order.
#[derive(Debug)]
pub struct ModuleGroup {
    pub name: String,
    pub path: String,
    pub contents: Vec<RootToken>,
}

/// The mathematical value of a [`ModuleGroup`].
pub struct ModuleGroupView {
    pub name: Seq<char>,
    pub path: Seq<char>,
    pub contents: Seq<RootView>,
}

impl View for ModuleGroup {
    type V = ModuleGroupView;

    open spec fn view(&self) -> ModuleGroupView {
        ModuleGroupView { name: self.name@, path: self.path@, contents: views(self.contents@) }
    }
}

/// What parsing a file yields: its tokens are read as one file node, in a
/// frame of its own.
pub open spec fn parsed(file: BBFileView) -> Result<FileView, ErrorView> {
    (Cursor {
        name: file.name,
        path: file.path,
        contents: file.contents,
        rest: lex(file.contents),
        frames: Seq::empty(),
    }).token::<FileToken>().1
}

/// The results of parsing each of `files`.
pub open spec fn parsed_all(files: Seq<BBFileView>) -> Seq<Result<FileView, ErrorView>> {
    Seq::new(files.len(), |i: int| parsed(files[i]))
}

/// Those of `items` that succeeded, in order.
pub open spec fn successes<V>(items: Seq<Result<V, ErrorView>>) -> Seq<V>
    decreases items.len(),
{
    if items.len() == 0 {
        Seq::empty()
    } else {
        match items.last() {
            Ok(item) => successes(items.drop_last()).push(item),
            Err(_) => successes(items.drop_last()),
        }
    }
}

/// The errors of those of `items` that failed, in order.
pub open spec fn failures<V>(items: Seq<Result<V, ErrorView>>) -> Seq<ErrorView>
    decreases items.len(),
{
    if items.len() == 0 {
        Seq::empty()
    } else {
        match items.last() {
            Ok(_) => failures(items.drop_last()),
            Err(e) => failures(items.drop_last()).push(e),
        }
    }
}

/// The module of a file as a key for grouping: all segments of its path.
pub open spec fn module_key(file: FileView) -> Option<Seq<Seq<char>>> {
    match file.module() {
        Some(module) => Some(module.segments()),
        None => None,
    }
}

/// The modules that `files` declare, each once, in the order in which they
/// are first seen.
pub open spec fn group_keys(files: Seq<FileView>) -> Seq<Seq<Seq<char>>>
    decreases files.len(),
{
    if files.len() == 0 {
        Seq::empty()
    } else {
        let before = group_keys(files.drop_last());
        match module_key(files.last()) {
            Some(key) => if before.contains(key) {
                before
            } else {
                before.push(key)
            },
            None => before,
        }
    }
}

/// The declarations of those of `files` that declare the module `key`: file
/// after file, and within a file declaration after declaration.
pub open spec fn group_contents(files: Seq<FileView>, key: Seq<Seq<char>>) -> Seq<RootView>
    decreases files.len(),
{
    if files.len() == 0 {
        Seq::empty()
    } else if module_key(files.last()) == Some(key) {
        group_contents(files.drop_last(), key) + files.last().children
    } else {
        group_contents(files.drop_last(), key)
    }
}

/// The group of the module `key`: named by the last segment, lying in the
/// directory of the segments before it, and holding the declarations of all
/// files of that module.
pub open spec fn group_of(files: Seq<FileView>, key: Seq<Seq<char>>) -> ModuleGroupView {
    ModuleGroupView {
        name: key.last(),
        path: joined(key.drop_last(), "/"@),
        contents: group_contents(files, key),
    }
}

/// The groups of `files`: one for each module, in the order in which the
/// modules are first seen.
pub open spec fn groups_of(files: Seq<FileView>) -> Seq<ModuleGroupView> {
    Seq::new(group_keys(files).len(), |i: int| group_of(files, group_keys(files)[i]))
}

/// The errors of those of `files` that declare no module, in order.
pub open spec fn missing_modules(files: Seq<FileView>) -> Seq<ErrorView>
    decreases files.len(),
{
    if files.len() == 0 {
        Seq::empty()
    } else if files.last().module() is None {
        missing_modules(files.drop_last()).push(files.last().missing_module())
    } else {
        missing_modules(files.drop_last())
    }
}

/// No module is listed twice.
pub proof fn lemma_group_keys_distinct(files: Seq<FileView>)
    ensures
        group_keys(files).no_duplicates(),
    decreases files.len(),
{
    if files.len() > 0 {
        lemma_group_keys_distinct(files.drop_last());
    }
}

/// Parsing is a function of the file alone: whenever two files with the same
/// name, path and text are parsed, the two outcomes are the same tree with
/// the same spans, or the same error.
pub proof fn lemma_parsing_is_deterministic(
    a: BBFile,
    b: BBFile,
    first: Result<FileToken, Error>,
    second: Result<FileToken, Error>,
)
    requires
        a@ == b@,
        result_view(first) == parsed(a@),
        result_view(second) == parsed(b@),
    ensures
        result_view(first) == result_view(second),
{
}

/// Two files that declare the same module make exactly one group, which
/// holds the declarations of the first file and then those of the second.
pub proof fn lemma_same_module_one_group(a: FileView, b: FileView)
    requires
        module_key(a) is Some,
        module_key(a) == module_key(b),
    ensures
        groups_of(seq![a, b]) == seq![
            ModuleGroupView {
                name: a.module()->0.name,
                path: a.module()->0.path(),
                contents: a.children + b.children,
            },
        ],
        missing_modules(seq![a, b]) == Seq::<ErrorView>::empty(),
{
    let key = module_key(a)->0;
    let both = seq![a, b];
    let one = seq![a];
    assert(both.drop_last() =~= one);
    assert(one.drop_last() =~= Seq::<FileView>::empty());
    assert(one.last() == a);
    assert(both.last() == b);
    assert(group_keys(Seq::<FileView>::empty()) =~= Seq::<Seq<Seq<char>>>::empty());
    assert(group_contents(Seq::<FileView>::empty(), key) =~= Seq::<RootView>::empty());
    assert(missing_modules(Seq::<FileView>::empty()) =~= Seq::<ErrorView>::empty());
    assert(group_keys(one) =~= seq![key]);
    assert(group_keys(one)[0] == key);
    assert(group_keys(both) =~= seq![key]);
    assert(group_contents(one, key) =~= a.children);
    assert(group_contents(both, key) =~= a.children + b.children);
    assert(key.drop_last() =~= a.module()->0.parent_names());
    assert(groups_of(both) =~= seq![group_of(both, key)]);
    assert(missing_modules(one) =~= Seq::<ErrorView>::empty());
}

/// Parses each of `files` on its own.
pub fn parse_bb_bindings(files: Vec<BBFile>) -> (results: Vec<Result<FileToken, Error>>)
    ensures
        results@.len() == files@.len(),
        forall|i: int|
            0 <= i < files@.len() ==> result_view(#[trigger] results@[i]) == parsed(files@[i]@),
{
    let mut results: Vec<Result<FileToken, Error>> = Vec::new();
    let ghost all = files@;
    for file in iter: files
        invariant
            iter.seq() == all,
            results@.len() == iter.index(),
            forall|i: int|
                0 <= i < iter.index() ==> result_view(#[trigger] results@[i]) == parsed(all[i]@),
    {
        let mut parser = Parser::new(file);
        let result = parser.token::<FileToken>();
        results.push(result);
    }
    results
}

/// Parts the results of a step into what succeeded and the errors of what
/// failed, each in order.
pub fn validate_results<T: View>(items: Vec<Result<T, Error>>) -> (parted: (Vec<T>, Vec<Error>))
    ensures
        views(parted.0@) == successes(Seq::new(items@.len(), |i: int| result_view(items@[i]))),
        views(parted.1@) == failures(Seq::new(items@.len(), |i: int| result_view(items@[i]))),
{
    let mut good: Vec<T> = Vec::new();
    let mut bad: Vec<Error> = Vec::new();
    let ghost all = Seq::new(items@.len(), |i: int| result_view(items@[i]));
    let ghost raw = items@;
    assert(all.take(0) =~= Seq::<Result<T::V, ErrorView>>::empty());
    assert(views(good@) =~= Seq::<T::V>::empty());
    assert(views(bad@) =~= Seq::<ErrorView>::empty());
    for item in iter: items
        invariant
            iter.seq() == raw,
            all == Seq::new(raw.len(), |i: int| result_view(raw[i])),
            views(good@) == successes(all.take(iter.index() as int)),
            views(bad@) == failures(all.take(iter.index() as int)),
    {
        proof {
            let n = iter.index() as int;
            assert(all.take(n + 1).drop_last() =~= all.take(n));
            assert(all.take(n + 1).last() == result_view(item));
        }
        match item {
            Ok(value) => {
                proof {
                    lemma_views_push(good@, value);
                }
                good.push(value);
            },
            Err(e) => {
                proof {
                    lemma_views_push(bad@, e);
                }
                bad.push(e);
            },
        }
    }
    assert(all.take(raw.len() as int) =~= all);
    (good, bad)
}

/// The declared modules only grow as files are added.
pub proof fn lemma_group_keys_grow(files: Seq<FileView>, key: Seq<Seq<char>>)
    requires
        files.len() > 0,
    ensures
        group_keys(files.drop_last()).contains(key) ==> group_keys(files).contains(key),
        module_key(files.last()) == Some(key) ==> group_keys(files).contains(key),
{
    let before = group_keys(files.drop_last());
    if before.contains(key) {
        let j = choose|j: int| 0 <= j < before.len() && before[j] == key;
        assert(group_keys(files)[j] == key);
    }
    if module_key(files.last()) == Some(key) && !before.contains(key) {
        assert(group_keys(files)[before.len() as int] == key);
    }
}

/// A module that no file has declared has no declarations.
pub proof fn lemma_absent_key(files: Seq<FileView>, key: Seq<Seq<char>>)
    requires
        !group_keys(files).contains(key),
    ensures
        group_contents(files, key) == Seq::<RootView>::empty(),
    decreases files.len(),
{
    if files.len() > 0 {
        lemma_group_keys_grow(files, key);
        lemma_absent_key(files.drop_last(), key);
    }
}

/// The segments of the modules of `keys`.
pub open spec fn key_views(keys: Seq<Vec<String>>) -> Seq<Seq<Seq<char>>> {
    Seq::new(keys.len(), |i: int| views(keys[i]@))
}

/// Whether two lists of texts hold the same texts in the same order.
fn same_texts(a: &Vec<String>, b: &Vec<String>) -> (same: bool)
    ensures
        same == (views(a@) == views(b@)),
{
    if a.len() != b.len() {
        proof {
            if views(a@) == views(b@) {
                assert(views(a@).len() == views(b@).len());
            }
        }
        return false;
    }
    let mut i: usize = 0;
    while i < a.len()
        invariant
            i <= a.len(),
            a.len() == b.len(),
            forall|k: int| 0 <= k < i ==> a@[k]@ == b@[k]@,
        decreases a.len() - i,
    {
        if a[i] != b[i] {
            proof {
                if views(a@) == views(b@) {
                    assert(views(a@)[i as int] == views(b@)[i as int]);
                }
            }
            return false;
        }
        i = i + 1;
    }
    assert(views(a@) =~= views(b@));
    true
}

/// The place of `key` among `keys`.
fn find_key(keys: &Vec<Vec<String>>, key: &Vec<String>) -> (place: Option<usize>)
    ensures
        match place {
            Some(j) => j < keys.len() && key_views(keys@)[j as int] == views(key@),
            None => !key_views(keys@).contains(views(key@)),
        },
{
    let mut j: usize = 0;
    while j < keys.len()
        invariant
            j <= keys.len(),
            forall|k: int| 0 <= k < j ==> key_views(keys@)[k] != views(key@),
        decreases keys.len() - j,
    {
        if same_texts(&keys[j], key) {
            return Some(j);
        }
        j = j + 1;
    }
    None
}

/// Groups the files by the module they declare: one group for each module,
/// in the order in which the modules are first seen, each with the
/// declarations of all its files in the order of the files. A file that
/// declares no module goes into no group and gives an error.
pub fn group_modules(tokens: Vec<FileToken>) -> (r: (Vec<ModuleGroup>, Vec<Error>))
    ensures
        views(r.0@) == groups_of(views(tokens@)),
        views(r.1@) == missing_modules(views(tokens@)),
{
    let mut units: Vec<ModuleGroup> = Vec::new();
    let mut keys: Vec<Vec<String>> = Vec::new();
    let mut errors: Vec<Error> = Vec::new();
    let ghost raw = tokens@;
    let ghost all = views(tokens@);
    proof {
        assert(all.take(0) =~= Seq::<FileView>::empty());
        assert(key_views(keys@) =~= group_keys(all.take(0)));
        assert(views(errors@) =~= missing_modules(all.take(0)));
    }
    for file in iter: tokens
        invariant
            iter.seq() == raw,
            all == views(raw),
            key_views(keys@) == group_keys(all.take(iter.index() as int)),
            units@.len() == keys@.len(),
            forall|j: int|
                0 <= j < units@.len() ==> (#[trigger] units@[j])@ == group_of(
                    all.take(iter.index() as int),
                    key_views(keys@)[j],
                ),
            views(errors@) == missing_modules(all.take(iter.index() as int)),
    {
        let ghost n = iter.index() as int;
        let ghost done = all.take(n);
        let ghost next = all.take(n + 1);
        let ghost old_units = units@;
        let ghost old_keys = key_views(keys@);
        proof {
            assert(next.drop_last() =~= done);
            assert(next.last() == file@);
            lemma_group_keys_distinct(done);
        }
        let found = match file.module() {
            Ok(module) => Some((module.segments(), module.name.clone(), module.path())),
            Err(e) => {
                proof {
                    lemma_views_push(errors@, e);
                }
                errors.push(e);
                None
            },
        };
        match found {
            None => {
                assert forall|j: int| 0 <= j < units@.len() implies (#[trigger] units@[j])@
                    == group_of(next, key_views(keys@)[j]) by {
                    assert(units@[j] == old_units[j]);
                }
            },
            Some((key, name, path)) => {
                let ghost k = views(key@);
                let ghost module = file@.module()->0;
                assert(module.segments().drop_last() =~= module.parent_names());
                let mut children = file.children;
                match find_key(&keys, &key) {
                    Some(j) => {
                        let ghost before = units@[j as int]@;
                        let ghost added = views(children@);
                        let mut unit = units.remove(j);
                        unit.contents.append(&mut children);
                        assert(views(unit.contents@) =~= before.contents + added);
                        units.insert(j, unit);
                        assert forall|m: int| 0 <= m < units@.len() implies (#[trigger] units@[m])@
                            == group_of(next, key_views(keys@)[m]) by {
                            if m != j {
                                assert(units@[m] == old_units[m]);
                                assert(old_keys[m] != old_keys[j as int]);
                            }
                        }
                    },
                    None => {
                        proof {
                            lemma_absent_key(done, k);
                            assert(Seq::<RootView>::empty() + views(children@) =~= views(
                                children@,
                            ));
                        }
                        units.push(ModuleGroup { name, path, contents: children });
                        keys.push(key);
                        assert(key_views(keys@) =~= old_keys.push(k));
                        assert forall|m: int| 0 <= m < units@.len() implies (#[trigger] units@[m])@
                            == group_of(next, key_views(keys@)[m]) by {
                            if m < old_units.len() {
                                assert(units@[m] == old_units[m]);
                            }
                        }
                    },
                }
            },
        }
    }
    proof {
        assert(all.take(raw.len() as int) =~= all);
        assert(views(units@) =~= groups_of(all));
    }
    (units, errors)
}

/// One unit of output: the name of a module, the directory it lies in, and
/// the source text of its declarations.
#[derive(Debug)]
pub struct RustFile {
    pub name: String,
    pub path: String,
    pub contents: String,
}

/// The mathematical value of a [`RustFile`].
pub struct RustFileView {
    pub name: Seq<char>,
    pub path: Seq<char>,
    pub contents: Seq<char>,
}

impl View for RustFile {
    type V = RustFileView;

    open spec fn view(&self) -> RustFileView {
        RustFileView { name: self.name@, path: self.path@, contents: self.contents@ }
    }
}

/// How emitting each declaration of a group ended, as mathematical values.
pub open spec fn outcome_views(outcomes: Seq<Result<String, Error>>) -> Seq<
    Result<Seq<char>, ErrorView>,
> {
    Seq::new(outcomes.len(), |i: int| result_view(outcomes[i]))
}

/// The fragments of those declarations that could be emitted, one after the
/// other.
pub open spec fn fragments(outcomes: Seq<Result<Seq<char>, ErrorView>>) -> Seq<char>
    decreases outcomes.len(),
{
    if outcomes.len() == 0 {
        Seq::empty()
    } else {
        match outcomes.last() {
            Ok(text) => fragments(outcomes.drop_last()) + text,
            Err(_) => fragments(outcomes.drop_last()),
        }
    }
}

/// The unit of a group whose declarations were emitted with `outcomes`.
pub open spec fn rust_file_of(unit: ModuleGroupView, outcomes: Seq<Result<Seq<char>, ErrorView>>) -> RustFileView {
    RustFileView { name: unit.name, path: unit.path, contents: fragments(outcomes) }
}

/// `outcomes` are what `emit` yielded for the declarations of `unit`, one for
/// each declaration and in their order.
pub open spec fn emitted_by<F: Fn(&RootToken) -> Result<String, Error>>(
    emit: &F,
    unit: &ModuleGroup,
    outcomes: Seq<Result<String, Error>>,
) -> bool {
    &&& outcomes.len() == unit.contents@.len()
    &&& forall|k: int|
        0 <= k < outcomes.len() ==> call_ensures(
            emit,
            (&unit.contents@[k],),
            #[trigger] outcomes[k],
        )
}

/// `all` are what `emit` yielded for the declarations of each of `units`.
pub open spec fn emitted_all<F: Fn(&RootToken) -> Result<String, Error>>(
    emit: &F,
    units: Seq<ModuleGroup>,
    all: Seq<Seq<Result<String, Error>>>,
) -> bool {
    &&& all.len() == units.len()
    &&& forall|u: int| 0 <= u < all.len() ==> emitted_by(emit, &units[u], #[trigger] all[u])
}

/// The units of `units` whose declarations were emitted with `all`.
pub open spec fn rust_files_of(units: Seq<ModuleGroup>, all: Seq<Seq<Result<String, Error>>>) -> Seq<
    RustFileView,
> {
    Seq::new(units.len(), |u: int| rust_file_of(units[u]@, outcome_views(all[u])))
}

/// The errors of the declarations that could not be emitted: unit after
/// unit, and within a unit declaration after declaration.
pub open spec fn node_errors(all: Seq<Seq<Result<String, Error>>>) -> Seq<ErrorView>
    decreases all.len(),
{
    if all.len() == 0 {
        Seq::empty()
    } else {
        node_errors(all.drop_last()) + failures(outcome_views(all.last()))
    }
}

/// Asks `emit` for the source text of each declaration of a group, in order.
pub fn emit_declarations<F: Fn(&RootToken) -> Result<String, Error>>(unit: &ModuleGroup, emit: &F) -> (outcomes:
    Vec<Result<String, Error>>)
    requires
        forall|k: int| 0 <= k < unit.contents@.len() ==> call_requires(emit, (&unit.contents@[k],)),
    ensures
        emitted_by(emit, unit, outcomes@),
{
    let mut outcomes: Vec<Result<String, Error>> = Vec::new();
    let mut k: usize = 0;
    while k < unit.contents.len()
        invariant
            k <= unit.contents.len(),
            outcomes@.len() == k,
            forall|j: int|
                0 <= j < unit.contents@.len() ==> call_requires(emit, (&unit.contents@[j],)),
            forall|j: int|
                0 <= j < k ==> call_ensures(emit, (&unit.contents@[j],), #[trigger] outcomes@[j]),
        decreases unit.contents.len() - k,
    {
        let outcome = emit(&unit.contents[k]);
        outcomes.push(outcome);
        k = k + 1;
    }
    outcomes
}

/// Puts the unit of a group together: its text is made of the fragments of
/// the declarations that could be emitted, one after the other; with it come
/// the errors of the others, in order.
pub fn assemble(unit: &ModuleGroup, outcomes: Vec<Result<String, Error>>) -> (r: (RustFile, Vec<Error>))
    ensures
        r.0@ == rust_file_of(unit@, outcome_views(outcomes@)),
        views(r.1@) == failures(outcome_views(outcomes@)),
{
    let mut contents = String::new();
    let mut errors: Vec<Error> = Vec::new();
    let ghost raw = outcomes@;
    let ghost all = outcome_views(outcomes@);
    assert(all.take(0) =~= Seq::<Result<Seq<char>, ErrorView>>::empty());
    assert(views(errors@) =~= Seq::<ErrorView>::empty());
    for outcome in iter: outcomes
        invariant
            iter.seq() == raw,
            all == outcome_views(raw),
            contents@ == fragments(all.take(iter.index() as int)),
            views(errors@) == failures(all.take(iter.index() as int)),
    {
        proof {
            let n = iter.index() as int;
            assert(all.take(n + 1).drop_last() =~= all.take(n));
            assert(all.take(n + 1).last() == result_view(outcome));
        }
        match outcome {
            Ok(text) => {
                contents.append(text.as_str());
            },
            Err(e) => {
                proof {
                    lemma_views_push(errors@, e);
                }
                errors.push(e);
            },
        }
    }
    assert(all.take(raw.len() as int) =~= all);
    (RustFile { name: unit.name.clone(), path: unit.path.clone(), contents }, errors)
}

/// `emit` may be asked for the source text of any declaration.
pub open spec fn emits_all<F: Fn(&RootToken) -> Result<String, Error>>(emit: &F) -> bool {
    forall|root: RootToken| call_requires(emit, (&root,))
}

/// What grouping and emitting come to: `groups` are the groups of the files,
/// `all` is what `emit` yielded for their declarations, the files that come
/// out are the source texts of the groups, and the errors that come out are
/// those of the files without module and then those of the declarations that
/// could not be emitted.
pub open spec fn computed<F: Fn(&RootToken) -> Result<String, Error>>(
    emit: &F,
    files: Seq<FileView>,
    groups: Seq<ModuleGroup>,
    all: Seq<Seq<Result<String, Error>>>,
    out_files: Seq<RustFileView>,
    out_errors: Seq<ErrorView>,
) -> bool {
    &&& views(groups) == groups_of(files)
    &&& emitted_all(emit, groups, all)
    &&& out_files == rust_files_of(groups, all)
    &&& out_errors == missing_modules(files) + node_errors(all)
}

/// Groups the files by module and emits one source text for each group:
/// `emit` is asked for the source text of each declaration, group after
/// group and declaration after declaration, and the text of a group is made
/// of the fragments of its declarations in order. A declaration that `emit`
/// fails on adds nothing to its group. The errors are those of the files
/// without module, and behind them those of the declarations that could not
/// be emitted.
#[verifier::loop_isolation(false)]
pub fn compute_rust<F: Fn(&RootToken) -> Result<String, Error>>(tokens: Vec<FileToken>, emit: &F) -> (r: (
    Vec<RustFile>,
    Vec<Error>,
))
    requires
        emits_all(emit),
    ensures
        exists|groups: Seq<ModuleGroup>, all: Seq<Seq<Result<String, Error>>>| #[trigger]
            computed(emit, views(tokens@), groups, all, views(r.0@), views(r.1@)),
{
    let ghost trees = views(tokens@);
    let (groups, mut errors) = group_modules(tokens);
    let mut files: Vec<RustFile> = Vec::new();
    let ghost before = views(errors@);
    let ghost mut all: Seq<Seq<Result<String, Error>>> = Seq::empty();
    let mut u: usize = 0;
    proof {
        assert(views(errors@) =~= before + node_errors(all));
    }
    while u < groups.len()
        invariant
            u <= groups.len(),
            all.len() == u,
            files@.len() == u,
            forall|j: int| 0 <= j < u ==> emitted_by(emit, &groups@[j], #[trigger] all[j]),
            forall|j: int|
                0 <= j < u ==> (#[trigger] files@[j])@ == rust_file_of(
                    groups@[j]@,
                    outcome_views(all[j]),
                ),
            views(errors@) == before + node_errors(all),
        decreases groups.len() - u,
    {
        let ghost so_far = node_errors(all);
        let outcomes = emit_declarations(&groups[u], emit);
        let ghost these = outcomes@;
        let (file, mut failed) = assemble(&groups[u], outcomes);
        let ghost added = views(failed@);
        let ghost errors_before = views(errors@);
        errors.append(&mut failed);
        files.push(file);
        proof {
            let next = all.push(these);
            assert(next.drop_last() =~= all);
            assert(next.last() == these);
            assert(node_errors(next) == so_far + added);
            assert(views(errors@) =~= errors_before + added);
            assert(views(errors@) =~= before + node_errors(next));
            all = next;
        }
        u = u + 1;
    }
    proof {
        assert(emitted_all(emit, groups@, all));
        assert(views(files@) =~= rust_files_of(groups@, all));
    }
    let r = (files, errors);
    proof {
        assert(computed(emit, trees, groups@, all, views(r.0@), views(r.1@)));
    }
    r
}

/// What a run yields: the source text of each module that could be grouped,
/// and all errors in the order in which they arose.
pub struct Generated {
    pub files: Vec<RustFile>,
    pub errors: Vec<Error>,
}

/// The groups that `files` give: those of the files that parse.
pub open spec fn generated_groups(files: Seq<BBFileView>) -> Seq<ModuleGroupView> {
    groups_of(successes(parsed_all(files)))
}

/// The entry that tells how parsing one file ended: its name where it
/// parsed, and its error in full where it did not.
pub open spec fn result_entry(result: Result<FileView, ErrorView>) -> LogEntryView {
    match result {
        Ok(file) => LogEntryView {
            file: "validate_results"@,
            msg: "Parsed "@ + file.name,
            severity: Severity::Info,
        },
        Err(e) => LogEntryView {
            file: "validate_results"@,
            msg: e.text(),
            severity: Severity::Error,
        },
    }
}

/// The entries on parsing: how many files there were, and then how each
/// ended.
pub open spec fn parse_report(results: Seq<Result<FileView, ErrorView>>) -> Seq<LogEntryView> {
    seq![
        LogEntryView {
            file: "validate_results"@,
            msg: "Parsed "@ + decimal(results.len()) + " files"@,
            severity: Severity::Info,
        },
    ] + Seq::new(results.len(), |i: int| result_entry(results[i]))
}

/// One entry for each of `errors`, in full.
pub open spec fn error_entries(file: Seq<char>, errors: Seq<ErrorView>) -> Seq<LogEntryView> {
    Seq::new(
        errors.len(),
        |i: int| LogEntryView { file, msg: errors[i].text(), severity: Severity::Error },
    )
}

/// The entries on grouping: how many units there are, and then each error.
pub open spec fn group_report(units: nat, errors: Seq<ErrorView>) -> Seq<LogEntryView> {
    seq![
        LogEntryView {
            file: "generated"@,
            msg: "Generated "@ + decimal(units) + " files"@,
            severity: Severity::Info,
        },
    ] + error_entries("generated"@, errors)
}

/// What a run comes to: `groups` are the groups of the files that parse,
/// `all` is what `emit` yielded for their declarations, the files that come
/// out are the source texts of the groups, the errors that come out are
/// those of parsing, then those of the files without module, then those of
/// the declarations that could not be emitted, and the log has grown by the
/// entries on parsing and on grouping.
pub open spec fn generated<F: Fn(&RootToken) -> Result<String, Error>>(
    emit: &F,
    files: Seq<BBFileView>,
    groups: Seq<ModuleGroup>,
    all: Seq<Seq<Result<String, Error>>>,
    out_files: Seq<RustFileView>,
    out_errors: Seq<ErrorView>,
    log_before: Seq<LogEntryView>,
    log_after: Seq<LogEntryView>,
) -> bool {
    let results = parsed_all(files);
    let later = missing_modules(successes(results)) + node_errors(all);
    &&& views(groups) == generated_groups(files)
    &&& emitted_all(emit, groups, all)
    &&& out_files == rust_files_of(groups, all)
    &&& out_errors == failures(results) + later
    &&& log_after == log_before + parse_report(results) + group_report(out_files.len(), later)
}

/// Logs how parsing ended.
fn log_results(logger: &mut Logger, results: &Vec<Result<FileToken, Error>>)
    ensures
        final(logger)@ == old(logger)@ + parse_report(
            Seq::new(results@.len(), |i: int| result_view(results@[i])),
        ),
{
    let ghost all = Seq::new(results@.len(), |i: int| result_view(results@[i]));
    let ghost before = logger@;
    let count = glue3("Parsed ", decimal_text(results.len()).as_str(), " files");
    logger.log("validate_results", count.as_str());
    let ghost headed = logger@;
    let mut i: usize = 0;
    while i < results.len()
        invariant
            i <= results.len(),
            all == Seq::new(results@.len(), |i: int| result_view(results@[i])),
            logger@ == headed + Seq::new(i as nat, |k: int| result_entry(all[k])),
        decreases results.len() - i,
    {
        let ghost so_far = logger@;
        match &results[i] {
            Ok(file) => {
                let mut msg = "Parsed ".to_owned();
                msg.append(file.name.as_str());
                logger.log("validate_results", msg.as_str());
            },
            Err(e) => {
                logger.elog("validate_results", e.to_string().as_str());
            },
        }
        assert(logger@ == so_far.push(result_entry(all[i as int])));
        assert(logger@ =~= headed + Seq::new((i + 1) as nat, |k: int| result_entry(all[k])));
        i = i + 1;
    }
    assert(logger@ =~= before + parse_report(all));
}

/// Logs each of `errors` in full.
fn log_errors(logger: &mut Logger, file: &str, errors: &Vec<Error>)
    ensures
        final(logger)@ == old(logger)@ + error_entries(file@, views(errors@)),
{
    let ghost before = logger@;
    let mut i: usize = 0;
    assert(logger@ =~= before + error_entries(file@, views(errors@)).take(0));
    while i < errors.len()
        invariant
            i <= errors.len(),
            logger@ == before + error_entries(file@, views(errors@)).take(i as int),
        decreases errors.len() - i,
    {
        logger.elog(file, errors[i].to_string().as_str());
        assert(logger@ =~= before + error_entries(file@, views(errors@)).take(i + 1));
        i = i + 1;
    }
    assert(error_entries(file@, views(errors@)).take(errors.len() as int) =~= error_entries(
        file@,
        views(errors@),
    ));
}

/// Parses the files, groups those that parsed by module, emits one source
/// text for each group, collects all errors, and writes to the log what
/// happened: how each file ended, how many source texts there are, and
/// every error in full.
pub fn generate_bluebrick_bindings<F: Fn(&RootToken) -> Result<String, Error>>(
    files: Vec<BBFile>,
    emit: &F,
    logger: &mut Logger,
) -> (run: Generated)
    requires
        emits_all(emit),
    ensures
        exists|groups: Seq<ModuleGroup>, all: Seq<Seq<Result<String, Error>>>| #[trigger]
            generated(
                emit,
                views(files@),
                groups,
                all,
                views(run.files@),
                views(run.errors@),
                old(logger)@,
                final(logger)@,
            ),
{
    let ghost sources = views(files@);
    let ghost log_before = logger@;
    let results = parse_bb_bindings(files);
    assert(Seq::new(results@.len(), |i: int| result_view(results@[i])) =~= parsed_all(sources));
    log_results(logger, &results);
    let (tokens, mut errors) = validate_results(results);
    let ghost trees = views(tokens@);
    let (rust_files, mut later) = compute_rust(tokens, emit);
    let ghost (groups, all) = choose|groups: Seq<ModuleGroup>, all: Seq<Seq<Result<String, Error>>>|
        computed(emit, trees, groups, all, views(rust_files@), views(later@));
    let count = glue3("Generated ", decimal_text(rust_files.len()).as_str(), " files");
    logger.log("generated", count.as_str());
    log_errors(logger, "generated", &later);
    let ghost first = views(errors@);
    let ghost second = views(later@);
    errors.append(&mut later);
    proof {
        assert(views(errors@) =~= first + second);
        assert(logger@ =~= log_before + parse_report(parsed_all(sources)) + group_report(
            views(rust_files@).len(),
            second,
        ));
    }
    let run = Generated { files: rust_files, errors };
    proof {
        assert(generated(
            emit,
            sources,
            groups,
            all,
            views(run.files@),
            views(run.errors@),
            log_before,
            logger@,
        ));
    }
    run
}

/// A file that does not parse does not keep another file from being
/// generated: of one file in error and one file that parses and declares a
/// module, the unit of that module is made, the run has failed with the
/// error of the first file before any other, and the log tells of both
/// files.
pub proof fn lemma_one_bad_one_good<F: Fn(&RootToken) -> Result<String, Error>>(
    emit: &F,
    bad: BBFileView,
    good: BBFileView,
    groups: Seq<ModuleGroup>,
    all: Seq<Seq<Result<String, Error>>>,
    out_files: Seq<RustFileView>,
    out_errors: Seq<ErrorView>,
    log_before: Seq<LogEntryView>,
    log_after: Seq<LogEntryView>,
)
    requires
        parsed(bad) is Err,
        parsed(good) is Ok,
        module_key(parsed(good)->Ok_0) is Some,
        generated(emit, seq![bad, good], groups, all, out_files, out_errors, log_before, log_after),
    ensures
        out_files.len() == 1,
        out_files[0].name == parsed(good)->Ok_0.module()->0.name,
        out_files[0].path == parsed(good)->Ok_0.module()->0.path(),
        out_errors.len() > 0,
        out_errors[0] == parsed(bad)->Err_0,
        log_after.contains(result_entry(parsed(bad))),
        log_after.contains(result_entry(parsed(good))),
{
    let files = seq![bad, good];
    let results = parsed_all(files);
    let file = parsed(good)->Ok_0;
    let key = module_key(file)->0;
    assert(results =~= seq![parsed(bad), parsed(good)]);
    let first = seq![parsed(bad)];
    let none = Seq::<Result<FileView, ErrorView>>::empty();
    assert(results.drop_last() =~= first);
    assert(results.last() == parsed(good));
    assert(first.drop_last() =~= none);
    assert(first.last() == parsed(bad));
    assert(successes(none) =~= Seq::<FileView>::empty());
    assert(failures(none) =~= Seq::<ErrorView>::empty());
    assert(successes(first) =~= Seq::<FileView>::empty());
    assert(failures(first) =~= seq![parsed(bad)->Err_0]);
    assert(successes(results) =~= seq![file]);
    assert(failures(results) =~= seq![parsed(bad)->Err_0]);
    let one = seq![file];
    assert(one.drop_last() =~= Seq::<FileView>::empty());
    assert(one.last() == file);
    assert(group_keys(Seq::<FileView>::empty()) =~= Seq::<Seq<Seq<char>>>::empty());
    assert(group_keys(one) =~= seq![key]);
    assert(groups_of(one) =~= seq![group_of(one, key)]);
    assert(views(groups).len() == 1);
    assert(views(groups)[0] == group_of(one, key));
    assert(key.drop_last() =~= file.module()->0.parent_names());
    let report = parse_report(results);
    let offset = log_before.len() as int;
    assert(log_after[offset + 1] == report[1]);
    assert(log_after[offset + 2] == report[2]);
}

impl Generated {
    /// Whether the run succeeded: it did when no error arose, and otherwise
    /// it failed with the last error that arose.
    pub fn finish(self) -> (r: Result<(), Error>)
        ensures
            match r {
                Ok(_) => self.errors@.len() == 0,
                Err(e) => self.errors@.len() > 0 && e == self.errors@.last(),
            },
    {
        let mut errors = self.errors;
        match errors.pop() {
            Some(last) => Err(last),
            None => Ok(()),
        }
    }
}

} // verus!
