//! Reading text into a document, line by line.
//!
//! A document never reads a file itself. The texts of the files that
//! `@import` and `@derive` may name are handed in as a table from path
//! to text. While a file is being read it is taken out of that table,
//! so a file that names itself, directly or through others, is
//! reported as unreadable where it does so.

use vstd::prelude::*;
use vstd::string::StringExecFns;
use vstd::string::StrSliceExecFns;
use super::{AAML, DocModel};
use super::parsing::{
    block_is_complete, block_is_complete_spec, needs_accumulation, needs_accumulation_spec,
    parse_assignment, parse_assignment_spec, strip_comment, strip_comment_spec,
    unwrap_quotes_spec,
};
use super::validation::{against_schemas_spec, completeness_for_spec, schema_names_spec};
use crate::commands::Command;
use crate::commands::derive::{DeriveArg, parse_derive_arg_spec};
use crate::commands::schema::{SchemaModel, parse_schema_spec};
use crate::commands::typecm::parse_type_spec;
use crate::error::{AamlError, ErrorModel, outcome};
use crate::table::{Table, lemma_without_shorter, lookup, put, put_absent, without};
use crate::text::{
    as_strs, char_is_space, chars_of, is_space, join3, push_char, slices, split_chars,
    split_from, split_on, texts, trim, trim_str,
};

verus! {

/// A document after a step of reading, and how the step ended. After
/// a failure the document holds what was read before it.
pub struct Step {
    pub doc: DocModel,
    pub result: Result<(), ErrorModel>,
}

/// A step that succeeded and left `doc`.
pub open spec fn done(doc: DocModel) -> Step {
    Step { doc, result: Ok(()) }
}

/// A step that failed with `e` and left `doc`.
pub open spec fn failed(doc: DocModel, e: ErrorModel) -> Step {
    Step { doc, result: Err(e) }
}

/// The lines of a text: what stands between line feeds. A line feed
/// at the very end closes the last line and opens no new one.
pub open spec fn lines_of(content: Seq<char>) -> Seq<Seq<char>> {
    let pieces = split_on(content, '\n');
    if pieces.len() > 0 && pieces.last().len() == 0 {
        pieces.drop_last()
    } else {
        pieces
    }
}

/// `into` with every entry of `from[i..]` whose key it does not hold
/// yet, in the order of `from`.
pub open spec fn absorb<T>(into: Seq<(Seq<char>, T)>, from: Seq<(Seq<char>, T)>, i: int) -> Seq<
    (Seq<char>, T),
>
    decreases from.len() - i,
{
    if i < 0 || i >= from.len() {
        into
    } else {
        absorb(put_absent(into, from[i].0, from[i].1), from, i + 1)
    }
}

/// The schemas after a selection, and whether every selector was found.
pub struct Picked {
    pub schemas: Seq<(Seq<char>, SchemaModel)>,
    pub result: Result<(), ErrorModel>,
}

/// The error for a selector that names no schema of the base.
pub open spec fn selector_missing(selector: Seq<char>, path: Seq<char>) -> ErrorModel {
    ErrorModel::Directive("derive"@, "Schema '"@ + selector + "' not found in '"@ + path + "'"@)
}

/// `into` with the schemas of `base` that `selectors[i..]` name,
/// each taken only where `into` has none of that name. The first
/// selector that names no schema of `base` ends the selection.
pub open spec fn select_spec(
    into: Seq<(Seq<char>, SchemaModel)>,
    base: Seq<(Seq<char>, SchemaModel)>,
    selectors: Seq<Seq<char>>,
    path: Seq<char>,
    i: int,
) -> Picked
    decreases selectors.len() - i,
{
    if i < 0 || i >= selectors.len() {
        Picked { schemas: into, result: Ok(()) }
    } else {
        match lookup(base, selectors[i]) {
            None => Picked { schemas: into, result: Err(selector_missing(selectors[i], path)) },
            Some(schema) => select_spec(
                put_absent(into, selectors[i], schema),
                base,
                selectors,
                path,
                i + 1,
            ),
        }
    }
}

/// What a document takes over from a base document: the schemas (all,
/// or the selected ones) and all keys, each only where the document
/// has none of that name; then the schemas that the document had
/// before must be complete.
pub open spec fn inherit_spec(doc: DocModel, base: DocModel, arg: DeriveArg) -> Step {
    let own = schema_names_spec(doc);
    let picked = if arg.selectors.len() == 0 {
        Picked { schemas: absorb(doc.schemas, base.schemas, 0), result: Ok(()) }
    } else {
        select_spec(doc.schemas, base.schemas, arg.selectors, arg.path, 0)
    };
    match picked.result {
        Err(e) => failed(doc.with_schemas(picked.schemas), e),
        Ok(_) => {
            let merged = doc.with_schemas(picked.schemas).with_map(absorb(doc.map, base.map, 0));
            Step { doc: merged, result: completeness_for_spec(merged, own, 0) }
        },
    }
}

/// The error for a malformed line.
pub open spec fn parse_error(line: nat, content: Seq<char>, details: Seq<char>) -> ErrorModel {
    ErrorModel::Parse { line, content, details }
}

/// The document after the assignment `line`: the value is validated
/// against the schemas and then stored under the key, in place of any
/// value the key had.
pub open spec fn process_assignment_spec(doc: DocModel, line: Seq<char>, n: nat) -> Step {
    match parse_assignment_spec(line) {
        Err(details) => failed(doc, parse_error(n, line, details)),
        Ok((key, value)) => match against_schemas_spec(doc, key, value, 0) {
            Err(e) => failed(doc, e),
            Ok(_) => done(doc.with_map(put(doc.map, key, value))),
        },
    }
}

/// The document after `@schema args`.
pub open spec fn schema_directive_spec(doc: DocModel, args: Seq<char>) -> Step {
    match parse_schema_spec(args) {
        Err(e) => failed(doc, e),
        Ok((name, schema)) => done(doc.with_schemas(put(doc.schemas, name, schema))),
    }
}

/// The document after `@type args`.
pub open spec fn type_directive_spec(doc: DocModel, args: Seq<char>) -> Step {
    match parse_type_spec(args) {
        Err(e) => failed(doc, e),
        Ok((name, def)) => done(doc.with_types(put(doc.types, name, def))),
    }
}

/// Index of the first white-space character at or after `i`; the
/// length of `s` where there is none.
pub open spec fn find_space(s: Seq<char>, i: int) -> int
    decreases s.len() - i,
{
    if i < 0 || i >= s.len() {
        s.len() as int
    } else if is_space(s[i]) {
        i
    } else {
        find_space(s, i + 1)
    }
}

/// The name of a directive: what stands before the first white space.
pub open spec fn directive_name(content: Seq<char>) -> Seq<char> {
    trim(content.take(find_space(content, 0)))
}

/// The arguments of a directive: what stands after the first white
/// space.
pub open spec fn directive_args(content: Seq<char>) -> Seq<char> {
    let p = find_space(content, 0);
    if p < content.len() {
        content.skip(p + 1)
    } else {
        Seq::empty()
    }
}

/// The detail of the error for a directive that is not registered.
pub open spec fn unknown_directive(name: Seq<char>) -> Seq<char> {
    "Unknown directive: @"@ + name
}

/// The document after the text `content` is merged into `doc`.
pub open spec fn merge_spec(
    doc: DocModel,
    content: Seq<char>,
    files: Seq<(Seq<char>, Seq<char>)>,
) -> Step
    decreases files.len(), 6nat, 0nat,
{
    merge_lines_spec(doc, lines_of(content), 0, None, files)
}

/// The document after the lines from the `i`-th on, where `pending`
/// holds the directive that is being gathered and the number of the
/// line it began at. At the end of the text a directive that is still
/// open is processed as it stands.
pub open spec fn merge_lines_spec(
    doc: DocModel,
    lines: Seq<Seq<char>>,
    i: int,
    pending: Option<(Seq<char>, nat)>,
    files: Seq<(Seq<char>, Seq<char>)>,
) -> Step
    decreases files.len(), 5nat, lines.len() - i,
{
    if i < 0 || i >= lines.len() {
        match pending {
            Some((buf, start)) => process_line_spec(doc, buf, start, files),
            None => done(doc),
        }
    } else {
        let g = accumulate_spec(doc, lines[i], (i + 1) as nat, pending, files);
        match g.step.result {
            Err(_) => g.step,
            Ok(_) => match g.ready {
                None => merge_lines_spec(g.step.doc, lines, i + 1, g.pending, files),
                Some((buf, start)) => {
                    let s = process_line_spec(g.step.doc, buf, start, files);
                    match s.result {
                        Err(_) => s,
                        Ok(_) => merge_lines_spec(s.doc, lines, i + 1, g.pending, files),
                    }
                },
            },
        }
    }
}

/// What one line of the text leads to.
pub struct Gathered {
    /// The document after the line.
    pub step: Step,
    /// The directive that is still being gathered.
    pub pending: Option<(Seq<char>, nat)>,
    /// A gathered directive that this line completed.
    pub ready: Option<(Seq<char>, nat)>,
}

/// One line of the text: it is joined to the directive that is being
/// gathered, or opens one, or is processed.
pub open spec fn accumulate_spec(
    doc: DocModel,
    line: Seq<char>,
    n: nat,
    pending: Option<(Seq<char>, nat)>,
    files: Seq<(Seq<char>, Seq<char>)>,
) -> Gathered
    decreases files.len(), 4nat, 0nat,
{
    let stripped = trim(strip_comment_spec(line));
    match pending {
        Some((buf, start)) => {
            let joined = buf.push(' ') + stripped;
            if block_is_complete_spec(joined) {
                Gathered { step: done(doc), pending: None, ready: Some((joined, start)) }
            } else {
                Gathered { step: done(doc), pending: Some((joined, start)), ready: None }
            }
        },
        None => if needs_accumulation_spec(stripped) {
            Gathered { step: done(doc), pending: Some((stripped, n)), ready: None }
        } else {
            Gathered { step: process_line_spec(doc, line, n, files), pending: None, ready: None }
        },
    }
}

/// The document after one logical line: nothing for a blank line or a
/// comment, a directive after `@`, an assignment otherwise.
pub open spec fn process_line_spec(
    doc: DocModel,
    raw: Seq<char>,
    n: nat,
    files: Seq<(Seq<char>, Seq<char>)>,
) -> Step
    decreases files.len(), 3nat, 0nat,
{
    let line = trim(strip_comment_spec(raw));
    if line.len() == 0 {
        done(doc)
    } else if line[0] == '@' {
        process_directive_spec(doc, line.skip(1), n, files)
    } else {
        process_assignment_spec(doc, line, n)
    }
}

/// The document after the directive `content` (the line without `@`).
pub open spec fn process_directive_spec(
    doc: DocModel,
    content: Seq<char>,
    n: nat,
    files: Seq<(Seq<char>, Seq<char>)>,
) -> Step
    decreases files.len(), 2nat, 0nat,
{
    let name = directive_name(content);
    if name.len() == 0 {
        failed(doc, parse_error(n, content, "Empty directive"@))
    } else {
        match lookup(doc.commands, name) {
            None => failed(doc, parse_error(n, content, unknown_directive(name))),
            Some(c) => execute_spec(c, doc, directive_args(content), files),
        }
    }
}

/// The document after the handler `c` has run on `args`.
pub open spec fn execute_spec(
    c: Command,
    doc: DocModel,
    args: Seq<char>,
    files: Seq<(Seq<char>, Seq<char>)>,
) -> Step
    decreases files.len(), 1nat, 0nat,
{
    match c {
        Command::Import(_) => import_spec(doc, args, files),
        Command::Derive(_) => derive_spec(doc, args, files),
        Command::Schema(_) => schema_directive_spec(doc, args),
        Command::Type(_) => type_directive_spec(doc, args),
    }
}

/// An error of the `@import` directive.
pub open spec fn import_error(msg: Seq<char>) -> ErrorModel {
    ErrorModel::Directive("import"@, msg)
}

/// An error of the `@derive` directive.
pub open spec fn derive_error(msg: Seq<char>) -> ErrorModel {
    ErrorModel::Directive("derive"@, msg)
}

/// The document after `@import args`: the named file is merged into
/// the document itself.
pub open spec fn import_spec(
    doc: DocModel,
    args: Seq<char>,
    files: Seq<(Seq<char>, Seq<char>)>,
) -> Step
    decreases files.len(), 0nat, 0nat,
{
    let raw = trim(args);
    if raw.len() == 0 {
        failed(doc, import_error("Import path cannot be empty"@))
    } else {
        let path = unwrap_quotes_spec(raw);
        match lookup(files, path) {
            None => failed(doc, ErrorModel::Io(path)),
            Some(text) => {
                proof {
                    lemma_without_shorter(files, path);
                }
                merge_spec(doc, text, without(files, path))
            },
        }
    }
}

/// The document after `@derive args`: the named file is read into a
/// document of its own, from which `doc` then inherits.
pub open spec fn derive_spec(
    doc: DocModel,
    args: Seq<char>,
    files: Seq<(Seq<char>, Seq<char>)>,
) -> Step
    decreases files.len(), 0nat, 0nat,
{
    let raw = trim(args);
    if raw.len() == 0 {
        failed(doc, derive_error("Missing file path"@))
    } else {
        let arg = parse_derive_arg_spec(raw);
        match lookup(files, arg.path) {
            None => failed(doc, ErrorModel::Io(arg.path)),
            Some(text) => {
                proof {
                    lemma_without_shorter(files, arg.path);
                }
                let base = merge_spec(DocModel::empty(), text, without(files, arg.path));
                match base.result {
                    Err(e) => failed(doc, e),
                    Ok(_) => inherit_spec(doc, base.doc, arg),
                }
            },
        }
    }
}

/// What a pending directive stands for in specifications.
pub open spec fn pending_view(p: Option<(String, usize)>) -> Option<(Seq<char>, nat)> {
    match p {
        Some((buf, start)) => Some((buf@, start as nat)),
        None => None,
    }
}

/// A split yields at least one piece more than were closed before.
pub proof fn lemma_split_not_empty(s: Seq<char>, sep: char, i: int, start: int, acc: Seq<Seq<char>>)
    requires
        0 <= i <= s.len(),
    ensures
        split_from(s, sep, i, start, acc).len() > acc.len(),
    decreases s.len() - i,
{
    if i < s.len() {
        if s[i] == sep {
            lemma_split_not_empty(s, sep, i + 1, i + 1, acc.push(s.subrange(start, i)));
        } else {
            lemma_split_not_empty(s, sep, i + 1, start, acc);
        }
    }
}

/// Splits a text into its lines.
pub fn split_lines(content: &str) -> (r: Vec<String>)
    ensures
        texts(r@) == lines_of(content@),
{
    let mut pieces = split_chars(content, '\n');
    proof {
        lemma_split_not_empty(content@, '\n', 0, 0, Seq::empty());
    }
    let n: usize = pieces.len();
    proof {
        assert(texts(pieces@).last() == pieces@[n - 1]@);
    }
    if pieces[n - 1].as_str().unicode_len() == 0 {
        let ghost before = pieces@;
        let _ = pieces.pop();
        proof {
            assert(texts(pieces@) =~= texts(before).drop_last());
        }
    }
    pieces
}

impl AAML {
    /// Takes over from `base` every key that this document does not
    /// hold.
    pub fn absorb_map(&mut self, base: &AAML)
        ensures
            final(self)@ == old(self)@.with_map(absorb(old(self)@.map, base@.map, 0)),
    {
        let n: usize = base.map.len();
        let mut i: usize = 0;
        while i < n
            invariant
                i <= n,
                n == base@.map.len(),
                self@ == old(self)@.with_map(self@.map),
                absorb(old(self)@.map, base@.map, 0) == absorb(self@.map, base@.map, i as int),
            decreases n - i,
        {
            self.map.insert_absent(base.map.key_at(i).clone(), base.map.value_at(i).clone());
            i += 1;
        }
    }

    /// Takes over from `base` every schema whose name this document
    /// does not hold.
    pub fn absorb_schemas(&mut self, base: &AAML)
        ensures
            final(self)@ == old(self)@.with_schemas(
                absorb(old(self)@.schemas, base@.schemas, 0),
            ),
    {
        let n: usize = base.schemas.len();
        let mut i: usize = 0;
        while i < n
            invariant
                i <= n,
                n == base@.schemas.len(),
                self@ == old(self)@.with_schemas(self@.schemas),
                absorb(old(self)@.schemas, base@.schemas, 0) == absorb(
                    self@.schemas,
                    base@.schemas,
                    i as int,
                ),
            decreases n - i,
        {
            self.schemas.insert_absent(
                base.schemas.key_at(i).clone(),
                base.schemas.value_at(i).duplicate(),
            );
            i += 1;
        }
    }

    /// Takes over from `base` the schemas that `selectors` name, each
    /// where this document holds none of that name.
    pub fn absorb_selected(&mut self, base: &AAML, selectors: &[&str], path: &str) -> (r:
        Result<(), AamlError>)
        ensures
            final(self)@ == old(self)@.with_schemas(
                select_spec(old(self)@.schemas, base@.schemas, slices(selectors@), path@, 0).schemas,
            ),
            outcome(r) == select_spec(
                old(self)@.schemas,
                base@.schemas,
                slices(selectors@),
                path@,
                0,
            ).result,
    {
        let n: usize = selectors.len();
        let mut i: usize = 0;
        while i < n
            invariant
                i <= n,
                n == selectors@.len(),
                self@ == old(self)@.with_schemas(self@.schemas),
                select_spec(old(self)@.schemas, base@.schemas, slices(selectors@), path@, 0)
                    == select_spec(self@.schemas, base@.schemas, slices(selectors@), path@, i as int),
            decreases n - i,
        {
            let selector = selectors[i];
            proof {
                assert(slices(selectors@)[i as int] == selectors@[i as int]@);
            }
            match base.schemas.get(selector) {
                None => {
                    let mut msg = join3("Schema '", selector, "' not found in '");
                    msg.append(path);
                    msg.append("'");
                    return Err(AamlError::DirectiveError(String::from_str("derive"), msg));
                },
                Some(schema) => {
                    self.schemas.insert_absent(String::from_str(selector), schema.duplicate());
                },
            }
            i += 1;
        }
        Ok(())
    }

    /// Inherits from `base`: its schemas (all, or those that
    /// `selectors` name) and all its keys, each only where this
    /// document has none of that name; then checks that the schemas
    /// this document had before are complete.
    pub fn inherit(&mut self, base: &AAML, selectors: &[&str], path: &str) -> (r: Result<
        (),
        AamlError,
    >)
        ensures
            final(self)@ == inherit_spec(
                old(self)@,
                base@,
                DeriveArg { path: path@, selectors: slices(selectors@) },
            ).doc,
            outcome(r) == inherit_spec(
                old(self)@,
                base@,
                DeriveArg { path: path@, selectors: slices(selectors@) },
            ).result,
    {
        let own = self.schema_names();
        if selectors.len() == 0 {
            self.absorb_schemas(base);
        } else {
            match self.absorb_selected(base, selectors, path) {
                Ok(_) => {},
                Err(e) => {
                    return Err(e);
                },
            }
        }
        self.absorb_map(base);
        let own = as_strs(&own);
        self.validate_schemas_completeness_for(own.as_slice())
    }

    /// Merges `content` into the document. No file can be read:
    /// `@import` and `@derive` fail on the file they name.
    pub fn merge_content(&mut self, content: &str) -> (r: Result<(), AamlError>)
        ensures
            final(self)@ == merge_spec(old(self)@, content@, Seq::empty()).doc,
            outcome(r) == merge_spec(old(self)@, content@, Seq::empty()).result,
    {
        let files: Table<String> = Table::new();
        self.merge_with(content, &files)
    }

    /// Merges `content` into the document; `files` holds the text of
    /// each file that a directive may name, by path.
    ///
    /// Lines are processed in order. The first error ends the merge;
    /// what was merged before it stays.
    pub fn merge_with(&mut self, content: &str, files: &Table<String>) -> (r: Result<
        (),
        AamlError,
    >)
        ensures
            final(self)@ == merge_spec(old(self)@, content@, files@).doc,
            outcome(r) == merge_spec(old(self)@, content@, files@).result,
        decreases files@.len(), 6nat, 0nat,
    {
        let lines = split_lines(content);
        let n: usize = lines.len();
        let mut pending: Option<(String, usize)> = None;
        let mut i: usize = 0;
        while i < n
            invariant
                i <= n,
                n == lines@.len(),
                texts(lines@) == lines_of(content@),
                merge_spec(old(self)@, content@, files@) == merge_lines_spec(
                    self@,
                    texts(lines@),
                    i as int,
                    pending_view(pending),
                    files@,
                ),
            decreases n - i,
        {
            proof {
                assert(texts(lines@)[i as int] == lines@[i as int]@);
            }
            let (next, ready) = match self.accumulate_or_process(
                lines[i].as_str(),
                i + 1,
                pending,
                files,
            ) {
                Ok(g) => g,
                Err(e) => {
                    return Err(e);
                },
            };
            pending = next;
            if let Some((buf, start)) = ready {
                match self.process_line(buf.as_str(), start, files) {
                    Ok(_) => {},
                    Err(e) => {
                        return Err(e);
                    },
                }
            }
            i += 1;
        }
        match pending {
            Some((buf, start)) => self.process_line(buf.as_str(), start, files),
            None => Ok(()),
        }
    }

    /// Handles one line of the text: joins it to the directive that is
    /// being gathered, or opens one, or processes the line. Returns the
    /// directive that is still open and the directive that the line
    /// completed.
    pub fn accumulate_or_process(
        &mut self,
        line: &str,
        line_num: usize,
        pending: Option<(String, usize)>,
        files: &Table<String>,
    ) -> (r: Result<(Option<(String, usize)>, Option<(String, usize)>), AamlError>)
        ensures
            final(self)@ == accumulate_spec(
                old(self)@,
                line@,
                line_num as nat,
                pending_view(pending),
                files@,
            ).step.doc,
            match r {
                Ok((next, ready)) => {
                    let g = accumulate_spec(
                        old(self)@,
                        line@,
                        line_num as nat,
                        pending_view(pending),
                        files@,
                    );
                    g.step.result is Ok && g.pending == pending_view(next) && g.ready
                        == pending_view(ready)
                },
                Err(e) => accumulate_spec(
                    old(self)@,
                    line@,
                    line_num as nat,
                    pending_view(pending),
                    files@,
                ).step.result == Err::<(), _>(e@),
            },
        decreases files@.len(), 4nat, 0nat,
    {
        let stripped = trim_str(strip_comment(line));
        match pending {
            Some((buf, start)) => {
                let mut joined = buf;
                push_char(&mut joined, ' ');
                joined.append(stripped);
                if block_is_complete(joined.as_str()) {
                    Ok((None, Some((joined, start))))
                } else {
                    Ok((Some((joined, start)), None))
                }
            },
            None => {
                if needs_accumulation(stripped) {
                    Ok((Some((String::from_str(stripped), line_num)), None))
                } else {
                    match self.process_line(line, line_num, files) {
                        Ok(_) => Ok((None, None)),
                        Err(e) => Err(e),
                    }
                }
            },
        }
    }

    /// Processes one logical line: a blank line or a comment does
    /// nothing, a line that starts with `@` is a directive, any other
    /// an assignment.
    pub fn process_line(&mut self, raw_line: &str, line_num: usize, files: &Table<String>) -> (r:
        Result<(), AamlError>)
        ensures
            final(self)@ == process_line_spec(old(self)@, raw_line@, line_num as nat, files@).doc,
            outcome(r) == process_line_spec(old(self)@, raw_line@, line_num as nat, files@).result,
        decreases files@.len(), 3nat, 0nat,
    {
        let line = trim_str(strip_comment(raw_line));
        let cs = chars_of(line);
        if cs.len() == 0 {
            return Ok(());
        }
        if cs[0] == '@' {
            proof {
                assert(line@.subrange(1, cs@.len() as int) =~= line@.skip(1));
            }
            return self.process_directive(line.substring_char(1, cs.len()), line_num, files);
        }
        self.process_assignment(line, line_num)
    }

    /// Processes `key = value`: the value is validated against the
    /// first schema that declares the key, then stored under the key.
    pub fn process_assignment(&mut self, line: &str, line_num: usize) -> (r: Result<(), AamlError>)
        ensures
            final(self)@ == process_assignment_spec(old(self)@, line@, line_num as nat).doc,
            outcome(r) == process_assignment_spec(old(self)@, line@, line_num as nat).result,
    {
        match parse_assignment(line) {
            Ok((key, value)) => {
                match self.validate_against_schemas(key, value) {
                    Ok(_) => {},
                    Err(e) => {
                        return Err(e);
                    },
                }
                self.map.insert(String::from_str(key), String::from_str(value));
                Ok(())
            },
            Err(details) => Err(
                AamlError::ParseError {
                    line: line_num,
                    content: String::from_str(line),
                    details: String::from_str(details),
                },
            ),
        }
    }

    /// Processes a directive: `content` is the line without its `@`.
    pub fn process_directive(&mut self, content: &str, line_num: usize, files: &Table<String>) -> (r:
        Result<(), AamlError>)
        ensures
            final(self)@ == process_directive_spec(
                old(self)@,
                content@,
                line_num as nat,
                files@,
            ).doc,
            outcome(r) == process_directive_spec(
                old(self)@,
                content@,
                line_num as nat,
                files@,
            ).result,
        decreases files@.len(), 2nat, 0nat,
    {
        let cs = chars_of(content);
        let n: usize = cs.len();
        let mut p: usize = 0;
        while p < n && !char_is_space(cs[p])
            invariant
                p <= n,
                n == cs@.len(),
                cs@ == content@,
                find_space(content@, 0) == find_space(content@, p as int),
            decreases n - p,
        {
            p += 1;
        }
        proof {
            assert(content@.subrange(0, p as int) =~= content@.take(p as int));
        }
        let name = trim_str(content.substring_char(0, p));
        let args = if p < n {
            proof {
                assert(content@.subrange(p + 1, n as int) =~= content@.skip(p + 1));
            }
            content.substring_char(p + 1, n)
        } else {
            proof {
                assert(content@.subrange(n as int, n as int) =~= Seq::<char>::empty());
            }
            content.substring_char(n, n)
        };
        if name.unicode_len() == 0 {
            return Err(
                AamlError::ParseError {
                    line: line_num,
                    content: String::from_str(content),
                    details: String::from_str("Empty directive"),
                },
            );
        }
        let command = match self.commands.get(name) {
            Some(c) => *c,
            None => {
                let mut msg = String::from_str("Unknown directive: @");
                msg.append(name);
                return Err(
                    AamlError::ParseError {
                        line: line_num,
                        content: String::from_str(content),
                        details: msg,
                    },
                );
            },
        };
        command.execute(self, args, files)
    }

    /// Reads a document from `content`. No file can be read: `@import`
    /// and `@derive` fail on the file they name.
    pub fn parse(content: &str) -> (r: Result<AAML, AamlError>)
        ensures
            match r {
                Ok(doc) => merge_spec(DocModel::empty(), content@, Seq::empty()) == done(doc@),
                Err(e) => merge_spec(DocModel::empty(), content@, Seq::empty()).result == Err::<
                    (),
                    _,
                >(e@),
            },
    {
        let files: Table<String> = Table::new();
        AAML::parse_with(content, &files)
    }

    /// Reads a document from `content`; `files` holds the text of each
    /// file that a directive may name, by path.
    pub fn parse_with(content: &str, files: &Table<String>) -> (r: Result<AAML, AamlError>)
        ensures
            match r {
                Ok(doc) => merge_spec(DocModel::empty(), content@, files@) == done(doc@),
                Err(e) => merge_spec(DocModel::empty(), content@, files@).result == Err::<(), _>(
                    e@,
                ),
            },
    {
        let mut aaml = AAML::new();
        match aaml.merge_with(content, files) {
            Ok(_) => Ok(aaml),
            Err(e) => Err(e),
        }
    }
}

} // verus!
