//! Source files and the program they form: every file that the entry file
//! imports, directly or not, keyed by its path.
use crate::ast::{all_well_formed, trees, Expression};
use crate::formatter::{append_list, format_list};
use crate::lexer::MAX_SOURCE_LEN;
use crate::parser::{program_at, ParseError, Parser};
use crate::text::str_eq;
use vstd::prelude::*;
use vstd::set_lib::lemma_len_subset;
use vstd::string::*;

verus! {

/// The path that names `name` in the directory of `base`.
pub uninterp spec fn sibling_path(base: Seq<char>, name: Seq<char>) -> Seq<char>;

/// Relies on `Path::with_file_name`: `base` with its last component replaced
/// by `name`; the result depends on the two texts alone.
#[verifier::external_body]
fn with_file_name(base: &str, name: &str) -> (r: String)
    ensures
        r@ == sibling_path(base@, name@),
{
    std::path::Path::new(base).with_file_name(name).to_string_lossy().into_owned()
}

/// The paths that `es` imports from, in order.
pub open spec fn depends_of(es: Seq<Expression>) -> Seq<Seq<char>>
    decreases es.len(),
{
    if es.len() == 0 {
        Seq::empty()
    } else {
        let rest = depends_of(es.drop_last());
        match es.last() {
            Expression::Import { path, .. } => rest.push(path@),
            Expression::ExportFromFile { path, .. } => rest.push(path@),
            _ => rest,
        }
    }
}

pub open spec fn views(v: Seq<String>) -> Seq<Seq<char>> {
    v.map_values(|s: String| s@)
}

#[derive(Debug)]
pub struct SourceFile {
    pub path: String,
    pub dependencies: Vec<String>,
    pub expressions: Vec<Expression>,
}

impl SourceFile {
    /// Parses `source`, the text of the file at `path`.
    pub fn new(path: String, source: &str) -> (r: Result<SourceFile, ParseError>)
        requires
            source@.len() <= MAX_SOURCE_LEN,
        ensures
            r is Ok <==> program_at(source@, 0) is Some,
            r matches Ok(f) ==> trees(f.expressions@) == program_at(source@, 0)->0,
            r matches Ok(f) ==> f.path@ == path@ && views(f.dependencies@) == depends_of(
                f.expressions@,
            ) && all_well_formed(f.expressions@),
    {
        let mut parser = Parser::from(source);
        match parser.parse() {
            Ok(expressions) => {
                let dependencies = Self::get_depends(&expressions);
                Ok(SourceFile { path, dependencies, expressions })
            },
            Err(e) => Err(e),
        }
    }

    /// The paths that the expressions import from, in order.
    pub fn get_depends(expressions: &Vec<Expression>) -> (r: Vec<String>)
        ensures
            views(r@) == depends_of(expressions@),
    {
        let mut r: Vec<String> = Vec::new();
        let mut i: usize = 0;
        while i < expressions.len()
            invariant
                i <= expressions@.len(),
                views(r@) == depends_of(expressions@.subrange(0, i as int)),
            decreases expressions.len() - i,
        {
            let ghost before = r@;
            proof {
                let s = expressions@.subrange(0, i + 1);
                assert(s.drop_last() =~= expressions@.subrange(0, i as int));
                assert(s.last() == expressions@[i as int]);
            }
            match &expressions[i] {
                Expression::Import { path, .. } => {
                    r.push(path.clone());
                    assert(views(r@) =~= views(before).push(path@));
                },
                Expression::ExportFromFile { path, .. } => {
                    r.push(path.clone());
                    assert(views(r@) =~= views(before).push(path@));
                },
                _ => {},
            }
            i = i + 1;
        }
        assert(expressions@.subrange(0, expressions@.len() as int) =~= expressions@);
        r
    }

    /// The file's expressions in canonical form, one after the other on
    /// separate lines.
    pub fn format(&self) -> (r: String)
        ensures
            r@ == format_list(self.expressions@, "\n"@),
    {
        let mut out = String::new();
        append_list(&mut out, &self.expressions, "\n");
        assert(out@ =~= Seq::<char>::empty() + format_list(self.expressions@, "\n"@));
        out
    }

    /// Checks beyond those of the parser; there are none yet.
    pub fn validate(&self) -> (r: bool)
        ensures
            r,
    {
        true
    }
}

/// The files of a program, each path at most once.
#[derive(Debug)]
pub struct Program {
    pub files: Vec<SourceFile>,
}

impl Program {
    /// The paths of the files, in the order they were added.
    pub open spec fn paths(&self) -> Seq<Seq<char>> {
        self.files@.map_values(|f: SourceFile| f.path@)
    }

    pub open spec fn wf(&self) -> bool {
        self.paths().no_duplicates()
    }

    /// Whether a file of the program has the path `p`.
    pub open spec fn has_path(&self, p: Seq<char>) -> bool {
        self.paths().contains(p)
    }

    /// Every import of every file, resolved next to the file that makes it,
    /// names a file of the program.
    pub open spec fn closed(&self) -> bool {
        forall|i: int, j: int|
            0 <= i < self.files@.len() && 0 <= j < self.files@[i].dependencies@.len()
                ==> self.has_path(
                sibling_path(self.files@[i].path@, #[trigger] self.files@[i].dependencies@[j]@),
            )
    }

    /// A program that holds the entry file alone.
    pub fn new(entry: SourceFile) -> (r: Program)
        ensures
            r.wf(),
            r.files@ == seq![entry],
    {
        let mut files: Vec<SourceFile> = Vec::new();
        files.push(entry);
        let r = Program { files };
        assert(r.paths().len() == 1);
        r
    }

    /// Whether a file of the program has the path `path`.
    pub fn contains(&self, path: &str) -> (r: bool)
        ensures
            r == self.has_path(path@),
    {
        let mut i: usize = 0;
        while i < self.files.len()
            invariant
                i <= self.files@.len(),
                forall|j: int| 0 <= j < i ==> self.files@[j].path@ != path@,
            decreases self.files.len() - i,
        {
            if str_eq(self.files[i].path.as_str(), path) {
                assert(self.paths()[i as int] == path@);
                return true;
            }
            i = i + 1;
        }
        assert forall|j: int| 0 <= j < self.paths().len() implies self.paths()[j] != path@ by {
            assert(self.paths()[j] == self.files@[j].path@);
        }
        false
    }

    /// A resolved import path that no file of the program has yet; `None`
    /// once every import is resolved.
    pub fn missing(&self) -> (r: Option<String>)
        ensures
            r matches Some(p) ==> !self.has_path(p@),
            r matches Some(p) ==> exists|i: int, j: int|
                0 <= i < self.files@.len() && 0 <= j < self.files@[i].dependencies@.len() && p@
                    == sibling_path(self.files@[i].path@, self.files@[i].dependencies@[j]@),
            r is None ==> self.closed(),
    {
        let mut i: usize = 0;
        while i < self.files.len()
            invariant
                i <= self.files@.len(),
                forall|a: int, b: int|
                    0 <= a < i && 0 <= b < self.files@[a].dependencies@.len() ==> self.has_path(
                        sibling_path(
                            self.files@[a].path@,
                            #[trigger] self.files@[a].dependencies@[b]@,
                        ),
                    ),
            decreases self.files.len() - i,
        {
            let file = &self.files[i];
            let mut j: usize = 0;
            while j < file.dependencies.len()
                invariant
                    i < self.files@.len(),
                    *file == self.files@[i as int],
                    j <= file.dependencies@.len(),
                    forall|a: int, b: int|
                        0 <= a < i && 0 <= b < self.files@[a].dependencies@.len()
                            ==> self.has_path(
                            sibling_path(
                                self.files@[a].path@,
                                #[trigger] self.files@[a].dependencies@[b]@,
                            ),
                        ),
                    forall|b: int|
                        0 <= b < j ==> self.has_path(
                            sibling_path(file.path@, #[trigger] file.dependencies@[b]@),
                        ),
                decreases file.dependencies.len() - j,
            {
                let p = with_file_name(file.path.as_str(), file.dependencies[j].as_str());
                if !self.contains(p.as_str()) {
                    assert(p@ == sibling_path(
                        self.files@[i as int].path@,
                        self.files@[i as int].dependencies@[j as int]@,
                    ));
                    return Some(p);
                }
                j = j + 1;
            }
            i = i + 1;
        }
        None
    }

    /// The position in `files` of a file with the path `path`, if any.
    fn find(files: &Vec<SourceFile>, path: &str) -> (r: Option<usize>)
        ensures
            r matches Some(j) ==> j < files@.len() && files@[j as int].path@ == path@,
            r is None ==> forall|j: int| 0 <= j < files@.len() ==> files@[j].path@ != path@,
    {
        let mut j: usize = 0;
        while j < files.len()
            invariant
                j <= files@.len(),
                forall|k: int| 0 <= k < j ==> files@[k].path@ != path@,
            decreases files.len() - j,
        {
            if str_eq(files[j].path.as_str(), path) {
                return Some(j);
            }
            j = j + 1;
        }
        None
    }

    /// Resolves every import, taking each file it needs from `available`:
    /// ends, cycles and self-imports included, with every import resolved,
    /// or with a path that neither the program nor `available` holds.
    pub fn resolve(&mut self, available: Vec<SourceFile>) -> (r: Option<String>)
        requires
            old(self).wf(),
        ensures
            final(self).wf(),
            r is None ==> final(self).closed(),
            r matches Some(p) ==> !final(self).has_path(p@),
            r matches Some(p) ==> forall|i: int|
                0 <= i < available@.len() ==> available@[i].path@ != p@,
    {
        let ghost given = available@;
        let mut rest = available;
        loop
            invariant
                self.wf(),
                given == available@,
                forall|i: int|
                    0 <= i < given.len() ==> self.has_path(#[trigger] given[i].path@) || exists|k: int|
                        0 <= k < rest@.len() && rest@[k].path@ == given[i].path@,
            decreases rest@.len(),
        {
            let p = match self.missing() {
                None => {
                    return None;
                },
                Some(p) => p,
            };
            match Self::find(&rest, p.as_str()) {
                None => {
                    assert forall|i: int| 0 <= i < given.len() implies given[i].path@ != p@ by {
                        if given[i].path@ == p@ && !self.has_path(given[i].path@) {
                            let k = choose|k: int|
                                0 <= k < rest@.len() && rest@[k].path@ == given[i].path@;
                            assert(rest@[k].path@ != p@);
                        }
                    }
                    return Some(p);
                },
                Some(j) => {
                    let ghost before = rest@;
                    let file = rest.remove(j);
                    assert(file.path@ == p@);
                    let ghost old_self = *self;
                    self.add_file(file);
                    assert forall|i: int| 0 <= i < given.len() implies self.has_path(
                        #[trigger] given[i].path@,
                    ) || exists|k: int| 0 <= k < rest@.len() && rest@[k].path@ == given[i].path@ by {
                        if old_self.has_path(given[i].path@) {
                            let m = choose|m: int| 0 <= m < old_self.paths().len() && old_self.paths()[m] == given[i].path@;
                            assert(self.paths()[m] == given[i].path@);
                        } else {
                            let k = choose|k: int| 0 <= k < before.len() && before[k].path@ == given[i].path@;
                            if k == j {
                                assert(self.paths()[self.paths().len() - 1] == p@);
                            } else if k < j {
                                assert(rest@[k] == before[k]);
                            } else {
                                assert(rest@[k - 1] == before[k]);
                            }
                        }
                    }
                },
            }
        }
    }

    /// Adds a file whose path the program does not hold yet.
    pub fn add_file(&mut self, file: SourceFile)
        requires
            old(self).wf(),
            !old(self).has_path(file.path@),
        ensures
            final(self).wf(),
            final(self).files@ == old(self).files@.push(file),
            final(self).paths() == old(self).paths().push(file.path@),
    {
        let ghost p = file.path@;
        self.files.push(file);
        assert(self.paths() =~= old(self).paths().push(p));
        assert forall|a: int, b: int|
            0 <= a < self.paths().len() && 0 <= b < self.paths().len() && a != b implies self.paths()[a]
            != self.paths()[b] by {
            if a == self.paths().len() - 1 {
                assert(old(self).paths().contains(self.paths()[b]) ==> self.paths()[b] != p);
                assert(self.paths()[b] == old(self).paths()[b]);
            } else if b == self.paths().len() - 1 {
                assert(self.paths()[a] == old(self).paths()[a]);
            }
        }
    }

    /// Checks every file, as `SourceFile::validate` does; the results come
    /// in the order of the files.
    pub fn validate(&self) -> (r: Vec<bool>)
        ensures
            r@.len() == self.files@.len(),
            forall|i: int| 0 <= i < r@.len() ==> r@[i],
    {
        let mut r: Vec<bool> = Vec::new();
        let mut i: usize = 0;
        while i < self.files.len()
            invariant
                i <= self.files@.len(),
                r@.len() == i,
                forall|j: int| 0 <= j < i ==> r@[j],
            decreases self.files.len() - i,
        {
            r.push(self.files[i].validate());
            i = i + 1;
        }
        r
    }
}

/// Resolution ends on every input, cycles and self-imports included: each
/// file added has a path that the program did not hold, so a program whose
/// paths all come from a finite set of loadable paths holds at most as many
/// files as that set has members, and `add_file` can be called only so often.
pub proof fn lemma_resolution_bounded(p: &Program, loadable: Set<Seq<char>>)
    requires
        p.wf(),
        loadable.finite(),
        forall|i: int| 0 <= i < p.files@.len() ==> loadable.contains(#[trigger] p.files@[i].path@),
    ensures
        p.files@.len() <= loadable.len(),
{
    let s = p.paths();
    s.unique_seq_to_set();
    assert forall|x: Seq<char>| s.to_set().contains(x) implies loadable.contains(x) by {
        let i = choose|i: int| 0 <= i < s.len() && s[i] == x;
        assert(s[i] == p.files@[i].path@);
    }
    lemma_len_subset(s.to_set(), loadable);
}

} // verus!
