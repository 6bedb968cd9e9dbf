//! The server's filesystem sandbox.
//!
//! Every path a client can reach is resolved beneath a single root directory. Tools take
//! **symbols** (`"AAPL"`) rather than paths, so a model works in the vocabulary `ls` already gives
//! it; a relative path is still accepted for convenience, but anything that escapes the root after
//! canonicalization is rejected. This is the whole reason the server can be handed to an agent
//! without also handing it the filesystem.
//!
//! What a path is made of is told by its components; what lies on disk is told by whoever looks.
use vstd::prelude::*;

use crate::grouping::{place, Side};
use crate::settings::AnalysisConfig;
use crate::text::{chars_of, same, text_of};
use crate::tokens::lowered;

verus! {

/// One component of a path.
#[derive(Debug)]
pub enum Component {
    /// A drive or a share.
    Prefix(String),
    /// The root of the filesystem.
    RootDir,
    /// `.`
    CurDir,
    /// `..`
    ParentDir,
    /// The name of a file or directory.
    Normal(String),
}

/// One component of a path, its name as text.
pub enum Part {
    Prefix(Seq<char>),
    RootDir,
    CurDir,
    ParentDir,
    Normal(Seq<char>),
}

impl View for Component {
    type V = Part;

    open spec fn view(&self) -> Part {
        match self {
            Component::Prefix(name) => Part::Prefix(name@),
            Component::RootDir => Part::RootDir,
            Component::CurDir => Part::CurDir,
            Component::ParentDir => Part::ParentDir,
            Component::Normal(name) => Part::Normal(name@),
        }
    }
}

pub open spec fn parts(components: Seq<Component>) -> Seq<Part> {
    components.map_values(|c: Component| c@)
}

/// Why a token is refused.
#[derive(Debug, Clone, Copy, PartialEq, Eq, Structural)]
pub enum RootError {
    /// It is an absolute path.
    Absolute,
    /// It leads out of the root.
    Escapes,
    /// There is no file or symbol of that name under the root.
    Missing,
    /// There is no file under the root at all.
    Empty,
    /// It stands for so many files where one is asked for.
    ManyFiles(usize),
}

/// What lies at a path.
#[derive(Debug, Clone, Copy, PartialEq, Eq, Structural)]
pub enum Found {
    Directory,
    File,
    Nothing,
}

/// What a token stands for.
#[derive(Debug, Clone, Copy, PartialEq, Eq, Structural)]
pub enum Located {
    /// The files of a directory.
    Directory,
    /// The file at the token's own path.
    File,
    /// The file `<token>.fwob`.
    Symbol,
}

/// A canonical directory that bounds every path the server will open.
#[derive(Debug)]
pub struct Root {
    dir: Vec<Component>,
}

/// Where the root is: the directory given, else the config's, else the current one.
pub fn root_candidate(explicit: &Option<String>, config: &AnalysisConfig) -> (r: String)
    ensures
        r@ == match crate::commands::either(
            crate::commands::opt_text(*explicit),
            crate::commands::opt_text(config.output_dir),
        ) {
            Some(dir) => dir,
            None => "."@,
        },
{
    match explicit {
        Some(dir) => dir.clone(),
        None => match &config.output_dir {
            Some(dir) => dir.clone(),
            None => ".".to_owned(),
        },
    }
}

/// Whether a component leads out of where it stands.
pub open spec fn steps_out(part: Part) -> bool {
    part is ParentDir || part is Prefix
}

/// Whether one path lies under another.
pub open spec fn lies_under(path: Seq<Part>, dir: Seq<Part>) -> bool {
    dir.len() <= path.len() && path.take(dir.len() as int) == dir
}

fn same_component(a: &Component, b: &Component) -> (r: bool)
    ensures
        r == (a@ == b@),
{
    match (a, b) {
        (Component::Prefix(x), Component::Prefix(y)) => same(x.as_str(), y.as_str()),
        (Component::RootDir, Component::RootDir) => true,
        (Component::CurDir, Component::CurDir) => true,
        (Component::ParentDir, Component::ParentDir) => true,
        (Component::Normal(x), Component::Normal(y)) => same(x.as_str(), y.as_str()),
        _ => false,
    }
}

impl Root {
    /// The components of the root directory.
    pub closed spec fn path(&self) -> Seq<Part> {
        parts(self.dir@)
    }

    /// The root at a canonical directory.
    pub fn new(dir: Vec<Component>) -> (r: Root)
        ensures
            r.path() == parts(dir@),
    {
        Root { dir }
    }

    /// Whether a token may be looked up at all.
    ///
    /// Absolute paths and parent-directory components are refused outright rather than
    /// canonicalized and checked, so the rejection does not depend on whether the escaping path
    /// happens to exist.
    pub fn check_token(&self, absolute: bool, components: &[Component]) -> (r: Result<(), RootError>)
        ensures
            r == if absolute {
                Err::<(), RootError>(RootError::Absolute)
            } else if exists|i: int|
                0 <= i < components@.len() && steps_out(#[trigger] parts(components@)[i]) {
                Err::<(), RootError>(RootError::Escapes)
            } else {
                Ok::<(), RootError>(())
            },
            r is Ok ==> forall|i: int|
                0 <= i < components@.len() ==> !((#[trigger] components@[i]) is ParentDir)
                    && !(components@[i] is Prefix),
    {
        if absolute {
            return Err(RootError::Absolute);
        }
        let mut i: usize = 0;
        while i < components.len()
            invariant
                i <= components.len(),
                !absolute,
                forall|j: int| 0 <= j < i ==> !steps_out(#[trigger] parts(components@)[j]),
                forall|j: int|
                    0 <= j < i ==> !((#[trigger] components@[j]) is ParentDir)
                        && !(components@[j] is Prefix),
            decreases components.len() - i,
        {
            match &components[i] {
                Component::ParentDir | Component::Prefix(_) => {
                    assert(steps_out(parts(components@)[i as int]));
                    return Err(RootError::Escapes);
                },
                _ => {},
            }
            i += 1;
        }
        Ok(())
    }

    /// What an admitted token stands for: a directory, a file, or else a bare symbol.
    pub fn locate(&self, direct: Found, symbol_is_file: bool) -> (r: Result<Located, RootError>)
        ensures
            r == match direct {
                Found::Directory => Ok::<Located, RootError>(Located::Directory),
                Found::File => Ok::<Located, RootError>(Located::File),
                Found::Nothing => if symbol_is_file {
                    Ok::<Located, RootError>(Located::Symbol)
                } else {
                    Err::<Located, RootError>(RootError::Missing)
                },
            },
    {
        match direct {
            Found::Directory => Ok(Located::Directory),
            Found::File => Ok(Located::File),
            Found::Nothing => if symbol_is_file {
                Ok(Located::Symbol)
            } else {
                Err(RootError::Missing)
            },
        }
    }

    /// Rejects a path whose canonical form lies outside the root (a symlink inside the root can
    /// still point outside it).
    pub fn ensure_contained(&self, canonical: &[Component]) -> (r: Result<(), RootError>)
        ensures
            r == if lies_under(parts(canonical@), self.path()) {
                Ok::<(), RootError>(())
            } else {
                Err::<(), RootError>(RootError::Escapes)
            },
    {
        let ghost dir = parts(self.dir@);
        let ghost path = parts(canonical@);
        if canonical.len() < self.dir.len() {
            return Err(RootError::Escapes);
        }
        let mut i: usize = 0;
        while i < self.dir.len()
            invariant
                i <= self.dir.len() <= canonical.len(),
                dir == parts(self.dir@),
                path == parts(canonical@),
                forall|j: int| 0 <= j < i ==> path[j] == #[trigger] dir[j],
            decreases self.dir.len() - i,
        {
            if !same_component(&self.dir[i], &canonical[i]) {
                assert(path.take(dir.len() as int)[i as int] != dir[i as int]);
                return Err(RootError::Escapes);
            }
            i += 1;
        }
        assert(path.take(dir.len() as int) =~= dir);
        Ok(())
    }

    /// Lets the files that a token or an empty selection stands for through, by their canonical
    /// forms: every one of them has to lie under the root.
    pub fn ensure_all_contained(&self, canonical: &Vec<Vec<Component>>) -> (r: Result<(), RootError>)
        ensures
            r == if forall|i: int|
                0 <= i < canonical@.len() ==> lies_under(
                    parts((#[trigger] canonical@[i])@),
                    self.path(),
                ) {
                Ok::<(), RootError>(())
            } else {
                Err::<(), RootError>(RootError::Escapes)
            },
    {
        let mut i: usize = 0;
        while i < canonical.len()
            invariant
                i <= canonical.len(),
                forall|j: int|
                    0 <= j < i ==> lies_under(parts((#[trigger] canonical@[j])@), self.path()),
            decreases canonical.len() - i,
        {
            let ghost path = canonical@[i as int]@;
            if self.ensure_contained(canonical[i].as_slice()).is_err() {
                assert(!lies_under(parts(path), self.path()));
                return Err(RootError::Escapes);
            }
            i += 1;
        }
        Ok(())
    }
}

/// Where a path leads, component by component.
pub open spec fn walked(from: Seq<Part>, path: Seq<Part>) -> Seq<Part>
    decreases path.len(),
{
    if path.len() == 0 {
        from
    } else {
        let before = walked(from, path.drop_last());
        match path.last() {
            Part::Normal(name) => before.push(Part::Normal(name)),
            Part::CurDir => before,
            Part::ParentDir => if before.len() > 0 {
                before.drop_last()
            } else {
                before
            },
            other => seq![other],
        }
    }
}

/// A relative path without a step out stays under where it starts.
pub proof fn admitted_paths_stay_inside(dir: Seq<Part>, path: Seq<Part>)
    requires
        forall|i: int| 0 <= i < path.len() ==> !steps_out(#[trigger] path[i]),
        forall|i: int| 0 <= i < path.len() ==> !(#[trigger] path[i] is RootDir),
    ensures
        lies_under(walked(dir, path), dir),
    decreases path.len(),
{
    if path.len() == 0 {
        assert(dir.take(dir.len() as int) =~= dir);
    } else {
        let rest = path.drop_last();
        assert forall|i: int| 0 <= i < rest.len() implies !steps_out(#[trigger] rest[i]) && !(
        rest[i] is RootDir) by {
            assert(!steps_out(path[i]) && !(path[i] is RootDir));
        }
        admitted_paths_stay_inside(dir, rest);
        let before = walked(dir, rest);
        assert(!steps_out(path[path.len() - 1]) && !(path[path.len() - 1] is RootDir));
        match path.last() {
            Part::Normal(name) => {
                assert(before.push(Part::Normal(name)).take(dir.len() as int) =~= before.take(
                    dir.len() as int,
                ));
            },
            _ => {},
        }
    }
}

/// What lies under a directory that lies under another lies under that one too.
pub proof fn containment_carries_over(path: Seq<Part>, inner: Seq<Part>, outer: Seq<Part>)
    requires
        lies_under(path, inner),
        lies_under(inner, outer),
    ensures
        lies_under(path, outer),
{
    assert(path.take(outer.len() as int) =~= path.take(inner.len() as int).take(
        outer.len() as int,
    ));
}

// ---- selections -----------------------------------------------------------------------

/// The paths without those that came before.
pub open spec fn unique(paths: Seq<Seq<char>>) -> Seq<Seq<char>>
    decreases paths.len(),
{
    if paths.len() == 0 {
        paths
    } else {
        let before = unique(paths.drop_last());
        if before.contains(paths.last()) {
            before
        } else {
            before.push(paths.last())
        }
    }
}

/// No path is selected twice, and none is lost.
pub proof fn selections_are_unique(paths: Seq<Seq<char>>)
    ensures
        unique(paths).no_duplicates(),
        forall|p: Seq<char>| unique(paths).contains(p) <==> #[trigger] paths.contains(p),
    decreases paths.len(),
{
    if paths.len() > 0 {
        let rest = paths.drop_last();
        let p = paths.last();
        selections_are_unique(rest);
        assert(paths =~= rest.push(p));
        assert forall|q: Seq<char>| unique(paths).contains(q) <==> #[trigger] paths.contains(q) by {
            lemma_push_contains(rest, p, q);
            lemma_push_contains(unique(rest), p, q);
        }
    }
}

proof fn lemma_push_contains(s: Seq<Seq<char>>, p: Seq<char>, q: Seq<char>)
    ensures
        s.push(p).contains(q) <==> s.contains(q) || p == q,
{
    if s.contains(q) {
        let i = choose|i: int| 0 <= i < s.len() && s[i] == q;
        assert(s.push(p)[i] == q);
    }
    if p == q {
        assert(s.push(p)[s.len() as int] == q);
    }
    if s.push(p).contains(q) && p != q {
        let i = choose|i: int| 0 <= i < s.push(p).len() && s.push(p)[i] == q;
        assert(s[i] == q);
    }
}

fn holds(paths: &Vec<String>, path: &str) -> (r: bool)
    ensures
        r == crate::text::texts(paths@).contains(path@),
{
    let mut i: usize = 0;
    while i < paths.len()
        invariant
            i <= paths.len(),
            forall|j: int| 0 <= j < i ==> #[trigger] crate::text::texts(paths@)[j] != path@,
        decreases paths.len() - i,
    {
        if same(paths[i].as_str(), path) {
            assert(crate::text::texts(paths@)[i as int] == path@);
            return true;
        }
        i += 1;
    }
    false
}

/// Brings the files of a whole selection together, each one once, in the order it first came up.
pub fn merge_selection(paths: &Vec<String>) -> (r: Vec<String>)
    ensures
        crate::text::texts(r@) == unique(crate::text::texts(paths@)),
{
    let mut out: Vec<String> = Vec::new();
    let ghost all = crate::text::texts(paths@);
    assert(crate::text::texts(out@) =~= Seq::empty());
    let mut i: usize = 0;
    while i < paths.len()
        invariant
            i <= paths.len(),
            all == crate::text::texts(paths@),
            crate::text::texts(out@) == unique(all.take(i as int)),
        decreases paths.len() - i,
    {
        let ghost before = crate::text::texts(out@);
        assert(all.take(i + 1).drop_last() =~= all.take(i as int));
        assert(all.take(i + 1).last() == paths@[i as int]@);
        if !holds(&out, paths[i].as_str()) {
            out.push(paths[i].clone());
            assert(crate::text::texts(out@) =~= before.push(paths@[i as int]@));
        }
        i += 1;
    }
    assert(all.take(i as int) =~= all);
    out
}

/// Whether a selection can be served: an empty one cannot.
pub fn require_files(count: usize) -> (r: Result<(), RootError>)
    ensures
        r == if count == 0 {
            Err::<(), RootError>(RootError::Empty)
        } else {
            Ok::<(), RootError>(())
        },
{
    if count == 0 {
        return Err(RootError::Empty);
    }
    Ok(())
}

/// Whether a token stands for exactly one file.
pub fn single_file(count: usize) -> (r: Result<(), RootError>)
    ensures
        r == if count == 1 {
            Ok::<(), RootError>(())
        } else {
            Err::<(), RootError>(RootError::ManyFiles(count))
        },
{
    if count == 1 {
        return Ok(());
    }
    Err(RootError::ManyFiles(count))
}

// ---- directories ------------------------------------------------------------------------

/// Where the last dot of a name stands.
pub open spec fn last_dot(name: Seq<char>) -> Option<int>
    decreases name.len(),
{
    if name.len() == 0 {
        None
    } else if name.last() == '.' {
        Some(name.len() - 1)
    } else {
        last_dot(name.drop_last())
    }
}

/// The extension of a file name: what follows its last dot, where something stands before that.
pub open spec fn extension_of(name: Seq<char>) -> Option<Seq<char>> {
    if name == seq!['.', '.'] {
        None
    } else {
        match last_dot(name) {
            Some(at) => if at > 0 {
                Some(name.skip(at + 1))
            } else {
                None
            },
            None => None,
        }
    }
}

/// Whether a name is that of a `.fwob` file, in any case.
pub open spec fn names_fwob(name: Seq<char>) -> bool {
    extension_of(name) matches Some(e) && crate::tokens::lower_text(e) == "fwob"@
}

fn is_fwob(name: &str) -> (r: bool)
    ensures
        r == names_fwob(name@),
{
    let chars = chars_of(name);
    let mut n: usize = chars.len();
    assert(name@.take(n as int) =~= name@);
    while n > 0 && chars[n - 1] != '.'
        invariant
            n <= chars.len(),
            chars@ == name@,
            last_dot(name@) == last_dot(name@.take(n as int)),
        decreases n,
    {
        assert(name@.take(n as int).drop_last() =~= name@.take(n - 1));
        n -= 1;
    }
    proof {
        if n > 0 {
            assert(name@.take(n as int).last() == '.');
        }
    }
    if n <= 1 {
        return false;
    }
    let tail = text_of(vstd::slice::slice_subrange(chars.as_slice(), n, chars.len()));
    assert(tail@ =~= name@.skip(n as int));
    proof {
        reveal_strlit("fwob");
        if name@ == seq!['.', '.'] {
            assert(tail@.len() == 0);
            assert(crate::tokens::lower_text(tail@).len() == 0);
        }
    }
    let small = lowered(tail.as_str());
    same(small.as_str(), "fwob")
}

/// One entry of a directory.
#[derive(Debug)]
pub struct DirEntry {
    pub name: String,
    pub is_file: bool,
}

/// The names of the `.fwob` files among a directory's entries.
pub open spec fn fwob_names(entries: Seq<DirEntry>) -> Seq<Seq<char>>
    decreases entries.len(),
{
    if entries.len() == 0 {
        Seq::empty()
    } else if entries.last().is_file && names_fwob(entries.last().name@) {
        fwob_names(entries.drop_last()).push(entries.last().name@)
    } else {
        fwob_names(entries.drop_last())
    }
}

/// Where a name goes among ascending ones: behind those that do not come later.
pub open spec fn name_slot(names: Seq<Seq<char>>, name: Seq<char>) -> int
    decreases names.len(),
{
    if names.len() > 0 && crate::grouping::comes_before(name, names.last()) {
        name_slot(names.drop_last(), name)
    } else {
        names.len() as int
    }
}

/// Names in ascending order.
pub open spec fn sorted_names(names: Seq<Seq<char>>) -> Seq<Seq<char>>
    decreases names.len(),
{
    if names.len() == 0 {
        names
    } else {
        let before = sorted_names(names.drop_last());
        before.insert(name_slot(before, names.last()), names.last())
    }
}

/// Whether no name comes before one that stands in front of it.
pub open spec fn names_ascend(names: Seq<Seq<char>>) -> bool {
    forall|i: int, j: int|
        0 <= i < j < names.len() ==> !#[trigger] crate::grouping::comes_before(names[j], names[i])
}

proof fn lemma_name_slot(names: Seq<Seq<char>>, name: Seq<char>)
    requires
        names_ascend(names),
    ensures
        0 <= name_slot(names, name) <= names.len(),
        forall|i: int|
            0 <= i < name_slot(names, name) ==> !crate::grouping::comes_before(
                name,
                #[trigger] names[i],
            ),
        forall|i: int|
            name_slot(names, name) <= i < names.len() ==> crate::grouping::comes_before(
                name,
                #[trigger] names[i],
            ),
    decreases names.len(),
{
    if names.len() > 0 {
        let rest = names.drop_last();
        let last = names.last();
        if crate::grouping::comes_before(name, last) {
            assert forall|i: int, j: int| 0 <= i < j < rest.len() implies
                !#[trigger] crate::grouping::comes_before(rest[j], rest[i]) by {
                assert(!crate::grouping::comes_before(names[j], names[i]));
            }
            lemma_name_slot(rest, name);
            assert forall|i: int| 0 <= i < name_slot(names, name) implies
                !crate::grouping::comes_before(name, #[trigger] names[i]) by {
                assert(rest[i] == names[i]);
            }
            assert forall|i: int| name_slot(names, name) <= i < names.len() implies
                crate::grouping::comes_before(name, #[trigger] names[i]) by {
                if i < rest.len() {
                    assert(rest[i] == names[i]);
                }
            }
        } else {
            assert forall|i: int| 0 <= i < names.len() implies !crate::grouping::comes_before(
                name,
                #[trigger] names[i],
            ) by {
                if i < rest.len() {
                    assert(!crate::grouping::comes_before(names[names.len() - 1], names[i]));
                    crate::grouping::texts_are_ordered(last, names[i]);
                    if crate::grouping::comes_before(name, names[i]) && names[i] != last {
                        crate::grouping::order_of_texts_carries_over(name, names[i], last);
                    }
                }
            }
        }
    }
}

/// A directory's files are listed in one order, whatever order they were found in: ascending, and
/// each one found is listed.
pub proof fn listings_ascend(names: Seq<Seq<char>>)
    ensures
        names_ascend(sorted_names(names)),
        sorted_names(names).to_multiset() == names.to_multiset(),
        sorted_names(names).len() == names.len(),
    decreases names.len(),
{
    if names.len() > 0 {
        let rest = names.drop_last();
        let name = names.last();
        let before = sorted_names(rest);
        listings_ascend(rest);
        lemma_name_slot(before, name);
        let at = name_slot(before, name);
        let after = before.insert(at, name);
        assert forall|i: int, j: int| 0 <= i < j < after.len() implies
            !#[trigger] crate::grouping::comes_before(after[j], after[i]) by {
            let p = if i < at { i } else { i - 1 };
            let q = if j < at { j } else { j - 1 };
            if i == at {
                assert(after[j] == before[q]);
                crate::grouping::texts_are_ordered(name, before[q]);
            } else if j == at {
                assert(after[i] == before[p]);
            } else {
                assert(after[i] == before[p] && after[j] == before[q]);
                assert(!crate::grouping::comes_before(before[q], before[p]));
            }
        }
        broadcast use vstd::seq_lib::group_to_multiset_ensures;
        assert(after.remove(at) =~= before);
        assert(names =~= rest.push(name));
    }
}

/// The immediate `*.fwob` files of a directory, sorted so responses are deterministic.
pub fn collect_dir(entries: &Vec<DirEntry>) -> (r: Vec<String>)
    ensures
        crate::text::texts(r@) == sorted_names(fwob_names(entries@)),
{
    let mut out: Vec<String> = Vec::new();
    assert(crate::text::texts(out@) =~= Seq::empty());
    let mut i: usize = 0;
    while i < entries.len()
        invariant
            i <= entries.len(),
            crate::text::texts(out@) == sorted_names(fwob_names(entries@.take(i as int))),
        decreases entries.len() - i,
    {
        let ghost before = crate::text::texts(out@);
        assert(entries@.take(i + 1).drop_last() =~= entries@.take(i as int));
        if entries[i].is_file && is_fwob(entries[i].name.as_str()) {
            let name = entries[i].name.as_str();
            let mut at: usize = out.len();
            assert(before.take(at as int) =~= before);
            while at > 0 && place(name, out[at - 1].as_str()) == Side::Before
                invariant
                    at <= out.len(),
                    before == crate::text::texts(out@),
                    name_slot(before, name@) == name_slot(before.take(at as int), name@),
                decreases at,
            {
                assert(before.take(at as int).drop_last() =~= before.take(at - 1));
                assert(before.take(at as int).last() == out@[at - 1]@);
                at -= 1;
            }
            proof {
                if at > 0 {
                    assert(before.take(at as int).last() == out@[at - 1]@);
                }
                let kept = fwob_names(entries@.take(i as int));
                assert(fwob_names(entries@.take(i + 1)) == kept.push(name@));
                assert(kept.push(name@).drop_last() =~= kept);
            }
            out.insert(at, entries[i].name.clone());
            assert(crate::text::texts(out@) =~= before.insert(at as int, name@));
        }
        i += 1;
    }
    assert(entries@.take(i as int) =~= entries@);
    out
}

} // verus!
